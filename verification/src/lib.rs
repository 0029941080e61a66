//! Detects breaking changes between two versions of a package that publishes
//! a JavaScript/TypeScript API: removed shipped assets, removed entry points,
//! and removed or renamed public exports.
//!
//! The heart of the library is the export extractor in [`walker`]: a
//! module-graph walk that resolves each entry point's exported surface —
//! re-exports, namespace re-exports and renames included — into a canonical
//! `(default, named)` pair, with an exact functional specification.
//! [`contents`] and [`globs`] model what a package ships under the
//! registry's publishing rules, [`entries`] resolves the manifest's entry
//! declarations, [`diff`] compares two package values, and [`results`]
//! tallies the report and its exit status. [`tarball`] and [`pkg`] cover
//! release archives, integrity checking and configuration. [`provenance`]
//! proves that every extracted export is backed by a real declaration.

pub mod contents;
pub mod diff;
pub mod ecma;
pub mod entries;
pub mod files;
pub mod globs;
pub mod jsonval;
pub mod paths;
pub mod pkg;
pub mod provenance;
pub mod results;
pub mod strmap;
pub mod strutil;
pub mod tarball;
pub mod walker;
