//! The package content source: a uniform facade over what a package ships,
//! backed either by a walked directory tree or by an unpacked release
//! archive, filtered by the publishing glob program. The file inventory is
//! a path-to-bytes map; assets are the accepted files that are not JS/TS
//! source modules.

use vstd::prelude::*;
use crate::strmap::StrMap;
use crate::globs::{
    GlobPat, GlobError, sources_of, spec_glob_program_accepts, spec_include_sources,
    spec_suppression_sources, spec_exclude_sources, spec_negation_sources, opt_text,
    all_globs_ok, include_sources, compile_all, get_file_exclude_patterns,
};
use crate::jsonval::{JsonVal, json_view};
use crate::files::{FileExt, spec_file_ext};
use crate::paths::{normalize_path, spec_normalize, path_shape_ok, lemma_normalize_shape};

verus! {

/// The inventory a raw path-to-bytes map describes once every key is
/// normalized: later entries win when two raw keys normalize alike.
pub open spec fn spec_normalized_inventory(files: &StrMap<Vec<u8>>, i: int) -> Map<
    Seq<char>,
    Seq<u8>,
>
    decreases i,
{
    if i <= 0 {
        Map::empty()
    } else {
        spec_normalized_inventory(files, i - 1).insert(
            spec_normalize(files.key_at(i - 1)),
            files.val_at(i - 1),
        )
    }
}

/// Every key of the normalized inventory is a well-shaped relative path.
pub proof fn lemma_normalized_inventory_shape(files: &StrMap<Vec<u8>>, i: int)
    ensures
        forall|k: Seq<char>|
            #[trigger] spec_normalized_inventory(files, i).contains_key(k) ==> path_shape_ok(k),
    decreases i,
{
    if i > 0 {
        lemma_normalized_inventory_shape(files, i - 1);
        lemma_normalize_shape(files.key_at(i - 1));
        assert forall|k: Seq<char>|
            #[trigger] spec_normalized_inventory(files, i).contains_key(k) implies path_shape_ok(
            k,
        ) by {
            if k != spec_normalize(files.key_at(i - 1)) {
                assert(spec_normalized_inventory(files, i - 1).contains_key(k));
            }
        }
    }
}

/// A package's shipped content. `files` maps each path (relative to the
/// package root, `/`-separated) to its bytes; the three pattern lists are
/// the publishing glob program built from the manifest and `.npmignore`.
pub struct PkgContents {
    pub files: StrMap<Vec<u8>>,
    pub include_patterns: Vec<GlobPat>,
    pub exclude_patterns: Vec<GlobPat>,
    pub exclude_negation_patterns: Vec<GlobPat>,
    pub tarball: bool,
}

impl PkgContents {
    /// Whether the glob program accepts `p`.
    pub open spec fn spec_accepts(&self, p: Seq<char>) -> bool {
        spec_glob_program_accepts(
            sources_of(self.include_patterns@),
            sources_of(self.exclude_patterns@),
            sources_of(self.exclude_negation_patterns@),
            p,
        )
    }

    /// Whether `p` is one of the package's assets: a shipped file the glob
    /// program accepts whose extension is not a JS/TS source extension.
    pub open spec fn spec_is_asset(&self, p: Seq<char>) -> bool {
        self.files@.contains_key(p) && self.spec_accepts(p) && !spec_file_ext(p).is_source()
    }

    /// The content-source path invariant: every inventory key is a
    /// normalized package-root-relative path — never absolute, never
    /// holding a `.` or `..` segment. Established by `PkgContents::new`,
    /// which normalizes every incoming key.
    pub open spec fn wf(&self) -> bool {
        forall|k: Seq<char>| #[trigger] self.files@.contains_key(k) ==> path_shape_ok(k)
    }

    /// Build a content source from a file inventory and the manifest
    /// `files` value, with any `.npmignore` body. The glob program is
    /// built the same way for both variants; `tarball` only relaxes entry
    /// existence validation.
    pub fn new(
        files: StrMap<Vec<u8>>,
        files_field: &JsonVal,
        npmignore: Option<&str>,
        tarball: bool,
    ) -> (r: Result<PkgContents, GlobError>)
        ensures
            (r matches Ok(c) ==> c.files@ == spec_normalized_inventory(
                &files,
                files.spec_len() as int,
            ) && c.wf() && c.tarball == tarball && sources_of(
                c.include_patterns@,
            ) == spec_include_sources(json_view(*files_field)) && sources_of(c.exclude_patterns@)
                == spec_exclude_sources(
                spec_suppression_sources(json_view(*files_field)),
                opt_text(npmignore),
            ) && sources_of(c.exclude_negation_patterns@) == spec_negation_sources(
                opt_text(npmignore),
            )),
            (r is Err) ==> !(all_globs_ok(spec_include_sources(json_view(*files_field)))
                && all_globs_ok(
                spec_exclude_sources(
                    spec_suppression_sources(json_view(*files_field)),
                    opt_text(npmignore),
                ),
            ) && all_globs_ok(spec_negation_sources(opt_text(npmignore)))),
    {
        let mut normalized: StrMap<Vec<u8>> = StrMap::new();
        let n = files.len();
        let mut i: usize = 0;
        while i < n
            invariant
                i <= n,
                n == files.spec_len(),
                normalized@ == spec_normalized_inventory(&files, i as int),
            decreases n - i,
        {
            let key = normalize_path(files.key_ref(i).as_str());
            let val = copy_bytes(files.val_ref(i));
            normalized.insert(key, val);
            i = i + 1;
        }
        proof {
            lemma_normalized_inventory_shape(&files, files.spec_len() as int);
        }
        let srcs = include_sources(files_field);
        let include_patterns = match compile_all(srcs) {
            Result::Ok(v) => v,
            Result::Err(e) => {
                return Result::Err(e);
            },
        };
        let suppression_patterns: Vec<GlobPat> = if files_field.arr_len() == 0 {
            Vec::new()
        } else {
            match compile_all(include_sources(files_field)) {
                Result::Ok(v) => v,
                Result::Err(e) => {
                    return Result::Err(e);
                },
            }
        };
        proof {
            assert(sources_of(suppression_patterns@) =~= spec_suppression_sources(
                json_view(*files_field),
            ));
        }
        let (exclude_patterns, exclude_negation_patterns) = match get_file_exclude_patterns(
            &suppression_patterns,
            npmignore,
        ) {
            Result::Ok(p) => p,
            Result::Err(e) => {
                return Result::Err(e);
            },
        };
        Result::Ok(
            PkgContents {
                files: normalized,
                include_patterns,
                exclude_patterns,
                exclude_negation_patterns,
                tarball,
            },
        )
    }

    pub fn is_tarball(&self) -> (r: bool)
        ensures
            r == self.tarball,
    {
        self.tarball
    }

    /// The package's asset paths: each shipped file the glob program
    /// accepts whose extension is outside the JS/TS source set, listed
    /// once, in inventory order.
    #[verifier::loop_isolation(false)]
    pub fn asset_list(&self) -> (r: Vec<String>)
        ensures
            forall|i: int| 0 <= i < r@.len() ==> self.spec_is_asset(#[trigger] r@[i]@),
            forall|p: Seq<char>|
                self.spec_is_asset(p) ==> r@.map_values(|s: String| s@).contains(p),
            forall|i: int, j: int| 0 <= i < j < r@.len() ==> r@[i]@ != r@[j]@,
    {
        self.files.correspond();
        let n = self.files.len();
        let mut r: Vec<String> = Vec::new();
        let mut i: usize = 0;
        while i < n
            invariant
                i <= n,
                n == self.files.spec_len(),
                forall|a: int| 0 <= a < r@.len() ==> self.spec_is_asset(#[trigger] r@[a]@),
                forall|j: int|
                    0 <= j < i && self.spec_is_asset(#[trigger] self.files.key_at(j)) ==> r@
                        .map_values(|s: String| s@).contains(self.files.key_at(j)),
                forall|a: int|
                    0 <= a < r@.len() ==> exists|ja: int|
                        0 <= ja < i && (#[trigger] r@[a]@) == self.files.key_at(ja),
                forall|a: int, b: int| 0 <= a < b < r@.len() ==> r@[a]@ != r@[b]@,
            decreases n - i,
        {
            let p = self.files.key_ref(i);
            let ext = FileExt::from(p.as_str());
            let accepted = (crate::globs::path_matches_a_pattern_in(
                p.as_str(),
                &self.include_patterns,
            ) && !crate::globs::path_excluded_by_prefix(p.as_str(), &self.exclude_patterns))
                || crate::globs::path_matches_a_pattern_in(
                p.as_str(),
                &self.exclude_negation_patterns,
            );
            if accepted && !ext.is_source() {
                let ghost prev = r@;
                r.push(String::from_str(p.as_str()));
                proof {
                    assert(self.files@.contains_key(self.files.key_at(i as int)));
                    assert(r@[r@.len() - 1]@ == self.files.key_at(i as int));
                    assert(self.spec_is_asset(r@[r@.len() - 1]@));
                    assert forall|j: int|
                        0 <= j < i + 1 && self.spec_is_asset(
                            #[trigger] self.files.key_at(j),
                        ) implies r@.map_values(|s: String| s@).contains(self.files.key_at(j)) by {
                        if j < i {
                            let k = choose|k: int|
                                0 <= k < prev.len() && (#[trigger] prev[k]@) == self.files.key_at(
                                    j,
                                );
                            assert(r@.map_values(|s: String| s@)[k] == self.files.key_at(j));
                        } else {
                            assert(r@.map_values(|s: String| s@)[r@.len() - 1] == self.files.key_at(
                                i as int,
                            ));
                        }
                    }
                    assert forall|a: int|
                        0 <= a < r@.len() implies exists|ja: int|
                        0 <= ja < i + 1 && (#[trigger] r@[a]@) == self.files.key_at(ja) by {
                        if a < r@.len() - 1 {
                            let ja = choose|ja: int|
                                0 <= ja < i && (#[trigger] prev[a]@) == self.files.key_at(ja);
                            assert(r@[a]@ == self.files.key_at(ja));
                        } else {
                            assert(r@[a]@ == self.files.key_at(i as int));
                        }
                    }
                    assert forall|a: int, b: int| 0 <= a < b < r@.len() implies r@[a]@ != r@[
                    b]@ by {
                        if b == r@.len() - 1 {
                            let ja = choose|ja: int|
                                0 <= ja < i && (#[trigger] prev[a]@) == self.files.key_at(ja);
                            assert(r@[b]@ == self.files.key_at(i as int));
                            assert(self.files.key_at(ja) != self.files.key_at(i as int));
                        }
                    }
                }
            }
            i = i + 1;
        }
        proof {
            assert forall|p: Seq<char>| self.spec_is_asset(p) implies r@.map_values(
                |s: String| s@,
            ).contains(p) by {
                let j = choose|j: int|
                    0 <= j < self.files.spec_len() && #[trigger] self.files.key_at(j) == p;
                assert(self.spec_is_asset(self.files.key_at(j)));
            }
        }
        r
    }

    /// The bytes shipped at `path`, when the package ships that file.
    pub fn load_file(&self, path: &str) -> (r: Option<&Vec<u8>>)
        ensures
            match r {
                Option::Some(data) => self.files@.contains_key(path@) && self.files@[path@]
                    == data@,
                Option::None => !self.files@.contains_key(path@),
            },
    {
        self.files.get(path)
    }
}

/// A byte-for-byte copy.
fn copy_bytes(src: &Vec<u8>) -> (r: Vec<u8>)
    ensures
        r@ == src@,
{
    let mut out: Vec<u8> = Vec::new();
    let mut b: usize = 0;
    proof {
        assert(out@ =~= src@.take(0));
    }
    while b < src.len()
        invariant
            b <= src@.len(),
            out@ =~= src@.take(b as int),
        decreases src@.len() - b,
    {
        out.push(src[b]);
        proof {
            assert(out@ =~= src@.take(b + 1));
        }
        b = b + 1;
    }
    proof {
        assert(src@.take(src@.len() as int) =~= src@);
    }
    out
}

/// When every raw key is already normalized, the inventory is kept as
/// given.
pub proof fn lemma_normalized_inventory_id(files: &StrMap<Vec<u8>>)
    requires
        forall|j: int|
            0 <= j < files.spec_len() ==> spec_normalize(#[trigger] files.key_at(j))
                == files.key_at(j),
    ensures
        spec_normalized_inventory(&files, files.spec_len() as int) == files@,
{
    files.lemma_prefix_views();
    lemma_normalized_inventory_prefix(files, files.spec_len() as int);
}

proof fn lemma_normalized_inventory_prefix(files: &StrMap<Vec<u8>>, i: int)
    requires
        0 <= i <= files.spec_len(),
        forall|j: int|
            0 <= j < files.spec_len() ==> spec_normalize(#[trigger] files.key_at(j))
                == files.key_at(j),
        forall|j: int|
            0 <= j <= files.spec_len() ==> (#[trigger] files.prefix_view(j)) == (if j == 0 {
                Map::<Seq<char>, Seq<u8>>::empty()
            } else {
                files.prefix_view(j - 1).insert(files.key_at(j - 1), files.val_at(j - 1))
            }),
        files.prefix_view(files.spec_len() as int) == files@,
    ensures
        spec_normalized_inventory(files, i) == files.prefix_view(i),
    decreases i,
{
    if i > 0 {
        lemma_normalized_inventory_prefix(files, i - 1);
    }
}

/// Every listed asset loads: an asset path is by construction a key of the
/// file inventory, so `load_file` returns its bytes.
pub proof fn lemma_asset_loads(c: &PkgContents, p: Seq<char>)
    requires
        c.spec_is_asset(p),
    ensures
        c.files@.contains_key(p),
{
}

/// Every asset of a well-formed content source is a normalized
/// package-root-relative path: never absolute, never escaping through a
/// `..` segment.
pub proof fn lemma_asset_shape(c: &PkgContents, p: Seq<char>)
    requires
        c.wf(),
        c.spec_is_asset(p),
    ensures
        path_shape_ok(p),
{
}

} // verus!
