//! The entry resolver: reads `main`, `bin`, `browser` and `exports` from
//! the manifest and normalizes each to a map from logical name to an entry
//! descriptor pointing at a file of the content source, validating
//! extensions, existence and publication.

use vstd::prelude::*;
use crate::contents::PkgContents;
use crate::files::{FileExt, ExtView, spec_file_ext};
use crate::globs::{sources_of, spec_matches_any};
use crate::jsonval::{JsonVal, JsonView, json_view, spec_obj_get};
use crate::paths::{normalize_path, spec_normalize};
use crate::strmap::StrMap;
use crate::strutil::{str_eq, starts_with, spec_starts_with};

verus! {

/// A manifest-declared entry point: its logical name, its normalized path
/// inside the content source, and its file extension.
pub struct PkgEntry {
    pub name: String,
    pub path: String,
    pub ext: FileExt,
}

#[verifier::ext_equal]
pub struct PkgEntryView {
    pub name: Seq<char>,
    pub path: Seq<char>,
    pub ext: ExtView,
}

impl View for PkgEntry {
    type V = PkgEntryView;

    open spec fn view(&self) -> PkgEntryView {
        PkgEntryView { name: self.name@, path: self.path@, ext: self.ext@ }
    }
}

/// A fault of entry resolution.
#[derive(Debug)]
pub enum EntriesError {
    /// The entry's extension is outside the JS/TS set.
    InvalidEntryExtension(String),
    /// The entry file is not in the content source.
    EntryMissing(String),
    /// The entry file exists but no include pattern covers it.
    EntryNotPublished(String),
    /// A browser override carried the value `true`.
    InvalidBrowserOverride(String),
    /// A field or member had a shape the resolver does not accept.
    InvalidEntryField(String),
}

pub enum EntriesErrView {
    InvalidEntryExtension(Seq<char>),
    EntryMissing(Seq<char>),
    EntryNotPublished(Seq<char>),
    InvalidBrowserOverride(Seq<char>),
    InvalidEntryField(Seq<char>),
}

impl View for EntriesError {
    type V = EntriesErrView;

    open spec fn view(&self) -> EntriesErrView {
        match self {
            EntriesError::InvalidEntryExtension(s) => EntriesErrView::InvalidEntryExtension(s@),
            EntriesError::EntryMissing(s) => EntriesErrView::EntryMissing(s@),
            EntriesError::EntryNotPublished(s) => EntriesErrView::EntryNotPublished(s@),
            EntriesError::InvalidBrowserOverride(s) => EntriesErrView::InvalidBrowserOverride(s@),
            EntriesError::InvalidEntryField(s) => EntriesErrView::InvalidEntryField(s@),
        }
    }
}

/// Entry construction: the extension must not be an unknown one; for
/// directory-backed sources the (normalized) file must exist and be
/// covered by an include pattern.
pub open spec fn spec_entry_new(name: Seq<char>, path: Seq<char>, c: &PkgContents) -> Result<
    PkgEntryView,
    EntriesErrView,
> {
    let ext = spec_file_ext(path);
    let norm = spec_normalize(path);
    if ext is Other {
        Result::Err(EntriesErrView::InvalidEntryExtension(ext->Other_0))
    } else if c.tarball {
        Result::Ok(PkgEntryView { name, path: norm, ext })
    } else if !c.files@.contains_key(norm) {
        Result::Err(EntriesErrView::EntryMissing(norm))
    } else if !spec_matches_any(sources_of(c.include_patterns@), norm) {
        Result::Err(EntriesErrView::EntryNotPublished(norm))
    } else {
        Result::Ok(PkgEntryView { name, path: norm, ext })
    }
}

impl PkgEntry {
    pub fn new(name: String, path: String, contents: &PkgContents) -> (r: Result<
        PkgEntry,
        EntriesError,
    >)
        ensures
            (r matches Ok(e) ==> spec_entry_new(name@, path@, contents) == Result::<
                PkgEntryView,
                EntriesErrView,
            >::Ok(e@)),
            (r matches Err(e) ==> spec_entry_new(name@, path@, contents) == Result::<
                PkgEntryView,
                EntriesErrView,
            >::Err(e@)),
    {
        let ext = FileExt::from(path.as_str());
        let norm = normalize_path(path.as_str());
        match &ext {
            FileExt::Other(other) => {
                return Result::Err(
                    EntriesError::InvalidEntryExtension(String::from_str(other.as_str())),
                );
            },
            _ => {},
        }
        if contents.is_tarball() {
            return Result::Ok(PkgEntry { name, path: norm, ext });
        }
        if !contents.files.contains_key(norm.as_str()) {
            return Result::Err(EntriesError::EntryMissing(norm));
        }
        if !crate::globs::path_matches_a_pattern_in(norm.as_str(), &contents.include_patterns) {
            return Result::Err(EntriesError::EntryNotPublished(norm));
        }
        Result::Ok(PkgEntry { name, path: norm, ext })
    }

    /// The bytes of this entry's file in the content source.
    pub fn load_file<'a>(&self, contents: &'a PkgContents) -> (r: Option<&'a Vec<u8>>)
        ensures
            match r {
                Option::Some(data) => contents.files@.contains_key(self.path@)
                    && contents.files@.index(self.path@) == data@,
                Option::None => !contents.files@.contains_key(self.path@),
            },
    {
        contents.load_file(self.path.as_str())
    }

    /// The directory this entry's file sits in, against which its
    /// relative re-exports resolve.
    pub fn dir_path(&self) -> (r: String)
        ensures
            r@ == crate::paths::spec_parent(self.path@),
    {
        crate::paths::parent_dir(self.path.as_str())
    }
}

/// Every validated directory-backed entry exists in the content source and
/// is covered by an include pattern of the publishing globs.
pub proof fn lemma_entry_published(
    name: Seq<char>,
    path: Seq<char>,
    c: &PkgContents,
    e: PkgEntryView,
)
    requires
        !c.tarball,
        spec_entry_new(name, path, c) == Result::<PkgEntryView, EntriesErrView>::Ok(e),
    ensures
        c.files@.contains_key(e.path),
        spec_matches_any(sources_of(c.include_patterns@), e.path),
{
}

// ---------------------------------------------------------------------------
// Field resolution.
// ---------------------------------------------------------------------------

/// One member of a nested entry object: its value must be a string path.
pub open spec fn spec_sub_step(
    c: &PkgContents,
    acc: Map<Seq<char>, PkgEntryView>,
    k: Seq<char>,
    v: JsonView,
) -> Result<Map<Seq<char>, PkgEntryView>, EntriesErrView> {
    if !(v is Str) {
        Result::Err(EntriesErrView::InvalidEntryField(k))
    } else {
        match spec_entry_new(k, v->Str_0, c) {
            Result::Ok(e) => Result::Ok(acc.insert(k, e)),
            Result::Err(er) => Result::Err(er),
        }
    }
}

pub open spec fn spec_sub_fold(
    c: &PkgContents,
    acc: Map<Seq<char>, PkgEntryView>,
    es: Seq<(Seq<char>, JsonView)>,
) -> Result<Map<Seq<char>, PkgEntryView>, EntriesErrView>
    decreases es.len(),
{
    if es.len() == 0 {
        Result::Ok(acc)
    } else {
        match spec_sub_fold(c, acc, es.drop_last()) {
            Result::Ok(m) => spec_sub_step(c, m, es.last().0, es.last().1),
            Result::Err(er) => Result::Err(er),
        }
    }
}

/// One member of a `bin`/`browser`/`exports` object. For `browser`, a
/// `true` override is invalid, a `false` one is suppressed from analysis,
/// and a `./`-prefixed name must exist in a directory-backed source.
pub open spec fn spec_soe_step(
    is_browser: bool,
    c: &PkgContents,
    acc: Map<Seq<char>, PkgEntryView>,
    k: Seq<char>,
    v: JsonView,
) -> Result<Map<Seq<char>, PkgEntryView>, EntriesErrView> {
    if is_browser && v is Bool && v->Bool_0 {
        Result::Err(EntriesErrView::InvalidBrowserOverride(k))
    } else if is_browser && spec_starts_with(k, "./"@) && !c.tarball && !c.files@.contains_key(
        spec_normalize(k),
    ) {
        Result::Err(EntriesErrView::EntryMissing(spec_normalize(k)))
    } else if is_browser && v is Bool {
        Result::Ok(acc)
    } else if v is Str {
        match spec_entry_new(k, v->Str_0, c) {
            Result::Ok(e) => Result::Ok(acc.insert(k, e)),
            Result::Err(er) => Result::Err(er),
        }
    } else if !(v is Obj) {
        Result::Err(EntriesErrView::InvalidEntryField(k))
    } else {
        spec_sub_fold(c, acc, v->Obj_0)
    }
}

pub open spec fn spec_soe_fold(
    is_browser: bool,
    c: &PkgContents,
    acc: Map<Seq<char>, PkgEntryView>,
    es: Seq<(Seq<char>, JsonView)>,
) -> Result<Map<Seq<char>, PkgEntryView>, EntriesErrView>
    decreases es.len(),
{
    if es.len() == 0 {
        Result::Ok(acc)
    } else {
        match spec_soe_fold(is_browser, c, acc, es.drop_last()) {
            Result::Ok(m) => spec_soe_step(is_browser, c, m, es.last().0, es.last().1),
            Result::Err(er) => Result::Err(er),
        }
    }
}

/// The entries a string-or-object manifest field declares: a string is a
/// single entry under the field's own name; an object contributes one
/// entry per member, nested objects flattened one level.
pub open spec fn spec_resolve_soe(field: Seq<char>, root: JsonView, c: &PkgContents) -> Result<
    Map<Seq<char>, PkgEntryView>,
    EntriesErrView,
> {
    let prop = if root is Obj {
        spec_obj_get(root->Obj_0, field)
    } else {
        Option::None
    };
    match prop {
        Option::None => Result::Ok(Map::empty()),
        Option::Some(v) => if v is Str {
            match spec_entry_new(field, v->Str_0, c) {
                Result::Ok(e) => Result::Ok(Map::empty().insert(field, e)),
                Result::Err(er) => Result::Err(er),
            }
        } else if !(v is Obj) {
            Result::Ok(Map::empty())
        } else {
            spec_soe_fold(field == "browser"@, c, Map::empty(), v->Obj_0)
        },
    }
}

/// The single `main` entry: the manifest's `main` string, defaulting to
/// `index.js`.
pub open spec fn spec_resolve_main(root: JsonView, c: &PkgContents) -> Result<
    Map<Seq<char>, PkgEntryView>,
    EntriesErrView,
> {
    let prop = if root is Obj {
        spec_obj_get(root->Obj_0, "main"@)
    } else {
        Option::None
    };
    let path = match prop {
        Option::Some(v) => if v is Str {
            v->Str_0
        } else {
            "index.js"@
        },
        Option::None => "index.js"@,
    };
    match spec_entry_new("main"@, path, c) {
        Result::Ok(e) => Result::Ok(Map::empty().insert("main"@, e)),
        Result::Err(er) => Result::Err(er),
    }
}

proof fn lemma_soe_fold_err(
    is_browser: bool,
    c: &PkgContents,
    acc: Map<Seq<char>, PkgEntryView>,
    es: Seq<(Seq<char>, JsonView)>,
    k: int,
)
    requires
        0 <= k <= es.len(),
        spec_soe_fold(is_browser, c, acc, es.take(k)) is Err,
    ensures
        spec_soe_fold(is_browser, c, acc, es) == spec_soe_fold(is_browser, c, acc, es.take(k)),
    decreases es.len() - k,
{
    if k < es.len() {
        assert(es.take(k + 1).drop_last() =~= es.take(k));
        lemma_soe_fold_err(is_browser, c, acc, es, k + 1);
    } else {
        assert(es.take(k) =~= es);
    }
}

proof fn lemma_sub_fold_err(
    c: &PkgContents,
    acc: Map<Seq<char>, PkgEntryView>,
    es: Seq<(Seq<char>, JsonView)>,
    k: int,
)
    requires
        0 <= k <= es.len(),
        spec_sub_fold(c, acc, es.take(k)) is Err,
    ensures
        spec_sub_fold(c, acc, es) == spec_sub_fold(c, acc, es.take(k)),
    decreases es.len() - k,
{
    if k < es.len() {
        assert(es.take(k + 1).drop_last() =~= es.take(k));
        lemma_sub_fold_err(c, acc, es, k + 1);
    } else {
        assert(es.take(k) =~= es);
    }
}

/// Resolve a `bin`, `browser` or `exports` field into its entry map.
#[verifier::loop_isolation(false)]
pub fn resolve_string_or_object_entries(
    field_name: &str,
    pkg_json: &JsonVal,
    contents: &PkgContents,
) -> (r: Result<StrMap<PkgEntry>, EntriesError>)
    ensures
        (r matches Ok(m) ==> spec_resolve_soe(field_name@, json_view(*pkg_json), contents)
            == Result::<Map<Seq<char>, PkgEntryView>, EntriesErrView>::Ok(m@)),
        (r matches Err(e) ==> spec_resolve_soe(field_name@, json_view(*pkg_json), contents)
            == Result::<Map<Seq<char>, PkgEntryView>, EntriesErrView>::Err(e@)),
{
    let ghost root = json_view(*pkg_json);
    let mut entries: StrMap<PkgEntry> = StrMap::new();
    let prop = match pkg_json.obj_get(field_name) {
        Option::Some(p) => p,
        Option::None => {
            return Result::Ok(entries);
        },
    };
    let ghost propv = json_view(*prop);
    match prop.str_value() {
        Option::Some(s) => {
            let entry = match PkgEntry::new(
                String::from_str(field_name),
                String::from_str(s.as_str()),
                contents,
            ) {
                Result::Ok(e) => e,
                Result::Err(er) => {
                    return Result::Err(er);
                },
            };
            entries.insert(String::from_str(field_name), entry);
            return Result::Ok(entries);
        },
        Option::None => {},
    }
    if !prop.is_object() {
        return Result::Ok(entries);
    }
    let is_browser = str_eq(field_name, "browser");
    let ghost es = propv->Obj_0;
    let n = prop.obj_len();
    let mut i: usize = 0;
    proof {
        assert(es.take(0) =~= Seq::<(Seq<char>, JsonView)>::empty());
    }
    while i < n
        invariant
            i <= n,
            n == es.len(),
            propv is Obj,
            es == propv->Obj_0,
            spec_soe_fold(is_browser, contents, Map::empty(), es.take(i as int)) == Result::<
                Map<Seq<char>, PkgEntryView>,
                EntriesErrView,
            >::Ok(entries@),
        decreases n - i,
    {
        proof {
            assert(es.take(i + 1).drop_last() =~= es.take(i as int));
            assert(es.take(i + 1).last() == es[i as int]);
        }
        let ghost acc = entries@;
        let (entry_name, entry_value) = prop.obj_at(i);
        let ghost k = entry_name@;
        let ghost v = json_view(*entry_value);
        if is_browser {
            let is_bool = entry_value.is_boolean();
            if is_bool {
                match entry_value.as_bool() {
                    Option::Some(true) => {
                        proof {
                            lemma_soe_fold_err(is_browser, contents, Map::empty(), es, i + 1);
                        }
                        return Result::Err(
                            EntriesError::InvalidBrowserOverride(
                                String::from_str(entry_name.as_str()),
                            ),
                        );
                    },
                    _ => {},
                }
            }
            if starts_with(entry_name.as_str(), "./") && !contents.is_tarball() {
                let norm = normalize_path(entry_name.as_str());
                if !contents.files.contains_key(norm.as_str()) {
                    proof {
                        lemma_soe_fold_err(is_browser, contents, Map::empty(), es, i + 1);
                    }
                    return Result::Err(EntriesError::EntryMissing(norm));
                }
            }
            if is_bool {
                i = i + 1;
                continue ;
            }
        }
        match entry_value.str_value() {
            Option::Some(s) => {
                let entry = match PkgEntry::new(
                    String::from_str(entry_name.as_str()),
                    String::from_str(s.as_str()),
                    contents,
                ) {
                    Result::Ok(e) => e,
                    Result::Err(er) => {
                        proof {
                            lemma_soe_fold_err(is_browser, contents, Map::empty(), es, i + 1);
                        }
                        return Result::Err(er);
                    },
                };
                entries.insert(String::from_str(entry_name.as_str()), entry);
                i = i + 1;
                continue ;
            },
            Option::None => {},
        }
        if !entry_value.is_object() {
            proof {
                lemma_soe_fold_err(is_browser, contents, Map::empty(), es, i + 1);
            }
            return Result::Err(
                EntriesError::InvalidEntryField(String::from_str(entry_name.as_str())),
            );
        }
        let ghost subs = v->Obj_0;
        let m = entry_value.obj_len();
        let mut j: usize = 0;
        proof {
            assert(subs.take(0) =~= Seq::<(Seq<char>, JsonView)>::empty());
        }
        while j < m
            invariant
                j <= m,
                m == subs.len(),
                i < n,
                n == es.len(),
                propv is Obj,
                es == propv->Obj_0,
                es.take(i + 1).drop_last() =~= es.take(i as int),
                es.take(i + 1).last() == es[i as int],
                es[i as int] == (k, v),
                v is Obj,
                subs == v->Obj_0,
                is_browser ==> !(v is Bool),
                spec_soe_fold(is_browser, contents, Map::empty(), es.take(i as int)) == Result::<
                    Map<Seq<char>, PkgEntryView>,
                    EntriesErrView,
                >::Ok(acc),
                spec_sub_fold(contents, acc, subs.take(j as int)) == Result::<
                    Map<Seq<char>, PkgEntryView>,
                    EntriesErrView,
                >::Ok(entries@),
            decreases m - j,
        {
            proof {
                assert(subs.take(j + 1).drop_last() =~= subs.take(j as int));
                assert(subs.take(j + 1).last() == subs[j as int]);
            }
            let (sub_name, sub_value) = entry_value.obj_at(j);
            match sub_value.str_value() {
                Option::Some(s) => {
                    let entry = match PkgEntry::new(
                        String::from_str(sub_name.as_str()),
                        String::from_str(s.as_str()),
                        contents,
                    ) {
                        Result::Ok(e) => e,
                        Result::Err(er) => {
                            proof {
                                lemma_sub_fold_err(contents, acc, subs, j + 1);
                                lemma_soe_fold_err(is_browser, contents, Map::empty(), es, i + 1);
                            }
                            return Result::Err(er);
                        },
                    };
                    entries.insert(String::from_str(sub_name.as_str()), entry);
                },
                Option::None => {
                    proof {
                        lemma_sub_fold_err(contents, acc, subs, j + 1);
                        lemma_soe_fold_err(is_browser, contents, Map::empty(), es, i + 1);
                    }
                    return Result::Err(
                        EntriesError::InvalidEntryField(String::from_str(sub_name.as_str())),
                    );
                },
            }
            j = j + 1;
        }
        proof {
            assert(subs.take(subs.len() as int) =~= subs);
        }
        i = i + 1;
    }
    proof {
        assert(es.take(es.len() as int) =~= es);
    }
    Result::Ok(entries)
}

/// Resolve the `main` entry.
pub fn resolve_main_entry(pkg_json: &JsonVal, contents: &PkgContents) -> (r: Result<
    StrMap<PkgEntry>,
    EntriesError,
>)
    ensures
        (r matches Ok(m) ==> spec_resolve_main(json_view(*pkg_json), contents) == Result::<
            Map<Seq<char>, PkgEntryView>,
            EntriesErrView,
        >::Ok(m@)),
        (r matches Err(e) ==> spec_resolve_main(json_view(*pkg_json), contents) == Result::<
            Map<Seq<char>, PkgEntryView>,
            EntriesErrView,
        >::Err(e@)),
{
    let path: String = match pkg_json.obj_get("main") {
        Option::Some(v) => match v.str_value() {
            Option::Some(s) => String::from_str(s.as_str()),
            Option::None => String::from_str("index.js"),
        },
        Option::None => String::from_str("index.js"),
    };
    let entry = match PkgEntry::new(String::from_str("main"), path, contents) {
        Result::Ok(e) => e,
        Result::Err(er) => {
            return Result::Err(er);
        },
    };
    let mut m: StrMap<PkgEntry> = StrMap::new();
    m.insert(String::from_str("main"), entry);
    Result::Ok(m)
}

/// The four entry maps of a package.
pub struct PkgEntries {
    pub main: StrMap<PkgEntry>,
    pub bin: StrMap<PkgEntry>,
    pub browser: StrMap<PkgEntry>,
    pub exports: StrMap<PkgEntry>,
}

impl PkgEntries {
    /// Resolve all four entry classes from the manifest.
    pub fn new(pkg_json: &JsonVal, pkg_contents: &PkgContents) -> (r: Result<
        PkgEntries,
        EntriesError,
    >)
        ensures
            (r matches Ok(es) ==> spec_resolve_main(json_view(*pkg_json), pkg_contents)
                == Result::<Map<Seq<char>, PkgEntryView>, EntriesErrView>::Ok(es.main@)
                && spec_resolve_soe("browser"@, json_view(*pkg_json), pkg_contents) == Result::<
                Map<Seq<char>, PkgEntryView>,
                EntriesErrView,
            >::Ok(es.browser@) && spec_resolve_soe("bin"@, json_view(*pkg_json), pkg_contents)
                == Result::<Map<Seq<char>, PkgEntryView>, EntriesErrView>::Ok(es.bin@)
                && spec_resolve_soe("exports"@, json_view(*pkg_json), pkg_contents) == Result::<
                Map<Seq<char>, PkgEntryView>,
                EntriesErrView,
            >::Ok(es.exports@)),
            (r matches Err(e) ==> spec_resolve_main(json_view(*pkg_json), pkg_contents)
                == Result::<Map<Seq<char>, PkgEntryView>, EntriesErrView>::Err(e@)
                || spec_resolve_soe("browser"@, json_view(*pkg_json), pkg_contents) == Result::<
                Map<Seq<char>, PkgEntryView>,
                EntriesErrView,
            >::Err(e@) || spec_resolve_soe("bin"@, json_view(*pkg_json), pkg_contents)
                == Result::<Map<Seq<char>, PkgEntryView>, EntriesErrView>::Err(e@)
                || spec_resolve_soe("exports"@, json_view(*pkg_json), pkg_contents) == Result::<
                Map<Seq<char>, PkgEntryView>,
                EntriesErrView,
            >::Err(e@)),
    {
        let main = match resolve_main_entry(pkg_json, pkg_contents) {
            Result::Ok(m) => m,
            Result::Err(e) => {
                return Result::Err(e);
            },
        };
        let browser = match resolve_string_or_object_entries("browser", pkg_json, pkg_contents) {
            Result::Ok(m) => m,
            Result::Err(e) => {
                return Result::Err(e);
            },
        };
        let bin = match resolve_string_or_object_entries("bin", pkg_json, pkg_contents) {
            Result::Ok(m) => m,
            Result::Err(e) => {
                return Result::Err(e);
            },
        };
        let exports = match resolve_string_or_object_entries("exports", pkg_json, pkg_contents) {
            Result::Ok(m) => m,
            Result::Err(e) => {
                return Result::Err(e);
            },
        };
        Result::Ok(PkgEntries { main, bin, browser, exports })
    }
}

} // verus!
