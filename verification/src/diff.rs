//! The diff engine: compares a previous and a current package, reporting
//! removed assets, removed entries per class, and removed or renamed
//! exports per matched entry.

use vstd::prelude::*;
use crate::contents::PkgContents;
use crate::ecma::EntityDeclaration;
use crate::entries::{PkgEntry, PkgEntryView};
use crate::pkg::Pkg;
use crate::results::{BreakType, BrokenEntryResult, BrokenExport, DiffResults, PkgEntryType};
use crate::strmap::StrMap;
use crate::strutil::str_eq;
use crate::walker::{
    ExportsView, ModuleMap, WalkError, WalkErrorView, get_exports_in_module,
    spec_get_exports,
};

verus! {

/// A removed asset of the diff: shipped by the previous version, absent
/// from the current one.
pub open spec fn spec_removed_asset(prev: &PkgContents, cur: &PkgContents, p: Seq<char>) -> bool {
    prev.spec_is_asset(p) && !cur.spec_is_asset(p)
}

/// The removed assets: previous assets the current version no longer
/// ships, listed once each.
#[verifier::loop_isolation(false)]
#[verifier::rlimit(80)]
pub fn diff_pkg_assets(previous_contents: &PkgContents, current_contents: &PkgContents) -> (r: Vec<
    String,
>)
    ensures
        forall|i: int|
            0 <= i < r@.len() ==> spec_removed_asset(
                previous_contents,
                current_contents,
                #[trigger] r@[i]@,
            ),
        forall|p: Seq<char>|
            spec_removed_asset(previous_contents, current_contents, p) ==> r@.map_values(
                |s: String| s@,
            ).contains(p),
        forall|i: int, j: int| 0 <= i < j < r@.len() ==> r@[i]@ != r@[j]@,
{
    let prev_assets = previous_contents.asset_list();
    let mut r: Vec<String> = Vec::new();
    let mut i: usize = 0;
    while i < prev_assets.len()
        invariant
            i <= prev_assets@.len(),
            forall|a: int|
                0 <= a < r@.len() ==> spec_removed_asset(
                    previous_contents,
                    current_contents,
                    #[trigger] r@[a]@,
                ),
            forall|j: int|
                0 <= j < i && spec_removed_asset(
                    previous_contents,
                    current_contents,
                    #[trigger] prev_assets@[j]@,
                ) ==> r@.map_values(|s: String| s@).contains(prev_assets@[j]@),
            forall|a: int|
                0 <= a < r@.len() ==> exists|ja: int|
                    0 <= ja < i && (#[trigger] r@[a]@) == prev_assets@[ja]@,
            forall|a: int, b: int| 0 <= a < b < r@.len() ==> r@[a]@ != r@[b]@,
        decreases prev_assets@.len() - i,
    {
        let p = &prev_assets[i];
        let still = current_contents.files.contains_key(p.as_str()) && {
            let accepted = (crate::globs::path_matches_a_pattern_in(
                p.as_str(),
                &current_contents.include_patterns,
            ) && !crate::globs::path_excluded_by_prefix(
                p.as_str(),
                &current_contents.exclude_patterns,
            )) || crate::globs::path_matches_a_pattern_in(
                p.as_str(),
                &current_contents.exclude_negation_patterns,
            );
            accepted && !crate::files::FileExt::from(p.as_str()).is_source()
        };
        let dup = vec_has_str(&r, p.as_str());
        if !still && !dup {
            let ghost prev_r = r@;
            r.push(String::from_str(p.as_str()));
            proof {
                assert(r@[r@.len() - 1]@ == prev_assets@[i as int]@);
                assert forall|j: int|
                    0 <= j < i + 1 && spec_removed_asset(
                        previous_contents,
                        current_contents,
                        #[trigger] prev_assets@[j]@,
                    ) implies r@.map_values(|s: String| s@).contains(prev_assets@[j]@) by {
                    if j < i {
                        let k = choose|k: int|
                            0 <= k < prev_r.len() && (#[trigger] prev_r[k]@) == prev_assets@[j]@;
                        assert(r@.map_values(|s: String| s@)[k] == prev_assets@[j]@);
                    } else {
                        assert(r@.map_values(|s: String| s@)[r@.len() - 1] == prev_assets@[
                        i as int]@);
                    }
                }
                assert forall|a: int|
                    0 <= a < r@.len() implies exists|ja: int|
                    0 <= ja < i + 1 && (#[trigger] r@[a]@) == prev_assets@[ja]@ by {
                    if a < r@.len() - 1 {
                        let ja = choose|ja: int|
                            0 <= ja < i && (#[trigger] prev_r[a]@) == prev_assets@[ja]@;
                        assert(r@[a]@ == prev_assets@[ja]@);
                    } else {
                        assert(r@[a]@ == prev_assets@[i as int]@);
                    }
                }
            }
        } else {
            proof {
                if !still {
                    assert(r@.map_values(|s: String| s@).contains(prev_assets@[i as int]@));
                    assert forall|j: int|
                        0 <= j < i + 1 && spec_removed_asset(
                            previous_contents,
                            current_contents,
                            #[trigger] prev_assets@[j]@,
                        ) implies r@.map_values(|s: String| s@).contains(prev_assets@[j]@) by {}
                }
            }
        }
        i = i + 1;
    }
    proof {
        assert forall|p: Seq<char>|
            spec_removed_asset(previous_contents, current_contents, p) implies r@.map_values(
            |s: String| s@,
        ).contains(p) by {
            assert(previous_contents.spec_is_asset(p));
            assert(prev_assets@.map_values(|s: String| s@).contains(p));
            let j = choose|j: int| 0 <= j < prev_assets@.len() && (#[trigger] prev_assets@[j]@)
                == p;
            assert(prev_assets@[j]@ == p);
            assert(spec_removed_asset(previous_contents, current_contents, prev_assets@[j]@));
        }
    }
    r
}

/// Whether the vector holds a string with this text.
#[verifier::loop_isolation(false)]
fn vec_has_str(v: &Vec<String>, s: &str) -> (r: bool)
    ensures
        r == v@.map_values(|x: String| x@).contains(s@),
{
    let mut i: usize = 0;
    while i < v.len()
        invariant
            i <= v@.len(),
            forall|j: int| 0 <= j < i ==> v@[j]@ != s@,
        decreases v@.len() - i,
    {
        if str_eq(v[i].as_str(), s) {
            proof {
                assert(v@.map_values(|x: String| x@)[i as int] == s@);
            }
            return true;
        }
        i = i + 1;
    }
    proof {
        if v@.map_values(|x: String| x@).contains(s@) {
            let j = choose|j: int| 0 <= j < v@.len() && (#[trigger] v@[j]@) == s@;
        }
    }
    false
}

/// The previous entry names gone from the current version.
#[verifier::loop_isolation(false)]
fn missing_entry_names(
    previous_entries: &StrMap<PkgEntry>,
    current_entries: &StrMap<PkgEntry>,
) -> (r: Vec<String>)
    ensures
        forall|i: int|
            0 <= i < r@.len() ==> previous_entries@.contains_key(#[trigger] r@[i]@)
                && !current_entries@.contains_key(r@[i]@),
        forall|k: Seq<char>|
            previous_entries@.contains_key(k) && !current_entries@.contains_key(k) ==> r@
                .map_values(|s: String| s@).contains(k),
        forall|i: int, j: int| 0 <= i < j < r@.len() ==> r@[i]@ != r@[j]@,
{
    previous_entries.correspond();
    let n = previous_entries.len();
    let mut r: Vec<String> = Vec::new();
    let mut i: usize = 0;
    while i < n
        invariant
            i <= n,
            n == previous_entries.spec_len(),
            forall|a: int|
                0 <= a < r@.len() ==> previous_entries@.contains_key(#[trigger] r@[a]@)
                    && !current_entries@.contains_key(r@[a]@),
            forall|j: int|
                0 <= j < i && !current_entries@.contains_key(
                    #[trigger] previous_entries.key_at(j),
                ) ==> r@.map_values(|s: String| s@).contains(previous_entries.key_at(j)),
            forall|a: int|
                0 <= a < r@.len() ==> exists|ja: int|
                    0 <= ja < i && (#[trigger] r@[a]@) == previous_entries.key_at(ja),
            forall|a: int, b: int| 0 <= a < b < r@.len() ==> r@[a]@ != r@[b]@,
        decreases n - i,
    {
        let key = previous_entries.key_ref(i);
        if !current_entries.contains_key(key.as_str()) {
            let ghost prev_r = r@;
            r.push(String::from_str(key.as_str()));
            proof {
                assert(r@[r@.len() - 1]@ == previous_entries.key_at(i as int));
                assert forall|j: int|
                    0 <= j < i + 1 && !current_entries@.contains_key(
                        #[trigger] previous_entries.key_at(j),
                    ) implies r@.map_values(|s: String| s@).contains(
                    previous_entries.key_at(j),
                ) by {
                    if j < i {
                        let a = choose|a: int|
                            0 <= a < prev_r.len() && (#[trigger] prev_r[a]@)
                                == previous_entries.key_at(j);
                        assert(r@.map_values(|s: String| s@)[a] == previous_entries.key_at(j));
                    } else {
                        assert(r@.map_values(|s: String| s@)[r@.len() - 1]
                            == previous_entries.key_at(j));
                    }
                }
                assert forall|a: int|
                    0 <= a < r@.len() implies exists|ja: int|
                    0 <= ja < i + 1 && (#[trigger] r@[a]@) == previous_entries.key_at(ja) by {
                    if a < r@.len() - 1 {
                        let ja = choose|ja: int|
                            0 <= ja < i && (#[trigger] prev_r[a]@) == previous_entries.key_at(ja);
                        assert(r@[a]@ == previous_entries.key_at(ja));
                    } else {
                        assert(r@[a]@ == previous_entries.key_at(i as int));
                    }
                }
                assert forall|a: int, b: int| 0 <= a < b < r@.len() implies r@[a]@ != r@[b]@ by {
                    if b == r@.len() - 1 {
                        let ja = choose|ja: int|
                            0 <= ja < i && (#[trigger] prev_r[a]@) == previous_entries.key_at(ja);
                    }
                }
            }
        }
        i = i + 1;
    }
    proof {
        assert forall|k: Seq<char>|
            previous_entries@.contains_key(k) && !current_entries@.contains_key(k) implies r@
            .map_values(|s: String| s@).contains(k) by {
            let j = choose|j: int|
                0 <= j < previous_entries.spec_len() && #[trigger] previous_entries.key_at(j) == k;
        }
    }
    r
}

/// The entry names present in both versions.
#[verifier::loop_isolation(false)]
fn matching_entry_names(
    previous_entries: &StrMap<PkgEntry>,
    current_entries: &StrMap<PkgEntry>,
) -> (r: Vec<String>)
    ensures
        forall|i: int|
            0 <= i < r@.len() ==> previous_entries@.contains_key(#[trigger] r@[i]@)
                && current_entries@.contains_key(r@[i]@),
        forall|k: Seq<char>|
            previous_entries@.contains_key(k) && current_entries@.contains_key(k) ==> r@
                .map_values(|s: String| s@).contains(k),
        forall|i: int, j: int| 0 <= i < j < r@.len() ==> r@[i]@ != r@[j]@,
{
    previous_entries.correspond();
    let n = previous_entries.len();
    let mut r: Vec<String> = Vec::new();
    let mut i: usize = 0;
    while i < n
        invariant
            i <= n,
            n == previous_entries.spec_len(),
            forall|a: int|
                0 <= a < r@.len() ==> previous_entries@.contains_key(#[trigger] r@[a]@)
                    && current_entries@.contains_key(r@[a]@),
            forall|j: int|
                0 <= j < i && current_entries@.contains_key(
                    #[trigger] previous_entries.key_at(j),
                ) ==> r@.map_values(|s: String| s@).contains(previous_entries.key_at(j)),
            forall|a: int|
                0 <= a < r@.len() ==> exists|ja: int|
                    0 <= ja < i && (#[trigger] r@[a]@) == previous_entries.key_at(ja),
            forall|a: int, b: int| 0 <= a < b < r@.len() ==> r@[a]@ != r@[b]@,
        decreases n - i,
    {
        let key = previous_entries.key_ref(i);
        if current_entries.contains_key(key.as_str()) {
            let ghost prev_r = r@;
            r.push(String::from_str(key.as_str()));
            proof {
                assert(r@[r@.len() - 1]@ == previous_entries.key_at(i as int));
                assert forall|j: int|
                    0 <= j < i + 1 && current_entries@.contains_key(
                        #[trigger] previous_entries.key_at(j),
                    ) implies r@.map_values(|s: String| s@).contains(
                    previous_entries.key_at(j),
                ) by {
                    if j < i {
                        let a = choose|a: int|
                            0 <= a < prev_r.len() && (#[trigger] prev_r[a]@)
                                == previous_entries.key_at(j);
                        assert(r@.map_values(|s: String| s@)[a] == previous_entries.key_at(j));
                    } else {
                        assert(r@.map_values(|s: String| s@)[r@.len() - 1]
                            == previous_entries.key_at(j));
                    }
                }
                assert forall|a: int|
                    0 <= a < r@.len() implies exists|ja: int|
                    0 <= ja < i + 1 && (#[trigger] r@[a]@) == previous_entries.key_at(ja) by {
                    if a < r@.len() - 1 {
                        let ja = choose|ja: int|
                            0 <= ja < i && (#[trigger] prev_r[a]@) == previous_entries.key_at(ja);
                        assert(r@[a]@ == previous_entries.key_at(ja));
                    } else {
                        assert(r@[a]@ == previous_entries.key_at(i as int));
                    }
                }
                assert forall|a: int, b: int| 0 <= a < b < r@.len() implies r@[a]@ != r@[b]@ by {
                    if b == r@.len() - 1 {
                        let ja = choose|ja: int|
                            0 <= ja < i && (#[trigger] prev_r[a]@) == previous_entries.key_at(ja);
                    }
                }
            }
        }
        i = i + 1;
    }
    proof {
        assert forall|k: Seq<char>|
            previous_entries@.contains_key(k) && current_entries@.contains_key(k) implies r@
            .map_values(|s: String| s@).contains(k) by {
            let j = choose|j: int|
                0 <= j < previous_entries.spec_len() && #[trigger] previous_entries.key_at(j) == k;
        }
    }
    r
}

/// Split the previous entries against the current ones: the names gone
/// from the current version, and the names present in both.
pub fn diff_pkg_entries(
    previous_entries: &StrMap<PkgEntry>,
    current_entries: &StrMap<PkgEntry>,
) -> (r: (Vec<String>, Vec<String>))
    ensures
        forall|i: int|
            0 <= i < r.0@.len() ==> previous_entries@.contains_key(#[trigger] r.0@[i]@)
                && !current_entries@.contains_key(r.0@[i]@),
        forall|i: int|
            0 <= i < r.1@.len() ==> previous_entries@.contains_key(#[trigger] r.1@[i]@)
                && current_entries@.contains_key(r.1@[i]@),
        forall|k: Seq<char>|
            previous_entries@.contains_key(k) && !current_entries@.contains_key(k) ==> r.0@
                .map_values(|s: String| s@).contains(k),
        forall|k: Seq<char>|
            previous_entries@.contains_key(k) && current_entries@.contains_key(k) ==> r.1@
                .map_values(|s: String| s@).contains(k),
        forall|i: int, j: int| 0 <= i < j < r.0@.len() ==> r.0@[i]@ != r.0@[j]@,
        forall|i: int, j: int| 0 <= i < j < r.1@.len() ==> r.1@[i]@ != r.1@[j]@,
{
    (
        missing_entry_names(previous_entries, current_entries),
        matching_entry_names(previous_entries, current_entries),
    )
}

// ---------------------------------------------------------------------------
// Export diffing.
// ---------------------------------------------------------------------------

/// The label of a removed-or-renamed named export.
pub open spec fn named_label(k: Seq<char>) -> Seq<char> {
    "Named export '"@ + k + "'"@
}

fn make_named_label(k: &str) -> (r: String)
    ensures
        r@ == named_label(k@),
{
    let mut s = String::from_str("Named export '");
    s.append(k);
    s.append("'");
    proof {
        assert(s@ =~= named_label(k@));
    }
    s
}

pub proof fn lemma_named_label_inj(k1: Seq<char>, k2: Seq<char>)
    requires
        named_label(k1) == named_label(k2),
    ensures
        k1 == k2,
{
    reveal_strlit("Named export '");
    reveal_strlit("'");
    assert(named_label(k1).len() == 14 + k1.len() + 1);
    assert(named_label(k2).len() == 14 + k2.len() + 1);
    assert(k1.len() == k2.len());
    assert(k1 =~= named_label(k1).subrange(14, 14 + k1.len() as int));
    assert(k2 =~= named_label(k2).subrange(14, 14 + k2.len() as int));
}

pub proof fn lemma_labels_distinct(k: Seq<char>)
    ensures
        named_label(k) != "Default export"@,
{
    reveal_strlit("Named export '");
    reveal_strlit("'");
    reveal_strlit("Default export");
    assert(named_label(k).len() == 15 + k.len());
    assert("Default export"@.len() == 14);
}

/// What a broken-export list must say about a pair of export surfaces:
/// one `Default export` record exactly when the default was removed, one
/// named record per named export gone from the current surface, nothing
/// else, each with its break kind, no label twice.
pub open spec fn spec_exports_broken(
    pex: ExportsView,
    cex: ExportsView,
    exs: Seq<BrokenExport>,
) -> bool {
    &&& (forall|i: int, j: int| 0 <= i < j < exs.len() ==> exs[i].label@ != exs[j].label@)
    &&& ((exists|i: int| 0 <= i < exs.len() && (#[trigger] exs[i].label@) == "Default export"@)
        <==> (pex.default is Some && cex.default is None))
    &&& (forall|i: int|
        0 <= i < exs.len() && (#[trigger] exs[i].label@) == "Default export"@
            ==> exs[i].break_type == BreakType::Removed)
    &&& (forall|k: Seq<char>| #![trigger named_label(k)]
        ((exists|i: int| 0 <= i < exs.len() && (#[trigger] exs[i].label@) == named_label(k))
            <==> (pex.named.contains_key(k) && !cex.named.contains_key(k))))
    &&& (forall|i: int|
        0 <= i < exs.len() ==> (#[trigger] exs[i].label@) == "Default export"@ || (exists|
            k: Seq<char>,
        | #![trigger named_label(k)]
            (pex.named.contains_key(k) && !cex.named.contains_key(k) && exs[i].label@
                == named_label(k) && exs[i].break_type == BreakType::RemovedOrRenamed)))
}

/// Extract both sides of a matched entry and compare their export
/// surfaces: whether the default export vanished, the current default when
/// both have one, the named exports gone from the current side, and those
/// present in both (carrying the current side's entity).
#[verifier::loop_isolation(false)]
#[verifier::rlimit(60)]
pub fn diff_pkg_entry_exports(
    previous_entry: &PkgEntry,
    current_entry: &PkgEntry,
    previous_modules: &ModuleMap,
    current_modules: &ModuleMap,
) -> (r: Result<(bool, Option<EntityDeclaration>, Vec<String>, StrMap<EntityDeclaration>),
    WalkError,
>)
    ensures
        (r matches Ok(t) ==> {
            let pex = spec_get_exports(previous_modules@, previous_entry.path@);
            let cex = spec_get_exports(current_modules@, current_entry.path@);
            &&& pex is Ok
            &&& cex is Ok
            &&& t.0 == (pex->Ok_0.default is Some && cex->Ok_0.default is None)
            &&& (t.1 matches Option::Some(e) ==> pex->Ok_0.default is Some
                && cex->Ok_0.default == Option::Some(e@))
            &&& (t.1 is None ==> !(pex->Ok_0.default is Some && cex->Ok_0.default is Some))
            &&& (forall|i: int|
                0 <= i < t.2@.len() ==> pex->Ok_0.named.contains_key(#[trigger] t.2@[i]@)
                    && !cex->Ok_0.named.contains_key(t.2@[i]@))
            &&& (forall|k: Seq<char>|
                pex->Ok_0.named.contains_key(k) && !cex->Ok_0.named.contains_key(k) ==> t.2@
                    .map_values(|s: String| s@).contains(k))
            &&& (forall|i: int, j: int| 0 <= i < j < t.2@.len() ==> t.2@[i]@ != t.2@[j]@)
            &&& (forall|k: Seq<char>|
                #[trigger] t.3@.contains_key(k) <==> pex->Ok_0.named.contains_key(k)
                    && cex->Ok_0.named.contains_key(k))
            &&& (forall|k: Seq<char>|
                #[trigger] t.3@.contains_key(k) ==> t.3@[k] == cex->Ok_0.named.index(k))
        }),
        (r matches Err(e) ==> {
            let pex = spec_get_exports(previous_modules@, previous_entry.path@);
            let cex = spec_get_exports(current_modules@, current_entry.path@);
            pex == Result::<ExportsView, WalkErrorView>::Err(e@) || (pex is Ok && cex == Result::<
                ExportsView,
                WalkErrorView,
            >::Err(e@))
        }),
{
    let prev_exports = match get_exports_in_module(previous_modules, previous_entry.path.as_str())
        {
        Result::Ok(ex) => ex,
        Result::Err(e) => {
            return Result::Err(e);
        },
    };
    let cur_exports = match get_exports_in_module(current_modules, current_entry.path.as_str()) {
        Result::Ok(ex) => ex,
        Result::Err(e) => {
            return Result::Err(e);
        },
    };
    let mut is_default_export_missing = false;
    let mut matching_default_export: Option<EntityDeclaration> = Option::None;
    match &prev_exports.default {
        Option::Some(_) => {
            match &cur_exports.default {
                Option::Some(ce) => {
                    matching_default_export = Option::Some(ce.duplicate());
                },
                Option::None => {
                    is_default_export_missing = true;
                },
            }
        },
        Option::None => {},
    }
    let ghost pnamed = prev_exports.named@;
    let ghost cnamed = cur_exports.named@;
    prev_exports.named.correspond();
    let n = prev_exports.named.len();
    let mut missing_named: Vec<String> = Vec::new();
    let mut matching_named: StrMap<EntityDeclaration> = StrMap::new();
    let mut i: usize = 0;
    while i < n
        invariant
            i <= n,
            n == prev_exports.named.spec_len(),
            forall|a: int|
                0 <= a < missing_named@.len() ==> pnamed.contains_key(#[trigger] missing_named@[
                a]@) && !cnamed.contains_key(missing_named@[a]@),
            forall|j: int|
                0 <= j < i && !cnamed.contains_key(#[trigger] prev_exports.named.key_at(j))
                    ==> missing_named@.map_values(|s: String| s@).contains(
                    prev_exports.named.key_at(j),
                ),
            forall|a: int|
                0 <= a < missing_named@.len() ==> exists|ja: int|
                    0 <= ja < i && (#[trigger] missing_named@[a]@) == prev_exports.named.key_at(
                        ja,
                    ),
            forall|a: int, b: int|
                0 <= a < b < missing_named@.len() ==> missing_named@[a]@ != missing_named@[b]@,
            forall|k: Seq<char>|
                #[trigger] matching_named@.contains_key(k) ==> pnamed.contains_key(k)
                    && cnamed.contains_key(k) && matching_named@[k] == cnamed.index(k),
            forall|j: int|
                0 <= j < i && cnamed.contains_key(#[trigger] prev_exports.named.key_at(j))
                    ==> matching_named@.contains_key(prev_exports.named.key_at(j)),
        decreases n - i,
    {
        let key = prev_exports.named.key_ref(i);
        match cur_exports.named.get(key.as_str()) {
            Option::Some(ent) => {
                matching_named.insert(String::from_str(key.as_str()), ent.duplicate());
            },
            Option::None => {
                let ghost prev_m = missing_named@;
                missing_named.push(String::from_str(key.as_str()));
                proof {
                    assert(missing_named@[missing_named@.len() - 1]@ == prev_exports.named.key_at(
                        i as int,
                    ));
                    assert forall|j: int|
                        0 <= j < i + 1 && !cnamed.contains_key(
                            #[trigger] prev_exports.named.key_at(j),
                        ) implies missing_named@.map_values(|s: String| s@).contains(
                        prev_exports.named.key_at(j),
                    ) by {
                        if j < i {
                            let a = choose|a: int|
                                0 <= a < prev_m.len() && (#[trigger] prev_m[a]@)
                                    == prev_exports.named.key_at(j);
                            assert(missing_named@.map_values(|s: String| s@)[a]
                                == prev_exports.named.key_at(j));
                        } else {
                            assert(missing_named@.map_values(|s: String| s@)[missing_named@.len()
                                - 1] == prev_exports.named.key_at(j));
                        }
                    }
                    assert forall|a: int|
                        0 <= a < missing_named@.len() implies exists|ja: int|
                        0 <= ja < i + 1 && (#[trigger] missing_named@[a]@)
                            == prev_exports.named.key_at(ja) by {
                        if a < missing_named@.len() - 1 {
                            let ja = choose|ja: int|
                                0 <= ja < i && (#[trigger] prev_m[a]@) == prev_exports.named.key_at(
                                    ja,
                                );
                            assert(missing_named@[a]@ == prev_exports.named.key_at(ja));
                        } else {
                            assert(missing_named@[a]@ == prev_exports.named.key_at(i as int));
                        }
                    }
                    assert forall|a: int, b: int|
                        0 <= a < b < missing_named@.len() implies missing_named@[a]@
                        != missing_named@[b]@ by {
                        if b == missing_named@.len() - 1 {
                            let ja = choose|ja: int|
                                0 <= ja < i && (#[trigger] prev_m[a]@) == prev_exports.named.key_at(
                                    ja,
                                );
                        }
                    }
                }
            },
        }
        i = i + 1;
    }
    proof {
        assert forall|k: Seq<char>|
            pnamed.contains_key(k) && !cnamed.contains_key(k) implies missing_named@.map_values(
            |s: String| s@,
        ).contains(k) by {
            let j = choose|j: int|
                0 <= j < prev_exports.named.spec_len() && #[trigger] prev_exports.named.key_at(j)
                    == k;
        }
        assert forall|k: Seq<char>|
            pnamed.contains_key(k) && cnamed.contains_key(k) implies matching_named@.contains_key(
            k,
        ) by {
            let j = choose|j: int|
                0 <= j < prev_exports.named.spec_len() && #[trigger] prev_exports.named.key_at(j)
                    == k;
        }
    }
    Result::Ok((is_default_export_missing, matching_default_export, missing_named, matching_named))
}

/// The record views a missing-name list contributes, in order.
pub open spec fn spec_named_records(missing: Seq<Seq<char>>) -> Seq<(Seq<char>, BreakType)>
    decreases missing.len(),
{
    if missing.len() == 0 {
        Seq::empty()
    } else {
        spec_named_records(missing.drop_last()).push(
            (named_label(missing.last()), BreakType::RemovedOrRenamed),
        )
    }
}

pub proof fn lemma_named_records_index(missing: Seq<Seq<char>>, i: int)
    requires
        0 <= i < missing.len(),
    ensures
        spec_named_records(missing).len() == missing.len(),
        spec_named_records(missing)[i] == (named_label(missing[i]), BreakType::RemovedOrRenamed),
    decreases missing.len(),
{
    lemma_named_records_len(missing);
    if i < missing.len() - 1 {
        lemma_named_records_index(missing.drop_last(), i);
    }
}

pub proof fn lemma_named_records_len(missing: Seq<Seq<char>>)
    ensures
        spec_named_records(missing).len() == missing.len(),
    decreases missing.len(),
{
    if missing.len() > 0 {
        lemma_named_records_len(missing.drop_last());
    }
}

/// The broken-export records for one matched entry.
#[verifier::loop_isolation(false)]
#[verifier::rlimit(100)]
#[verifier::spinoff_prover]
pub fn analyze_changes_between_entry_exports(
    previous_entry: &PkgEntry,
    current_entry: &PkgEntry,
    previous_modules: &ModuleMap,
    current_modules: &ModuleMap,
) -> (r: Result<Vec<BrokenExport>, WalkError>)
    ensures
        (r matches Ok(exs) ==> {
            let pex = spec_get_exports(previous_modules@, previous_entry.path@);
            let cex = spec_get_exports(current_modules@, current_entry.path@);
            &&& pex is Ok
            &&& cex is Ok
            &&& spec_exports_broken(pex->Ok_0, cex->Ok_0, exs@)
        }),
        (r matches Err(e) ==> {
            let pex = spec_get_exports(previous_modules@, previous_entry.path@);
            let cex = spec_get_exports(current_modules@, current_entry.path@);
            pex == Result::<ExportsView, WalkErrorView>::Err(e@) || (pex is Ok && cex == Result::<
                ExportsView,
                WalkErrorView,
            >::Err(e@))
        }),
{
    let ghost pexg = spec_get_exports(previous_modules@, previous_entry.path@);
    let ghost cexg = spec_get_exports(current_modules@, current_entry.path@);
    let (is_default_missing, _matching_default, missing_named, _matching_named) = match
        diff_pkg_entry_exports(previous_entry, current_entry, previous_modules, current_modules) {
        Result::Ok(t) => t,
        Result::Err(e) => {
            return Result::Err(e);
        },
    };
    let mut exs: Vec<BrokenExport> = Vec::new();
    if is_default_missing {
        exs.push(
            BrokenExport {
                label: String::from_str("Default export"),
                break_type: BreakType::Removed,
            },
        );
    }
    let ghost base: int = if is_default_missing {
        1
    } else {
        0
    };
    let ghost baserecs = exs@.map_values(|b: BrokenExport| (b.label@, b.break_type));
    let ghost missviews = missing_named@.map_values(|s: String| s@);
    let mut j: usize = 0;
    proof {
        assert(missviews.take(0) =~= Seq::<Seq<char>>::empty());
        assert(exs@.map_values(|b: BrokenExport| (b.label@, b.break_type)) =~= baserecs
            + spec_named_records(missviews.take(0)));
        if is_default_missing {
            assert(baserecs[0] == ("Default export"@, BreakType::Removed));
        }
    }
    while j < missing_named.len()
        invariant
            j <= missing_named@.len(),
            missviews == missing_named@.map_values(|s: String| s@),
            baserecs.len() == base,
            base == 0 || base == 1,
            is_default_missing <==> base == 1,
            base == 1 ==> baserecs[0] == ("Default export"@, BreakType::Removed),
            exs@.map_values(|b: BrokenExport| (b.label@, b.break_type)) =~= baserecs
                + spec_named_records(missviews.take(j as int)),
        decreases missing_named@.len() - j,
    {
        proof {
            assert(missviews.take(j + 1).drop_last() =~= missviews.take(j as int));
            assert(missviews.take(j + 1).last() == missviews[j as int]);
        }
        let label = make_named_label(missing_named[j].as_str());
        let ghost prev_exs = exs@;
        exs.push(BrokenExport { label, break_type: BreakType::RemovedOrRenamed });
        proof {
            assert(exs@.map_values(|b: BrokenExport| (b.label@, b.break_type)) =~= prev_exs
                .map_values(|b: BrokenExport| (b.label@, b.break_type)).push(
                (named_label(missviews[j as int]), BreakType::RemovedOrRenamed),
            ));
        }
        j = j + 1;
    }
    proof {
        assert(missviews.take(missing_named@.len() as int) =~= missviews);
    }
    let ghost recs = exs@.map_values(|b: BrokenExport| (b.label@, b.break_type));
    proof {
        lemma_named_records_len(missviews);
        assert(exs@.len() == base + missviews.len());
        assert forall|a: int|
            base <= a < exs@.len() implies (#[trigger] exs@[a].label@) == named_label(
            missviews[a - base],
        ) && exs@[a].break_type == BreakType::RemovedOrRenamed by {
            lemma_named_records_index(missviews, a - base);
            assert(recs[a] == spec_named_records(missviews)[a - base]);
            assert(recs[a] == (exs@[a].label@, exs@[a].break_type));
        }
        if base == 1 {
            assert(recs[0] == baserecs[0]);
            assert(exs@[0].label@ == "Default export"@ && exs@[0].break_type
                == BreakType::Removed);
        }
    }
    proof {
        let pex = pexg->Ok_0;
        let cex = cexg->Ok_0;
        let m = missing_named@.map_values(|s: String| s@);
        assert forall|a: int, b: int| 0 <= a < b < exs@.len() implies exs@[a].label@ != exs@[
        b].label@ by {
            if a == 0 && base == 1 {
                lemma_labels_distinct(missing_named@[b - base]@);
            } else {
                if exs@[a].label@ == exs@[b].label@ {
                    lemma_named_label_inj(missing_named@[a - base]@, missing_named@[b - base]@);
                }
            }
        }
        assert forall|k: Seq<char>| #![trigger named_label(k)]
            ((exists|i: int| 0 <= i < exs@.len() && (#[trigger] exs@[i].label@) == named_label(k))
                <==> (pex.named.contains_key(k) && !cex.named.contains_key(k))) by {
            if exists|i: int| 0 <= i < exs@.len() && (#[trigger] exs@[i].label@) == named_label(
                k,
            ) {
                let i = choose|i: int|
                    0 <= i < exs@.len() && (#[trigger] exs@[i].label@) == named_label(k);
                if i == 0 && base == 1 {
                    lemma_labels_distinct(k);
                } else {
                    lemma_named_label_inj(missing_named@[i - base]@, k);
                    assert(pex.named.contains_key(missing_named@[i - base]@));
                }
            }
            if pex.named.contains_key(k) && !cex.named.contains_key(k) {
                assert(m.contains(k));
                let a = choose|a: int| 0 <= a < missing_named@.len() && (#[trigger] missing_named@[
                a]@) == k;
                assert(exs@[base + a].label@ == named_label(k));
            }
        }
        assert((exists|i: int|
            0 <= i < exs@.len() && (#[trigger] exs@[i].label@) == "Default export"@) <==> (
        pex.default is Some && cex.default is None)) by {
            if exists|i: int|
                0 <= i < exs@.len() && (#[trigger] exs@[i].label@) == "Default export"@ {
                let i = choose|i: int|
                    0 <= i < exs@.len() && (#[trigger] exs@[i].label@) == "Default export"@;
                if i >= base {
                    lemma_labels_distinct(missing_named@[i - base]@);
                }
                assert(base == 1);
            }
            if pex.default is Some && cex.default is None {
                assert(is_default_missing);
                assert(exs@[0].label@ == "Default export"@);
            }
        }
        assert forall|i: int|
            0 <= i < exs@.len() && (#[trigger] exs@[i].label@) == "Default export"@ implies exs@[
        i].break_type == BreakType::Removed by {
            if i >= base {
                lemma_labels_distinct(missing_named@[i - base]@);
            }
        }
        assert forall|i: int| 0 <= i < exs@.len() implies (#[trigger] exs@[i].label@)
            == "Default export"@ || (exists|k: Seq<char>| #![trigger named_label(k)]
            (pex.named.contains_key(k) && !cex.named.contains_key(k) && exs@[i].label@
                == named_label(k) && exs@[i].break_type == BreakType::RemovedOrRenamed)) by {
            if i >= base {
                let k = missing_named@[i - base]@;
                assert(pex.named.contains_key(k) && !cex.named.contains_key(k) && exs@[i].label@
                    == named_label(k) && exs@[i].break_type == BreakType::RemovedOrRenamed);
            }
        }
    }
    Result::Ok(exs)
}

// ---------------------------------------------------------------------------
// The whole-package diff.
// ---------------------------------------------------------------------------

/// A matched-entry record is right for its maps: the entry extracts on
/// both sides and the record's broken exports characterize the surfaces.
pub open spec fn spec_matched_rec(
    prev_entries: Map<Seq<char>, PkgEntryView>,
    cur_entries: Map<Seq<char>, PkgEntryView>,
    pmod: Map<Seq<char>, Seq<crate::ecma::ItemView>>,
    cmod: Map<Seq<char>, Seq<crate::ecma::ItemView>>,
    rec: BrokenEntryResult,
) -> bool {
    let pex = spec_get_exports(pmod, prev_entries[rec.name@].path);
    let cex = spec_get_exports(cmod, cur_entries[rec.name@].path);
    &&& !rec.is_missing
    &&& pex is Ok
    &&& cex is Ok
    &&& spec_exports_broken(pex->Ok_0, cex->Ok_0, rec.broken_exports@)
}

/// A matched entry name whose export extraction faults with `e`: the
/// previous side's extraction fails, or it succeeds and the current
/// side's fails. This is the only way a diff run stops with an error.
pub open spec fn spec_entry_fault(
    prev_entries: Map<Seq<char>, PkgEntryView>,
    cur_entries: Map<Seq<char>, PkgEntryView>,
    pmod: Map<Seq<char>, Seq<crate::ecma::ItemView>>,
    cmod: Map<Seq<char>, Seq<crate::ecma::ItemView>>,
    k: Seq<char>,
    e: WalkErrorView,
) -> bool {
    &&& prev_entries.contains_key(k)
    &&& cur_entries.contains_key(k)
    &&& (spec_get_exports(pmod, prev_entries[k].path) == Result::<
        ExportsView,
        WalkErrorView,
    >::Err(e) || (spec_get_exports(pmod, prev_entries[k].path) is Ok && spec_get_exports(
        cmod,
        cur_entries[k].path,
    ) == Result::<ExportsView, WalkErrorView>::Err(e)))
}

/// The entry map of a package for one entry class.
pub open spec fn class_map(p: &Pkg, kind: PkgEntryType) -> Map<Seq<char>, PkgEntryView> {
    match kind {
        PkgEntryType::Main => p.entries.main@,
        PkgEntryType::Bin => p.entries.bin@,
        PkgEntryType::Browser => p.entries.browser@,
        PkgEntryType::Exports => p.entries.exports@,
    }
}

/// Some matched entry of some class faults with `e` during export
/// extraction: the only grounds on which the whole diff returns an error.
pub open spec fn spec_diff_fault(prev: &Pkg, cur: &Pkg, e: WalkErrorView) -> bool {
    exists|kind: PkgEntryType, k: Seq<char>|
        #![trigger spec_entry_fault(
            class_map(prev, kind),
            class_map(cur, kind),
            prev.modules@,
            cur.modules@,
            k,
            e,
        )]
        spec_entry_fault(
            class_map(prev, kind),
            class_map(cur, kind),
            prev.modules@,
            cur.modules@,
            k,
            e,
        )
}

/// What one broken-entry record must say: it names a previous entry of its
/// class; it is missing exactly when the current version lacks that name;
/// a missing record carries no export breakage; a matched record's export
/// breakage characterizes the two extracted surfaces.
pub open spec fn spec_rec_ok(prev: &Pkg, cur: &Pkg, rec: BrokenEntryResult) -> bool {
    let pm = class_map(prev, rec.kind);
    let cm = class_map(cur, rec.kind);
    &&& pm.contains_key(rec.name@)
    &&& (rec.is_missing <==> !cm.contains_key(rec.name@))
    &&& (rec.is_missing ==> rec.broken_exports@.len() == 0)
    &&& (!rec.is_missing ==> spec_matched_rec(pm, cm, prev.modules@, cur.modules@, rec))
}

/// What a whole diff report must say of the two packages.
pub open spec fn spec_diff_ok(prev: &Pkg, cur: &Pkg, d: &DiffResults) -> bool {
    &&& (forall|i: int|
        0 <= i < d.removed_assets@.len() ==> spec_removed_asset(
            &prev.contents,
            &cur.contents,
            #[trigger] d.removed_assets@[i]@,
        ))
    &&& (forall|p: Seq<char>|
        spec_removed_asset(&prev.contents, &cur.contents, p) ==> d.removed_assets@.map_values(
            |s: String| s@,
        ).contains(p))
    &&& (forall|i: int, j: int|
        0 <= i < j < d.removed_assets@.len() ==> d.removed_assets@[i]@ != d.removed_assets@[j]@)
    &&& (forall|i: int|
        0 <= i < d.broken_entries@.len() ==> spec_rec_ok(prev, cur, #[trigger] d.broken_entries@[
        i]))
    &&& (forall|kind: PkgEntryType, k: Seq<char>|
        #![trigger class_map(prev, kind).contains_key(k)]
        class_map(prev, kind).contains_key(k) ==> exists|i: int|
            0 <= i < d.broken_entries@.len() && (#[trigger] d.broken_entries@[i].kind) == kind
                && d.broken_entries@[i].name@ == k)
    &&& (forall|i: int, j: int|
        0 <= i < j < d.broken_entries@.len() ==> !(d.broken_entries@[i].kind
            == d.broken_entries@[j].kind && d.broken_entries@[i].name@ == d.broken_entries@[
        j].name@))
}

/// The missing-entry records of one class, in order.
#[verifier::loop_isolation(false)]
fn class_missing_records(entry_type: PkgEntryType, missing: &Vec<String>) -> (r: Vec<
    BrokenEntryResult,
>)
    ensures
        r@.len() == missing@.len(),
        forall|a: int|
            0 <= a < r@.len() ==> (#[trigger] r@[a].kind) == entry_type && r@[a].name@
                == missing@[a]@ && r@[a].is_missing && r@[a].broken_exports@.len() == 0,
{
    let mut out: Vec<BrokenEntryResult> = Vec::new();
    let mut i: usize = 0;
    while i < missing.len()
        invariant
            i <= missing@.len(),
            out@.len() == i,
            forall|a: int|
                0 <= a < out@.len() ==> (#[trigger] out@[a].kind) == entry_type && out@[a].name@
                    == missing@[a]@ && out@[a].is_missing && out@[a].broken_exports@.len() == 0,
        decreases missing@.len() - i,
    {
        out.push(
            BrokenEntryResult {
                kind: entry_type,
                name: String::from_str(missing[i].as_str()),
                is_missing: true,
                broken_exports: Vec::new(),
            },
        );
        i = i + 1;
    }
    out
}

/// The matched-entry records of one class, in order, each carrying its
/// broken exports.
#[verifier::loop_isolation(false)]
#[verifier::rlimit(60)]
fn class_matched_records(
    entry_type: PkgEntryType,
    matching: &Vec<String>,
    previous_entries: &StrMap<PkgEntry>,
    current_entries: &StrMap<PkgEntry>,
    previous_modules: &ModuleMap,
    current_modules: &ModuleMap,
) -> (r: Result<Vec<BrokenEntryResult>, WalkError>)
    requires
        forall|i: int|
            0 <= i < matching@.len() ==> previous_entries@.contains_key(#[trigger] matching@[i]@)
                && current_entries@.contains_key(matching@[i]@),
    ensures
        (r matches Ok(out) ==> out@.len() == matching@.len() && (forall|a: int|
            0 <= a < out@.len() ==> (#[trigger] out@[a].kind) == entry_type && out@[a].name@
                == matching@[a]@ && !out@[a].is_missing && spec_matched_rec(
                previous_entries@,
                current_entries@,
                previous_modules@,
                current_modules@,
                out@[a],
            ))),
        (r matches Err(e) ==> exists|j: int|
            0 <= j < matching@.len() && spec_entry_fault(
                previous_entries@,
                current_entries@,
                previous_modules@,
                current_modules@,
                #[trigger] matching@[j]@,
                e@,
            )),
{
    let mut out: Vec<BrokenEntryResult> = Vec::new();
    let mut j: usize = 0;
    while j < matching.len()
        invariant
            j <= matching@.len(),
            out@.len() == j,
            forall|a: int|
                0 <= a < out@.len() ==> (#[trigger] out@[a].kind) == entry_type && out@[a].name@
                    == matching@[a]@ && !out@[a].is_missing && spec_matched_rec(
                    previous_entries@,
                    current_entries@,
                    previous_modules@,
                    current_modules@,
                    out@[a],
                ),
        decreases matching@.len() - j,
    {
        let name = &matching[j];
        let pe = match previous_entries.get(name.as_str()) {
            Option::Some(e) => e,
            Option::None => {
                proof {
                    assert(false);
                }
                return Result::Err(WalkError::UnsupportedDeclaration);
            },
        };
        let ce = match current_entries.get(name.as_str()) {
            Option::Some(e) => e,
            Option::None => {
                proof {
                    assert(false);
                }
                return Result::Err(WalkError::UnsupportedDeclaration);
            },
        };
        let broken = match analyze_changes_between_entry_exports(
            pe,
            ce,
            previous_modules,
            current_modules,
        ) {
            Result::Ok(b) => b,
            Result::Err(e) => {
                proof {
                    assert(previous_entries@.index(matching@[j as int]@) == pe@);
                    assert(current_entries@.index(matching@[j as int]@) == ce@);
                    assert(spec_entry_fault(
                        previous_entries@,
                        current_entries@,
                        previous_modules@,
                        current_modules@,
                        matching@[j as int]@,
                        e@,
                    ));
                }
                return Result::Err(e);
            },
        };
        let ghost prev_out = out@;
        out.push(
            BrokenEntryResult {
                kind: entry_type,
                name: String::from_str(name.as_str()),
                is_missing: false,
                broken_exports: broken,
            },
        );
        proof {
            assert(out@[out@.len() - 1].name@ == matching@[j as int]@);
            assert(previous_entries@.index(matching@[j as int]@) == pe@);
            assert(current_entries@.index(matching@[j as int]@) == ce@);
            assert(spec_matched_rec(
                previous_entries@,
                current_entries@,
                previous_modules@,
                current_modules@,
                out@[out@.len() - 1],
            ));
            assert forall|a: int|
                0 <= a < out@.len() implies (#[trigger] out@[a].kind) == entry_type && out@[
            a].name@ == matching@[a]@ && !out@[a].is_missing && spec_matched_rec(
                previous_entries@,
                current_entries@,
                previous_modules@,
                current_modules@,
                out@[a],
            ) by {
                if a < out@.len() - 1 {
                    assert(out@[a] == prev_out[a]);
                    assert((#[trigger] prev_out[a].kind) == entry_type && prev_out[a].name@
                        == matching@[a]@ && !prev_out[a].is_missing);
                    assert(spec_matched_rec(
                        previous_entries@,
                        current_entries@,
                        previous_modules@,
                        current_modules@,
                        prev_out[a],
                    ));
                }
            }
        }
        j = j + 1;
    }
    Result::Ok(out)
}

/// Append records to the report, in order.
#[verifier::loop_isolation(false)]
fn append_records(recs: &mut Vec<BrokenEntryResult>, from: Vec<BrokenEntryResult>)
    ensures
        final(recs)@ == old(recs)@ + from@,
{
    let mut from = from;
    let ghost fv = from@;
    let mut i: usize = 0;
    proof {
        assert(recs@ =~= old(recs)@ + fv.take(0));
    }
    while i < from.len()
        invariant
            i <= fv.len(),
            from@.len() == fv.len(),
            forall|a: int| i <= a < fv.len() ==> from@[a] == fv[a],
            recs@ =~= old(recs)@ + fv.take(i as int),
        decreases fv.len() - i,
    {
        proof {
            assert(from@[i as int] == fv[i as int]);
        }
        let rec = take_record(&mut from, i);
        proof {
            assert(rec == fv[i as int]);
        }
        recs.push(rec);
        proof {
            assert(recs@ =~= old(recs)@ + fv.take(i + 1));
        }
        i = i + 1;
    }
    proof {
        assert(fv.take(fv.len() as int) =~= fv);
    }
}

/// Append the broken-entry records of one entry class.
#[verifier::rlimit(100)]
#[verifier::spinoff_prover]
fn analyze_changes_between_entries(
    entry_type: PkgEntryType,
    recs: &mut Vec<BrokenEntryResult>,
    previous_entries: &StrMap<PkgEntry>,
    current_entries: &StrMap<PkgEntry>,
    previous_modules: &ModuleMap,
    current_modules: &ModuleMap,
) -> (r: Result<(), WalkError>)
    ensures
        (r is Ok ==> final(recs)@.len() >= old(recs)@.len() && final(recs)@.take(
            old(recs)@.len() as int,
        ) == old(recs)@ && (forall|i: int|
            old(recs)@.len() <= i < final(recs)@.len() ==> (#[trigger] final(recs)@[i].kind)
                == entry_type && previous_entries@.contains_key(final(recs)@[i].name@) && (final(recs)@[
            i].is_missing <==> !current_entries@.contains_key(final(recs)@[i].name@)) && (final(recs)@[
            i].is_missing ==> final(recs)@[i].broken_exports@.len() == 0) && (!final(recs)@[
            i].is_missing ==> spec_matched_rec(
                previous_entries@,
                current_entries@,
                previous_modules@,
                current_modules@,
                final(recs)@[i],
            ))) && (forall|k: Seq<char>|
            #![trigger previous_entries@.contains_key(k)]
            previous_entries@.contains_key(k) ==> exists|i: int|
                old(recs)@.len() <= i < final(recs)@.len() && (#[trigger] final(recs)@[i].name@)
                    == k) && (forall|i: int, j: int|
            old(recs)@.len() <= i < j < final(recs)@.len() ==> final(recs)@[i].name@ != final(recs)@[
            j].name@)),
        (r is Err ==> final(recs)@ == old(recs)@),
        (r matches Err(e) ==> exists|k: Seq<char>|
            #![trigger spec_entry_fault(
                previous_entries@,
                current_entries@,
                previous_modules@,
                current_modules@,
                k,
                e@,
            )]
            spec_entry_fault(
                previous_entries@,
                current_entries@,
                previous_modules@,
                current_modules@,
                k,
                e@,
            )),
{
    let ghost base = recs@.len() as int;
    let (missing, matching) = diff_pkg_entries(previous_entries, current_entries);
    let miss_recs = class_missing_records(entry_type, &missing);
    let match_recs = match class_matched_records(
        entry_type,
        &matching,
        previous_entries,
        current_entries,
        previous_modules,
        current_modules,
    ) {
        Result::Ok(v) => v,
        Result::Err(e) => {
            proof {
                let j = choose|j: int|
                    0 <= j < matching@.len() && spec_entry_fault(
                        previous_entries@,
                        current_entries@,
                        previous_modules@,
                        current_modules@,
                        #[trigger] matching@[j]@,
                        e@,
                    );
                assert(spec_entry_fault(
                    previous_entries@,
                    current_entries@,
                    previous_modules@,
                    current_modules@,
                    matching@[j]@,
                    e@,
                ));
            }
            return Result::Err(e);
        },
    };
    let ghost mv = miss_recs@;
    let ghost tv = match_recs@;
    let ghost miss_cnt = mv.len() as int;
    append_records(recs, miss_recs);
    append_records(recs, match_recs);
    let ghost whole = old(recs)@ + mv + tv;
    proof {
        assert(recs@ =~= whole);
        assert(recs@.take(base) =~= old(recs)@);
        assert forall|i: int|
            base <= i < recs@.len() implies (#[trigger] recs@[i].kind) == entry_type
            && previous_entries@.contains_key(recs@[i].name@) && (recs@[i].is_missing
            <==> !current_entries@.contains_key(recs@[i].name@)) && (recs@[i].is_missing
            ==> recs@[i].broken_exports@.len() == 0) && (!recs@[i].is_missing ==> spec_matched_rec(
            previous_entries@,
            current_entries@,
            previous_modules@,
            current_modules@,
            recs@[i],
        )) by {
            let a = i - base;
            if a < miss_cnt {
                assert(whole[i] == mv[a]);
                assert(recs@[i] == mv[a]);
                assert(mv[a].kind == entry_type);
                assert(mv[a].name@ == missing@[a]@);
            } else {
                assert(whole[i] == tv[a - miss_cnt]);
                assert(recs@[i] == tv[a - miss_cnt]);
                assert(tv[a - miss_cnt].kind == entry_type);
                assert(tv[a - miss_cnt].name@ == matching@[a - miss_cnt]@);
            }
        }
        assert forall|k: Seq<char>|
            #![trigger previous_entries@.contains_key(k)]
            previous_entries@.contains_key(k) implies exists|i: int|
            base <= i < recs@.len() && (#[trigger] recs@[i].name@) == k by {
            if current_entries@.contains_key(k) {
                assert(matching@.map_values(|s: String| s@).contains(k));
                let a = choose|a: int| 0 <= a < matching@.len() && (#[trigger] matching@[a]@)
                    == k;
                assert(whole[base + miss_cnt + a] == tv[a]);
                assert(recs@[base + miss_cnt + a] == tv[a]);
                assert(tv[a].kind == entry_type);
                assert(recs@[base + miss_cnt + a].name@ == k);
            } else {
                assert(missing@.map_values(|s: String| s@).contains(k));
                let a = choose|a: int| 0 <= a < missing@.len() && (#[trigger] missing@[a]@) == k;
                assert(whole[base + a] == mv[a]);
                assert(recs@[base + a] == mv[a]);
                assert(mv[a].kind == entry_type);
                assert(recs@[base + a].name@ == k);
            }
        }
        assert forall|i: int, j2: int|
            base <= i < j2 < recs@.len() implies recs@[i].name@ != recs@[j2].name@ by {
            let a = i - base;
            let b = j2 - base;
            if b < miss_cnt {
                assert(whole[i] == mv[a] && whole[j2] == mv[b]);
                assert(recs@[i] == mv[a] && recs@[j2] == mv[b]);
                assert(mv[a].kind == entry_type && mv[b].kind == entry_type);
            } else if a >= miss_cnt {
                assert(whole[i] == tv[a - miss_cnt] && whole[j2] == tv[b - miss_cnt]);
                assert(recs@[i] == tv[a - miss_cnt] && recs@[j2] == tv[b - miss_cnt]);
                assert(tv[a - miss_cnt].kind == entry_type && tv[b - miss_cnt].kind
                    == entry_type);
            } else {
                assert(whole[i] == mv[a] && whole[j2] == tv[b - miss_cnt]);
                assert(recs@[i] == mv[a] && recs@[j2] == tv[b - miss_cnt]);
                assert(mv[a].kind == entry_type && tv[b - miss_cnt].kind == entry_type);
                assert(recs@[i].is_missing && !recs@[j2].is_missing);
                assert(!current_entries@.contains_key(recs@[i].name@));
                assert(current_entries@.contains_key(recs@[j2].name@));
            }
        }
    }
    Result::Ok(())
}

/// Move the record at `ix` out of the scratch list (replacing it with an
/// empty placeholder), preserving the other elements' views.
fn take_record(v: &mut Vec<BrokenEntryResult>, ix: usize) -> (r: BrokenEntryResult)
    requires
        ix < old(v)@.len(),
    ensures
        r == old(v)@[ix as int],
        final(v)@.len() == old(v)@.len(),
        forall|a: int| 0 <= a < final(v)@.len() && a != ix ==> final(v)@[a] == old(v)@[a],
{
    let placeholder = BrokenEntryResult {
        kind: PkgEntryType::Main,
        name: String::new(),
        is_missing: true,
        broken_exports: Vec::new(),
    };
    let r = v.remove(ix);
    v.insert(ix, placeholder);
    proof {
        assert forall|a: int|
            0 <= a < v@.len() && a != ix implies v@[a] == old(v)@[a] by {}
    }
    r
}

/// The full diff between a previous and a current package: removed assets
/// and, per entry class, the missing entries and the broken exports of the
/// matched ones.
#[verifier::rlimit(100)]
#[verifier::spinoff_prover]
pub fn get_diff_between(previous_pkg: &Pkg, current_pkg: &Pkg) -> (r: Result<
    DiffResults,
    WalkError,
>)
    ensures
        (r matches Ok(d) ==> spec_diff_ok(previous_pkg, current_pkg, &d)),
        (r matches Err(e) ==> spec_diff_fault(previous_pkg, current_pkg, e@)),
{
    let removed_assets = diff_pkg_assets(&previous_pkg.contents, &current_pkg.contents);
    let mut recs: Vec<BrokenEntryResult> = Vec::new();
    let ghost v0 = recs@;
    match analyze_changes_between_entries(
        PkgEntryType::Main,
        &mut recs,
        &previous_pkg.entries.main,
        &current_pkg.entries.main,
        &previous_pkg.modules,
        &current_pkg.modules,
    ) {
        Result::Ok(_) => {},
        Result::Err(e) => {
            proof {
                let k = choose|k: Seq<char>|
                    spec_entry_fault(
                        previous_pkg.entries.main@,
                        current_pkg.entries.main@,
                        previous_pkg.modules@,
                        current_pkg.modules@,
                        k,
                        e@,
                    );
                assert(class_map(previous_pkg, PkgEntryType::Main) == previous_pkg.entries.main@);
                assert(class_map(current_pkg, PkgEntryType::Main) == current_pkg.entries.main@);
                assert(spec_entry_fault(
                    class_map(previous_pkg, PkgEntryType::Main),
                    class_map(current_pkg, PkgEntryType::Main),
                    previous_pkg.modules@,
                    current_pkg.modules@,
                    k,
                    e@,
                ));
            }
            return Result::Err(e);
        },
    }
    let ghost v1 = recs@;
    match analyze_changes_between_entries(
        PkgEntryType::Bin,
        &mut recs,
        &previous_pkg.entries.bin,
        &current_pkg.entries.bin,
        &previous_pkg.modules,
        &current_pkg.modules,
    ) {
        Result::Ok(_) => {},
        Result::Err(e) => {
            proof {
                let k = choose|k: Seq<char>|
                    spec_entry_fault(
                        previous_pkg.entries.bin@,
                        current_pkg.entries.bin@,
                        previous_pkg.modules@,
                        current_pkg.modules@,
                        k,
                        e@,
                    );
                assert(class_map(previous_pkg, PkgEntryType::Bin) == previous_pkg.entries.bin@);
                assert(class_map(current_pkg, PkgEntryType::Bin) == current_pkg.entries.bin@);
                assert(spec_entry_fault(
                    class_map(previous_pkg, PkgEntryType::Bin),
                    class_map(current_pkg, PkgEntryType::Bin),
                    previous_pkg.modules@,
                    current_pkg.modules@,
                    k,
                    e@,
                ));
            }
            return Result::Err(e);
        },
    }
    let ghost v2 = recs@;
    match analyze_changes_between_entries(
        PkgEntryType::Browser,
        &mut recs,
        &previous_pkg.entries.browser,
        &current_pkg.entries.browser,
        &previous_pkg.modules,
        &current_pkg.modules,
    ) {
        Result::Ok(_) => {},
        Result::Err(e) => {
            proof {
                let k = choose|k: Seq<char>|
                    spec_entry_fault(
                        previous_pkg.entries.browser@,
                        current_pkg.entries.browser@,
                        previous_pkg.modules@,
                        current_pkg.modules@,
                        k,
                        e@,
                    );
                assert(class_map(previous_pkg, PkgEntryType::Browser) == previous_pkg.entries.browser@);
                assert(class_map(current_pkg, PkgEntryType::Browser) == current_pkg.entries.browser@);
                assert(spec_entry_fault(
                    class_map(previous_pkg, PkgEntryType::Browser),
                    class_map(current_pkg, PkgEntryType::Browser),
                    previous_pkg.modules@,
                    current_pkg.modules@,
                    k,
                    e@,
                ));
            }
            return Result::Err(e);
        },
    }
    let ghost v3 = recs@;
    match analyze_changes_between_entries(
        PkgEntryType::Exports,
        &mut recs,
        &previous_pkg.entries.exports,
        &current_pkg.entries.exports,
        &previous_pkg.modules,
        &current_pkg.modules,
    ) {
        Result::Ok(_) => {},
        Result::Err(e) => {
            proof {
                let k = choose|k: Seq<char>|
                    spec_entry_fault(
                        previous_pkg.entries.exports@,
                        current_pkg.entries.exports@,
                        previous_pkg.modules@,
                        current_pkg.modules@,
                        k,
                        e@,
                    );
                assert(class_map(previous_pkg, PkgEntryType::Exports) == previous_pkg.entries.exports@);
                assert(class_map(current_pkg, PkgEntryType::Exports) == current_pkg.entries.exports@);
                assert(spec_entry_fault(
                    class_map(previous_pkg, PkgEntryType::Exports),
                    class_map(current_pkg, PkgEntryType::Exports),
                    previous_pkg.modules@,
                    current_pkg.modules@,
                    k,
                    e@,
                ));
            }
            return Result::Err(e);
        },
    }
    let ghost n0 = v0.len() as int;
    let ghost n1 = v1.len() as int;
    let ghost n2 = v2.len() as int;
    let ghost n3 = v3.len() as int;
    let d = DiffResults { removed_assets, broken_entries: recs };
    proof {
        let rs = d.broken_entries@;
        let n4 = rs.len() as int;
        assert(rs.take(n3) == v3 && v3.take(n2) == v2 && v2.take(n1) == v1);
        assert forall|i: int| 0 <= i < n3 implies rs[i] == v3[i] by {
            assert(rs.take(n3)[i] == rs[i]);
        }
        assert forall|i: int| 0 <= i < n2 implies v3[i] == v2[i] by {
            assert(v3.take(n2)[i] == v3[i]);
        }
        assert forall|i: int| 0 <= i < n1 implies v2[i] == v1[i] by {
            assert(v2.take(n1)[i] == v2[i]);
        }
        let pmain = previous_pkg.entries.main@;
        let pbin = previous_pkg.entries.bin@;
        let pbrowser = previous_pkg.entries.browser@;
        let pexports = previous_pkg.entries.exports@;
        let cmain = current_pkg.entries.main@;
        let cbin = current_pkg.entries.bin@;
        let cbrowser = current_pkg.entries.browser@;
        let cexports = current_pkg.entries.exports@;
        assert forall|i: int|
            0 <= i < rs.len() implies spec_rec_ok(previous_pkg, current_pkg, #[trigger] rs[
        i]) && segment_kind(rs[i].kind, i, n1, n2, n3) by {
            if i < n1 {
                assert(v1[i].kind == PkgEntryType::Main);
                assert(rs[i] == v1[i]);
            } else if i < n2 {
                assert(v2[i].kind == PkgEntryType::Bin);
                assert(rs[i] == v2[i]);
            } else if i < n3 {
                assert(v3[i].kind == PkgEntryType::Browser);
                assert(rs[i] == v3[i]);
            } else {
                assert(rs[i].kind == PkgEntryType::Exports);
            }
        }
        assert forall|kind: PkgEntryType, k: Seq<char>|
            #![trigger class_map(previous_pkg, kind).contains_key(k)]
            class_map(previous_pkg, kind).contains_key(k) implies exists|i: int|
            0 <= i < rs.len() && (#[trigger] rs[i].kind) == kind && rs[i].name@ == k by {
            match kind {
                PkgEntryType::Main => {
                    assert(pmain.contains_key(k));
                    let i = choose|i: int| n0 <= i < n1 && (#[trigger] v1[i].name@) == k;
                    assert(v1[i].kind == PkgEntryType::Main);
                    assert(rs[i] == v1[i]);
                    assert(rs[i].kind == kind && rs[i].name@ == k);
                },
                PkgEntryType::Bin => {
                    assert(pbin.contains_key(k));
                    let i = choose|i: int| n1 <= i < n2 && (#[trigger] v2[i].name@) == k;
                    assert(v2[i].kind == PkgEntryType::Bin);
                    assert(rs[i] == v2[i]);
                    assert(rs[i].kind == kind && rs[i].name@ == k);
                },
                PkgEntryType::Browser => {
                    assert(pbrowser.contains_key(k));
                    let i = choose|i: int| n2 <= i < n3 && (#[trigger] v3[i].name@) == k;
                    assert(v3[i].kind == PkgEntryType::Browser);
                    assert(rs[i] == v3[i]);
                    assert(rs[i].kind == kind && rs[i].name@ == k);
                },
                PkgEntryType::Exports => {
                    assert(pexports.contains_key(k));
                    let i = choose|i: int| n3 <= i < n4 && (#[trigger] rs[i].name@) == k;
                    assert(rs[i].kind == kind && rs[i].name@ == k);
                },
            }
        }
        assert forall|i: int, j: int|
            0 <= i < j < rs.len() implies !(rs[i].kind == rs[j].kind && rs[i].name@ == rs[
        j].name@) by {
            assert(segment_kind(rs[i].kind, i, n1, n2, n3));
            assert(segment_kind(rs[j].kind, j, n1, n2, n3));
            if rs[i].kind == rs[j].kind {
                if j < n1 {
                    assert(rs[i] == v1[i] && rs[j] == v1[j]);
                    assert(v1[i].name@ != v1[j].name@);
                } else if j < n2 {
                    assert(i >= n1);
                    assert(rs[i] == v2[i] && rs[j] == v2[j]);
                    assert(v2[i].name@ != v2[j].name@);
                } else if j < n3 {
                    assert(i >= n2);
                    assert(rs[i] == v3[i] && rs[j] == v3[j]);
                    assert(v3[i].name@ != v3[j].name@);
                } else {
                    assert(i >= n3);
                    assert(rs[i].name@ != rs[j].name@);
                }
            }
        }
    }
    Result::Ok(d)
}

/// Which segment of the report a record's kind confines it to.
pub open spec fn segment_kind(kind: PkgEntryType, i: int, n1: int, n2: int, n3: int) -> bool {
    match kind {
        PkgEntryType::Main => i < n1,
        PkgEntryType::Bin => n1 <= i < n2,
        PkgEntryType::Browser => n2 <= i < n3,
        PkgEntryType::Exports => n3 <= i,
    }
}

/// Diffing a package against itself reports nothing: no removed assets and
/// zero issues.
pub proof fn lemma_diff_self(p: &Pkg, d: &DiffResults)
    requires
        spec_diff_ok(p, p, d),
    ensures
        d.removed_assets@.len() == 0,
        d.spec_issue_count() == 0,
{
    if d.removed_assets@.len() > 0 {
        assert(spec_removed_asset(&p.contents, &p.contents, d.removed_assets@[0]@));
    }
    assert forall|i: int|
        0 <= i < d.broken_entries@.len() implies (#[trigger] d.broken_entries@[
    i]).spec_issue_count() == 0 by {
        let rec = d.broken_entries@[i];
        assert(spec_rec_ok(p, p, rec));
        assert(!rec.is_missing);
        if rec.broken_exports@.len() > 0 {
            let pex = spec_get_exports(p.modules@, class_map(p, rec.kind)[rec.name@].path);
            assert(spec_exports_broken(pex->Ok_0, pex->Ok_0, rec.broken_exports@));
            let lab = rec.broken_exports@[0].label@;
            if lab == "Default export"@ {
                assert(exists|ii: int|
                    0 <= ii < rec.broken_exports@.len() && (#[trigger] rec.broken_exports@[
                    ii].label@) == "Default export"@);
            } else {
                let k = choose|k: Seq<char>| #![trigger named_label(k)]
                    (pex->Ok_0.named.contains_key(k) && !pex->Ok_0.named.contains_key(k)
                        && rec.broken_exports@[0].label@ == named_label(k)
                        && rec.broken_exports@[0].break_type == BreakType::RemovedOrRenamed);
            }
        }
    }
    lemma_entries_issue_zero(d.broken_entries@);
}

proof fn lemma_entries_issue_zero(recs: Seq<BrokenEntryResult>)
    requires
        forall|i: int|
            0 <= i < recs.len() ==> (#[trigger] recs[i]).spec_issue_count() == 0,
    ensures
        crate::results::spec_entries_issue_count(recs) == 0,
    decreases recs.len(),
{
    if recs.len() > 0 {
        lemma_entries_issue_zero(recs.drop_last());
    }
}

/// The removed assets of any diff are a subset of the previous version's
/// assets.
pub proof fn lemma_removed_assets_subset(prev: &Pkg, cur: &Pkg, d: &DiffResults, i: int)
    requires
        spec_diff_ok(prev, cur, d),
        0 <= i < d.removed_assets@.len(),
    ensures
        prev.contents.spec_is_asset(d.removed_assets@[i]@),
{
}

} // verus!
