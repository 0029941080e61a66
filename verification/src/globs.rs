//! Glob patterns and the registry publishing rules: include globs from the
//! manifest `files` array, the hard and soft exclude lists, the
//! always-included negations, and `.npmignore` additions. Matching itself
//! is the `glob` crate's work, behind trusted wrappers.

use vstd::prelude::*;
use crate::jsonval::{JsonVal, JsonView, json_view};
use crate::strutil::{
    spec_split, split_char, spec_starts_with, starts_with, spec_trim_start, spec_trim_end,
    trim_start, trim_end,
};

verus! {

#[verifier::external_type_specification]
#[verifier::external_body]
pub struct ExPattern(glob::Pattern);

/// Whether the glob pattern text `pattern` matches `path`, as
/// `glob::Pattern::matches` decides it: a function of the two texts alone.
pub uninterp spec fn glob_accepts(pattern: Seq<char>, path: Seq<char>) -> bool;

/// Whether `pattern` is valid glob syntax, i.e. `glob::Pattern::new`
/// accepts it.
pub uninterp spec fn glob_ok(pattern: Seq<char>) -> bool;

/// A compiled glob pattern together with the text it was compiled from.
/// The only constructor is `GlobPat::compile`, so the compiled matcher
/// always belongs to the stored source text.
pub struct GlobPat {
    source: String,
    pat: glob::Pattern,
}

impl GlobPat {
    /// The pattern text this matcher was compiled from.
    pub closed spec fn spec_source(&self) -> Seq<char> {
        self.source@
    }

    /// Relies on `glob::Pattern::new`: it accepts exactly the texts that
    /// are valid glob syntax, and the compiled matcher is kept beside its
    /// source text.
    #[verifier::external_body]
    pub fn compile(source: String) -> (r: Option<GlobPat>)
        ensures
            (r matches Option::Some(g) ==> g.spec_source() == source@ && glob_ok(source@)),
            (r is None) ==> !glob_ok(source@),
    {
        match glob::Pattern::new(source.as_str()) {
            Ok(pat) => Some(GlobPat { source, pat }),
            Err(_) => None,
        }
    }

    /// Relies on `glob::Pattern::matches`: whether this pattern matches
    /// the path text, a function of the pattern and path texts alone.
    #[verifier::external_body]
    pub fn matches(&self, path: &str) -> (r: bool)
        ensures
            r == glob_accepts(self.spec_source(), path@),
    {
        self.pat.matches(path)
    }
}

/// The source texts of a pattern list.
pub open spec fn sources_of(pats: Seq<GlobPat>) -> Seq<Seq<char>> {
    pats.map_values(|g: GlobPat| g.spec_source())
}

/// Whether any pattern in the list matches the path.
pub open spec fn spec_matches_any(pats: Seq<Seq<char>>, path: Seq<char>) -> bool {
    exists|i: int| 0 <= i < pats.len() && glob_accepts(#[trigger] pats[i], path)
}

/// Whether the path matches at least one of the patterns.
#[verifier::loop_isolation(false)]
pub fn path_matches_a_pattern_in(path: &str, patterns: &Vec<GlobPat>) -> (r: bool)
    ensures
        r == spec_matches_any(sources_of(patterns@), path@),
{
    let ghost srcs = sources_of(patterns@);
    let mut i: usize = 0;
    while i < patterns.len()
        invariant
            i <= patterns@.len(),
            forall|j: int| 0 <= j < i ==> !glob_accepts(#[trigger] srcs[j], path@),
        decreases patterns@.len() - i,
    {
        if patterns[i].matches(path) {
            proof {
                assert(glob_accepts(srcs[i as int], path@));
            }
            return true;
        }
        i = i + 1;
    }
    false
}

/// Whether an exclude pattern covers the path or any of its ancestor
/// directories (the walk prunes at an excluded directory, so everything
/// below one is excluded with it).
pub open spec fn spec_excluded_prefix(excludes: Seq<Seq<char>>, path: Seq<char>) -> bool {
    exists|i: int|
        0 <= i <= path.len() && (i == path.len() || path[i] == '/') && spec_matches_any(
            excludes,
            #[trigger] path.take(i),
        )
}

/// Whether an exclude pattern covers the path or an ancestor directory.
#[verifier::loop_isolation(false)]
pub fn path_excluded_by_prefix(path: &str, excludes: &Vec<GlobPat>) -> (r: bool)
    ensures
        r == spec_excluded_prefix(sources_of(excludes@), path@),
{
    let n = path.unicode_len();
    let mut i: usize = 0;
    while i < n
        invariant
            i <= n,
            n == path@.len(),
            forall|j: int|
                0 <= j < i && (path@[j] == '/') ==> !spec_matches_any(
                    sources_of(excludes@),
                    #[trigger] path@.take(j),
                ),
        decreases n - i,
    {
        if path.get_char(i) == '/' {
            if path_matches_a_pattern_in(path.substring_char(0, i), excludes) {
                proof {
                    assert(path@.subrange(0, i as int) =~= path@.take(i as int));
                }
                return true;
            }
            proof {
                assert(path@.subrange(0, i as int) =~= path@.take(i as int));
            }
        }
        i = i + 1;
    }
    if path_matches_a_pattern_in(path, excludes) {
        proof {
            assert(path@.take(n as int) =~= path@);
        }
        return true;
    }
    proof {
        assert(path@.take(n as int) =~= path@);
        if spec_excluded_prefix(sources_of(excludes@), path@) {
            let j = choose|j: int|
                0 <= j <= path@.len() && (j == path@.len() || path@[j] == '/') && spec_matches_any(
                    sources_of(excludes@),
                    #[trigger] path@.take(j),
                );
            assert(false);
        }
    }
    false
}

/// The glob program's acceptance rule: a path is accepted when it matches
/// an include pattern and neither it nor an ancestor directory is
/// excluded; a path covered by a negation is always accepted.
pub open spec fn spec_glob_program_accepts(
    includes: Seq<Seq<char>>,
    excludes: Seq<Seq<char>>,
    negations: Seq<Seq<char>>,
    path: Seq<char>,
) -> bool {
    (spec_matches_any(includes, path) && !spec_excluded_prefix(excludes, path))
        || spec_matches_any(negations, path)
}

/// A pattern list whose construction failed on invalid glob text.
#[derive(Debug)]
pub enum GlobError {
    BadPattern(String),
}

/// The include pattern texts that take part in soft-exclude suppression:
/// only patterns the manifest's `files` array supplied (the implicit
/// everything-include suppresses nothing).
pub open spec fn spec_suppression_sources(files: JsonView) -> Seq<Seq<char>> {
    if !(files is Arr) || files->Arr_0.len() == 0 {
        Seq::empty()
    } else {
        include_entries(files->Arr_0)
    }
}

/// The include pattern texts called for by a manifest `files` value:
/// everything under the root when the field is missing, not an array, or
/// empty; otherwise its string entries, dropping package-escaping ones.
pub open spec fn spec_include_sources(files: JsonView) -> Seq<Seq<char>> {
    if !(files is Arr) || files->Arr_0.len() == 0 {
        seq!["**/*"@]
    } else {
        include_entries(files->Arr_0)
    }
}

/// The string entries of the `files` array that stay inside the package.
pub open spec fn include_entries(es: Seq<JsonView>) -> Seq<Seq<char>>
    decreases es.len(),
{
    if es.len() == 0 {
        Seq::empty()
    } else {
        let rest = include_entries(es.drop_last());
        match es.last() {
            JsonView::Str(s) => if spec_starts_with(s, "../"@) {
                rest
            } else {
                rest.push(s)
            },
            _ => rest,
        }
    }
}

/// Every pattern text in the list is valid glob syntax.
pub open spec fn all_globs_ok(srcs: Seq<Seq<char>>) -> bool {
    forall|i: int| 0 <= i < srcs.len() ==> glob_ok(#[trigger] srcs[i])
}

/// Compile every source text in order; the first invalid one is fatal.
#[verifier::loop_isolation(false)]
pub fn compile_all(sources: Vec<String>) -> (r: Result<Vec<GlobPat>, GlobError>)
    ensures
        (r matches Ok(pats) ==> sources_of(pats@) == sources@.map_values(|s: String| s@)
            && all_globs_ok(sources@.map_values(|s: String| s@))),
        (r is Err) ==> !all_globs_ok(sources@.map_values(|s: String| s@)),
{
    let ghost srcs = sources@.map_values(|s: String| s@);
    let mut out: Vec<GlobPat> = Vec::new();
    let mut i: usize = 0;
    proof {
        assert(sources_of(out@) =~= srcs.take(0));
    }
    while i < sources.len()
        invariant
            i <= sources@.len(),
            sources_of(out@) =~= srcs.take(i as int),
            forall|j: int| 0 <= j < i ==> glob_ok(#[trigger] srcs[j]),
        decreases sources@.len() - i,
    {
        let src = String::from_str(sources[i].as_str());
        match GlobPat::compile(src) {
            Option::Some(g) => {
                let ghost prev = out@;
                out.push(g);
                proof {
                    assert(sources_of(out@) =~= sources_of(prev).push(g.spec_source()));
                    assert(srcs.take(i + 1) =~= srcs.take(i as int).push(srcs[i as int]));
                }
            },
            Option::None => {
                proof {
                    assert(!glob_ok(srcs[i as int]));
                }
                return Result::Err(GlobError::BadPattern(String::from_str(sources[i].as_str())));
            },
        }
        i = i + 1;
    }
    proof {
        assert(srcs.take(sources@.len() as int) =~= srcs);
    }
    Result::Ok(out)
}

/// The include source texts of a manifest `files` value, as executable
/// strings.
#[verifier::loop_isolation(false)]
pub fn include_sources(files: &JsonVal) -> (r: Vec<String>)
    ensures
        r@.map_values(|s: String| s@) == spec_include_sources(json_view(*files)),
{
    let n = files.arr_len();
    if n == 0 {
        let mut out: Vec<String> = Vec::new();
        out.push(String::from_str("**/*"));
        proof {
            assert(out@.map_values(|s: String| s@) =~= seq!["**/*"@]);
            if json_view(*files) is Arr {
                assert(json_view(*files)->Arr_0 =~= Seq::<JsonView>::empty());
            }
        }
        return out;
    }
    let ghost es = json_view(*files)->Arr_0;
    let mut out: Vec<String> = Vec::new();
    let mut i: usize = 0;
    proof {
        assert(es.take(0) =~= Seq::<JsonView>::empty());
        assert(out@.map_values(|s: String| s@) =~= include_entries(es.take(0)));
    }
    while i < n
        invariant
            i <= n,
            n == es.len(),
            json_view(*files) is Arr,
            es == json_view(*files)->Arr_0,
            out@.map_values(|s: String| s@) =~= include_entries(es.take(i as int)),
        decreases n - i,
    {
        proof {
            assert(es.take(i + 1).drop_last() =~= es.take(i as int));
            assert(es.take(i + 1).last() == es[i as int]);
        }
        let entry = files.arr_at(i);
        match entry.str_value() {
            Option::Some(s) => {
                if !starts_with(s.as_str(), "../") {
                    let ghost prev = out@;
                    out.push(String::from_str(s.as_str()));
                    proof {
                        assert(out@.map_values(|x: String| x@) =~= prev.map_values(|x: String| x@)
                            .push(s@));
                    }
                }
            },
            Option::None => {},
        }
        i = i + 1;
    }
    proof {
        assert(es.take(es.len() as int) =~= es);
    }
    out
}


// ---------------------------------------------------------------------------
// Exclude and negation rules.
// ---------------------------------------------------------------------------

/// Always excluded, regardless of settings.
pub open spec fn hard_excludes() -> Seq<Seq<char>> {
    seq![
        "**/.git"@,
        "**/.npmrc"@,
        "**/node_modules"@,
        "**/package-lock.json"@,
        "**/pnpm-lock.yaml"@,
        "**/yarn.lock"@,
    ]
}

/// Excluded by default, unless an include pattern covers the glob text
/// itself.
pub open spec fn soft_excludes() -> Seq<Seq<char>> {
    seq![
        "**/*.orig"@,
        "**/.*.swp"@,
        "**/.DS_Store"@,
        "**/._*"@,
        "**/.hg"@,
        "**/.lock-wscript"@,
        "**/.svn"@,
        "**/.wafpickle-N"@,
        "**/CVS"@,
        "**/config.gypi"@,
        "**/npm-debug.log"@,
    ]
}

/// Always included, regardless of other rules: the manifest itself, and
/// README/LICENSE/LICENCE in any casing, with or without an extension.
pub open spec fn base_negations() -> Seq<Seq<char>> {
    seq![
        "package.json"@,
        "[rR][eE][aA][dD][mM][eE]"@,
        "[rR][eE][aA][dD][mM][eE].*"@,
        "[lL][iI][cC][eE][nN][sS][eE]"@,
        "[lL][iI][cC][eE][nN][sS][eE].*"@,
        "[lL][iI][cC][eE][nN][cC][eE]"@,
        "[lL][iI][cC][eE][nN][cC][eE].*"@,
    ]
}

/// The soft excludes that survive: those not covered by an include
/// pattern text.
pub open spec fn kept_softs(softs: Seq<Seq<char>>, includes: Seq<Seq<char>>) -> Seq<Seq<char>>
    decreases softs.len(),
{
    if softs.len() == 0 {
        Seq::empty()
    } else {
        let rest = kept_softs(softs.drop_last(), includes);
        if spec_matches_any(includes, softs.last()) {
            rest
        } else {
            rest.push(softs.last())
        }
    }
}

/// The exclude lines a `.npmignore` body adds: non-empty, non-comment,
/// non-negated lines, trimmed.
pub open spec fn ignore_excludes(lines: Seq<Seq<char>>) -> Seq<Seq<char>>
    decreases lines.len(),
{
    if lines.len() == 0 {
        Seq::empty()
    } else {
        let rest = ignore_excludes(lines.drop_last());
        let t = spec_trim_start(lines.last());
        if t.len() == 0 || t[0] == '#' || t[0] == '!' {
            rest
        } else {
            rest.push(spec_trim_end(t))
        }
    }
}

/// The negation lines a `.npmignore` body adds: `!`-prefixed lines with a
/// non-empty remainder, trimmed.
pub open spec fn ignore_negations(lines: Seq<Seq<char>>) -> Seq<Seq<char>>
    decreases lines.len(),
{
    if lines.len() == 0 {
        Seq::empty()
    } else {
        let rest = ignore_negations(lines.drop_last());
        let t = spec_trim_start(lines.last());
        if t.len() > 0 && t[0] == '!' && t.skip(1).len() > 0 {
            rest.push(spec_trim_end(t.skip(1)))
        } else {
            rest
        }
    }
}

/// View of an optional text.
pub open spec fn opt_text(s: Option<&str>) -> Option<Seq<char>> {
    match s {
        Option::Some(t) => Option::Some(t@),
        Option::None => Option::None,
    }
}

/// The full exclude pattern texts: hard excludes, surviving soft
/// excludes, then `.npmignore` additions.
pub open spec fn spec_exclude_sources(
    includes: Seq<Seq<char>>,
    npmignore: Option<Seq<char>>,
) -> Seq<Seq<char>> {
    hard_excludes() + kept_softs(soft_excludes(), includes) + (match npmignore {
        Option::Some(body) => ignore_excludes(spec_split(body, '\n')),
        Option::None => Seq::empty(),
    })
}

/// The full negation pattern texts: the always-included set, then
/// `.npmignore` negations.
pub open spec fn spec_negation_sources(npmignore: Option<Seq<char>>) -> Seq<Seq<char>> {
    base_negations() + (match npmignore {
        Option::Some(body) => ignore_negations(spec_split(body, '\n')),
        Option::None => Seq::empty(),
    })
}

fn push_str_lit(out: &mut Vec<String>, lit: &str)
    ensures
        final(out)@.map_values(|s: String| s@) == old(out)@.map_values(|s: String| s@).push(lit@),
{
    let ghost prev = out@;
    out.push(String::from_str(lit));
    proof {
        assert(out@.map_values(|s: String| s@) =~= prev.map_values(|s: String| s@).push(lit@));
    }
}

/// The exclude and negation pattern lists for a package: the registry's
/// built-in rules plus any `.npmignore` contents, compiled.
#[verifier::loop_isolation(false)]
pub fn get_file_exclude_patterns(
    include_patterns: &Vec<GlobPat>,
    npmignore: Option<&str>,
) -> (r: Result<(Vec<GlobPat>, Vec<GlobPat>), GlobError>)
    ensures
        (r matches Ok(p) ==> sources_of(p.0@) == spec_exclude_sources(
            sources_of(include_patterns@),
            opt_text(npmignore),
        ) && sources_of(p.1@) == spec_negation_sources(opt_text(npmignore)) && all_globs_ok(
            spec_exclude_sources(sources_of(include_patterns@), opt_text(npmignore)),
        ) && all_globs_ok(spec_negation_sources(opt_text(npmignore)))),
        (r is Err) ==> !(all_globs_ok(
            spec_exclude_sources(sources_of(include_patterns@), opt_text(npmignore)),
        ) && all_globs_ok(spec_negation_sources(opt_text(npmignore)))),
{
    let ghost incl = sources_of(include_patterns@);
    let mut excl_srcs: Vec<String> = Vec::new();
    push_str_lit(&mut excl_srcs, "**/.git");
    push_str_lit(&mut excl_srcs, "**/.npmrc");
    push_str_lit(&mut excl_srcs, "**/node_modules");
    push_str_lit(&mut excl_srcs, "**/package-lock.json");
    push_str_lit(&mut excl_srcs, "**/pnpm-lock.yaml");
    push_str_lit(&mut excl_srcs, "**/yarn.lock");
    proof {
        assert(excl_srcs@.map_values(|s: String| s@) =~= hard_excludes());
    }
    let mut soft: Vec<String> = Vec::new();
    push_str_lit(&mut soft, "**/*.orig");
    push_str_lit(&mut soft, "**/.*.swp");
    push_str_lit(&mut soft, "**/.DS_Store");
    push_str_lit(&mut soft, "**/._*");
    push_str_lit(&mut soft, "**/.hg");
    push_str_lit(&mut soft, "**/.lock-wscript");
    push_str_lit(&mut soft, "**/.svn");
    push_str_lit(&mut soft, "**/.wafpickle-N");
    push_str_lit(&mut soft, "**/CVS");
    push_str_lit(&mut soft, "**/config.gypi");
    push_str_lit(&mut soft, "**/npm-debug.log");
    proof {
        assert(soft@.map_values(|s: String| s@) =~= soft_excludes());
    }
    let ghost softs = soft_excludes();
    let mut i: usize = 0;
    let ghost excl_base = excl_srcs@.map_values(|s: String| s@);
    proof {
        assert(kept_softs(softs.take(0), incl) =~= Seq::<Seq<char>>::empty());
        assert(excl_srcs@.map_values(|s: String| s@) =~= excl_base + kept_softs(
            softs.take(0),
            incl,
        ));
    }
    while i < soft.len()
        invariant
            i <= soft@.len(),
            soft@.map_values(|s: String| s@) == softs,
            softs.len() == soft@.len(),
            excl_srcs@.map_values(|s: String| s@) =~= excl_base + kept_softs(
                softs.take(i as int),
                incl,
            ),
        decreases soft@.len() - i,
    {
        proof {
            assert(softs.take(i + 1).drop_last() =~= softs.take(i as int));
            assert(softs.take(i + 1).last() == softs[i as int]);
        }
        let covered = path_matches_a_pattern_in(soft[i].as_str(), include_patterns);
        if !covered {
            let ghost prev = excl_srcs@;
            excl_srcs.push(String::from_str(soft[i].as_str()));
            proof {
                assert(excl_srcs@.map_values(|s: String| s@) =~= prev.map_values(|s: String| s@)
                    .push(softs[i as int]));
            }
        }
        i = i + 1;
    }
    proof {
        assert(softs.take(softs.len() as int) =~= softs);
    }
    let mut neg_srcs: Vec<String> = Vec::new();
    push_str_lit(&mut neg_srcs, "package.json");
    push_str_lit(&mut neg_srcs, "[rR][eE][aA][dD][mM][eE]");
    push_str_lit(&mut neg_srcs, "[rR][eE][aA][dD][mM][eE].*");
    push_str_lit(&mut neg_srcs, "[lL][iI][cC][eE][nN][sS][eE]");
    push_str_lit(&mut neg_srcs, "[lL][iI][cC][eE][nN][sS][eE].*");
    push_str_lit(&mut neg_srcs, "[lL][iI][cC][eE][nN][cC][eE]");
    push_str_lit(&mut neg_srcs, "[lL][iI][cC][eE][nN][cC][eE].*");
    proof {
        assert(neg_srcs@.map_values(|s: String| s@) =~= base_negations());
    }
    match npmignore {
        Option::Some(body) => {
            let lines = split_char(body, '\n');
            let ghost lineviews = lines@.map_values(|s: String| s@);
            let ghost excl_pre = excl_srcs@.map_values(|s: String| s@);
            let ghost neg_pre = neg_srcs@.map_values(|s: String| s@);
            let mut li: usize = 0;
            proof {
                assert(ignore_excludes(lineviews.take(0)) =~= Seq::<Seq<char>>::empty());
                assert(ignore_negations(lineviews.take(0)) =~= Seq::<Seq<char>>::empty());
                assert(excl_srcs@.map_values(|s: String| s@) =~= excl_pre + ignore_excludes(
                    lineviews.take(0),
                ));
                assert(neg_srcs@.map_values(|s: String| s@) =~= neg_pre + ignore_negations(
                    lineviews.take(0),
                ));
            }
            while li < lines.len()
                invariant
                    li <= lines@.len(),
                    lineviews == lines@.map_values(|s: String| s@),
                    excl_srcs@.map_values(|s: String| s@) =~= excl_pre + ignore_excludes(
                        lineviews.take(li as int),
                    ),
                    neg_srcs@.map_values(|s: String| s@) =~= neg_pre + ignore_negations(
                        lineviews.take(li as int),
                    ),
                decreases lines@.len() - li,
            {
                proof {
                    assert(lineviews.take(li + 1).drop_last() =~= lineviews.take(li as int));
                    assert(lineviews.take(li + 1).last() == lineviews[li as int]);
                }
                let t = trim_start(lines[li].as_str());
                let n = t.unicode_len();
                if n == 0 {
                } else {
                    let c0 = t.get_char(0);
                    if c0 == '#' {
                    } else if c0 == '!' {
                        let rest = t.substring_char(1, n);
                        proof {
                            assert(rest@ =~= t@.skip(1));
                        }
                        if rest.unicode_len() > 0 {
                            let trimmed = trim_end(rest);
                            let ghost prev = neg_srcs@;
                            neg_srcs.push(String::from_str(trimmed));
                            proof {
                                assert(neg_srcs@.map_values(|s: String| s@) =~= prev.map_values(
                                    |s: String| s@,
                                ).push(spec_trim_end(t@.skip(1))));
                            }
                        }
                    } else {
                        let trimmed = trim_end(t);
                        let ghost prev = excl_srcs@;
                        excl_srcs.push(String::from_str(trimmed));
                        proof {
                            assert(excl_srcs@.map_values(|s: String| s@) =~= prev.map_values(
                                |s: String| s@,
                            ).push(spec_trim_end(t@)));
                        }
                    }
                }
                li = li + 1;
            }
            proof {
                assert(lineviews.take(lines@.len() as int) =~= lineviews);
            }
        },
        Option::None => {},
    }
    proof {
        assert(excl_srcs@.map_values(|s: String| s@) =~= spec_exclude_sources(
            incl,
            opt_text(npmignore),
        ));
        assert(neg_srcs@.map_values(|s: String| s@) =~= spec_negation_sources(
            opt_text(npmignore),
        ));
    }
    let excludes = match compile_all(excl_srcs) {
        Result::Ok(v) => v,
        Result::Err(e) => {
            return Result::Err(e);
        },
    };
    let negations = match compile_all(neg_srcs) {
        Result::Ok(v) => v,
        Result::Err(e) => {
            return Result::Err(e);
        },
    };
    Result::Ok((excludes, negations))
}

} // verus!
