//! The library's path model: package-root-relative, `/`-separated strings.
//! Joining resolves `.` and `..` segments and drops empty ones, so module
//! references written against an entry's directory land on inventory keys.

use vstd::prelude::*;
use crate::strutil::{
    spec_split, split_char, str_eq, after_last_ix, find_after_last, lemma_after_last_ix,
    first_ix, lemma_first_ix_at, lemma_split_pieces_free,
};

verus! {

pub open spec fn seg_dot() -> Seq<char> {
    seq!['.']
}

pub open spec fn seg_dotdot() -> Seq<char> {
    seq!['.', '.']
}

/// Normalize a segment list: drop empty and `.` segments; `..` removes the
/// previous kept segment when there is one, else is dropped (paths cannot
/// escape the package root).
pub open spec fn norm_segs(segs: Seq<Seq<char>>) -> Seq<Seq<char>>
    decreases segs.len(),
{
    if segs.len() == 0 {
        Seq::empty()
    } else {
        let rest = norm_segs(segs.drop_last());
        let last = segs.last();
        if last.len() == 0 || last == seg_dot() {
            rest
        } else if last == seg_dotdot() {
            if rest.len() > 0 {
                rest.drop_last()
            } else {
                rest
            }
        } else {
            rest.push(last)
        }
    }
}

pub open spec fn join_segs(segs: Seq<Seq<char>>) -> Seq<char>
    decreases segs.len(),
{
    if segs.len() == 0 {
        Seq::empty()
    } else if segs.len() == 1 {
        segs[0]
    } else {
        join_segs(segs.drop_last()) + seq!['/'] + segs.last()
    }
}

pub open spec fn spec_normalize(p: Seq<char>) -> Seq<char> {
    join_segs(norm_segs(spec_split(p, '/')))
}

/// A relative reference joined against a directory, then normalized. A
/// reference starting with `/` ignores the directory.
pub open spec fn spec_path_join(dir: Seq<char>, rel: Seq<char>) -> Seq<char> {
    if rel.len() > 0 && rel[0] == '/' {
        spec_normalize(rel)
    } else if dir.len() == 0 {
        spec_normalize(rel)
    } else {
        spec_normalize(dir + seq!['/'] + rel)
    }
}

/// The directory part of a path: everything before the last `/`, empty for
/// a bare file name.
pub open spec fn spec_parent(p: Seq<char>) -> Seq<char> {
    if after_last_ix(p, '/') == 0 {
        Seq::empty()
    } else {
        p.take(after_last_ix(p, '/') - 1)
    }
}

/// The extension of a path's final segment: the characters after its last
/// `.`, provided that `.` is not the segment's first character.
pub open spec fn spec_ext(p: Seq<char>) -> Option<Seq<char>> {
    let seg = p.skip(after_last_ix(p, '/'));
    let d = after_last_ix(seg, '.');
    if d <= 1 {
        None
    } else {
        Some(seg.skip(d))
    }
}

pub fn normalize_path(p: &str) -> (r: String)
    ensures
        r@ == spec_normalize(p@),
{
    let segs = split_char(p, '/');
    let ghost segviews = segs@.map_values(|x: String| x@);
    let mut stack: Vec<String> = Vec::new();
    let mut i: usize = 0;
    proof {
        assert(segviews.take(0) =~= Seq::<Seq<char>>::empty());
        assert(stack@.map_values(|x: String| x@) =~= norm_segs(segviews.take(0)));
    }
    while i < segs.len()
        invariant
            i <= segs@.len(),
            segviews == segs@.map_values(|x: String| x@),
            stack@.map_values(|x: String| x@) =~= norm_segs(segviews.take(i as int)),
        decreases segs@.len() - i,
    {
        let ghost prev = stack@;
        let sg = &segs[i];
        proof {
            reveal_strlit(".");
            reveal_strlit("..");
            assert("."@ =~= seg_dot());
            assert(".."@ =~= seg_dotdot());
            assert(segviews.take(i + 1).drop_last() =~= segviews.take(i as int));
            assert(segviews.take(i + 1).last() == sg@);
        }
        if sg.unicode_len() == 0 || str_eq(sg.as_str(), ".") {
            // dropped
        } else if str_eq(sg.as_str(), "..") {
            if stack.len() > 0 {
                stack.pop();
                proof {
                    assert(stack@.map_values(|x: String| x@) =~= prev.map_values(|x: String| x@)
                        .drop_last());
                }
            }
        } else {
            stack.push(String::from_str(sg.as_str()));
            proof {
                assert(stack@.map_values(|x: String| x@) =~= prev.map_values(|x: String| x@).push(
                    sg@,
                ));
            }
        }
        i = i + 1;
    }
    proof {
        assert(segviews.take(segs@.len() as int) =~= segviews);
    }
    let ghost stackviews = stack@.map_values(|x: String| x@);
    let mut out = String::new();
    let mut k: usize = 0;
    proof {
        assert(out@ =~= join_segs(stackviews.take(0)));
    }
    while k < stack.len()
        invariant
            k <= stack@.len(),
            stackviews == stack@.map_values(|x: String| x@),
            out@ =~= join_segs(stackviews.take(k as int)),
        decreases stack@.len() - k,
    {
        proof {
            reveal_strlit("/");
            assert(stackviews.take(k + 1).drop_last() =~= stackviews.take(k as int));
            assert(stackviews.take(k + 1).last() == stack@[k as int]@);
        }
        if k > 0 {
            out.append("/");
        }
        out.append(stack[k].as_str());
        proof {
            if k == 0 {
                assert(join_segs(stackviews.take(1)) == stackviews[0]);
                assert(out@ =~= stackviews[0]);
            }
        }
        k = k + 1;
    }
    proof {
        assert(stackviews.take(stack@.len() as int) =~= stackviews);
    }
    out
}

pub fn path_join(dir: &str, rel: &str) -> (r: String)
    ensures
        r@ == spec_path_join(dir@, rel@),
{
    if rel.unicode_len() > 0 && rel.get_char(0) == '/' {
        normalize_path(rel)
    } else if dir.unicode_len() == 0 {
        normalize_path(rel)
    } else {
        let mut s = String::from_str(dir);
        s.append("/");
        s.append(rel);
        proof {
            reveal_strlit("/");
            assert("/"@ =~= seq!['/']);
            assert(s@ =~= dir@ + seq!['/'] + rel@);
        }
        normalize_path(s.as_str())
    }
}

pub fn parent_dir(p: &str) -> (r: String)
    ensures
        r@ == spec_parent(p@),
{
    let cut = find_after_last(p, '/');
    proof {
        lemma_after_last_ix(p@, '/');
    }
    if cut == 0 {
        proof {
            reveal_strlit("");
            assert(""@ =~= Seq::<char>::empty());
        }
        String::from_str("")
    } else {
        String::from_str(p.substring_char(0, cut - 1))
    }
}

/// The extension of the path's file name, when it has one.
pub fn path_ext<'a>(p: &'a str) -> (r: Option<&'a str>)
    ensures
        match r {
            Some(e) => spec_ext(p@) == Some(e@),
            None => spec_ext(p@) is None,
        },
{
    let n = p.unicode_len();
    let segstart = find_after_last(p, '/');
    proof {
        lemma_after_last_ix(p@, '/');
    }
    let seg = p.substring_char(segstart, n);
    let d = find_after_last(seg, '.');
    proof {
        assert(seg@ =~= p@.skip(after_last_ix(p@, '/')));
        lemma_after_last_ix(p@, '/');
    }
    if d <= 1 {
        None
    } else {
        let m = seg.unicode_len();
        proof {
            lemma_after_last_ix(seg@, '.');
        }
        Some(seg.substring_char(d, m))
    }
}


/// A segment fit for a normalized path: nonempty, not `.` or `..`, and
/// free of separators.
pub open spec fn seg_ok(seg: Seq<char>) -> bool {
    seg.len() > 0 && seg != seg_dot() && seg != seg_dotdot() && !seg.contains('/')
}

/// The shape spec of a content-source path: empty, or made of `seg_ok`
/// segments only — so never absolute (no leading or doubled `/`), never
/// holding a `.` or `..` segment, never ending in `/`.
pub open spec fn path_shape_ok(p: Seq<char>) -> bool {
    p.len() == 0 || (forall|i: int|
        0 <= i < spec_split(p, '/').len() ==> seg_ok(#[trigger] spec_split(p, '/')[i]))
}

proof fn lemma_norm_segs_ok(segs: Seq<Seq<char>>)
    requires
        forall|i: int| 0 <= i < segs.len() ==> !(#[trigger] segs[i]).contains('/'),
    ensures
        forall|i: int| 0 <= i < norm_segs(segs).len() ==> seg_ok(#[trigger] norm_segs(segs)[i]),
    decreases segs.len(),
{
    if segs.len() > 0 {
        assert forall|i: int|
            0 <= i < segs.drop_last().len() implies !(#[trigger] segs.drop_last()[i]).contains(
            '/',
        ) by {
            assert(segs.drop_last()[i] == segs[i]);
        }
        lemma_norm_segs_ok(segs.drop_last());
        let rest = norm_segs(segs.drop_last());
        let last = segs.last();
        if last.len() == 0 || last == seg_dot() {
        } else if last == seg_dotdot() {
            assert forall|i: int|
                0 <= i < norm_segs(segs).len() implies seg_ok(#[trigger] norm_segs(segs)[i]) by {
                if rest.len() > 0 {
                    assert(norm_segs(segs)[i] == rest[i]);
                }
            }
        } else {
            assert forall|i: int|
                0 <= i < norm_segs(segs).len() implies seg_ok(#[trigger] norm_segs(segs)[i]) by {
                if i < norm_segs(segs).len() - 1 {
                    assert(norm_segs(segs)[i] == rest[i]);
                } else {
                    assert(norm_segs(segs)[i] == last);
                }
            }
        }
    }
}

proof fn lemma_join_front(segs: Seq<Seq<char>>)
    requires
        segs.len() >= 2,
    ensures
        join_segs(segs) == segs.first() + seq!['/'] + join_segs(segs.drop_first()),
    decreases segs.len(),
{
    if segs.len() == 2 {
        assert(segs.drop_last() =~= seq![segs[0]]);
        assert(segs.drop_first() =~= seq![segs[1]]);
        assert(join_segs(seq![segs[0]]) == segs[0]);
        assert(join_segs(seq![segs[1]]) == segs[1]);
    } else {
        let dl = segs.drop_last();
        lemma_join_front(dl);
        assert(dl.drop_first() =~= segs.drop_first().drop_last());
        assert(segs.drop_first().last() == segs.last());
        assert(join_segs(segs.drop_first()) == join_segs(segs.drop_first().drop_last()) + seq![
            '/',
        ] + segs.drop_first().last());
        assert(segs.first() + seq!['/'] + join_segs(segs.drop_first()) =~= (segs.first() + seq![
            '/',
        ] + join_segs(dl.drop_first())) + seq!['/'] + segs.last());
        assert(dl.first() == segs.first());
        assert(join_segs(segs) == join_segs(dl) + seq!['/'] + segs.last());
    }
}

proof fn lemma_split_join(segs: Seq<Seq<char>>)
    requires
        segs.len() > 0,
        forall|i: int|
            0 <= i < segs.len() ==> (#[trigger] segs[i]).len() > 0 && !segs[i].contains('/'),
    ensures
        spec_split(join_segs(segs), '/') == segs,
    decreases segs.len(),
{
    let j = join_segs(segs);
    if segs.len() == 1 {
        assert(j == segs[0]);
        assert forall|i: int| 0 <= i < j.len() implies j[i] != '/' by {
            if j[i] == '/' {
                assert(segs[0].contains('/'));
            }
        }
        lemma_first_ix_at(j, '/', j.len() as int);
        assert(spec_split(j, '/') =~= seq![segs[0]]);
        assert(spec_split(j, '/') =~= segs);
    } else {
        lemma_join_front(segs);
        let s0 = segs.first();
        let restj = join_segs(segs.drop_first());
        assert(j == s0 + seq!['/'] + restj);
        assert forall|i: int| 0 <= i < s0.len() implies j[i] != '/' by {
            assert(j[i] == s0[i]);
            if s0[i] == '/' {
                assert(s0.contains('/'));
            }
        }
        assert(j[s0.len() as int] == '/');
        lemma_first_ix_at(j, '/', s0.len() as int);
        assert(j.take(s0.len() as int) =~= s0);
        assert(j.skip(s0.len() as int + 1) =~= restj);
        assert forall|i: int|
            0 <= i < segs.drop_first().len() implies (#[trigger] segs.drop_first()[i]).len() > 0
            && !segs.drop_first()[i].contains('/') by {
            assert(segs.drop_first()[i] == segs[i + 1]);
        }
        lemma_split_join(segs.drop_first());
        assert(spec_split(j, '/') == seq![s0] + spec_split(restj, '/'));
        assert(spec_split(j, '/') =~= segs);
    }
}

/// Normalization always yields a root-relative path: empty, or made only
/// of nonempty, non-`.`, non-`..`, separator-free segments.
pub proof fn lemma_normalize_shape(p: Seq<char>)
    ensures
        path_shape_ok(spec_normalize(p)),
{
    let pieces = spec_split(p, '/');
    lemma_split_pieces_free(p, '/');
    let ns = norm_segs(pieces);
    lemma_norm_segs_ok(pieces);
    if ns.len() == 0 {
        assert(spec_normalize(p).len() == 0);
    } else {
        assert forall|i: int|
            0 <= i < ns.len() implies (#[trigger] ns[i]).len() > 0 && !ns[i].contains('/') by {
            assert(seg_ok(ns[i]));
        }
        lemma_split_join(ns);
    }
}

/// A nonempty well-shaped path never starts with a separator.
pub proof fn lemma_shape_not_absolute(p: Seq<char>)
    requires
        path_shape_ok(p),
        p.len() > 0,
    ensures
        p[0] != '/',
{
    if p[0] == '/' {
        assert(first_ix(p, '/') == 0) by {
            lemma_first_ix_at(p, '/', 0);
        }
        assert(spec_split(p, '/')[0] =~= p.take(0));
        assert(seg_ok(spec_split(p, '/')[0]));
    }
}

} // verus!
