//! String helpers used throughout the library: prefix tests, character
//! search, splitting, trimming, and relative-path joining/normalization.
//! Paths are plain `/`-separated strings relative to the package root.

use vstd::prelude::*;

verus! {

/// Relies on `str`'s `PartialEq`: two string slices are equal exactly when
/// their character sequences are.
#[verifier::external_body]
pub fn str_eq(a: &str, b: &str) -> (r: bool)
    ensures
        r == (a@ == b@),
{
    a == b
}

pub open spec fn spec_starts_with(s: Seq<char>, p: Seq<char>) -> bool {
    p.len() <= s.len() && s.take(p.len() as int) == p
}

pub fn starts_with(s: &str, p: &str) -> (r: bool)
    ensures
        r == spec_starts_with(s@, p@),
{
    let sn = s.unicode_len();
    let pn = p.unicode_len();
    if pn > sn {
        proof {
            assert(!spec_starts_with(s@, p@));
        }
        return false;
    }
    let mut i: usize = 0;
    while i < pn
        invariant
            i <= pn <= sn,
            sn == s@.len(),
            pn == p@.len(),
            forall|j: int| 0 <= j < i ==> s@[j] == p@[j],
        decreases pn - i,
    {
        if s.get_char(i) != p.get_char(i) {
            proof {
                assert(s@.take(pn as int)[i as int] != p@[i as int]);
            }
            return false;
        }
        i = i + 1;
    }
    proof {
        assert(s@.take(pn as int) =~= p@);
    }
    true
}

/// The suffix of `s` after its first `p@.len()` characters, meant for use
/// when `s` starts with `p`.
pub fn strip_prefix<'a>(s: &'a str, p: &str) -> (r: &'a str)
    requires
        spec_starts_with(s@, p@),
    ensures
        r@ == s@.skip(p@.len() as int),
{
    let sn = s.unicode_len();
    let pn = p.unicode_len();
    s.substring_char(pn, sn)
}

/// Index of the first occurrence of `c` in `s`; `s.len()` when absent.
pub open spec fn first_ix(s: Seq<char>, c: char) -> int
    decreases s.len(),
{
    if s.len() == 0 {
        0
    } else if s[0] == c {
        0
    } else {
        1 + first_ix(s.skip(1), c)
    }
}

pub proof fn lemma_first_ix_bounds(s: Seq<char>, c: char)
    ensures
        0 <= first_ix(s, c) <= s.len(),
        first_ix(s, c) < s.len() ==> s[first_ix(s, c)] == c,
        forall|j: int| 0 <= j < first_ix(s, c) ==> s[j] != c,
    decreases s.len(),
{
    if s.len() > 0 && s[0] != c {
        lemma_first_ix_bounds(s.skip(1), c);
        assert forall|j: int| 0 <= j < first_ix(s, c) implies s[j] != c by {
            if j > 0 {
                assert(s.skip(1)[j - 1] == s[j]);
            }
        }
    }
}

/// If the first `k` characters are not `c`, and either `k` is the length or
/// position `k` holds `c`, then `k` is the first occurrence.
pub proof fn lemma_first_ix_at(s: Seq<char>, c: char, k: int)
    requires
        0 <= k <= s.len(),
        forall|j: int| 0 <= j < k ==> s[j] != c,
        k == s.len() || s[k] == c,
    ensures
        first_ix(s, c) == k,
    decreases k,
{
    if k > 0 {
        assert(s[0] != c);
        assert forall|j: int| 0 <= j < k - 1 implies s.skip(1)[j] != c by {
            assert(s.skip(1)[j] == s[j + 1]);
        }
        if k < s.len() {
            assert(s.skip(1)[k - 1] == s[k]);
        }
        lemma_first_ix_at(s.skip(1), c, k - 1);
    } else {
        if s.len() > 0 && s[0] != c {
            assert(false);
        }
    }
}

/// `s` split on `c`: the pieces between occurrences, in order. Always at
/// least one piece; a trailing `c` yields a trailing empty piece.
pub open spec fn spec_split(s: Seq<char>, c: char) -> Seq<Seq<char>>
    decreases s.len(),
{
    let i = first_ix(s, c);
    if i == s.len() {
        seq![s]
    } else if 0 <= i < s.len() {
        seq![s.take(i)] + spec_split(s.skip(i + 1), c)
    } else {
        seq![s]
    }
}

pub fn split_char(s: &str, c: char) -> (r: Vec<String>)
    ensures
        r@.map_values(|x: String| x@) == spec_split(s@, c),
{
    let n = s.unicode_len();
    let mut r: Vec<String> = Vec::new();
    let mut start: usize = 0;
    let mut i: usize = 0;
    proof {
        assert(s@.skip(0) =~= s@);
        assert(r@.map_values(|x: String| x@) =~= Seq::<Seq<char>>::empty());
    }
    while i < n
        invariant
            start <= i <= n,
            n == s@.len(),
            forall|j: int| start <= j < i ==> s@[j] != c,
            spec_split(s@, c) =~= r@.map_values(|x: String| x@) + spec_split(
                s@.skip(start as int),
                c,
            ),
        decreases n - i,
    {
        if s.get_char(i) == c {
            let piece = String::from_str(s.substring_char(start, i));
            let ghost prev = r@;
            r.push(piece);
            proof {
                let rest = s@.skip(start as int);
                assert forall|j: int| 0 <= j < i - start implies rest[j] != c by {
                    assert(rest[j] == s@[start + j]);
                }
                assert(rest[i - start] == s@[i as int]);
                lemma_first_ix_at(rest, c, i - start);
                assert(rest.take(i - start) =~= s@.subrange(start as int, i as int));
                assert(rest.skip(i - start + 1) =~= s@.skip(i + 1));
                assert(piece@ == s@.subrange(start as int, i as int));
                assert(spec_split(rest, c) == seq![piece@] + spec_split(s@.skip(i + 1), c));
                assert(r@ =~= prev + seq![piece]);
                assert(r@.map_values(|x: String| x@) =~= prev.map_values(|x: String| x@) + seq![
                    piece@,
                ]);
                assert(spec_split(s@, c) =~= r@.map_values(|x: String| x@) + spec_split(
                    s@.skip(i + 1),
                    c,
                ));
            }
            start = i + 1;
        }
        i = i + 1;
    }
    let piece = String::from_str(s.substring_char(start, n));
    let ghost prev = r@;
    r.push(piece);
    proof {
        let rest = s@.skip(start as int);
        assert forall|j: int| 0 <= j < n - start implies rest[j] != c by {
            assert(rest[j] == s@[start + j]);
        }
        lemma_first_ix_at(rest, c, n - start);
        assert(piece@ == s@.subrange(start as int, n as int));
        assert(rest =~= s@.subrange(start as int, n as int));
        assert(spec_split(rest, c) == seq![rest]);
        assert(r@ =~= prev + seq![piece]);
        assert(r@.map_values(|x: String| x@) =~= prev.map_values(|x: String| x@) + seq![piece@]);
    }
    r
}

/// Whitespace characters recognized by the line trimmers.
pub open spec fn is_ws(c: char) -> bool {
    c == ' ' || c == '\t' || c == '\r'
}

pub open spec fn spec_trim_start(s: Seq<char>) -> Seq<char>
    decreases s.len(),
{
    if s.len() > 0 && is_ws(s[0]) {
        spec_trim_start(s.skip(1))
    } else {
        s
    }
}

pub open spec fn spec_trim_end(s: Seq<char>) -> Seq<char>
    decreases s.len(),
{
    if s.len() > 0 && is_ws(s.last()) {
        spec_trim_end(s.drop_last())
    } else {
        s
    }
}

proof fn lemma_trim_start_skip(s: Seq<char>, k: int)
    requires
        0 <= k <= s.len(),
        forall|j: int| 0 <= j < k ==> is_ws(s[j]),
        k == s.len() || !is_ws(s[k]),
    ensures
        spec_trim_start(s) == s.skip(k),
    decreases k,
{
    if k > 0 {
        lemma_trim_start_skip(s.skip(1), k - 1);
        assert(s.skip(1).skip(k - 1) =~= s.skip(k));
    } else {
        assert(s.skip(0) =~= s);
    }
}

proof fn lemma_trim_end_take(s: Seq<char>, k: int)
    requires
        0 <= k <= s.len(),
        forall|j: int| k <= j < s.len() ==> is_ws(s[j]),
        k == 0 || !is_ws(s[k - 1]),
    ensures
        spec_trim_end(s) == s.take(k),
    decreases s.len() - k,
{
    if k < s.len() {
        lemma_trim_end_take(s.drop_last(), k);
        assert(s.drop_last().take(k) =~= s.take(k));
    } else {
        assert(s.take(s.len() as int) =~= s);
    }
}

pub fn trim_start<'a>(s: &'a str) -> (r: &'a str)
    ensures
        r@ == spec_trim_start(s@),
{
    let n = s.unicode_len();
    let mut i: usize = 0;
    while i < n
        invariant
            i <= n,
            n == s@.len(),
            forall|j: int| 0 <= j < i ==> is_ws(s@[j]),
        decreases n - i,
    {
        let ch = s.get_char(i);
        if !(ch == ' ' || ch == '\t' || ch == '\r') {
            proof {
                lemma_trim_start_skip(s@, i as int);
            }
            return s.substring_char(i, n);
        }
        i = i + 1;
    }
    proof {
        lemma_trim_start_skip(s@, n as int);
    }
    s.substring_char(n, n)
}

pub fn trim_end<'a>(s: &'a str) -> (r: &'a str)
    ensures
        r@ == spec_trim_end(s@),
{
    let n = s.unicode_len();
    let mut k: usize = n;
    while k > 0
        invariant
            k <= n,
            n == s@.len(),
            forall|j: int| k <= j < n ==> is_ws(s@[j]),
        decreases k,
    {
        let ch = s.get_char(k - 1);
        if !(ch == ' ' || ch == '\t' || ch == '\r') {
            proof {
                lemma_trim_end_take(s@, k as int);
            }
            return s.substring_char(0, k);
        }
        k = k - 1;
    }
    proof {
        lemma_trim_end_take(s@, 0);
    }
    s.substring_char(0, 0)
}

/// Index just past the last occurrence of `c` in `s`; 0 when absent.
pub open spec fn after_last_ix(s: Seq<char>, c: char) -> int
    decreases s.len(),
{
    if s.len() == 0 {
        0
    } else if s.last() == c {
        s.len() as int
    } else {
        after_last_ix(s.drop_last(), c)
    }
}

pub proof fn lemma_after_last_ix(s: Seq<char>, c: char)
    ensures
        0 <= after_last_ix(s, c) <= s.len(),
        after_last_ix(s, c) > 0 ==> s[after_last_ix(s, c) - 1] == c,
        forall|j: int| after_last_ix(s, c) <= j < s.len() ==> s[j] != c,
    decreases s.len(),
{
    if s.len() > 0 && s.last() != c {
        lemma_after_last_ix(s.drop_last(), c);
        assert forall|j: int| after_last_ix(s, c) <= j < s.len() implies s[j] != c by {
            if j < s.len() - 1 {
                assert(s.drop_last()[j] == s[j]);
            }
        }
    }
}

/// Index just past the last occurrence of `c`, found by a backward scan.
pub fn find_after_last(s: &str, c: char) -> (r: usize)
    ensures
        r == after_last_ix(s@, c),
{
    let n = s.unicode_len();
    let mut k: usize = n;
    while k > 0
        invariant
            k <= n,
            n == s@.len(),
            forall|j: int| k <= j < n ==> s@[j] != c,
        decreases k,
    {
        if s.get_char(k - 1) == c {
            proof {
                lemma_after_last_at(s@, c, k as int);
            }
            return k;
        }
        k = k - 1;
    }
    proof {
        lemma_after_last_at(s@, c, 0);
    }
    0
}

proof fn lemma_after_last_at(s: Seq<char>, c: char, k: int)
    requires
        0 <= k <= s.len(),
        forall|j: int| k <= j < s.len() ==> s[j] != c,
        k == 0 || s[k - 1] == c,
    ensures
        after_last_ix(s, c) == k,
    decreases s.len(),
{
    if s.len() > 0 && s.last() != c {
        assert(k < s.len());
        lemma_after_last_at(s.drop_last(), c, k);
    }
}


/// No piece of a split contains the splitting character.
pub proof fn lemma_split_pieces_free(s: Seq<char>, c: char)
    ensures
        forall|i: int|
            0 <= i < spec_split(s, c).len() ==> !(#[trigger] spec_split(s, c)[i]).contains(c),
    decreases s.len(),
{
    lemma_first_ix_bounds(s, c);
    let ix = first_ix(s, c);
    if ix == s.len() {
        assert forall|i: int|
            0 <= i < spec_split(s, c).len() implies !(#[trigger] spec_split(s, c)[i]).contains(
            c,
        ) by {
            assert(spec_split(s, c)[i] == s);
            if s.contains(c) {
                let j = choose|j: int| 0 <= j < s.len() && s[j] == c;
            }
        }
    } else {
        lemma_split_pieces_free(s.skip(ix + 1), c);
        assert forall|i: int|
            0 <= i < spec_split(s, c).len() implies !(#[trigger] spec_split(s, c)[i]).contains(
            c,
        ) by {
            if i == 0 {
                assert(spec_split(s, c)[0] == s.take(ix));
                if s.take(ix).contains(c) {
                    let j = choose|j: int| 0 <= j < ix && s.take(ix)[j] == c;
                    assert(s[j] == c);
                }
            } else {
                assert(spec_split(s, c)[i] == spec_split(s.skip(ix + 1), c)[i - 1]);
            }
        }
    }
}

} // verus!
