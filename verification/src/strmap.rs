//! A string-keyed association map with a mathematical `Map<Seq<char>, _>`
//! view. Keys are unique; iteration order is insertion order (the library
//! promises nothing about the order of diff records, so any stable order
//! will do).

use vstd::prelude::*;
use crate::strutil::str_eq;

verus! {

pub struct StrMap<V> {
    pairs: Vec<(String, V)>,
}

/// The value under key `k` in an association list, later entries winning.
pub open spec fn spec_lookup<V>(s: Seq<(String, V)>, k: Seq<char>) -> Option<V>
    decreases s.len(),
{
    if s.len() == 0 {
        Option::None
    } else if s.last().0@ == k {
        Option::Some(s.last().1)
    } else {
        spec_lookup(s.drop_last(), k)
    }
}

/// The map described by an association list, later entries winning.
pub open spec fn map_of<V: View>(s: Seq<(String, V)>) -> Map<Seq<char>, V::V>
    decreases s.len(),
{
    if s.len() == 0 {
        Map::empty()
    } else {
        map_of(s.drop_last()).insert(s.last().0@, s.last().1@)
    }
}

pub proof fn lemma_map_of_lookup<V: View>(s: Seq<(String, V)>, k: Seq<char>)
    ensures
        map_of(s).contains_key(k) <==> spec_lookup(s, k) is Some,
        spec_lookup(s, k) matches Some(v) ==> map_of(s)[k] == v@,
    decreases s.len(),
{
    if s.len() > 0 {
        lemma_map_of_lookup(s.drop_last(), k);
    }
}

pub proof fn lemma_map_of_finite<V: View>(s: Seq<(String, V)>)
    ensures
        map_of(s).dom().finite(),
        map_of(s).dom().len() <= s.len(),
    decreases s.len(),
{
    if s.len() > 0 {
        lemma_map_of_finite(s.drop_last());
    }
}

/// Keys pairwise distinct.
pub open spec fn distinct_keys<V>(s: Seq<(String, V)>) -> bool {
    forall|i: int, j: int| 0 <= i < j < s.len() ==> s[i].0@ != s[j].0@
}

pub proof fn lemma_map_of_len<V: View>(s: Seq<(String, V)>)
    requires
        distinct_keys(s),
    ensures
        map_of(s).dom().finite(),
        map_of(s).dom().len() == s.len(),
    decreases s.len(),
{
    if s.len() > 0 {
        assert(distinct_keys(s.drop_last()));
        lemma_map_of_len(s.drop_last());
        assert forall|i: int| 0 <= i < s.len() - 1 implies s.drop_last()[i].0@ != s.last().0@ by {}
        lemma_lookup_none_when_absent(s.drop_last(), s.last().0@);
        lemma_map_of_lookup(s.drop_last(), s.last().0@);
        assert(!map_of(s.drop_last()).contains_key(s.last().0@));
    }
}

pub proof fn lemma_lookup_none_when_absent<V>(s: Seq<(String, V)>, k: Seq<char>)
    requires
        forall|i: int| 0 <= i < s.len() ==> s[i].0@ != k,
    ensures
        spec_lookup(s, k) is None,
    decreases s.len(),
{
    if s.len() > 0 {
        lemma_lookup_none_when_absent(s.drop_last(), k);
    }
}

pub proof fn lemma_lookup_at<V>(s: Seq<(String, V)>, k: Seq<char>, ix: int)
    requires
        distinct_keys(s),
        0 <= ix < s.len(),
        s[ix].0@ == k,
    ensures
        spec_lookup(s, k) == Option::Some(s[ix].1),
    decreases s.len(),
{
    if s.len() > 0 {
        if ix == s.len() - 1 {
        } else {
            assert(s.last().0@ != k);
            assert(distinct_keys(s.drop_last()));
            lemma_lookup_at(s.drop_last(), k, ix);
        }
    }
}

impl<V> StrMap<V> {
    /// Key uniqueness, maintained by every operation.
    #[verifier::type_invariant]
    pub closed spec fn inv(&self) -> bool {
        distinct_keys(self.pairs@)
    }
}

impl<V: View> StrMap<V> {
    pub closed spec fn spec_len(&self) -> nat {
        self.pairs@.len()
    }

    pub closed spec fn key_at(&self, i: int) -> Seq<char> {
        self.pairs@[i].0@
    }

    pub closed spec fn val_at(&self, i: int) -> V::V {
        self.pairs@[i].1@
    }

    pub fn new() -> (r: StrMap<V>)
        ensures
            r@ == Map::<Seq<char>, V::V>::empty(),
            r.spec_len() == 0,
    {
        StrMap { pairs: Vec::new() }
    }

    pub fn len(&self) -> (r: usize)
        ensures
            r == self.spec_len(),
    {
        self.pairs.len()
    }

    /// Every indexed pair is in the map view, the keys are distinct, the
    /// map is finite, and every map key is some indexed key. (An exec
    /// no-op: the facts flow from the type invariant, which ghost callers
    /// cannot assume on their own.)
    pub fn correspond(&self)
        ensures
            self@.dom().finite(),
            self@.dom().len() == self.spec_len(),
            forall|i: int|
                0 <= i < self.spec_len() ==> self@.contains_key(#[trigger] self.key_at(i))
                    && self@[self.key_at(i)] == self.val_at(i),
            forall|i: int, j: int|
                0 <= i < j < self.spec_len() ==> self.key_at(i) != self.key_at(j),
            forall|k: Seq<char>|
                self@.contains_key(k) ==> exists|i: int|
                    0 <= i < self.spec_len() && #[trigger] self.key_at(i) == k,
    {
        proof {
            use_type_invariant(self);
            lemma_map_of_len(self.pairs@);
        assert forall|i: int|
            0 <= i < self.spec_len() implies self@.contains_key(#[trigger] self.key_at(i))
            && self@[self.key_at(i)] == self.val_at(i) by {
            lemma_lookup_at(self.pairs@, self.key_at(i), i);
            lemma_map_of_lookup(self.pairs@, self.key_at(i));
        }
        assert forall|k: Seq<char>| self@.contains_key(k) implies exists|i: int|
            0 <= i < self.spec_len() && #[trigger] self.key_at(i) == k by {
            lemma_map_of_lookup(self.pairs@, k);
            if forall|i: int| 0 <= i < self.pairs@.len() ==> (#[trigger] self.pairs@[i].0@) != k {
                lemma_lookup_none_when_absent(self.pairs@, k);
            }
            let i = choose|i: int| 0 <= i < self.pairs@.len() && (#[trigger] self.pairs@[i].0@)
                == k;
            assert(self.key_at(i) == k);
        }
        }
    }

    /// The map described by the first `i` pairs alone.
    pub closed spec fn prefix_view(&self, i: int) -> Map<Seq<char>, V::V> {
        map_of(self.pairs@.take(i))
    }

    /// The prefix views build the full view one insert at a time.
    pub proof fn lemma_prefix_views(&self)
        ensures
            forall|j: int|
                0 <= j <= self.spec_len() ==> (#[trigger] self.prefix_view(j)) == (if j == 0 {
                    Map::<Seq<char>, V::V>::empty()
                } else {
                    self.prefix_view(j - 1).insert(self.key_at(j - 1), self.val_at(j - 1))
                }),
            self.prefix_view(self.spec_len() as int) == self@,
    {
        assert forall|j: int|
            0 <= j <= self.spec_len() implies (#[trigger] self.prefix_view(j)) == (if j == 0 {
            Map::<Seq<char>, V::V>::empty()
        } else {
            self.prefix_view(j - 1).insert(self.key_at(j - 1), self.val_at(j - 1))
        }) by {
            if j == 0 {
                assert(self.pairs@.take(0) =~= Seq::<(String, V)>::empty());
            } else {
                assert(self.pairs@.take(j).drop_last() =~= self.pairs@.take(j - 1));
                assert(self.pairs@.take(j).last() == self.pairs@[j - 1]);
            }
        }
        assert(self.pairs@.take(self.spec_len() as int) =~= self.pairs@);
    }

    pub fn key_ref(&self, i: usize) -> (r: &String)
        requires
            i < self.spec_len(),
        ensures
            r@ == self.key_at(i as int),
    {
        &self.pairs[i].0
    }

    pub fn val_ref(&self, i: usize) -> (r: &V)
        requires
            i < self.spec_len(),
        ensures
            r@ == self.val_at(i as int),
    {
        &self.pairs[i].1
    }

    fn find_index(&self, k: &str) -> (r: Option<usize>)
        ensures
            match r {
                Some(ix) => ix < self.spec_len() && self.key_at(ix as int) == k@,
                None => forall|i: int| 0 <= i < self.spec_len() ==> self.key_at(i) != k@,
            },
    {
        let mut i: usize = 0;
        while i < self.pairs.len()
            invariant
                i <= self.pairs@.len(),
                forall|j: int| 0 <= j < i ==> self.pairs@[j].0@ != k@,
            decreases self.pairs@.len() - i,
        {
            if str_eq(self.pairs[i].0.as_str(), k) {
                return Some(i);
            }
            i = i + 1;
        }
        None
    }

    pub fn contains_key(&self, k: &str) -> (r: bool)
        ensures
            r == self@.contains_key(k@),
    {
        proof {
            use_type_invariant(self);
        }
        let found = self.find_index(k);
        proof {
            lemma_map_of_lookup(self.pairs@, k@);
            match found {
                Some(ix) => {
                    lemma_lookup_at(self.pairs@, k@, ix as int);
                },
                None => {
                    assert forall|i: int| 0 <= i < self.pairs@.len() implies self.pairs@[i].0@
                        != k@ by {
                        assert(self.key_at(i) != k@);
                    }
                    lemma_lookup_none_when_absent(self.pairs@, k@);
                },
            }
        }
        found.is_some()
    }

    pub fn get(&self, k: &str) -> (r: Option<&V>)
        ensures
            match r {
                Some(v) => self@.contains_key(k@) && self@[k@] == v@,
                None => !self@.contains_key(k@),
            },
    {
        proof {
            use_type_invariant(self);
        }
        let found = self.find_index(k);
        proof {
            lemma_map_of_lookup(self.pairs@, k@);
            match found {
                Some(ix) => {
                    lemma_lookup_at(self.pairs@, k@, ix as int);
                },
                None => {
                    assert forall|i: int| 0 <= i < self.pairs@.len() implies self.pairs@[i].0@
                        != k@ by {
                        assert(self.key_at(i) != k@);
                    }
                    lemma_lookup_none_when_absent(self.pairs@, k@);
                },
            }
        }
        match found {
            Some(ix) => Some(&self.pairs[ix].1),
            None => None,
        }
    }

    pub fn insert(&mut self, k: String, v: V)
        ensures
            final(self)@ == old(self)@.insert(k@, v@),
            final(self).spec_len() <= old(self).spec_len() + 1,
    {
        proof {
            use_type_invariant(&*self);
        }
        let found = self.find_index(k.as_str());
        let ghost before = self.pairs@;
        let ghost kk = k@;
        let ghost vv = v@;
        match found {
            Some(ix) => {
                let mut work: Vec<(String, V)> = Vec::new();
                core::mem::swap(&mut self.pairs, &mut work);
                work.remove(ix);
                work.push((k, v));
                proof {
                    lemma_remove_preserves_distinct(before, ix as int);
                    lemma_map_of_remove_insert(before, ix as int, kk, vv);
                    let w = work@;
                    assert(w =~= before.remove(ix as int).push(w.last()));
                    assert(w.last().0@ == kk && w.last().1@ == vv);
                    assert(map_of(w) =~= map_of(before).insert(kk, vv));
                    assert forall|a: int, b: int| 0 <= a < b < w.len() implies w[a].0@
                        != w[b].0@ by {
                        if b < w.len() - 1 {
                            assert(before.remove(ix as int)[a] == w[a]);
                            assert(before.remove(ix as int)[b] == w[b]);
                        } else {
                            let a0 = if a < ix {
                                a
                            } else {
                                a + 1
                            };
                            assert(w[a] == before[a0]);
                            assert(a0 != ix);
                            assert(before[a0].0@ != before[ix as int].0@);
                        }
                    }
                }
                core::mem::swap(&mut self.pairs, &mut work);
            },
            None => {
                proof {
                    assert forall|i: int| 0 <= i < before.len() implies before[i].0@ != kk by {
                        assert(self.key_at(i) != kk);
                    }
                }
                let mut work: Vec<(String, V)> = Vec::new();
                core::mem::swap(&mut self.pairs, &mut work);
                work.push((k, v));
                proof {
                    let w = work@;
                    assert(w.drop_last() =~= before);
                    assert(w.last().0@ == kk && w.last().1@ == vv);
                    assert forall|a: int, b: int| 0 <= a < b < w.len() implies w[a].0@
                        != w[b].0@ by {
                        if b == w.len() - 1 {
                            assert(w[a] == before[a]);
                        }
                    }
                }
                core::mem::swap(&mut self.pairs, &mut work);
            },
        }
    }

    pub fn remove(&mut self, k: &str) -> (r: Option<V>)
        ensures
            final(self)@ == old(self)@.remove(k@),
            match r {
                Some(v) => old(self)@.contains_key(k@) && old(self)@[k@] == v@,
                None => !old(self)@.contains_key(k@),
            },
            final(self).spec_len() <= old(self).spec_len(),
    {
        proof {
            use_type_invariant(&*self);
        }
        let found = self.find_index(k);
        let ghost before = self.pairs@;
        proof {
            lemma_map_of_lookup(before, k@);
            match found {
                Some(ix) => {
                    lemma_lookup_at(before, k@, ix as int);
                },
                None => {
                    assert forall|i: int| 0 <= i < before.len() implies before[i].0@ != k@ by {
                        assert(self.key_at(i) != k@);
                    }
                    lemma_lookup_none_when_absent(before, k@);
                    assert(map_of(before).remove(k@) =~= map_of(before));
                },
            }
        }
        match found {
            Some(ix) => {
                let mut work: Vec<(String, V)> = Vec::new();
                core::mem::swap(&mut self.pairs, &mut work);
                let (_, v) = work.remove(ix);
                core::mem::swap(&mut self.pairs, &mut work);
                proof {
                    lemma_remove_preserves_distinct(before, ix as int);
                    lemma_map_of_remove(before, ix as int);
                }
                Some(v)
            },
            None => None,
        }
    }
}

impl<V: View> View for StrMap<V> {
    type V = Map<Seq<char>, V::V>;

    closed spec fn view(&self) -> Map<Seq<char>, V::V> {
        map_of(self.pairs@)
    }
}

proof fn lemma_remove_preserves_distinct<V>(s: Seq<(String, V)>, ix: int)
    requires
        distinct_keys(s),
        0 <= ix < s.len(),
    ensures
        distinct_keys(s.remove(ix)),
{
    let t = s.remove(ix);
    assert forall|i: int, j: int| 0 <= i < j < t.len() implies t[i].0@ != t[j].0@ by {
        let i0 = if i < ix {
            i
        } else {
            i + 1
        };
        let j0 = if j < ix {
            j
        } else {
            j + 1
        };
        assert(t[i] == s[i0] && t[j] == s[j0]);
    }
}

/// Removing the (unique) pair at `ix` removes its key from the map.
proof fn lemma_map_of_remove<V: View>(s: Seq<(String, V)>, ix: int)
    requires
        distinct_keys(s),
        0 <= ix < s.len(),
    ensures
        map_of(s.remove(ix)) =~= map_of(s).remove(s[ix].0@),
    decreases s.len(),
{
    let k = s[ix].0@;
    if ix == s.len() - 1 {
        assert(s.remove(ix) =~= s.drop_last());
        lemma_lookup_none_when_absent(s.drop_last(), k);
        lemma_map_of_lookup(s.drop_last(), k);
        assert(map_of(s.drop_last()).remove(k) =~= map_of(s.drop_last()));
    } else {
        assert(distinct_keys(s.drop_last()));
        lemma_map_of_remove(s.drop_last(), ix);
        assert(s.remove(ix).drop_last() =~= s.drop_last().remove(ix));
        assert(s.remove(ix).last() == s.last());
        assert(map_of(s.remove(ix)) == map_of(s.drop_last().remove(ix)).insert(
            s.last().0@,
            s.last().1@,
        ));
        assert(s.last().0@ != k);
    }
}

/// Removing the stale pair for `k` and re-adding `(k, v)` is the map insert.
proof fn lemma_map_of_remove_insert<V: View>(s: Seq<(String, V)>, ix: int, k: Seq<char>, vv: V::V)
    requires
        distinct_keys(s),
        0 <= ix < s.len(),
        s[ix].0@ == k,
    ensures
        forall|p: (String, V)|
            p.0@ == k && p.1@ == vv ==> map_of(s.remove(ix).push(p)) =~= map_of(s).insert(k, vv),
{
    lemma_map_of_remove(s, ix);
    assert forall|p: (String, V)| p.0@ == k && p.1@ == vv implies map_of(s.remove(ix).push(p))
        =~= map_of(s).insert(k, vv) by {
        assert(s.remove(ix).push(p).drop_last() =~= s.remove(ix));
        assert(map_of(s.remove(ix).push(p)) == map_of(s.remove(ix)).insert(k, vv));
    }
}

} // verus!
