//! String-to-string parameter maps (path parameters, query parameters,
//! headers). Kept as a vector of pairs so that insertion order is part of
//! the model; keys are unique, and `insert` overwrites.

use vstd::prelude::*;
use vstd::pervasive::VecAdditionalExecFns;
use crate::text::string_eq;

verus! {

/// Lookup in a sequence of key/value pairs: the value of the first pair
/// whose key is `k`, if any.
pub open spec fn assoc_get<V>(s: Seq<(Seq<char>, V)>, k: Seq<char>) -> Option<V>
    decreases s.len(),
{
    if s.len() == 0 {
        None
    } else if s[0].0 == k {
        Some(s[0].1)
    } else {
        assoc_get(s.drop_first(), k)
    }
}

/// All keys in a pair sequence are distinct.
pub open spec fn distinct_keys<V>(s: Seq<(Seq<char>, V)>) -> bool {
    forall|i: int, j: int| 0 <= i < j < s.len() ==> s[i].0 != s[j].0
}

/// Overwrite semantics on a pair sequence: replace the first pair holding
/// key `k`, or append the binding if the key is absent.
pub open spec fn assoc_set<V>(s: Seq<(Seq<char>, V)>, k: Seq<char>, v: V) -> Seq<(Seq<char>, V)>
    decreases s.len(),
{
    if s.len() == 0 {
        seq![(k, v)]
    } else if s[0].0 == k {
        seq![(k, v)] + s.drop_first()
    } else {
        seq![s[0]] + assoc_set(s.drop_first(), k, v)
    }
}

/// With the first occurrence of `k` at position `i`, overwriting is a
/// pointwise update.
pub proof fn lemma_assoc_set_update<V>(s: Seq<(Seq<char>, V)>, k: Seq<char>, v: V, i: int)
    requires
        0 <= i < s.len(),
        s[i].0 == k,
        forall|j: int| 0 <= j < i ==> s[j].0 != k,
    ensures
        assoc_set(s, k, v) == s.update(i, (k, v)),
    decreases i,
{
    if i == 0 {
        assert(seq![(k, v)] + s.drop_first() =~= s.update(0, (k, v)));
    } else {
        let t = s.drop_first();
        assert(t[i - 1].0 == k);
        assert forall|j: int| 0 <= j < i - 1 implies t[j].0 != k by {
            assert(t[j] == s[j + 1]);
        }
        lemma_assoc_set_update(t, k, v, i - 1);
        assert(seq![s[0]] + t.update(i - 1, (k, v)) =~= s.update(i, (k, v)));
    }
}

/// With `k` absent, overwriting appends.
pub proof fn lemma_assoc_set_push<V>(s: Seq<(Seq<char>, V)>, k: Seq<char>, v: V)
    requires
        forall|j: int| 0 <= j < s.len() ==> s[j].0 != k,
    ensures
        assoc_set(s, k, v) == s.push((k, v)),
    decreases s.len(),
{
    if s.len() == 0 {
        assert(assoc_set(s, k, v) =~= s.push((k, v)));
    } else {
        let t = s.drop_first();
        assert forall|j: int| 0 <= j < t.len() implies t[j].0 != k by {
            assert(t[j] == s[j + 1]);
        }
        lemma_assoc_set_push(t, k, v);
        assert(seq![s[0]] + t.push((k, v)) =~= s.push((k, v)));
    }
}

/// If position `i` holds the first occurrence of key `k`, lookup returns
/// the value stored there.
pub proof fn lemma_assoc_get_at<V>(s: Seq<(Seq<char>, V)>, k: Seq<char>, i: int)
    requires
        0 <= i < s.len(),
        s[i].0 == k,
        forall|j: int| 0 <= j < i ==> s[j].0 != k,
    ensures
        assoc_get(s, k) == Some(s[i].1),
    decreases i,
{
    if i > 0 {
        let t = s.drop_first();
        assert(t[i - 1].0 == k);
        assert forall|j: int| 0 <= j < i - 1 implies t[j].0 != k by {
            assert(t[j] == s[j + 1]);
        }
        lemma_assoc_get_at(t, k, i - 1);
    }
}

/// If some position holds key `k`, lookup succeeds.
pub proof fn lemma_assoc_get_some<V>(s: Seq<(Seq<char>, V)>, k: Seq<char>, i: int)
    requires
        0 <= i < s.len(),
        s[i].0 == k,
    ensures
        assoc_get(s, k) is Some,
    decreases i,
{
    if s[0].0 != k {
        let t = s.drop_first();
        assert(t[i - 1].0 == k);
        lemma_assoc_get_some(t, k, i - 1);
    }
}

/// Appending one pair extends lookup by that pair; an earlier binding of
/// the same key still wins.
pub proof fn lemma_assoc_get_snoc<V>(s: Seq<(Seq<char>, V)>, p: (Seq<char>, V), q: Seq<char>)
    ensures
        assoc_get(s.push(p), q) == if assoc_get(s, q) is Some {
            assoc_get(s, q)
        } else if p.0 == q {
            Some(p.1)
        } else {
            None
        },
    decreases s.len(),
{
    let t = s.push(p);
    if s.len() == 0 {
        assert(t[0] == p);
        assert(t.drop_first() =~= Seq::<(Seq<char>, V)>::empty());
        reveal_with_fuel(assoc_get, 2);
    } else {
        assert(t[0] == s[0]);
        lemma_assoc_get_snoc(s.drop_first(), p, q);
        assert(t.drop_first() =~= s.drop_first().push(p));
    }
}

/// If no position holds key `k`, lookup fails.
pub proof fn lemma_assoc_get_none<V>(s: Seq<(Seq<char>, V)>, k: Seq<char>)
    requires
        forall|j: int| 0 <= j < s.len() ==> s[j].0 != k,
    ensures
        assoc_get(s, k) is None,
    decreases s.len(),
{
    if s.len() > 0 {
        let t = s.drop_first();
        assert forall|j: int| 0 <= j < t.len() implies t[j].0 != k by {
            assert(t[j] == s[j + 1]);
        }
        lemma_assoc_get_none(t, k);
    }
}

/// A map from strings to strings that remembers insertion order.
pub struct ParamMap {
    entries: Vec<(String, String)>,
}

impl View for ParamMap {
    type V = Seq<(Seq<char>, Seq<char>)>;

    closed spec fn view(&self) -> Seq<(Seq<char>, Seq<char>)> {
        self.entries@.map_values(|p: (String, String)| (p.0@, p.1@))
    }
}

impl ParamMap {
    /// Key uniqueness, the type's invariant.
    pub open spec fn wf(&self) -> bool {
        distinct_keys(self@)
    }

    pub open spec fn spec_get(&self, k: Seq<char>) -> Option<Seq<char>> {
        assoc_get(self@, k)
    }

    pub open spec fn spec_contains(&self, k: Seq<char>) -> bool {
        assoc_get(self@, k) is Some
    }

    pub fn new() -> (r: ParamMap)
        ensures
            r@ =~= Seq::<(Seq<char>, Seq<char>)>::empty(),
            r.wf(),
    {
        ParamMap { entries: Vec::new() }
    }

    pub fn len(&self) -> (r: usize)
        ensures
            r == self@.len(),
    {
        self.entries.len()
    }

    pub fn is_empty(&self) -> (r: bool)
        ensures
            r == (self@.len() == 0),
    {
        self.entries.len() == 0
    }

    /// The position of the first entry whose key is `k`.
    fn position_of(&self, k: &str) -> (r: Option<usize>)
        ensures
            match r {
                Some(i) => 0 <= i < self@.len() && self@[i as int].0 == k@ && forall|j: int|
                    0 <= j < i ==> self@[j].0 != k@,
                None => forall|j: int| 0 <= j < self@.len() ==> self@[j].0 != k@,
            },
    {
        let n = self.entries.len();
        let mut i: usize = 0;
        while i < n
            invariant
                n == self@.len(),
                n == self.entries@.len(),
                i <= n,
                forall|j: int| 0 <= j < i ==> self@[j].0 != k@,
            decreases n - i,
        {
            if string_eq(&self.entries[i].0, k) {
                return Some(i);
            }
            i += 1;
        }
        None
    }

    pub fn contains_key(&self, k: &str) -> (r: bool)
        ensures
            r == self.spec_contains(k@),
    {
        match self.position_of(k) {
            Some(i) => {
                proof {
                    lemma_assoc_get_at(self@, k@, i as int);
                }
                true
            }
            None => {
                proof {
                    lemma_assoc_get_none(self@, k@);
                }
                false
            }
        }
    }

    pub fn get<'a>(&'a self, k: &str) -> (r: Option<&'a String>)
        ensures
            match r {
                Some(v) => self.spec_get(k@) == Some(v@),
                None => self.spec_get(k@) is None,
            },
    {
        match self.position_of(k) {
            Some(i) => {
                proof {
                    lemma_assoc_get_at(self@, k@, i as int);
                }
                Some(&self.entries[i].1)
            }
            None => {
                proof {
                    lemma_assoc_get_none(self@, k@);
                }
                None
            }
        }
    }

    /// Insert `k = v`; an existing entry for `k` is overwritten in place.
    pub fn insert(&mut self, k: String, v: String)
        requires
            old(self).wf(),
        ensures
            final(self).wf(),
            final(self)@ == assoc_set(old(self)@, k@, v@),
            final(self).spec_get(k@) == Some(v@),
            forall|q: Seq<char>| q != k@ ==> final(self).spec_get(q) == old(self).spec_get(q),
            old(self).spec_contains(k@) ==> final(self)@.len() == old(self)@.len(),
            !old(self).spec_contains(k@) ==> final(self)@ =~= old(self)@.push((k@, v@)),
    {
        let ghost pre = self@;
        match self.position_of(&k) {
            Some(i) => {
                proof {
                    lemma_assoc_get_at(pre, k@, i as int);
                }
                let ghost kv = k@;
                self.entries.set(i, (k, v));
                proof {
                    assert(self@ =~= pre.update(i as int, (kv, v@)));
                    lemma_assoc_get_update(pre, i as int, kv, v@);
                    lemma_assoc_set_update(pre, kv, v@, i as int);
                }
            }
            None => {
                proof {
                    lemma_assoc_get_none(pre, k@);
                }
                let ghost kv = k@;
                self.entries.push((k, v));
                proof {
                    assert(self@ =~= pre.push((kv, v@)));
                    lemma_assoc_get_push(pre, kv, v@);
                    lemma_assoc_set_push(pre, kv, v@);
                }
            }
        }
    }

    /// The entry at position `i`, for iteration.
    pub fn entry_at(&self, i: usize) -> (r: (&String, &String))
        requires
            i < self@.len(),
        ensures
            (r.0@, r.1@) == self@[i as int],
    {
        (&self.entries[i].0, &self.entries[i].1)
    }
}

/// Overwriting the entry that holds key `k` changes only that key's value.
proof fn lemma_assoc_get_update<V>(s: Seq<(Seq<char>, V)>, i: int, k: Seq<char>, v: V)
    requires
        0 <= i < s.len(),
        s[i].0 == k,
        forall|j: int| 0 <= j < i ==> s[j].0 != k,
        distinct_keys(s),
    ensures
        distinct_keys(s.update(i, (k, v))),
        assoc_get(s.update(i, (k, v)), k) == Some(v),
        forall|q: Seq<char>| q != k ==> assoc_get(s.update(i, (k, v)), q) == assoc_get(s, q),
{
    let t = s.update(i, (k, v));
    assert(distinct_keys(t)) by {
        assert forall|a: int, b: int| 0 <= a < b < t.len() implies t[a].0 != t[b].0 by {
            assert(t[a].0 == s[a].0 && t[b].0 == s[b].0);
        }
    }
    assert(t[i].0 == k && (forall|j: int| 0 <= j < i ==> t[j].0 != k));
    lemma_assoc_get_at(t, k, i);
    assert forall|q: Seq<char>| q != k implies assoc_get(t, q) == assoc_get(s, q) by {
        lemma_assoc_get_same_keys(s, t, q);
    }
}

/// Appending a fresh key extends the map by that one binding.
proof fn lemma_assoc_get_push<V>(s: Seq<(Seq<char>, V)>, k: Seq<char>, v: V)
    requires
        forall|j: int| 0 <= j < s.len() ==> s[j].0 != k,
        distinct_keys(s),
    ensures
        distinct_keys(s.push((k, v))),
        assoc_get(s.push((k, v)), k) == Some(v),
        forall|q: Seq<char>| q != k ==> assoc_get(s.push((k, v)), q) == assoc_get(s, q),
{
    let t = s.push((k, v));
    assert(distinct_keys(t)) by {
        assert forall|a: int, b: int| 0 <= a < b < t.len() implies t[a].0 != t[b].0 by {
            if b < s.len() {
                assert(t[a].0 == s[a].0 && t[b].0 == s[b].0);
            } else {
                assert(t[a].0 == s[a].0 && t[b].0 == k);
            }
        }
    }
    assert(t[s.len() as int].0 == k && (forall|j: int| 0 <= j < s.len() ==> t[j].0 != k));
    lemma_assoc_get_at(t, k, s.len() as int);
    assert forall|q: Seq<char>| q != k implies assoc_get(t, q) == assoc_get(s, q) by {
        lemma_assoc_get_prefix(s, k, v, q);
    }
}

/// Lookup of a key other than the appended one ignores the appended pair.
proof fn lemma_assoc_get_prefix<V>(s: Seq<(Seq<char>, V)>, k: Seq<char>, v: V, q: Seq<char>)
    requires
        q != k,
    ensures
        assoc_get(s.push((k, v)), q) == assoc_get(s, q),
    decreases s.len(),
{
    let t = s.push((k, v));
    if s.len() == 0 {
        reveal_with_fuel(assoc_get, 2);
        assert(t[0].0 == k);
        assert(t.drop_first() =~= Seq::<(Seq<char>, V)>::empty());
    } else {
        assert(t[0] == s[0]);
        lemma_assoc_get_prefix(s.drop_first(), k, v, q);
        assert(t.drop_first() =~= s.drop_first().push((k, v)));
    }
}

/// Two pair sequences of equal length whose keys agree pointwise, and whose
/// values agree wherever the key is not `k`, look up every `q != k` alike.
proof fn lemma_assoc_get_same_keys<V>(s: Seq<(Seq<char>, V)>, t: Seq<(Seq<char>, V)>, q: Seq<char>)
    requires
        s.len() == t.len(),
        forall|j: int| 0 <= j < s.len() ==> s[j].0 == t[j].0,
        forall|j: int| 0 <= j < s.len() && s[j].0 == q ==> s[j].1 == t[j].1,
    ensures
        assoc_get(s, q) == assoc_get(t, q),
    decreases s.len(),
{
    if s.len() > 0 {
        assert(s[0].0 == t[0].0);
        let s1 = s.drop_first();
        let t1 = t.drop_first();
        assert forall|j: int| 0 <= j < s1.len() implies s1[j].0 == t1[j].0 && (s1[j].0 == q
            ==> s1[j].1 == t1[j].1) by {
            assert(s1[j] == s[j + 1] && t1[j] == t[j + 1]);
        }
        lemma_assoc_get_same_keys(s1, t1, q);
        if s[0].0 == q {
            assert(s[0].1 == t[0].1);
        }
    }
}

} // verus!
