//! Association lists: vectors of `(key, value)` pairs read as maps where the
//! last entry for a key wins.
use vstd::prelude::*;
use crate::seq_util::vec_retain;
use crate::text::str_eq;

verus! {

broadcast use {vstd::seq_lib::group_seq_properties, vstd::seq::group_seq_axioms};

/// Keys that can be compared by their views.
pub trait KeyEq: View + Sized {
    fn key_eq(&self, other: &Self) -> (r: bool)
        ensures
            r == (self@ == other@),
    ;
}

impl KeyEq for usize {
    fn key_eq(&self, other: &Self) -> (r: bool) {
        *self == *other
    }
}

impl KeyEq for (usize, usize) {
    fn key_eq(&self, other: &Self) -> (r: bool) {
        self.0 == other.0 && self.1 == other.1
    }
}

impl KeyEq for (usize, usize, String) {
    fn key_eq(&self, other: &Self) -> (r: bool) {
        self.0 == other.0 && self.1 == other.1 && str_eq(self.2.as_str(), other.2.as_str())
    }
}

/// The value stored for key `k`: that of the last entry with this key.
pub open spec fn lookup<K: View, V>(s: Seq<(K, V)>, k: K::V) -> Option<V>
    decreases s.len(),
{
    if s.len() == 0 {
        None
    } else if s.last().0@ == k {
        Some(s.last().1)
    } else {
        lookup(s.drop_last(), k)
    }
}

/// `i` is the last position of `s` with key `k`.
pub open spec fn is_last_key<K: View, V>(s: Seq<(K, V)>, i: int, k: K::V) -> bool {
    &&& 0 <= i < s.len()
    &&& s[i].0@ == k
    &&& forall|j: int| i < j < s.len() ==> (#[trigger] s[j]).0@ != k
}

/// Entries whose key satisfies `kp`.
pub open spec fn key_pred<K: View, V>(kp: spec_fn(K::V) -> bool) -> spec_fn((K, V)) -> bool {
    |e: (K, V)| kp(e.0@)
}

/// Without any entry for `k`, the lookup is empty.
pub proof fn lemma_lookup_none<K: View, V>(s: Seq<(K, V)>, k: K::V)
    ensures
        lookup(s, k) is None <==> (forall|j: int| 0 <= j < s.len() ==> (#[trigger] s[j]).0@ != k),
    decreases s.len(),
{
    if s.len() > 0 {
        lemma_lookup_none(s.drop_last(), k);
        if lookup(s, k) is None {
            assert forall|j: int| 0 <= j < s.len() implies (#[trigger] s[j]).0@ != k by {
                if j < s.len() - 1 {
                    assert(s.drop_last()[j] == s[j]);
                }
            }
        } else if forall|j: int| 0 <= j < s.len() ==> (#[trigger] s[j]).0@ != k {
            assert(s[s.len() - 1].0@ != k);
            assert forall|j: int| 0 <= j < s.drop_last().len() implies (#[trigger] s.drop_last()[j]).0@ != k by {
                assert(s.drop_last()[j] == s[j]);
            }
        }
    }
}

/// The lookup reads the entry at the last position with the key.
pub proof fn lemma_lookup_last<K: View, V>(s: Seq<(K, V)>, i: int, k: K::V)
    requires
        is_last_key(s, i, k),
    ensures
        lookup(s, k) == Some(s[i].1),
    decreases s.len(),
{
    if i < s.len() - 1 {
        let r = s.drop_last();
        assert(s[s.len() - 1].0@ != k);
        assert(r[i] == s[i]);
        assert forall|j: int| i < j < r.len() implies (#[trigger] r[j]).0@ != k by {
            assert(r[j] == s[j]);
        }
        lemma_lookup_last(r, i, k);
    }
}

/// Overwriting the last entry of `k` changes only the lookup of `k`.
pub proof fn lemma_lookup_update<K: View, V>(s: Seq<(K, V)>, i: int, k: K::V, e: (K, V), m: K::V)
    requires
        is_last_key(s, i, k),
        e.0@ == k,
    ensures
        lookup(s.update(i, e), m) == if m == k { Some(e.1) } else { lookup(s, m) },
    decreases s.len(),
{
    let t = s.update(i, e);
    if i == s.len() - 1 {
        assert(t.drop_last() =~= s.drop_last());
    } else {
        assert(t.drop_last() =~= s.drop_last().update(i, e));
        let r = s.drop_last();
        assert(r[i] == s[i]);
        assert(s[s.len() - 1].0@ != k);
        assert forall|j: int| i < j < r.len() implies (#[trigger] r[j]).0@ != k by {
            assert(r[j] == s[j]);
        }
        lemma_lookup_update(r, i, k, e, m);
    }
}

/// Filtering by a key predicate keeps exactly the lookups of kept keys.
pub proof fn lemma_lookup_filter<K: View, V>(s: Seq<(K, V)>, kp: spec_fn(K::V) -> bool, m: K::V)
    ensures
        lookup(s.filter(key_pred::<K, V>(kp)), m) == if kp(m) { lookup(s, m) } else { None },
    decreases s.len(),
{
    reveal(Seq::filter);
    if s.len() > 0 {
        lemma_lookup_filter(s.drop_last(), kp, m);
        let f = s.drop_last().filter(key_pred::<K, V>(kp));
        if kp(s.last().0@) {
            assert(f.push(s.last()).drop_last() =~= f);
        }
    }
}

/// A stored value is the value of some entry.
pub proof fn lemma_lookup_some_member<K: View, V>(s: Seq<(K, V)>, k: K::V)
    requires
        lookup(s, k) is Some,
    ensures
        exists|i: int| 0 <= i < s.len() && (#[trigger] s[i]).1 == lookup(s, k)->0,
    decreases s.len(),
{
    if s.last().0@ == k {
        assert(s[s.len() - 1].1 == lookup(s, k)->0);
    } else {
        lemma_lookup_some_member(s.drop_last(), k);
        let i = choose|i: int| 0 <= i < s.drop_last().len() && (#[trigger] s.drop_last()[i]).1 == lookup(s.drop_last(), k)->0;
        assert(s[i] == s.drop_last()[i]);
    }
}

/// Position of the last entry with key `k`.
pub fn table_find<K: KeyEq, V>(t: &Vec<(K, V)>, k: &K) -> (r: Option<usize>)
    ensures
        r matches Some(i) ==> is_last_key(t@, i as int, k@),
        r is None ==> forall|j: int| 0 <= j < t@.len() ==> (#[trigger] t@[j]).0@ != k@,
{
    let mut i = t.len();
    while i > 0
        invariant
            i <= t@.len(),
            forall|j: int| i <= j < t@.len() ==> (#[trigger] t@[j]).0@ != k@,
        decreases i,
    {
        i = i - 1;
        if t[i].0.key_eq(k) {
            return Some(i);
        }
    }
    None
}

/// The value stored for `k`.
pub fn table_get<K: KeyEq, V: Copy>(t: &Vec<(K, V)>, k: &K) -> (r: Option<V>)
    ensures
        r == lookup(t@, k@),
{
    match table_find(t, k) {
        Some(i) => {
            proof {
                lemma_lookup_last(t@, i as int, k@);
            }
            Some(t[i].1)
        },
        None => {
            proof {
                lemma_lookup_none(t@, k@);
            }
            None
        },
    }
}

/// A reference to the value stored for `k`.
pub fn table_get_ref<'a, K: KeyEq, V>(t: &'a Vec<(K, V)>, k: &K) -> (r: Option<&'a V>)
    ensures
        r matches Some(v) ==> lookup(t@, k@) == Some(*v),
        r is None ==> lookup(t@, k@) is None,
{
    match table_find(t, k) {
        Some(i) => {
            proof {
                lemma_lookup_last(t@, i as int, k@);
            }
            Some(&t[i].1)
        },
        None => {
            proof {
                lemma_lookup_none(t@, k@);
            }
            None
        },
    }
}

/// Stores `v` for `k`: overwrites the last entry of `k`, or appends one.
pub fn table_insert<K: KeyEq, V>(t: &mut Vec<(K, V)>, k: K, v: V)
    ensures
        forall|m: K::V| #[trigger] lookup(final(t)@, m) == if m == k@ { Some(v) } else { lookup(old(t)@, m) },
{
    let ghost s = t@;
    let ghost kv = k@;
    match table_find(t, &k) {
        Some(i) => {
            let ghost e = (k, v);
            t.set(i, (k, v));
            proof {
                assert forall|m: K::V| #[trigger] lookup(t@, m) == if m == kv { Some(v) } else { lookup(s, m) } by {
                    lemma_lookup_update(s, i as int, kv, e, m);
                }
            }
        },
        None => {
            t.push((k, v));
            proof {
                assert forall|m: K::V| #[trigger] lookup(t@, m) == if m == kv { Some(v) } else { lookup(s, m) } by {
                    assert(t@.drop_last() =~= s);
                }
            }
        },
    }
}

/// Removes every entry for `k`.
pub fn table_remove<K: KeyEq, V>(t: &mut Vec<(K, V)>, k: &K)
    ensures
        forall|m: K::V| #[trigger] lookup(final(t)@, m) == if m == k@ { None } else { lookup(old(t)@, m) },
{
    let ghost s = t@;
    let ghost kv = k@;
    let ghost kp = |x: K::V| x != kv;
    let keep = |e: &(K, V)| -> (b: bool)
        ensures
            b == (e.0@ != k@),
        { !e.0.key_eq(k) };
    vec_retain(t, keep, Ghost(key_pred::<K, V>(kp)));
    proof {
        assert forall|m: K::V| #[trigger] lookup(t@, m) == if m == kv { None } else { lookup(s, m) } by {
            lemma_lookup_filter(s, kp, m);
        }
    }
}

} // verus!
