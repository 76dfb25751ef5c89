//! Order-preserving filtering of vectors, and key uniqueness of sequences.
use vstd::prelude::*;

verus! {

broadcast use {vstd::seq_lib::group_seq_properties, vstd::seq::group_seq_axioms};

/// No two distinct positions of `s` carry the same key.
pub open spec fn keys_unique<T, K>(s: Seq<T>, key: spec_fn(T) -> K) -> bool {
    forall|i: int, j: int|
        0 <= i < s.len() && 0 <= j < s.len() && i != j ==> key(#[trigger] s[i]) != key(
            #[trigger] s[j],
        )
}

/// Filtering keeps keys unique.
pub proof fn lemma_filter_keys_unique<T, K>(s: Seq<T>, key: spec_fn(T) -> K, p: spec_fn(T) -> bool)
    requires
        keys_unique(s, key),
    ensures
        keys_unique(s.filter(p), key),
    decreases s.len(),
{
    reveal(Seq::filter);
    if s.len() > 0 {
        let rest = s.drop_last();
        assert(keys_unique(rest, key)) by {
            assert forall|i: int, j: int|
                0 <= i < rest.len() && 0 <= j < rest.len() && i != j implies key(
                #[trigger] rest[i],
            ) != key(#[trigger] rest[j]) by {
                assert(rest[i] == s[i] && rest[j] == s[j]);
            }
        }
        lemma_filter_keys_unique(rest, key, p);
        let fr = rest.filter(p);
        if p(s.last()) {
            let out = fr.push(s.last());
            assert forall|i: int, j: int|
                0 <= i < out.len() && 0 <= j < out.len() && i != j implies key(
                #[trigger] out[i],
            ) != key(#[trigger] out[j]) by {
                if i < fr.len() && j < fr.len() {
                    assert(out[i] == fr[i] && out[j] == fr[j]);
                } else if i < fr.len() {
                    assert(fr.contains(fr[i]));
                    rest.lemma_filter_contains_rev(p, fr[i]);
                    let k = choose|k: int| 0 <= k < rest.len() && rest[k] == fr[i];
                    assert(s[k] == rest[k]);
                    assert(key(s[k]) != key(s[s.len() - 1]));
                } else if j < fr.len() {
                    assert(fr.contains(fr[j]));
                    rest.lemma_filter_contains_rev(p, fr[j]);
                    let k = choose|k: int| 0 <= k < rest.len() && rest[k] == fr[j];
                    assert(s[k] == rest[k]);
                    assert(key(s[k]) != key(s[s.len() - 1]));
                }
            }
        }
    }
}

/// Pushing an element whose key is new keeps keys unique.
pub proof fn lemma_push_keys_unique<T, K>(s: Seq<T>, key: spec_fn(T) -> K, x: T)
    requires
        keys_unique(s, key),
        forall|i: int| 0 <= i < s.len() ==> key(#[trigger] s[i]) != key(x),
    ensures
        keys_unique(s.push(x), key),
{
    let out = s.push(x);
    assert forall|i: int, j: int|
        0 <= i < out.len() && 0 <= j < out.len() && i != j implies key(#[trigger] out[i]) != key(
        #[trigger] out[j],
    ) by {
        if i < s.len() && j < s.len() {
            assert(out[i] == s[i] && out[j] == s[j]);
        } else if i < s.len() {
            assert(out[i] == s[i]);
        } else {
            assert(out[j] == s[j]);
        }
    }
}

/// Replacing an element by one with the same key keeps keys unique.
pub proof fn lemma_update_keys_unique<T, K>(s: Seq<T>, key: spec_fn(T) -> K, i: int, x: T)
    requires
        keys_unique(s, key),
        0 <= i < s.len(),
        key(x) == key(s[i]),
    ensures
        keys_unique(s.update(i, x), key),
{
    let out = s.update(i, x);
    assert forall|a: int, b: int|
        0 <= a < out.len() && 0 <= b < out.len() && a != b implies key(#[trigger] out[a]) != key(
        #[trigger] out[b],
    ) by {
        assert(key(out[a]) == key(s[a]));
        assert(key(out[b]) == key(s[b]));
    }
}

/// Removes, in place, every element that `keep` rejects; the survivors keep
/// their order.
pub(crate) fn vec_retain<T, F: Fn(&T) -> bool>(v: &mut Vec<T>, keep: F, Ghost(pred): Ghost<spec_fn(T) -> bool>)
    requires
        forall|x: T| #[trigger] keep.requires((&x,)),
        forall|x: T, b: bool| keep.ensures((&x,), b) ==> b == pred(x),
    ensures
        final(v)@ == old(v)@.filter(pred),
{
    let ghost orig = v@;
    let mut i = v.len();
    assert(orig.skip(i as int) =~= Seq::<T>::empty());
    reveal(Seq::filter);
    assert(orig.take(i as int) =~= orig);
    while i > 0
        invariant
            i <= orig.len(),
            v@ == orig.take(i as int) + orig.skip(i as int).filter(pred),
            forall|x: T| #[trigger] keep.requires((&x,)),
            forall|x: T, b: bool| keep.ensures((&x,), b) ==> b == pred(x),
        decreases i,
    {
        i = i - 1;
        let ghost tail = orig.skip(i as int + 1).filter(pred);
        assert(orig.skip(i as int) =~= seq![orig[i as int]] + orig.skip(i as int + 1));
        proof {
            orig.skip(i as int + 1).lemma_filter_prepend(orig[i as int], pred);
        }
        assert(v@[i as int] == orig[i as int]);
        let b = keep(&v[i]);
        if !b {
            v.remove(i);
            assert(v@ =~= orig.take(i as int) + tail);
        } else {
            assert(v@ =~= orig.take(i as int) + (seq![orig[i as int]] + tail));
        }
    }
    assert(v@ =~= orig.filter(pred));
}

/// The elements of `v` that `keep` accepts, in order.
pub(crate) fn vec_filter_copy<T: Copy, F: Fn(&T) -> bool>(v: &Vec<T>, keep: F, Ghost(pred): Ghost<spec_fn(T) -> bool>) -> (r: Vec<T>)
    requires
        forall|x: T| #[trigger] keep.requires((&x,)),
        forall|x: T, b: bool| keep.ensures((&x,), b) ==> b == pred(x),
    ensures
        r@ == v@.filter(pred),
{
    let mut out: Vec<T> = Vec::new();
    let mut i: usize = 0;
    reveal(Seq::filter);
    assert(v@.take(0) =~= Seq::<T>::empty());
    while i < v.len()
        invariant
            i <= v.len(),
            out@ == v@.take(i as int).filter(pred),
            forall|x: T| #[trigger] keep.requires((&x,)),
            forall|x: T, b: bool| keep.ensures((&x,), b) ==> b == pred(x),
        decreases v.len() - i,
    {
        let x = v[i];
        assert(v@.take(i as int + 1) =~= v@.take(i as int).push(x));
        proof {
            v@.take(i as int).lemma_filter_push(x, pred);
        }
        if keep(&x) {
            out.push(x);
        }
        i = i + 1;
    }
    assert(v@.take(i as int) =~= v@);
    out
}

} // verus!
