//! Association sequences: ordered key-value bindings with byte-string keys.
//!
//! A map literal and one environment scope are both kept as a sequence of
//! bindings in insertion order. Setting a key replaces the first binding
//! with that key in place, or appends a new binding at the end; getting a
//! key returns the first binding's value.

use vstd::prelude::*;

verus! {

/// The value of the first binding of `k`, if any.
pub open spec fn assoc_get<V>(en: Seq<(Seq<u8>, V)>, k: Seq<u8>) -> Option<V>
    decreases en.len(),
{
    if en.len() == 0 {
        None
    } else if en[0].0 == k {
        Some(en[0].1)
    } else {
        assoc_get(en.drop_first(), k)
    }
}

/// The sequence with `k` bound to `v`: the first binding of `k` replaced in
/// place, or a new binding appended.
pub open spec fn assoc_set<V>(en: Seq<(Seq<u8>, V)>, k: Seq<u8>, v: V) -> Seq<(Seq<u8>, V)>
    decreases en.len(),
{
    if en.len() == 0 {
        seq![(k, v)]
    } else if en[0].0 == k {
        seq![(k, v)] + en.drop_first()
    } else {
        seq![en[0]] + assoc_set(en.drop_first(), k, v)
    }
}

/// When `j` is the first position binding `k`, setting `k` updates that
/// position and nothing else.
pub proof fn lemma_assoc_set_found<V>(en: Seq<(Seq<u8>, V)>, k: Seq<u8>, v: V, j: int)
    requires
        0 <= j < en.len(),
        en[j].0 == k,
        forall|i: int| 0 <= i < j ==> en[i].0 != k,
    ensures
        assoc_set(en, k, v) == en.update(j, (k, v)),
    decreases j,
{
    if j == 0 {
        assert(seq![(k, v)] + en.drop_first() =~= en.update(0, (k, v)));
    } else {
        assert(forall|i: int| 0 <= i < j - 1 ==> en.drop_first()[i].0 != k);
        lemma_assoc_set_found(en.drop_first(), k, v, j - 1);
        assert(seq![en[0]] + en.drop_first().update(j - 1, (k, v)) =~= en.update(j, (k, v)));
    }
}

/// When no binding has the key, setting it appends one binding.
pub proof fn lemma_assoc_set_missing<V>(en: Seq<(Seq<u8>, V)>, k: Seq<u8>, v: V)
    requires
        forall|i: int| 0 <= i < en.len() ==> en[i].0 != k,
    ensures
        assoc_set(en, k, v) == en.push((k, v)),
    decreases en.len(),
{
    if en.len() == 0 {
        assert(seq![(k, v)] =~= en.push((k, v)));
    } else {
        assert(forall|i: int|
            0 <= i < en.drop_first().len() ==> en.drop_first()[i].0 != k);
        lemma_assoc_set_missing(en.drop_first(), k, v);
        assert(seq![en[0]] + en.drop_first().push((k, v)) =~= en.push((k, v)));
    }
}

/// When `j` is the first position binding `k`, getting `k` yields that
/// position's value.
pub proof fn lemma_assoc_get_found<V>(en: Seq<(Seq<u8>, V)>, k: Seq<u8>, j: int)
    requires
        0 <= j < en.len(),
        en[j].0 == k,
        forall|i: int| 0 <= i < j ==> en[i].0 != k,
    ensures
        assoc_get(en, k) == Some(en[j].1),
    decreases j,
{
    if j == 0 {
    } else {
        assert(forall|i: int| 0 <= i < j - 1 ==> en.drop_first()[i].0 != k);
        lemma_assoc_get_found(en.drop_first(), k, j - 1);
    }
}

/// When no binding has the key, getting it yields nothing.
pub proof fn lemma_assoc_get_missing<V>(en: Seq<(Seq<u8>, V)>, k: Seq<u8>)
    requires
        forall|i: int| 0 <= i < en.len() ==> en[i].0 != k,
    ensures
        assoc_get(en, k) == None::<V>,
    decreases en.len(),
{
    if en.len() == 0 {
    } else {
        assert(forall|i: int|
            0 <= i < en.drop_first().len() ==> en.drop_first()[i].0 != k);
        lemma_assoc_get_missing(en.drop_first(), k);
    }
}

/// Decides equality of two byte strings.
pub fn bytes_eq(a: &Vec<u8>, b: &Vec<u8>) -> (r: bool)
    ensures
        r == (a@ == b@),
{
    if a.len() != b.len() {
        proof {
            assert(a@.len() != b@.len());
        }
        return false;
    }
    let mut i: usize = 0;
    while i < a.len()
        invariant
            0 <= i <= a@.len(),
            a@.len() == b@.len(),
            forall|j: int| 0 <= j < i ==> a@[j] == b@[j],
        decreases a@.len() - i,
    {
        if a[i] != b[i] {
            return false;
        }
        i = i + 1;
    }
    proof {
        assert(a@ =~= b@);
    }
    true
}

} // verus!
