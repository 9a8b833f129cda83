//! Finding the first occurrence of a key in a sequence.

use vstd::prelude::*;

verus! {

/// Position of the first occurrence of `key` in `keys`; the length of `keys`
/// if it does not occur.
pub open spec fn first_position<K>(keys: Seq<K>, key: K) -> int
    decreases keys.len(),
{
    if keys.len() == 0 {
        0
    } else if keys[0] == key {
        0
    } else {
        1 + first_position(keys.drop_first(), key)
    }
}

/// The first position lies within the sequence or just behind it, and no
/// earlier element is the key; where it lies within, the key stands there.
pub proof fn lemma_first_position<K>(keys: Seq<K>, key: K)
    ensures
        0 <= first_position(keys, key) <= keys.len(),
        forall|j: int| 0 <= j < first_position(keys, key) ==> keys[j] != key,
        first_position(keys, key) < keys.len() ==> keys[first_position(keys, key)] == key,
    decreases keys.len(),
{
    if keys.len() != 0 && keys[0] != key {
        let rest = keys.drop_first();
        lemma_first_position(rest, key);
        assert forall|j: int| 0 <= j < first_position(keys, key) implies keys[j] != key by {
            if j > 0 {
                assert(keys[j] == rest[j - 1]);
            }
        }
    }
}

/// A position before which the key does not occur, and at which it occurs or
/// the sequence ends, is the first position.
pub proof fn lemma_first_position_is<K>(keys: Seq<K>, key: K, i: int)
    requires
        0 <= i <= keys.len(),
        forall|j: int| 0 <= j < i ==> keys[j] != key,
        i < keys.len() ==> keys[i] == key,
    ensures
        first_position(keys, key) == i,
{
    lemma_first_position(keys, key);
    let p = first_position(keys, key);
    if p < i {
        assert(keys[p] != key);
    }
}

/// Whether `key` occurs in `keys`.
pub open spec fn occurs<K>(keys: Seq<K>, key: K) -> bool {
    first_position(keys, key) < keys.len()
}

/// A key occurs exactly when some element is the key.
pub proof fn lemma_occurs<K>(keys: Seq<K>, key: K)
    ensures
        occurs(keys, key) <==> exists|i: int| 0 <= i < keys.len() && keys[i] == key,
{
    lemma_first_position(keys, key);
    if occurs(keys, key) {
        assert(keys[first_position(keys, key)] == key);
    }
}

/// Position of the first occurrence of `key` in `keys`.
pub fn find_u128(keys: &Vec<u128>, key: u128) -> (found: Option<usize>)
    ensures
        match found {
            Some(i) => i < keys@.len() && i == first_position(keys@, key),
            None => !occurs(keys@, key),
        },
{
    let mut i: usize = 0;
    while i < keys.len()
        invariant
            i <= keys@.len(),
            forall|j: int| 0 <= j < i ==> keys@[j] != key,
        decreases keys@.len() - i,
    {
        if keys[i] == key {
            proof {
                lemma_first_position_is(keys@, key, i as int);
            }
            return Some(i);
        }
        i += 1;
    }
    proof {
        lemma_first_position_is(keys@, key, i as int);
    }
    None
}

/// The first of the numbers `0`, `1`, up to `n` excluded, for which `pred`
/// holds; `n` if it holds for none.
pub open spec fn first_where(n: nat, pred: spec_fn(int) -> bool) -> int {
    first_position(Seq::new(n, pred), true)
}

/// A number before which `pred` does not hold, and at which it holds or `n`
/// is reached, is the first for which it holds.
pub proof fn lemma_first_where_is(n: nat, pred: spec_fn(int) -> bool, i: int)
    requires
        0 <= i <= n,
        forall|j: int| 0 <= j < i ==> !#[trigger] pred(j),
        i < n ==> pred(i),
    ensures
        first_where(n, pred) == i,
{
    lemma_first_position_is(Seq::new(n, pred), true, i);
}

/// The first number for which `pred` holds lies within bounds, `pred` holds
/// for it where it is below `n`, and for no number before it.
pub proof fn lemma_first_where(n: nat, pred: spec_fn(int) -> bool)
    ensures
        0 <= first_where(n, pred) <= n,
        first_where(n, pred) < n ==> pred(first_where(n, pred)),
        forall|j: int| 0 <= j < first_where(n, pred) ==> !#[trigger] pred(j),
{
    lemma_first_position(Seq::new(n, pred), true);
    let p = first_where(n, pred);
    assert forall|j: int| 0 <= j < p implies !#[trigger] pred(j) by {
        assert(Seq::new(n, pred)[j] != true);
    }
    if p < n {
        assert(Seq::new(n, pred)[p] == true);
    }
}

} // verus!
