//! First-match lookup in a sequence of string keys, the model of every keyed table here.
use vstd::prelude::*;

verus! {

/// Position of the first occurrence of `k` in `keys`, or -1 when it does not occur.
pub open spec fn first_index(keys: Seq<Seq<char>>, k: Seq<char>) -> int
    decreases keys.len(),
{
    if keys.len() == 0 {
        -1
    } else {
        let p = first_index(keys.drop_last(), k);
        if p == -1 && keys.last() == k {
            keys.len() - 1
        } else {
            p
        }
    }
}

/// `first_index` is -1 exactly when `k` is absent, and otherwise the first position of `k`.
pub proof fn lemma_first_index(keys: Seq<Seq<char>>, k: Seq<char>)
    ensures
        first_index(keys, k) == -1 ==> forall|j: int| 0 <= j < keys.len() ==> keys[j] != k,
        first_index(keys, k) != -1 ==> {
            let p = first_index(keys, k);
            &&& 0 <= p < keys.len()
            &&& keys[p] == k
            &&& forall|j: int| 0 <= j < p ==> keys[j] != k
        },
    decreases keys.len(),
{
    if keys.len() > 0 {
        let d = keys.drop_last();
        lemma_first_index(d, k);
        assert(forall|j: int| 0 <= j < d.len() ==> d[j] == keys[j]);
    }
}

/// A scan that found `k` first at `p` (or nowhere, with `p == -1`) agrees with `first_index`.
pub proof fn lemma_first_index_is(keys: Seq<Seq<char>>, k: Seq<char>, p: int)
    requires
        p == -1 ==> forall|j: int| 0 <= j < keys.len() ==> keys[j] != k,
        p != -1 ==> 0 <= p < keys.len() && keys[p] == k && forall|j: int|
            0 <= j < p ==> keys[j] != k,
    ensures
        first_index(keys, k) == p,
{
    lemma_first_index(keys, k);
    let q = first_index(keys, k);
    if q != -1 && p != -1 {
        if q < p {
            assert(keys[q] == k);
        } else if p < q {
            assert(keys[p] == k);
        }
    } else if q != -1 {
        assert(keys[q] == k);
    } else if p != -1 {
        assert(keys[p] == k);
    }
}

/// Appending a key changes no lookup but that of a key that was absent.
pub proof fn lemma_first_index_push(keys: Seq<Seq<char>>, x: Seq<char>, k: Seq<char>)
    ensures
        first_index(keys.push(x), k) == if first_index(keys, k) == -1 && x == k {
            keys.len() as int
        } else {
            first_index(keys, k)
        },
{
    assert(keys.push(x).drop_last() =~= keys);
}

} // verus!
