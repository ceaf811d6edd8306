use vstd::prelude::*;

verus! {

/// The position of the first key equal to `k`, or -1 when there is none.
pub open spec fn first_key(keys: Seq<Seq<char>>, k: Seq<char>) -> int
    decreases keys.len(),
{
    if keys.len() == 0 {
        -1
    } else {
        let i = first_key(keys.drop_last(), k);
        if i >= 0 {
            i
        } else if keys.last() == k {
            keys.len() - 1
        } else {
            -1
        }
    }
}

pub proof fn lemma_first_key_range(keys: Seq<Seq<char>>, k: Seq<char>)
    ensures
        -1 <= first_key(keys, k) < keys.len(),
        first_key(keys, k) >= 0 ==> keys[first_key(keys, k)] == k,
        first_key(keys, k) == -1 <==> !keys.contains(k),
        forall|j: int| 0 <= j < first_key(keys, k) ==> keys[j] != k,
    decreases keys.len(),
{
    if keys.len() > 0 {
        lemma_first_key_range(keys.drop_last(), k);
        let i = first_key(keys.drop_last(), k);
        if i >= 0 {
            assert(keys[i] == keys.drop_last()[i]);
            assert forall|j: int| 0 <= j < i implies keys[j] != k by {
                assert(keys[j] == keys.drop_last()[j]);
            }
        } else {
            if keys.last() != k {
                assert forall|j: int| 0 <= j < keys.len() implies keys[j] != k by {
                    if j < keys.len() - 1 {
                        assert(keys[j] == keys.drop_last()[j]);
                        assert(keys.drop_last().contains(k) == false);
                    }
                }
            } else {
                assert(keys.contains(k)) by {
                    assert(keys[keys.len() - 1] == k);
                }
                assert forall|j: int| 0 <= j < keys.len() - 1 implies keys[j] != k by {
                    assert(keys[j] == keys.drop_last()[j]);
                }
            }
        }
    }
}

/// Once a prefix holds the key, the whole sequence finds it at the same place.
pub proof fn lemma_first_key_prefix(keys: Seq<Seq<char>>, k: Seq<char>, j: int)
    requires
        0 <= j <= keys.len(),
    ensures
        first_key(keys.take(j), k) >= 0 ==> first_key(keys, k) == first_key(keys.take(j), k),
        first_key(keys.take(j), k) == -1 && j < keys.len() ==> first_key(keys.take(j + 1), k) == (
        if keys[j] == k {
            j
        } else {
            -1
        }),
    decreases keys.len() - j,
{
    if j < keys.len() {
        assert(keys.take(j + 1).drop_last() =~= keys.take(j));
        lemma_first_key_prefix(keys, k, j + 1);
    } else {
        assert(keys.take(j) =~= keys);
    }
}

} // verus!
