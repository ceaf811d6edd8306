use vstd::prelude::*;

verus! {

/// Some of the first `n` flags is set.
pub open spec fn any_true(bs: Seq<bool>, n: int) -> bool {
    exists|i: int| 0 <= i < n && i < bs.len() && bs[i]
}

/// The position of the first set flag among the first `n`.
pub open spec fn first_true(bs: Seq<bool>, n: int) -> int {
    choose|i: int|
        0 <= i < n && i < bs.len() && bs[i] && forall|j: int| 0 <= j < i ==> !#[trigger] bs[j]
}

/// The position of the first set flag among the first `n`, if any.
pub fn first_set(bs: &Vec<bool>, n: usize) -> (r: Option<usize>)
    ensures
        match r {
            Some(i) => any_true(bs@, n as int) && i == first_true(bs@, n as int) && i < n && i
                < bs@.len(),
            None => !any_true(bs@, n as int),
        },
{
    let mut i: usize = 0;
    while i < n && i < bs.len()
        invariant
            forall|j: int| 0 <= j < i ==> !#[trigger] bs@[j],
            i <= n,
        decreases n - i,
    {
        if bs[i] {
            let ghost k = first_true(bs@, n as int);
            assert(0 <= i < n && i < bs@.len() && bs@[i as int] && forall|j: int|
                0 <= j < i ==> !#[trigger] bs@[j]);
            assert(k == i) by {
                if k < i {
                    assert(!bs@[k]);
                } else if k > i {
                    assert(!bs@[i as int]);
                }
            }
            return Some(i);
        }
        i = i + 1;
    }
    None
}

} // verus!
