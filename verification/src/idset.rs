//! Sets of account ids, kept as vectors in increasing order.

use vstd::prelude::*;

verus! {

/// `s` has no element twice and is in increasing order.
pub open spec fn increasing(s: Seq<u32>) -> bool {
    forall|i: int, j: int| 0 <= i < j < s.len() ==> s[i] < s[j]
}

/// Whether `id` is in the set.
pub fn contains_id(ids: &Vec<u32>, account_id: u32) -> (yes: bool)
    ensures
        yes == ids@.contains(account_id),
{
    let n = ids.len();
    let mut i: usize = 0;
    while i < n
        invariant
            n == ids@.len(),
            i <= n,
            forall|j: int| 0 <= j < i ==> ids@[j] != account_id,
        decreases n - i,
    {
        if ids[i] == account_id {
            return true;
        }
        i = i + 1;
    }
    false
}

/// Put `account_id` into the set, in its place; whether it was not in
/// it before.
pub fn insert_id(ids: &mut Vec<u32>, account_id: u32) -> (added: bool)
    requires
        increasing(old(ids)@),
    ensures
        increasing(final(ids)@),
        added == !old(ids)@.contains(account_id),
        final(ids)@.to_set() == old(ids)@.to_set().insert(account_id),
{
    let n = ids.len();
    let mut i: usize = 0;
    while i < n && ids[i] < account_id
        invariant
            n == ids@.len(),
            i <= n,
            increasing(ids@),
            ids@ == old(ids)@,
            forall|j: int| 0 <= j < i ==> ids@[j] < account_id,
        decreases n - i,
    {
        i = i + 1;
    }
    if i < n && ids[i] == account_id {
        assert(ids@.contains(account_id));
        return false;
    }
    proof {
        assert forall|j: int| i <= j < n implies ids@[j] > account_id by {
            if j > i {
                assert(ids@[i as int] < ids@[j]);
            }
        }
    }
    let ghost before = ids@;
    ids.insert(i, account_id);
    proof {
        assert(ids@ =~= before.subrange(0, i as int).push(account_id) + before.subrange(
            i as int,
            n as int,
        ));
        assert forall|x: u32| ids@.contains(x) <==> before.contains(x) || x == account_id by {
            if ids@.contains(x) {
                let k = choose|k: int| 0 <= k < ids@.len() && ids@[k] == x;
                if k < i {
                    assert(before[k] == x);
                } else if k > i {
                    assert(before[k - 1] == x);
                }
            }
            if before.contains(x) {
                let k = choose|k: int| 0 <= k < before.len() && before[k] == x;
                if k < i {
                    assert(ids@[k] == x);
                } else {
                    assert(ids@[k + 1] == x);
                }
            }
            if x == account_id {
                assert(ids@[i as int] == x);
            }
        }
        assert forall|x: u32| #[trigger] ids@.to_set().contains(x) == before.to_set().insert(
            account_id,
        ).contains(x) by {
            assert(ids@.contains(x) <==> before.contains(x) || x == account_id);
        }
        assert(ids@.to_set() =~= before.to_set().insert(account_id));
        assert forall|a: int, b: int| 0 <= a < b < ids@.len() implies ids@[a]
            < ids@[b] by {
            if b < i {
            } else if a < i && b == i {
            } else if a < i && b > i {
                assert(before[a] < before[b - 1]);
            } else if a == i {
                assert(before[b - 1] > account_id);
            } else {
                assert(before[a - 1] < before[b - 1]);
            }
        }
    }
    true
}

/// Take `account_id` out of the set.
pub fn remove_id(ids: &mut Vec<u32>, account_id: u32)
    requires
        increasing(old(ids)@),
    ensures
        increasing(final(ids)@),
        final(ids)@.to_set() == old(ids)@.to_set().remove(account_id),
{
    let n = ids.len();
    let mut i: usize = 0;
    while i < n
        invariant
            n == ids@.len(),
            i <= n,
            increasing(ids@),
            ids@ == old(ids)@,
            forall|j: int| 0 <= j < i ==> ids@[j] != account_id,
        decreases n - i,
    {
        if ids[i] == account_id {
            let ghost before = ids@;
            ids.remove(i);
            proof {
                assert(ids@ =~= before.subrange(0, i as int) + before.subrange(
                    i + 1,
                    n as int,
                ));
                assert forall|x: u32| ids@.contains(x) <==> before.contains(x) && x
                    != account_id by {
                    if ids@.contains(x) {
                        let k = choose|k: int| 0 <= k < ids@.len() && ids@[k] == x;
                        if k < i {
                            assert(before[k] == x);
                        } else {
                            assert(before[k + 1] == x);
                            assert(before[i as int] < before[k + 1]);
                            assert(x != account_id);
                        }
                    }
                    if before.contains(x) && x != account_id {
                        let k = choose|k: int| 0 <= k < before.len() && before[k] == x;
                        if k < i {
                            assert(ids@[k] == x);
                        } else {
                            assert(k != i);
                            assert(ids@[k - 1] == x);
                        }
                    }
                }
                assert forall|x: u32| #[trigger] ids@.to_set().contains(x)
                    == before.to_set().remove(account_id).contains(x) by {
                    assert(ids@.contains(x) <==> before.contains(x) && x != account_id);
                }
                assert(ids@.to_set() =~= before.to_set().remove(account_id));
                assert forall|a: int, b: int| 0 <= a < b < ids@.len() implies ids@[a]
                    < ids@[b] by {
                    if b < i {
                    } else if a < i {
                        assert(before[a] < before[b + 1]);
                    } else {
                        assert(before[a + 1] < before[b + 1]);
                    }
                }
            }
            return;
        }
        i = i + 1;
    }
    assert(ids@.to_set() =~= ids@.to_set().remove(account_id));
}

/// Whether `value` occurs in `values`, in whatever order they are.
pub fn seq_has(values: &Vec<u32>, value: u32) -> (yes: bool)
    ensures
        yes == values@.contains(value),
{
    contains_id(values, value)
}

} // verus!
