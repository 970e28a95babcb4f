use vstd::prelude::*;

use crate::chain::EthereumBlockPointer;

verus! {

/// Whether the block numbers of the list strictly ascend.
pub open spec fn strictly_ascending(s: Seq<EthereumBlockPointer>) -> bool {
    forall|i: int, j: int| 0 <= i < j < s.len() ==> (#[trigger] s[i]).number < (#[trigger] s[j]).number
}

/// Whether one of the lists holds the pointer.
pub open spec fn listed(lists: Seq<Vec<EthereumBlockPointer>>, p: EthereumBlockPointer) -> bool {
    exists|k: int| 0 <= k < lists.len() && (#[trigger] lists[k])@.contains(p)
}

/// Whether the pointer list holds a pointer with the given block number.
pub open spec fn has_number(s: Seq<EthereumBlockPointer>, n: u64) -> bool {
    exists|i: int| 0 <= i < s.len() && (#[trigger] s[i]).number == n
}

/// Adds a pointer to an ascending list unless its block number is there already.
fn insert_pointer(v: &mut Vec<EthereumBlockPointer>, p: EthereumBlockPointer)
    requires
        strictly_ascending(old(v)@),
    ensures
        strictly_ascending(final(v)@),
        forall|q: EthereumBlockPointer| final(v)@.contains(q) ==> old(v)@.contains(q) || q == p,
        forall|n: u64| #[trigger] has_number(final(v)@, n) <==> has_number(old(v)@, n) || n == p.number,
{
    let mut i: usize = 0;
    while i < v.len() && v[i].number < p.number
        invariant
            i <= v@.len(),
            forall|k: int| 0 <= k < i ==> (#[trigger] v@[k]).number < p.number,
        decreases v@.len() - i,
    {
        i = i + 1;
    }
    if i < v.len() && v[i].number == p.number {
        return;
    }
    let ghost s = v@;
    v.insert(i, p);
    proof {
        assert(v@ =~= s.subrange(0, i as int).push(p) + s.subrange(i as int, s.len() as int));
        assert forall|a: int, b: int| 0 <= a < b < v@.len() implies (#[trigger] v@[a]).number < (#[trigger] v@[b]).number by {
            if b < i {
            } else if a > i {
                assert(v@[a] == s[a - 1] && v@[b] == s[b - 1]);
            } else if a == i {
                assert(v@[b] == s[b - 1]);
            } else if b == i {
            } else {
                assert(v@[b] == s[b - 1]);
            }
        }
        assert forall|q: EthereumBlockPointer| v@.contains(q) implies s.contains(q) || q == p by {
            let k = choose|k: int| 0 <= k < v@.len() && v@[k] == q;
            if k < i {
                assert(s[k] == q);
            } else if k > i {
                assert(s[k - 1] == q);
            }
        }
        assert forall|n: u64| #[trigger] has_number(v@, n) <==> has_number(s, n) || n == p.number by {
            if has_number(v@, n) {
                let k = choose|k: int| 0 <= k < v@.len() && (#[trigger] v@[k]).number == n;
                if k < i {
                    assert(s[k].number == n);
                } else if k > i {
                    assert(s[k - 1].number == n);
                }
            }
            if has_number(s, n) {
                let k = choose|k: int| 0 <= k < s.len() && (#[trigger] s[k]).number == n;
                if k < i {
                    assert(v@[k] == s[k]);
                } else {
                    assert(v@[k + 1] == s[k]);
                }
            }
            if n == p.number {
                assert(v@[i as int].number == n);
            }
        }
    }
}

/// The blocks that carry triggers, from the block lists of the separate
/// queries: one pointer for each block number found in any list, in
/// ascending order of number.
pub fn union_block_pointers(lists: &Vec<Vec<EthereumBlockPointer>>) -> (r: Vec<EthereumBlockPointer>)
    ensures
        strictly_ascending(r@),
        forall|q: EthereumBlockPointer| r@.contains(q) ==> listed(lists@, q),
        forall|k: int, j: int| 0 <= k < lists@.len() && 0 <= j < lists@[k]@.len()
            ==> has_number(r@, (#[trigger] lists@[k]@[j]).number),
{
    let mut r: Vec<EthereumBlockPointer> = Vec::new();
    let mut k: usize = 0;
    while k < lists.len()
        invariant
            k <= lists@.len(),
            strictly_ascending(r@),
            forall|q: EthereumBlockPointer| r@.contains(q) ==> listed(lists@, q),
            forall|k2: int, j: int| 0 <= k2 < k && 0 <= j < lists@[k2]@.len()
                ==> has_number(r@, (#[trigger] lists@[k2]@[j]).number),
        decreases lists@.len() - k,
    {
        let list = &lists[k];
        let mut j: usize = 0;
        while j < list.len()
            invariant
                k < lists@.len(),
                *list == lists@[k as int],
                j <= list@.len(),
                strictly_ascending(r@),
                forall|q: EthereumBlockPointer| r@.contains(q) ==> listed(lists@, q),
                forall|k2: int, j2: int| 0 <= k2 < k && 0 <= j2 < lists@[k2]@.len()
                    ==> has_number(r@, (#[trigger] lists@[k2]@[j2]).number),
                forall|j2: int| 0 <= j2 < j ==> has_number(r@, (#[trigger] list@[j2]).number),
            decreases list@.len() - j,
        {
            let p = list[j];
            proof {
                assert(lists@[k as int]@.contains(p));
            }
            insert_pointer(&mut r, p);
            j = j + 1;
        }
        k = k + 1;
    }
    r
}

} // verus!
