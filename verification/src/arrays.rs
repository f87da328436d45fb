//! Array kernels: summation into a wide accumulator and in-place sorting.

use vstd::prelude::*;
use vstd::seq_lib::group_to_multiset_ensures;

verus! {

/// Sum of a sequence of 32-bit integers, as an unbounded integer.
pub open spec fn sum_seq(s: Seq<i32>) -> int
    decreases s.len(),
{
    if s.len() == 0 {
        0
    } else {
        sum_seq(s.drop_last()) + s.last()
    }
}

/// The elements are in non-decreasing order.
pub open spec fn sorted(s: Seq<i32>) -> bool {
    forall|i: int, j: int| 0 <= i <= j < s.len() ==> s[i] <= s[j]
}

/// Sums all elements in a 64-bit signed accumulator. The length bound keeps
/// every partial sum of 32-bit values inside the 64-bit range.
pub fn sum_array(data: &Vec<i32>) -> (r: i64)
    requires
        data@.len() <= 0x1_0000_0000,
    ensures
        r == sum_seq(data@),
{
    let mut acc: i64 = 0;
    let mut i: usize = 0;
    while i < data.len()
        invariant
            0 <= i <= data@.len() <= 0x1_0000_0000,
            acc == sum_seq(data@.take(i as int)),
            acc >= (i as int) * (-0x8000_0000),
            acc <= (i as int) * 0x7fff_ffff,
        decreases data@.len() - i,
    {
        proof {
            assert(data@.take(i as int + 1).drop_last() =~= data@.take(i as int));
            assert(data@.take(i as int + 1).last() == data@[i as int]);
        }
        acc += data[i] as i64;
        i += 1;
    }
    proof {
        assert(data@.take(data@.len() as int) =~= data@);
    }
    acc
}

/// Exchanging two positions leaves the multiset of elements unchanged.
proof fn lemma_swap_preserves_multiset(s: Seq<i32>, i: int, j: int)
    requires
        0 <= i < s.len(),
        0 <= j < s.len(),
    ensures
        s.update(i, s[j]).update(j, s[i]).to_multiset() == s.to_multiset(),
{
    broadcast use group_to_multiset_ensures;

    let s1 = s.update(i, s[j]);
    assert(s.to_multiset().count(s[i]) > 0);
    assert(s1.to_multiset().count(s1[j]) > 0);
    assert(s1.update(j, s[i]).to_multiset() =~= s.to_multiset());
}

/// Sorts the array in place, ascending. The element multiset is preserved:
/// the result is a permutation of the input.
pub fn quick_sort(data: &mut Vec<i32>)
    ensures
        sorted(final(data)@),
        final(data)@.to_multiset() == old(data)@.to_multiset(),
{
    if data.len() <= 1 {
        return;
    }
    let n = data.len();
    let mut i: usize = 1;
    while i < n
        invariant
            n == data@.len(),
            1 <= i <= n,
            sorted(data@.take(i as int)),
            data@.to_multiset() == old(data)@.to_multiset(),
        decreases n - i,
    {
        proof {
            assert forall|a: int, b: int|
                0 <= a <= b <= i && a != i as int && b != i as int implies data@[a]
                <= data@[b] by {
                assert(data@.take(i as int)[a] == data@[a]);
                assert(data@.take(i as int)[b] == data@[b]);
            }
        }
        let mut j: usize = i;
        while j > 0 && data[j - 1] > data[j]
            invariant
                n == data@.len(),
                0 <= j <= i < n,
                data@.to_multiset() == old(data)@.to_multiset(),
                forall|a: int, b: int|
                    0 <= a <= b <= i && a != j && b != j ==> data@[a] <= data@[b],
                forall|b: int| j < b <= i ==> data@[j as int] <= data@[b],
            decreases j,
        {
            proof {
                lemma_swap_preserves_multiset(data@, j as int - 1, j as int);
            }
            let x = data[j - 1];
            let y = data[j];
            data.set(j - 1, y);
            data.set(j, x);
            j -= 1;
        }
        proof {
            assert forall|a: int, b: int| 0 <= a <= b <= i implies data@[a] <= data@[b] by {
                if a != b && b == j as int {
                    assert(j > 0);
                    if a < j - 1 {
                        assert(data@[a] <= data@[j - 1]);
                    }
                    assert(data@[j - 1] <= data@[j as int]);
                }
            }
            assert(sorted(data@.take(i as int + 1)));
        }
        i += 1;
    }
    proof {
        assert(data@.take(data@.len() as int) =~= data@);
    }
}

} // verus!
