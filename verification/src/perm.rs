//! The randomized placement order: a Fisher-Yates permutation of the catalog
//! indices, driven by caller-supplied random draws.
//!
//! The permutation is recomputed in full on every pass, so that each pass's
//! layout is independently unpredictable; the draws come from the platform's
//! random-number source, which the caller consults.

use vstd::prelude::*;
use vstd::set_lib::{lemma_int_range, lemma_subset_equality, set_int_range};

verus! {

/// `s` is a permutation of `0 .. n`: it has length `n`, every entry lies
/// below `n`, and no entry repeats.
pub open spec fn is_permutation(s: Seq<u16>, n: int) -> bool {
    &&& s.len() == n
    &&& forall|i: int| 0 <= i < n ==> 0 <= #[trigger] s[i] < n
    &&& forall|i: int, j: int| 0 <= i < j < n ==> s[i] != s[j]
}

/// Law: a permutation of `0 .. n` is a bijection on `0 .. n`: every value
/// below `n` appears at some position (and, entries being pairwise distinct,
/// exactly once).
pub proof fn lemma_permutation_contains(s: Seq<u16>, n: int, v: int)
    requires
        is_permutation(s, n),
        0 <= v < n,
    ensures
        exists|i: int| 0 <= i < n && s[i] == v,
{
    broadcast use vstd::seq_lib::seq_to_set_is_finite;

    let t = s.map_values(|x: u16| x as int);
    assert(t.no_duplicates()) by {
        assert forall|i: int, j: int| 0 <= i < t.len() && 0 <= j < t.len() && i != j implies t[i]
            != t[j] by {
            if i < j {
                assert(s[i] != s[j]);
            } else {
                assert(s[j] != s[i]);
            }
        }
    }
    t.unique_seq_to_set();
    let range = set_int_range(0, n);
    lemma_int_range(0, n);
    assert(t.to_set().subset_of(range)) by {
        assert forall|x: int| t.to_set().contains(x) implies range.contains(x) by {
            let i = choose|i: int| 0 <= i < t.len() && t[i] == x;
            assert(0 <= s[i] < n);
        }
    }
    lemma_subset_equality(t.to_set(), range);
    assert(t.to_set().contains(v));
    let i = choose|i: int| 0 <= i < t.len() && t[i] == v;
    assert(s[i] == v);
}

/// Swapping two in-range positions of a permutation yields a permutation.
proof fn lemma_swap_permutation(s: Seq<u16>, n: int, i: int, j: int)
    requires
        is_permutation(s, n),
        0 <= i < n,
        0 <= j < n,
    ensures
        is_permutation(s.update(i, s[j]).update(j, s[i]), n),
{
    let t = s.update(i, s[j]).update(j, s[i]);
    assert forall|p: int| 0 <= p < n implies 0 <= #[trigger] t[p] < n by {
        assert(t[p] == s[p] || t[p] == s[i] || t[p] == s[j]);
    }
    assert forall|p: int, q: int| 0 <= p < q < n implies t[p] != t[q] by {
        assert(t[p] == if p == j {
            s[i]
        } else if p == i {
            s[j]
        } else {
            s[p]
        });
        assert(t[q] == if q == j {
            s[i]
        } else if q == i {
            s[j]
        } else {
            s[q]
        });
    }
}

/// Compute this pass's placement order: a permutation of `0 .. count`
/// produced by a full Fisher-Yates pass over the identity sequence, taking
/// one random draw per step (`count - 1` draws in all, the first for the last
/// position).
pub fn get_shuffled_sequence(count: usize, draws: &Vec<u32>) -> (r: Vec<u16>)
    requires
        count <= 0x1_0000,
        draws@.len() + 1 >= count,
    ensures
        is_permutation(r@, count as int),
{
    let mut order: Vec<u16> = Vec::new();
    let mut k: usize = 0;
    while k < count
        invariant
            k <= count,
            count <= 0x1_0000,
            order@.len() == k,
            forall|p: int| 0 <= p < k ==> order@[p] == p,
        decreases count - k,
    {
        order.push(k as u16);
        k = k + 1;
    }
    if count > 1 {
        let mut i: usize = count - 1;
        while i > 0
            invariant
                i <= count - 1,
                count <= 0x1_0000,
                draws@.len() + 1 >= count,
                is_permutation(order@, count as int),
            decreases i,
        {
            let d: usize = count - 1 - i;
            let j = (draws[d] % (i as u32 + 1)) as usize;
            let vi = order[i];
            let vj = order[j];
            proof {
                lemma_swap_permutation(order@, count as int, i as int, j as int);
            }
            order[i] = vj;
            order[j] = vi;
            i = i - 1;
        }
    }
    order
}

} // verus!
