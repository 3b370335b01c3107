//! The order in which saved conversations are listed: the most recently
//! updated first.

use vstd::prelude::*;

verus! {

/// `r` lists every position of `keys` once, by falling key.
pub open spec fn is_newest_first_order(keys: Seq<i64>, r: Seq<usize>) -> bool {
    &&& r.len() == keys.len()
    &&& forall|i: int| 0 <= i < r.len() ==> #[trigger] r[i] < keys.len()
    &&& forall|i: int, j: int| 0 <= i < j < r.len() ==> r[i] != r[j]
    &&& forall|i: int, j: int|
        0 <= i < j < r.len() ==> keys[#[trigger] r[i] as int] >= keys[#[trigger] r[j] as int]
}

/// The positions of `updated_at` ordered from the latest time to the
/// earliest.
pub fn newest_first(updated_at: &Vec<i64>) -> (r: Vec<usize>)
    ensures
        is_newest_first_order(updated_at@, r@),
{
    let n = updated_at.len();
    let ghost keys = updated_at@;
    let mut r: Vec<usize> = Vec::new();
    let mut i: usize = 0;
    while i < n
        invariant
            n == keys.len(),
            keys == updated_at@,
            0 <= i <= n,
            r@.len() == i,
            forall|t: int| 0 <= t < r@.len() ==> #[trigger] r@[t] < i,
            forall|a: int, b: int| 0 <= a < b < r@.len() ==> r@[a] != r@[b],
            forall|a: int, b: int|
                0 <= a < b < r@.len() ==> keys[#[trigger] r@[a] as int] >= keys[#[trigger] r@[b] as int],
        decreases n - i,
    {
        let key = updated_at[i];
        let mut pos: usize = 0;
        while pos < r.len() && updated_at[r[pos]] >= key
            invariant
                n == keys.len(),
                keys == updated_at@,
                i < n,
                r@.len() == i,
                forall|t: int| 0 <= t < r@.len() ==> #[trigger] r@[t] < i,
                0 <= pos <= r@.len(),
                forall|t: int| 0 <= t < pos ==> keys[#[trigger] r@[t] as int] >= key,
            decreases r@.len() - pos,
        {
            pos = pos + 1;
        }
        let ghost old_r = r@;
        r.insert(pos, i);
        proof {
            assert forall|t: int| 0 <= t < r@.len() implies #[trigger] r@[t] < i + 1 by {
                if t < pos {
                    assert(r@[t] == old_r[t]);
                } else if t > pos {
                    assert(r@[t] == old_r[t - 1]);
                }
            }
            assert forall|a: int, b: int| 0 <= a < b < r@.len() implies r@[a] != r@[b] by {
                if a < pos {
                    assert(r@[a] == old_r[a]);
                } else if a > pos {
                    assert(r@[a] == old_r[a - 1]);
                }
                if b < pos {
                    assert(r@[b] == old_r[b]);
                } else if b > pos {
                    assert(r@[b] == old_r[b - 1]);
                }
            }
            assert forall|a: int, b: int| 0 <= a < b < r@.len() implies keys[#[trigger] r@[a] as int]
                >= keys[#[trigger] r@[b] as int] by {
                if pos < old_r.len() {
                    assert(keys[old_r[pos as int] as int] < key);
                }
                if a < pos {
                    assert(r@[a] == old_r[a]);
                } else if a > pos {
                    assert(r@[a] == old_r[a - 1]);
                }
                if b < pos {
                    assert(r@[b] == old_r[b]);
                } else if b > pos {
                    assert(r@[b] == old_r[b - 1]);
                    if a == pos && b - 1 > pos {
                        assert(keys[old_r[pos as int] as int] >= keys[old_r[b - 1] as int]);
                    }
                }
            }
        }
        i = i + 1;
    }
    r
}

} // verus!
