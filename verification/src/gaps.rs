//! Dropout detection for automatic inpainting: runs of muted samples inside
//! the signal that are short enough to reconstruct.
use vstd::prelude::*;

verus! {

/// `[s, s + len)` is a maximal run of marked samples of `m`.
pub open spec fn maximal_run(m: Seq<bool>, s: int, len: int) -> bool {
    &&& 0 <= s
    &&& 1 <= len
    &&& s + len <= m.len()
    &&& forall|j: int| s <= j < s + len ==> #[trigger] m[j]
    &&& (s == 0 || !m[s - 1])
    &&& (s + len == m.len() || !m[s + len])
}

/// A gap to reconstruct: a maximal marked run of 2 to `max_gap` samples with
/// unmarked samples on both sides (interior runs only).
pub open spec fn fillable_gap(m: Seq<bool>, s: int, len: int, max_gap: usize) -> bool {
    &&& maximal_run(m, s, len)
    &&& 2 <= len <= max_gap
    &&& s > 0
    &&& s + len < m.len()
}

/// `(s, len)` occurs in `r`.
pub open spec fn listed(r: Seq<(usize, usize)>, s: int, len: int) -> bool {
    exists|k: int| 0 <= k < r.len() && #[trigger] r[k] == (s as usize, len as usize)
}

/// Every gap of `r` is fillable, `r` is ordered by start, and every fillable
/// gap of `m` that starts before `bound` is listed.
pub open spec fn gaps_found(m: Seq<bool>, r: Seq<(usize, usize)>, max_gap: usize, bound: int) -> bool {
    &&& forall|k: int| 0 <= k < r.len() ==> fillable_gap(m, #[trigger] r[k].0 as int, r[k].1 as int, max_gap)
    &&& forall|k: int| 0 <= k < r.len() ==> #[trigger] r[k].0 < bound
    &&& forall|a: int, b: int| 0 <= a < b < r.len() ==> #[trigger] r[a].0 < #[trigger] r[b].0
    &&& forall|s: int, len: int| 0 <= s < bound && #[trigger] fillable_gap(m, s, len, max_gap) ==> listed(r, s, len)
}

/// The fillable gaps of a dropout mask (`true` where a sample is muted: exact
/// zero or NaN), as `(start, length)` in order: exactly the interior maximal
/// runs of 2 to `max_gap` muted samples.
pub fn dropout_gaps(muted: &Vec<bool>, max_gap: usize) -> (r: Vec<(usize, usize)>)
    ensures
        gaps_found(muted@, r@, max_gap, muted@.len() as int),
{
    let n = muted.len();
    let ghost m = muted@;
    let mut out: Vec<(usize, usize)> = Vec::new();
    let mut i: usize = 0;
    while i < n
        invariant
            n == m.len(),
            m == muted@,
            i <= n,
            0 < i < n ==> !m[i - 1],
            gaps_found(m, out@, max_gap, i as int),
        decreases n - i,
    {
        if muted[i] {
            let start = i;
            let mut j = i + 1;
            while j < n && muted[j]
                invariant
                    start < j <= n,
                    n == m.len(),
                    m == muted@,
                    forall|t: int| start <= t < j ==> #[trigger] m[t],
                decreases n - j,
            {
                j += 1;
            }
            let len = j - start;
            assert(maximal_run(m, start as int, len as int));
            let ghost before = out@;
            if len >= 2 && len <= max_gap && start > 0 && j < n {
                out.push((start, len));
                assert(out@[before.len() as int] == (start, len));
            }
            proof {
                assert forall|s: int, l: int| 0 <= s < j + 1 && #[trigger] fillable_gap(m, s, l, max_gap)
                    implies listed(out@, s, l) by {
                    if s < start {
                        let k = choose|k: int| 0 <= k < before.len() && #[trigger] before[k] == (s as usize, l as usize);
                        assert(out@[k] == before[k]);
                    } else if s == start {
                        if l < len {
                            assert(m[s + l]);
                        } else if l > len {
                            assert(!m[start + len]);
                            assert(m[start + len]);
                        }
                        assert(out@[before.len() as int] == (s as usize, l as usize));
                    } else {
                        assert(m[s - 1]);
                    }
                }
                assert forall|k: int| 0 <= k < out@.len() implies #[trigger] out@[k].0 < j + 1 by {
                    if k < before.len() {
                        assert(out@[k] == before[k]);
                    }
                }
                assert forall|k: int| 0 <= k < out@.len() implies fillable_gap(m, #[trigger] out@[k].0 as int, out@[k].1 as int, max_gap) by {
                    if k < before.len() {
                        assert(out@[k] == before[k]);
                    }
                }
                assert forall|a: int, b: int| 0 <= a < b < out@.len() implies #[trigger] out@[a].0 < #[trigger] out@[b].0 by {
                    if b < before.len() {
                        assert(out@[a] == before[a] && out@[b] == before[b]);
                    } else {
                        assert(out@[a] == before[a]);
                    }
                }
            }
            if j < n {
                i = j + 1;
            } else {
                i = n;
                assert(gaps_found(m, out@, max_gap, i as int));
            }
        } else {
            proof {
                assert forall|s: int, l: int| 0 <= s < i + 1 && #[trigger] fillable_gap(m, s, l, max_gap)
                    implies listed(out@, s, l) by {
                    if s == i {
                        assert(m[s]);
                    }
                }
            }
            i += 1;
        }
    }
    out
}

/// Found gaps do not touch: each ends (with an unmuted sample after it)
/// before the next begins, so filling one never changes another.
pub proof fn lemma_gaps_apart(m: Seq<bool>, r: Seq<(usize, usize)>, max_gap: usize, a: int, b: int)
    requires
        gaps_found(m, r, max_gap, m.len() as int),
        0 <= a < b < r.len(),
    ensures
        r[a].0 + r[a].1 < r[b].0,
{
    let (s1, l1) = (r[a].0 as int, r[a].1 as int);
    let (s2, l2) = (r[b].0 as int, r[b].1 as int);
    assert(fillable_gap(m, s1, l1, max_gap));
    assert(fillable_gap(m, s2, l2, max_gap));
    assert(s1 < s2);
    if s2 <= s1 + l1 {
        if s2 < s1 + l1 {
            assert(m[s2 - 1]);
        } else {
            assert(m[s2]);
        }
    }
}

} // verus!
