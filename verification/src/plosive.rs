//! Event selection for the plosive expander.
//!
//! Detected plosive events are `(start, stop)` sample spans in time order. Only
//! isolated events are treated — a burst close to another is speech rhythm,
//! not a pop — and events in a dense neighbourhood are dropped.
use vstd::prelude::*;

verus! {

/// Most events allowed within the density window around an event (itself
/// included).
pub const PLOSIVE_DENSITY_MAX: usize = 6;

/// `a - b`, or 0 when `b >= a`.
pub open spec fn sat_sub(a: usize, b: usize) -> nat {
    if a > b { (a - b) as nat } else { 0 }
}

/// Event `i` has no neighbour closer than `gap` samples: the silence before
/// it (after the previous event's stop) and after it (before the next event's
/// start) are each at least `gap`, where there is such a neighbour.
pub open spec fn isolated(ev: Seq<(usize, usize)>, i: int, gap: usize) -> bool {
    &&& !(i > 0 && sat_sub(ev[i].0, ev[i - 1].1) < gap)
    &&& !(i + 1 < ev.len() && sat_sub(ev[i + 1].0, ev[i].1) < gap)
}

/// The isolated events among the first `k` of `ev`, in order.
pub open spec fn isolated_prefix(ev: Seq<(usize, usize)>, k: int, gap: usize) -> Seq<(usize, usize)>
    decreases k,
{
    if k <= 0 {
        seq![]
    } else {
        let rest = isolated_prefix(ev, k - 1, gap);
        if isolated(ev, k - 1, gap) { rest.push(ev[k - 1]) } else { rest }
    }
}

/// Keep only the events with no neighbour closer than `gap` samples (see
/// [`isolated`]), in order.
pub fn isolate_plosives(events: &Vec<(usize, usize)>, gap: usize) -> (r: Vec<(usize, usize)>)
    ensures
        r@ == isolated_prefix(events@, events@.len() as int, gap),
        forall|q: int| #![trigger r@[q]] 0 <= q < r@.len() ==> exists|j: int| {
            &&& 0 <= j < events@.len()
            &&& r@[q] == #[trigger] events@[j]
            &&& (j == 0 || gap == 0 || events@[j].0 >= events@[j - 1].1 + gap)
            &&& (j + 1 == events@.len() || gap == 0 || events@[j + 1].0 >= events@[j].1 + gap)
        },
        forall|j: int| 0 <= j < events@.len()
            && (j == 0 || gap == 0 || events@[j].0 >= events@[j - 1].1 + gap)
            && (j + 1 == events@.len() || gap == 0 || events@[j + 1].0 >= events@[j].1 + gap)
            ==> #[trigger] r@.contains(events@[j]),
{
    proof {
        lemma_isolation_law(events@, gap);
    }
    let n = events.len();
    let mut kept: Vec<(usize, usize)> = Vec::new();
    let mut i: usize = 0;
    while i < n
        invariant
            n == events@.len(),
            i <= n,
            kept@ == isolated_prefix(events@, i as int, gap),
        decreases n - i,
    {
        let (start, stop) = events[i];
        let prev_close = i > 0 && start.saturating_sub(events[i - 1].1) < gap;
        let next_close = i + 1 < n && events[i + 1].0.saturating_sub(stop) < gap;
        if !prev_close && !next_close {
            kept.push((start, stop));
        }
        i += 1;
    }
    kept
}

proof fn lemma_isolated_prefix_members(ev: Seq<(usize, usize)>, k: int, gap: usize)
    requires
        0 <= k <= ev.len(),
    ensures
        forall|q: int| #![trigger isolated_prefix(ev, k, gap)[q]] 0 <= q < isolated_prefix(ev, k, gap).len() ==> exists|j: int|
            0 <= j < k && isolated_prefix(ev, k, gap)[q] == #[trigger] ev[j] && isolated(ev, j, gap),
        forall|j: int| 0 <= j < k && isolated(ev, j, gap) ==> #[trigger] isolated_prefix(ev, k, gap).contains(ev[j]),
    decreases k,
{
    if k > 0 {
        lemma_isolated_prefix_members(ev, k - 1, gap);
        let rest = isolated_prefix(ev, k - 1, gap);
        let cur = isolated_prefix(ev, k, gap);
        if isolated(ev, k - 1, gap) {
            assert(cur == rest.push(ev[k - 1]));
        } else {
            assert(cur == rest);
        }
        assert forall|q: int| #![trigger cur[q]] 0 <= q < cur.len() implies exists|j: int|
            0 <= j < k && cur[q] == #[trigger] ev[j] && isolated(ev, j, gap) by {
            if q < rest.len() {
                assert(cur[q] == rest[q]);
            } else {
                assert(cur[q] == ev[k - 1]);
            }
        }
        assert forall|j: int| 0 <= j < k && isolated(ev, j, gap) implies #[trigger] cur.contains(ev[j]) by {
            if j < k - 1 {
                assert(rest.contains(ev[j]));
                let q = choose|q: int| 0 <= q < rest.len() && rest[q] == ev[j];
                assert(cur[q] == ev[j]);
            } else {
                assert(cur[cur.len() - 1] == ev[j]);
            }
        }
    }
}

proof fn lemma_isolated_plain(ev: Seq<(usize, usize)>, j: int, gap: usize)
    requires
        0 <= j < ev.len(),
    ensures
        isolated(ev, j, gap) == ((j == 0 || gap == 0 || ev[j].0 >= ev[j - 1].1 + gap)
            && (j + 1 == ev.len() || gap == 0 || ev[j + 1].0 >= ev[j].1 + gap)),
{
}

/// Isolation in plain terms: every kept event is an input event with at
/// least `gap` samples of silence between the previous event's stop and its
/// start, and between its stop and the next event's start (where there is
/// such a neighbour); and every input event with that much silence on both
/// sides is kept.
#[verifier::rlimit(50)]
#[verifier::spinoff_prover]
pub proof fn lemma_isolation_law(ev: Seq<(usize, usize)>, gap: usize)
    ensures
        forall|q: int| #![trigger isolated_prefix(ev, ev.len() as int, gap)[q]]
            0 <= q < isolated_prefix(ev, ev.len() as int, gap).len() ==> exists|j: int| {
            &&& 0 <= j < ev.len()
            &&& isolated_prefix(ev, ev.len() as int, gap)[q] == #[trigger] ev[j]
            &&& (j == 0 || gap == 0 || ev[j].0 >= ev[j - 1].1 + gap)
            &&& (j + 1 == ev.len() || gap == 0 || ev[j + 1].0 >= ev[j].1 + gap)
        },
        forall|j: int| 0 <= j < ev.len()
            && (j == 0 || gap == 0 || ev[j].0 >= ev[j - 1].1 + gap)
            && (j + 1 == ev.len() || gap == 0 || ev[j + 1].0 >= ev[j].1 + gap)
            ==> #[trigger] isolated_prefix(ev, ev.len() as int, gap).contains(ev[j]),
{
    let n = ev.len() as int;
    lemma_isolated_prefix_members(ev, n, gap);
    let r = isolated_prefix(ev, n, gap);
    assert forall|q: int| #![trigger r[q]] 0 <= q < r.len() implies exists|j: int| {
        &&& 0 <= j < ev.len()
        &&& r[q] == #[trigger] ev[j]
        &&& (j == 0 || gap == 0 || ev[j].0 >= ev[j - 1].1 + gap)
        &&& (j + 1 == ev.len() || gap == 0 || ev[j + 1].0 >= ev[j].1 + gap)
    } by {
        let j = choose|j: int| 0 <= j < n && r[q] == #[trigger] ev[j] && isolated(ev, j, gap);
        lemma_isolated_plain(ev, j, gap);
    }
    assert forall|j: int| 0 <= j < ev.len()
        && (j == 0 || gap == 0 || ev[j].0 >= ev[j - 1].1 + gap)
        && (j + 1 == ev.len() || gap == 0 || ev[j + 1].0 >= ev[j].1 + gap)
        implies #[trigger] r.contains(ev[j]) by {
        lemma_isolated_plain(ev, j, gap);
    }
}

/// Number of events among the first `k` of `ev` whose start lies within
/// `half` samples of `start`.
pub open spec fn neighbours(ev: Seq<(usize, usize)>, k: int, start: usize, half: usize) -> nat
    decreases k,
{
    if k <= 0 {
        0
    } else {
        neighbours(ev, k - 1, start, half) + if ev[k - 1].0 <= start + half && start <= ev[k - 1].0 + half {
            1nat
        } else {
            0nat
        }
    }
}

/// The events among the first `k` of `ev` with at most
/// [`PLOSIVE_DENSITY_MAX`] events (itself included) starting within `half`
/// samples of their own start, in order.
pub open spec fn sparse_prefix(ev: Seq<(usize, usize)>, k: int, half: usize) -> Seq<(usize, usize)>
    decreases k,
{
    if k <= 0 {
        seq![]
    } else {
        let rest = sparse_prefix(ev, k - 1, half);
        if neighbours(ev, ev.len() as int, ev[k - 1].0, half) <= PLOSIVE_DENSITY_MAX {
            rest.push(ev[k - 1])
        } else {
            rest
        }
    }
}

proof fn lemma_neighbours_le(ev: Seq<(usize, usize)>, k: int, start: usize, half: usize)
    requires
        0 <= k,
    ensures
        neighbours(ev, k, start, half) <= k,
    decreases k,
{
    if k > 0 {
        lemma_neighbours_le(ev, k - 1, start, half);
    }
}

/// Count the events whose start lies within `half` samples of `start`.
fn count_neighbours(events: &Vec<(usize, usize)>, start: usize, half: usize) -> (r: usize)
    ensures
        r == neighbours(events@, events@.len() as int, start, half),
{
    let n = events.len();
    let mut count: usize = 0;
    let mut j: usize = 0;
    while j < n
        invariant
            n == events@.len(),
            j <= n,
            count == neighbours(events@, j as int, start, half),
        decreases n - j,
    {
        proof {
            lemma_neighbours_le(events@, j as int, start, half);
        }
        let s = events[j].0;
        let close = if s >= start { s - start <= half } else { start - s <= half };
        if close {
            count += 1;
        }
        j += 1;
    }
    count
}

/// Drop rhythmic events: keep an event only when at most
/// [`PLOSIVE_DENSITY_MAX`] events (itself included) start within `half`
/// samples of its start (see [`sparse_prefix`]).
pub fn unrhythmic_plosives(events: &Vec<(usize, usize)>, half: usize) -> (r: Vec<(usize, usize)>)
    ensures
        r@ == sparse_prefix(events@, events@.len() as int, half),
{
    let n = events.len();
    let mut kept: Vec<(usize, usize)> = Vec::new();
    let mut i: usize = 0;
    while i < n
        invariant
            n == events@.len(),
            i <= n,
            kept@ == sparse_prefix(events@, i as int, half),
        decreases n - i,
    {
        let (start, stop) = events[i];
        if count_neighbours(events, start, half) <= PLOSIVE_DENSITY_MAX {
            kept.push((start, stop));
        }
        i += 1;
    }
    kept
}

} // verus!
