//! The scan that finds clicks and the spans to redraw.
//!
//! A sample is an impulse when it stands more than a threshold above the
//! local RMS; that floating-point test is made by the caller, one mark per
//! sample. The scan here turns the marks into repairs: each contiguous run of
//! impulses, padded by a few reliable shoulder samples, becomes one span.
use vstd::prelude::*;

verus! {

/// A span `[start, end)` to redraw. An interior span has reliable samples on
/// both sides and is reconstructed with the chosen method; an edge span
/// (touching the start or end of the signal) is always redrawn with a cubic
/// curve from `start` to `end - 1`.
#[derive(Debug, Clone, Copy, PartialEq, Eq, Structural)]
pub struct ClickRepair {
    /// First sample of the span.
    pub start: usize,
    /// One past the last sample of the span.
    pub end: usize,
    /// The span lies strictly inside the signal.
    pub interior: bool,
}

/// Start of the impulse run through `s`: walk left while the previous sample
/// is an impulse and stays past the first `half` samples.
pub open spec fn run_start(m: Seq<bool>, half: int, s: int) -> int
    decreases s,
{
    if s > half && 0 < s <= m.len() && m[s - 1] { run_start(m, half, s - 1) } else { s }
}

/// End (exclusive) of the impulse run from `e`: walk right while the sample
/// is an impulse and leaves `half` samples of analysis window after it.
pub open spec fn run_end(m: Seq<bool>, half: int, e: int) -> int
    decreases m.len() - e,
{
    if 0 <= e < m.len() && e + half < m.len() && m[e] { run_end(m, half, e + 1) } else { e }
}

/// Shoulder padding: `half` clamped to `2..=8`.
pub open spec fn shoulder(half: int) -> int {
    if half < 2 { 2 } else if half > 8 { 8 } else { half }
}

/// The repair for the run `[s, e)`: padded by [`shoulder`] on both sides
/// within the signal; interior when at least two samples long and clear of
/// both ends, otherwise an edge curve when longer than two samples, otherwise
/// none.
pub open spec fn repair_for(n: int, half: int, s: int, e: int) -> Seq<ClickRepair> {
    let pad = shoulder(half);
    let gs = if s > pad { s - pad } else { 0 };
    let ge = if e + pad < n { e + pad } else { n };
    let gl = if ge > gs { ge - gs } else { 0 };
    if gl >= 2 && gs > 0 && ge < n {
        seq![ClickRepair { start: gs as usize, end: ge as usize, interior: true }]
    } else if ge > gs + 2 {
        seq![ClickRepair { start: gs as usize, end: ge as usize, interior: false }]
    } else {
        seq![]
    }
}

/// The repairs found scanning from sample `i`: positions whose analysis
/// window fits (`i + half < n`) are examined in order; at an impulse the run
/// through it is repaired and the scan resumes `half - 1` samples past the
/// run (at least one sample on).
pub open spec fn click_plan_from(m: Seq<bool>, half: int, i: int) -> Seq<ClickRepair>
    decreases m.len() - i,
{
    if half < 1 || i < 0 || i + half >= m.len() {
        seq![]
    } else if m[i] {
        let s = run_start(m, half, i);
        let e = run_end(m, half, i + 1);
        let next = (if e > i + 1 { e } else { i + 1 }) + half - 1;
        let rest = if i < next < m.len() { click_plan_from(m, half, next) } else { seq![] };
        repair_for(m.len() as int, half, s, e) + rest
    } else {
        click_plan_from(m, half, i + 1)
    }
}

/// The repairs for impulse marks `marks` with a local-RMS window of `window`
/// samples: none when the half-window is empty or the signal is no longer
/// than the window; otherwise the scan of [`click_plan_from`] from the first
/// position with a full half-window before it.
pub open spec fn click_plan(marks: Seq<bool>, window: usize) -> Seq<ClickRepair> {
    let half = (window / 2) as int;
    if half == 0 || marks.len() <= window { seq![] } else { click_plan_from(marks, half, half) }
}

proof fn lemma_run_end_bounds(m: Seq<bool>, half: int, e: int)
    requires
        0 <= e,
        e + half <= m.len(),
    ensures
        e <= run_end(m, half, e),
        run_end(m, half, e) + half <= m.len(),
    decreases m.len() - e,
{
    if 0 <= e < m.len() && e + half < m.len() && m[e] {
        lemma_run_end_bounds(m, half, e + 1);
    }
}

/// Plan the click repairs for impulse marks (see [`click_plan`]).
pub fn declick_plan(marks: &Vec<bool>, window: usize) -> (r: Vec<ClickRepair>)
    ensures
        r@ == click_plan(marks@, window),
        spans_inside(r@, marks@.len() as int),
        plan_covers_runs(marks@, (window / 2) as int, r@),
{
    proof {
        assert(marks@.len() == marks.len());
        lemma_click_plan_inside(marks@, window);
        lemma_click_plan_covers_runs(marks@, window);
    }
    let n = marks.len();
    let half = window / 2;
    let mut out: Vec<ClickRepair> = Vec::new();
    if half == 0 || n <= window {
        return out;
    }
    let ghost m = marks@;
    let ghost h = half as int;
    let mut i = half;
    while i < n - half
        invariant
            n == m.len(),
            m == marks@,
            h == half as int,
            1 <= half,
            half <= i <= n,
            n > 2 * half,
            out@ + click_plan_from(m, h, i as int) == click_plan_from(m, h, h),
        decreases n - i,
    {
        if marks[i] {
            let mut start = i;
            while start > half && marks[start - 1]
                invariant
                    n == m.len(),
                    m == marks@,
                    h == half as int,
                    half <= start <= i < n,
                    run_start(m, h, start as int) == run_start(m, h, i as int),
                decreases start,
            {
                start -= 1;
            }
            let mut end = i + 1;
            while end < n - half && marks[end]
                invariant
                    n == m.len(),
                    m == marks@,
                    h == half as int,
                    i + 1 <= end,
                    end + half <= n,
                    run_end(m, h, end as int) == run_end(m, h, (i + 1) as int),
                decreases n - end,
            {
                end += 1;
            }
            let pad: usize = if half < 2 { 2 } else if half > 8 { 8 } else { half };
            let gap_start: usize = if start > pad { start - pad } else { 0 };
            let gap_end: usize = if end <= n - pad { end + pad } else { n };
            let gap_len: usize = if gap_end > gap_start { gap_end - gap_start } else { 0 };
            let ghost before = out@;
            if gap_len >= 2 && gap_start > 0 && gap_end < n {
                out.push(ClickRepair { start: gap_start, end: gap_end, interior: true });
            } else if gap_end > gap_start + 2 {
                out.push(ClickRepair { start: gap_start, end: gap_end, interior: false });
            }
            let next = (if end > i + 1 { end } else { i + 1 }) + half - 1;
            proof {
                lemma_run_end_bounds(m, h, (i + 1) as int);
                let s = run_start(m, h, i as int);
                let e = run_end(m, h, (i + 1) as int);
                assert(start == s);
                assert(end == e);
                assert(out@ =~= before + repair_for(n as int, h, s, e));
                assert(click_plan_from(m, h, i as int) == repair_for(n as int, h, s, e)
                    + click_plan_from(m, h, next as int));
                assert(out@ + click_plan_from(m, h, next as int) =~= before + click_plan_from(m, h, i as int));
            }
            i = next;
        } else {
            i += 1;
        }
    }
    assert(click_plan_from(m, h, i as int) =~= Seq::<ClickRepair>::empty());
    assert(out@ =~= click_plan_from(m, h, h));
    out
}

/// Every repair of `plan` is a non-empty span inside a signal of `n`
/// samples, and an interior one has samples on both sides of it.
pub open spec fn spans_inside(plan: Seq<ClickRepair>, n: int) -> bool {
    forall|k: int| 0 <= k < plan.len() ==> {
        let c = #[trigger] plan[k];
        &&& c.start < c.end <= n
        &&& c.interior ==> 0 < c.start && c.end < n
    }
}

proof fn lemma_plan_from_inside(m: Seq<bool>, half: int, i: int)
    requires
        m.len() <= usize::MAX,
    ensures
        spans_inside(click_plan_from(m, half, i), m.len() as int),
    decreases m.len() - i,
{
    let n = m.len() as int;
    if half < 1 || i < 0 || i + half >= n {
    } else if m[i] {
        let s = run_start(m, half, i);
        let e = run_end(m, half, i + 1);
        let next = (if e > i + 1 { e } else { i + 1 }) + half - 1;
        if i < next < n {
            lemma_plan_from_inside(m, half, next);
        }
        let rest = if i < next < n { click_plan_from(m, half, next) } else { seq![] };
        let head = repair_for(n, half, s, e);
        assert(spans_inside(head, n));
        assert(click_plan_from(m, half, i) =~= head + rest);
        assert forall|k: int| 0 <= k < head.len() + rest.len() implies {
            let c = #[trigger] (head + rest)[k];
            &&& c.start < c.end <= n
            &&& c.interior ==> 0 < c.start && c.end < n
        } by {
            if k >= head.len() {
                assert((head + rest)[k] == rest[k - head.len()]);
            } else {
                assert((head + rest)[k] == head[k]);
            }
        }
    } else {
        lemma_plan_from_inside(m, half, i + 1);
    }
}

/// The planned repairs stay inside the signal: each span is non-empty and
/// ends by the last sample, and an interior span has a reliable sample on
/// each side, so the reconstruction can read both neighbours.
pub proof fn lemma_click_plan_inside(marks: Seq<bool>, window: usize)
    requires
        marks.len() <= usize::MAX,
    ensures
        spans_inside(click_plan(marks, window), marks.len() as int),
{
    let half = (window / 2) as int;
    if !(half == 0 || marks.len() <= window) {
        lemma_plan_from_inside(marks, half, half);
    }
}

/// Every sample from `i` to `t` (either way round) is marked.
pub open spec fn marked_between(m: Seq<bool>, i: int, t: int) -> bool {
    forall|u: int| (i <= u <= t || t <= u <= i) ==> #[trigger] m[u]
}

/// Repair `c` was planned at the marked sample `i` of the scanned region
/// (`half <= i`, `i + half < n`) and covers the whole stretch of marked
/// samples through `i` that lies in that region.
pub open spec fn covers_run_through(m: Seq<bool>, half: int, c: ClickRepair, i: int) -> bool {
    &&& half <= i
    &&& i + half < m.len()
    &&& m[i]
    &&& c.start <= i < c.end
    &&& forall|t: int| half <= t && t + half < m.len() && #[trigger] marked_between(m, i, t)
        ==> c.start <= t < c.end
}

/// Every repair of `plan` covers the marked stretch it was planned at (see
/// [`covers_run_through`]).
pub open spec fn plan_covers_runs(m: Seq<bool>, half: int, plan: Seq<ClickRepair>) -> bool {
    forall|k: int| 0 <= k < plan.len() ==> #[trigger] covers_some_run(m, half, plan[k])
}

/// Repair `c` covers the marked stretch through some marked sample of the
/// scanned region (see [`covers_run_through`]).
pub open spec fn covers_some_run(m: Seq<bool>, half: int, c: ClickRepair) -> bool {
    exists|p: int| #[trigger] covers_run_through(m, half, c, p)
}

proof fn lemma_run_start_reaches(m: Seq<bool>, half: int, s: int, t: int)
    requires
        0 <= half <= t <= s <= m.len(),
        forall|u: int| t <= u < s ==> #[trigger] m[u],
    ensures
        run_start(m, half, s) <= t,
    decreases s,
{
    if s > t {
        assert(m[s - 1]);
        lemma_run_start_reaches(m, half, s - 1, t);
    } else {
        lemma_run_start_le(m, half, s);
    }
}

proof fn lemma_run_start_le(m: Seq<bool>, half: int, s: int)
    requires
        0 <= s,
    ensures
        run_start(m, half, s) <= s,
    decreases s,
{
    if s > half && 0 < s <= m.len() && m[s - 1] {
        lemma_run_start_le(m, half, s - 1);
    }
}

proof fn lemma_run_end_reaches(m: Seq<bool>, half: int, e: int, t: int)
    requires
        0 <= e <= t,
        0 <= half,
        t + half < m.len(),
        forall|u: int| e <= u <= t ==> #[trigger] m[u],
    ensures
        run_end(m, half, e) > t,
    decreases m.len() - e,
{
    assert(m[e]);
    if e < t {
        lemma_run_end_reaches(m, half, e + 1, t);
    } else {
        lemma_run_end_bounds(m, half, e + 1);
    }
}

proof fn lemma_cover_witness(m: Seq<bool>, half: int, i: int, k: int) -> (p: int)
    requires
        m.len() <= usize::MAX,
        1 <= half <= i,
        0 <= k < click_plan_from(m, half, i).len(),
    ensures
        covers_run_through(m, half, click_plan_from(m, half, i)[k], p),
    decreases m.len() - i,
{
    let n = m.len() as int;
    if m[i] {
        let s = run_start(m, half, i);
        let e = run_end(m, half, i + 1);
        let next = (if e > i + 1 { e } else { i + 1 }) + half - 1;
        let rest = if i < next < n { click_plan_from(m, half, next) } else { seq![] };
        let head = repair_for(n, half, s, e);
        let all = click_plan_from(m, half, i);
        assert(all =~= head + rest);
        if k < head.len() {
            lemma_run_end_bounds(m, half, i + 1);
            let c = head[0];
            assert(all[k] == c);
            lemma_run_start_reaches(m, half, i, i);
            let pad = shoulder(half);
            assert(c.start as int == (if s > pad { s - pad } else { 0 }));
            assert(c.end as int == (if e + pad < n { e + pad } else { n }));
            assert forall|t: int| half <= t && t + half < n && #[trigger] marked_between(m, i, t)
                implies c.start <= t < c.end by {
                if t <= i {
                    assert forall|u: int| t <= u < i implies #[trigger] m[u] by {
                        assert(marked_between(m, i, t));
                    }
                    lemma_run_start_reaches(m, half, i, t);
                } else {
                    assert forall|u: int| i + 1 <= u <= t implies #[trigger] m[u] by {
                        assert(marked_between(m, i, t));
                    }
                    lemma_run_end_reaches(m, half, i + 1, t);
                }
            }
            i
        } else {
            assert(all[k] == rest[k - head.len()]);
            assert(i < next < n);
            lemma_cover_witness(m, half, next, k - head.len())
        }
    } else {
        assert(click_plan_from(m, half, i) == click_plan_from(m, half, i + 1));
        lemma_cover_witness(m, half, i + 1, k)
    }
}

/// Every planned repair covers a whole impulse: it was planned at a marked
/// sample of the scanned region (at least `window / 2` samples from either
/// end), and every marked sample joined to that one by marked samples, within
/// the region, lies inside the repaired span — a multi-sample pop is repaired
/// as one span, not cut short.
pub proof fn lemma_click_plan_covers_runs(marks: Seq<bool>, window: usize)
    requires
        marks.len() <= usize::MAX,
    ensures
        plan_covers_runs(marks, (window / 2) as int, click_plan(marks, window)),
{
    let half = (window / 2) as int;
    let plan = click_plan(marks, window);
    if !(half == 0 || marks.len() <= window) {
        assert(plan == click_plan_from(marks, half, half));
        assert forall|k: int| 0 <= k < plan.len() implies #[trigger] covers_some_run(marks, half, plan[k]) by {
            let p = lemma_cover_witness(marks, half, half, k);
            assert(covers_run_through(marks, half, plan[k], p));
        }
    } else {
        assert(plan.len() == 0);
    }
}

} // verus!
