//! Clipping census and restoration hints.
//!
//! A sample counts as clipped when it sits at or above the clip level; the
//! floating-point comparison is made by the caller, which hands over one mark
//! per sample: `0` for an unclipped sample, otherwise the sample's sign.
use vstd::prelude::*;
use vstd::string::StringExecFns;

verus! {

/// Minimum number of consecutive same-sign clipped samples that make a
/// flat-topped run.
pub const CLIP_RUN_MIN: usize = 2;

/// Number of clipped (non-zero) marks in `m`.
pub open spec fn clipped_count(m: Seq<i8>) -> nat
    decreases m.len(),
{
    if m.len() == 0 {
        0
    } else {
        clipped_count(m.drop_last()) + if m.last() != 0 { 1nat } else { 0nat }
    }
}

/// Index `i` holds the second sample of a run of equal non-zero marks: it
/// repeats its predecessor, which itself starts the run. Every maximal run of
/// two or more equal non-zero marks has exactly one such index.
pub open spec fn second_of_run(m: Seq<i8>, i: int) -> bool {
    &&& 1 <= i < m.len()
    &&& m[i] != 0
    &&& m[i - 1] == m[i]
    &&& (i == 1 || m[i - 2] != m[i])
}

/// Number of maximal runs of at least [`CLIP_RUN_MIN`] equal non-zero marks
/// in `m`, each counted at its second sample.
pub open spec fn long_run_count(m: Seq<i8>) -> nat
    decreases m.len(),
{
    if m.len() == 0 {
        0
    } else {
        long_run_count(m.drop_last()) + if second_of_run(m, m.len() - 1) { 1nat } else { 0nat }
    }
}

/// Sum of [`clipped_count`] over the channels.
pub open spec fn total_clipped(ch: Seq<Seq<i8>>) -> nat
    decreases ch.len(),
{
    if ch.len() == 0 {
        0
    } else {
        total_clipped(ch.drop_last()) + clipped_count(ch.last())
    }
}

/// Sum of [`long_run_count`] over the channels.
pub open spec fn total_runs(ch: Seq<Seq<i8>>) -> nat
    decreases ch.len(),
{
    if ch.len() == 0 {
        0
    } else {
        total_runs(ch.drop_last()) + long_run_count(ch.last())
    }
}

/// Sum of the channel lengths.
pub open spec fn total_len(ch: Seq<Seq<i8>>) -> nat
    decreases ch.len(),
{
    if ch.len() == 0 {
        0
    } else {
        total_len(ch.drop_last()) + ch.last().len()
    }
}

/// The views of a vector of mark vectors.
pub open spec fn marks_view(v: Seq<Vec<i8>>) -> Seq<Seq<i8>> {
    v.map_values(|c: Vec<i8>| c@)
}

proof fn lemma_clipped_le_len(m: Seq<i8>)
    ensures
        clipped_count(m) <= m.len(),
        long_run_count(m) <= m.len(),
    decreases m.len(),
{
    if m.len() > 0 {
        lemma_clipped_le_len(m.drop_last());
    }
}

/// Count the clipped samples of one channel and its flat-topped runs.
pub fn clip_runs_channel(marks: &Vec<i8>) -> (r: (usize, usize))
    ensures
        r.0 == clipped_count(marks@),
        r.1 == long_run_count(marks@),
{
    let n = marks.len();
    let mut samples: usize = 0;
    let mut runs: usize = 0;
    let mut i: usize = 0;
    while i < n
        invariant
            n == marks@.len(),
            i <= n,
            samples == clipped_count(marks@.take(i as int)),
            runs == long_run_count(marks@.take(i as int)),
        decreases n - i,
    {
        let ghost pre = marks@.take(i as int);
        let ghost cur = marks@.take(i + 1);
        assert(cur.drop_last() =~= pre);
        proof {
            lemma_clipped_le_len(pre);
        }
        if marks[i] != 0 {
            samples += 1;
            if i >= 1 && marks[i - 1] == marks[i] && (i < 2 || marks[i - 2] != marks[i]) {
                runs += 1;
            }
        }
        assert(second_of_run(cur, i as int) == (marks@[i as int] != 0 && i >= 1 && marks@[i - 1]
            == marks@[i as int] && (i < 2 || marks@[i - 2] != marks@[i as int])));
        i += 1;
    }
    assert(marks@.take(n as int) =~= marks@);
    (samples, runs)
}

/// Count near-full-scale samples and contiguous flat-top runs (same sign,
/// at least [`CLIP_RUN_MIN`] long) over all channels.
pub fn clip_runs(marks: &Vec<Vec<i8>>) -> (r: (usize, usize))
    requires
        total_len(marks_view(marks@)) <= usize::MAX,
    ensures
        r.0 == total_clipped(marks_view(marks@)),
        r.1 == total_runs(marks_view(marks@)),
{
    let mut samples: usize = 0;
    let mut runs: usize = 0;
    let mut c: usize = 0;
    while c < marks.len()
        invariant
            c <= marks.len(),
            total_len(marks_view(marks@)) <= usize::MAX,
            samples == total_clipped(marks_view(marks@).take(c as int)),
            runs == total_runs(marks_view(marks@).take(c as int)),
            samples + (total_len(marks_view(marks@)) - total_len(marks_view(marks@).take(c as int)))
                <= usize::MAX,
            runs + (total_len(marks_view(marks@)) - total_len(marks_view(marks@).take(c as int)))
                <= usize::MAX,
            total_len(marks_view(marks@).take(c as int)) <= total_len(marks_view(marks@)),
        decreases marks.len() - c,
    {
        let ghost all = marks_view(marks@);
        let ghost pre = all.take(c as int);
        let ghost cur = all.take(c + 1);
        assert(cur.drop_last() =~= pre);
        assert(cur.last() == marks@[c as int]@);
        proof {
            lemma_clipped_le_len(marks@[c as int]@);
            lemma_total_len_prefix(all, c + 1);
        }
        let (s, k) = clip_runs_channel(&marks[c]);
        samples += s;
        runs += k;
        c += 1;
    }
    assert(marks_view(marks@).take(marks.len() as int) =~= marks_view(marks@));
    (samples, runs)
}

proof fn lemma_total_len_prefix(all: Seq<Seq<i8>>, k: int)
    requires
        0 <= k <= all.len(),
    ensures
        total_len(all.take(k)) <= total_len(all),
    decreases all.len(),
{
    if k < all.len() {
        assert(all.drop_last().take(k) =~= all.take(k));
        lemma_total_len_prefix(all.drop_last(), k);
    } else {
        assert(all.take(k) =~= all);
    }
}

/// Every flat-topped run holds at least [`CLIP_RUN_MIN`] clipped samples, so a
/// channel never reports more runs than half its clipped samples; an isolated
/// clipped sample is not a run.
pub proof fn lemma_runs_need_two_samples(m: Seq<i8>)
    ensures
        CLIP_RUN_MIN * long_run_count(m) <= clipped_count(m),
{
    lemma_run_budget(m);
}

/// A change of sign (or to or from zero) ends a run: counting the marks in
/// two pieces that meet at such a change gives the counts of the whole.
pub proof fn lemma_runs_split_at_sign_change(a: Seq<i8>, b: Seq<i8>)
    requires
        a.len() > 0,
        b.len() > 0,
        a.last() != b[0],
    ensures
        long_run_count(a + b) == long_run_count(a) + long_run_count(b),
        clipped_count(a + b) == clipped_count(a) + clipped_count(b),
    decreases b.len(),
{
    let ab = a + b;
    if b.len() == 1 {
        assert(ab.drop_last() =~= a);
        assert(!second_of_run(b, 0));
        assert(long_run_count(b.drop_last()) == 0);
        assert(clipped_count(b.drop_last()) == 0);
        assert(!second_of_run(ab, ab.len() - 1));
    } else {
        let b1 = b.drop_last();
        lemma_runs_split_at_sign_change(a, b1);
        assert(ab.drop_last() =~= a + b1);
        let i = b.len() - 1;
        let j = ab.len() - 1;
        assert(ab[j] == b[i]);
        assert(ab[j - 1] == b[i - 1]);
        if i >= 2 {
            assert(ab[j - 2] == b[i - 2]);
        } else {
            assert(ab[j - 2] == a.last());
        }
        assert(second_of_run(ab, j) == second_of_run(b, i));
    }
}

/// A flat top — `k` equal marks — is one run when clipped and at least two
/// samples long, and holds `k` clipped samples when clipped.
pub proof fn lemma_flat_top_is_one_run(x: i8, k: nat)
    ensures
        long_run_count(Seq::new(k, |i: int| x)) == (if x != 0 && k >= 2 { 1nat } else { 0nat }),
        clipped_count(Seq::new(k, |i: int| x)) == (if x != 0 { k } else { 0nat }),
    decreases k,
{
    let m = Seq::new(k, |i: int| x);
    if k > 0 {
        lemma_flat_top_is_one_run(x, (k - 1) as nat);
        assert(m.drop_last() =~= Seq::new((k - 1) as nat, |i: int| x));
        if k >= 3 {
            assert(!second_of_run(m, k - 1));
        }
    }
}

/// The last mark starts a (so far) run of equal non-zero marks.
pub open spec fn ends_on_run_start(m: Seq<i8>) -> bool {
    m.len() >= 1 && m.last() != 0 && (m.len() == 1 || m[m.len() - 2] != m.last())
}

proof fn lemma_run_budget(m: Seq<i8>)
    ensures
        2 * long_run_count(m) + (if ends_on_run_start(m) { 1int } else { 0int }) <= clipped_count(m),
    decreases m.len(),
{
    if m.len() > 0 {
        let p = m.drop_last();
        lemma_run_budget(p);
        if m.len() >= 2 {
            assert(p.last() == m[m.len() - 2]);
        }
        if m.len() >= 3 {
            assert(p[p.len() - 2] == m[m.len() - 3]);
        }
    }
}


/// A failing check that a restoration stage addresses.
#[derive(Debug, Clone, Copy, PartialEq, Eq, Structural)]
pub enum Issue {
    /// Flat-topped runs or a sample peak above full scale.
    Clipping,
    /// Intersample overs with no sample-peak clip.
    TruePeak,
    /// A high noise floor well below the peak.
    Noise,
}

/// The hints, in order: clipping when there is at least one flat-top run or
/// the sample peak is above 0 dBFS, else true-peak when the true peak is above
/// 0 dBTP; then noise when the floor is above the noisy level and the
/// peak-to-floor gap is wide.
pub open spec fn issues_spec(
    clipped_runs: usize,
    sample_peak_over: bool,
    true_peak_over: bool,
    floor_high: bool,
    gap_wide: bool,
) -> Seq<Issue> {
    let first = if clipped_runs > 0 || sample_peak_over {
        seq![Issue::Clipping]
    } else if true_peak_over {
        seq![Issue::TruePeak]
    } else {
        seq![]
    };
    if floor_high && gap_wide {
        first.push(Issue::Noise)
    } else {
        first
    }
}

/// The hint rules: a declip hint exactly when there is a flat-top run or the
/// sample peak is over; a true-peak hint exactly when the true peak is over
/// and there is no declip hint; a denoise hint exactly when the floor is high
/// and the gap to the peak is wide, and then last; no hint twice.
pub proof fn lemma_hint_rules(
    clipped_runs: usize,
    sample_peak_over: bool,
    true_peak_over: bool,
    floor_high: bool,
    gap_wide: bool,
)
    ensures
        ({
            let s = issues_spec(clipped_runs, sample_peak_over, true_peak_over, floor_high, gap_wide);
            &&& s.contains(Issue::Clipping) <==> (clipped_runs > 0 || sample_peak_over)
            &&& s.contains(Issue::TruePeak) <==> (true_peak_over && clipped_runs == 0 && !sample_peak_over)
            &&& s.contains(Issue::Noise) <==> (floor_high && gap_wide)
            &&& s.no_duplicates()
            &&& s.contains(Issue::Noise) ==> s.last() == Issue::Noise
        }),
{
    let s = issues_spec(clipped_runs, sample_peak_over, true_peak_over, floor_high, gap_wide);
    let clip = clipped_runs > 0 || sample_peak_over;
    let tp = true_peak_over && !clip;
    let noise = floor_high && gap_wide;
    if clip {
        assert(s[0] == Issue::Clipping);
    }
    if tp {
        assert(s[0] == Issue::TruePeak);
    }
    if noise {
        assert(s[s.len() - 1] == Issue::Noise);
    }
    assert(s.contains(Issue::Clipping) ==> clip);
    assert(s.contains(Issue::TruePeak) ==> tp);
    assert(s.contains(Issue::Noise) ==> noise);
}

/// Which restoration hints a measurement calls for (see [`issues_spec`]).
/// The level comparisons are made by the caller: `sample_peak_over` is a
/// sample peak above 0 dBFS, `true_peak_over` a true peak above 0 dBTP,
/// `floor_high` a noise floor above −45 dBFS and `gap_wide` a peak-to-floor
/// gap of at least 12 dB.
pub fn suggested_issues(
    clipped_runs: usize,
    sample_peak_over: bool,
    true_peak_over: bool,
    floor_high: bool,
    gap_wide: bool,
) -> (r: Vec<Issue>)
    ensures
        r@ == issues_spec(clipped_runs, sample_peak_over, true_peak_over, floor_high, gap_wide),
        r@.contains(Issue::Clipping) <==> (clipped_runs > 0 || sample_peak_over),
        r@.contains(Issue::TruePeak) <==> (true_peak_over && clipped_runs == 0 && !sample_peak_over),
        r@.contains(Issue::Noise) <==> (floor_high && gap_wide),
        r@.no_duplicates(),
        r@.contains(Issue::Noise) ==> r@.last() == Issue::Noise,
{
    proof {
        lemma_hint_rules(clipped_runs, sample_peak_over, true_peak_over, floor_high, gap_wide);
    }
    let mut out: Vec<Issue> = Vec::new();
    if clipped_runs > 0 || sample_peak_over {
        out.push(Issue::Clipping);
    } else if true_peak_over {
        out.push(Issue::TruePeak);
    }
    if floor_high && gap_wide {
        out.push(Issue::Noise);
    }
    assert(out@ =~= issues_spec(clipped_runs, sample_peak_over, true_peak_over, floor_high, gap_wide));
    out
}

/// A restoration hint derived from measured statistics.
#[derive(Debug, Clone, PartialEq, Eq)]
pub struct Suggestion {
    /// Short issue name (`"clipping"`, `"noise"`, `"true-peak"`).
    pub issue: &'static str,
    /// What was measured and why it matters.
    pub detail: String,
    /// CLI subcommand that addresses it (`"declip"`, `"denoise"`, `"normalize"`).
    pub command: &'static str,
    /// Extra flags after the input path (empty for most commands).
    pub args: &'static str,
}

/// The issue name, command and extra flags of the hint for `issue`.
pub open spec fn hint_words(issue: Issue) -> (Seq<char>, Seq<char>, Seq<char>) {
    match issue {
        Issue::Clipping => ("clipping"@, "declip"@, ""@),
        Issue::TruePeak => ("true-peak"@, "normalize"@, "--true-peak -1"@),
        Issue::Noise => ("noise"@, "denoise"@, ""@),
    }
}

impl Suggestion {
    /// The hint for `issue`, with the measured `detail`.
    pub fn for_issue(issue: Issue, detail: String) -> (s: Suggestion)
        ensures
            (s.issue@, s.command@, s.args@) == hint_words(issue),
            s.detail@ == detail@,
    {
        match issue {
            Issue::Clipping => Suggestion { issue: "clipping", detail, command: "declip", args: "" },
            Issue::TruePeak => Suggestion {
                issue: "true-peak",
                detail,
                command: "normalize",
                args: "--true-peak -1",
            },
            Issue::Noise => Suggestion { issue: "noise", detail, command: "denoise", args: "" },
        }
    }

    /// `cathar <command> <input> [args]`
    pub fn invocation(&self, input: &str) -> (r: String)
        ensures
            r@ == "cathar "@ + self.command@ + " "@ + input@ + if self.args@.len() == 0 {
                Seq::<char>::empty()
            } else {
                " "@ + self.args@
            },
    {
        let mut out = String::from_str("cathar ");
        out.append(self.command);
        out.append(" ");
        out.append(input);
        if !self.args.is_empty() {
            out.append(" ");
            out.append(self.args);
        }
        proof {
            if self.args@.len() == 0 {
                assert(out@ =~= "cathar "@ + self.command@ + " "@ + input@ + Seq::<char>::empty());
            } else {
                assert(out@ =~= "cathar "@ + self.command@ + " "@ + input@ + (" "@ + self.args@));
            }
        }
        out
    }
}

} // verus!
