//! Editing operations on sample buffers: trim, pad, reverse, channel
//! selection, and the sample ranges of silence stripping and voice detection.
//!
//! Durations arrive as sample counts (the caller converts seconds at the
//! sample rate); loudness arrives as one mark per sample, `true` where the
//! sample's magnitude is above the threshold.
use vstd::prelude::*;
use crate::buffer::{AudioData, channels_view, copy_samples};

verus! {

/// The samples `[start', end')` of a trim, with `start' = min(start, n)` and
/// `end' = min(start' + len, n)`; `None` when that is empty.
pub open spec fn trim_spec<S>(s: Seq<S>, start: usize, len: usize) -> Option<Seq<S>> {
    let n = s.len() as int;
    let a = if start < n { start as int } else { n };
    let b = if a + len < n { a + len } else { n };
    if b <= a { None } else { Some(s.subrange(a, b)) }
}

/// Extract `len` samples from `start` (both clamped to the signal); `None`
/// when the slice is empty.
pub fn trim_samples<S: Copy>(signal: &Vec<S>, start: usize, len: usize) -> (r: Option<Vec<S>>)
    requires
        (if start < signal@.len() { start as int } else { signal@.len() as int }) + len <= usize::MAX,
    ensures
        match r {
            Some(v) => trim_spec(signal@, start, len) == Some(v@),
            None => trim_spec(signal@, start, len) is None,
        },
{
    let n = signal.len();
    let a = if start < n { start } else { n };
    let b = if a + len < n { a + len } else { n };
    if b <= a {
        return None;
    }
    let mut out: Vec<S> = Vec::new();
    let mut i = a;
    while i < b
        invariant
            a <= i <= b <= n,
            n == signal@.len(),
            out@ == signal@.subrange(a as int, i as int),
        decreases b - i,
    {
        out.push(signal[i]);
        i += 1;
        assert(out@ =~= signal@.subrange(a as int, i as int));
    }
    Some(out)
}

/// Pad with `prepend` copies of `silence` before and `append` after.
pub fn pad_samples<S: Copy>(signal: &Vec<S>, silence: S, prepend: usize, append: usize) -> (r: Vec<S>)
    requires
        prepend + signal@.len() + append <= usize::MAX,
    ensures
        r@ == Seq::new(prepend as nat, |i: int| silence) + signal@ + Seq::new(append as nat, |i: int| silence),
{
    let mut out: Vec<S> = Vec::new();
    let mut i: usize = 0;
    while i < prepend
        invariant
            i <= prepend,
            out@ == Seq::new(i as nat, |j: int| silence),
        decreases prepend - i,
    {
        out.push(silence);
        i += 1;
        assert(out@ =~= Seq::new(i as nat, |j: int| silence));
    }
    let ghost head = out@;
    let mut k: usize = 0;
    while k < signal.len()
        invariant
            k <= signal.len(),
            out@ == head + signal@.take(k as int),
        decreases signal.len() - k,
    {
        out.push(signal[k]);
        k += 1;
        assert(out@ =~= head + signal@.take(k as int));
    }
    assert(signal@.take(signal.len() as int) =~= signal@);
    let ghost mid = out@;
    let mut j: usize = 0;
    while j < append
        invariant
            j <= append,
            out@ == mid + Seq::new(j as nat, |t: int| silence),
        decreases append - j,
    {
        out.push(silence);
        j += 1;
        assert(out@ =~= mid + Seq::new(j as nat, |t: int| silence));
    }
    out
}

/// Reverse a signal in time.
pub fn reverse<S: Copy>(signal: &Vec<S>) -> (r: Vec<S>)
    ensures
        r@ == signal@.reverse(),
{
    let n = signal.len();
    let mut out: Vec<S> = Vec::new();
    let mut i: usize = 0;
    while i < n
        invariant
            n == signal@.len(),
            i <= n,
            out@ == signal@.reverse().take(i as int),
        decreases n - i,
    {
        out.push(signal[n - 1 - i]);
        i += 1;
        assert(out@ =~= signal@.reverse().take(i as int));
    }
    assert(signal@.reverse().take(n as int) =~= signal@.reverse());
    out
}

/// The channels named by the first `k` indices, skipping indices with no
/// channel.
pub open spec fn selected<S>(ch: Seq<Seq<S>>, idx: Seq<usize>, k: int) -> Seq<Seq<S>>
    decreases k,
{
    if k <= 0 {
        seq![]
    } else {
        let rest = selected(ch, idx, k - 1);
        if idx[k - 1] < ch.len() { rest.push(ch[idx[k - 1] as int]) } else { rest }
    }
}

/// Select a subset of channels by index, in the order given; indices with no
/// channel are skipped.
pub fn select_channels<S: Copy>(channels: &Vec<Vec<S>>, indices: &Vec<usize>) -> (r: Vec<Vec<S>>)
    ensures
        channels_view(r@) == selected(channels_view(channels@), indices@, indices@.len() as int),
{
    let mut out: Vec<Vec<S>> = Vec::new();
    let mut k: usize = 0;
    while k < indices.len()
        invariant
            k <= indices.len(),
            channels_view(out@) == selected(channels_view(channels@), indices@, k as int),
        decreases indices.len() - k,
    {
        let i = indices[k];
        if i < channels.len() {
            let c = copy_samples(&channels[i]);
            let ghost before = out@;
            out.push(c);
            assert(channels_view(out@) =~= channels_view(before).push(channels@[i as int]@));
        }
        k += 1;
    }
    out
}

impl<S: Copy> AudioData<S> {
    /// Reverse all channels.
    pub fn reverse(&self) -> (a: AudioData<S>)
        ensures
            a.sample_rate == self.sample_rate,
            a.channel_seqs().len() == self.channel_seqs().len(),
            forall|c: int| 0 <= c < a.channel_seqs().len() ==> #[trigger] a.channel_seqs()[c]
                == self.channel_seqs()[c].reverse(),
    {
        let mut ch: Vec<Vec<S>> = Vec::new();
        let mut c: usize = 0;
        while c < self.channels.len()
            invariant
                c <= self.channels.len(),
                ch@.len() == c,
                forall|d: int| 0 <= d < c ==> #[trigger] ch@[d]@ == self.channels@[d]@.reverse(),
            decreases self.channels.len() - c,
        {
            ch.push(reverse(&self.channels[c]));
            c += 1;
        }
        AudioData { sample_rate: self.sample_rate, channels: ch }
    }
}

/// No sample before `f` is loud and `f` is: `f` is the first loud sample.
pub open spec fn first_loud(m: Seq<bool>, f: int) -> bool {
    0 <= f < m.len() && m[f] && forall|j: int| 0 <= j < f ==> !#[trigger] m[j]
}

/// `l` is the last loud sample.
pub open spec fn last_loud(m: Seq<bool>, l: int) -> bool {
    0 <= l < m.len() && m[l] && forall|j: int| l < j < m.len() ==> !#[trigger] m[j]
}

/// The kept range of silence stripping: from `min_silent` samples before the
/// first loud sample to `min_silent` samples after the last (clamped to the
/// signal); `None` when no sample is loud (the output is then all silence of
/// the input's length).
pub fn strip_range(loud: &Vec<bool>, min_silent: usize) -> (r: Option<(usize, usize)>)
    requires
        loud@.len() + min_silent < usize::MAX,
    ensures
        match r {
            None => forall|j: int| 0 <= j < loud@.len() ==> !#[trigger] loud@[j],
            Some((s, e)) => exists|f: int, l: int|
                #[trigger] first_loud(loud@, f) && #[trigger] last_loud(loud@, l) && s == (if f > min_silent {
                    f - min_silent
                } else {
                    0
                }) && e == (if l + min_silent + 1 < loud@.len() { l + min_silent + 1 } else { loud@.len() as int }),
        },
{
    let n = loud.len();
    let mut f: usize = 0;
    while f < n && !loud[f]
        invariant
            f <= n == loud@.len(),
            forall|j: int| 0 <= j < f ==> !#[trigger] loud@[j],
        decreases n - f,
    {
        f += 1;
    }
    if f == n {
        return None;
    }
    let mut l: usize = n - 1;
    while !loud[l]
        invariant
            f <= l < n == loud@.len(),
            loud@[f as int],
            forall|j: int| l < j < n ==> !#[trigger] loud@[j],
        decreases l,
    {
        l -= 1;
    }
    let s = if f > min_silent { f - min_silent } else { 0 };
    let e = if l + min_silent + 1 < n { l + min_silent + 1 } else { n };
    assert(first_loud(loud@, f as int) && last_loud(loud@, l as int));
    Some((s, e))
}

/// `[a, b]` are all loud.
pub open spec fn all_loud(m: Seq<bool>, a: int, b: int) -> bool {
    forall|j: int| a <= j <= b ==> #[trigger] m[j]
}

/// Position `i` closes the first loud stretch of more than `min` samples:
/// samples `i - min ..= i` are loud and no earlier position does so.
pub open spec fn first_long_run_end(m: Seq<bool>, min: int, i: int) -> bool {
    &&& min <= i < m.len()
    &&& all_loud(m, i - min, i)
    &&& forall|k: int| min <= k < i ==> !#[trigger] all_loud(m, k - min, k)
}

/// The voice segment of voice-activity detection, as sample positions: the
/// first loud run that lasts more than `min_samples` samples, from where the
/// run starts to its last loud sample. `None` when no run is that long.
pub fn voice_segment(loud: &Vec<bool>, min_samples: usize) -> (r: Option<(usize, usize)>)
    ensures
        match r {
            None => forall|k: int| min_samples <= k < loud@.len() ==> !#[trigger] all_loud(loud@, k - min_samples, k),
            Some((s, e)) => exists|i: int|
                #[trigger] first_long_run_end(loud@, min_samples as int, i) && s <= i - min_samples && all_loud(loud@, s as int, i)
                    && (s == 0 || !loud@[s - 1]) && i <= e < loud@.len() && all_loud(loud@, i, e as int)
                    && (e + 1 == loud@.len() || !loud@[e + 1]),
        },
{
    let n = loud.len();
    let mut run_start: Option<usize> = None;
    let mut i: usize = 0;
    while i < n
        invariant
            n == loud@.len(),
            i <= n,
            match run_start {
                None => i == 0 || !loud@[i - 1],
                Some(rs) => rs < i && all_loud(loud@, rs as int, i - 1) && (rs == 0 || !loud@[rs - 1])
                    && i - rs <= min_samples,
            },
            forall|k: int| min_samples <= k < i ==> !#[trigger] all_loud(loud@, k - min_samples, k),
        decreases n - i,
    {
        if loud[i] {
            let rs = match run_start {
                Some(r) => r,
                None => i,
            };
            if i - rs >= min_samples {
                assert(all_loud(loud@, i - min_samples, i as int));
                assert(first_long_run_end(loud@, min_samples as int, i as int));
                let mut end = i;
                let mut j = i + 1;
                while j < n && loud[j]
                    invariant
                        n == loud@.len(),
                        i < j <= n,
                        end == j - 1,
                        all_loud(loud@, i as int, end as int),
                    decreases n - j,
                {
                    end = j;
                    j += 1;
                }
                return Some((rs, end));
            }
            proof {
                assert forall|k: int| min_samples <= k < i + 1 implies !#[trigger] all_loud(loud@, k - min_samples, k) by {
                    if k == i {
                        assert(!loud@[rs - 1]);
                    }
                }
            }
            run_start = Some(rs);
        } else {
            proof {
                assert forall|k: int| min_samples <= k < i + 1 implies !#[trigger] all_loud(loud@, k - min_samples, k) by {
                    if k == i {
                        assert(!loud@[i as int]);
                    }
                }
            }
            run_start = None;
        }
        i += 1;
    }
    None
}

/// Reversing twice gives the signal back.
pub proof fn lemma_reverse_involution<S>(s: Seq<S>)
    ensures
        s.reverse().reverse() == s,
{
    assert(s.reverse().reverse() =~= s);
}

/// Trimming a padded signal at the padding's end, for the signal's length,
/// gives the signal back (for a non-empty signal).
pub proof fn lemma_trim_undoes_pad<S>(s: Seq<S>, silence: S, prepend: usize, append: usize)
    requires
        s.len() > 0,
        prepend + s.len() + append <= usize::MAX,
    ensures
        ({
            let padded = Seq::new(prepend as nat, |i: int| silence) + s + Seq::new(append as nat, |i: int| silence);
            trim_spec(padded, prepend, s.len() as usize) == Some(s)
        }),
{
    let padded = Seq::new(prepend as nat, |i: int| silence) + s + Seq::new(append as nat, |i: int| silence);
    assert(padded.subrange(prepend as int, prepend + s.len()) =~= s);
}

/// The kept range of silence stripping holds every loud sample.
pub proof fn lemma_strip_keeps_loud(m: Seq<bool>, min_silent: usize, f: int, l: int, j: int)
    requires
        first_loud(m, f),
        last_loud(m, l),
        0 <= j < m.len(),
        m[j],
    ensures
        (if f > min_silent { f - min_silent } else { 0 }) <= j,
        j < (if l + min_silent + 1 < m.len() { l + min_silent + 1 } else { m.len() as int }),
{
    if j < f {
        assert(!m[j]);
    }
    if j > l {
        assert(!m[j]);
    }
}

} // verus!
