//! De-interleaved audio buffers: one sample vector per channel.
//!
//! The sample type is a parameter: the toolbox stores `f32` PCM, the encoders
//! integer PCM, and the layout logic is the same for both.
use vstd::prelude::*;
use crate::error::Error;

verus! {

/// Number of frames of a channel set: the length of the first channel (0 when
/// there are no channels).
pub open spec fn frame_count<S>(ch: Seq<Seq<S>>) -> nat {
    if ch.len() == 0 { 0 } else { ch[0].len() }
}

/// Interleaving of `ch`: frame by frame, channel by channel, `frame_count`
/// frames. Sample `j` is frame `j / k` of channel `j % k`.
pub open spec fn interleave_spec<S>(ch: Seq<Seq<S>>) -> Seq<S> {
    let k = ch.len() as int;
    Seq::new((frame_count(ch) * ch.len()) as nat, |j: int| ch[j % k][j / k])
}

/// Number of samples of channel `c` in an interleaving of `len` samples over
/// `k` channels.
pub open spec fn channel_share(len: nat, k: nat, c: nat) -> nat {
    if c < len { ((len - 1 - c) as nat / k + 1) as nat } else { 0 }
}

/// De-interleaving of `s` over `k` channels: channel `c` takes samples
/// `c, c + k, c + 2k, …` in order.
pub open spec fn deinterleave_spec<S>(s: Seq<S>, k: nat) -> Seq<Seq<S>> {
    Seq::new(k, |c: int| Seq::new(channel_share(s.len(), k, c as nat), |i: int| s[i * k + c]))
}

/// The views of a vector of sample vectors.
pub open spec fn channels_view<S>(v: Seq<Vec<S>>) -> Seq<Seq<S>> {
    v.map_values(|c: Vec<S>| c@)
}

/// Every channel holds at least as many samples as the first.
pub open spec fn frames_available<S>(ch: Seq<Seq<S>>) -> bool {
    forall|c: int| 0 <= c < ch.len() ==> #[trigger] ch[c].len() >= frame_count(ch)
}

proof fn lemma_index_split(i: int, k: int, c: int)
    requires
        0 <= i,
        0 <= c < k,
    ensures
        (i * k + c) % k == c,
        (i * k + c) / k == i,
{
    vstd::arithmetic::div_mod::lemma_fundamental_div_mod_converse(i * k + c, k, i, c);
}

/// Interleave channels frame by frame (see [`interleave_spec`]). Frames are
/// counted on the first channel; every channel must hold that many samples.
pub fn interleave<S: Copy>(channels: &Vec<Vec<S>>) -> (r: Vec<S>)
    requires
        frames_available(channels_view(channels@)),
    ensures
        r@ == interleave_spec(channels_view(channels@)),
{
    let ghost ch = channels_view(channels@);
    let k = channels.len();
    let mut out: Vec<S> = Vec::new();
    if k == 0 {
        assert(out@ =~= interleave_spec(ch));
        return out;
    }
    let n = channels[0].len();
    let mut i: usize = 0;
    assert(0 * k == 0) by (nonlinear_arith);
    while i < n
        invariant
            k == channels.len() > 0,
            n == frame_count(ch),
            ch == channels_view(channels@),
            frames_available(ch),
            i <= n,
            out.len() == i * k,
            forall|j: int| 0 <= j < out.len() ==> #[trigger] out@[j] == ch[j % (k as int)][j / (k as int)],
        decreases n - i,
    {
        let mut c: usize = 0;
        while c < k
            invariant
                k == channels.len() > 0,
                n == frame_count(ch),
                ch == channels_view(channels@),
                frames_available(ch),
                i < n,
                c <= k,
                out.len() == i * k + c,
                forall|j: int| 0 <= j < out.len() ==> #[trigger] out@[j] == ch[j % (k as int)][j / (k as int)],
            decreases k - c,
        {
            assert(ch[c as int].len() >= n);
            assert(ch[c as int] == channels@[c as int]@);
            let x = channels[c][i];
            proof {
                lemma_index_split(i as int, k as int, c as int);
            }
            out.push(x);
            c += 1;
        }
        assert((i + 1) * k == i * k + k) by (nonlinear_arith);
        i += 1;
    }
    assert(out@ =~= interleave_spec(ch));
    out
}

/// Split an interleaving of `num_channels` channels back into channels (see
/// [`deinterleave_spec`]): sample `j` goes to channel `j % num_channels`.
pub fn deinterleave<S: Copy>(samples: &Vec<S>, num_channels: usize) -> (r: Vec<Vec<S>>)
    requires
        num_channels > 0,
    ensures
        channels_view(r@) == deinterleave_spec(samples@, num_channels as nat),
{
    let k = num_channels;
    let len = samples.len();
    let ghost target = deinterleave_spec(samples@, k as nat);
    let mut out: Vec<Vec<S>> = Vec::new();
    let mut c: usize = 0;
    while c < k
        invariant
            k == num_channels > 0,
            len == samples.len(),
            target == deinterleave_spec(samples@, k as nat),
            c <= k,
            out.len() == c,
            forall|d: int| 0 <= d < c ==> #[trigger] out@[d]@ == target[d],
        decreases k - c,
    {
        let mut ch: Vec<S> = Vec::new();
        let mut j: usize = c;
        proof {
            lemma_index_split(0, k as int, c as int);
        }
        if j >= len {
            assert(ch.len() == channel_share(len as nat, k as nat, c as nat));
        } else {
            loop
                invariant_except_break
                    j < len,
                    (j as int) % (k as int) == c,
                    (j as int) / (k as int) == ch.len(),
                    ch.len() < channel_share(len as nat, k as nat, c as nat),
                invariant
                    k == num_channels > 0,
                    len == samples.len(),
                    c < k,
                    c <= j,
                    forall|i: int| 0 <= i < ch.len() ==> #[trigger] ch@[i] == samples@[i * k + c],
                ensures
                    ch.len() == channel_share(len as nat, k as nat, c as nat),
                decreases len - j,
            {
                let ghost m = ch.len() as int;
                proof {
                    vstd::arithmetic::div_mod::lemma_fundamental_div_mod(j as int, k as int);
                    assert(j == m * k + c) by (nonlinear_arith)
                        requires
                            j == (k as int) * ((j as int) / (k as int)) + (j as int) % (k as int),
                            (j as int) / (k as int) == m,
                            (j as int) % (k as int) == c,
                    ;
                }
                ch.push(samples[j]);
                if len - j <= k {
                    proof {
                        lemma_share(len as int, k as int, c as int, m);
                    }
                    break;
                }
                proof {
                    lemma_index_split(m + 1, k as int, c as int);
                    assert((m + 1) * k + c == j + k) by (nonlinear_arith)
                        requires
                            j == m * k + c,
                    ;
                    lemma_share_more(len as int, k as int, c as int, m);
                }
                j = j + k;
            }
        }
        assert(ch@ =~= target[c as int]);
        out.push(ch);
        c += 1;
    }
    assert(channels_view(out@) =~= target);
    out
}

proof fn lemma_share(len: int, k: int, c: int, m: int)
    requires
        0 <= c < k,
        0 <= m,
        m * k + c < len <= m * k + c + k,
    ensures
        channel_share(len as nat, k as nat, c as nat) == m + 1,
{
    assert((len - 1 - c) / k == m) by {
        vstd::arithmetic::div_mod::lemma_fundamental_div_mod_converse(len - 1 - c, k, m, len - 1 - c - m * k);
    }
}

proof fn lemma_share_more(len: int, k: int, c: int, m: int)
    requires
        0 <= c < k,
        0 <= m,
        m * k + c + k < len,
    ensures
        m + 1 < channel_share(len as nat, k as nat, c as nat),
{
    let q = (len - 1 - c) / k;
    vstd::arithmetic::div_mod::lemma_fundamental_div_mod(len - 1 - c, k);
    assert(q >= m + 1) by (nonlinear_arith)
        requires
            len - 1 - c == k * q + (len - 1 - c) % k,
            0 <= (len - 1 - c) % k < k,
            m * k + c + k < len,
            k > 0,
    ;
}


/// All channels hold the same number of samples.
pub open spec fn uniform<S>(ch: Seq<Seq<S>>) -> bool {
    forall|c: int| 0 <= c < ch.len() ==> #[trigger] ch[c].len() == frame_count(ch)
}

/// De-interleaving undoes interleaving: splitting the interleaving of `k > 0`
/// equal-length channels over `k` channels gives the channels back.
pub proof fn lemma_deinterleave_interleave<S>(ch: Seq<Seq<S>>)
    requires
        ch.len() > 0,
        uniform(ch),
    ensures
        deinterleave_spec(interleave_spec(ch), ch.len()) == ch,
{
    let k = ch.len() as int;
    let n = frame_count(ch) as int;
    let s = interleave_spec(ch);
    let d = deinterleave_spec(s, ch.len());
    assert(s.len() == n * k);
    assert forall|c: int| 0 <= c < k implies #[trigger] d[c] =~= ch[c] by {
        assert(ch[c].len() == n);
        if n > 0 {
            assert(c < n * k) by (nonlinear_arith)
                requires
                    0 <= c < k,
                    n > 0,
            ;
            assert((n - 1) * k + c < n * k <= (n - 1) * k + c + k) by (nonlinear_arith)
                requires
                    0 <= c < k,
                    n > 0,
            ;
            lemma_share(n * k, k, c, n - 1);
        } else {
            assert(n * k == 0) by (nonlinear_arith)
                requires
                    n == 0,
            ;
        }
        assert(d[c].len() == n);
        assert forall|i: int| 0 <= i < n implies #[trigger] d[c][i] == ch[c][i] by {
            lemma_index_split(i, k, c);
            assert(i * k + c < n * k) by (nonlinear_arith)
                requires
                    0 <= c < k,
                    0 <= i < n,
            ;
        }
    }
    assert(d =~= ch);
}

/// Interleaving undoes de-interleaving: a sequence whose length is a multiple
/// of `k > 0`, split over `k` channels and interleaved again, is unchanged.
pub proof fn lemma_interleave_deinterleave<S>(s: Seq<S>, k: nat)
    requires
        k > 0,
        s.len() % k == 0,
    ensures
        interleave_spec(deinterleave_spec(s, k)) == s,
{
    let d = deinterleave_spec(s, k);
    let len = s.len() as int;
    let q = len / (k as int);
    vstd::arithmetic::div_mod::lemma_fundamental_div_mod(len, k as int);
    assert(len == q * k) by (nonlinear_arith)
        requires
            len == (k as int) * q + len % (k as int),
            len % (k as int) == 0,
    ;
    assert forall|c: int| 0 <= c < k implies #[trigger] d[c].len() == q by {
        if q > 0 {
            assert((q - 1) * k + c < len <= (q - 1) * k + c + k) by (nonlinear_arith)
                requires
                    0 <= c < k,
                    q > 0,
                    len == q * k,
            ;
            lemma_share(len, k as int, c, q - 1);
        } else {
            assert(len == 0) by (nonlinear_arith)
                requires
                    len == q * k,
                    q == 0,
            ;
        }
    }
    assert(frame_count(d) == q);
    let r = interleave_spec(d);
    assert(r.len() == len);
    assert forall|j: int| 0 <= j < len implies #[trigger] r[j] == s[j] by {
        let c = j % (k as int);
        let i = j / (k as int);
        vstd::arithmetic::div_mod::lemma_fundamental_div_mod(j, k as int);
        assert(0 <= i < q) by (nonlinear_arith)
            requires
                j == (k as int) * i + c,
                0 <= c < k,
                0 <= j < len,
                len == q * k,
        ;
        assert(i * k + c == j) by (nonlinear_arith)
            requires
                j == (k as int) * i + c,
        ;
        assert(d[c].len() == q);
        assert(d[c][i] == s[i * k + c]);
        assert(r[j] == d[c][i]);
    }
    assert(r =~= s);
}


/// A copy of `v`.
pub fn copy_samples<S: Copy>(v: &Vec<S>) -> (r: Vec<S>)
    ensures
        r@ == v@,
{
    let mut out: Vec<S> = Vec::new();
    let mut i: usize = 0;
    while i < v.len()
        invariant
            i <= v.len(),
            out@ == v@.take(i as int),
        decreases v.len() - i,
    {
        out.push(v[i]);
        i += 1;
        assert(out@ =~= v@.take(i as int));
    }
    assert(v@.take(v.len() as int) =~= v@);
    out
}

/// A copy of every channel of `ch`.
pub fn copy_channels<S: Copy>(ch: &Vec<Vec<S>>) -> (r: Vec<Vec<S>>)
    ensures
        channels_view(r@) == channels_view(ch@),
{
    let mut out: Vec<Vec<S>> = Vec::new();
    let mut i: usize = 0;
    while i < ch.len()
        invariant
            i <= ch.len(),
            out.len() == i,
            channels_view(out@) == channels_view(ch@).take(i as int),
        decreases ch.len() - i,
    {
        let c = copy_samples(&ch[i]);
        out.push(c);
        assert(out@[i as int]@ == ch@[i as int]@);
        assert(channels_view(out@) =~= channels_view(ch@).take(i + 1));
        i += 1;
    }
    assert(channels_view(ch@).take(ch.len() as int) =~= channels_view(ch@));
    out
}

/// In-memory audio: a sample rate plus one sample buffer per channel
/// (de-interleaved, channel-major).
pub struct AudioData<S> {
    /// Sample rate in Hz.
    pub sample_rate: u32,
    /// One buffer of samples per channel.
    pub channels: Vec<Vec<S>>,
}

impl<S: Copy> AudioData<S> {
    /// The channels' sample sequences.
    pub open spec fn channel_seqs(&self) -> Seq<Seq<S>> {
        channels_view(self.channels@)
    }

    /// Duplicate a mono track to stereo.
    pub fn mono_to_stereo(samples: Vec<S>, sample_rate: u32) -> (a: Self)
        ensures
            a.sample_rate == sample_rate,
            a.channel_seqs() == seq![samples@, samples@],
    {
        let left = copy_samples(&samples);
        let mut channels: Vec<Vec<S>> = Vec::new();
        channels.push(left);
        channels.push(samples);
        let a = AudioData { sample_rate, channels };
        assert(a.channel_seqs() =~= seq![samples@, samples@]);
        a
    }

    /// A copy of the buffer.
    pub fn duplicate(&self) -> (a: Self)
        ensures
            a.sample_rate == self.sample_rate,
            a.channel_seqs() == self.channel_seqs(),
    {
        AudioData { sample_rate: self.sample_rate, channels: copy_channels(&self.channels) }
    }

    /// The samples interleaved frame by frame, as a PCM writer emits them.
    pub fn interleaved(&self) -> (r: Vec<S>)
        requires
            frames_available(self.channel_seqs()),
        ensures
            r@ == interleave_spec(self.channel_seqs()),
    {
        interleave(&self.channels)
    }

    /// Rebuild a buffer from interleaved samples of `num_channels` channels.
    pub fn from_interleaved(samples: &Vec<S>, num_channels: usize, sample_rate: u32) -> (a: Self)
        requires
            num_channels > 0,
        ensures
            a.sample_rate == sample_rate,
            a.channel_seqs() == deinterleave_spec(samples@, num_channels as nat),
    {
        AudioData { sample_rate, channels: deinterleave(samples, num_channels) }
    }
}

/// Mock denoiser: passes audio through unchanged. Useful for testing the
/// processing loop without model weights.
pub struct MockDenoiser;

impl MockDenoiser {
    /// Return an unchanged copy of `input`.
    pub fn denoise<S: Copy>(&self, input: &AudioData<S>) -> (r: Result<AudioData<S>, Error>)
        ensures
            r is Ok,
            r->Ok_0.sample_rate == input.sample_rate,
            r->Ok_0.channel_seqs() == input.channel_seqs(),
    {
        Ok(input.duplicate())
    }
}

} // verus!
