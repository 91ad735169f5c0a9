//! MPEG-4 AudioSpecificConfig handling for HE-AAC inputs.
//!
//! HE-AAC (AAC+ / SBR) is AAC-LC at half rate plus a high-band extension. A
//! decoder that only implements LC rejects SBR, so the toolbox retries with
//! LC-only configurations built here: the 2-byte (or 5-byte, for a rate off
//! the standard table) AudioSpecificConfig of an LC stream.
use vstd::prelude::*;

verus! {

/// The standard MPEG-4 audio sampling rates, indexed by `samplingFrequencyIndex`.
pub const MPEG4_AUDIO_RATES: [u32; 13] = [
    96000, 88200, 64000, 48000, 44100, 32000, 24000, 22050, 16000, 12000, 11025, 8000, 7350,
];

/// The `samplingFrequencyIndex` of `rate`, or `-1` when the rate is not on
/// the standard table.
pub open spec fn rate_index(rate: u32) -> int {
    if rate == 96000 { 0 }
    else if rate == 88200 { 1 }
    else if rate == 64000 { 2 }
    else if rate == 48000 { 3 }
    else if rate == 44100 { 4 }
    else if rate == 32000 { 5 }
    else if rate == 24000 { 6 }
    else if rate == 22050 { 7 }
    else if rate == 16000 { 8 }
    else if rate == 12000 { 9 }
    else if rate == 11025 { 10 }
    else if rate == 8000 { 11 }
    else if rate == 7350 { 12 }
    else { -1 }
}

/// The 40-bit escape form: object type LC (2) in bits 35–39, index 15 in
/// bits 31–34, the explicit rate from bit 7 and the channel configuration in
/// bits 3–6.
pub open spec fn escape_word(rate: u32, ch: u64) -> u64 {
    (2u64 << 35u64) | (0xFu64 << 31u64) | ((rate as u64) << 7u64) | (ch << 3u64)
}

/// The AudioSpecificConfig of an AAC-LC stream at `rate` with `channels`
/// channels, or `None` when the channel count has no channel configuration
/// (outside 1..=7).
///
/// On the standard table it is 16 bits: object type 2 (5 bits), the rate
/// index (4 bits), the channel configuration (4 bits) and three zero flags.
/// Off the table the index is the escape 15 followed by the 24-bit rate,
/// five bytes in all.
pub open spec fn lc_config(rate: u32, channels: usize) -> Option<Seq<u8>> {
    if !(1 <= channels <= 7) {
        None
    } else if rate_index(rate) >= 0 {
        let idx = rate_index(rate);
        Some(seq![(16 + idx / 2) as u8, ((idx % 2) * 128 + channels * 8) as u8])
    } else {
        let w = escape_word(rate, channels as u64);
        Some(seq![(w >> 32u64) as u8, (w >> 24u64) as u8, (w >> 16u64) as u8, (w >> 8u64) as u8, w as u8])
    }
}

#[verifier::external_body]
fn boxed_bytes(v: Vec<u8>) -> (b: Box<[u8]>)
    ensures
        b@ == v@,
{
    v.into_boxed_slice()
}

/// Build the AudioSpecificConfig of an LC stream (see [`lc_config`]).
pub fn aac_lc_specific_config(sample_rate: u32, channels: usize) -> (r: Option<Box<[u8]>>)
    ensures
        match r {
            Some(b) => lc_config(sample_rate, channels) == Some(b@),
            None => lc_config(sample_rate, channels) is None,
        },
{
    if channels < 1 || channels > 7 {
        return None;
    }
    let ch = channels as u16;
    let mut idx: usize = 0;
    while idx < 13 && MPEG4_AUDIO_RATES[idx] != sample_rate
        invariant
            idx <= 13,
            forall|j: int| 0 <= j < idx ==> MPEG4_AUDIO_RATES@[j] != sample_rate,
        decreases 13 - idx,
    {
        idx += 1;
    }
    proof {
        assert(MPEG4_AUDIO_RATES@ == seq![
            96000u32, 88200, 64000, 48000, 44100, 32000, 24000, 22050, 16000, 12000, 11025, 8000, 7350,
        ]);
    }
    if idx < 13 {
        assert(rate_index(sample_rate) == idx);
        let bits: u16 = (2u16 << 11u16) | ((idx as u16) << 7u16) | (ch << 3u16);
        let hi = (bits >> 8u16) as u8;
        let lo = bits as u8;
        proof {
            let i = idx as u16;
            assert(i < 13 && 1 <= ch <= 7);
            assert(((((2u16 << 11u16) | (i << 7u16) | (ch << 3u16)) >> 8u16) as u8) == (16 + i / 2) as u8)
                by (bit_vector)
                requires i < 13u16, 1u16 <= ch <= 7u16;
            assert((((2u16 << 11u16) | (i << 7u16) | (ch << 3u16)) as u8) == ((i % 2) * 128 + ch * 8) as u8)
                by (bit_vector)
                requires i < 13u16, 1u16 <= ch <= 7u16;
        }
        let v = vec![hi, lo];
        assert(v@ =~= lc_config(sample_rate, channels).unwrap());
        Some(boxed_bytes(v))
    } else {
        assert(rate_index(sample_rate) == -1);
        let w: u64 = (2u64 << 35u64) | (0xFu64 << 31u64) | ((sample_rate as u64) << 7u64) | ((ch as u64) << 3u64);
        let v = vec![(w >> 32u64) as u8, (w >> 24u64) as u8, (w >> 16u64) as u8, (w >> 8u64) as u8, w as u8];
        assert(v@ =~= lc_config(sample_rate, channels).unwrap());
        Some(boxed_bytes(v))
    }
}


/// What the LC fallback reads of a parsed AudioSpecificConfig.
#[derive(Debug, Clone, Copy, PartialEq, Eq, Structural)]
pub struct AscInfo {
    /// The (core) audio object type is AAC-LC.
    pub object_type_is_lc: bool,
    /// Sampling rate of the outer configuration in Hz.
    pub sample_rate: u32,
    /// Channel count, when the configuration names one.
    pub channel_count: Option<usize>,
    /// Samples per frame (1024 or 960).
    pub samples: usize,
    /// Extension sampling rate of an explicit SBR/PS signalling, if any.
    pub sbr_ext_rate: Option<u32>,
    /// Spectral band replication is signalled.
    pub sbr_present: bool,
}

/// What `symphonia_common`'s AudioSpecificConfig reader yields for `extra`
/// (`None` when it rejects the bytes), reduced to [`AscInfo`].
pub uninterp spec fn audio_specific_config(extra: Seq<u8>) -> Option<AscInfo>;

/// Parses `extra` with `symphonia_common::mpeg::audio::AudioSpecificConfig::read`.
/// The reader is a pure function of the bytes; its result is named, not
/// restated, by [`audio_specific_config`].
#[verifier::external_body]
fn read_audio_specific_config(extra: &[u8]) -> (r: Option<AscInfo>)
    ensures
        r == audio_specific_config(extra@),
{
    match symphonia_common::mpeg::audio::AudioSpecificConfig::read(extra) {
        Ok(asc) => Some(AscInfo {
            object_type_is_lc: matches!(asc.object_type, symphonia_common::mpeg::audio::AudioObjectType::Lc),
            sample_rate: asc.sample_rate,
            channel_count: asc.channels.as_ref().map(symphonia::core::audio::Channels::count),
            samples: asc.samples,
            sbr_ext_rate: asc.sbr_ps_info.map(|p| p.0),
            sbr_present: asc.sbr_present,
        }),
        Err(_) => None,
    }
}

/// Twice `x`, saturating at `u32::MAX`.
pub open spec fn saturating_double(x: u32) -> u32 {
    if 2 * x > u32::MAX { u32::MAX } else { (2 * x) as u32 }
}

/// The (core rate, output rate) pairs to try for an SBR stream: with an
/// explicit extension rate that differs from the outer rate, both orders
/// (the extension rate first); otherwise the outer rate as core with twice
/// it as output, then half the outer rate as core when that is at least 1.
pub open spec fn lc_rate_pairs(asc: AscInfo) -> Seq<(u32, u32)> {
    let sr = asc.sample_rate;
    if asc.sbr_ext_rate is Some && asc.sbr_ext_rate->0 > 0 && sr > 0 && asc.sbr_ext_rate->0 != sr {
        let ext = asc.sbr_ext_rate->0;
        seq![(ext, sr), (sr, ext)]
    } else if sr >= 2 {
        seq![(sr, saturating_double(sr)), ((sr / 2) as u32, sr)]
    } else {
        seq![(sr, saturating_double(sr))]
    }
}

/// The candidates of `pairs` in order: each pair with a non-zero core rate,
/// with the LC configuration of its core rate for `ch` channels.
pub open spec fn lc_candidate_list(pairs: Seq<(u32, u32)>, ch: usize) -> Seq<(Seq<u8>, u32, u32)>
    decreases pairs.len(),
{
    if pairs.len() == 0 {
        seq![]
    } else {
        let p = pairs.last();
        let rest = lc_candidate_list(pairs.drop_last(), ch);
        if p.0 == 0 || lc_config(p.0, ch) is None {
            rest
        } else {
            rest.push((lc_config(p.0, ch)->0, p.0, p.1))
        }
    }
}

/// An SBR configuration over a one- or two-channel LC core with 1024-sample
/// frames: the streams that get LC fallbacks.
pub open spec fn lc_fallback_applies(a: AscInfo) -> bool {
    &&& a.sbr_present
    &&& a.object_type_is_lc
    &&& a.channel_count matches Some(c) && 1 <= c <= 2
    &&& a.samples == 1024
}

/// LC fallbacks for a parsed configuration: none unless
/// [`lc_fallback_applies`]; otherwise [`lc_candidate_list`] over
/// [`lc_rate_pairs`].
pub open spec fn lc_candidates(asc: Option<AscInfo>) -> Seq<(Seq<u8>, u32, u32)> {
    match asc {
        Some(a) if lc_fallback_applies(a) => lc_candidate_list(lc_rate_pairs(a), a.channel_count->0),
        _ => seq![],
    }
}

/// The view of a candidate list: configuration bytes, core rate, output rate.
pub open spec fn candidates_view(c: Seq<(Box<[u8]>, u32, u32)>) -> Seq<(Seq<u8>, u32, u32)> {
    c.map_values(|t: (Box<[u8]>, u32, u32)| (t.0@, t.1, t.2))
}

/// LC-only retry configurations for a parsed AudioSpecificConfig, each with
/// its core rate and the rate to upsample the decoded core to.
pub fn lc_candidates_for(asc: Option<AscInfo>) -> (r: Vec<(Box<[u8]>, u32, u32)>)
    ensures
        candidates_view(r@) == lc_candidates(asc),
        (r@.len() > 0) <==> (asc matches Some(a) && a.sbr_present && a.object_type_is_lc
            && (a.channel_count == Some(1usize) || a.channel_count == Some(2usize))
            && a.samples == 1024 && a.sample_rate >= 1),
        forall|k: int| #![trigger r@[k]] 0 <= k < r@.len() ==> r@[k].1 != 0
            && names_lc_channels(r@[k].0@, asc->0.channel_count->0),
{
    proof {
        if asc is Some {
            lemma_lc_fallback_domain(asc->0);
        }
    }
    let mut out: Vec<(Box<[u8]>, u32, u32)> = Vec::new();
    let a = match asc {
        None => return out,
        Some(a) => a,
    };
    if !a.sbr_present || !a.object_type_is_lc {
        return out;
    }
    let ch = match a.channel_count {
        None => return out,
        Some(c) => c,
    };
    if ch < 1 || ch > 2 || a.samples != 1024 {
        return out;
    }
    let sr = a.sample_rate;
    let mut pairs: Vec<(u32, u32)> = Vec::new();
    match a.sbr_ext_rate {
        Some(ext) if ext > 0 && sr > 0 && ext != sr => {
            pairs.push((ext, sr));
            pairs.push((sr, ext));
        },
        _ => {
            let doubled = if sr > u32::MAX / 2 { u32::MAX } else { sr * 2 };
            pairs.push((sr, doubled));
            if sr >= 2 {
                pairs.push((sr / 2, sr));
            }
        },
    }
    assert(pairs@ =~= lc_rate_pairs(a));
    let mut i: usize = 0;
    while i < pairs.len()
        invariant
            i <= pairs.len(),
            1 <= ch <= 2,
            candidates_view(out@) == lc_candidate_list(pairs@.take(i as int), ch),
        decreases pairs.len() - i,
    {
        let (core, dest) = pairs[i];
        assert(pairs@.take(i + 1).drop_last() =~= pairs@.take(i as int));
        if core != 0 {
            match aac_lc_specific_config(core, ch) {
                Some(cfg) => {
                    out.push((cfg, core, dest));
                    assert(candidates_view(out@) =~= lc_candidate_list(pairs@.take(i + 1), ch));
                },
                None => {},
            }
        }
        i += 1;
    }
    assert(pairs@.take(pairs.len() as int) =~= pairs@);
    proof {
        assert forall|k: int| #![trigger out@[k]] 0 <= k < out@.len() implies out@[k].1 != 0
            && names_lc_channels(out@[k].0@, ch) by {
            assert(candidates_view(out@)[k] == lc_candidates(asc)[k]);
        }
    }
    out
}

/// LC-only retry configurations for the AudioSpecificConfig bytes `extra` of
/// an HE-AAC track (core rate first, then swapped — layouts disagree on
/// which frequency is the core). Empty when the bytes do not describe an
/// SBR stream over a one- or two-channel LC core.
pub fn he_aac_lc_candidates(extra: &[u8]) -> (r: Vec<(Box<[u8]>, u32, u32)>)
    ensures
        candidates_view(r@) == lc_candidates(audio_specific_config(extra@)),
{
    let asc = read_audio_specific_config(extra);
    lc_candidates_for(asc)
}

/// `cfg` is an LC AudioSpecificConfig naming channel configuration `ch`: the
/// two-byte form carries object type 2 in its top five bits and the channel
/// configuration in bits 3–6 of its second byte; the five-byte (explicit
/// rate) form carries the channel configuration in bits 3–6 of its last byte.
pub open spec fn names_lc_channels(cfg: Seq<u8>, ch: usize) -> bool {
    ||| cfg.len() == 2 && cfg[0] / 8 == 2 && (cfg[1] / 8) % 16 == ch
    ||| cfg.len() == 5 && (cfg[4] / 8) % 16 == ch
}

proof fn lemma_lc_config_names_channels(rate: u32, ch: usize)
    requires
        1 <= ch <= 7,
    ensures
        lc_config(rate, ch) is Some,
        names_lc_channels(lc_config(rate, ch)->0, ch),
{
    if rate_index(rate) < 0 {
        let c = ch as u64;
        let r = rate;
        assert((((((2u64 << 35u64) | (0xFu64 << 31u64) | ((r as u64) << 7u64) | (c << 3u64)) as u8) / 8u8)
            % 16u8) as u64 == c) by (bit_vector)
            requires
                1u64 <= c <= 7u64,
        ;
    }
}

proof fn lemma_candidate_list_members(pairs: Seq<(u32, u32)>, ch: usize)
    requires
        1 <= ch <= 7,
    ensures
        forall|k: int| 0 <= k < lc_candidate_list(pairs, ch).len() ==> {
            let t = #[trigger] lc_candidate_list(pairs, ch)[k];
            &&& t.1 != 0
            &&& t.0 == lc_config(t.1, ch)->0
            &&& names_lc_channels(t.0, ch)
        },
    decreases pairs.len(),
{
    if pairs.len() > 0 {
        lemma_candidate_list_members(pairs.drop_last(), ch);
        let p = pairs.last();
        lemma_lc_config_names_channels(p.0, ch);
        let rest = lc_candidate_list(pairs.drop_last(), ch);
        let all = lc_candidate_list(pairs, ch);
        assert forall|k: int| 0 <= k < all.len() implies {
            let t = #[trigger] all[k];
            &&& t.1 != 0
            &&& t.0 == lc_config(t.1, ch)->0
            &&& names_lc_channels(t.0, ch)
        } by {
            if k < rest.len() {
                assert(all[k] == rest[k]);
            }
        }
    }
}

/// When LC fallbacks exist: an SBR configuration whose core is AAC-LC with
/// one or two channels and 1024-sample frames, at a non-zero rate, gets at
/// least one fallback — mono as well as stereo — and every fallback is an LC
/// configuration naming the core's channel count, at a non-zero core rate.
/// Any other configuration gets none.
pub proof fn lemma_lc_fallback_domain(a: AscInfo)
    ensures
        (lc_candidates(Some(a)).len() > 0) <==> (a.sbr_present && a.object_type_is_lc
            && (a.channel_count == Some(1usize) || a.channel_count == Some(2usize))
            && a.samples == 1024 && a.sample_rate >= 1),
        forall|k: int| 0 <= k < lc_candidates(Some(a)).len() ==> {
            let t = #[trigger] lc_candidates(Some(a))[k];
            &&& t.1 != 0
            &&& names_lc_channels(t.0, a.channel_count->0)
        },
{
    let c = lc_candidates(Some(a));
    if lc_fallback_applies(a) {
        let ch = a.channel_count->0;
        let pairs = lc_rate_pairs(a);
        lemma_candidate_list_members(pairs, ch);
        lemma_lc_config_names_channels(pairs[0].0, ch);
        if pairs.len() == 1 {
            assert(pairs.drop_last() =~= Seq::<(u32, u32)>::empty());
        } else {
            assert(pairs.drop_last().drop_last() =~= Seq::<(u32, u32)>::empty());
            assert(pairs.drop_last() =~= seq![pairs[0]]);
            lemma_lc_config_names_channels(pairs[1].0, ch);
        }
        reveal_with_fuel(lc_candidate_list, 3);
    }
}

/// With an explicit extension rate that differs from the outer rate, the
/// core is tried at the extension rate (output at the outer rate) first,
/// then swapped; without one, at the outer rate (output at twice it,
/// saturating) first, then at half the outer rate (output at the outer
/// rate). Each configuration is the LC configuration of its core rate.
pub proof fn lemma_lc_fallback_order(a: AscInfo)
    requires
        a.sbr_present,
        a.object_type_is_lc,
        a.channel_count == Some(1usize) || a.channel_count == Some(2usize),
        a.samples == 1024,
        a.sample_rate >= 2,
    ensures
        ({
            let c = lc_candidates(Some(a));
            let ch = a.channel_count->0;
            let sr = a.sample_rate;
            let ext = a.sbr_ext_rate->0;
            &&& c.len() == 2
            &&& names_lc_channels(c[0].0, ch) && names_lc_channels(c[1].0, ch)
            &&& if a.sbr_ext_rate is Some && ext > 0 && ext != sr {
                &&& c[0] == (lc_config(ext, ch)->0, ext, sr)
                &&& c[1] == (lc_config(sr, ch)->0, sr, ext)
            } else {
                &&& c[0].0 == lc_config(sr, ch)->0 && c[0].1 == sr
                &&& c[0].2 == (if 2 * sr <= u32::MAX { 2 * sr } else { u32::MAX as int })
                &&& c[1].0 == lc_config((sr / 2) as u32, ch)->0 && c[1].1 == sr / 2 && c[1].2 == sr
            }
        }),
{
    let pairs = lc_rate_pairs(a);
    let ch = a.channel_count->0;
    lemma_lc_config_names_channels(pairs[0].0, ch);
    lemma_lc_config_names_channels(pairs[1].0, ch);
    assert(pairs.drop_last().drop_last() =~= Seq::<(u32, u32)>::empty());
    assert(pairs.drop_last() =~= seq![pairs[0]]);
    reveal_with_fuel(lc_candidate_list, 3);
}

} // verus!
