//! Container encodings: AIFF framing, the 80-bit extended sample-rate field,
//! FLAC stream finishing, the WAV mono channel mask, and the choice of
//! container from a file extension.
use vstd::prelude::*;
use flacenc::component::BitRepr;
use flacenc::error::Verify;
use vstd::arithmetic::power2::{pow2, lemma_pow2_adds, lemma_pow2_unfold, lemma_pow2_strictly_increases};

verus! {

/// ⌊log₂ v⌋ (0 for v < 2).
pub open spec fn floor_log2(v: nat) -> nat
    decreases v,
{
    if v < 2 { 0 } else { 1 + floor_log2(v / 2) }
}

proof fn lemma_floor_log2(v: nat, e: nat)
    requires
        pow2(e) <= v < pow2(e + 1),
    ensures
        floor_log2(v) == e,
    decreases e,
{
    lemma_pow2_unfold(e + 1);
    if e == 0 {
        vstd::arithmetic::power2::lemma2_to64();
    } else {
        lemma_pow2_unfold(e);
        lemma_floor_log2(v / 2, (e - 1) as nat);
    }
}

/// Big-endian bytes of the low 64 bits of `m`.
pub open spec fn be64(m: nat) -> Seq<u8> {
    Seq::new(8, |i: int| ((m / pow2((8 * (7 - i)) as nat)) % 256) as u8)
}

/// The 80-bit IEEE 754 extended-precision encoding of the integer `v` (the
/// form of AIFF's sample-rate field): sign 0, biased exponent
/// `16383 + ⌊log₂ v⌋` in two big-endian bytes, then the 64-bit mantissa
/// `v · 2^(63 − ⌊log₂ v⌋)` with its integer bit explicit. Zero encodes as ten
/// zero bytes.
pub open spec fn ext80_spec(v: u32) -> Seq<u8> {
    if v == 0 {
        Seq::new(10, |i: int| 0u8)
    } else {
        let e = floor_log2(v as nat);
        let b = 16383 + e;
        seq![(b / 256) as u8, (b % 256) as u8] + be64((v * pow2((63 - e) as nat)) as nat)
    }
}

/// Encode a sample rate as an 80-bit IEEE 754 extended-precision float — the
/// format AIFF's COMM chunk uses to store the sample rate.
pub fn ieee754_extended(value: u32) -> (r: [u8; 10])
    ensures
        r@ == ext80_spec(value),
        value > 0 ==> pow2(63) <= value * pow2((63 - floor_log2(value as nat)) as nat) < pow2(64),
{
    if value == 0 {
        let z = [0u8; 10];
        assert(z@ =~= ext80_spec(value));
        return z;
    }
    let mut e: u32 = 0;
    proof {
        vstd::arithmetic::power2::lemma2_to64();
    }
    while e < 31 && (value >> (e + 1)) != 0
        invariant
            e <= 31,
            pow2(e as nat) <= value,
        decreases 31 - e,
    {
        proof {
            vstd::bits::lemma_u32_shr_is_div(value, (e + 1) as u32);
            lemma_pow2_pos_pair(e as nat);
            let p = pow2((e + 1) as nat) as int;
            vstd::arithmetic::div_mod::lemma_fundamental_div_mod(value as int, p);
            assert(value >= p) by (nonlinear_arith)
                requires
                    value == p * (value as int / p) + (value as int % p),
                    value as int % p >= 0,
                    value as int / p != 0,
                    value as int / p >= 0,
                    p > 0,
            ;
        }
        e += 1;
    }
    proof {
        if e < 31 {
            vstd::bits::lemma_u32_shr_is_div(value, (e + 1) as u32);
            vstd::arithmetic::power2::lemma_pow2_pos((e + 1) as nat);
            vstd::arithmetic::div_mod::lemma_fundamental_div_mod(value as int, pow2((e + 1) as nat) as int);
            assert(value < pow2((e + 1) as nat));
        } else {
            vstd::arithmetic::power2::lemma2_to64();
            assert(value < pow2(32));
        }
        lemma_floor_log2(value as nat, e as nat);
    }
    let shift: u64 = (63 - e) as u64;
    proof {
        lemma_pow2_adds((e + 1) as nat, shift as nat);
        lemma_pow2_adds(e as nat, shift as nat);
        vstd::arithmetic::power2::lemma2_to64_rest();
        vstd::arithmetic::mul::lemma_mul_inequality(value as int, pow2((e + 1) as nat) as int, pow2(shift as nat) as int);
        vstd::arithmetic::mul::lemma_mul_inequality(pow2(e as nat) as int, value as int, pow2(shift as nat) as int);
        vstd::arithmetic::power2::lemma_pow2_pos(shift as nat);
        assert(value * pow2(shift as nat) < pow2(64)) by (nonlinear_arith)
            requires
                value < pow2((e + 1) as nat),
                pow2((e + 1) as nat) * pow2(shift as nat) == pow2(64),
                pow2(shift as nat) > 0,
        ;
        vstd::bits::lemma_u64_shl_is_mul(value as u64, shift);
    }
    let m: u64 = (value as u64) << shift;
    let b: u16 = (16383 + e) as u16;
    let r = [
        (b >> 8u16) as u8, b as u8,
        (m >> 56u64) as u8, (m >> 48u64) as u8, (m >> 40u64) as u8, (m >> 32u64) as u8,
        (m >> 24u64) as u8, (m >> 16u64) as u8, (m >> 8u64) as u8, m as u8,
    ];
    proof {
        assert((b >> 8u16) as u8 == (b / 256) as u8 && b as u8 == (b % 256) as u8) by (bit_vector);
        lemma_be64_bytes(m);
        assert(r@ =~= ext80_spec(value));
    }
    r
}

proof fn lemma_pow2_pos_pair(e: nat)
    ensures
        pow2(e + 1) > 0,
{
    vstd::arithmetic::power2::lemma_pow2_pos(e + 1);
}

proof fn lemma_be64_bytes(m: u64)
    ensures
        be64(m as nat) == seq![
            (m >> 56u64) as u8, (m >> 48u64) as u8, (m >> 40u64) as u8, (m >> 32u64) as u8,
            (m >> 24u64) as u8, (m >> 16u64) as u8, (m >> 8u64) as u8, m as u8,
        ],
{
    assert forall|s: u64| s < 64 implies #[trigger] ((m >> s) as u8) == ((m as nat / pow2(s as nat)) % 256) as u8 by {
        vstd::bits::lemma_u64_shr_is_div(m, s);
        let x = m >> s;
        assert((x as u8) == (x % 256) as u8) by (bit_vector);
    }
    vstd::arithmetic::power2::lemma2_to64();
    assert((m as u8) == (m >> 0u64) as u8) by (bit_vector);
    assert(be64(m as nat) =~= seq![
        (m >> 56u64) as u8, (m >> 48u64) as u8, (m >> 40u64) as u8, (m >> 32u64) as u8,
        (m >> 24u64) as u8, (m >> 16u64) as u8, (m >> 8u64) as u8, m as u8,
    ]);
}


/// Big-endian bytes of a 16-bit field.
pub open spec fn be16(x: u16) -> Seq<u8> {
    seq![(x >> 8u16) as u8, x as u8]
}

/// Big-endian bytes of a 32-bit field.
pub open spec fn be32(x: u32) -> Seq<u8> {
    seq![(x >> 24u32) as u8, (x >> 16u32) as u8, (x >> 8u32) as u8, x as u8]
}

/// The low 24 bits of a sample, big-endian (AIFF 24-bit PCM).
pub open spec fn pcm24(v: i32) -> Seq<u8> {
    seq![(v >> 16i32) as u8, (v >> 8i32) as u8, v as u8]
}

/// 24-bit big-endian PCM of a sample sequence.
pub open spec fn pcm24_stream(s: Seq<i32>) -> Seq<u8>
    decreases s.len(),
{
    if s.len() == 0 {
        seq![]
    } else {
        pcm24_stream(s.drop_last()) + pcm24(s.last())
    }
}

/// ASCII chunk identifiers.
pub open spec fn tag_form() -> Seq<u8> { seq![0x46u8, 0x4F, 0x52, 0x4D] }
/// `AIFF`
pub open spec fn tag_aiff() -> Seq<u8> { seq![0x41u8, 0x49, 0x46, 0x46] }
/// `COMM`
pub open spec fn tag_comm() -> Seq<u8> { seq![0x43u8, 0x4F, 0x4D, 0x4D] }
/// `SSND`
pub open spec fn tag_ssnd() -> Seq<u8> { seq![0x53u8, 0x53, 0x4E, 0x44] }

/// The SSND chunk body: zero offset, zero block size, then the samples as
/// 24-bit big-endian PCM.
pub open spec fn ssnd_body(samples: Seq<i32>) -> Seq<u8> {
    be32(0) + be32(0) + pcm24_stream(samples)
}

/// The COMM chunk body: channel count (at least 1), frame count, bit depth 24
/// and the 80-bit sample rate. Counts are stored in their fields' widths.
pub open spec fn comm_body(channels: usize, frames: usize, rate: u32) -> Seq<u8> {
    let ch: usize = if channels < 1 { 1 } else { channels };
    be16(ch as u16) + be32(frames as u32) + be16(24) + ext80_spec(rate)
}

/// The FORM chunk body: `AIFF`, the COMM chunk, the SSND chunk.
pub open spec fn form_body(samples: Seq<i32>, channels: usize, frames: usize, rate: u32) -> Seq<u8> {
    let comm = comm_body(channels, frames, rate);
    let ssnd = ssnd_body(samples);
    tag_aiff() + tag_comm() + be32(comm.len() as u32) + comm + tag_ssnd() + be32(ssnd.len() as u32) + ssnd
}

/// A whole AIFF file of 24-bit big-endian PCM: the FORM chunk with its length.
pub open spec fn aiff_spec(samples: Seq<i32>, channels: usize, frames: usize, rate: u32) -> Seq<u8> {
    let form = form_body(samples, channels, frames, rate);
    tag_form() + be32(form.len() as u32) + form
}

fn push_be16(out: &mut Vec<u8>, x: u16)
    ensures
        final(out)@ == old(out)@ + be16(x),
{
    out.push((x >> 8u16) as u8);
    out.push(x as u8);
    assert(final(out)@ =~= old(out)@ + be16(x));
}

fn push_be32(out: &mut Vec<u8>, x: u32)
    ensures
        final(out)@ == old(out)@ + be32(x),
{
    out.push((x >> 24u32) as u8);
    out.push((x >> 16u32) as u8);
    out.push((x >> 8u32) as u8);
    out.push(x as u8);
    assert(final(out)@ =~= old(out)@ + be32(x));
}

fn push_tag(out: &mut Vec<u8>, a: u8, b: u8, c: u8, d: u8)
    ensures
        final(out)@ == old(out)@ + seq![a, b, c, d],
{
    out.push(a);
    out.push(b);
    out.push(c);
    out.push(d);
    assert(final(out)@ =~= old(out)@ + seq![a, b, c, d]);
}

/// Write a 24-bit big-endian PCM AIFF file image (see [`aiff_spec`]) from
/// interleaved 24-bit samples of `channels` channels and `frames` frames.
pub fn aiff_bytes(samples: &Vec<i32>, channels: usize, frames: usize, sample_rate: u32) -> (r: Vec<u8>)
    ensures
        r@ == aiff_spec(samples@, channels, frames, sample_rate),
{
    // Sample data: 24-bit signed, big-endian, interleaved.
    let mut ssnd: Vec<u8> = Vec::new();
    push_be32(&mut ssnd, 0);
    push_be32(&mut ssnd, 0);
    let mut i: usize = 0;
    while i < samples.len()
        invariant
            i <= samples.len(),
            ssnd@ == be32(0) + be32(0) + pcm24_stream(samples@.take(i as int)),
        decreases samples.len() - i,
    {
        let v = samples[i];
        ssnd.push((v >> 16i32) as u8);
        ssnd.push((v >> 8i32) as u8);
        ssnd.push(v as u8);
        assert(samples@.take(i + 1).drop_last() =~= samples@.take(i as int));
        assert(ssnd@ =~= be32(0) + be32(0) + pcm24_stream(samples@.take(i + 1)));
        i += 1;
    }
    assert(samples@.take(samples.len() as int) =~= samples@);

    // COMM chunk (18 bytes): channels, frames, bit depth, 80-bit rate.
    let ch: usize = if channels < 1 { 1 } else { channels };
    let mut comm: Vec<u8> = Vec::new();
    push_be16(&mut comm, ch as u16);
    push_be32(&mut comm, frames as u32);
    push_be16(&mut comm, 24);
    let rate = ieee754_extended(sample_rate);
    let mut k: usize = 0;
    let ghost head = comm@;
    while k < 10
        invariant
            k <= 10,
            comm@ == head + rate@.take(k as int),
        decreases 10 - k,
    {
        comm.push(rate[k]);
        assert(comm@ =~= head + rate@.take(k + 1));
        k += 1;
    }
    assert(rate@.take(10) =~= rate@);
    assert(comm@ =~= comm_body(channels, frames, sample_rate));

    let comm_len = comm.len() as u32;
    let ssnd_len = ssnd.len() as u32;
    let mut form: Vec<u8> = Vec::new();
    push_tag(&mut form, 0x41, 0x49, 0x46, 0x46);
    push_tag(&mut form, 0x43, 0x4F, 0x4D, 0x4D);
    push_be32(&mut form, comm_len);
    form.append(&mut comm);
    push_tag(&mut form, 0x53, 0x53, 0x4E, 0x44);
    push_be32(&mut form, ssnd_len);
    form.append(&mut ssnd);
    assert(form@ =~= form_body(samples@, channels, frames, sample_rate));

    let form_len = form.len() as u32;
    let mut out: Vec<u8> = Vec::new();
    push_tag(&mut out, 0x46, 0x4F, 0x52, 0x4D);
    push_be32(&mut out, form_len);
    out.append(&mut form);
    assert(out@ =~= aiff_spec(samples@, channels, frames, sample_rate));
    out
}


/// The chunk lengths of an AIFF image: COMM holds 18 bytes, SSND 8 plus 3 per
/// sample, the file 54 plus 3 per sample; when the file is small enough for
/// its 32-bit size fields, the FORM size field counts every byte after it.
pub proof fn lemma_aiff_layout(samples: Seq<i32>, channels: usize, frames: usize, rate: u32)
    ensures
        comm_body(channels, frames, rate).len() == 18,
        ssnd_body(samples).len() == 8 + 3 * samples.len(),
        aiff_spec(samples, channels, frames, rate).len() == 54 + 3 * samples.len(),
        46 + 3 * samples.len() <= u32::MAX ==> aiff_spec(samples, channels, frames, rate).subrange(4, 8)
            == be32((aiff_spec(samples, channels, frames, rate).len() - 8) as u32),
{
    lemma_pcm24_len(samples);
    let f = aiff_spec(samples, channels, frames, rate);
    assert(f.subrange(4, 8) =~= be32(form_body(samples, channels, frames, rate).len() as u32));
}

proof fn lemma_pcm24_len(s: Seq<i32>)
    ensures
        pcm24_stream(s).len() == 3 * s.len(),
    decreases s.len(),
{
    if s.len() > 0 {
        lemma_pcm24_len(s.drop_last());
    }
}

/// Bits per sample of the FLAC output.
pub const FLAC_BITS: usize = 24;

/// Every sample is a signed `bits`-bit PCM value.
pub open spec fn pcm_in_range(samples: Seq<i32>, bits: nat) -> bool {
    forall|i: int| 0 <= i < samples.len() ==>
        -pow2((bits - 1) as nat) <= #[trigger] samples[i] < pow2((bits - 1) as nat)
}

/// The FLAC stream that `flacenc` produces for interleaved `samples` with its
/// default encoder configuration switched to single-threaded encoding, at
/// that configuration's fixed block size, or `None` when it reports an error.
pub uninterp spec fn flac_encoding(samples: Seq<i32>, channels: usize, bits: usize, sample_rate: usize) -> Option<Seq<u8>>;

/// Encodes with `flacenc::encode_with_fixed_block_size` under the default
/// configuration with `multithread` off, and serialises the stream with a
/// `ByteSink`. The single-threaded encoder depends on its arguments alone (the
/// multithreaded one consults the machine's parallelism and the environment);
/// its output is named, not restated, by [`flac_encoding`]. The error text is
/// the encoder's own report, unstated.
#[verifier::external_body]
fn flac_stream(samples: &[i32], channels: usize, bits: usize, sample_rate: usize) -> (r: Result<Vec<u8>, String>)
    requires
        channels >= 1,
        1 <= bits <= 32,
        pcm_in_range(samples@, bits as nat),
    ensures
        match r {
            Ok(b) => flac_encoding(samples@, channels, bits, sample_rate) == Some(b@),
            Err(_) => flac_encoding(samples@, channels, bits, sample_rate) is None,
        },
{
    let mut encoder = flacenc::config::Encoder::default();
    encoder.multithread = false;
    let config = encoder.into_verified().map_err(|e| format!("flac config: {e:?}"))?;
    let source = flacenc::source::MemSource::from_samples(samples, channels, bits, sample_rate);
    let stream = flacenc::encode_with_fixed_block_size(&config, source, config.block_size)
        .map_err(|e| format!("flac encode: {e:?}"))?;
    let mut sink = flacenc::bitsink::ByteSink::new();
    stream.write(&mut sink).map_err(|e| format!("flac write: {e:?}"))?;
    Ok(sink.as_slice().to_vec())
}

/// A FLAC stream marked as fixed-block-size: when the stream is long enough to
/// hold STREAMINFO's block sizes, the minimum (bytes 8–9) is set to the
/// maximum (bytes 10–11); otherwise the bytes are unchanged.
pub open spec fn fixed_block_spec(b: Seq<u8>) -> Seq<u8> {
    if b.len() >= 12 {
        b.update(8, b[10]).update(9, b[11])
    } else {
        b
    }
}

/// Copy STREAMINFO's maximum block size over its minimum. An encoder records
/// the shorter final block as the minimum, which some decoders read as a
/// variable-block-size stream; the fixed-size convention is min == max.
/// STREAMINFO is the first metadata block — `fLaC`(4) + block header(4) — so
/// the minimum is at bytes 8..10 and the maximum at 10..12.
pub fn fix_block_sizes(bytes: Vec<u8>) -> (r: Vec<u8>)
    ensures
        r@ == fixed_block_spec(bytes@),
{
    let mut bytes = bytes;
    if bytes.len() >= 12 {
        let hi = bytes[10];
        let lo = bytes[11];
        bytes.set(8, hi);
        bytes.set(9, lo);
    }
    bytes
}

/// After the fix, STREAMINFO's minimum block size equals its maximum and no
/// other byte of the stream has changed.
pub proof fn lemma_fixed_block_min_is_max(b: Seq<u8>)
    requires
        b.len() >= 12,
    ensures
        fixed_block_spec(b).len() == b.len(),
        fixed_block_spec(b).subrange(8, 10) == fixed_block_spec(b).subrange(10, 12),
        forall|i: int| 0 <= i < b.len() && !(8 <= i < 10) ==> #[trigger] fixed_block_spec(b)[i] == b[i],
{
    assert(fixed_block_spec(b).subrange(8, 10) =~= fixed_block_spec(b).subrange(10, 12));
}

/// Encode interleaved 24-bit samples of `channels` channels (at least one is
/// declared) as a fixed-block-size FLAC stream, single-threaded (see
/// [`flac_stream`]).
pub fn flac_bytes(samples: &Vec<i32>, channels: usize, sample_rate: u32) -> (r: Result<Vec<u8>, crate::error::Error>)
    requires
        pcm_in_range(samples@, FLAC_BITS as nat),
    ensures
        match r {
            Ok(b) => flac_encoding(samples@, if channels < 1 { 1 } else { channels }, FLAC_BITS, sample_rate as usize)
                matches Some(enc) && b@ == fixed_block_spec(enc),
            Err(e) => flac_encoding(samples@, if channels < 1 { 1 } else { channels }, FLAC_BITS, sample_rate as usize)
                is None && e is Encode,
        },
{
    let ch: usize = if channels < 1 { 1 } else { channels };
    match flac_stream(samples.as_slice(), ch, FLAC_BITS, sample_rate as usize) {
        Ok(b) => Ok(fix_block_sizes(b)),
        Err(msg) => Err(crate::error::Error::Encode(msg)),
    }
}

/// The two-byte little-endian field of a header at `i`.
pub open spec fn le16_at(h: Seq<u8>, i: int) -> int {
    h[i] + 256 * h[i + 1]
}

/// The first 24 bytes of a WAV file describe a one-channel
/// `WAVE_FORMAT_EXTENSIBLE` stream: `RIFF`, `WAVE`, `fmt `, format tag 0xFFFE,
/// channel count 1.
pub open spec fn mono_extensible_header(h: Seq<u8>) -> bool {
    &&& h.len() >= 24
    &&& h.subrange(0, 4) == seq![0x52u8, 0x49, 0x46, 0x46]
    &&& h.subrange(8, 12) == seq![0x57u8, 0x41, 0x56, 0x45]
    &&& h.subrange(12, 16) == seq![0x66u8, 0x6D, 0x74, 0x20]
    &&& le16_at(h, 20) == 0xFFFE
    &&& le16_at(h, 22) == 1
}

/// Offset of `dwChannelMask` in a `WAVE_FORMAT_EXTENSIBLE` header.
pub const CHANNEL_MASK_OFFSET: u64 = 40;

/// The patch that retags a mono float WAV as `FRONT_CENTER` instead of
/// `FRONT_LEFT` (so layout-aware players route it to both speakers): the
/// offset of the channel mask and its new little-endian value 0x4, when the
/// header (the first bytes of the file, as many as could be read up to 24)
/// is a mono extensible header; otherwise no patch.
pub fn mono_channel_mask_patch(header: &[u8]) -> (r: Option<(u64, [u8; 4])>)
    ensures
        match r {
            Some((off, bytes)) => mono_extensible_header(header@) && off == CHANNEL_MASK_OFFSET
                && bytes@ == seq![4u8, 0, 0, 0],
            None => !mono_extensible_header(header@),
        },
{
    if header.len() < 24 {
        return None;
    }
    let fmt_tag: u32 = header[20] as u32 + 256 * header[21] as u32;
    let n_ch: u32 = header[22] as u32 + 256 * header[23] as u32;
    let riff = header[0] == 0x52 && header[1] == 0x49 && header[2] == 0x46 && header[3] == 0x46;
    let wave = header[8] == 0x57 && header[9] == 0x41 && header[10] == 0x56 && header[11] == 0x45;
    let fmt = header[12] == 0x66 && header[13] == 0x6D && header[14] == 0x74 && header[15] == 0x20;
    proof {
        assert(riff == (header@.subrange(0, 4) =~= seq![0x52u8, 0x49, 0x46, 0x46]));
        assert(wave == (header@.subrange(8, 12) =~= seq![0x57u8, 0x41, 0x56, 0x45]));
        assert(fmt == (header@.subrange(12, 16) =~= seq![0x66u8, 0x6D, 0x74, 0x20]));
    }
    if riff && wave && fmt && fmt_tag == 0xFFFE && n_ch == 1 {
        Some((CHANNEL_MASK_OFFSET, [4u8, 0, 0, 0]))
    } else {
        None
    }
}


/// Output container of a written file.
#[derive(Debug, Clone, Copy, PartialEq, Eq, Structural)]
pub enum Container {
    /// 24-bit lossless FLAC.
    Flac,
    /// 24-bit big-endian PCM AIFF.
    Aiff,
    /// 32-bit float WAV (the default).
    Wav,
}

/// ASCII lower-casing of one character (other characters are unchanged).
pub open spec fn ascii_lower_char(c: char) -> char {
    if 'A' <= c <= 'Z' { ((c as u8) + 32) as char } else { c }
}

/// ASCII lower-casing of a string.
pub open spec fn ascii_lower(s: Seq<char>) -> Seq<char> {
    s.map_values(|c: char| ascii_lower_char(c))
}

/// The container a file extension selects, ignoring ASCII case: `flac` is
/// FLAC, `aif` and `aiff` are AIFF, and anything else — `wav`, another
/// extension, or none — is WAV.
pub open spec fn container_spec(ext: Option<Seq<char>>) -> Container {
    match ext {
        Some(e) => {
            let l = ascii_lower(e);
            if l == seq!['f', 'l', 'a', 'c'] {
                Container::Flac
            } else if l == seq!['a', 'i', 'f'] || l == seq!['a', 'i', 'f', 'f'] {
                Container::Aiff
            } else {
                Container::Wav
            }
        },
        None => Container::Wav,
    }
}

fn lower_char(c: char) -> (r: char)
    ensures
        r == ascii_lower_char(c),
{
    if 'A' <= c && c <= 'Z' {
        ((c as u8) + 32) as char
    } else {
        c
    }
}

/// `s`, ASCII lower-cased, equals the lower-case word `word`.
fn matches_ignoring_case(s: &str, word: &[char]) -> (r: bool)
    ensures
        r == (ascii_lower(s@) == word@),
{
    let n = s.unicode_len();
    if n != word.len() {
        assert(ascii_lower(s@).len() != word@.len());
        return false;
    }
    let mut i: usize = 0;
    while i < n
        invariant
            n == s@.len() == word@.len(),
            i <= n,
            forall|j: int| 0 <= j < i ==> ascii_lower_char(s@[j]) == word@[j],
        decreases n - i,
    {
        let c = lower_char(s.get_char(i));
        if c != word[i] {
            assert(ascii_lower(s@)[i as int] != word@[i as int]);
            return false;
        }
        i += 1;
    }
    assert(ascii_lower(s@) =~= word@);
    true
}

/// Choose the output container from a path's extension (see [`container_spec`]).
pub fn container_for_extension(ext: Option<&str>) -> (c: Container)
    ensures
        c == container_spec(
            match ext {
                Some(e) => Some(e@),
                None => None,
            },
        ),
{
    match ext {
        None => Container::Wav,
        Some(e) => {
            let flac = ['f', 'l', 'a', 'c'];
            let aif = ['a', 'i', 'f'];
            let aiff = ['a', 'i', 'f', 'f'];
            assert(flac@ =~= seq!['f', 'l', 'a', 'c']);
            assert(aif@ =~= seq!['a', 'i', 'f']);
            assert(aiff@ =~= seq!['a', 'i', 'f', 'f']);
            if matches_ignoring_case(e, flac.as_slice()) {
                Container::Flac
            } else if matches_ignoring_case(e, aif.as_slice()) || matches_ignoring_case(e, aiff.as_slice()) {
                Container::Aiff
            } else {
                Container::Wav
            }
        },
    }
}

/// The container choice ignores ASCII case: an extension selects the same
/// container as its lower-cased form.
pub proof fn lemma_container_ignores_case(e: Seq<char>)
    ensures
        container_spec(Some(e)) == container_spec(Some(ascii_lower(e))),
{
    assert(ascii_lower(ascii_lower(e)) =~= ascii_lower(e));
}

} // verus!
