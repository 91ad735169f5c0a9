//! The xorshift64 generators behind the toolbox's test-signal noise and its
//! triangular dither.
use vstd::prelude::*;

verus! {

/// One xorshift64 step (shifts 13, 17, 5).
pub open spec fn xorshift_spec(x: u64) -> u64 {
    let a = x ^ (x << 13u64);
    let b = a ^ (a >> 17u64);
    b ^ (b << 5u64)
}

/// The generator state after `k` steps from `seed`.
pub open spec fn xorshift_iter(seed: u64, k: nat) -> u64
    decreases k,
{
    if k == 0 { seed } else { xorshift_spec(xorshift_iter(seed, (k - 1) as nat)) }
}

/// Advance the generator one step.
pub fn xorshift64(state: u64) -> (r: u64)
    ensures
        r == xorshift_spec(state),
{
    let mut x = state;
    x ^= x << 13u64;
    x ^= x >> 17u64;
    x ^= x << 5u64;
    x
}

/// The first `count` states after `seed`, one per generated sample.
pub fn xorshift_states(seed: u64, count: usize) -> (r: Vec<u64>)
    ensures
        r@.len() == count,
        forall|i: int| 0 <= i < count ==> #[trigger] r@[i] == xorshift_iter(seed, (i + 1) as nat),
{
    let mut out: Vec<u64> = Vec::new();
    let mut x = seed;
    let mut i: usize = 0;
    while i < count
        invariant
            i <= count,
            out@.len() == i,
            x == xorshift_iter(seed, i as nat),
            forall|j: int| 0 <= j < i ==> #[trigger] out@[j] == xorshift_iter(seed, (j + 1) as nat),
        decreases count - i,
    {
        x = xorshift64(x);
        out.push(x);
        i += 1;
    }
    out
}

/// A non-zero state never steps to zero, so the generator cannot get stuck.
pub proof fn lemma_xorshift_nonzero(x: u64)
    requires
        x != 0,
    ensures
        xorshift_spec(x) != 0,
{
    let a = x ^ (x << 13u64);
    assert(a != 0) by (bit_vector)
        requires
            x != 0,
            a == x ^ (x << 13u64),
    ;
    let b = a ^ (a >> 17u64);
    assert(b != 0) by (bit_vector)
        requires
            a != 0,
            b == a ^ (a >> 17u64),
    ;
    let c = b ^ (b << 5u64);
    assert(c != 0) by (bit_vector)
        requires
            b != 0,
            c == b ^ (b << 5u64),
    ;
}

/// From a non-zero seed, every state the generator reaches is non-zero.
pub proof fn lemma_xorshift_never_zero(seed: u64, k: nat)
    requires
        seed != 0,
    ensures
        xorshift_iter(seed, k) != 0,
    decreases k,
{
    if k > 0 {
        lemma_xorshift_never_zero(seed, (k - 1) as nat);
        lemma_xorshift_nonzero(xorshift_iter(seed, (k - 1) as nat));
    }
}

/// The seed of the dither generator.
pub const DITHER_SEED: u64 = 0xDEADBEEF;

/// One step of the dither generator (shifts 13, 7, 17).
pub open spec fn dither_step_spec(x: u64) -> u64 {
    let a = x ^ (x << 13u64);
    let b = a ^ (a >> 7u64);
    b ^ (b << 17u64)
}

/// The dither generator's state after `k` steps from [`DITHER_SEED`].
pub open spec fn dither_iter(k: nat) -> u64
    decreases k,
{
    if k == 0 { DITHER_SEED } else { dither_step_spec(dither_iter((k - 1) as nat)) }
}

/// Advance the dither generator one step.
pub fn dither_step(state: u64) -> (r: u64)
    ensures
        r == dither_step_spec(state),
{
    let mut x = state;
    x ^= x << 13u64;
    x ^= x >> 7u64;
    x ^= x << 17u64;
    x
}

/// The generator states that dither `samples` samples: two draws per sample,
/// summed into one triangular-PDF offset; sample `i` takes draws `2i` and
/// `2i + 1`.
pub fn dither_states(samples: usize) -> (r: Vec<u64>)
    requires
        samples <= usize::MAX / 2,
    ensures
        r@.len() == 2 * samples,
        forall|i: int| 0 <= i < 2 * samples ==> #[trigger] r@[i] == dither_iter((i + 1) as nat),
{
    let count = 2 * samples;
    let mut out: Vec<u64> = Vec::new();
    let mut x = DITHER_SEED;
    let mut i: usize = 0;
    while i < count
        invariant
            i <= count == 2 * samples,
            out@.len() == i,
            x == dither_iter(i as nat),
            forall|j: int| 0 <= j < i ==> #[trigger] out@[j] == dither_iter((j + 1) as nat),
        decreases count - i,
    {
        x = dither_step(x);
        out.push(x);
        i += 1;
    }
    out
}

/// A non-zero state of the dither generator never steps to zero.
pub proof fn lemma_dither_nonzero(x: u64)
    requires
        x != 0,
    ensures
        dither_step_spec(x) != 0,
{
    let a = x ^ (x << 13u64);
    assert(a != 0) by (bit_vector)
        requires
            x != 0,
            a == x ^ (x << 13u64),
    ;
    let b = a ^ (a >> 7u64);
    assert(b != 0) by (bit_vector)
        requires
            a != 0,
            b == a ^ (a >> 7u64),
    ;
    let c = b ^ (b << 17u64);
    assert(c != 0) by (bit_vector)
        requires
            b != 0,
            c == b ^ (b << 17u64),
    ;
}

/// Every state the dither generator reaches is non-zero.
pub proof fn lemma_dither_never_zero(k: nat)
    ensures
        dither_iter(k) != 0,
    decreases k,
{
    if k > 0 {
        lemma_dither_never_zero((k - 1) as nat);
        lemma_dither_nonzero(dither_iter((k - 1) as nat));
    }
}

} // verus!
