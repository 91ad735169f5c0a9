//! Smoothing of the frame-level voice decisions of voice isolation.
//!
//! Each analysis frame is marked voiced by the caller (its energy above a
//! multiple of the noise floor). Short unvoiced gaps between voiced frames are
//! bridged, then a frame stays voiced only when it starts a stretch of at
//! least the minimum number of voiced frames.
use vstd::prelude::*;

verus! {

/// Some frame among the `gap` frames before `i` is voiced.
pub open spec fn voice_before(v: Seq<bool>, gap: int, i: int) -> bool {
    exists|k: int| i - gap <= k < i && 0 <= k && #[trigger] v[k]
}

/// Some frame among the `gap` frames after `i` is voiced.
pub open spec fn voice_after(v: Seq<bool>, gap: int, i: int) -> bool {
    exists|k: int| i < k <= i + gap && k < v.len() && #[trigger] v[k]
}

/// The decisions with gaps bridged: a frame is voiced when it was, or when
/// voiced frames lie within `gap` frames on both sides of it.
pub open spec fn bridged(v: Seq<bool>, gap: int) -> Seq<bool> {
    Seq::new(v.len(), |i: int| v[i] || (voice_before(v, gap, i) && voice_after(v, gap, i)))
}

/// Frames `i .. i + min` all exist and are voiced.
pub open spec fn sustained(b: Seq<bool>, i: int, min: int) -> bool {
    &&& i + min <= b.len()
    &&& forall|t: int| i <= t < i + min ==> #[trigger] b[t]
}

/// The smoothed decisions: after bridging, a frame stays voiced when it is
/// voiced and starts at least `min` consecutive voiced frames.
pub open spec fn smoothed_spec(v: Seq<bool>, gap: int, min: int) -> Seq<bool> {
    let b = bridged(v, gap);
    Seq::new(v.len(), |i: int| b[i] && sustained(b, i, min))
}

/// Bridge unvoiced gaps of up to `max_gap` frames between voiced frames,
/// then drop voiced frames that do not start `min_voice` consecutive voiced
/// frames (see [`smoothed_spec`]). Frames are scanned in order and a short
/// run is cleared from where it is found to its end, so within a long run
/// the last `min_voice - 1` frames are dropped as well.
pub fn smooth_voice_frames(voiced: &Vec<bool>, max_gap: usize, min_voice: usize) -> (r: Vec<bool>)
    ensures
        r@ == smoothed_spec(voiced@, max_gap as int, min_voice as int),
{
    let n = voiced.len();
    let ghost v = voiced@;
    let ghost g = max_gap as int;
    // Nearest voiced frame after each frame (`n` when there is none).
    let mut next: Vec<usize> = Vec::new();
    let mut k: usize = 0;
    while k < n
        invariant
            k <= n,
            next@.len() == k,
        decreases n - k,
    {
        next.push(n);
        k += 1;
    }
    let mut nv: usize = n;
    let mut i: usize = n;
    while i > 0
        invariant
            n == v.len(),
            v == voiced@,
            i <= n,
            next@.len() == n,
            i <= nv <= n,
            nv < n ==> v[nv as int],
            forall|t: int| i <= t < nv ==> !#[trigger] v[t],
            forall|j: int| i <= j < n ==> {
                let x = #[trigger] next@[j];
                &&& j < x <= n
                &&& x < n ==> v[x as int]
                &&& forall|t: int| j < t < x ==> !#[trigger] v[t]
            },
        decreases i,
    {
        i -= 1;
        next.set(i, nv);
        if voiced[i] {
            nv = i;
        }
    }
    // Bridging, scanning forward with the nearest voiced frame before.
    let mut b: Vec<bool> = Vec::new();
    let mut last: Option<usize> = None;
    let mut i: usize = 0;
    while i < n
        invariant
            n == v.len(),
            v == voiced@,
            g == max_gap as int,
            i <= n,
            next@.len() == n,
            forall|j: int| 0 <= j < n ==> {
                let x = #[trigger] next@[j];
                &&& j < x <= n
                &&& x < n ==> v[x as int]
                &&& forall|t: int| j < t < x ==> !#[trigger] v[t]
            },
            match last {
                None => forall|t: int| 0 <= t < i ==> !#[trigger] v[t],
                Some(p) => p < i && v[p as int] && forall|t: int| p < t < i ==> !#[trigger] v[t],
            },
            b@.len() == i,
            forall|j: int| 0 <= j < i ==> #[trigger] b@[j] == bridged(v, g)[j],
        decreases n - i,
    {
        let before = match last {
            Some(p) => i - p <= max_gap,
            None => false,
        };
        let x = next[i];
        let after = x < n && x - i <= max_gap;
        proof {
            if voice_before(v, g, i as int) {
                let k = choose|k: int| i - g <= k < i && 0 <= k && #[trigger] v[k];
                assert(v[k]);
            }
            if before {
                let p = last->0;
                assert(v[p as int]);
            }
            if voice_after(v, g, i as int) {
                let k = choose|k: int| i < k <= i + g && k < v.len() && #[trigger] v[k];
                assert(v[k]);
            }
            if after {
                assert(v[x as int]);
            }
        }
        let bi = voiced[i] || (before && after);
        b.push(bi);
        if voiced[i] {
            last = Some(i);
        }
        i += 1;
    }
    let ghost bs = bridged(v, g);
    assert(b@ =~= bs);
    // Keep a frame when the voiced stretch it starts is long enough.
    let mut out: Vec<bool> = Vec::new();
    let mut k: usize = 0;
    while k < n
        invariant
            k <= n,
            out@.len() == k,
        decreases n - k,
    {
        out.push(false);
        k += 1;
    }
    let mut cnt: usize = 0;
    let mut i: usize = n;
    while i > 0
        invariant
            n == v.len() == bs.len(),
            b@ == bs,
            bs == bridged(v, g),
            i <= n,
            out@.len() == n,
            i + cnt <= n,
            forall|t: int| i <= t < i + cnt ==> #[trigger] bs[t],
            i + cnt == n || !bs[i + cnt],
            forall|j: int| i <= j < n ==> #[trigger] out@[j] == smoothed_spec(v, g, min_voice as int)[j],
        decreases i,
    {
        i -= 1;
        if b[i] {
            cnt += 1;
        } else {
            cnt = 0;
        }
        let keep = b[i] && cnt >= min_voice;
        proof {
            let ii = i as int;
            if b[ii] && cnt < min_voice {
                let t = ii + cnt;
                assert(!(t < bs.len() && bs[t]));
                if t < bs.len() {
                    assert(!bs[t]);
                }
            }
            if keep {
                assert forall|t: int| ii <= t < ii + min_voice implies #[trigger] bs[t] by {
                    assert(ii <= t < ii + cnt);
                }
            }
            assert(keep == (bs[ii] && sustained(bs, ii, min_voice as int)));
        }
        out.set(i, keep);
    }
    assert(out@ =~= smoothed_spec(v, g, min_voice as int));
    out
}

} // verus!
