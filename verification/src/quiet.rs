//! Choice of the quiet windows a noise print is learned from.
//!
//! Non-overlapping tiles are ranked by level (quietest first) by the caller;
//! from the quietest part of that ranking, windows are taken evenly by level
//! and returned in time order.
use vstd::prelude::*;

verus! {

/// The values of `s` strictly increase.
pub open spec fn strictly_increasing(s: Seq<usize>) -> bool {
    forall|a: int, b: int| 0 <= a < b < s.len() ==> #[trigger] s[a] < #[trigger] s[b]
}

/// Rank of the `k`-th of `p` picks evenly spread over a pool of `q` ranks:
/// `k · (q − 1) / (p − 1)`, or 0 when only one is picked.
pub open spec fn even_rank(k: int, q: int, p: int) -> int {
    if p <= 1 { 0 } else { k * (q - 1) / (p - 1) }
}

/// The pool size: `n_quiet` clamped to `1..=len`.
pub open spec fn pool_size(n_quiet: usize, len: int) -> int {
    if n_quiet < 1 { 1 } else if n_quiet > len { len } else { n_quiet as int }
}

/// Number of picks: `n_pick`, at most the pool size.
pub open spec fn pick_count(n_pick: usize, pool: int) -> int {
    if n_pick > pool { pool } else { n_pick as int }
}

/// `x` is the start of one of the even picks from `ranked`.
pub open spec fn is_pick(ranked: Seq<usize>, n_quiet: usize, n_pick: usize, x: usize) -> bool {
    let q = pool_size(n_quiet, ranked.len() as int);
    let p = pick_count(n_pick, q);
    exists|k: int| 0 <= k < p && #[trigger] ranked[even_rank(k, q, p)] == x
}

proof fn lemma_even_rank_bound(k: int, q: int, p: int)
    requires
        0 <= k < p <= q,
    ensures
        0 <= even_rank(k, q, p) < q,
{
    if p > 1 {
        assert(0 <= k * (q - 1) / (p - 1) <= q - 1) by (nonlinear_arith)
            requires
                0 <= k <= p - 1,
                p - 1 >= 1,
                q - 1 >= p - 1,
        {
            vstd::arithmetic::div_mod::lemma_div_is_ordered(k * (q - 1), (p - 1) * (q - 1), p - 1);
            vstd::arithmetic::div_mod::lemma_div_multiples_vanish(q - 1, p - 1);
        }
    }
}

/// Insert `x` into a strictly increasing vector unless it is already there.
fn insert_sorted_unique(v: &mut Vec<usize>, x: usize)
    requires
        strictly_increasing(old(v)@),
    ensures
        strictly_increasing(final(v)@),
        forall|y: usize| final(v)@.contains(y) <==> (old(v)@.contains(y) || y == x),
{
    let mut i: usize = 0;
    while i < v.len() && v[i] < x
        invariant
            i <= v.len(),
            v@ == old(v)@,
            strictly_increasing(v@),
            forall|j: int| 0 <= j < i ==> #[trigger] v@[j] < x,
        decreases v.len() - i,
    {
        i += 1;
    }
    if i < v.len() && v[i] == x {
        assert(v@[i as int] == x);
        assert(old(v)@.contains(x));
        assert(forall|y: usize| v@.contains(y) <==> (old(v)@.contains(y) || y == x));
        return;
    }
    let ghost before = v@;
    v.insert(i, x);
    proof {
        assert forall|y: usize| v@.contains(y) <==> (before.contains(y) || y == x) by {
            if v@.contains(y) {
                let j = choose|j: int| 0 <= j < v@.len() && v@[j] == y;
                if j < i {
                    assert(before[j] == y);
                } else if j > i {
                    assert(before[j - 1] == y);
                }
            }
            if before.contains(y) {
                let j = choose|j: int| 0 <= j < before.len() && before[j] == y;
                if j < i {
                    assert(v@[j] == y);
                } else {
                    assert(v@[j + 1] == y);
                }
            }
            if y == x {
                assert(v@[i as int] == x);
            }
        }
        assert(before == old(v)@);
        assert(forall|y: usize| v@.contains(y) <==> (old(v)@.contains(y) || y == x));
        assert(strictly_increasing(v@)) by {
            assert forall|a: int, b: int| 0 <= a < b < v@.len() implies #[trigger] v@[a] < #[trigger] v@[b] by {
                if b < i {
                } else if a < i && b == i {
                } else if a < i && b > i {
                    assert(before[a] < before[b - 1] || a == b - 1);
                } else if a == i {
                    assert(before[b - 1] > x) by {
                        if b - 1 > i {
                            assert(before[i as int] < before[b - 1]);
                        }
                    }
                } else {
                }
            }
        }
    }
}

/// Window starts to learn a noise print from. `ranked` holds the window
/// starts quietest first; the pool is the first `n_quiet` of them (clamped to
/// `1..=len`), and `n_pick` picks (at most the pool) are taken evenly by rank
/// (see [`even_rank`]). The result is the distinct picked starts in increasing
/// order; empty when there are no windows or no picks are asked for.
pub fn pick_even_by_level(ranked: &Vec<usize>, n_quiet: usize, n_pick: usize) -> (r: Vec<usize>)
    ensures
        strictly_increasing(r@),
        (ranked@.len() == 0 || n_pick == 0) ==> r@.len() == 0,
        (ranked@.len() > 0 && n_pick > 0) ==> forall|x: usize|
            r@.contains(x) <==> is_pick(ranked@, n_quiet, n_pick, x),
{
    let mut out: Vec<usize> = Vec::new();
    let len = ranked.len();
    if len == 0 || n_pick == 0 {
        return out;
    }
    let q: usize = if n_quiet < 1 { 1 } else if n_quiet > len { len } else { n_quiet };
    let p: usize = if n_pick > q { q } else { n_pick };
    let ghost gq = pool_size(n_quiet, len as int);
    let ghost gp = pick_count(n_pick, gq);
    assert(q == gq && p == gp);
    let mut k: usize = 0;
    while k < p
        invariant
            len == ranked@.len() > 0,
            q == gq,
            p == gp,
            1 <= p <= q <= len,
            k <= p,
            strictly_increasing(out@),
            forall|x: usize| out@.contains(x) <==> exists|j: int| 0 <= j < k && #[trigger] ranked@[even_rank(j, q as int, p as int)] == x,
        decreases p - k,
    {
        let idx: usize = if p == 1 {
            0
        } else {
            let a: u128 = k as u128;
            let b: u128 = (q - 1) as u128;
            assert(a * b <= 0xffff_ffff_ffff_ffff_ffff_ffff_ffff_ffffint) by {
                vstd::arithmetic::mul::lemma_mul_upper_bound(
                    a as int, 0xffff_ffff_ffff_ffff, b as int, 0xffff_ffff_ffff_ffff);
            }
            let wide: u128 = a * b / ((p - 1) as u128);
            proof {
                lemma_even_rank_bound(k as int, q as int, p as int);
            }
            wide as usize
        };
        proof {
            lemma_even_rank_bound(k as int, q as int, p as int);
        }
        assert(idx == even_rank(k as int, q as int, p as int));
        let x = ranked[idx];
        let ghost before = out@;
        insert_sorted_unique(&mut out, x);
        proof {
            assert forall|y: usize| out@.contains(y) <==> exists|j: int| 0 <= j < k + 1 && #[trigger] ranked@[even_rank(j, q as int, p as int)] == y by {
                if out@.contains(y) && y != x {
                    assert(before.contains(y));
                }
                if exists|j: int| 0 <= j < k + 1 && #[trigger] ranked@[even_rank(j, q as int, p as int)] == y {
                    let j = choose|j: int| 0 <= j < k + 1 && #[trigger] ranked@[even_rank(j, q as int, p as int)] == y;
                    if j < k {
                        assert(before.contains(y));
                    }
                }
            }
        }
        k += 1;
    }
    out
}

/// Starts of the non-overlapping `win`-sample tiles of an `n`-sample signal:
/// `0, win, 2·win, …` while the tile fits.
pub open spec fn tiles_spec(n: nat, win: nat) -> Seq<usize> {
    Seq::new(n / win, |i: int| (i * win) as usize)
}

/// The tiles of an `n`-sample signal (see [`tiles_spec`]); the caller drops
/// the digitally silent ones and ranks the rest by level.
pub fn tile_starts(n: usize, win: usize) -> (r: Vec<usize>)
    requires
        win > 0,
    ensures
        r@ == tiles_spec(n as nat, win as nat),
        forall|i: int| 0 <= i < r@.len() ==> #[trigger] r@[i] + win <= n,
{
    let mut out: Vec<usize> = Vec::new();
    let mut start: usize = 0;
    let ghost count = n as nat / win as nat;
    proof {
        vstd::arithmetic::div_mod::lemma_fundamental_div_mod(n as int, win as int);
        assert(out@.len() * win == 0) by (nonlinear_arith)
            requires
                out@.len() == 0;
        assert(count * win <= n) by (nonlinear_arith)
            requires
                count == n as nat / win as nat,
                n == win * (n as int / win as int) + n as int % win as int,
                n as int % win as int >= 0;
    }
    while start <= n && n - start >= win
        invariant
            win > 0,
            count == n as nat / win as nat,
            count * win <= n,
            start == out@.len() * win,
            out@.len() <= count,
            out@ == tiles_spec(n as nat, win as nat).take(out@.len() as int),
        decreases n - start,
    {
        proof {
            vstd::arithmetic::mul::lemma_mul_is_distributive_add_other_way(win as int, out@.len() as int, 1);
            if out@.len() == count {
                vstd::arithmetic::div_mod::lemma_fundamental_div_mod(n as int, win as int);
                assert(n as int % win as int >= win) by (nonlinear_arith)
                    requires
                        start == count * win,
                        n - start >= win,
                        n == win * count + n as int % win as int;
                assert(false);
            }
        }
        let ghost before = out@;
        out.push(start);
        assert(out@ =~= tiles_spec(n as nat, win as nat).take(out@.len() as int));
        start += win;
    }
    proof {
        if out@.len() < count {
            vstd::arithmetic::mul::lemma_mul_is_distributive_add_other_way(win as int, out@.len() as int, 1);
            vstd::arithmetic::mul::lemma_mul_inequality(out@.len() + 1int, count as int, win as int);
        }
    }
    assert(out@ =~= tiles_spec(n as nat, win as nat));
    proof {
        assert forall|i: int| 0 <= i < out@.len() implies #[trigger] out@[i] + win <= n by {
            vstd::arithmetic::mul::lemma_mul_is_distributive_add_other_way(win as int, i, 1);
            vstd::arithmetic::mul::lemma_mul_inequality(i + 1, count as int, win as int);
        }
    }
    out
}

} // verus!
