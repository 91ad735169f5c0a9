//! Frame layouts of the short-time transforms.
use vstd::prelude::*;

verus! {

/// `count` frame starts `0, hop, 2·hop, …`.
pub open spec fn grid(count: nat, hop: nat) -> Seq<usize> {
    Seq::new(count, |i: int| (i * hop) as usize)
}

/// Frame starts of a hop-`hop` layout of length-`l` frames over `n` samples:
/// every multiple of `hop` up to `n - l`, then `n - l` itself when it is not
/// one of them, so the last frame ends flush with the signal. No frames when
/// the signal is shorter than one frame.
pub open spec fn frame_starts_spec(n: nat, l: nat, hop: nat) -> Seq<usize> {
    if n < l {
        seq![]
    } else {
        let last = (n - l) as nat;
        let g = grid(last / hop + 1, hop);
        if last % hop == 0 {
            g
        } else {
            g.push(last as usize)
        }
    }
}

/// Frame starts for an overlapped analysis layout, last frame flush to the
/// end (see [`frame_starts_spec`]). `hop` must be non-zero.
pub fn frame_starts(n: usize, l: usize, hop: usize) -> (r: Vec<usize>)
    requires
        hop > 0,
    ensures
        r@ == frame_starts_spec(n as nat, l as nat, hop as nat),
{
    let mut starts: Vec<usize> = Vec::new();
    if n < l {
        return starts;
    }
    let last = n - l;
    let mut s: usize = 0;
    assert(0 * hop == 0) by (nonlinear_arith);
    loop
        invariant_except_break
            s == starts.len() * hop,
        invariant
            hop > 0,
            last == n - l,
            s <= last,
            starts@ == grid(starts.len() as nat, hop as nat),
        ensures
            s <= last < s + hop,
            s == (starts.len() - 1) * hop,
            starts.len() >= 1,
            starts@ == grid(starts.len() as nat, hop as nat),
        decreases last - s,
    {
        starts.push(s);
        assert(starts@ =~= grid(starts.len() as nat, hop as nat));
        if last - s < hop {
            break;
        }
        s = s + hop;
        assert(s == starts.len() * hop) by (nonlinear_arith)
            requires
                s == (starts.len() - 1) * hop + hop,
        ;
    }
    let k = starts.len();
    proof {
        let q = (k - 1) as int;
        assert(last as int / hop as int == q && last as int % hop as int == last - s) by (nonlinear_arith)
            requires
                hop > 0,
                s == q * hop,
                s <= last < s + hop,
        {
            vstd::arithmetic::div_mod::lemma_fundamental_div_mod_converse(
                last as int, hop as int, q, last - s);
        }
    }
    if s != last {
        starts.push(last);
    }
    assert(starts@ =~= frame_starts_spec(n as nat, l as nat, hop as nat));
    starts
}

/// Sample `p` lies inside some length-`l` frame starting at an element of `starts`.
pub open spec fn covered(starts: Seq<usize>, l: nat, p: nat) -> bool {
    exists|i: int| 0 <= i < starts.len() && #[trigger] starts[i] <= p < starts[i] + l
}

/// The layout's frames lie inside the signal and walk it in order: the first
/// starts at 0, the last ends flush at `n`, starts strictly increase and no two
/// consecutive starts are more than `hop` apart, so with `hop <= l` every
/// sample lies in some frame.
pub proof fn lemma_frame_layout(n: nat, l: nat, hop: nat)
    requires
        hop > 0,
        l <= n,
        n <= usize::MAX,
    ensures
        ({
            let s = frame_starts_spec(n, l, hop);
            &&& s.len() >= 1
            &&& s[0] == 0
            &&& s.last() == n - l
            &&& forall|i: int| 0 <= i < s.len() ==> s[i] + l <= n
            &&& forall|i: int| 0 <= i < s.len() - 1 ==> #[trigger] s[i] < s[i + 1] <= s[i] + hop
        }),
        hop <= l ==> forall|p: nat| p < n ==> #[trigger] covered(frame_starts_spec(n, l, hop), l, p),
{
    let s = frame_starts_spec(n, l, hop);
    let last = (n - l) as nat;
    let q = last / hop;
    assert(q * hop <= last < q * hop + hop) by (nonlinear_arith)
        requires
            hop > 0,
            q == last / hop,
    {
        vstd::arithmetic::div_mod::lemma_fundamental_div_mod(last as int, hop as int);
    }
    assert(last == q * hop + last % hop) by {
        vstd::arithmetic::div_mod::lemma_fundamental_div_mod(last as int, hop as int);
        vstd::arithmetic::mul::lemma_mul_is_commutative(q as int, hop as int);
    }
    assert forall|i: int| 0 <= i <= q implies #[trigger] (i * hop) <= q * hop by {
        vstd::arithmetic::mul::lemma_mul_inequality(i, q as int, hop as int);
    }
    assert forall|i: int| 0 <= i < q implies #[trigger] ((i + 1) * hop) == i * hop + hop by {
        vstd::arithmetic::mul::lemma_mul_is_distributive_add_other_way(hop as int, i, 1);
    }
    assert(s[0] == 0);
    assert(s.last() == n - l) by {
        if last % hop == 0 {
            assert(q * hop == last) by (nonlinear_arith)
                requires
                    hop > 0,
                    q == last / hop,
                    last % hop == 0,
            {
                vstd::arithmetic::div_mod::lemma_fundamental_div_mod(last as int, hop as int);
            }
        }
    }
    assert forall|i: int| 0 <= i < s.len() implies s[i] + l <= n by {
        if i <= q {
            assert(i * hop <= q * hop);
        }
    }
    assert forall|i: int| 0 <= i < s.len() - 1 implies #[trigger] s[i] < s[i + 1] <= s[i] + hop by {
        if i < q {
            assert((i + 1) * hop == i * hop + hop);
            assert(i * hop <= q * hop);
            assert((i + 1) * hop <= q * hop);
        } else {
            assert(i * hop <= q * hop);
            assert(i == q);
        }
    }
    if hop <= l {
        assert forall|p: nat| p < n implies #[trigger] covered(s, l, p) by {
            lemma_covering_frame(s, l, n, p, 0);
        }
    }
}

/// Walking a start sequence from index `j` with `s[j] <= p`, some frame holds
/// `p` when consecutive starts are at most `l` apart and the last frame ends
/// at `n`.
proof fn lemma_covering_frame(s: Seq<usize>, l: nat, n: nat, p: nat, j: int)
    requires
        0 <= j < s.len(),
        s[j] <= p < n,
        s.last() + l == n,
        forall|i: int| 0 <= i < s.len() - 1 ==> #[trigger] s[i] < s[i + 1] <= s[i] + l,
    ensures
        exists|i: int| 0 <= i < s.len() && #[trigger] s[i] <= p < s[i] + l,
    decreases s.len() - j,
{
    if j == s.len() - 1 {
        assert(s[j] <= p < s[j] + l);
    } else if p < s[j + 1] {
        assert(s[j] <= p < s[j] + l);
    } else {
        lemma_covering_frame(s, l, n, p, j + 1);
    }
}

} // verus!
