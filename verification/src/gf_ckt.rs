//! Circuits for the arithmetic of GF(2^233): an element is carried on 233
//! wires, coefficient `i` on wire `g[i]`.

use vstd::prelude::*;

use crate::builder::{appends, grows, room, CircuitTrait};
use crate::curve_ckt::{compressed_in, compressed_val, CompressedCurvePoint};
use crate::gf_laws::{lemma_gf_inv_chain, lemma_gf_square_is_mul};
use crate::gf_mul_ckt::{emit_gf_mul, MUL_GATES};
use crate::gf_spec::{
    fold_top, frob_sum, gf_decode_val, gf_mask, gf_add, gf_halftrace, gf_inv, gf_is_zero_val, gf_mul, gf_reduce, gf_sqn,
    gf_square, gf_trace, halftrace_sum, mersenne_pow, spread, wires_val,
};

verus! {

/// The number of coefficients of a field element.
pub const GF_LEN: usize = 233;

/// A field element as wire labels, lowest coefficient first.
pub type Gf = [usize; GF_LEN];

/// Wires that a field addition may add.
pub const ADD_COST: usize = 233;

/// Wires that a reduction of a product may add.
pub const REDUCE_COST: usize = 464;

/// Wires that a squaring may add.
pub const SQUARE_COST: usize = 465;

/// Wires that one step of the trace may add: a squaring and an addition.
pub const TRACE_STEP_COST: usize = 698;

/// Wires that one step of the half-trace may add: two squarings and an addition.
pub const HALFTRACE_STEP_COST: usize = 1163;

/// Gates that a field addition emits.
pub const ADD_GATES: usize = 233;

/// Gates that a squaring emits (its reduction).
pub const SQUARE_GATES: usize = 464;

/// Gates that one step of the trace emits: a squaring and an addition.
pub const TRACE_STEP_GATES: usize = 697;

/// Gates that the trace emits.
pub const TRACE_GATES: usize = 161_704;

/// Gates that one step of the half-trace emits: two squarings and an addition.
pub const HALFTRACE_STEP_GATES: usize = 1161;

/// Gates that the half-trace emits.
pub const HALFTRACE_GATES: usize = 134_676;

/// Gates that the zero test emits.
pub const IS_ZERO_GATES: usize = 233;

/// Gates that decoding a field element emits.
pub const DECODE_GATES: usize = 7;

/// Gates that the inversion chain for `a^(2^k - 1)` emits.
pub open spec fn chain_gates(k: nat) -> nat
    decreases k,
{
    if k <= 1 {
        0
    } else if k % 2 == 0 {
        (chain_gates(k / 2) + (k / 2) * SQUARE_GATES + MUL_GATES) as nat
    } else {
        (chain_gates((k - 1) as nat) + SQUARE_GATES + MUL_GATES) as nat
    }
}

/// Gates that an inversion emits.
pub open spec fn inv_gates() -> nat {
    (chain_gates(232) + SQUARE_GATES) as nat
}

/// Wires that the trace may add.
pub const TRACE_COST: usize = 162_000;

/// Wires that the half-trace may add.
pub const HALFTRACE_COST: usize = 135_000;

/// Wires that one step of the inversion chain may add.
pub const CHAIN_STEP_COST: usize = 218_465;

/// Wires that an inversion may add.
pub const INV_COST: usize = 51_000_000;

/// Wires that the zero test may add.
pub const IS_ZERO_COST: usize = 240;

/// Wires that decoding a field element may add.
pub const DECODE_COST: usize = 10;

/// The field element carried by `g` under the assignment `w`.
pub open spec fn gf_val(w: Seq<bool>, g: Gf) -> Seq<bool> {
    Seq::new(233, |i: int| w[g[i] as int])
}

/// Every wire of `g` is allocated in `b`.
pub open spec fn gf_in<T: CircuitTrait>(b: T, g: Gf) -> bool {
    forall|i: int| 0 <= i < 233 ==> #[trigger] g[i] < b.wire_count()
}

/// Every wire of `ws` is allocated in `b`.
pub open spec fn wires_in<T: CircuitTrait>(b: T, ws: Seq<usize>) -> bool {
    forall|i: int| 0 <= i < ws.len() ==> #[trigger] ws[i] < b.wire_count()
}

/// Emits the field sum `a + b`.
pub fn emit_gf_add<T: CircuitTrait>(bld: &mut T, a: &Gf, b: &Gf) -> (r: Gf)
    requires
        gf_in(*old(bld), *a),
        gf_in(*old(bld), *b),
        room(*old(bld), ADD_COST as nat),
    ensures
        grows(*old(bld), *final(bld), ADD_COST as nat),
        appends(*old(bld), *final(bld), ADD_GATES as nat),
        gf_in(*final(bld), r),
        forall|w: Seq<bool>| #[trigger]
            final(bld).sat(w) ==> gf_val(w, r) == gf_add(gf_val(w, *a), gf_val(w, *b)),
{
    let mut r: Gf = [0usize; GF_LEN];
    let mut i: usize = 0;
    while i < GF_LEN
        invariant
            i <= GF_LEN,
            gf_in(*old(bld), *a),
            gf_in(*old(bld), *b),
            room(*old(bld), ADD_COST as nat),
            grows(*old(bld), *bld, i as nat),
            appends(*old(bld), *bld, i as nat),
            forall|j: int| 0 <= j < i ==> #[trigger] r[j] < bld.wire_count(),
            forall|w: Seq<bool>| #[trigger]
                bld.sat(w) ==> forall|j: int|
                    0 <= j < i ==> w[#[trigger] r[j] as int] == (w[a[j] as int] != w[b[j] as int]),
        decreases GF_LEN - i,
    {
        let x = bld.xor_wire(a[i], b[i]);
        r[i] = x;
        i = i + 1;
    }
    proof {
        assert forall|w: Seq<bool>| #[trigger] bld.sat(w) implies gf_val(w, r) == gf_add(
            gf_val(w, *a),
            gf_val(w, *b),
        ) by {
            assert(gf_val(w, r) =~= gf_add(gf_val(w, *a), gf_val(w, *b)));
        }
    }
    r
}


/// Emits the reduction modulo `x^233 + x^74 + 1` of the polynomial carried by
/// `c` (coefficient `i` on wire `c[i]`), folding the top term down each step.
pub fn emit_gf_reduce<T: CircuitTrait>(bld: &mut T, c: Vec<usize>) -> (r: Gf)
    requires
        233 <= c.len() <= 465,
        wires_in(*old(bld), c@),
        room(*old(bld), REDUCE_COST as nat),
    ensures
        grows(*old(bld), *final(bld), REDUCE_COST as nat),
        appends(*old(bld), *final(bld), (2 * (c.len() - 233)) as nat),
        gf_in(*final(bld), r),
        forall|w: Seq<bool>| #[trigger]
            final(bld).sat(w) ==> gf_val(w, r) == gf_reduce(wires_val(w, c@)),
{
    let mut cur = c;
    while cur.len() > GF_LEN
        invariant
            233 <= cur.len() <= c.len() <= 465,
            room(*old(bld), REDUCE_COST as nat),
            grows(*old(bld), *bld, (2 * (c.len() - cur.len())) as nat),
            appends(*old(bld), *bld, (2 * (c.len() - cur.len())) as nat),
            wires_in(*bld, cur@),
            forall|w: Seq<bool>| #[trigger]
                bld.sat(w) ==> gf_reduce(wires_val(w, cur@)) == gf_reduce(wires_val(w, c@)),
        decreases cur.len(),
    {
        let ghost before = cur@;
        let d = cur.len() - 1;
        let top = cur[d];
        let x = bld.xor_wire(cur[d - 233], top);
        cur.set(d - 233, x);
        let y = bld.xor_wire(cur[d - 159], top);
        cur.set(d - 159, y);
        cur.pop();
        proof {
            assert forall|w: Seq<bool>| #[trigger] bld.sat(w) implies gf_reduce(wires_val(w, cur@))
                == gf_reduce(wires_val(w, c@)) by {
                let v = wires_val(w, before);
                assert(wires_val(w, cur@) =~= fold_top(v));
                assert(gf_reduce(v) == gf_reduce(fold_top(v)));
            }
        }
    }
    let mut r: Gf = [0usize; GF_LEN];
    let mut i: usize = 0;
    while i < GF_LEN
        invariant
            i <= GF_LEN,
            cur.len() == 233,
            wires_in(*bld, cur@),
            forall|j: int| 0 <= j < i ==> r[j] == cur@[j],
        decreases GF_LEN - i,
    {
        r[i] = cur[i];
        i = i + 1;
    }
    proof {
        assert forall|w: Seq<bool>| #[trigger] bld.sat(w) implies gf_val(w, r) == gf_reduce(
            wires_val(w, c@),
        ) by {
            let v = wires_val(w, cur@);
            assert(v + Seq::new(0, |i: int| false) =~= v);
            assert(gf_val(w, r) =~= v);
        }
    }
    r
}

/// Emits the square `a^2`: the coefficients of `a` spread to the even
/// positions, then reduced.
pub fn emit_gf_square<T: CircuitTrait>(bld: &mut T, a: &Gf) -> (r: Gf)
    requires
        gf_in(*old(bld), *a),
        room(*old(bld), SQUARE_COST as nat),
    ensures
        grows(*old(bld), *final(bld), SQUARE_COST as nat),
        appends(*old(bld), *final(bld), SQUARE_GATES as nat),
        gf_in(*final(bld), r),
        forall|w: Seq<bool>| #[trigger] final(bld).sat(w) ==> gf_val(w, r) == gf_square(gf_val(w, *a)),
        forall|w: Seq<bool>| #[trigger]
            final(bld).sat(w) ==> gf_val(w, r) == gf_mul(gf_val(w, *a), gf_val(w, *a)),
{
    let z = bld.zero();
    let mut c: Vec<usize> = Vec::new();
    let mut k: usize = 0;
    while k < 465
        invariant
            k <= 465,
            c.len() == k,
            gf_in(*bld, *a),
            appends(*old(bld), *bld, 0),
            z < bld.wire_count(),
            forall|j: int| 0 <= j < k ==> #[trigger] c@[j] == (if j % 2 == 0 { a[j / 2] } else { z }),
        decreases 465 - k,
    {
        if k % 2 == 0 {
            c.push(a[k / 2]);
        } else {
            c.push(z);
        }
        k = k + 1;
    }
    let ghost mid = *bld;
    assert(wires_in(*bld, c@));
    let r = emit_gf_reduce(bld, c);
    proof {
        assert forall|w: Seq<bool>| #[trigger] bld.sat(w) implies gf_val(w, r) == gf_square(
            gf_val(w, *a),
        ) by {
            assert(mid.sat(w));
            assert(wires_val(w, c@) =~= spread(gf_val(w, *a)));
        }
        assert forall|w: Seq<bool>| #[trigger] bld.sat(w) implies gf_val(w, r) == gf_mul(
            gf_val(w, *a),
            gf_val(w, *a),
        ) by {
            lemma_gf_square_is_mul(gf_val(w, *a));
        }
    }
    r
}


/// Emits `a^(2^n)`, squaring `n` times.
pub fn emit_gf_sqn<T: CircuitTrait>(bld: &mut T, a: &Gf, n: usize) -> (r: Gf)
    requires
        n <= 233,
        gf_in(*old(bld), *a),
        room(*old(bld), (n * SQUARE_COST) as nat),
    ensures
        grows(*old(bld), *final(bld), (n * SQUARE_COST) as nat),
        appends(*old(bld), *final(bld), (n * SQUARE_GATES) as nat),
        gf_in(*final(bld), r),
        forall|w: Seq<bool>| #[trigger]
            final(bld).sat(w) ==> gf_val(w, r) == gf_sqn(gf_val(w, *a), n as nat),
{
    let mut x = *a;
    let mut i: usize = 0;
    while i < n
        invariant
            i <= n <= 233,
            gf_in(*old(bld), *a),
            room(*old(bld), (n * SQUARE_COST) as nat),
            grows(*old(bld), *bld, (i * SQUARE_COST) as nat),
            appends(*old(bld), *bld, (i * SQUARE_GATES) as nat),
            gf_in(*bld, x),
            forall|w: Seq<bool>| #[trigger]
                bld.sat(w) ==> gf_val(w, x) == gf_sqn(gf_val(w, *a), i as nat),
        decreases n - i,
    {
        let ghost prev = *bld;
        x = emit_gf_square(bld, &x);
        proof {
            assert forall|w: Seq<bool>| #[trigger] bld.sat(w) implies gf_val(w, x) == gf_sqn(
                gf_val(w, *a),
                (i + 1) as nat,
            ) by {
                assert(prev.sat(w));
            }
        }
        i = i + 1;
    }
    x
}

/// Emits a wire carrying the trace `Tr(a)`.
pub fn emit_gf_trace<T: CircuitTrait>(bld: &mut T, a: &Gf) -> (r: usize)
    requires
        gf_in(*old(bld), *a),
        room(*old(bld), TRACE_COST as nat),
    ensures
        grows(*old(bld), *final(bld), TRACE_COST as nat),
        appends(*old(bld), *final(bld), TRACE_GATES as nat),
        r < final(bld).wire_count(),
        forall|w: Seq<bool>| #[trigger] final(bld).sat(w) ==> w[r as int] == gf_trace(gf_val(w, *a)),
{
    let mut x = *a;
    let mut acc = *a;
    let mut i: usize = 1;
    while i < GF_LEN
        invariant
            1 <= i <= GF_LEN,
            gf_in(*old(bld), *a),
            room(*old(bld), TRACE_COST as nat),
            grows(*old(bld), *bld, ((i - 1) * TRACE_STEP_COST) as nat),
            appends(*old(bld), *bld, ((i - 1) * TRACE_STEP_GATES) as nat),
            gf_in(*bld, x),
            gf_in(*bld, acc),
            forall|w: Seq<bool>| #[trigger]
                bld.sat(w) ==> gf_val(w, x) == gf_sqn(gf_val(w, *a), (i - 1) as nat) && gf_val(w, acc)
                    == frob_sum(gf_val(w, *a), i as nat),
        decreases GF_LEN - i,
    {
        let ghost prev = *bld;
        x = emit_gf_square(bld, &x);
        let ghost mid = *bld;
        acc = emit_gf_add(bld, &acc, &x);
        proof {
            assert forall|w: Seq<bool>| #[trigger] bld.sat(w) implies gf_val(w, x) == gf_sqn(
                gf_val(w, *a),
                i as nat,
            ) && gf_val(w, acc) == frob_sum(gf_val(w, *a), (i + 1) as nat) by {
                assert(mid.sat(w));
                assert(prev.sat(w));
            }
        }
        i = i + 1;
    }
    proof {
        assert forall|w: Seq<bool>| #[trigger] bld.sat(w) implies w[acc@[0] as int] == gf_trace(
            gf_val(w, *a),
        ) by {
            assert(gf_val(w, acc)[0] == w[acc@[0] as int]);
        }
    }
    acc[0]
}

/// Emits the half-trace `H(a)`.
pub fn emit_gf_halftrace<T: CircuitTrait>(bld: &mut T, a: &Gf) -> (r: Gf)
    requires
        gf_in(*old(bld), *a),
        room(*old(bld), HALFTRACE_COST as nat),
    ensures
        grows(*old(bld), *final(bld), HALFTRACE_COST as nat),
        appends(*old(bld), *final(bld), HALFTRACE_GATES as nat),
        gf_in(*final(bld), r),
        forall|w: Seq<bool>| #[trigger]
            final(bld).sat(w) ==> gf_val(w, r) == gf_halftrace(gf_val(w, *a)),
{
    let mut x = *a;
    let mut acc = *a;
    let mut i: usize = 1;
    while i < 117
        invariant
            1 <= i <= 117,
            gf_in(*old(bld), *a),
            room(*old(bld), HALFTRACE_COST as nat),
            grows(*old(bld), *bld, ((i - 1) * HALFTRACE_STEP_COST) as nat),
            appends(*old(bld), *bld, ((i - 1) * HALFTRACE_STEP_GATES) as nat),
            gf_in(*bld, x),
            gf_in(*bld, acc),
            forall|w: Seq<bool>| #[trigger]
                bld.sat(w) ==> gf_val(w, x) == gf_sqn(gf_val(w, *a), (2 * (i - 1)) as nat)
                    && gf_val(w, acc) == halftrace_sum(gf_val(w, *a), i as nat),
        decreases 117 - i,
    {
        let ghost prev = *bld;
        let x1 = emit_gf_square(bld, &x);
        let ghost mid1 = *bld;
        x = emit_gf_square(bld, &x1);
        let ghost mid2 = *bld;
        acc = emit_gf_add(bld, &acc, &x);
        proof {
            assert forall|w: Seq<bool>| #[trigger] bld.sat(w) implies gf_val(w, x) == gf_sqn(
                gf_val(w, *a),
                (2 * i) as nat,
            ) && gf_val(w, acc) == halftrace_sum(gf_val(w, *a), (i + 1) as nat) by {
                assert(mid2.sat(w));
                assert(mid1.sat(w));
                assert(prev.sat(w));
                let av = gf_val(w, *a);
                assert(gf_sqn(av, (2 * i - 1) as nat) == gf_square(gf_sqn(av, (2 * i - 2) as nat)));
                assert(gf_sqn(av, (2 * i) as nat) == gf_square(gf_sqn(av, (2 * i - 1) as nat)));
            }
        }
        i = i + 1;
    }
    acc
}

/// Emits `a^(2^k - 1)` along the Itoh-Tsujii chain.
fn emit_mersenne_pow<T: CircuitTrait>(bld: &mut T, a: &Gf, k: usize) -> (r: Gf)
    requires
        1 <= k <= 232,
        gf_in(*old(bld), *a),
        room(*old(bld), (k * CHAIN_STEP_COST) as nat),
    ensures
        grows(*old(bld), *final(bld), (k * CHAIN_STEP_COST) as nat),
        appends(*old(bld), *final(bld), chain_gates(k as nat)),
        gf_in(*final(bld), r),
        forall|w: Seq<bool>| #[trigger]
            final(bld).sat(w) ==> gf_val(w, r) == mersenne_pow(gf_val(w, *a), k as nat),
    decreases k,
{
    if k == 1 {
        *a
    } else if k % 2 == 0 {
        let ghost b0 = *bld;
        let h = emit_mersenne_pow(bld, a, k / 2);
        let ghost b1 = *bld;
        let hs = emit_gf_sqn(bld, &h, k / 2);
        let ghost b2 = *bld;
        let r = emit_gf_mul(bld, &hs, &h);
        proof {
            assert forall|w: Seq<bool>| #[trigger] bld.sat(w) implies gf_val(w, r) == mersenne_pow(
                gf_val(w, *a),
                k as nat,
            ) by {
                assert(b2.sat(w));
                assert(b1.sat(w));
            }
        }
        r
    } else {
        let h = emit_mersenne_pow(bld, a, k - 1);
        let ghost b1 = *bld;
        let hs = emit_gf_square(bld, &h);
        let ghost b2 = *bld;
        let r = emit_gf_mul(bld, &hs, a);
        proof {
            assert forall|w: Seq<bool>| #[trigger] bld.sat(w) implies gf_val(w, r) == mersenne_pow(
                gf_val(w, *a),
                k as nat,
            ) by {
                assert(b2.sat(w));
                assert(b1.sat(w));
            }
        }
        r
    }
}

/// Emits the inverse `a^(2^233 - 2)` of `a` (zero maps to zero).
pub fn emit_gf_inv<T: CircuitTrait>(bld: &mut T, a: Gf) -> (r: Gf)
    requires
        gf_in(*old(bld), a),
        room(*old(bld), INV_COST as nat),
    ensures
        grows(*old(bld), *final(bld), INV_COST as nat),
        appends(*old(bld), *final(bld), inv_gates()),
        gf_in(*final(bld), r),
        forall|w: Seq<bool>| #[trigger] final(bld).sat(w) ==> gf_val(w, r) == gf_inv(gf_val(w, a)),
{
    let h = emit_mersenne_pow(bld, &a, 232);
    let ghost b1 = *bld;
    let r = emit_gf_square(bld, &h);
    proof {
        assert forall|w: Seq<bool>| #[trigger] bld.sat(w) implies gf_val(w, r) == gf_inv(
            gf_val(w, a),
        ) by {
            assert(b1.sat(w));
            lemma_gf_inv_chain(gf_val(w, a));
        }
    }
    r
}

/// Emits a wire that is `true` exactly when `a` is zero.
pub fn emit_gf_is_zero<T: CircuitTrait>(bld: &mut T, a: Gf) -> (r: usize)
    requires
        gf_in(*old(bld), a),
        room(*old(bld), IS_ZERO_COST as nat),
    ensures
        grows(*old(bld), *final(bld), IS_ZERO_COST as nat),
        appends(*old(bld), *final(bld), IS_ZERO_GATES as nat),
        r < final(bld).wire_count(),
        forall|w: Seq<bool>| #[trigger] final(bld).sat(w) ==> w[r as int] == gf_is_zero_val(gf_val(w, a)),
{
    let mut acc = a[0];
    let mut i: usize = 1;
    while i < GF_LEN
        invariant
            1 <= i <= GF_LEN,
            gf_in(*old(bld), a),
            room(*old(bld), IS_ZERO_COST as nat),
            grows(*old(bld), *bld, (i - 1) as nat),
            appends(*old(bld), *bld, (i - 1) as nat),
            acc < bld.wire_count(),
            forall|w: Seq<bool>| #[trigger]
                bld.sat(w) ==> (w[acc as int] <==> exists|j: int| 0 <= j < i && #[trigger] w[a[j] as int]),
        decreases GF_LEN - i,
    {
        let ghost prev = *bld;
        acc = bld.or_wire(acc, a[i]);
        proof {
            assert forall|w: Seq<bool>| #[trigger] bld.sat(w) implies (w[acc as int] <==> exists|j: int|
                0 <= j < i + 1 && #[trigger] w[a[j] as int]) by {
                assert(prev.sat(w));
                if w[a[i as int] as int] {
                    assert(0 <= i < i + 1 && w[a[i as int] as int]);
                }
            }
        }
        i = i + 1;
    }
    let o = bld.one();
    let ghost prev = *bld;
    let r = bld.xor_wire(acc, o);
    proof {
        assert forall|w: Seq<bool>| #[trigger] bld.sat(w) implies w[r as int] == gf_is_zero_val(
            gf_val(w, a),
        ) by {
            assert(prev.sat(w));
            let v = gf_val(w, a);
            if gf_is_zero_val(v) {
                assert forall|j: int| 0 <= j < 233 implies !w[a[j] as int] by {
                    assert(!v[j]);
                }
            } else {
                let j = choose|j: int| 0 <= j < 233 && v[j];
                assert(w[a[j] as int]);
            }
        }
    }
    r
}


/// Emits the decoding of a compressed field element: the first 233 of its 240
/// bit wires, and a wire that is `true` when the other 7 bits are all zero.
pub fn emit_gf_decode<T: CircuitTrait>(bld: &mut T, src: &CompressedCurvePoint) -> (r: (Gf, usize))
    requires
        compressed_in(*old(bld), *src),
        room(*old(bld), DECODE_COST as nat),
    ensures
        grows(*old(bld), *final(bld), DECODE_COST as nat),
        appends(*old(bld), *final(bld), DECODE_GATES as nat),
        gf_in(*final(bld), r.0),
        r.1 < final(bld).wire_count(),
        forall|w: Seq<bool>| #[trigger]
            final(bld).sat(w) ==> gf_val(w, r.0) == gf_decode_val(compressed_val(w, *src)).0
                && w[r.1 as int] == gf_decode_val(compressed_val(w, *src)).1,
{
    let mut g: Gf = [0usize; GF_LEN];
    let mut i: usize = 0;
    while i < GF_LEN
        invariant
            i <= GF_LEN,
            compressed_in(*bld, *src),
            forall|j: int| 0 <= j < i ==> #[trigger] g[j] == src[j / 8][j % 8],
        decreases GF_LEN - i,
    {
        g[i] = src[i / 8][i % 8];
        i = i + 1;
    }
    let mut acc = src[29][1];
    proof {
        assert forall|w: Seq<bool>| #[trigger] bld.sat(w) implies (w[acc as int] <==> exists|j: int|
            233 <= j < 234 && #[trigger] compressed_val(w, *src)[j]) by {
            let bits = compressed_val(w, *src);
            assert(bits[233] == w[src[29][1] as int]);
            if w[acc as int] {
                assert(233 <= 233 < 234 && bits[233]);
            }
        }
    }
    let mut k: usize = 234;
    while k < 240
        invariant
            234 <= k <= 240,
            compressed_in(*old(bld), *src),
            room(*old(bld), DECODE_COST as nat),
            grows(*old(bld), *bld, (k - 234) as nat),
            appends(*old(bld), *bld, (k - 234) as nat),
            acc < bld.wire_count(),
            forall|w: Seq<bool>| #[trigger]
                bld.sat(w) ==> (w[acc as int] <==> exists|j: int|
                    233 <= j < k && #[trigger] compressed_val(w, *src)[j]),
        decreases 240 - k,
    {
        let ghost prev = *bld;
        acc = bld.or_wire(acc, src[k / 8][k % 8]);
        proof {
            assert forall|w: Seq<bool>| #[trigger] bld.sat(w) implies (w[acc as int] <==> exists|j: int|
                233 <= j < k + 1 && #[trigger] compressed_val(w, *src)[j]) by {
                assert(prev.sat(w));
                let bits = compressed_val(w, *src);
                assert(bits[k as int] == w[src[k as int / 8][k as int % 8] as int]);
                if bits[k as int] {
                    assert(233 <= k < k + 1 && bits[k as int]);
                }
            }
        }
        k = k + 1;
    }
    let o = bld.one();
    let ghost prev = *bld;
    let ve = bld.xor_wire(acc, o);
    proof {
        assert forall|w: Seq<bool>| #[trigger] bld.sat(w) implies gf_val(w, g) == gf_decode_val(
            compressed_val(w, *src),
        ).0 && w[ve as int] == gf_decode_val(compressed_val(w, *src)).1 by {
            assert(prev.sat(w));
            let bits = compressed_val(w, *src);
            assert(gf_val(w, g) =~= bits.subrange(0, 233));
            if gf_decode_val(bits).1 {
                assert(!w[acc as int]);
            } else {
                let j = choose|j: int| 233 <= j < 240 && bits[j];
                assert(bits[j]);
            }
        }
    }
    (g, ve)
}


/// Emits `a` masked by the bit on wire `m`: each coefficient AND `m`.
pub fn emit_gf_and_bit<T: CircuitTrait>(bld: &mut T, a: &Gf, m: usize) -> (r: Gf)
    requires
        gf_in(*old(bld), *a),
        m < old(bld).wire_count(),
        room(*old(bld), ADD_COST as nat),
    ensures
        grows(*old(bld), *final(bld), ADD_COST as nat),
        appends(*old(bld), *final(bld), ADD_COST as nat),
        gf_in(*final(bld), r),
        forall|w: Seq<bool>| #[trigger]
            final(bld).sat(w) ==> gf_val(w, r) == gf_mask(gf_val(w, *a), w[m as int]),
{
    let mut r: Gf = [0usize; GF_LEN];
    let mut i: usize = 0;
    while i < GF_LEN
        invariant
            i <= GF_LEN,
            gf_in(*old(bld), *a),
            m < old(bld).wire_count(),
            room(*old(bld), ADD_COST as nat),
            grows(*old(bld), *bld, i as nat),
            appends(*old(bld), *bld, i as nat),
            forall|j: int| 0 <= j < i ==> #[trigger] r[j] < bld.wire_count(),
            forall|w: Seq<bool>| #[trigger]
                bld.sat(w) ==> forall|j: int|
                    0 <= j < i ==> w[#[trigger] r[j] as int] == (w[a[j] as int] && w[m as int]),
        decreases GF_LEN - i,
    {
        let x = bld.and_wire(a[i], m);
        r[i] = x;
        i = i + 1;
    }
    proof {
        assert forall|w: Seq<bool>| #[trigger] bld.sat(w) implies gf_val(w, r) == gf_mask(
            gf_val(w, *a),
            w[m as int],
        ) by {
            assert(gf_val(w, r) =~= gf_mask(gf_val(w, *a), w[m as int]));
        }
    }
    r
}

} // verus!
