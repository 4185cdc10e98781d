//! Laws of point decompression: which encodings decoding accepts and which
//! point it returns for them, stated under the hypothesis `gf_is_field()`.

use vstd::arithmetic::power2::pow2;
use vstd::prelude::*;

use crate::curve_spec::{on_curve, xsk233_decode_val, PointValue};
use crate::gf_laws::{
    gf_is_field, lemma_add_one_zero, lemma_curve_quadratic, lemma_frob_sum_add,
    lemma_frob_sum_len, lemma_frob_sum_of_square, lemma_frob_sum_square, lemma_gf_inv_mul,
    lemma_gf_mul_add, lemma_gf_mul_add_left, lemma_gf_mul_assoc, lemma_gf_mul_comm,
    lemma_gf_mul_len, lemma_gf_mul_zero, lemma_gf_one_mul, lemma_gf_pow_len, lemma_gf_sqn_add,
    lemma_gf_sqn_square, lemma_gf_square_add, lemma_gf_square_is_mul,
    lemma_gf_square_len, lemma_gf_square_mul, lemma_halftrace_sum_square, lemma_identity_on_curve,
    lemma_other_root, lemma_square_consts, lemma_trace_artin_schreier, lemma_trace_is_bit,
};
use crate::gf_spec::{
    frob_sum, gf_add, gf_decode_val, gf_halftrace, gf_inv, gf_is_zero_val, gf_mask, gf_mul,
    gf_one_val, gf_sqn, gf_square, gf_trace, gf_zero_val, halftrace_sum,
};

verus! {

/// `Tr(a^2) = Tr(a)`.
proof fn lemma_trace_of_square(a: Seq<bool>)
    requires
        gf_is_field(),
        a.len() == 233,
    ensures
        frob_sum(gf_square(a), 233) == frob_sum(a, 233),
{
    lemma_frob_sum_of_square(a, 233);
    lemma_frob_sum_square(a, 233);
    assert(gf_sqn(a, 233) == a);
    lemma_frob_sum_len(a, 233);
    assert(gf_add(gf_add(frob_sum(a, 233), a), a) =~= frob_sum(a, 233));
}

/// `1^(2^n) = 1`.
proof fn lemma_sqn_one(n: nat)
    ensures
        gf_sqn(gf_one_val(), n) == gf_one_val(),
    decreases n,
{
    if n > 0 {
        lemma_sqn_one((n - 1) as nat);
        lemma_square_consts();
    }
}

/// `1 + 1 + ... + 1` (`n` terms) is `1` for odd `n`.
proof fn lemma_frob_sum_one(n: nat)
    requires
        n >= 1,
    ensures
        frob_sum(gf_one_val(), n) == (if n % 2 == 1 {
            gf_one_val()
        } else {
            gf_zero_val()
        }),
    decreases n,
{
    if n > 1 {
        let n1 = (n - 1) as nat;
        lemma_frob_sum_one(n1);
        lemma_sqn_one(n1);
        if n % 2 == 1 {
            assert(gf_add(gf_zero_val(), gf_one_val()) =~= gf_one_val());
        } else {
            assert(gf_add(gf_one_val(), gf_one_val()) =~= gf_zero_val());
        }
    }
}

/// The partial half-trace is additive.
proof fn lemma_halftrace_sum_add(a: Seq<bool>, b: Seq<bool>, n: nat)
    requires
        a.len() == 233,
        b.len() == 233,
    ensures
        halftrace_sum(gf_add(a, b), n) == gf_add(halftrace_sum(a, n), halftrace_sum(b, n)),
    decreases n,
{
    if n > 1 {
        let n1 = (n - 1) as nat;
        let k = (2 * n1) as nat;
        lemma_halftrace_sum_add(a, b, n1);
        lemma_gf_sqn_add(a, b, k);
        assert(gf_add(
            gf_add(halftrace_sum(a, n1), halftrace_sum(b, n1)),
            gf_add(gf_sqn(a, k), gf_sqn(b, k)),
        ) =~= gf_add(
            gf_add(halftrace_sum(a, n1), gf_sqn(a, k)),
            gf_add(halftrace_sum(b, n1), gf_sqn(b, k)),
        ));
    } else {
        assert(gf_add(a, b) =~= gf_add(halftrace_sum(a, n), halftrace_sum(b, n)));
    }
}

/// The partial half-trace commutes with squaring.
proof fn lemma_halftrace_sum_of_square(a: Seq<bool>, n: nat)
    requires
        a.len() == 233,
    ensures
        halftrace_sum(gf_square(a), n) == gf_square(halftrace_sum(a, n)),
    decreases n,
{
    if n > 1 {
        let n1 = (n - 1) as nat;
        let k = (2 * n1) as nat;
        lemma_halftrace_sum_of_square(a, n1);
        lemma_gf_sqn_square(a, k);
        lemma_gf_square_add(halftrace_sum(a, n1), gf_sqn(a, k));
        assert(gf_sqn(a, k + 1) == gf_square(gf_sqn(a, k)));
    }
}

/// `H(w^2 + w) = w + Tr(w)`.
proof fn lemma_halftrace_artin_schreier(w: Seq<bool>)
    requires
        gf_is_field(),
        w.len() == 233,
    ensures
        gf_halftrace(gf_add(gf_square(w), w)) == gf_add(w, frob_sum(w, 233)),
{
    lemma_gf_square_len(w);
    lemma_halftrace_sum_add(gf_square(w), w, 117);
    lemma_halftrace_sum_of_square(w, 117);
    lemma_halftrace_sum_square(w, 117);
    let h = halftrace_sum(w, 117);
    assert(gf_add(gf_square(h), h) =~= gf_add(h, gf_square(h)));
    assert(frob_sum(w, 234) == gf_add(frob_sum(w, 233), gf_sqn(w, 233)));
    assert(gf_sqn(w, 233) == w);
    assert(gf_add(frob_sum(w, 233), w) =~= gf_add(w, frob_sum(w, 233)));
}

/// Law: where `Tr(a) = 0`, the half-trace `f = H(a)` solves `f^2 + f = a`.
pub proof fn lemma_halftrace_solves(a: Seq<bool>)
    requires
        gf_is_field(),
        a.len() == 233,
        !gf_trace(a),
    ensures
        gf_add(gf_square(gf_halftrace(a)), gf_halftrace(a)) == a,
{
    lemma_trace_zero(a);
    lemma_halftrace_sum_square(a, 117);
    let h = gf_halftrace(a);
    lemma_gf_square_len(h);
    assert(frob_sum(a, 234) == gf_add(frob_sum(a, 233), gf_sqn(a, 233)));
    assert(gf_sqn(a, 233) == a);
    assert(gf_add(gf_zero_val(), a) =~= a);
    assert(gf_add(gf_square(h), h) =~= gf_add(h, gf_square(h)));
}

/// A trace whose constant coefficient is clear is zero.
proof fn lemma_trace_zero(a: Seq<bool>)
    requires
        gf_is_field(),
        a.len() == 233,
        !gf_trace(a),
    ensures
        frob_sum(a, 233) == gf_zero_val(),
{
    lemma_trace_is_bit(a);
}

/// In a field, `d != 0` with `Tr(1/d^2) = 0` gives the root `x = d H(1/d^2)`
/// of `x^2 + d x = 1`.
proof fn lemma_decode_root(d: Seq<bool>)
    requires
        gf_is_field(),
        d.len() == 233,
        d != gf_zero_val(),
        !gf_trace(gf_inv(gf_square(d))),
    ensures
        gf_add(
            gf_square(gf_mul(d, gf_halftrace(gf_inv(gf_square(d))))),
            gf_mul(d, gf_mul(d, gf_halftrace(gf_inv(gf_square(d))))),
        ) == gf_one_val(),
{
    let d2 = gf_square(d);
    let e = gf_inv(d2);
    let f = gf_halftrace(e);
    lemma_gf_square_len(d);
    lemma_gf_pow_len(d2, (pow2(233) - 2) as nat);
    lemma_trace_zero(e);
    lemma_halftrace_solves(e);
    lemma_gf_square_is_mul(d);
    assert(d2 != gf_zero_val());
    lemma_gf_inv_mul(d2);
    assert(f.len() == 233);
    lemma_gf_square_len(f);
    lemma_gf_square_mul(d, f);
    lemma_gf_mul_assoc(d, d, f);
    lemma_gf_mul_add_left(d2, gf_square(f), f);
}

/// `0^(2^n) = 0`, and a sum of such terms is zero.
proof fn lemma_frob_sum_zero(n: nat)
    ensures
        gf_sqn(gf_zero_val(), n) == gf_zero_val(),
        n >= 1 ==> frob_sum(gf_zero_val(), n) == gf_zero_val(),
    decreases n,
{
    if n > 0 {
        lemma_frob_sum_zero((n - 1) as nat);
        lemma_square_consts();
        assert(gf_add(gf_zero_val(), gf_zero_val()) =~= gf_zero_val());
    }
}

/// `Tr(t y) = 0` when `t` is zero or one and `Tr(y) = 0`.
proof fn lemma_trace_bit_times(t: Seq<bool>, y: Seq<bool>)
    requires
        y.len() == 233,
        t == gf_zero_val() || t == gf_one_val(),
        frob_sum(y, 233) == gf_zero_val(),
    ensures
        frob_sum(gf_mul(t, y), 233) == gf_zero_val(),
{
    if t == gf_zero_val() {
        lemma_gf_mul_comm(t, y);
        lemma_gf_mul_zero(y);
        lemma_frob_sum_zero(233);
    } else {
        lemma_gf_one_mul(y);
    }
}

/// For the two roots `x` and `x + d` of `x^2 + d x = 1` (with `d = w^2 + w`
/// and `Tr(x) = 0`), exactly one has `Tr((H(x) + w) x) = 0`: the two traces
/// add up to one.
proof fn lemma_subgroup_test_flip(w: Seq<bool>, x: Seq<bool>)
    requires
        gf_is_field(),
        w.len() == 233,
        x.len() == 233,
        gf_add(gf_square(x), gf_mul(gf_add(gf_square(w), w), x)) == gf_one_val(),
        frob_sum(x, 233) == gf_zero_val(),
    ensures
        gf_add(
            frob_sum(gf_mul(gf_add(gf_halftrace(x), w), x), 233),
            frob_sum(
                gf_mul(
                    gf_add(gf_halftrace(gf_add(x, gf_add(gf_square(w), w))), w),
                    gf_add(x, gf_add(gf_square(w), w)),
                ),
                233,
            ),
        ) == gf_one_val(),
{
    let zero = gf_zero_val();
    let one = gf_one_val();
    let w2 = gf_square(w);
    let d = gf_add(w2, w);
    let y = gf_add(x, d);
    let h = gf_halftrace(x);
    let h2 = gf_square(h);
    let t = frob_sum(w, 233);
    lemma_gf_square_len(w);
    lemma_gf_square_len(x);
    lemma_gf_square_len(h);
    lemma_frob_sum_len(w, 233);
    // H(y) + w = h + Tr(w)
    lemma_halftrace_solves(x);
    lemma_halftrace_sum_add(x, d, 117);
    lemma_halftrace_artin_schreier(w);
    let hy = gf_halftrace(y);
    assert(gf_add(hy, w) =~= gf_add(h, t));
    let sx = gf_mul(gf_add(h, w), x);
    let sy = gf_mul(gf_add(h, t), y);
    let hx = gf_mul(h, x);
    let wx = gf_mul(w, x);
    let hd = gf_mul(h, d);
    let ty = gf_mul(t, y);
    lemma_gf_mul_add(h, w, x);
    lemma_gf_mul_add(h, t, y);
    lemma_gf_mul_add_left(h, x, d);
    lemma_gf_mul_len(h, x);
    lemma_gf_mul_len(w, x);
    lemma_gf_mul_len(h, d);
    lemma_gf_mul_len(t, y);
    lemma_gf_mul_len(h, y);
    assert(gf_add(sx, sy) =~= gf_add(gf_add(wx, hd), ty));
    lemma_gf_mul_len(gf_add(h, w), x);
    lemma_gf_mul_len(gf_add(h, t), y);
    lemma_frob_sum_add(sx, sy, 233);
    lemma_frob_sum_add(gf_add(wx, hd), ty, 233);
    lemma_frob_sum_add(wx, hd, 233);
    // Tr(t y) = 0
    lemma_trace_is_bit(w);
    lemma_trace_artin_schreier(w);
    lemma_frob_sum_add(x, d, 233);
    assert(gf_add(zero, zero) =~= zero);
    lemma_trace_bit_times(t, y);
    // Tr(h d) = Tr(x w^2)
    lemma_gf_mul_add_left(h, w2, w);
    let hw = gf_mul(h, w);
    let hw2 = gf_mul(h, w2);
    let h2w2 = gf_mul(h2, w2);
    lemma_gf_mul_len(h, w);
    lemma_gf_mul_len(h, w2);
    lemma_gf_mul_len(h2, w2);
    lemma_trace_of_square(hw);
    lemma_gf_square_mul(h, w);
    lemma_gf_mul_add(h, h2, w2);
    assert(gf_add(h, h2) =~= x);
    lemma_frob_sum_add(hw2, hw, 233);
    lemma_frob_sum_add(hw2, h2w2, 233);
    let xw2 = gf_mul(x, w2);
    assert(frob_sum(hd, 233) == frob_sum(xw2, 233));
    // Tr(w x) + Tr(w^2 x) = Tr(d x) = Tr(x^2 + 1) = 1
    lemma_gf_mul_comm(x, w2);
    lemma_gf_mul_add(w2, w, x);
    let w2x = gf_mul(w2, x);
    lemma_gf_mul_len(w2, x);
    lemma_frob_sum_add(w2x, wx, 233);
    let dx = gf_mul(d, x);
    lemma_gf_mul_len(d, x);
    assert(dx =~= gf_add(gf_square(x), one));
    lemma_frob_sum_add(gf_square(x), one, 233);
    lemma_trace_of_square(x);
    lemma_frob_sum_one(233);
    lemma_frob_sum_len(wx, 233);
    lemma_frob_sum_len(w2x, 233);
    assert(gf_add(zero, one) =~= one);
    assert(gf_add(frob_sum(wx, 233), frob_sum(w2x, 233)) =~= gf_add(
        frob_sum(w2x, 233),
        frob_sum(wx, 233),
    ));
    assert(gf_add(gf_add(frob_sum(wx, 233), frob_sum(hd, 233)), zero) =~= gf_add(
        frob_sum(wx, 233),
        frob_sum(hd, 233),
    ));
}

/// `(a + b) + (c + e) = (a + c) + (b + e)`.
proof fn lemma_add_swap(a: Seq<bool>, b: Seq<bool>, c: Seq<bool>, e: Seq<bool>)
    ensures
        gf_add(gf_add(a, b), gf_add(c, e)) == gf_add(gf_add(a, c), gf_add(b, e)),
{
    assert(gf_add(gf_add(a, b), gf_add(c, e)) =~= gf_add(gf_add(a, c), gf_add(b, e)));
}

/// `(a + b) + c = 0` gives `b = a + c`.
proof fn lemma_add_cancel(a: Seq<bool>, b: Seq<bool>, c: Seq<bool>)
    requires
        b.len() == 233,
        gf_add(gf_add(a, b), c) == gf_zero_val(),
    ensures
        b == gf_add(a, c),
{
    let v = gf_add(gf_add(a, b), c);
    assert forall|i: int| 0 <= i < 233 implies b[i] == gf_add(a, c)[i] by {
        assert(v[i] == gf_zero_val()[i]);
        assert(v[i] == (gf_add(a, b)[i] != c[i]));
        assert(gf_add(a, b)[i] == (a[i] != b[i]));
        assert(gf_add(a, c)[i] == (a[i] != c[i]));
    }
    assert(b =~= gf_add(a, c));
}

/// `a + (a + b) = b`.
proof fn lemma_add_self_cancel(a: Seq<bool>, b: Seq<bool>)
    requires
        b.len() == 233,
    ensures
        gf_add(a, gf_add(a, b)) == b,
{
    assert(gf_add(a, gf_add(a, b)) =~= b);
}

/// In a field, the affine point `(x, w^2 x)` lies on the curve exactly when
/// `x^2 + (w^2 + w) x = 1`.
proof fn lemma_curve_iff_root(w: Seq<bool>, x: Seq<bool>)
    requires
        gf_is_field(),
        w.len() == 233,
        x.len() == 233,
    ensures
        on_curve(PointValue { x, s: gf_mul(gf_square(w), x), z: gf_one_val(), t: x }) == (gf_add(
            gf_square(x),
            gf_mul(gf_add(gf_square(w), w), x),
        ) == gf_one_val()),
{
    let zero = gf_zero_val();
    let one = gf_one_val();
    let q = gf_add(gf_square(x), gf_mul(gf_add(gf_square(w), w), x));
    lemma_curve_quadratic(w, x);
    lemma_square_consts();
    assert(gf_add(one, one) =~= zero);
    if gf_add(gf_square(q), one) == zero {
        let u = gf_add(q, one);
        lemma_gf_square_add(q, one);
        lemma_gf_square_is_mul(u);
        assert(gf_mul(u, u) == zero);
        lemma_add_one_zero(q);
    }
}

/// In a field, `x^2 + d x = 1` has no roots but `x` and `x + d`.
proof fn lemma_quadratic_roots(d: Seq<bool>, x: Seq<bool>, y: Seq<bool>)
    requires
        gf_is_field(),
        d.len() == 233,
        x.len() == 233,
        y.len() == 233,
        gf_add(gf_square(x), gf_mul(d, x)) == gf_one_val(),
        gf_add(gf_square(y), gf_mul(d, y)) == gf_one_val(),
    ensures
        y == x || y == gf_add(x, d),
{
    let u = gf_add(x, y);
    let v = gf_add(u, d);
    lemma_gf_mul_add_left(u, u, d);
    lemma_gf_square_is_mul(u);
    lemma_gf_square_add(x, y);
    lemma_gf_mul_comm(u, d);
    lemma_gf_mul_add_left(d, x, y);
    lemma_gf_square_len(x);
    lemma_gf_square_len(y);
    lemma_gf_mul_len(d, x);
    lemma_gf_mul_len(d, y);
    lemma_add_swap(gf_square(x), gf_square(y), gf_mul(d, x), gf_mul(d, y));
    assert(gf_add(gf_one_val(), gf_one_val()) =~= gf_zero_val());
    assert(gf_mul(u, v) == gf_zero_val());
    if u == gf_zero_val() {
        assert(gf_add(u, gf_zero_val()) =~= u);
        lemma_add_cancel(x, y, gf_zero_val());
        assert(gf_add(x, gf_zero_val()) =~= x);
    } else {
        assert(v == gf_zero_val());
        lemma_add_cancel(x, y, d);
    }
}

/// What an accepted encoding with `w != 0` gives: `d = w^2 + w` is not zero,
/// and the decoded `X` is a root of `X^2 + d X = 1` with `Tr(X) = 0` and
/// `Tr((H(X) + w) X) = 0`.
proof fn lemma_decode_accepted(bits: Seq<bool>)
    requires
        gf_is_field(),
        bits.len() == 240,
        xsk233_decode_val(bits).1,
        !gf_is_zero_val(bits.subrange(0, 233)),
    ensures
        ({
            let w = bits.subrange(0, 233);
            let d = gf_add(gf_square(w), w);
            let x = xsk233_decode_val(bits).0.x;
            &&& d != gf_zero_val()
            &&& x.len() == 233
            &&& gf_add(gf_square(x), gf_mul(d, x)) == gf_one_val()
            &&& frob_sum(x, 233) == gf_zero_val()
            &&& frob_sum(gf_mul(gf_add(gf_halftrace(x), w), x), 233) == gf_zero_val()
            &&& xsk233_decode_val(bits).0 == (PointValue {
                x,
                s: gf_mul(gf_square(w), x),
                z: gf_one_val(),
                t: x,
            })
        }),
{
    let w = bits.subrange(0, 233);
    assert(gf_decode_val(bits).0 == w);
    let d = gf_add(gf_square(w), w);
    if d == gf_zero_val() {
        assert(gf_is_zero_val(d));
    }
    let e = gf_inv(gf_square(d));
    let x0 = gf_mul(d, gf_halftrace(e));
    lemma_decode_root(d);
    lemma_gf_mul_len(d, gf_halftrace(e));
    lemma_trace_zero(x0);
    let g = gf_mul(gf_add(gf_halftrace(x0), w), x0);
    lemma_gf_mul_len(gf_add(gf_halftrace(x0), w), x0);
    let bit = gf_trace(g);
    let x = gf_add(x0, gf_mask(d, bit));
    assert(x == xsk233_decode_val(bits).0.x);
    lemma_subgroup_test_flip(w, x0);
    lemma_trace_is_bit(g);
    lemma_frob_sum_len(g, 233);
    if bit {
        assert(gf_mask(d, bit) =~= d);
        lemma_other_root(x0, d);
        lemma_trace_artin_schreier(w);
        lemma_frob_sum_add(x0, d, 233);
        assert(gf_add(gf_zero_val(), gf_zero_val()) =~= gf_zero_val());
        let sy = frob_sum(gf_mul(gf_add(gf_halftrace(x), w), x), 233);
        lemma_gf_mul_len(gf_add(gf_halftrace(x), w), x);
        lemma_frob_sum_len(gf_mul(gf_add(gf_halftrace(x), w), x), 233);
        assert(frob_sum(g, 233) == gf_one_val());
        lemma_add_self_cancel(gf_one_val(), sy);
        assert(gf_add(gf_one_val(), gf_one_val()) =~= gf_zero_val());
    } else {
        assert(x =~= x0);
    }
}

/// Law: an encoding that decoding accepts gives a point of the curve
/// `S^2 + S T + X^4 + Z^4 = 0`; no encoding without a curve point behind it
/// (such as one with `Tr(1/(w^2 + w)^2) = 1`) is accepted.
pub proof fn lemma_decode_valid_on_curve(bits: Seq<bool>)
    requires
        gf_is_field(),
        bits.len() == 240,
    ensures
        xsk233_decode_val(bits).1 ==> on_curve(xsk233_decode_val(bits).0),
{
    if xsk233_decode_val(bits).1 {
        let w = bits.subrange(0, 233);
        assert(gf_decode_val(bits).0 == w);
        if gf_is_zero_val(w) {
            lemma_identity_on_curve();
        } else {
            lemma_decode_accepted(bits);
            lemma_curve_iff_root(w, xsk233_decode_val(bits).0.x);
        }
    }
}

/// Law: an accepted encoding decodes to a point whose `x` has trace zero
/// (the points of the group; a curve point with `Tr(x) = 1` is rejected).
pub proof fn lemma_decode_valid_trace_zero(bits: Seq<bool>)
    requires
        gf_is_field(),
        bits.len() == 240,
    ensures
        xsk233_decode_val(bits).1 ==> !gf_trace(xsk233_decode_val(bits).0.x),
{
    if xsk233_decode_val(bits).1 {
        let w = bits.subrange(0, 233);
        assert(gf_decode_val(bits).0 == w);
        if gf_is_zero_val(w) {
            lemma_frob_sum_zero(233);
        } else {
            lemma_decode_accepted(bits);
        }
    }
}

/// Law: of the affine curve points `(x, s = w^2 x)` that carry the encoding
/// `w != 0` and have `Tr(x) = 0` (there are two, `x` and `1/x`), decoding
/// returns exactly the one with `Tr((H(x) + w) x) = 0`, the representative of
/// the group element; the other one is never returned.
pub proof fn lemma_decode_picks_group_root(bits: Seq<bool>, x: Seq<bool>)
    requires
        gf_is_field(),
        bits.len() == 240,
        xsk233_decode_val(bits).1,
        !gf_is_zero_val(bits.subrange(0, 233)),
        x.len() == 233,
        on_curve(
            PointValue {
                x,
                s: gf_mul(gf_square(bits.subrange(0, 233)), x),
                z: gf_one_val(),
                t: x,
            },
        ),
        !gf_trace(x),
    ensures
        (x == xsk233_decode_val(bits).0.x) == !gf_trace(
            gf_mul(gf_add(gf_halftrace(x), bits.subrange(0, 233)), x),
        ),
{
    let w = bits.subrange(0, 233);
    let d = gf_add(gf_square(w), w);
    let xd = xsk233_decode_val(bits).0.x;
    lemma_decode_accepted(bits);
    lemma_curve_iff_root(w, x);
    lemma_quadratic_roots(d, xd, x);
    if x != xd {
        assert(x == gf_add(xd, d));
        lemma_subgroup_test_flip(w, xd);
        let s = frob_sum(gf_mul(gf_add(gf_halftrace(x), w), x), 233);
        assert(s =~= gf_add(gf_zero_val(), s));
    }
}

/// A root `x` of `x^2 + d x = 1` with `Tr(x) = 0` forces `d != 0` and
/// `Tr(1/d^2) = 0`.
proof fn lemma_root_gives_trace(d: Seq<bool>, x: Seq<bool>)
    requires
        gf_is_field(),
        d.len() == 233,
        x.len() == 233,
        gf_add(gf_square(x), gf_mul(d, x)) == gf_one_val(),
        !gf_trace(x),
    ensures
        d != gf_zero_val(),
        !gf_trace(gf_inv(gf_square(d))),
{
    let zero = gf_zero_val();
    let one = gf_one_val();
    lemma_gf_square_len(x);
    lemma_gf_square_len(d);
    if d == zero {
        // x^2 = 1, so (x + 1)^2 = 0 and x = 1, whose trace is one
        lemma_gf_mul_comm(d, x);
        lemma_gf_mul_zero(x);
        assert(gf_add(gf_square(x), zero) =~= gf_square(x));
        let u = gf_add(x, one);
        lemma_gf_square_add(x, one);
        lemma_square_consts();
        assert(gf_add(one, one) =~= zero);
        lemma_gf_square_is_mul(u);
        assert(gf_mul(u, u) == zero);
        lemma_add_one_zero(x);
        lemma_frob_sum_one(233);
        assert(false);
    }
    let d2 = gf_square(d);
    let di = gf_inv(d);
    let e = gf_inv(d2);
    lemma_gf_pow_len(d, (pow2(233) - 2) as nat);
    lemma_gf_pow_len(d2, (pow2(233) - 2) as nat);
    lemma_gf_square_is_mul(d);
    assert(d2 != zero);
    lemma_gf_inv_mul(d);
    lemma_gf_inv_mul(d2);
    // f = x / d satisfies d f = x
    let f = gf_mul(di, x);
    lemma_gf_mul_len(di, x);
    lemma_gf_mul_assoc(d, di, x);
    lemma_gf_one_mul(x);
    assert(gf_mul(d, f) == x);
    // d^2 (f^2 + f) = x^2 + d x = 1 = d^2 e
    let f2 = gf_square(f);
    lemma_gf_square_len(f);
    lemma_gf_mul_add_left(d2, f2, f);
    lemma_gf_square_mul(d, f);
    lemma_gf_mul_assoc(d, d, f);
    let q = gf_add(f2, f);
    assert(gf_mul(d2, q) == one);
    lemma_gf_mul_add_left(d2, q, e);
    assert(gf_add(one, one) =~= zero);
    assert(gf_mul(d2, gf_add(q, e)) == zero);
    assert(gf_add(q, e) == zero);
    assert(gf_add(gf_add(f2, f), e) == zero);
    lemma_add_cancel(f2, f, e);
    lemma_add_self_cancel(f2, e);
    assert(e == gf_add(f2, f));
    // Tr(e) = Tr(f^2) + Tr(f) = 0
    lemma_frob_sum_add(f2, f, 233);
    lemma_trace_of_square(f);
    lemma_frob_sum_len(f, 233);
    assert(gf_add(frob_sum(f, 233), frob_sum(f, 233)) =~= zero);
}

/// Law: decoding accepts exactly the encodings of group elements. An
/// encoding is refused when its top 7 bits are not all zero; otherwise it is
/// accepted for `w = 0` (the neutral element) and for every `w` that some
/// curve point `(x, w^2 x)` with `Tr(x) = 0` carries.
pub proof fn lemma_decode_accepts_group_encodings(bits: Seq<bool>, x: Seq<bool>)
    requires
        gf_is_field(),
        bits.len() == 240,
        x.len() == 233,
    ensures
        xsk233_decode_val(bits).1 ==> forall|k: int| 233 <= k < 240 ==> !bits[k],
        (forall|k: int| 233 <= k < 240 ==> !bits[k]) && gf_is_zero_val(bits.subrange(0, 233))
            ==> xsk233_decode_val(bits).1,
        (forall|k: int| 233 <= k < 240 ==> !bits[k]) && on_curve(
            PointValue {
                x,
                s: gf_mul(gf_square(bits.subrange(0, 233)), x),
                z: gf_one_val(),
                t: x,
            },
        ) && !gf_trace(x) ==> xsk233_decode_val(bits).1,
{
    let w = bits.subrange(0, 233);
    assert(gf_decode_val(bits).0 == w);
    let d = gf_add(gf_square(w), w);
    lemma_curve_iff_root(w, x);
    if gf_add(gf_square(x), gf_mul(d, x)) == gf_one_val() && !gf_trace(x) {
        lemma_root_gives_trace(d, x);
        if gf_is_zero_val(d) {
            assert(d =~= gf_zero_val());
        }
        let e = gf_inv(gf_square(d));
        let x0 = gf_mul(d, gf_halftrace(e));
        lemma_decode_root(d);
        lemma_gf_mul_len(d, gf_halftrace(e));
        lemma_quadratic_roots(d, x, x0);
        lemma_trace_zero(x);
        if x0 != x {
            lemma_trace_artin_schreier(w);
            lemma_frob_sum_add(x, d, 233);
            assert(gf_add(gf_zero_val(), gf_zero_val()) =~= gf_zero_val());
        }
    }
}

/// Law: decoding inverts encoding. Take an affine curve point
/// `P = (x, w^2 x)` with `Tr(x) = 0` and `Tr((H(x) + w) x) = 0` (the
/// representative of a group element), and its encoding: the 233 bits of `w`
/// followed by 7 zero bits. Decoding that encoding gives back `P` exactly,
/// and reports it valid.
pub proof fn lemma_decode_roundtrip(bits: Seq<bool>, x: Seq<bool>)
    requires
        gf_is_field(),
        bits.len() == 240,
        forall|k: int| 233 <= k < 240 ==> !bits[k],
        x.len() == 233,
        on_curve(
            PointValue {
                x,
                s: gf_mul(gf_square(bits.subrange(0, 233)), x),
                z: gf_one_val(),
                t: x,
            },
        ),
        !gf_trace(x),
        !gf_trace(gf_mul(gf_add(gf_halftrace(x), bits.subrange(0, 233)), x)),
    ensures
        xsk233_decode_val(bits) == (
        PointValue {
            x,
            s: gf_mul(gf_square(bits.subrange(0, 233)), x),
            z: gf_one_val(),
            t: x,
        },
        true,
    ),
{
    let w = bits.subrange(0, 233);
    let d = gf_add(gf_square(w), w);
    lemma_curve_iff_root(w, x);
    lemma_root_gives_trace(d, x);
    if gf_is_zero_val(w) {
        assert(w =~= gf_zero_val());
        lemma_square_consts();
        assert(d =~= gf_zero_val());
    }
    lemma_decode_accepts_group_encodings(bits, x);
    lemma_decode_picks_group_root(bits, x);
    lemma_decode_accepted(bits);
}

} // verus!
