//! Algebraic laws of the field operations and of the point formulas.

use vstd::prelude::*;

use crate::curve_spec::{
    on_curve, xsk233_decode_val, identity_val, point_add_mixed_val, point_add_val, point_equals_val, point_frob_val, PointValue,
};
use crate::gf_spec::{
    conv, conv_upto, fold_top, frob_sum, gf_add, gf_is_zero_val,
    halftrace_sum, gf_inv, gf_mul, gf_one_val, gf_pow, gf_reduce, gf_sqn,
    gf_square, gf_zero_val, mersenne_pow, poly_product, spread,
};
use vstd::arithmetic::power2::{lemma2_to64, lemma_pow2_adds, lemma_pow2_pos, lemma_pow2_unfold, pow2};
use crate::poly::{
    lemma_pmul_assoc, lemma_pmul_comm, lemma_pmul_mono, lemma_pmul_padd_left, lemma_pmul_peq_left,
    lemma_xsum_zero, mono, padd, pc, peq, pmul, pmul_terms, shift, xsum,
};

verus! {

/// The term `a[i] * b[k - i]` of the product coefficient `k`, zero when either
/// index falls outside the 233 coefficients.
pub open spec fn term(a: Seq<bool>, b: Seq<bool>, k: int, i: int) -> bool {
    0 <= i < 233 && 0 <= k - i < 233 && a[i] && b[k - i]
}

/// The parity of `term(a, b, k, i)` for `lo <= i < hi`.
pub open spec fn xs(a: Seq<bool>, b: Seq<bool>, k: int, lo: int, hi: int) -> bool
    decreases hi - lo,
{
    if hi <= lo {
        false
    } else {
        xs(a, b, k, lo, hi - 1) != term(a, b, k, hi - 1)
    }
}

proof fn lemma_conv_upto_xs(a: Seq<bool>, b: Seq<bool>, k: int, n: int)
    requires
        0 <= n <= 233,
    ensures
        conv_upto(a, b, k, n) == xs(a, b, k, 0, n),
    decreases n,
{
    if n > 0 {
        lemma_conv_upto_xs(a, b, k, n - 1);
    }
}

proof fn lemma_xs_peel_left(a: Seq<bool>, b: Seq<bool>, k: int, lo: int, hi: int)
    requires
        lo < hi,
    ensures
        xs(a, b, k, lo, hi) == (term(a, b, k, lo) != xs(a, b, k, lo + 1, hi)),
    decreases hi - lo,
{
    assert(xs(a, b, k, lo, hi) == (xs(a, b, k, lo, hi - 1) != term(a, b, k, hi - 1)));
    if hi - 1 > lo {
        lemma_xs_peel_left(a, b, k, lo, hi - 1);
        assert(xs(a, b, k, lo + 1, hi) == (xs(a, b, k, lo + 1, hi - 1) != term(a, b, k, hi - 1)));
    } else {
        assert(xs(a, b, k, lo, lo) == false);
        assert(xs(a, b, k, lo + 1, hi) == false);
    }
}

/// Only the terms with both indices in range count: any range that covers
/// them gives the same parity.
proof fn lemma_xs_support(a: Seq<bool>, b: Seq<bool>, k: int, lo: int, hi: int)
    requires
        0 <= k < 465,
        lo <= (if k >= 232 { k - 232 } else { 0 }),
        (if k < 233 { k + 1 } else { 233 }) <= hi,
    ensures
        xs(a, b, k, lo, hi) == xs(
            a,
            b,
            k,
            if k >= 232 { k - 232 } else { 0 },
            if k < 233 { k + 1 } else { 233 },
        ),
    decreases hi - lo,
{
    let l = if k >= 232 { k - 232 } else { 0 };
    let h = if k < 233 { k + 1 } else { 233 };
    if lo < l {
        lemma_xs_peel_left(a, b, k, lo, hi);
        lemma_xs_support(a, b, k, lo + 1, hi);
    } else if h < hi {
        lemma_xs_support(a, b, k, lo, hi - 1);
    }
}

proof fn lemma_xs_reverse(a: Seq<bool>, b: Seq<bool>, k: int, lo: int, hi: int)
    ensures
        xs(b, a, k, lo, hi) == xs(a, b, k, k - hi + 1, k - lo + 1),
    decreases hi - lo,
{
    if lo < hi {
        lemma_xs_reverse(a, b, k, lo, hi - 1);
        lemma_xs_peel_left(a, b, k, k - hi + 1, k - lo + 1);
        assert(term(b, a, k, hi - 1) == term(a, b, k, k - (hi - 1)));
    }
}

/// Coefficient `k` of a product does not depend on the order of the factors.
proof fn lemma_conv_comm(a: Seq<bool>, b: Seq<bool>, k: int)
    requires
        0 <= k < 465,
    ensures
        conv(a, b, k) == conv(b, a, k),
{
    lemma_conv_upto_xs(a, b, k, 233);
    lemma_conv_upto_xs(b, a, k, 233);
    lemma_xs_support(a, b, k, 0, 233);
    lemma_xs_support(b, a, k, 0, 233);
    let l = if k >= 232 { k - 232 } else { 0 };
    let h = if k < 233 { k + 1 } else { 233 };
    lemma_xs_reverse(a, b, k, l, h);
}

/// Law: field multiplication is commutative, `a · b = b · a`.
pub proof fn lemma_gf_mul_comm(a: Seq<bool>, b: Seq<bool>)
    ensures
        gf_mul(a, b) == gf_mul(b, a),
{
    assert forall|k: int| 0 <= k < 465 implies poly_product(a, b)[k] == poly_product(b, a)[k] by {
        lemma_conv_comm(a, b, k);
    }
    assert(poly_product(a, b) =~= poly_product(b, a));
}

proof fn lemma_conv_upto_one(a: Seq<bool>, k: int, n: int)
    requires
        0 <= k < 465,
        0 <= n <= 233,
    ensures
        conv_upto(a, gf_one_val(), k, n) == (k < n && a[k]),
    decreases n,
{
    if n > 0 {
        lemma_conv_upto_one(a, k, n - 1);
        if 0 <= k - (n - 1) < 233 {
            assert(gf_one_val()[k - (n - 1)] == (k - (n - 1) == 0));
        }
    }
}

/// Reducing a polynomial of degree below 233 changes nothing.
proof fn lemma_reduce_low(c: Seq<bool>)
    requires
        c.len() >= 233,
        forall|j: int| 233 <= j < c.len() ==> !c[j],
    ensures
        gf_reduce(c) == c.take(233),
    decreases c.len(),
{
    if c.len() == 233 {
        assert(c + Seq::new(0, |i: int| false) =~= c);
        assert(c.take(233) =~= c);
    } else {
        assert(fold_top(c) =~= c.drop_last());
        lemma_reduce_low(c.drop_last());
        assert(c.drop_last().take(233) =~= c.take(233));
    }
}

/// Law: one is the unit of field multiplication, `a · 1 = a`.
pub proof fn lemma_gf_mul_one(a: Seq<bool>)
    requires
        a.len() == 233,
    ensures
        gf_mul(a, gf_one_val()) == a,
{
    let p = poly_product(a, gf_one_val());
    assert forall|k: int| 0 <= k < 465 implies p[k] == (k < 233 && a[k]) by {
        lemma_conv_upto_one(a, k, 233);
    }
    lemma_reduce_low(p);
    assert(p.take(233) =~= a);
}

/// For the square, the terms pair up (`i` with `k - i`) and cancel, except
/// the middle one.
proof fn lemma_xs_square(a: Seq<bool>, k: int, lo: int, hi: int)
    requires
        lo <= hi,
        lo + hi - 1 == k,
    ensures
        xs(a, a, k, lo, hi) == (k % 2 == 0 && term(a, a, k, k / 2)),
    decreases hi - lo,
{
    if hi - lo == 0 {
        assert(k % 2 != 0);
    } else if hi - lo == 1 {
        assert(lo == k / 2 && k % 2 == 0);
        assert(xs(a, a, k, lo, lo) == false);
        assert(xs(a, a, k, lo, hi) == (xs(a, a, k, lo, lo) != term(a, a, k, lo)));
    } else {
        lemma_xs_peel_left(a, a, k, lo, hi);
        lemma_xs_square(a, k, lo + 1, hi - 1);
        assert(xs(a, a, k, lo + 1, hi) == (xs(a, a, k, lo + 1, hi - 1) != term(a, a, k, hi - 1)));
        assert(term(a, a, k, lo) == term(a, a, k, hi - 1));
    }
}

/// Law: squaring is multiplication of an element by itself, `a² = a · a`.
pub proof fn lemma_gf_square_is_mul(a: Seq<bool>)
    requires
        a.len() == 233,
    ensures
        gf_square(a) == gf_mul(a, a),
{
    assert forall|k: int| 0 <= k < 465 implies spread(a)[k] == poly_product(a, a)[k] by {
        lemma_conv_upto_xs(a, a, k, 233);
        lemma_xs_support(a, a, k, 0, 233);
        let l = if k >= 232 { k - 232 } else { 0 };
        let h = if k < 233 { k + 1 } else { 233 };
        lemma_xs_square(a, k, l, h);
    }
    assert(spread(a) =~= poly_product(a, a));
}

/// Law: point addition is commutative.
pub proof fn lemma_point_add_comm(p1: PointValue, p2: PointValue)
    ensures
        point_add_val(p1, p2) == point_add_val(p2, p1),
{
    lemma_gf_mul_comm(p1.x, p2.x);
    lemma_gf_mul_comm(p1.s, p2.s);
    lemma_gf_mul_comm(p1.z, p2.z);
    lemma_gf_mul_comm(gf_add(p1.s, p1.t), gf_add(p2.s, p2.t));
    let a = point_add_val(p1, p2);
    let b = point_add_val(p2, p1);
    let s1s2 = gf_mul(p1.s, p2.s);
    let d = gf_mul(gf_add(p1.s, p1.t), gf_add(p2.s, p2.t));
    assert(gf_add(d, s1s2) =~= b.x);
    assert(a.x == b.x);
    assert(a.z =~= b.z);
    assert(a.s =~= b.s);
}

/// Law: with an affine second operand (Z2 = 1), mixed addition is addition.
pub proof fn lemma_mixed_add_is_add(p1: PointValue, p2: PointValue)
    requires
        p1.z.len() == 233,
        p2.z == gf_one_val(),
    ensures
        point_add_mixed_val(p1, p2) == point_add_val(p1, p2),
{
    lemma_gf_mul_one(p1.z);
}

/// Law: point equality is reflexive.
pub proof fn lemma_point_equals_refl(p: PointValue)
    ensures
        point_equals_val(p, p),
{
}

/// Law: point equality is symmetric.
pub proof fn lemma_point_equals_symm(p1: PointValue, p2: PointValue)
    ensures
        point_equals_val(p1, p2) == point_equals_val(p2, p1),
{
}


/// The field polynomial `x^233 + x^74 + 1`.
pub open spec fn field_poly() -> Seq<bool> {
    Seq::new(234, |i: int| i == 0 || i == 74 || i == 233)
}

/// `p` extended with zero coefficients to length `n`.
pub open spec fn pad(p: Seq<bool>, n: nat) -> Seq<bool> {
    Seq::new(n, |i: int| pc(p, i))
}

proof fn lemma_reduce_len(p: Seq<bool>)
    ensures
        gf_reduce(p).len() == 233,
    decreases p.len(),
{
    if p.len() > 233 {
        lemma_reduce_len(fold_top(p));
    }
}

/// Reduction of a polynomial whose top coefficient is zero is the reduction
/// without it.
proof fn lemma_reduce_drop_zero_top(p: Seq<bool>)
    requires
        p.len() > 233,
        !p[p.len() - 1],
    ensures
        gf_reduce(p) == gf_reduce(p.drop_last()),
{
    assert(fold_top(p) =~= p.drop_last());
}

/// Reduction depends only on the coefficients, not on trailing zeros.
proof fn lemma_reduce_peq(p: Seq<bool>, r: Seq<bool>)
    requires
        peq(p, r),
    ensures
        gf_reduce(p) == gf_reduce(r),
    decreases p.len() + r.len(),
{
    if p.len() <= 233 && r.len() <= 233 {
        assert forall|i: int| 0 <= i < 233 implies gf_reduce(p)[i] == gf_reduce(r)[i] by {
            assert(pc(p, i) == pc(r, i));
        }
        assert(gf_reduce(p) =~= gf_reduce(r));
    } else if p.len() > r.len() {
        assert(pc(p, p.len() - 1) == pc(r, p.len() - 1));
        lemma_reduce_drop_zero_top(p);
        assert forall|i: int| #[trigger] pc(p.drop_last(), i) == pc(r, i) by {
            assert(pc(p, i) == pc(r, i));
        }
        lemma_reduce_peq(p.drop_last(), r);
    } else if r.len() > p.len() {
        assert(pc(p, r.len() - 1) == pc(r, r.len() - 1));
        lemma_reduce_drop_zero_top(r);
        assert forall|i: int| #[trigger] pc(r.drop_last(), i) == pc(p, i) by {
            assert(pc(p, i) == pc(r, i));
        }
        lemma_reduce_peq(p, r.drop_last());
    } else {
        assert forall|i: int| 0 <= i < p.len() implies p[i] == r[i] by {
            assert(pc(p, i) == pc(r, i));
        }
        assert(p =~= r);
    }
}

proof fn lemma_reduce_padd_same(p: Seq<bool>, r: Seq<bool>)
    requires
        p.len() == r.len(),
    ensures
        gf_reduce(padd(p, r)) == gf_add(gf_reduce(p), gf_reduce(r)),
    decreases p.len(),
{
    if p.len() <= 233 {
        assert(gf_reduce(padd(p, r)) =~= gf_add(gf_reduce(p), gf_reduce(r)));
    } else {
        assert(fold_top(padd(p, r)) =~= padd(fold_top(p), fold_top(r)));
        lemma_reduce_padd_same(fold_top(p), fold_top(r));
    }
}

/// Reduction is additive.
proof fn lemma_reduce_padd(p: Seq<bool>, r: Seq<bool>)
    ensures
        gf_reduce(padd(p, r)) == gf_add(gf_reduce(p), gf_reduce(r)),
{
    let n = padd(p, r).len();
    let pp = pad(p, n);
    let rr = pad(r, n);
    assert(peq(pp, p));
    assert(peq(rr, r));
    assert(padd(pp, rr) =~= padd(p, r));
    lemma_reduce_padd_same(pp, rr);
    lemma_reduce_peq(pp, p);
    lemma_reduce_peq(rr, r);
}

/// A polynomial with no coefficient reduces to zero.
proof fn lemma_reduce_zero(p: Seq<bool>)
    requires
        forall|i: int| 0 <= i < p.len() ==> !p[i],
    ensures
        gf_reduce(p) == gf_zero_val(),
{
    let z = Seq::new(233, |i: int| false);
    assert(peq(p, z));
    lemma_reduce_peq(p, z);
    assert(z + Seq::new(0, |i: int| false) =~= gf_zero_val());
}

/// `x^m` times the field polynomial reduces to zero.
proof fn lemma_reduce_shifted_field_poly(m: nat)
    ensures
        gf_reduce(shift(field_poly(), m)) == gf_zero_val(),
{
    let p = shift(field_poly(), m);
    let q = fold_top(p);
    assert forall|i: int| 0 <= i < q.len() implies !q[i] by {
        assert(pc(field_poly(), i - m) == (i - m == 0 || i - m == 74));
    }
    lemma_reduce_zero(q);
}

/// Every multiple of the field polynomial reduces to zero.
proof fn lemma_reduce_multiple(s: Seq<bool>)
    ensures
        gf_reduce(pmul(s, field_poly())) == gf_zero_val(),
    decreases s.len(),
{
    let f = field_poly();
    if s.len() == 0 {
        assert forall|k: int| 0 <= k < pmul(s, f).len() implies !pmul(s, f)[k] by {
        }
        lemma_reduce_zero(pmul(s, f));
    } else {
        let m = (s.len() - 1) as nat;
        let s1 = s.drop_last();
        lemma_reduce_multiple(s1);
        if !s[m as int] {
            assert(peq(s, s1));
            lemma_pmul_peq_left(s, s1, f);
            lemma_reduce_peq(pmul(s, f), pmul(s1, f));
        } else {
            let t = padd(s1, mono(m));
            assert(peq(s, t));
            lemma_pmul_peq_left(s, t, f);
            lemma_pmul_padd_left(s1, mono(m), f);
            lemma_pmul_mono(m, f);
            lemma_reduce_peq(pmul(mono(m), f), shift(f, m));
            lemma_reduce_shifted_field_poly(m);
            lemma_reduce_padd(pmul(s1, f), pmul(mono(m), f));
            assert(peq(pmul(s, f), padd(pmul(s1, f), pmul(mono(m), f))));
            lemma_reduce_peq(pmul(s, f), padd(pmul(s1, f), pmul(mono(m), f)));
            assert(gf_add(gf_zero_val(), gf_zero_val()) =~= gf_zero_val());
        }
    }
}

/// Reducing a factor first does not change the reduced product.
proof fn lemma_reduce_factor(p: Seq<bool>, q: Seq<bool>)
    ensures
        gf_reduce(pmul(gf_reduce(p), q)) == gf_reduce(pmul(p, q)),
    decreases p.len(),
{
    if p.len() <= 233 {
        assert(peq(gf_reduce(p), p));
        lemma_pmul_peq_left(gf_reduce(p), p, q);
        lemma_reduce_peq(pmul(gf_reduce(p), q), pmul(p, q));
    } else {
        let ft = fold_top(p);
        let d = p.len() - 1;
        let j = (d - 233) as nat;
        lemma_reduce_factor(ft, q);
        if !p[d] {
            assert(ft =~= p.drop_last());
            assert(peq(ft, p));
            lemma_pmul_peq_left(ft, p, q);
            lemma_reduce_peq(pmul(ft, q), pmul(p, q));
        } else {
            let f = field_poly();
            let sh = shift(f, j);
            let t = padd(ft, sh);
            assert forall|i: int| #[trigger] pc(p, i) == pc(t, i) by {
                assert(pc(f, i - j) == (i - j == 0 || i - j == 74 || i - j == 233));
            }
            lemma_pmul_peq_left(p, t, q);
            lemma_pmul_padd_left(ft, sh, q);
            // the extra part is a multiple of the field polynomial
            lemma_pmul_mono(j, f);
            lemma_pmul_peq_left(sh, pmul(mono(j), f), q);
            lemma_pmul_comm(pmul(mono(j), f), q);
            lemma_pmul_assoc(q, mono(j), f);
            lemma_reduce_multiple(pmul(q, mono(j)));
            lemma_reduce_peq(pmul(sh, q), pmul(pmul(mono(j), f), q));
            lemma_reduce_padd(pmul(ft, q), pmul(sh, q));
            assert(peq(pmul(p, q), padd(pmul(ft, q), pmul(sh, q))));
            lemma_reduce_peq(pmul(p, q), padd(pmul(ft, q), pmul(sh, q)));
            lemma_reduce_len(pmul(ft, q));
            assert(gf_add(gf_reduce(pmul(ft, q)), gf_zero_val()) =~= gf_reduce(pmul(ft, q)));
        }
    }
}

proof fn lemma_conv_upto_pmul(a: Seq<bool>, b: Seq<bool>, k: int, n: int)
    requires
        a.len() == 233,
        b.len() == 233,
        0 <= n <= 233,
    ensures
        conv_upto(a, b, k, n) == xsum(pmul_terms(a, b, k), n),
    decreases n,
{
    if n > 0 {
        lemma_conv_upto_pmul(a, b, k, n - 1);
    }
}

/// Field multiplication is the reduced polynomial product.
proof fn lemma_gf_mul_pmul(a: Seq<bool>, b: Seq<bool>)
    requires
        a.len() == 233,
        b.len() == 233,
    ensures
        gf_mul(a, b) == gf_reduce(pmul(a, b)),
{
    assert forall|k: int| #[trigger] pc(poly_product(a, b), k) == pc(pmul(a, b), k) by {
        if 0 <= k < 465 {
            lemma_conv_upto_pmul(a, b, k, 233);
        } else if k == 465 {
            assert forall|i: int| 0 <= i < 233 implies !#[trigger] pmul_terms(a, b, k)(i) by {
            }
            lemma_xsum_zero(pmul_terms(a, b, k), 233);
        }
    }
    lemma_reduce_peq(poly_product(a, b), pmul(a, b));
}

/// Law: field multiplication is associative, `(a · b) · c = a · (b · c)`.
pub proof fn lemma_gf_mul_assoc(a: Seq<bool>, b: Seq<bool>, c: Seq<bool>)
    requires
        a.len() == 233,
        b.len() == 233,
        c.len() == 233,
    ensures
        gf_mul(gf_mul(a, b), c) == gf_mul(a, gf_mul(b, c)),
{
    let ab = gf_mul(a, b);
    let bc = gf_mul(b, c);
    lemma_gf_mul_pmul(a, b);
    lemma_gf_mul_pmul(b, c);
    lemma_reduce_len(pmul(a, b));
    lemma_reduce_len(pmul(b, c));
    lemma_gf_mul_pmul(ab, c);
    lemma_gf_mul_pmul(a, bc);
    lemma_reduce_factor(pmul(a, b), c);
    lemma_pmul_assoc(a, b, c);
    lemma_pmul_comm(a, bc);
    lemma_reduce_factor(pmul(b, c), a);
    lemma_pmul_comm(pmul(b, c), a);
}


/// Law: zero absorbs field multiplication, `a · 0 = 0`.
pub proof fn lemma_gf_mul_zero(a: Seq<bool>)
    requires
        a.len() == 233,
    ensures
        gf_mul(a, gf_zero_val()) == gf_zero_val(),
{
    let z = gf_zero_val();
    lemma_gf_mul_pmul(a, z);
    assert forall|k: int| 0 <= k < pmul(a, z).len() implies !pmul(a, z)[k] by {
        assert forall|i: int| 0 <= i < 233 implies !#[trigger] pmul_terms(a, z, k)(i) by {
        }
        lemma_xsum_zero(pmul_terms(a, z, k), 233);
    }
    lemma_reduce_zero(pmul(a, z));
}

/// `p` scaled by `l`: (l X : l^2 S : l Z : l^2 T), the same group element.
pub open spec fn point_scale(p: PointValue, l: Seq<bool>) -> PointValue {
    PointValue {
        x: gf_mul(p.x, l),
        s: gf_mul(p.s, gf_mul(l, l)),
        z: gf_mul(p.z, l),
        t: gf_mul(p.t, gf_mul(l, l)),
    }
}

/// The coordinates of `p` are field elements.
pub open spec fn point_wf(p: PointValue) -> bool {
    p.x.len() == 233 && p.s.len() == 233 && p.z.len() == 233 && p.t.len() == 233
}

/// Law: a point compares equal to any rescaling of its coordinates.
pub proof fn lemma_point_equals_scaled(p: PointValue, l: Seq<bool>)
    requires
        point_wf(p),
        l.len() == 233,
    ensures
        point_equals_val(p, point_scale(p, l)),
{
    let l2 = gf_mul(l, l);
    lemma_reduce_len(pmul(l, l));
    lemma_gf_mul_pmul(l, l);
    lemma_gf_mul_assoc(p.s, p.t, l2);
    lemma_gf_mul_assoc(p.s, l2, p.t);
    lemma_gf_mul_comm(l2, p.t);
    lemma_gf_mul_comm(p.s, p.t);
    // S1 T2 = s (t l2) and S2 T1 = (s l2) t = s (l2 t) = s (t l2)
}

/// Law: the identity element is a two-sided neutral for addition:
/// `P + O = O + P = (T, S Z^2, Z^2, T Z^2)`, the same group element as `P`.
pub proof fn lemma_point_add_identity(p: PointValue)
    requires
        point_wf(p),
    ensures
        point_add_val(p, identity_val()) == (PointValue {
            x: p.t,
            s: gf_mul(p.s, gf_square(p.z)),
            z: gf_square(p.z),
            t: gf_mul(p.t, gf_square(p.z)),
        }),
        point_add_val(identity_val(), p) == point_add_val(p, identity_val()),
        point_equals_val(point_add_val(p, identity_val()), p),
{
    lemma_point_add_comm(identity_val(), p);
    let zero = gf_zero_val();
    let one = gf_one_val();
    lemma_gf_mul_zero(p.x);
    lemma_gf_mul_one(p.s);
    lemma_gf_mul_one(p.z);
    assert(gf_add(one, zero) =~= one);
    let st = gf_add(p.s, p.t);
    lemma_gf_mul_one(st);
    lemma_gf_square_is_mul(zero);
    lemma_gf_mul_zero(zero);
    lemma_gf_square_is_mul(p.z);
    let g = gf_mul(p.z, p.z);
    lemma_gf_mul_pmul(p.z, p.z);
    lemma_reduce_len(pmul(p.z, p.z));
    lemma_gf_mul_zero(st);
    let sg = gf_mul(p.s, g);
    lemma_gf_mul_pmul(p.s, g);
    lemma_reduce_len(pmul(p.s, g));
    let r = point_add_val(p, identity_val());
    assert(gf_add(st, p.s) =~= p.t);
    assert(r.x == p.t);
    assert(gf_add(sg, zero) =~= sg);
    assert(r.s == sg);
    assert(gf_add(zero, g) =~= g);
    assert(r.z == g);
    assert(r.t == gf_mul(p.t, g));
    lemma_gf_mul_assoc(p.s, g, p.t);
    lemma_gf_mul_comm(g, p.t);
}


pub(crate) proof fn lemma_gf_pow_len(a: Seq<bool>, n: nat)
    ensures
        gf_pow(a, n).len() == 233,
{
    if n > 0 {
        lemma_reduce_len(poly_product(gf_pow(a, (n - 1) as nat), a));
    }
}

/// Law: one is also a left unit, `1 · a = a`.
pub proof fn lemma_gf_one_mul(a: Seq<bool>)
    requires
        a.len() == 233,
    ensures
        gf_mul(gf_one_val(), a) == a,
{
    lemma_gf_mul_comm(gf_one_val(), a);
    lemma_gf_mul_one(a);
}

/// Law: powers add, `a^(m+n) = a^m · a^n`.
pub proof fn lemma_gf_pow_add(a: Seq<bool>, m: nat, n: nat)
    requires
        a.len() == 233,
    ensures
        gf_pow(a, m + n) == gf_mul(gf_pow(a, m), gf_pow(a, n)),
    decreases n,
{
    lemma_gf_pow_len(a, m);
    if n == 0 {
        lemma_gf_mul_one(gf_pow(a, m));
    } else {
        let n1 = (n - 1) as nat;
        lemma_gf_pow_add(a, m, n1);
        lemma_gf_pow_len(a, n1);
        lemma_gf_mul_assoc(gf_pow(a, m), gf_pow(a, n1), a);
        assert(gf_pow(a, m + n) == gf_mul(gf_pow(a, (m + n1) as nat), a));
    }
}

/// Squaring `j` times raises a power to `2^j` times its exponent.
proof fn lemma_gf_sqn_pow(a: Seq<bool>, m: nat, j: nat)
    requires
        a.len() == 233,
    ensures
        gf_sqn(gf_pow(a, m), j) == gf_pow(a, m * pow2(j)),
    decreases j,
{
    if j == 0 {
        lemma2_to64();
        assert(m * pow2(0) == m);
    } else {
        let j1 = (j - 1) as nat;
        lemma_gf_sqn_pow(a, m, j1);
        let e = m * pow2(j1);
        lemma_gf_pow_len(a, e);
        lemma_gf_square_is_mul(gf_pow(a, e));
        lemma_gf_pow_add(a, e, e);
        lemma_pow2_unfold(j);
        assert(m * pow2(j) == e + e) by (nonlinear_arith)
            requires
                pow2(j) == 2 * pow2(j1),
                e == m * pow2(j1),
        ;
    }
}

/// Law: the inversion chain computes `a^(2^k - 1)`.
pub proof fn lemma_mersenne_pow(a: Seq<bool>, k: nat)
    requires
        a.len() == 233,
        k >= 1,
    ensures
        mersenne_pow(a, k) == gf_pow(a, (pow2(k) - 1) as nat),
    decreases k,
{
    lemma_pow2_pos(k);
    if k == 1 {
        lemma2_to64();
        assert(gf_pow(a, 1) == gf_mul(gf_pow(a, 0), a));
        lemma_gf_one_mul(a);
    } else if k % 2 == 0 {
        let j = k / 2;
        lemma_mersenne_pow(a, j);
        lemma_pow2_pos(j);
        let p = pow2(j);
        let e = (p - 1) as nat;
        lemma_gf_sqn_pow(a, e, j);
        lemma_gf_pow_add(a, e * p, e);
        lemma_pow2_adds(j, j);
        assert(e * p + e == pow2(k) - 1) by (nonlinear_arith)
            requires
                e == p - 1,
                pow2(k) == p * p,
                p >= 1,
        ;
    } else {
        let k1 = (k - 1) as nat;
        lemma_mersenne_pow(a, k1);
        let e = (pow2(k1) - 1) as nat;
        lemma_pow2_pos(k1);
        lemma_gf_pow_len(a, e);
        lemma_gf_square_is_mul(gf_pow(a, e));
        lemma_gf_pow_add(a, e, e);
        lemma_pow2_unfold(k);
        assert(gf_pow(a, (e + e + 1) as nat) == gf_mul(gf_pow(a, (e + e) as nat), a));
    }
}

/// The inverse circuit's chain: `(a^(2^232 - 1))^2 = a^(2^233 - 2)`.
pub proof fn lemma_gf_inv_chain(a: Seq<bool>)
    requires
        a.len() == 233,
    ensures
        gf_square(mersenne_pow(a, 232)) == gf_inv(a),
{
    lemma_mersenne_pow(a, 232);
    let e = (pow2(232) - 1) as nat;
    lemma_pow2_pos(232);
    lemma_gf_pow_len(a, e);
    lemma_gf_square_is_mul(gf_pow(a, e));
    lemma_gf_pow_add(a, e, e);
    lemma_pow2_unfold(233);
    assert(e + e == pow2(233) - 2);
}


/// Law: squaring is additive, `(a + b)^2 = a^2 + b^2`.
pub proof fn lemma_gf_square_add(a: Seq<bool>, b: Seq<bool>)
    ensures
        gf_square(gf_add(a, b)) == gf_add(gf_square(a), gf_square(b)),
{
    assert(spread(gf_add(a, b)) =~= padd(spread(a), spread(b)));
    lemma_reduce_padd_same(spread(a), spread(b));
}

/// Law: squaring is multiplicative, `(a b)^2 = a^2 b^2`.
pub proof fn lemma_gf_square_mul(a: Seq<bool>, b: Seq<bool>)
    requires
        a.len() == 233,
        b.len() == 233,
    ensures
        gf_square(gf_mul(a, b)) == gf_mul(gf_square(a), gf_square(b)),
{
    let ab = gf_mul(a, b);
    lemma_gf_mul_pmul(a, b);
    lemma_reduce_len(pmul(a, b));
    lemma_gf_square_is_mul(ab);
    lemma_gf_square_is_mul(a);
    lemma_gf_square_is_mul(b);
    let aa = gf_mul(a, a);
    let bb = gf_mul(b, b);
    let ba = gf_mul(b, a);
    lemma_gf_mul_pmul(a, a);
    lemma_reduce_len(pmul(a, a));
    lemma_gf_mul_pmul(b, b);
    lemma_reduce_len(pmul(b, b));
    lemma_gf_mul_pmul(b, a);
    lemma_reduce_len(pmul(b, a));
    lemma_gf_mul_pmul(ba, b);
    lemma_reduce_len(pmul(ba, b));
    // (a b)(a b) = a (b (a b)) = a ((b a) b) = a ((a b) b) = a (a (b b)) = (a a)(b b)
    lemma_gf_mul_assoc(a, b, ab);
    lemma_gf_mul_assoc(b, a, b);
    lemma_gf_mul_comm(b, a);
    lemma_gf_mul_assoc(a, b, b);
    lemma_gf_mul_assoc(a, a, bb);
}

/// Law: the Frobenius map is an endomorphism of the curve group, exactly on
/// coordinates: `frob(P + Q) = frob(P) + frob(Q)`.
pub proof fn lemma_point_frob_add(p1: PointValue, p2: PointValue)
    requires
        point_wf(p1),
        point_wf(p2),
    ensures
        point_frob_val(point_add_val(p1, p2)) == point_add_val(point_frob_val(p1), point_frob_val(p2)),
{
    let q1 = point_frob_val(p1);
    let q2 = point_frob_val(p2);
    let x1x2 = gf_mul(p1.x, p2.x);
    let s1s2 = gf_mul(p1.s, p2.s);
    let z1z2 = gf_mul(p1.z, p2.z);
    let u1 = gf_add(p1.s, p1.t);
    let u2 = gf_add(p2.s, p2.t);
    let d = gf_mul(u1, u2);
    let f = gf_square(x1x2);
    let g = gf_square(z1z2);
    let x3 = gf_add(d, s1s2);
    let z3 = gf_add(f, g);
    // lengths
    lemma_reduce_len(poly_product(p1.x, p2.x));
    lemma_reduce_len(poly_product(p1.s, p2.s));
    lemma_reduce_len(poly_product(p1.z, p2.z));
    lemma_reduce_len(poly_product(u1, u2));
    lemma_reduce_len(spread(x1x2));
    lemma_reduce_len(spread(z1z2));
    lemma_reduce_len(spread(p1.s));
    lemma_reduce_len(spread(p1.t));
    lemma_reduce_len(spread(p2.s));
    lemma_reduce_len(spread(p2.t));
    // products and sums commute with squaring
    lemma_gf_square_mul(p1.x, p2.x);
    lemma_gf_square_mul(p1.s, p2.s);
    lemma_gf_square_mul(p1.z, p2.z);
    lemma_gf_square_add(p1.s, p1.t);
    lemma_gf_square_add(p2.s, p2.t);
    lemma_gf_square_mul(u1, u2);
    lemma_gf_square_add(d, s1s2);
    lemma_gf_square_mul(s1s2, g);
    lemma_gf_square_mul(d, f);
    lemma_gf_square_add(gf_mul(s1s2, g), gf_mul(d, f));
    lemma_gf_square_add(f, g);
    lemma_gf_square_mul(x3, z3);
}


pub(crate) proof fn lemma_gf_mul_len(a: Seq<bool>, b: Seq<bool>)
    ensures
        gf_mul(a, b).len() == 233,
{
    lemma_reduce_len(poly_product(a, b));
}

/// Law: multiplication distributes over addition, `(a + b) c = a c + b c`.
pub proof fn lemma_gf_mul_add(a: Seq<bool>, b: Seq<bool>, c: Seq<bool>)
    requires
        a.len() == 233,
        b.len() == 233,
        c.len() == 233,
    ensures
        gf_mul(gf_add(a, b), c) == gf_add(gf_mul(a, c), gf_mul(b, c)),
{
    let ab = gf_add(a, b);
    assert(ab =~= padd(a, b));
    lemma_gf_mul_pmul(ab, c);
    lemma_gf_mul_pmul(a, c);
    lemma_gf_mul_pmul(b, c);
    lemma_pmul_padd_left(a, b, c);
    lemma_reduce_peq(pmul(padd(a, b), c), padd(pmul(a, c), pmul(b, c)));
    lemma_reduce_padd(pmul(a, c), pmul(b, c));
}

/// `(a l) b = (a b) l`.
proof fn lemma_gf_mul_swap_factor(a: Seq<bool>, l: Seq<bool>, b: Seq<bool>)
    requires
        a.len() == 233,
        l.len() == 233,
        b.len() == 233,
    ensures
        gf_mul(gf_mul(a, l), b) == gf_mul(gf_mul(a, b), l),
{
    lemma_gf_mul_assoc(a, l, b);
    lemma_gf_mul_comm(l, b);
    lemma_gf_mul_assoc(a, b, l);
}

/// `(a c)(b c) = (a b)(c c)`.
proof fn lemma_gf_mul_pair(a: Seq<bool>, b: Seq<bool>, c: Seq<bool>)
    requires
        a.len() == 233,
        b.len() == 233,
        c.len() == 233,
    ensures
        gf_mul(gf_mul(a, c), gf_mul(b, c)) == gf_mul(gf_mul(a, b), gf_mul(c, c)),
{
    lemma_gf_mul_len(b, c);
    lemma_gf_mul_len(c, b);
    lemma_gf_mul_len(c, c);
    lemma_gf_mul_len(a, b);
    lemma_gf_mul_len(c, gf_mul(b, c));
    lemma_gf_mul_assoc(a, c, gf_mul(b, c));
    lemma_gf_mul_assoc(c, b, c);
    lemma_gf_mul_comm(c, b);
    lemma_gf_mul_assoc(b, c, c);
    lemma_gf_mul_assoc(a, b, gf_mul(c, c));
}

/// Law: rescaling the first operand by `l` rescales the sum by `l^2`, so the
/// sum does not depend on which representative of a point is added.
pub proof fn lemma_point_add_scaled(p1: PointValue, p2: PointValue, l: Seq<bool>)
    requires
        point_wf(p1),
        point_wf(p2),
        l.len() == 233,
    ensures
        point_add_val(point_scale(p1, l), p2) == point_scale(point_add_val(p1, p2), gf_mul(l, l)),
{
    let l2 = gf_mul(l, l);
    let l4 = gf_mul(l2, l2);
    lemma_gf_mul_len(l, l);
    let x1x2 = gf_mul(p1.x, p2.x);
    let s1s2 = gf_mul(p1.s, p2.s);
    let z1z2 = gf_mul(p1.z, p2.z);
    let u1 = gf_add(p1.s, p1.t);
    let u2 = gf_add(p2.s, p2.t);
    let d = gf_mul(u1, u2);
    let f = gf_square(x1x2);
    let g = gf_square(z1z2);
    lemma_gf_mul_len(p1.x, p2.x);
    lemma_gf_mul_len(p1.s, p2.s);
    lemma_gf_mul_len(p1.z, p2.z);
    lemma_gf_mul_len(u1, u2);
    lemma_gf_square_is_mul(x1x2);
    lemma_gf_square_is_mul(z1z2);
    lemma_gf_mul_len(x1x2, x1x2);
    lemma_gf_mul_len(z1z2, z1z2);
    let x3 = gf_add(d, s1s2);
    let z3 = gf_add(f, g);
    let s3 = gf_add(gf_mul(s1s2, g), gf_mul(d, f));
    let q = point_scale(p1, l);
    // products with the rescaled operand
    lemma_gf_mul_swap_factor(p1.x, l, p2.x);
    lemma_gf_mul_swap_factor(p1.s, l2, p2.s);
    lemma_gf_mul_swap_factor(p1.z, l, p2.z);
    lemma_gf_mul_add(p1.s, p1.t, l2);
    lemma_gf_mul_swap_factor(u1, l2, u2);
    let qx = gf_mul(x1x2, l);
    let qz = gf_mul(z1z2, l);
    lemma_gf_mul_len(x1x2, l);
    lemma_gf_mul_len(z1z2, l);
    lemma_gf_square_is_mul(qx);
    lemma_gf_square_is_mul(qz);
    lemma_gf_mul_pair(x1x2, x1x2, l);
    lemma_gf_mul_pair(z1z2, z1z2, l);
    // the sum's coordinates
    lemma_gf_mul_len(d, l2);
    lemma_gf_mul_len(s1s2, l2);
    lemma_gf_mul_add(d, s1s2, l2);
    lemma_gf_mul_len(f, l2);
    lemma_gf_mul_len(g, l2);
    lemma_gf_mul_add(f, g, l2);
    lemma_gf_mul_len(s1s2, g);
    lemma_gf_mul_len(d, f);
    lemma_gf_mul_len(f, f);
    lemma_gf_mul_pair(s1s2, g, l2);
    lemma_gf_mul_pair(d, f, l2);
    lemma_gf_mul_len(l2, l2);
    lemma_gf_mul_add(gf_mul(s1s2, g), gf_mul(d, f), l4);
    lemma_gf_mul_len(x3, z3);
    lemma_gf_mul_pair(x3, z3, l2);
    let r = point_add_val(q, p2);
    let e = point_scale(point_add_val(p1, p2), l2);
    assert(r.x == e.x);
    assert(r.z == e.z);
    assert(r.s == e.s);
    assert(r.t == e.t);
}


/// Law: decoding returns the neutral element for `w = 0`, and otherwise an
/// affine point that carries its encoding: `S = w^2 X`, `Z = 1`, `T = X`.
pub proof fn lemma_decode_carries_encoding(bits: Seq<bool>)
    ensures
        ({
            let w = bits.subrange(0, 233);
            let p = xsk233_decode_val(bits).0;
            &&& gf_is_zero_val(w) ==> p == identity_val()
            &&& !gf_is_zero_val(w) ==> p.s == gf_mul(gf_square(w), p.x) && p.z == gf_one_val()
                && p.t == p.x
        }),
{
}


/// Law: a sum (projective or mixed) always satisfies `T = X Z`.
pub proof fn lemma_point_add_t_is_xz(p1: PointValue, p2: PointValue)
    ensures
        point_add_val(p1, p2).t == gf_mul(point_add_val(p1, p2).x, point_add_val(p1, p2).z),
        point_add_mixed_val(p1, p2).t == gf_mul(
            point_add_mixed_val(p1, p2).x,
            point_add_mixed_val(p1, p2).z,
        ),
{
}

/// Law: mixed addition does not read the second operand's Z coordinate.
pub proof fn lemma_point_add_mixed_ignores_z2(p1: PointValue, p2: PointValue, z: Seq<bool>)
    ensures
        point_add_mixed_val(p1, p2) == point_add_mixed_val(p1, PointValue { z, ..p2 }),
{
}


pub(crate) proof fn lemma_gf_square_len(a: Seq<bool>)
    ensures
        gf_square(a).len() == 233,
{
    lemma_reduce_len(spread(a));
}

pub(crate) proof fn lemma_gf_sqn_len(a: Seq<bool>, n: nat)
    requires
        a.len() == 233,
    ensures
        gf_sqn(a, n).len() == 233,
    decreases n,
{
    if n > 0 {
        lemma_gf_square_len(gf_sqn(a, (n - 1) as nat));
    }
}

/// Squaring `n` times is additive.
pub(crate) proof fn lemma_gf_sqn_add(a: Seq<bool>, b: Seq<bool>, n: nat)
    ensures
        gf_sqn(gf_add(a, b), n) == gf_add(gf_sqn(a, n), gf_sqn(b, n)),
    decreases n,
{
    if n > 0 {
        let n1 = (n - 1) as nat;
        lemma_gf_sqn_add(a, b, n1);
        lemma_gf_square_add(gf_sqn(a, n1), gf_sqn(b, n1));
    }
}

/// `(a^2)^(2^n) = a^(2^(n+1))`.
pub(crate) proof fn lemma_gf_sqn_square(a: Seq<bool>, n: nat)
    ensures
        gf_sqn(gf_square(a), n) == gf_sqn(a, n + 1),
    decreases n,
{
    if n > 0 {
        lemma_gf_sqn_square(a, (n - 1) as nat);
        assert(gf_sqn(a, n + 1) == gf_square(gf_sqn(a, n)));
    } else {
        assert(gf_sqn(a, 1) == gf_square(gf_sqn(a, 0)));
    }
}

/// The sum of Frobenius powers is additive.
pub(crate) proof fn lemma_frob_sum_add(a: Seq<bool>, b: Seq<bool>, n: nat)
    requires
        a.len() == 233,
        b.len() == 233,
        n >= 1,
    ensures
        frob_sum(gf_add(a, b), n) == gf_add(frob_sum(a, n), frob_sum(b, n)),
    decreases n,
{
    if n > 1 {
        let n1 = (n - 1) as nat;
        lemma_frob_sum_add(a, b, n1);
        lemma_gf_sqn_add(a, b, n1);
        assert(gf_add(gf_add(frob_sum(a, n1), frob_sum(b, n1)), gf_add(gf_sqn(a, n1), gf_sqn(b, n1)))
            =~= gf_add(gf_add(frob_sum(a, n1), gf_sqn(a, n1)), gf_add(frob_sum(b, n1), gf_sqn(b, n1))));
    } else {
        assert(frob_sum(gf_add(a, b), n) == gf_add(a, b));
    }
}

/// `(a + a^2 + ... + a^(2^(n-1)))^2 = (a + ... + a^(2^(n-1))) + a + a^(2^n)`.
pub(crate) proof fn lemma_frob_sum_square(a: Seq<bool>, n: nat)
    requires
        a.len() == 233,
        n >= 1,
    ensures
        gf_square(frob_sum(a, n)) == gf_add(gf_add(frob_sum(a, n), a), gf_sqn(a, n)),
    decreases n,
{
    lemma_gf_sqn_len(a, n);
    if n == 1 {
        assert(gf_sqn(a, 1) == gf_square(gf_sqn(a, 0)));
        lemma_gf_square_len(a);
        assert(gf_add(gf_add(a, a), gf_square(a)) =~= gf_square(a));
    } else {
        let n1 = (n - 1) as nat;
        lemma_frob_sum_square(a, n1);
        lemma_gf_square_add(frob_sum(a, n1), gf_sqn(a, n1));
        lemma_gf_sqn_len(a, n1);
        assert(gf_add(gf_add(gf_add(frob_sum(a, n1), a), gf_sqn(a, n1)), gf_sqn(a, n)) =~= gf_add(
            gf_add(gf_add(frob_sum(a, n1), gf_sqn(a, n1)), a),
            gf_sqn(a, n),
        ));
    }
}

/// `H + H^2 = a + a^2 + ... + a^(2^(2n-1))` for the partial half-trace `H`.
pub(crate) proof fn lemma_halftrace_sum_square(a: Seq<bool>, n: nat)
    requires
        a.len() == 233,
        n >= 1,
    ensures
        gf_add(halftrace_sum(a, n), gf_square(halftrace_sum(a, n))) == frob_sum(a, 2 * n),
    decreases n,
{
    if n == 1 {
        assert(gf_sqn(a, 1) == gf_square(gf_sqn(a, 0)));
        assert(frob_sum(a, 2) == gf_add(frob_sum(a, 1), gf_sqn(a, 1)));
    } else {
        let n1 = (n - 1) as nat;
        lemma_halftrace_sum_square(a, n1);
        let h = halftrace_sum(a, n1);
        let t = gf_sqn(a, 2 * n1);
        lemma_gf_square_add(h, t);
        assert(gf_sqn(a, 2 * n1 + 1) == gf_square(t));
        assert(frob_sum(a, 2 * n1 + 1) == gf_add(frob_sum(a, 2 * n1), t));
        assert(frob_sum(a, 2 * n) == gf_add(frob_sum(a, 2 * n1 + 1), gf_sqn(a, 2 * n1 + 1)));
        assert(gf_add(gf_add(h, t), gf_add(gf_square(h), gf_square(t))) =~= gf_add(
            gf_add(gf_add(h, gf_square(h)), t),
            gf_square(t),
        ));
    }
}


/// GF(2)[x] / (x^233 + x^74 + 1) is a field: the Frobenius map has order 233
/// (`a^(2^233) = a`) and a product is zero only when a factor is. Both hold
/// because x^233 + x^74 + 1 is irreducible over GF(2); this library does not
/// prove that (it takes computing x^(2^233) modulo the polynomial), and the
/// laws that need it take it as their hypothesis.
pub open spec fn gf_is_field() -> bool {
    &&& forall|a: Seq<bool>| a.len() == 233 ==> #[trigger] gf_sqn(a, 233) == a
    &&& forall|a: Seq<bool>, b: Seq<bool>|
        a.len() == 233 && b.len() == 233 && #[trigger] gf_mul(a, b) == gf_zero_val() ==> a
            == gf_zero_val() || b == gf_zero_val()
}

pub(crate) proof fn lemma_frob_sum_len(a: Seq<bool>, n: nat)
    requires
        a.len() == 233,
    ensures
        frob_sum(a, n).len() == 233,
{
}

/// In a field, `x + 1 = 0` only for `x = 1`.
pub(crate) proof fn lemma_add_one_zero(x: Seq<bool>)
    requires
        x.len() == 233,
        gf_add(x, gf_one_val()) == gf_zero_val(),
    ensures
        x == gf_one_val(),
{
    assert forall|i: int| 0 <= i < 233 implies x[i] == gf_one_val()[i] by {
        let v = gf_add(x, gf_one_val());
        assert(v[i] == (x[i] != gf_one_val()[i]));
        assert(gf_zero_val()[i] == false);
        assert(v[i] == gf_zero_val()[i]);
    }
    assert(x =~= gf_one_val());
}

/// Law: the trace `a + a^2 + ... + a^(2^232)` of an element of the field is
/// 0 or 1, so the trace circuit loses nothing by keeping its constant
/// coefficient.
pub proof fn lemma_trace_is_bit(a: Seq<bool>)
    requires
        gf_is_field(),
        a.len() == 233,
    ensures
        frob_sum(a, 233) == gf_zero_val() || frob_sum(a, 233) == gf_one_val(),
{
    let t = frob_sum(a, 233);
    let one = gf_one_val();
    lemma_frob_sum_square(a, 233);
    assert(gf_sqn(a, 233) == a);
    assert(gf_add(gf_add(t, a), a) =~= t);
    lemma_gf_square_is_mul(t);
    // t (t + 1) = t^2 + t = 0
    let u = gf_add(t, one);
    lemma_gf_mul_add(t, one, t);
    lemma_gf_one_mul(t);
    lemma_gf_mul_comm(u, t);
    assert(gf_add(t, t) =~= gf_zero_val());
    assert(gf_mul(t, u) == gf_zero_val());
    if t != gf_zero_val() {
        assert(u == gf_zero_val());
        lemma_add_one_zero(t);
    }
}

/// Law: in the field, inversion gives the inverse, `a · a^(2^233 - 2) = 1`
/// for `a != 0`.
pub proof fn lemma_gf_inv_mul(a: Seq<bool>)
    requires
        gf_is_field(),
        a.len() == 233,
        a != gf_zero_val(),
    ensures
        gf_mul(a, gf_inv(a)) == gf_one_val(),
{
    let one = gf_one_val();
    lemma_pow2_pos(232);
    lemma_pow2_unfold(233);
    let n = pow2(233);
    assert(n >= 2);
    lemma_gf_sqn_pow(a, 1, 233);
    assert(gf_pow(a, 1) == gf_mul(gf_pow(a, 0), a));
    lemma_gf_one_mul(a);
    assert(gf_sqn(a, 233) == a);
    assert(gf_pow(a, 1 * n) == a);
    assert(1 * n == n);
    let p = gf_pow(a, (n - 1) as nat);
    assert(gf_pow(a, n) == gf_mul(p, a));
    lemma_gf_pow_len(a, (n - 1) as nat);
    lemma_gf_mul_add(p, one, a);
    assert(gf_add(a, a) =~= gf_zero_val());
    lemma_add_one_zero(p);
    let q = gf_inv(a);
    assert(((n - 1) as nat - 1) as nat == (n - 2) as nat);
    assert(p == gf_mul(gf_pow(a, (n - 2) as nat), a));
    lemma_gf_pow_len(a, (n - 2) as nat);
    lemma_gf_mul_comm(q, a);
}


/// `c (a + b) = c a + c b`.
pub(crate) proof fn lemma_gf_mul_add_left(c: Seq<bool>, a: Seq<bool>, b: Seq<bool>)
    requires
        a.len() == 233,
        b.len() == 233,
        c.len() == 233,
    ensures
        gf_mul(c, gf_add(a, b)) == gf_add(gf_mul(c, a), gf_mul(c, b)),
{
    lemma_gf_mul_add(a, b, c);
    lemma_gf_mul_comm(c, gf_add(a, b));
    lemma_gf_mul_comm(c, a);
    lemma_gf_mul_comm(c, b);
}

/// `Tr(a^2) = Tr(a)^2` (as sums of Frobenius powers).
pub(crate) proof fn lemma_frob_sum_of_square(a: Seq<bool>, n: nat)
    requires
        a.len() == 233,
        n >= 1,
    ensures
        frob_sum(gf_square(a), n) == gf_square(frob_sum(a, n)),
    decreases n,
{
    lemma_gf_square_len(a);
    if n > 1 {
        let n1 = (n - 1) as nat;
        lemma_frob_sum_of_square(a, n1);
        lemma_gf_sqn_square(a, n1);
        lemma_gf_square_add(frob_sum(a, n1), gf_sqn(a, n1));
        assert(gf_sqn(a, n) == gf_square(gf_sqn(a, n1)));
    }
}

/// Law: in the field, `Tr(w^2 + w) = 0`.
pub proof fn lemma_trace_artin_schreier(w: Seq<bool>)
    requires
        gf_is_field(),
        w.len() == 233,
    ensures
        frob_sum(gf_add(gf_square(w), w), 233) == gf_zero_val(),
{
    lemma_gf_square_len(w);
    lemma_frob_sum_add(gf_square(w), w, 233);
    lemma_frob_sum_of_square(w, 233);
    lemma_frob_sum_square(w, 233);
    assert(gf_sqn(w, 233) == w);
    let t = frob_sum(w, 233);
    assert(gf_add(gf_add(gf_add(t, w), w), t) =~= gf_zero_val());
}

/// Squaring one or zero changes nothing.
pub(crate) proof fn lemma_square_consts()
    ensures
        gf_square(gf_one_val()) == gf_one_val(),
        gf_square(gf_zero_val()) == gf_zero_val(),
{
    lemma_gf_square_is_mul(gf_one_val());
    lemma_gf_mul_one(gf_one_val());
    lemma_gf_square_is_mul(gf_zero_val());
    lemma_gf_mul_zero(gf_zero_val());
}

/// Law: the neutral element lies on the curve.
pub proof fn lemma_identity_on_curve()
    ensures
        on_curve(identity_val()),
{
    lemma_square_consts();
    lemma_gf_mul_zero(gf_one_val());
    let o = identity_val();
    assert(gf_sqn(gf_zero_val(), 2) == gf_square(gf_sqn(gf_zero_val(), 1)));
    assert(gf_sqn(gf_zero_val(), 1) == gf_square(gf_sqn(gf_zero_val(), 0)));
    assert(gf_sqn(gf_one_val(), 2) == gf_square(gf_sqn(gf_one_val(), 1)));
    assert(gf_sqn(gf_one_val(), 1) == gf_square(gf_sqn(gf_one_val(), 0)));
    assert(gf_add(gf_add(gf_one_val(), gf_zero_val()), gf_add(gf_zero_val(), gf_one_val()))
        =~= gf_zero_val());
}

/// For the affine point `(x, s = w^2 x)`, the curve equation is the square of
/// `x^2 + d x = 1` with `d = w^2 + w`: `S^2 + S T + X^4 + Z^4 = (x^2 + d x)^2 + 1`.
pub(crate) proof fn lemma_curve_quadratic(w: Seq<bool>, x: Seq<bool>)
    requires
        w.len() == 233,
        x.len() == 233,
    ensures
        ({
            let s = gf_mul(gf_square(w), x);
            gf_add(gf_add(gf_square(s), gf_mul(s, x)), gf_add(gf_sqn(x, 2), gf_sqn(gf_one_val(), 2)))
                == gf_add(
                gf_square(gf_add(gf_square(x), gf_mul(gf_add(gf_square(w), w), x))),
                gf_one_val(),
            )
        }),
{
    let w2 = gf_square(w);
    let w4 = gf_square(w2);
    let d = gf_add(w2, w);
    let x2 = gf_square(x);
    let x4 = gf_square(x2);
    let s = gf_mul(w2, x);
    lemma_gf_square_len(w);
    lemma_gf_square_len(w2);
    lemma_gf_square_len(x);
    lemma_gf_square_len(x2);
    lemma_gf_mul_len(d, x);
    lemma_gf_mul_len(w2, x);
    let dx = gf_mul(d, x);
    let q = gf_add(x2, dx);
    lemma_square_consts();
    lemma_gf_square_add(x2, dx);
    lemma_gf_square_mul(d, x);
    lemma_gf_square_add(w2, w);
    lemma_gf_mul_add(w4, w2, x2);
    // S^2 = w^4 x^2 and S T = w^2 x^2
    lemma_gf_square_mul(w2, x);
    lemma_gf_mul_assoc(w2, x, x);
    lemma_gf_square_is_mul(x);
    lemma_gf_mul_len(w4, x2);
    lemma_gf_mul_len(w2, x2);
    assert(gf_sqn(x, 2) == gf_square(gf_sqn(x, 1)));
    assert(gf_sqn(x, 1) == gf_square(gf_sqn(x, 0)));
    assert(gf_sqn(gf_one_val(), 2) == gf_square(gf_sqn(gf_one_val(), 1)));
    assert(gf_sqn(gf_one_val(), 1) == gf_square(gf_sqn(gf_one_val(), 0)));
    let a = gf_mul(w4, x2);
    let b = gf_mul(w2, x2);
    // q^2 = x^4 + w^4 x^2 + w^2 x^2
    assert(gf_square(q) == gf_add(x4, gf_add(a, b)));
    assert(gf_add(gf_add(a, b), gf_add(x4, gf_one_val())) =~= gf_add(
        gf_add(x4, gf_add(a, b)),
        gf_one_val(),
    ));
}

/// Both roots of `x^2 + d x = c` qualify: `x + d` is the other.
pub(crate) proof fn lemma_other_root(x: Seq<bool>, d: Seq<bool>)
    requires
        x.len() == 233,
        d.len() == 233,
    ensures
        gf_add(gf_square(gf_add(x, d)), gf_mul(d, gf_add(x, d))) == gf_add(gf_square(x), gf_mul(d, x)),
{
    lemma_gf_square_add(x, d);
    lemma_gf_mul_add_left(d, x, d);
    lemma_gf_square_is_mul(d);
    lemma_gf_square_len(x);
    lemma_gf_square_len(d);
    lemma_gf_mul_len(d, x);
    lemma_gf_mul_len(d, d);
    assert(gf_add(gf_add(gf_square(x), gf_square(d)), gf_add(gf_mul(d, x), gf_mul(d, d))) =~= gf_add(
        gf_square(x),
        gf_mul(d, x),
    ));
}

} // verus!
