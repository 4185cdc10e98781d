//! The binary field GF(2^233) = GF(2)[x] / (x^233 + x^74 + 1).
//!
//! An element is the sequence of its 233 coefficients, lowest degree first.

use vstd::arithmetic::power2::pow2;
use vstd::prelude::*;

verus! {

/// The zero element.
pub open spec fn gf_zero_val() -> Seq<bool> {
    Seq::new(233, |i: int| false)
}

/// The unit element.
pub open spec fn gf_one_val() -> Seq<bool> {
    Seq::new(233, |i: int| i == 0)
}

/// Field addition: coefficientwise exclusive or.
pub open spec fn gf_add(a: Seq<bool>, b: Seq<bool>) -> Seq<bool> {
    Seq::new(233, |i: int| a[i] != b[i])
}

/// Whether every coefficient is zero.
pub open spec fn gf_is_zero_val(a: Seq<bool>) -> bool {
    forall|i: int| 0 <= i < 233 ==> !a[i]
}

/// The parity of the terms `a[i] * b[k - i]` for `i < n` (the partial sums of
/// the coefficient of `x^k` in the polynomial product).
pub open spec fn conv_upto(a: Seq<bool>, b: Seq<bool>, k: int, n: int) -> bool
    decreases n,
{
    if n <= 0 {
        false
    } else {
        conv_upto(a, b, k, n - 1) != (0 <= k - (n - 1) < 233 && a[n - 1] && b[k - (n - 1)])
    }
}

/// The coefficient of `x^k` in the product of the polynomials `a` and `b`.
pub open spec fn conv(a: Seq<bool>, b: Seq<bool>, k: int) -> bool {
    conv_upto(a, b, k, 233)
}

/// The polynomial product of `a` and `b` (degree below 465), unreduced.
pub open spec fn poly_product(a: Seq<bool>, b: Seq<bool>) -> Seq<bool> {
    Seq::new(465, |k: int| conv(a, b, k))
}

/// Replaces the top term `x^d` (with `d >= 233`) by `x^(d-159) + x^(d-233)`,
/// which is the same modulo `x^233 + x^74 + 1`.
pub open spec fn fold_top(c: Seq<bool>) -> Seq<bool>
    recommends
        c.len() > 233,
{
    let d = c.len() - 1;
    let top = c[d];
    let c2 = c.drop_last();
    let c3 = c2.update(d - 233, c2[d - 233] != top);
    c3.update(d - 159, c3[d - 159] != top)
}

/// A polynomial reduced modulo `x^233 + x^74 + 1`.
pub open spec fn gf_reduce(c: Seq<bool>) -> Seq<bool>
    decreases c.len(),
{
    if c.len() <= 233 {
        c + Seq::new((233 - c.len()) as nat, |i: int| false)
    } else {
        gf_reduce(fold_top(c))
    }
}

/// Field multiplication.
pub open spec fn gf_mul(a: Seq<bool>, b: Seq<bool>) -> Seq<bool> {
    gf_reduce(poly_product(a, b))
}

/// The polynomial whose coefficient `2i` is `a[i]` and whose odd coefficients
/// are zero: in characteristic 2 this is the square of `a` before reduction.
pub open spec fn spread(a: Seq<bool>) -> Seq<bool> {
    Seq::new(465, |k: int| k % 2 == 0 && a[k / 2])
}

/// Field squaring (the Frobenius map).
pub open spec fn gf_square(a: Seq<bool>) -> Seq<bool> {
    gf_reduce(spread(a))
}

/// `a` squared `n` times: `a^(2^n)`.
pub open spec fn gf_sqn(a: Seq<bool>, n: nat) -> Seq<bool>
    decreases n,
{
    if n == 0 {
        a
    } else {
        gf_square(gf_sqn(a, (n - 1) as nat))
    }
}

/// `a + a^2 + a^4 + ... + a^(2^(n-1))` for `n >= 1`.
pub open spec fn frob_sum(a: Seq<bool>, n: nat) -> Seq<bool>
    decreases n,
{
    if n <= 1 {
        a
    } else {
        gf_add(frob_sum(a, (n - 1) as nat), gf_sqn(a, (n - 1) as nat))
    }
}

/// The absolute trace `Tr(a) = a + a^2 + ... + a^(2^232)`, an element of
/// GF(2), given as its constant coefficient.
pub open spec fn gf_trace(a: Seq<bool>) -> bool {
    frob_sum(a, 233)[0]
}

/// `a + a^4 + a^16 + ... + a^(4^(n-1))` for `n >= 1`.
pub open spec fn halftrace_sum(a: Seq<bool>, n: nat) -> Seq<bool>
    decreases n,
{
    if n <= 1 {
        a
    } else {
        gf_add(halftrace_sum(a, (n - 1) as nat), gf_sqn(a, (2 * (n - 1)) as nat))
    }
}

/// The half-trace `H(a) = a + a^4 + ... + a^(4^116)` (233 is odd), used to
/// solve quadratic equations when decoding points.
pub open spec fn gf_halftrace(a: Seq<bool>) -> Seq<bool> {
    halftrace_sum(a, 117)
}

/// `a^(2^k - 1)` for `k >= 1` (see `lemma_mersenne_pow`), built with the
/// Itoh-Tsujii identities
/// `a^(2^(2j) - 1) = (a^(2^j - 1))^(2^j) * a^(2^j - 1)` and
/// `a^(2^(j+1) - 1) = (a^(2^j - 1))^2 * a`.
pub open spec fn mersenne_pow(a: Seq<bool>, k: nat) -> Seq<bool>
    decreases k,
{
    if k <= 1 {
        a
    } else if k % 2 == 0 {
        let h = mersenne_pow(a, k / 2);
        gf_mul(gf_sqn(h, k / 2), h)
    } else {
        gf_mul(gf_square(mersenne_pow(a, (k - 1) as nat)), a)
    }
}

/// `a^n`, the product of `n` copies of `a`.
pub open spec fn gf_pow(a: Seq<bool>, n: nat) -> Seq<bool>
    decreases n,
{
    if n == 0 {
        gf_one_val()
    } else {
        gf_mul(gf_pow(a, (n - 1) as nat), a)
    }
}

/// Field inversion as `a^(2^233 - 2)` (zero maps to zero).
pub open spec fn gf_inv(a: Seq<bool>) -> Seq<bool> {
    gf_pow(a, (pow2(233) - 2) as nat)
}

/// The values of a list of wires under the assignment `w`.
pub open spec fn wires_val(w: Seq<bool>, ws: Seq<usize>) -> Seq<bool> {
    Seq::new(ws.len(), |i: int| w[ws[i] as int])
}


/// Decodes 240 little-endian bits into a field element: the low 233 bits are
/// the coefficients; the encoding is valid when the top 7 bits are zero.
pub open spec fn gf_decode_val(bits: Seq<bool>) -> (Seq<bool>, bool) {
    (bits.subrange(0, 233), forall|k: int| 233 <= k < 240 ==> !bits[k])
}


/// `d` where the bit is set, zero where it is not.
pub open spec fn gf_mask(d: Seq<bool>, bit: bool) -> Seq<bool> {
    Seq::new(233, |i: int| d[i] && bit)
}

} // verus!
