//! Points of the Koblitz curve xsk233 in the extended coordinates
//! (X : S : Z : T) of the xs233 family, and the group formulas on them.

use vstd::prelude::*;

use crate::bigint::{gen_s, gen_x, gf_bits};
use crate::gf_spec::{
    gf_mask, gf_sqn,
    gf_add, gf_decode_val, gf_halftrace, gf_inv, gf_is_zero_val, gf_mul, gf_one_val, gf_square,
    gf_trace, gf_zero_val,
};

verus! {

/// The four coordinates of a point, as field elements.
pub struct PointValue {
    pub x: Seq<bool>,
    pub s: Seq<bool>,
    pub z: Seq<bool>,
    pub t: Seq<bool>,
}

/// The neutral element (0 : 1 : 1 : 0).
pub open spec fn identity_val() -> PointValue {
    PointValue { x: gf_zero_val(), s: gf_one_val(), z: gf_one_val(), t: gf_zero_val() }
}

/// Point addition (complete formulas, with sqrt(b) = 1 on xsk233):
/// X3 = d + S1 S2, S3 = S1 S2 g + d f, Z3 = f + g, T3 = X3 Z3, where
/// d = (S1 + T1)(S2 + T2), f = (X1 X2)^2, g = (Z1 Z2)^2.
pub open spec fn point_add_val(p1: PointValue, p2: PointValue) -> PointValue {
    let x1x2 = gf_mul(p1.x, p2.x);
    let s1s2 = gf_mul(p1.s, p2.s);
    let z1z2 = gf_mul(p1.z, p2.z);
    let d = gf_mul(gf_add(p1.s, p1.t), gf_add(p2.s, p2.t));
    let f = gf_square(x1x2);
    let g = gf_square(z1z2);
    let x3 = gf_add(d, s1s2);
    let s3 = gf_add(gf_mul(s1s2, g), gf_mul(d, f));
    let z3 = gf_add(f, g);
    PointValue { x: x3, s: s3, z: z3, t: gf_mul(x3, z3) }
}

/// Point addition with the second operand taken to be affine (Z2 = 1):
/// as `point_add_val` with `g = Z1^2`.
pub open spec fn point_add_mixed_val(p1: PointValue, p2: PointValue) -> PointValue {
    let x1x2 = gf_mul(p1.x, p2.x);
    let s1s2 = gf_mul(p1.s, p2.s);
    let d = gf_mul(gf_add(p1.s, p1.t), gf_add(p2.s, p2.t));
    let f = gf_square(x1x2);
    let g = gf_square(p1.z);
    let x3 = gf_add(d, s1s2);
    let s3 = gf_add(gf_mul(s1s2, g), gf_mul(d, f));
    let z3 = gf_add(f, g);
    PointValue { x: x3, s: s3, z: z3, t: gf_mul(x3, z3) }
}

/// The Frobenius endomorphism: every coordinate squared.
pub open spec fn point_frob_val(p: PointValue) -> PointValue {
    PointValue { x: gf_square(p.x), s: gf_square(p.s), z: gf_square(p.z), t: gf_square(p.t) }
}

/// Equality of points in the group: S1 T2 = S2 T1.
pub open spec fn point_equals_val(p1: PointValue, p2: PointValue) -> bool {
    gf_mul(p1.s, p2.t) == gf_mul(p2.s, p1.t)
}

/// Decoding of a compressed xsk233 point from its 240 bits: the point and
/// whether the encoding was valid. The encoding `w` carries the point with
/// `S = w^2 X`, `Z = 1`, `T = X`, where `X` solves the curve equation by
/// half-traces; `w = 0` is the neutral element.
pub open spec fn xsk233_decode_val(bits: Seq<bool>) -> (PointValue, bool) {
    let (w, ve) = gf_decode_val(bits);
    let wz = gf_is_zero_val(w);
    let d = gf_add(gf_square(w), w);
    let rp = !gf_is_zero_val(d);
    let e = gf_inv(gf_square(d));
    let rp = rp && !gf_trace(e);
    let f = gf_halftrace(e);
    let x = gf_mul(d, f);
    let rp = rp && !gf_trace(x);
    let g = gf_halftrace(x);
    let g = gf_mul(gf_add(g, w), x);
    let x = gf_add(x, gf_mask(d, gf_trace(g)));
    let s = gf_mul(gf_square(w), x);
    let ok = ve && (rp || wz);
    if wz {
        // w = 0 encodes the neutral element
        (identity_val(), ok)
    } else {
        (PointValue { x, s, z: gf_one_val(), t: x }, ok)
    }
}


/// The generator of the prime-order subgroup of xsk233, in affine form
/// (Z = 1, T = X).
pub open spec fn generator_val() -> PointValue {
    PointValue { x: gf_bits(gen_x()), s: gf_bits(gen_s()), z: gf_bits(1), t: gf_bits(gen_x()) }
}


/// The curve xsk233 in these coordinates: `S^2 + S T + X^4 + Z^4 = 0`
/// (affinely, with `x = X/Z`, `s = S/Z^2`: `s^2 + s x = x^4 + 1`).
pub open spec fn on_curve(p: PointValue) -> bool {
    gf_add(gf_add(gf_square(p.s), gf_mul(p.s, p.t)), gf_add(gf_sqn(p.x, 2), gf_sqn(p.z, 2)))
        == gf_zero_val()
}

} // verus!
