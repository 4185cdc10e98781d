//! Circuits for points of the Koblitz curve xsk233: equality, addition,
//! mixed addition, Frobenius, and decoding of compressed points.

use vstd::prelude::*;

use crate::builder::{
    appends, count_gates, gate_counts, gates_hold, gates_wf, op_out, grows, room, CircuitAdapter, CircuitTrait, Template,
    ONE_WIRE, ZERO_WIRE,
};
use crate::bigint::{
    decimal_to_bytes_le, gfref_to_bits, lemma_gen_s_digits, lemma_gen_x_digits, lemma_one_digits,
};
use crate::curve_spec::{
    generator_val, identity_val, point_add_mixed_val, point_add_val, point_equals_val, point_frob_val,
    xsk233_decode_val, PointValue,
};
use crate::gf_ckt::{
    emit_gf_add, emit_gf_and_bit, emit_gf_decode, emit_gf_halftrace, emit_gf_inv, emit_gf_is_zero, emit_gf_square,
    emit_gf_trace, gf_in, gf_val, inv_gates, Gf, GF_LEN,
};
use crate::gf_laws::lemma_mixed_add_is_add;
use crate::gf_mul_ckt::{emit_gf_mul, MUL_COST, MUL_GATES};
use crate::gf_spec::{gf_one_val, gf_zero_val};

verus! {

/// A point of xsk233 in extended projective coordinates, as wire labels.
#[derive(Debug, Clone, Copy, PartialEq, Eq)]
pub struct CurvePoint {
    pub x: Gf,
    pub s: Gf,
    pub z: Gf,
    pub t: Gf,
}

/// Size of a compressed curve point: 30 bytes.
pub const COMPRESSED_POINT_LEN: usize = 30;

/// A compressed curve point as wire labels: 30 bytes of 8 bit wires each,
/// least significant byte and bit first.
pub type CompressedCurvePoint = [[usize; 8]; COMPRESSED_POINT_LEN];

/// A compressed curve point as 30 bytes.
pub type CompressedCurvePointRef = [u8; COMPRESSED_POINT_LEN];

/// Wires that the equality test may add.
pub const POINT_EQUALS_COST: usize = 437_000;

/// Wires that a point addition may add.
pub const POINT_ADD_COST: usize = 1_530_000;

/// Wires that a mixed point addition may add.
pub const POINT_ADD_MIXED_COST: usize = 1_311_000;

/// Wires that the Frobenius map may add.
pub const POINT_FROB_COST: usize = 1_860;

/// Wires that decoding a compressed point may add.
pub const XSK233_DECODE_COST: usize = 52_500_000;

/// Gates that the equality test emits.
pub const POINT_EQUALS_GATES: usize = 218_551;

/// Gates that a point addition emits: 7 multiplications, 5 additions, 2 squarings.
pub const POINT_ADD_GATES: usize = 765_387;

/// Gates that a mixed point addition emits: 6 multiplications, 5 additions,
/// 2 squarings.
pub const POINT_ADD_MIXED_GATES: usize = 656_345;

/// Gates that the Frobenius map emits: 4 squarings.
pub const POINT_FROB_GATES: usize = 1_856;

/// Gates that decoding a compressed point emits besides its inversion.
pub const XSK233_DECODE_GATES: usize = 1_084_862;

/// The point carried by `p` under the assignment `w`.
pub open spec fn point_val(w: Seq<bool>, p: CurvePoint) -> PointValue {
    PointValue { x: gf_val(w, p.x), s: gf_val(w, p.s), z: gf_val(w, p.z), t: gf_val(w, p.t) }
}

/// Every wire of `p` is allocated in `b`.
pub open spec fn point_in<T: CircuitTrait>(b: T, p: CurvePoint) -> bool {
    gf_in(b, p.x) && gf_in(b, p.s) && gf_in(b, p.z) && gf_in(b, p.t)
}

/// The 240 bits carried by a compressed point under the assignment `w`:
/// bit `8i + j` is bit `j` of byte `i`.
pub open spec fn compressed_val(w: Seq<bool>, src: CompressedCurvePoint) -> Seq<bool> {
    Seq::new(240, |k: int| w[src[k / 8][k % 8] as int])
}

/// Every wire of `src` is allocated in `b`.
pub open spec fn compressed_in<T: CircuitTrait>(b: T, src: CompressedCurvePoint) -> bool {
    forall|i: int, j: int| 0 <= i < 30 && 0 <= j < 8 ==> #[trigger] src[i][j] < b.wire_count()
}

/// Every coefficient `i` of `g` is the constant wire of `b` for the bit `v[i]`.
pub open spec fn const_labels<T: CircuitTrait>(b: T, g: Gf, v: Seq<bool>) -> bool {
    forall|i: int|
        0 <= i < 233 ==> #[trigger] g[i] == (if v[i] {
            b.const_one()
        } else {
            b.const_zero()
        })
}

/// Wire labels of the field element zero.
pub fn gf_zero<T: CircuitTrait>(b: &mut T) -> (r: Gf)
    ensures
        grows(*old(b), *final(b), 0),
        appends(*old(b), *final(b), 0),
        gf_in(*final(b), r),
        const_labels(*final(b), r, gf_zero_val()),
        forall|w: Seq<bool>| #[trigger] final(b).sat(w) ==> gf_val(w, r) == gf_zero_val(),
{
    let z = b.zero();
    let r: Gf = [z; GF_LEN];
    proof {
        assert forall|w: Seq<bool>| #[trigger] b.sat(w) implies gf_val(w, r) == gf_zero_val() by {
            assert(gf_val(w, r) =~= gf_zero_val());
        }
    }
    r
}

/// Wire labels of the field element one.
pub fn gf_one<T: CircuitTrait>(b: &mut T) -> (r: Gf)
    ensures
        grows(*old(b), *final(b), 0),
        appends(*old(b), *final(b), 0),
        gf_in(*final(b), r),
        const_labels(*final(b), r, gf_one_val()),
        forall|w: Seq<bool>| #[trigger] final(b).sat(w) ==> gf_val(w, r) == gf_one_val(),
{
    let z = b.zero();
    let ghost mid = *b;
    let o = b.one();
    let mut zs: Gf = [z; GF_LEN];
    zs[0] = o;  // lsb at 0 bit
    proof {
        assert forall|w: Seq<bool>| #[trigger] b.sat(w) implies gf_val(w, zs) == gf_one_val() by {
            assert(mid.sat(w));
            assert(gf_val(w, zs) =~= gf_one_val());
        }
    }
    zs
}


/// Coefficient `j` of the elements carried by `a` and `b` differs under `w`.
pub open spec fn differs_at(w: Seq<bool>, a: Gf, b: Gf, j: int) -> bool {
    w[a[j] as int] != w[b[j] as int]
}

/// Equality of curve points: emits a wire that is `true` exactly when
/// S1·T2 = S2·T1.
pub fn emit_point_equals<T: CircuitTrait>(bld: &mut T, p1: &CurvePoint, p2: &CurvePoint) -> (r: usize)
    requires
        point_in(*old(bld), *p1),
        point_in(*old(bld), *p2),
        room(*old(bld), POINT_EQUALS_COST as nat),
    ensures
        grows(*old(bld), *final(bld), POINT_EQUALS_COST as nat),
        appends(*old(bld), *final(bld), POINT_EQUALS_GATES as nat),
        r < final(bld).wire_count(),
        forall|w: Seq<bool>| #[trigger]
            final(bld).sat(w) ==> w[r as int] == point_equals_val(point_val(w, *p1), point_val(w, *p2)),
{
    // tmp1 = S₁·T₂
    let tmp1: Gf = emit_gf_mul(bld, &p1.s, &p2.t);
    let ghost b1 = *bld;
    // tmp2 = S₂·T₁
    let tmp2: Gf = emit_gf_mul(bld, &p2.s, &p1.t);
    let ghost b2 = *bld;
    let mut or_res = bld.zero();
    let mut i: usize = 0;
    while i < GF_LEN
        invariant
            i <= GF_LEN,
            room(*old(bld), POINT_EQUALS_COST as nat),
            grows(*old(bld), b2, (2 * MUL_COST) as nat),
            appends(*old(bld), b2, (2 * MUL_GATES) as nat),
            grows(b2, *bld, (1 + 2 * i) as nat),
            appends(b2, *bld, (2 * i) as nat),
            gf_in(b2, tmp1),
            gf_in(b2, tmp2),
            or_res < bld.wire_count(),
            forall|w: Seq<bool>| #[trigger]
                bld.sat(w) ==> (w[or_res as int] <==> exists|j: int|
                    0 <= j < i && #[trigger] differs_at(w, tmp1, tmp2, j)),
        decreases GF_LEN - i,
    {
        let ghost prev = *bld;
        let a_xor_b = bld.xor_wire(tmp1[i], tmp2[i]);
        let ghost mid = *bld;
        or_res = bld.or_wire(a_xor_b, or_res);
        proof {
            assert forall|w: Seq<bool>| #[trigger] bld.sat(w) implies (w[or_res as int] <==> exists|j: int|
                0 <= j < i + 1 && #[trigger] differs_at(w, tmp1, tmp2, j)) by {
                assert(mid.sat(w));
                assert(prev.sat(w));
                if differs_at(w, tmp1, tmp2, i as int) {
                    assert(0 <= i < i + 1 && differs_at(w, tmp1, tmp2, i as int));
                }
            }
        }
        i = i + 1;
    }
    let ghost b3 = *bld;
    let one = bld.one();
    let ghost b4 = *bld;
    let r = bld.xor_wire(or_res, one);
    proof {
        assert forall|w: Seq<bool>| #[trigger] bld.sat(w) implies w[r as int] == point_equals_val(
            point_val(w, *p1),
            point_val(w, *p2),
        ) by {
            assert(b4.sat(w));
            assert(b3.sat(w));
            assert(b2.sat(w));
            assert(b1.sat(w));
            let v1 = gf_val(w, tmp1);
            let v2 = gf_val(w, tmp2);
            if exists|j: int| 0 <= j < 233 && #[trigger] differs_at(w, tmp1, tmp2, j) {
                let j = choose|j: int| 0 <= j < 233 && #[trigger] differs_at(w, tmp1, tmp2, j);
                assert(v1[j] != v2[j]);
            } else {
                assert forall|j: int| 0 <= j < 233 implies v1[j] == v2[j] by {
                    assert(!differs_at(w, tmp1, tmp2, j));
                }
                assert(v1 =~= v2);
            }
        }
    }
    r
}

impl CurvePoint {
    /// Returns the identity element (point at infinity) of the curve.
    pub fn identity<T: CircuitTrait>(bld: &mut T) -> (r: Self)
        ensures
            grows(*old(bld), *final(bld), 0),
            appends(*old(bld), *final(bld), 0),
            point_in(*final(bld), r),
            const_labels(*final(bld), r.x, gf_zero_val()),
            const_labels(*final(bld), r.s, gf_one_val()),
            const_labels(*final(bld), r.z, gf_one_val()),
            const_labels(*final(bld), r.t, gf_zero_val()),
            forall|w: Seq<bool>| #[trigger] final(bld).sat(w) ==> point_val(w, r) == identity_val(),
    {
        let x = gf_zero(bld);
        let ghost b1 = *bld;
        let s = gf_one(bld);  // Or Y=1
        let ghost b2 = *bld;
        let z = gf_one(bld);
        let ghost b3 = *bld;
        let t = gf_zero(bld);  // Often X*Z = 0 for identity
        proof {
            assert forall|w: Seq<bool>| #[trigger] bld.sat(w) implies point_val(
                w,
                CurvePoint { x, s, z, t },
            ) == identity_val() by {
                assert(b3.sat(w));
                assert(b2.sat(w));
                assert(b1.sat(w));
            }
        }
        CurvePoint { x, s, z, t }
    }
}

/// Add points in curve
pub fn emit_point_add<T: CircuitTrait>(bld: &mut T, p1: &CurvePoint, p2: &CurvePoint) -> (r: CurvePoint)
    requires
        point_in(*old(bld), *p1),
        point_in(*old(bld), *p2),
        room(*old(bld), POINT_ADD_COST as nat),
    ensures
        grows(*old(bld), *final(bld), POINT_ADD_COST as nat),
        appends(*old(bld), *final(bld), POINT_ADD_GATES as nat),
        point_in(*final(bld), r),
        forall|w: Seq<bool>| #[trigger]
            final(bld).sat(w) ==> point_val(w, r) == point_add_val(point_val(w, *p1), point_val(w, *p2)),
{
    /*
     * x1x2 <- X1*X2
     * s1s2 <- S1*S2
     * z1z2 <- Z1*Z2
     * d <- (S1 + T1)*(S2 + T2)
     * f <- x1x2^2
     * g <- z1z2^2
     * X3 <- d + s1s2
     * S3 <- sqrt(b)*(g*s1s2 + f*d) note: sqrt(b) = 1 for xsk233
     * Z3 <- sqrt(b)*(f + g)
     * T3 <- X3*Z3
     */
    // Step 1: Calculate products
    let x1x2 = emit_gf_mul(bld, &p1.x, &p2.x);
    let ghost b1 = *bld;
    let s1s2 = emit_gf_mul(bld, &p1.s, &p2.s);
    let ghost b2 = *bld;
    let z1z2 = emit_gf_mul(bld, &p1.z, &p2.z);
    let ghost b3 = *bld;

    // Step 2: Calculate d = (S1 + T1)*(S2 + T2)
    let tmp1 = emit_gf_add(bld, &p1.s, &p1.t);
    let ghost b4 = *bld;
    let tmp2 = emit_gf_add(bld, &p2.s, &p2.t);
    let ghost b5 = *bld;
    let d = emit_gf_mul(bld, &tmp1, &tmp2);
    let ghost b6 = *bld;

    // Step 3: Calculate squares
    let f = emit_gf_square(bld, &x1x2);
    let ghost b7 = *bld;
    let g = emit_gf_square(bld, &z1z2);
    let ghost b8 = *bld;

    // Step 4: Calculate output coordinates
    let p3_x = emit_gf_add(bld, &d, &s1s2);
    let ghost b9 = *bld;

    let tmp1 = emit_gf_mul(bld, &s1s2, &g);
    let ghost b10 = *bld;
    let tmp2 = emit_gf_mul(bld, &d, &f);
    let ghost b11 = *bld;
    let p3_s = emit_gf_add(bld, &tmp1, &tmp2);
    let ghost b12 = *bld;

    let p3_z = emit_gf_add(bld, &f, &g);
    let ghost b13 = *bld;
    let p3_t = emit_gf_mul(bld, &p3_x, &p3_z);

    let r = CurvePoint { x: p3_x, s: p3_s, z: p3_z, t: p3_t };
    proof {
        assert forall|w: Seq<bool>| #[trigger] bld.sat(w) implies point_val(w, r) == point_add_val(
            point_val(w, *p1),
            point_val(w, *p2),
        ) by {
            assert(b13.sat(w));
            assert(b12.sat(w));
            assert(b11.sat(w));
            assert(b10.sat(w));
            assert(b9.sat(w));
            assert(b8.sat(w));
            assert(b7.sat(w));
            assert(b6.sat(w));
            assert(b5.sat(w));
            assert(b4.sat(w));
            assert(b3.sat(w));
            assert(b2.sat(w));
            assert(b1.sat(w));
        }
    }
    r
}


/// Add points when the second operand is in affine form (Z = 1).
///
/// This variant avoids computing products with the affine Z coordinate and
/// reuses the fact that `T₂ = X₂` to shave one field multiplication compared to
/// the fully projective formula.
pub fn emit_point_add_mixed<T: CircuitTrait>(bld: &mut T, p1: &CurvePoint, p2: &CurvePoint) -> (r: CurvePoint)
    requires
        point_in(*old(bld), *p1),
        point_in(*old(bld), *p2),
        room(*old(bld), POINT_ADD_MIXED_COST as nat),
    ensures
        grows(*old(bld), *final(bld), POINT_ADD_MIXED_COST as nat),
        appends(*old(bld), *final(bld), POINT_ADD_MIXED_GATES as nat),
        point_in(*final(bld), r),
        forall|w: Seq<bool>| #[trigger]
            final(bld).sat(w) ==> point_val(w, r) == point_add_mixed_val(
                point_val(w, *p1),
                point_val(w, *p2),
            ),
        forall|w: Seq<bool>| #[trigger]
            final(bld).sat(w) && gf_val(w, p2.z) == gf_one_val() ==> point_val(w, r)
                == point_add_val(point_val(w, *p1), point_val(w, *p2)),
{
    // Step 1: Calculate products that remain non-trivial in the mixed setting
    let x1x2 = emit_gf_mul(bld, &p1.x, &p2.x);
    let ghost b1 = *bld;
    let s1s2 = emit_gf_mul(bld, &p1.s, &p2.s);
    let ghost b2 = *bld;

    // Step 2: Calculate d = (S1 + T1)*(S2 + T2)
    let tmp1 = emit_gf_add(bld, &p1.s, &p1.t);
    let ghost b3 = *bld;
    let tmp2 = emit_gf_add(bld, &p2.s, &p2.t);
    let ghost b4 = *bld;
    let d = emit_gf_mul(bld, &tmp1, &tmp2);
    let ghost b5 = *bld;

    // Step 3: Calculate squares
    let f = emit_gf_square(bld, &x1x2);
    let ghost b6 = *bld;
    let g = emit_gf_square(bld, &p1.z);
    let ghost b7 = *bld;

    // Step 4: Calculate output coordinates
    let p3_x = emit_gf_add(bld, &d, &s1s2);
    let ghost b8 = *bld;

    let tmp1 = emit_gf_mul(bld, &s1s2, &g);
    let ghost b9 = *bld;
    let tmp2 = emit_gf_mul(bld, &d, &f);
    let ghost b10 = *bld;
    let p3_s = emit_gf_add(bld, &tmp1, &tmp2);
    let ghost b11 = *bld;

    let p3_z = emit_gf_add(bld, &f, &g);
    let ghost b12 = *bld;
    let p3_t = emit_gf_mul(bld, &p3_x, &p3_z);

    let r = CurvePoint { x: p3_x, s: p3_s, z: p3_z, t: p3_t };
    proof {
        assert forall|w: Seq<bool>| #[trigger] bld.sat(w) implies point_val(w, r)
            == point_add_mixed_val(point_val(w, *p1), point_val(w, *p2)) by {
            assert(b12.sat(w));
            assert(b11.sat(w));
            assert(b10.sat(w));
            assert(b9.sat(w));
            assert(b8.sat(w));
            assert(b7.sat(w));
            assert(b6.sat(w));
            assert(b5.sat(w));
            assert(b4.sat(w));
            assert(b3.sat(w));
            assert(b2.sat(w));
            assert(b1.sat(w));
        }
        assert forall|w: Seq<bool>| #[trigger]
            bld.sat(w) && gf_val(w, p2.z) == gf_one_val() implies point_val(w, r) == point_add_val(
            point_val(w, *p1),
            point_val(w, *p2),
        ) by {
            lemma_mixed_add_is_add(point_val(w, *p1), point_val(w, *p2));
        }
    }
    r
}

/// Apply the Frobenius endomorphism on a point (i.e. square all coordinates).
///
/// Squares all coordinates of a xsk233 curve point.
pub fn emit_point_frob<T: CircuitTrait>(bld: &mut T, p1: &CurvePoint) -> (r: CurvePoint)
    requires
        point_in(*old(bld), *p1),
        room(*old(bld), POINT_FROB_COST as nat),
    ensures
        grows(*old(bld), *final(bld), POINT_FROB_COST as nat),
        appends(*old(bld), *final(bld), POINT_FROB_GATES as nat),
        point_in(*final(bld), r),
        forall|w: Seq<bool>| #[trigger]
            final(bld).sat(w) ==> point_val(w, r) == point_frob_val(point_val(w, *p1)),
{
    // Square all coordinates
    let p3_x = emit_gf_square(bld, &p1.x);
    let ghost b1 = *bld;
    let p3_z = emit_gf_square(bld, &p1.z);
    let ghost b2 = *bld;
    let p3_s = emit_gf_square(bld, &p1.s);
    let ghost b3 = *bld;
    let p3_t = emit_gf_square(bld, &p1.t);
    let r = CurvePoint { x: p3_x, s: p3_s, z: p3_z, t: p3_t };
    proof {
        assert forall|w: Seq<bool>| #[trigger] bld.sat(w) implies point_val(w, r) == point_frob_val(
            point_val(w, *p1),
        ) by {
            assert(b3.sat(w));
            assert(b2.sat(w));
            assert(b1.sat(w));
        }
    }
    r
}

/// Decodes a compressed curve point if valid.
///
/// Emits (decoded CurvePoint, validity_bit) where validity_bit is 0 if the input was invalid.
#[verifier::rlimit(50)]
pub fn emit_xsk233_decode<T: CircuitTrait>(bld: &mut T, src: &CompressedCurvePoint) -> (r: (
    CurvePoint,
    usize,
))
    requires
        compressed_in(*old(bld), *src),
        room(*old(bld), XSK233_DECODE_COST as nat),
    ensures
        grows(*old(bld), *final(bld), XSK233_DECODE_COST as nat),
        appends(*old(bld), *final(bld), (XSK233_DECODE_GATES + inv_gates()) as nat),
        point_in(*final(bld), r.0),
        r.0.t == r.0.x,
        const_labels(*final(bld), r.0.z, gf_one_val()),
        r.1 < final(bld).wire_count(),
        forall|w: Seq<bool>| #[trigger]
            final(bld).sat(w) ==> (point_val(w, r.0), w[r.1 as int]) == xsk233_decode_val(
                compressed_val(w, *src),
            ),
{
    let (w, ve) = emit_gf_decode(bld, src);
    let ghost b1 = *bld;
    let wz = emit_gf_is_zero(bld, w);  //wz = w == 0
    let ghost b2 = *bld;

    let d = emit_gf_square(bld, &w);  // d = w^2 + w
    let ghost b3 = *bld;
    let d = emit_gf_add(bld, &d, &w);
    let ghost b4 = *bld;
    let d_is_zero = emit_gf_is_zero(bld, d);
    let ghost b5 = *bld;
    let one = bld.one();
    let ghost b6 = *bld;
    let rp = bld.xor_wire(d_is_zero, one);  //rp= d != 0
    let ghost b7 = *bld;

    let e = emit_gf_square(bld, &d);  //e=d^-2
    let ghost b8 = *bld;
    let e = emit_gf_inv(bld, e);
    let ghost b9 = *bld;
    let etr = emit_gf_trace(bld, &e);  // etr = Tr(e)
    let ghost b10 = *bld;
    let rp_tr = bld.xor_wire(etr, one);
    let ghost b11 = *bld;
    let rp = bld.and_wire(rp, rp_tr);
    let ghost b12 = *bld;

    let f = emit_gf_halftrace(bld, &e);
    let ghost b13 = *bld;

    let x = emit_gf_mul(bld, &d, &f);
    let ghost b14 = *bld;
    let xtr = emit_gf_trace(bld, &x);
    let ghost b15 = *bld;
    let rp_tr = bld.xor_wire(xtr, one);
    let ghost b16 = *bld;
    let rp = bld.and_wire(rp, rp_tr);
    let ghost b17 = *bld;

    let g = emit_gf_halftrace(bld, &x);
    let ghost b18 = *bld;

    let g = emit_gf_add(bld, &g, &w);
    let ghost b19 = *bld;
    let g = emit_gf_mul(bld, &g, &x);
    let ghost b20 = *bld;
    let g_tr = emit_gf_trace(bld, &g);
    let ghost b21 = *bld;
    let masked_d = emit_gf_and_bit(bld, &d, g_tr);
    let ghost b22 = *bld;
    let x = emit_gf_add(bld, &x, &masked_d);
    let ghost b23 = *bld;

    let s = emit_gf_square(bld, &w);
    let ghost b24 = *bld;
    let s = emit_gf_mul(bld, &s, &x);
    let ghost b25 = *bld;

    // condset
    let rp_or_wz = bld.or_wire(rp, wz);
    let ghost b26 = *bld;
    let success = bld.and_wire(ve, rp_or_wz);
    let ghost b27 = *bld;

    // w = 0 encodes the neutral element (0 : 1 : 1 : 0): clear X and S, set S to one
    let ghost old_x = x;
    let ghost old_s = s;
    let nwz = bld.xor_wire(wz, one);
    let ghost b28 = *bld;
    let x = emit_gf_and_bit(bld, &x, nwz);
    let ghost b29 = *bld;
    let mut s = emit_gf_and_bit(bld, &s, nwz);
    let ghost b30 = *bld;
    let ghost s_masked = s;
    let s0 = bld.or_wire(s[0], wz);
    s[0] = s0;
    let ghost b31 = *bld;

    let z = gf_one(bld);
    let r = (CurvePoint { x, s, z, t: x }, success);
    proof {
        assert forall|wv: Seq<bool>| #[trigger] bld.sat(wv) implies (point_val(wv, r.0), wv[r.1 as int])
            == xsk233_decode_val(compressed_val(wv, *src)) by {
            assert(b31.sat(wv));
            assert(b30.sat(wv));
            assert(b29.sat(wv));
            assert(b28.sat(wv));
            assert(b27.sat(wv));
            assert(b26.sat(wv));
            assert(b25.sat(wv));
            assert(b24.sat(wv));
            assert(b23.sat(wv));
            assert(b22.sat(wv));
            assert(b21.sat(wv));
            assert(b20.sat(wv));
            assert(b19.sat(wv));
            assert(b18.sat(wv));
            assert(b17.sat(wv));
            assert(b16.sat(wv));
            assert(b15.sat(wv));
            assert(b14.sat(wv));
            assert(b13.sat(wv));
            assert(b12.sat(wv));
            assert(b11.sat(wv));
            assert(b10.sat(wv));
            assert(b9.sat(wv));
            assert(b8.sat(wv));
            assert(b7.sat(wv));
            assert(b6.sat(wv));
            assert(b5.sat(wv));
            assert(b4.sat(wv));
            assert(b3.sat(wv));
            assert(b2.sat(wv));
            assert(b1.sat(wv));
            let wzv = wv[wz as int];
            let xm = gf_val(wv, x);
            let sv = gf_val(wv, s);
            let s1 = gf_val(wv, s_masked);
            assert(sv =~= s1.update(0, s1[0] || wzv));
            if wzv {
                assert(xm =~= gf_zero_val());
                assert(sv =~= gf_one_val());
            } else {
                assert(xm =~= gf_val(wv, old_x));
                assert(sv =~= gf_val(wv, old_s));
            }
        }
    }
    r
}


/// Wire labels of the constant field element whose coefficients are `bits`.
fn bits_to_wires<T: CircuitTrait>(bld: &mut T, bits: &[bool; 233]) -> (r: Gf)
    ensures
        grows(*old(bld), *final(bld), 0),
        appends(*old(bld), *final(bld), 0),
        gf_in(*final(bld), r),
        const_labels(*final(bld), r, bits@),
        forall|w: Seq<bool>| #[trigger] final(bld).sat(w) ==> gf_val(w, r) == bits@,
{
    let mut r: Gf = [0usize; GF_LEN];
    let mut i: usize = 0;
    while i < GF_LEN
        invariant
            i <= GF_LEN,
            grows(*old(bld), *bld, 0),
            appends(*old(bld), *bld, 0),
            forall|j: int| 0 <= j < i ==> #[trigger] r[j] < bld.wire_count(),
            forall|j: int|
                0 <= j < i ==> #[trigger] r[j] == (if bits[j] {
                    bld.const_one()
                } else {
                    bld.const_zero()
                }),
            forall|w: Seq<bool>| #[trigger]
                bld.sat(w) ==> forall|j: int| 0 <= j < i ==> w[#[trigger] r[j] as int] == bits[j],
        decreases GF_LEN - i,
    {
        let x = if bits[i] {
            bld.one()
        } else {
            bld.zero()
        };
        r[i] = x;
        i = i + 1;
    }
    proof {
        assert forall|w: Seq<bool>| #[trigger] bld.sat(w) implies gf_val(w, r) == bits@ by {
            assert(gf_val(w, r) =~= bits@);
        }
    }
    r
}

impl CurvePoint {
    /// The generator of xsk233 (the coordinates used by the xs233 library).
    pub fn generator<T: CircuitTrait>(bld: &mut T) -> (r: Self)
        ensures
            grows(*old(bld), *final(bld), 0),
            appends(*old(bld), *final(bld), 0),
            point_in(*final(bld), r),
            const_labels(*final(bld), r.x, generator_val().x),
            const_labels(*final(bld), r.s, generator_val().s),
            const_labels(*final(bld), r.z, generator_val().z),
            const_labels(*final(bld), r.t, generator_val().t),
            forall|w: Seq<bool>| #[trigger] final(bld).sat(w) ==> point_val(w, r) == generator_val(),
    {
        proof {
            lemma_gen_x_digits();
            lemma_gen_s_digits();
            lemma_one_digits();
        }
        let x = decimal_to_bytes_le(
            "13283792768796718556929275469989697816663440403339868882741001477299174",
        ).unwrap();
        let s = decimal_to_bytes_le(
            "6416386389908495168242210184454780244589215014363767030073322872085145",
        ).unwrap();
        let z = decimal_to_bytes_le("1").unwrap();
        let t = decimal_to_bytes_le(
            "13283792768796718556929275469989697816663440403339868882741001477299174",
        ).unwrap();

        let x = gfref_to_bits(&x);
        let s = gfref_to_bits(&s);
        let z = gfref_to_bits(&z);
        let t = gfref_to_bits(&t);

        let x = bits_to_wires(bld, &x);
        let ghost b1 = *bld;
        let s = bits_to_wires(bld, &s);
        let ghost b2 = *bld;
        let z = bits_to_wires(bld, &z);
        let ghost b3 = *bld;
        let t = bits_to_wires(bld, &t);
        proof {
            assert forall|w: Seq<bool>| #[trigger] bld.sat(w) implies point_val(
                w,
                CurvePoint { x, s, z, t },
            ) == generator_val() by {
                assert(b3.sat(w));
                assert(b2.sat(w));
                assert(b1.sat(w));
            }
        }
        CurvePoint { x, s, z, t }
    }
}


/// The point on the four groups of 233 consecutive wires of `ws` that start at
/// position `932 k` (coordinates X, S, Z, T in that order).
pub open spec fn wires_point(w: Seq<bool>, ws: Seq<usize>, k: int) -> PointValue {
    PointValue {
        x: Seq::new(233, |i: int| w[ws[932 * k + i] as int]),
        s: Seq::new(233, |i: int| w[ws[932 * k + 233 + i] as int]),
        z: Seq::new(233, |i: int| w[ws[932 * k + 466 + i] as int]),
        t: Seq::new(233, |i: int| w[ws[932 * k + 699 + i] as int]),
    }
}

/// Appends the wires of a point, coordinates X, S, Z, T in that order.
fn push_point(v: &mut Vec<usize>, p: &CurvePoint)
    ensures
        final(v)@.len() == old(v)@.len() + 932,
        forall|i: int| 0 <= i < old(v)@.len() ==> final(v)@[i] == old(v)@[i],
        forall|i: int|
            0 <= i < 233 ==> {
                &&& final(v)@[old(v)@.len() + i] == p.x[i]
                &&& final(v)@[old(v)@.len() + 233 + i] == p.s[i]
                &&& final(v)@[old(v)@.len() + 466 + i] == p.z[i]
                &&& final(v)@[old(v)@.len() + 699 + i] == p.t[i]
            },
{
    let ghost n = v@.len();
    let mut c: usize = 0;
    while c < 4
        invariant
            c <= 4,
            n == old(v)@.len(),
            v@.len() == n + 233 * c,
            forall|i: int| 0 <= i < n ==> v@[i] == old(v)@[i],
            forall|i: int| 0 <= i < 233 && 0 < c ==> v@[n + i] == p.x[i],
            forall|i: int| 0 <= i < 233 && 1 < c ==> v@[n + 233 + i] == p.s[i],
            forall|i: int| 0 <= i < 233 && 2 < c ==> v@[n + 466 + i] == p.z[i],
            forall|i: int| 0 <= i < 233 && 3 < c ==> v@[n + 699 + i] == p.t[i],
        decreases 4 - c,
    {
        let g = if c == 0 {
            p.x
        } else if c == 1 {
            p.s
        } else if c == 2 {
            p.z
        } else {
            p.t
        };
        let ghost base = v@.len();
        let mut i: usize = 0;
        while i < GF_LEN
            invariant
                i <= GF_LEN,
                c < 4,
                base == n + 233 * c,
                v@.len() == base + i,
                forall|j: int| 0 <= j < base ==> v@[j] == old(v)@[j] || j >= n,
                forall|j: int| 0 <= j < n ==> v@[j] == old(v)@[j],
                forall|j: int| 0 <= j < 233 && 0 < c ==> v@[n + j] == p.x[j],
                forall|j: int| 0 <= j < 233 && 1 < c ==> v@[n + 233 + j] == p.s[j],
                forall|j: int| 0 <= j < 233 && 2 < c ==> v@[n + 466 + j] == p.z[j],
                forall|j: int| 0 <= j < i ==> v@[base + j] == g[j],
            decreases GF_LEN - i,
        {
            v.push(g[i]);
            i = i + 1;
        }
        c = c + 1;
    }
}

/// Reading a pushed point back from its wire list gives the point.
proof fn lemma_wires_point(w: Seq<bool>, ws: Seq<usize>, k: int, p: CurvePoint)
    requires
        0 <= k,
        ws.len() >= 932 * k + 932,
        forall|i: int|
            0 <= i < 233 ==> {
                &&& ws[932 * k + i] == p.x[i]
                &&& ws[932 * k + 233 + i] == p.s[i]
                &&& ws[932 * k + 466 + i] == p.z[i]
                &&& ws[932 * k + 699 + i] == p.t[i]
            },
    ensures
        wires_point(w, ws, k) == point_val(w, p),
{
    let a = wires_point(w, ws, k);
    let b = point_val(w, p);
    assert(a.x =~= b.x);
    assert(a.s =~= b.s);
    assert(a.z =~= b.z);
    assert(a.t =~= b.t);
}

/// Builds the addition circuit (mixed or projective) on fresh inputs and packages it.
fn emit_point_add_template(mixed: bool) -> (t: Template)
    ensures
        t.input_wires@.len() == 1864,
        forall|i: int| 0 <= i < 1864 ==> t.input_wires@[i] == 2 + i,
        t.output_wires@.len() == 932,
        t.const_wire_zero == ZERO_WIRE,
        t.const_wire_one == ONE_WIRE,
        t.start_wire_idx == 1866,
        t.start_wire_idx <= t.end_wire_idx,
        t.end_wire_idx == t.start_wire_idx + t.gates@.len(),
        gates_wf(t.gates@, t.input_wires@, t.end_wire_idx as nat),
        forall|i: int| 0 <= i < 932 ==> #[trigger] t.output_wires@[i] < t.end_wire_idx,
        t.gates@.len() == if mixed {
            POINT_ADD_MIXED_GATES
        } else {
            POINT_ADD_GATES
        },
        forall|i: int|
            0 <= i < t.gates@.len() ==> t.start_wire_idx <= op_out(#[trigger] t.gates@[i])
                < t.end_wire_idx,
        (t.stats.0 as nat, t.stats.1 as nat, t.stats.2 as nat) == gate_counts(t.gates@),
        forall|w: Seq<bool>|
            #![trigger gates_hold(t.gates@, w)]
            gates_hold(t.gates@, w) && !w[t.const_wire_zero as int] && w[t.const_wire_one as int]
                ==> wires_point(w, t.output_wires@, 0) == (if mixed {
                point_add_mixed_val(wires_point(w, t.input_wires@, 0), wires_point(w, t.input_wires@, 1))
            } else {
                point_add_val(wires_point(w, t.input_wires@, 0), wires_point(w, t.input_wires@, 1))
            }),
{
    let mut bld = CircuitAdapter::default();
    // define const wires
    let const_wire_zero = bld.zero();
    let const_wire_one = bld.one();
    let p1 = CurvePoint { x: bld.fresh(), s: bld.fresh(), z: bld.fresh(), t: bld.fresh() };
    let p2 = CurvePoint { x: bld.fresh(), s: bld.fresh(), z: bld.fresh(), t: bld.fresh() };
    // serialize wire labels in a known order
    // this same order is respected when these specific wire labels are later referenced
    // for evaluation or to generate instance of PointAdd Circuit
    let mut input_wires: Vec<usize> = Vec::new();
    push_point(&mut input_wires, &p1);
    push_point(&mut input_wires, &p2);

    let start_wire_idx = bld.next_wire();
    proof {
        assert forall|i: int| 0 <= i < 233 implies input_wires@[i] == 2 + i by {
            assert(input_wires@[932 * 0 + 0 + (i - 0)] == p1.x[i - 0]);
        }
        assert forall|i: int| 233 <= i < 466 implies input_wires@[i] == 2 + i by {
            assert(input_wires@[932 * 0 + 233 + (i - 233)] == p1.s[i - 233]);
        }
        assert forall|i: int| 466 <= i < 699 implies input_wires@[i] == 2 + i by {
            assert(input_wires@[932 * 0 + 466 + (i - 466)] == p1.z[i - 466]);
        }
        assert forall|i: int| 699 <= i < 932 implies input_wires@[i] == 2 + i by {
            assert(input_wires@[932 * 0 + 699 + (i - 699)] == p1.t[i - 699]);
        }
        assert forall|i: int| 932 <= i < 1165 implies input_wires@[i] == 2 + i by {
            assert(input_wires@[932 * 1 + 0 + (i - 932)] == p2.x[i - 932]);
        }
        assert forall|i: int| 1165 <= i < 1398 implies input_wires@[i] == 2 + i by {
            assert(input_wires@[932 * 1 + 233 + (i - 1165)] == p2.s[i - 1165]);
        }
        assert forall|i: int| 1398 <= i < 1631 implies input_wires@[i] == 2 + i by {
            assert(input_wires@[932 * 1 + 466 + (i - 1398)] == p2.z[i - 1398]);
        }
        assert forall|i: int| 1631 <= i < 1864 implies input_wires@[i] == 2 + i by {
            assert(input_wires@[932 * 1 + 699 + (i - 1631)] == p2.t[i - 1631]);
        }
        assert(forall|i: int| 0 <= i < 1864 ==> input_wires@[i] == 2 + i);
        assert(bld.input_seq() =~= input_wires@);
    }
    let res = if mixed {
        emit_point_add_mixed(&mut bld, &p1, &p2)
    } else {
        emit_point_add(&mut bld, &p1, &p2)
    };
    let end_wire_idx = bld.next_wire();

    let mut output_wires: Vec<usize> = Vec::new();
    push_point(&mut output_wires, &res);

    let ghost last = bld;
    assert(last.input_seq() == input_wires@);
    let gates = bld.into_gates();
    let stats = count_gates(&gates);
    proof {
        assert forall|i: int| 0 <= i < 932 implies #[trigger] output_wires@[i] < end_wire_idx by {
            if i < 233 {
                assert(output_wires@[0 + i] == res.x[i]);
            } else if i < 466 {
                assert(output_wires@[0 + 233 + (i - 233)] == res.s[i - 233]);
            } else if i < 699 {
                assert(output_wires@[0 + 466 + (i - 466)] == res.z[i - 466]);
            } else {
                assert(output_wires@[0 + 699 + (i - 699)] == res.t[i - 699]);
            }
        }
        assert forall|i: int| 0 <= i < gates@.len() implies start_wire_idx <= op_out(
            #[trigger] gates@[i],
        ) < end_wire_idx by {
            let c = op_out(gates@[i]) as int;
            if c < 1866 {
                assert(input_wires@[c - 2] == c);
            }
        }
        assert forall|w: Seq<bool>|
            #![trigger gates_hold(gates@, w)]
            gates_hold(gates@, w) && !w[ZERO_WIRE as int] && w[ONE_WIRE as int]
                implies wires_point(w, output_wires@, 0) == (if mixed {
                point_add_mixed_val(wires_point(w, input_wires@, 0), wires_point(w, input_wires@, 1))
            } else {
                point_add_val(wires_point(w, input_wires@, 0), wires_point(w, input_wires@, 1))
            }) by {
            assert(last.sat(w));
            lemma_wires_point(w, input_wires@, 0, p1);
            lemma_wires_point(w, input_wires@, 1, p2);
            lemma_wires_point(w, output_wires@, 0, res);
        }
    }
    Template {
        input_wires,
        output_wires,
        gates,
        start_wire_idx,
        end_wire_idx,
        const_wire_one,
        const_wire_zero,
        stats,
    }
}


/// Generate Circuit Configuration for Point Addition
pub fn template_emit_point_add() -> (t: Template)
    ensures
        t.input_wires@.len() == 1864,
        forall|i: int| 0 <= i < 1864 ==> t.input_wires@[i] == 2 + i,
        t.output_wires@.len() == 932,
        t.const_wire_zero == ZERO_WIRE,
        t.const_wire_one == ONE_WIRE,
        t.start_wire_idx == 1866,
        t.start_wire_idx <= t.end_wire_idx,
        t.end_wire_idx == t.start_wire_idx + t.gates@.len(),
        gates_wf(t.gates@, t.input_wires@, t.end_wire_idx as nat),
        forall|i: int| 0 <= i < 932 ==> #[trigger] t.output_wires@[i] < t.end_wire_idx,
        t.gates@.len() == POINT_ADD_GATES,
        forall|i: int|
            0 <= i < t.gates@.len() ==> t.start_wire_idx <= op_out(#[trigger] t.gates@[i])
                < t.end_wire_idx,
        (t.stats.0 as nat, t.stats.1 as nat, t.stats.2 as nat) == gate_counts(t.gates@),
        forall|w: Seq<bool>|
            #![trigger gates_hold(t.gates@, w)]
            gates_hold(t.gates@, w) && !w[t.const_wire_zero as int] && w[t.const_wire_one as int]
                ==> wires_point(w, t.output_wires@, 0) == point_add_val(
                wires_point(w, t.input_wires@, 0),
                wires_point(w, t.input_wires@, 1),
            ),
{
    emit_point_add_template(false)
}

/// Generate Circuit Configuration for mixed Point Addition
pub fn template_emit_point_add_mixed() -> (t: Template)
    ensures
        t.input_wires@.len() == 1864,
        forall|i: int| 0 <= i < 1864 ==> t.input_wires@[i] == 2 + i,
        t.output_wires@.len() == 932,
        t.const_wire_zero == ZERO_WIRE,
        t.const_wire_one == ONE_WIRE,
        t.start_wire_idx == 1866,
        t.start_wire_idx <= t.end_wire_idx,
        t.end_wire_idx == t.start_wire_idx + t.gates@.len(),
        gates_wf(t.gates@, t.input_wires@, t.end_wire_idx as nat),
        forall|i: int| 0 <= i < 932 ==> #[trigger] t.output_wires@[i] < t.end_wire_idx,
        t.gates@.len() == POINT_ADD_MIXED_GATES,
        forall|i: int|
            0 <= i < t.gates@.len() ==> t.start_wire_idx <= op_out(#[trigger] t.gates@[i])
                < t.end_wire_idx,
        (t.stats.0 as nat, t.stats.1 as nat, t.stats.2 as nat) == gate_counts(t.gates@),
        forall|w: Seq<bool>|
            #![trigger gates_hold(t.gates@, w)]
            gates_hold(t.gates@, w) && !w[t.const_wire_zero as int] && w[t.const_wire_one as int]
                ==> wires_point(w, t.output_wires@, 0) == point_add_mixed_val(
                wires_point(w, t.input_wires@, 0),
                wires_point(w, t.input_wires@, 1),
            ),
{
    emit_point_add_template(true)
}


/// Law: mixed addition saves exactly one field multiplication's gates over
/// the projective addition (see the numbers of gates their contracts state).
pub proof fn lemma_mixed_add_saves_a_multiplication()
    ensures
        POINT_ADD_MIXED_GATES + MUL_GATES == POINT_ADD_GATES,
        POINT_ADD_MIXED_GATES < POINT_ADD_GATES,
{
}

} // verus!
