use std::str::FromStr;

use garbled_snark_verifier::builder::{CircuitAdapter, CircuitTrait, Operation};
use garbled_snark_verifier::curve_ckt::{
    emit_point_add, emit_point_add_mixed, emit_point_equals, emit_point_frob, emit_xsk233_decode,
    template_emit_point_add, template_emit_point_add_mixed, CompressedCurvePoint, CurvePoint,
    COMPRESSED_POINT_LEN,
};
use num_bigint::BigUint;

const GEN_X: &str = "13283792768796718556929275469989697816663440403339868882741001477299174";
const GEN_S: &str = "6416386389908495168242210184454780244589215014363767030073322872085145";

/// The encoding of the generator as 30 bytes.
const GEN_ENCODED: [u8; 30] = [
    45, 229, 18, 144, 53, 150, 73, 30, 231, 10, 246, 115, 225, 205, 217, 23, 26, 31, 60, 206, 168,
    35, 67, 178, 107, 37, 110, 251, 255, 1,
];

fn big(s: &str) -> BigUint {
    BigUint::from_str(s).unwrap()
}

fn zero() -> BigUint {
    BigUint::from(0u32)
}

fn one() -> BigUint {
    BigUint::from(1u32)
}

fn gf_reduce_ref(mut c: BigUint) -> BigUint {
    let f = (one() << 233u32) ^ (one() << 74u32) ^ one();
    for d in (233..=464u64).rev() {
        if c.bit(d) {
            c ^= f.clone() << (d - 233);
        }
    }
    c
}

fn gf_mul_ref(a: &BigUint, b: &BigUint) -> BigUint {
    let mut r = zero();
    for i in 0..233u64 {
        if a.bit(i) {
            r ^= b.clone() << i;
        }
    }
    gf_reduce_ref(r)
}

fn gf_square_ref(a: &BigUint) -> BigUint {
    gf_mul_ref(a, a)
}

#[derive(Debug, Clone, PartialEq, Eq)]
struct PointRef {
    x: BigUint,
    s: BigUint,
    z: BigUint,
    t: BigUint,
}

fn generator_ref() -> PointRef {
    PointRef { x: big(GEN_X), s: big(GEN_S), z: one(), t: big(GEN_X) }
}

fn point_add_ref(p1: &PointRef, p2: &PointRef) -> PointRef {
    let x1x2 = gf_mul_ref(&p1.x, &p2.x);
    let s1s2 = gf_mul_ref(&p1.s, &p2.s);
    let z1z2 = gf_mul_ref(&p1.z, &p2.z);
    let d = gf_mul_ref(&(&p1.s ^ &p1.t), &(&p2.s ^ &p2.t));
    let f = gf_square_ref(&x1x2);
    let g = gf_square_ref(&z1z2);
    let x = &d ^ &s1s2;
    let s = gf_mul_ref(&s1s2, &g) ^ gf_mul_ref(&d, &f);
    let z = &f ^ &g;
    let t = gf_mul_ref(&x, &z);
    PointRef { x, s, z, t }
}

fn some_point() -> PointRef {
    let x = big("5724585830235712093848302929384756129384756102938475610293847561029384");
    let s = big("3048576102938475610293847561029384756102938475610293847561020394857612");
    let z = big("1928374655647382910293847566574839201928374656473829101928374657");
    let t = gf_mul_ref(&x, &z);
    PointRef { x, s, z, t }
}

fn some_affine_point() -> PointRef {
    let x = big("9182736450918273645091827364509182736450918273645091827364509182736");
    let s = big("1029384756102938475610293847561029384756102938475610293847561029384");
    PointRef { z: one(), t: x.clone(), x, s }
}

fn gfref_to_bits(n: &BigUint) -> Vec<bool> {
    (0..233u64).map(|i| n.bit(i)).collect()
}

fn bits_to_gfref(bits: &[bool]) -> BigUint {
    let mut r = zero();
    for (i, b) in bits.iter().enumerate() {
        if *b {
            r |= one() << i;
        }
    }
    r
}

fn fresh_point(bld: &mut CircuitAdapter) -> CurvePoint {
    CurvePoint { x: bld.fresh(), s: bld.fresh(), z: bld.fresh(), t: bld.fresh() }
}

fn witness_of(points: &[&PointRef]) -> Vec<bool> {
    let mut witness = Vec::with_capacity(233 * 4 * points.len());
    for p in points {
        witness.extend(gfref_to_bits(&p.x));
        witness.extend(gfref_to_bits(&p.s));
        witness.extend(gfref_to_bits(&p.z));
        witness.extend(gfref_to_bits(&p.t));
    }
    witness
}

fn read_point(wires: &[bool], p: &CurvePoint) -> PointRef {
    PointRef {
        x: bits_to_gfref(&p.x.map(|w_id| wires[w_id])),
        s: bits_to_gfref(&p.s.map(|w_id| wires[w_id])),
        z: bits_to_gfref(&p.z.map(|w_id| wires[w_id])),
        t: bits_to_gfref(&p.t.map(|w_id| wires[w_id])),
    }
}

#[test]
fn test_point_add() {
    let pt = generator_ref();
    let pt2 = some_point();
    let ptadd = point_add_ref(&pt, &pt2);

    let mut bld = CircuitAdapter::default();
    let c_pt = fresh_point(&mut bld);
    let c_pt2 = fresh_point(&mut bld);
    let c_ptadd = emit_point_add(&mut bld, &c_pt, &c_pt2);

    let witness = witness_of(&[&pt, &pt2]);
    let wires = bld.eval_gates(&witness);
    assert_eq!(read_point(&wires, &c_ptadd), ptadd);
}

#[test]
fn test_point_add_mixed() {
    let pt = some_point();
    let pt2 = some_affine_point();
    let ptadd = point_add_ref(&pt, &pt2);

    let mut bld = CircuitAdapter::default();
    let c_pt = fresh_point(&mut bld);
    let c_pt2 = fresh_point(&mut bld);
    let c_ptadd = emit_point_add_mixed(&mut bld, &c_pt, &c_pt2);

    let witness = witness_of(&[&pt, &pt2]);
    let wires = bld.eval_gates(&witness);
    assert_eq!(read_point(&wires, &c_ptadd), ptadd);
}

#[test]
fn test_point_decode_roundtrip() {
    let mut bld = CircuitAdapter::default();
    let src: CompressedCurvePoint = {
        let mut bytes = [[0usize; 8]; COMPRESSED_POINT_LEN];
        for byte in bytes.iter_mut() {
            *byte = bld.fresh();
        }
        bytes
    };
    let (c_pt, out_ok_label) = emit_xsk233_decode(&mut bld, &src);

    let mut witness = Vec::new();
    for d in GEN_ENCODED {
        for i in 0..8 {
            witness.push((d >> i) & 1 != 0);
        }
    }
    let wires = bld.eval_gates(&witness);
    assert_eq!(read_point(&wires, &c_pt), generator_ref());
    let out_label = wires[out_ok_label];
    assert!(out_label, "should be 1 for valid input");
}

fn scale(p: &PointRef, l: &BigUint) -> PointRef {
    let l2 = gf_mul_ref(l, l);
    PointRef {
        x: gf_mul_ref(&p.x, l),
        s: gf_mul_ref(&p.s, &l2),
        z: gf_mul_ref(&p.z, l),
        t: gf_mul_ref(&p.t, &l2),
    }
}

#[test]
fn test_point_equals() {
    let p = some_point();
    let q = some_affine_point();
    let l = big("77777777777777777777777777777777777");
    let p_scaled = scale(&p, &l);
    let mut bld = CircuitAdapter::default();
    let c_p = fresh_point(&mut bld);
    let c_q = fresh_point(&mut bld);
    let c_ps = fresh_point(&mut bld);
    let same = emit_point_equals(&mut bld, &c_p, &c_p);
    let scaled = emit_point_equals(&mut bld, &c_p, &c_ps);
    let differ = emit_point_equals(&mut bld, &c_p, &c_q);
    let wires = bld.eval_gates(&witness_of(&[&p, &q, &p_scaled]));
    assert!(wires[same]);
    assert!(wires[scaled]);
    assert!(!wires[differ]);
}

#[test]
fn test_identity_and_generator() {
    let mut bld = CircuitAdapter::default();
    let id = CurvePoint::identity(&mut bld);
    let g = CurvePoint::generator(&mut bld);
    let wires = bld.eval_gates(&Vec::new());
    assert_eq!(read_point(&wires, &id), PointRef { x: zero(), s: one(), z: one(), t: zero() });
    assert_eq!(read_point(&wires, &g), generator_ref());
}

#[test]
fn test_add_identity_is_same_point() {
    let p = some_point();
    let mut bld = CircuitAdapter::default();
    let c_p = fresh_point(&mut bld);
    let id = CurvePoint::identity(&mut bld);
    let sum = emit_point_add(&mut bld, &c_p, &id);
    let eq = emit_point_equals(&mut bld, &sum, &c_p);
    let wires = bld.eval_gates(&witness_of(&[&p]));
    assert!(wires[eq]);
}

#[test]
fn test_point_add_commutes_and_mixed_agrees() {
    let p = some_point();
    let q = some_affine_point();
    let mut bld = CircuitAdapter::default();
    let c_p = fresh_point(&mut bld);
    let c_q = fresh_point(&mut bld);
    let pq = emit_point_add(&mut bld, &c_p, &c_q);
    let qp = emit_point_add(&mut bld, &c_q, &c_p);
    let pq_mixed = emit_point_add_mixed(&mut bld, &c_p, &c_q);
    let wires = bld.eval_gates(&witness_of(&[&p, &q]));
    assert_eq!(read_point(&wires, &pq), read_point(&wires, &qp));
    assert_eq!(read_point(&wires, &pq), read_point(&wires, &pq_mixed));
}

#[test]
fn test_point_frob() {
    let p = some_point();
    let mut bld = CircuitAdapter::default();
    let c_p = fresh_point(&mut bld);
    let fr = emit_point_frob(&mut bld, &c_p);
    let wires = bld.eval_gates(&witness_of(&[&p]));
    let expected = PointRef {
        x: gf_square_ref(&p.x),
        s: gf_square_ref(&p.s),
        z: gf_square_ref(&p.z),
        t: gf_square_ref(&p.t),
    };
    assert_eq!(read_point(&wires, &fr), expected);
}

#[test]
fn test_point_decode_rejects_high_bits() {
    let mut bld = CircuitAdapter::default();
    let mut src = [[0usize; 8]; COMPRESSED_POINT_LEN];
    for byte in src.iter_mut() {
        *byte = bld.fresh();
    }
    let (_, ok) = emit_xsk233_decode(&mut bld, &src);
    let mut bytes = GEN_ENCODED;
    bytes[29] |= 0x80;
    let mut witness = Vec::new();
    for d in bytes {
        for i in 0..8 {
            witness.push((d >> i) & 1 != 0);
        }
    }
    let wires = bld.eval_gates(&witness);
    assert!(!wires[ok]);
}

fn eval_template(gates: &[Operation], zero_wire: usize, one_wire: usize, inputs: &[usize], witness: &[bool]) -> Vec<bool> {
    let mut n = 2;
    for g in gates {
        let (Operation::Add(_, _, c) | Operation::Mul(_, _, c) | Operation::Or(_, _, c)) = *g;
        n = n.max(c + 1);
    }
    for i in inputs {
        n = n.max(i + 1);
    }
    let mut w = vec![false; n];
    w[zero_wire] = false;
    w[one_wire] = true;
    for (i, b) in inputs.iter().zip(witness) {
        w[*i] = *b;
    }
    for g in gates {
        match *g {
            Operation::Add(a, b, c) => w[c] = w[a] ^ w[b],
            Operation::Mul(a, b, c) => w[c] = w[a] & w[b],
            Operation::Or(a, b, c) => w[c] = w[a] | w[b],
        }
    }
    w
}

fn read_wire_point(w: &[bool], ws: &[usize]) -> PointRef {
    let coord = |k: usize| bits_to_gfref(&ws[233 * k..233 * (k + 1)].iter().map(|i| w[*i]).collect::<Vec<_>>());
    PointRef { x: coord(0), s: coord(1), z: coord(2), t: coord(3) }
}

#[test]
fn test_templates() {
    let p = some_point();
    let q = some_affine_point();
    for t in [template_emit_point_add(), template_emit_point_add_mixed()] {
        assert_eq!(t.input_wires.len(), 1864);
        assert_eq!(t.output_wires.len(), 932);
        assert_eq!(t.stats.0 + t.stats.1 + t.stats.2, t.gates.len());
        assert!(t.start_wire_idx <= t.end_wire_idx);
        assert_eq!(t.start_wire_idx, 2 + 1864);
        assert_eq!(t.end_wire_idx, t.start_wire_idx + t.gates.len());
        for g in &t.gates {
            let (Operation::Add(_, _, c) | Operation::Mul(_, _, c) | Operation::Or(_, _, c)) = *g;
            assert!(t.start_wire_idx <= c && c < t.end_wire_idx);
        }
        let w = eval_template(&t.gates, t.const_wire_zero, t.const_wire_one, &t.input_wires, &witness_of(&[&p, &q]));
        assert_eq!(read_wire_point(&w, &t.output_wires), point_add_ref(&p, &q));
    }
}

#[test]
fn test_frob_of_sum_is_sum_of_frobs() {
    let p = some_point();
    let q = generator_ref();
    let mut bld = CircuitAdapter::default();
    let c_p = fresh_point(&mut bld);
    let c_q = fresh_point(&mut bld);
    let sum = emit_point_add(&mut bld, &c_p, &c_q);
    let frob_sum = emit_point_frob(&mut bld, &sum);
    let fp = emit_point_frob(&mut bld, &c_p);
    let fq = emit_point_frob(&mut bld, &c_q);
    let sum_frob = emit_point_add(&mut bld, &fp, &fq);
    let wires = bld.eval_gates(&witness_of(&[&p, &q]));
    assert_eq!(read_point(&wires, &frob_sum), read_point(&wires, &sum_frob));
}

#[test]
fn test_point_decode_zero_is_neutral() {
    let mut bld = CircuitAdapter::default();
    let mut src = [[0usize; 8]; COMPRESSED_POINT_LEN];
    for byte in src.iter_mut() {
        *byte = bld.fresh();
    }
    let (pt, ok) = emit_xsk233_decode(&mut bld, &src);
    assert_eq!(pt.t, pt.x);
    let wires = bld.eval_gates(&vec![false; 240]);
    assert!(wires[ok]);
    assert_eq!(read_point(&wires, &pt), PointRef { x: zero(), s: one(), z: one(), t: zero() });
}

#[test]
fn test_gate_counts_and_constant_labels() {
    let mut bld = CircuitAdapter::default();
    let c_p = fresh_point(&mut bld);
    let c_q = fresh_point(&mut bld);
    let before = bld.get_gates().len();
    let _ = emit_point_add(&mut bld, &c_p, &c_q);
    let full = bld.get_gates().len() - before;
    let before = bld.get_gates().len();
    let _ = emit_point_add_mixed(&mut bld, &c_p, &c_q);
    let mixed = bld.get_gates().len() - before;
    assert_eq!(full, 765_387);
    assert_eq!(mixed, 656_345);
    assert_eq!(full - mixed, 109_042);

    let before = bld.get_gates().len();
    let id = CurvePoint::identity(&mut bld);
    let g = CurvePoint::generator(&mut bld);
    assert_eq!(bld.get_gates().len(), before);
    let z = bld.zero();
    let o = bld.one();
    assert!(id.x.iter().all(|w| *w == z));
    assert!(id.t.iter().all(|w| *w == z));
    assert_eq!(id.s[0], o);
    assert!(id.s[1..].iter().all(|w| *w == z));
    assert_eq!(id.z[0], o);
    let gx = big(GEN_X);
    for i in 0..233 {
        assert_eq!(g.x[i], if gx.bit(i as u64) { o } else { z });
    }
}
