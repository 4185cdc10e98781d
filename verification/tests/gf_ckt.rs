use std::str::FromStr;

use garbled_snark_verifier::builder::{CircuitAdapter, CircuitTrait};
use garbled_snark_verifier::gf_ckt::{
    emit_gf_add, emit_gf_halftrace, emit_gf_inv, emit_gf_is_zero, emit_gf_sqn, emit_gf_square,
    emit_gf_trace, Gf,
};
use garbled_snark_verifier::gf_mul_ckt::emit_gf_mul;
use num_bigint::BigUint;

fn big(s: &str) -> BigUint {
    BigUint::from_str(s).unwrap()
}

fn zero() -> BigUint {
    BigUint::from(0u32)
}

fn one() -> BigUint {
    BigUint::from(1u32)
}

fn gf_reduce_ref(mut c: BigUint) -> BigUint {
    let f = (one() << 233u32) ^ (one() << 74u32) ^ one();
    for d in (233..=464u64).rev() {
        if c.bit(d) {
            c ^= f.clone() << (d - 233);
        }
    }
    c
}

fn gf_mul_ref(a: &BigUint, b: &BigUint) -> BigUint {
    let mut r = zero();
    for i in 0..233u64 {
        if a.bit(i) {
            r ^= b.clone() << i;
        }
    }
    gf_reduce_ref(r)
}

fn gf_sqn_ref(a: &BigUint, n: usize) -> BigUint {
    let mut x = a.clone();
    for _ in 0..n {
        x = gf_mul_ref(&x, &x);
    }
    x
}

fn trace_ref(a: &BigUint) -> BigUint {
    let mut acc = zero();
    for i in 0..233 {
        acc ^= gf_sqn_ref(a, i);
    }
    acc
}

fn bits(n: &BigUint) -> Vec<bool> {
    (0..233u64).map(|i| n.bit(i)).collect()
}

fn value(wires: &[bool], g: &Gf) -> BigUint {
    let mut r = zero();
    for (i, w) in g.iter().enumerate() {
        if wires[*w] {
            r |= one() << i;
        }
    }
    r
}

const A: &str = "6723956923875692837569283756928375692837569283756298375692837569283";
const B: &str = "10293847561029384756102938475610293847561029384756102938475610293847";

#[test]
fn test_gf_add_mul_square() {
    let a = big(A);
    let b = big(B);
    let mut bld = CircuitAdapter::default();
    let ca: Gf = bld.fresh();
    let cb: Gf = bld.fresh();
    let sum = emit_gf_add(&mut bld, &ca, &cb);
    let prod = emit_gf_mul(&mut bld, &ca, &cb);
    let sq = emit_gf_square(&mut bld, &ca);
    let sq3 = emit_gf_sqn(&mut bld, &ca, 3);
    let mut witness = bits(&a);
    witness.extend(bits(&b));
    let wires = bld.eval_gates(&witness);
    assert_eq!(value(&wires, &sum), &a ^ &b);
    assert_eq!(value(&wires, &prod), gf_mul_ref(&a, &b));
    assert_eq!(value(&wires, &sq), gf_mul_ref(&a, &a));
    assert_eq!(value(&wires, &sq3), gf_sqn_ref(&a, 3));
}

#[test]
fn test_gf_mul_by_one_and_reduction() {
    // x^232 * x = x^233 = x^74 + 1
    let a = one() << 232u32;
    let b = one() << 1u32;
    let mut bld = CircuitAdapter::default();
    let ca: Gf = bld.fresh();
    let cb: Gf = bld.fresh();
    let c1: Gf = bld.fresh();
    let prod = emit_gf_mul(&mut bld, &ca, &cb);
    let by_one = emit_gf_mul(&mut bld, &ca, &c1);
    let mut witness = bits(&a);
    witness.extend(bits(&b));
    witness.extend(bits(&one()));
    let wires = bld.eval_gates(&witness);
    assert_eq!(value(&wires, &prod), (one() << 74u32) ^ one());
    assert_eq!(value(&wires, &by_one), a);
}

#[test]
fn test_gf_inv() {
    let a = big(A);
    let mut bld = CircuitAdapter::default();
    let ca: Gf = bld.fresh();
    let cz: Gf = bld.fresh();
    let inv = emit_gf_inv(&mut bld, ca);
    let inv0 = emit_gf_inv(&mut bld, cz);
    let mut witness = bits(&a);
    witness.extend(bits(&zero()));
    let wires = bld.eval_gates(&witness);
    let ai = value(&wires, &inv);
    assert_eq!(gf_mul_ref(&a, &ai), one());
    assert_eq!(value(&wires, &inv0), zero());
}

#[test]
fn test_gf_trace_halftrace_is_zero() {
    let a = big(A);
    let b = big(B) ^ one();
    let mut bld = CircuitAdapter::default();
    let ca: Gf = bld.fresh();
    let cb: Gf = bld.fresh();
    let cz: Gf = bld.fresh();
    let tra = emit_gf_trace(&mut bld, &ca);
    let trb = emit_gf_trace(&mut bld, &cb);
    let ha = emit_gf_halftrace(&mut bld, &ca);
    let za = emit_gf_is_zero(&mut bld, ca);
    let zz = emit_gf_is_zero(&mut bld, cz);
    let mut witness = bits(&a);
    witness.extend(bits(&b));
    witness.extend(bits(&zero()));
    let wires = bld.eval_gates(&witness);
    let ta = trace_ref(&a);
    let tb = trace_ref(&b);
    assert_eq!(ta, zero());
    assert_eq!(tb, one());
    assert!(!wires[tra]);
    assert!(wires[trb]);
    // for an element of trace zero the half-trace solves h^2 + h = a
    let h = value(&wires, &ha);
    assert_eq!(gf_mul_ref(&h, &h) ^ h, a);
    assert!(!wires[za]);
    assert!(wires[zz]);
}
