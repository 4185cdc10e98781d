//! Big decimal constants turned into field elements, with `num_bigint`
//! doing the decimal parsing.

use std::str::FromStr;

use num_bigint::BigUint;
use vstd::arithmetic::div_mod::{
    lemma_div_denominator, lemma_div_of0, lemma_fundamental_div_mod,
    lemma_fundamental_div_mod_converse, lemma_mod_multiples_vanish, lemma_mod_pos_bound,
};
use vstd::arithmetic::power2::{lemma2_to64, lemma_pow2_adds, lemma_pow2_pos, pow2};
use vstd::bits::lemma_u8_shr_is_div;
use vstd::prelude::*;

verus! {

/// The value of the first `n` decimal digits of `s`.
pub open spec fn decimal_prefix(s: Seq<char>, n: nat) -> nat
    decreases n,
{
    if n == 0 {
        0
    } else {
        decimal_prefix(s, (n - 1) as nat) * 10 + ((s[n - 1] as int) - ('0' as int)) as nat
    }
}

/// The number that the decimal digits `s` write.
pub open spec fn decimal_value(s: Seq<char>) -> nat {
    decimal_prefix(s, s.len())
}

/// `s` is a non-empty string of ASCII decimal digits.
pub open spec fn is_decimal(s: Seq<char>) -> bool {
    s.len() > 0 && forall|i: int| 0 <= i < s.len() ==> '0' <= #[trigger] s[i] <= '9'
}

/// The number whose little-endian base-256 digits are `b`.
pub open spec fn le_bytes_value(b: Seq<u8>) -> nat
    decreases b.len(),
{
    if b.len() == 0 {
        0
    } else {
        b[0] as nat + 256 * le_bytes_value(b.drop_first())
    }
}

/// Bit `i` of `n`.
pub open spec fn bit_of(n: nat, i: nat) -> bool {
    (n / pow2(i)) % 2 == 1
}

/// The field element whose coefficients are the low 233 bits of `n`.
pub open spec fn gf_bits(n: nat) -> Seq<bool> {
    Seq::new(233, |i: int| bit_of(n, i as nat))
}

/// Parses `s` as a decimal `BigUint` (`<BigUint as FromStr>::from_str`) and
/// returns its little-endian bytes (`BigUint::to_bytes_le`), or `None` when
/// parsing fails. Claimed: a non-empty string of ASCII digits parses, to the
/// number it writes; the bytes are never empty. Not claimed: which other
/// strings parse (`num_bigint` also takes a leading `+` and inner `_`).
#[verifier::external_body]
pub(crate) fn decimal_to_bytes_le(s: &str) -> (r: Option<Vec<u8>>)
    ensures
        is_decimal(s@) ==> r is Some,
        r matches Some(b) ==> b@.len() >= 1,
        r matches Some(b) ==> (is_decimal(s@) ==> le_bytes_value(b@) == decimal_value(s@)),
{
    match BigUint::from_str(s) {
        Ok(n) => Some(n.to_bytes_le()),
        Err(_) => None,
    }
}

proof fn lemma_byte_bit(x: u8, j: nat)
    requires
        j < 8,
    ensures
        bit_of(x as nat, j) == (((x >> (j as u8)) & 1u8) == 1u8),
{
    lemma_u8_shr_is_div(x, j as u8);
    let y = x >> (j as u8);
    assert((y & 1u8) == y % 2) by (bit_vector);
}

/// Bit `i` of the number with little-endian bytes `b` is bit `i % 8` of byte
/// `i / 8` (zero past the last byte).
proof fn lemma_le_bytes_bit(b: Seq<u8>, i: nat)
    ensures
        bit_of(le_bytes_value(b), i) == (i / 8 < b.len() && (((b[(i / 8) as int] >> ((i % 8) as u8))
            & 1u8) == 1u8)),
    decreases b.len(),
{
    lemma_pow2_pos(i);
    if b.len() == 0 {
        lemma_div_of0(pow2(i) as int);
    } else {
        let r = le_bytes_value(b.drop_first());
        let n = le_bytes_value(b);
        let b0 = b[0];
        lemma2_to64();
        if i < 8 {
            let j = (8 - i) as nat;
            lemma_pow2_adds(i, j);
            lemma_pow2_pos(j);
            let q = b0 as nat / pow2(i);
            lemma_fundamental_div_mod(b0 as int, pow2(i) as int);
            lemma_mod_pos_bound(b0 as int, pow2(i) as int);
            assert(n == (q + pow2(j) * r) * pow2(i) + b0 as nat % pow2(i)) by (nonlinear_arith)
                requires
                    n == b0 + 256 * r,
                    256 == pow2(i) * pow2(j),
                    b0 == pow2(i) * q + b0 as nat % pow2(i),
            ;
            lemma_fundamental_div_mod_converse(
                n as int,
                pow2(i) as int,
                (q + pow2(j) * r) as int,
                (b0 as nat % pow2(i)) as int,
            );
            lemma_pow2_adds(1, (j - 1) as nat);
            assert(pow2(1) == 2);
            assert(q + pow2(j) * r == 2 * (pow2((j - 1) as nat) * r) + q) by (nonlinear_arith)
                requires
                    pow2(j) == 2 * pow2((j - 1) as nat),
            ;
            lemma_mod_multiples_vanish((pow2((j - 1) as nat) * r) as int, q as int, 2);
            lemma_byte_bit(b0, i);
        } else {
            let k = (i - 8) as nat;
            lemma_pow2_adds(8, k);
            lemma_pow2_pos(k);
            lemma_fundamental_div_mod_converse(n as int, 256, r as int, b0 as int);
            lemma_div_denominator(n as int, 256, pow2(k) as int);
            lemma_le_bytes_bit(b.drop_first(), k);
            assert(k / 8 == i / 8 - 1);
            assert(k % 8 == i % 8);
        }
    }
}

/// The low 233 bits of the number with little-endian bytes `bytes`.
pub(crate) fn gfref_to_bits(bytes: &Vec<u8>) -> (bits: [bool; 233])
    ensures
        bits@ == gf_bits(le_bytes_value(bytes@)),
{
    let mut bits = [false; 233];
    let mut i: usize = 0;
    while i < 233
        invariant
            i <= 233,
            forall|j: int| 0 <= j < i ==> bits[j] == bit_of(le_bytes_value(bytes@), j as nat),
        decreases 233 - i,
    {
        let byte = if i / 8 < bytes.len() {
            bytes[i / 8]
        } else {
            0
        };
        let r = (byte >> ((i % 8) as u8)) & 1;
        bits[i] = r != 0;
        proof {
            lemma_le_bytes_bit(bytes@, i as nat);
            if i / 8 >= bytes.len() {
                assert(((0u8 >> ((i % 8) as u8)) & 1u8) == 0u8) by (bit_vector);
            }
            assert((r != 0) == (r == 1u8)) by (bit_vector)
                requires
                    r == ((byte >> ((i % 8) as u8)) & 1u8),
            ;
        }
        i = i + 1;
    }
    assert(bits@ =~= gf_bits(le_bytes_value(bytes@)));
    bits
}


/// The x-coordinate (and T-coordinate) of the xsk233 generator, as a number.
pub open spec fn gen_x() -> nat {
    13283792768796718556929275469989697816663440403339868882741001477299174nat
}

/// The S-coordinate of the xsk233 generator, as a number.
pub open spec fn gen_s() -> nat {
    6416386389908495168242210184454780244589215014363767030073322872085145nat
}

/// The decimal digits of the generator's x-coordinate write `gen_x()`.
pub proof fn lemma_gen_x_digits()
    ensures
        is_decimal("13283792768796718556929275469989697816663440403339868882741001477299174"@),
        decimal_value("13283792768796718556929275469989697816663440403339868882741001477299174"@) == gen_x(),
{
    reveal_strlit("13283792768796718556929275469989697816663440403339868882741001477299174");
    let s = "13283792768796718556929275469989697816663440403339868882741001477299174"@;
    assert(s.len() == 71);
    assert(is_decimal(s));
    assert(decimal_prefix(s, 0) == 0nat);
    assert(decimal_prefix(s, 1) == 1nat);
    assert(decimal_prefix(s, 2) == 13nat);
    assert(decimal_prefix(s, 3) == 132nat);
    assert(decimal_prefix(s, 4) == 1328nat);
    assert(decimal_prefix(s, 5) == 13283nat);
    assert(decimal_prefix(s, 6) == 132837nat);
    assert(decimal_prefix(s, 7) == 1328379nat);
    assert(decimal_prefix(s, 8) == 13283792nat);
    assert(decimal_prefix(s, 9) == 132837927nat);
    assert(decimal_prefix(s, 10) == 1328379276nat);
    assert(decimal_prefix(s, 11) == 13283792768nat);
    assert(decimal_prefix(s, 12) == 132837927687nat);
    assert(decimal_prefix(s, 13) == 1328379276879nat);
    assert(decimal_prefix(s, 14) == 13283792768796nat);
    assert(decimal_prefix(s, 15) == 132837927687967nat);
    assert(decimal_prefix(s, 16) == 1328379276879671nat);
    assert(decimal_prefix(s, 17) == 13283792768796718nat);
    assert(decimal_prefix(s, 18) == 132837927687967185nat);
    assert(decimal_prefix(s, 19) == 1328379276879671855nat);
    assert(decimal_prefix(s, 20) == 13283792768796718556nat);
    assert(decimal_prefix(s, 21) == 132837927687967185569nat);
    assert(decimal_prefix(s, 22) == 1328379276879671855692nat);
    assert(decimal_prefix(s, 23) == 13283792768796718556929nat);
    assert(decimal_prefix(s, 24) == 132837927687967185569292nat);
    assert(decimal_prefix(s, 25) == 1328379276879671855692927nat);
    assert(decimal_prefix(s, 26) == 13283792768796718556929275nat);
    assert(decimal_prefix(s, 27) == 132837927687967185569292754nat);
    assert(decimal_prefix(s, 28) == 1328379276879671855692927546nat);
    assert(decimal_prefix(s, 29) == 13283792768796718556929275469nat);
    assert(decimal_prefix(s, 30) == 132837927687967185569292754699nat);
    assert(decimal_prefix(s, 31) == 1328379276879671855692927546998nat);
    assert(decimal_prefix(s, 32) == 13283792768796718556929275469989nat);
    assert(decimal_prefix(s, 33) == 132837927687967185569292754699896nat);
    assert(decimal_prefix(s, 34) == 1328379276879671855692927546998969nat);
    assert(decimal_prefix(s, 35) == 13283792768796718556929275469989697nat);
    assert(decimal_prefix(s, 36) == 132837927687967185569292754699896978nat);
    assert(decimal_prefix(s, 37) == 1328379276879671855692927546998969781nat);
    assert(decimal_prefix(s, 38) == 13283792768796718556929275469989697816nat);
    assert(decimal_prefix(s, 39) == 132837927687967185569292754699896978166nat);
    assert(decimal_prefix(s, 40) == 1328379276879671855692927546998969781666nat);
    assert(decimal_prefix(s, 41) == 13283792768796718556929275469989697816663nat);
    assert(decimal_prefix(s, 42) == 132837927687967185569292754699896978166634nat);
    assert(decimal_prefix(s, 43) == 1328379276879671855692927546998969781666344nat);
    assert(decimal_prefix(s, 44) == 13283792768796718556929275469989697816663440nat);
    assert(decimal_prefix(s, 45) == 132837927687967185569292754699896978166634404nat);
    assert(decimal_prefix(s, 46) == 1328379276879671855692927546998969781666344040nat);
    assert(decimal_prefix(s, 47) == 13283792768796718556929275469989697816663440403nat);
    assert(decimal_prefix(s, 48) == 132837927687967185569292754699896978166634404033nat);
    assert(decimal_prefix(s, 49) == 1328379276879671855692927546998969781666344040333nat);
    assert(decimal_prefix(s, 50) == 13283792768796718556929275469989697816663440403339nat);
    assert(decimal_prefix(s, 51) == 132837927687967185569292754699896978166634404033398nat);
    assert(decimal_prefix(s, 52) == 1328379276879671855692927546998969781666344040333986nat);
    assert(decimal_prefix(s, 53) == 13283792768796718556929275469989697816663440403339868nat);
    assert(decimal_prefix(s, 54) == 132837927687967185569292754699896978166634404033398688nat);
    assert(decimal_prefix(s, 55) == 1328379276879671855692927546998969781666344040333986888nat);
    assert(decimal_prefix(s, 56) == 13283792768796718556929275469989697816663440403339868882nat);
    assert(decimal_prefix(s, 57) == 132837927687967185569292754699896978166634404033398688827nat);
    assert(decimal_prefix(s, 58) == 1328379276879671855692927546998969781666344040333986888274nat);
    assert(decimal_prefix(s, 59) == 13283792768796718556929275469989697816663440403339868882741nat);
    assert(decimal_prefix(s, 60) == 132837927687967185569292754699896978166634404033398688827410nat);
    assert(decimal_prefix(s, 61) == 1328379276879671855692927546998969781666344040333986888274100nat);
    assert(decimal_prefix(s, 62) == 13283792768796718556929275469989697816663440403339868882741001nat);
    assert(decimal_prefix(s, 63) == 132837927687967185569292754699896978166634404033398688827410014nat);
    assert(decimal_prefix(s, 64) == 1328379276879671855692927546998969781666344040333986888274100147nat);
    assert(decimal_prefix(s, 65) == 13283792768796718556929275469989697816663440403339868882741001477nat);
    assert(decimal_prefix(s, 66) == 132837927687967185569292754699896978166634404033398688827410014772nat);
    assert(decimal_prefix(s, 67) == 1328379276879671855692927546998969781666344040333986888274100147729nat);
    assert(decimal_prefix(s, 68) == 13283792768796718556929275469989697816663440403339868882741001477299nat);
    assert(decimal_prefix(s, 69) == 132837927687967185569292754699896978166634404033398688827410014772991nat);
    assert(decimal_prefix(s, 70) == 1328379276879671855692927546998969781666344040333986888274100147729917nat);
    assert(decimal_prefix(s, 71) == 13283792768796718556929275469989697816663440403339868882741001477299174nat);
    assert(decimal_value(s) == gen_x());
}

/// The decimal digits of the generator's S-coordinate write `gen_s()`.
pub proof fn lemma_gen_s_digits()
    ensures
        is_decimal("6416386389908495168242210184454780244589215014363767030073322872085145"@),
        decimal_value("6416386389908495168242210184454780244589215014363767030073322872085145"@) == gen_s(),
{
    reveal_strlit("6416386389908495168242210184454780244589215014363767030073322872085145");
    let s = "6416386389908495168242210184454780244589215014363767030073322872085145"@;
    assert(s.len() == 70);
    assert(is_decimal(s));
    assert(decimal_prefix(s, 0) == 0nat);
    assert(decimal_prefix(s, 1) == 6nat);
    assert(decimal_prefix(s, 2) == 64nat);
    assert(decimal_prefix(s, 3) == 641nat);
    assert(decimal_prefix(s, 4) == 6416nat);
    assert(decimal_prefix(s, 5) == 64163nat);
    assert(decimal_prefix(s, 6) == 641638nat);
    assert(decimal_prefix(s, 7) == 6416386nat);
    assert(decimal_prefix(s, 8) == 64163863nat);
    assert(decimal_prefix(s, 9) == 641638638nat);
    assert(decimal_prefix(s, 10) == 6416386389nat);
    assert(decimal_prefix(s, 11) == 64163863899nat);
    assert(decimal_prefix(s, 12) == 641638638990nat);
    assert(decimal_prefix(s, 13) == 6416386389908nat);
    assert(decimal_prefix(s, 14) == 64163863899084nat);
    assert(decimal_prefix(s, 15) == 641638638990849nat);
    assert(decimal_prefix(s, 16) == 6416386389908495nat);
    assert(decimal_prefix(s, 17) == 64163863899084951nat);
    assert(decimal_prefix(s, 18) == 641638638990849516nat);
    assert(decimal_prefix(s, 19) == 6416386389908495168nat);
    assert(decimal_prefix(s, 20) == 64163863899084951682nat);
    assert(decimal_prefix(s, 21) == 641638638990849516824nat);
    assert(decimal_prefix(s, 22) == 6416386389908495168242nat);
    assert(decimal_prefix(s, 23) == 64163863899084951682422nat);
    assert(decimal_prefix(s, 24) == 641638638990849516824221nat);
    assert(decimal_prefix(s, 25) == 6416386389908495168242210nat);
    assert(decimal_prefix(s, 26) == 64163863899084951682422101nat);
    assert(decimal_prefix(s, 27) == 641638638990849516824221018nat);
    assert(decimal_prefix(s, 28) == 6416386389908495168242210184nat);
    assert(decimal_prefix(s, 29) == 64163863899084951682422101844nat);
    assert(decimal_prefix(s, 30) == 641638638990849516824221018445nat);
    assert(decimal_prefix(s, 31) == 6416386389908495168242210184454nat);
    assert(decimal_prefix(s, 32) == 64163863899084951682422101844547nat);
    assert(decimal_prefix(s, 33) == 641638638990849516824221018445478nat);
    assert(decimal_prefix(s, 34) == 6416386389908495168242210184454780nat);
    assert(decimal_prefix(s, 35) == 64163863899084951682422101844547802nat);
    assert(decimal_prefix(s, 36) == 641638638990849516824221018445478024nat);
    assert(decimal_prefix(s, 37) == 6416386389908495168242210184454780244nat);
    assert(decimal_prefix(s, 38) == 64163863899084951682422101844547802445nat);
    assert(decimal_prefix(s, 39) == 641638638990849516824221018445478024458nat);
    assert(decimal_prefix(s, 40) == 6416386389908495168242210184454780244589nat);
    assert(decimal_prefix(s, 41) == 64163863899084951682422101844547802445892nat);
    assert(decimal_prefix(s, 42) == 641638638990849516824221018445478024458921nat);
    assert(decimal_prefix(s, 43) == 6416386389908495168242210184454780244589215nat);
    assert(decimal_prefix(s, 44) == 64163863899084951682422101844547802445892150nat);
    assert(decimal_prefix(s, 45) == 641638638990849516824221018445478024458921501nat);
    assert(decimal_prefix(s, 46) == 6416386389908495168242210184454780244589215014nat);
    assert(decimal_prefix(s, 47) == 64163863899084951682422101844547802445892150143nat);
    assert(decimal_prefix(s, 48) == 641638638990849516824221018445478024458921501436nat);
    assert(decimal_prefix(s, 49) == 6416386389908495168242210184454780244589215014363nat);
    assert(decimal_prefix(s, 50) == 64163863899084951682422101844547802445892150143637nat);
    assert(decimal_prefix(s, 51) == 641638638990849516824221018445478024458921501436376nat);
    assert(decimal_prefix(s, 52) == 6416386389908495168242210184454780244589215014363767nat);
    assert(decimal_prefix(s, 53) == 64163863899084951682422101844547802445892150143637670nat);
    assert(decimal_prefix(s, 54) == 641638638990849516824221018445478024458921501436376703nat);
    assert(decimal_prefix(s, 55) == 6416386389908495168242210184454780244589215014363767030nat);
    assert(decimal_prefix(s, 56) == 64163863899084951682422101844547802445892150143637670300nat);
    assert(decimal_prefix(s, 57) == 641638638990849516824221018445478024458921501436376703007nat);
    assert(decimal_prefix(s, 58) == 6416386389908495168242210184454780244589215014363767030073nat);
    assert(decimal_prefix(s, 59) == 64163863899084951682422101844547802445892150143637670300733nat);
    assert(decimal_prefix(s, 60) == 641638638990849516824221018445478024458921501436376703007332nat);
    assert(decimal_prefix(s, 61) == 6416386389908495168242210184454780244589215014363767030073322nat);
    assert(decimal_prefix(s, 62) == 64163863899084951682422101844547802445892150143637670300733228nat);
    assert(decimal_prefix(s, 63) == 641638638990849516824221018445478024458921501436376703007332287nat);
    assert(decimal_prefix(s, 64) == 6416386389908495168242210184454780244589215014363767030073322872nat);
    assert(decimal_prefix(s, 65) == 64163863899084951682422101844547802445892150143637670300733228720nat);
    assert(decimal_prefix(s, 66) == 641638638990849516824221018445478024458921501436376703007332287208nat);
    assert(decimal_prefix(s, 67) == 6416386389908495168242210184454780244589215014363767030073322872085nat);
    assert(decimal_prefix(s, 68) == 64163863899084951682422101844547802445892150143637670300733228720851nat);
    assert(decimal_prefix(s, 69) == 641638638990849516824221018445478024458921501436376703007332287208514nat);
    assert(decimal_prefix(s, 70) == 6416386389908495168242210184454780244589215014363767030073322872085145nat);
    assert(decimal_value(s) == gen_s());
}

/// The digit string "1" writes one.
pub proof fn lemma_one_digits()
    ensures
        is_decimal("1"@),
        decimal_value("1"@) == 1,
{
    reveal_strlit("1");
    let s = "1"@;
    assert(s.len() == 1);
    assert(is_decimal(s));
    assert(decimal_prefix(s, 0) == 0nat);
    assert(decimal_prefix(s, 1) == 1nat);
}

} // verus!
