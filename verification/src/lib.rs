//! Boolean circuits over the binary field GF(2^233) and the Koblitz curve
//! xsk233, built wire by wire for garbling.

pub mod builder;
pub mod poly;
pub mod gf_spec;
pub mod gf_laws;
pub mod decode_laws;
pub mod gf_ckt;
pub mod gf_mul_ckt;
pub mod bigint;
pub mod curve_spec;
pub mod curve_ckt;
