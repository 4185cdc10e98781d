//! The multiplication circuit of GF(2^233): schoolbook product, then reduction.

use vstd::prelude::*;

use crate::builder::{appends, grows, room, CircuitTrait};
use crate::gf_ckt::{emit_gf_reduce, gf_in, gf_val, wires_in, Gf, GF_LEN};
use crate::gf_spec::{conv_upto, gf_mul, poly_product, wires_val};

verus! {

/// Wires that a field multiplication may add.
pub const MUL_COST: usize = 218_000;

/// Gates that a field multiplication emits: an AND and an XOR for each of the
/// 233 * 233 coefficient pairs, then the reduction.
pub const MUL_GATES: usize = 109_042;

/// Emits the field product `a * b`.
pub fn emit_gf_mul<T: CircuitTrait>(bld: &mut T, a: &Gf, b: &Gf) -> (r: Gf)
    requires
        gf_in(*old(bld), *a),
        gf_in(*old(bld), *b),
        room(*old(bld), MUL_COST as nat),
    ensures
        grows(*old(bld), *final(bld), MUL_COST as nat),
        appends(*old(bld), *final(bld), MUL_GATES as nat),
        gf_in(*final(bld), r),
        forall|w: Seq<bool>| #[trigger]
            final(bld).sat(w) ==> gf_val(w, r) == gf_mul(gf_val(w, *a), gf_val(w, *b)),
{
    let z = bld.zero();
    let mut acc: Vec<usize> = Vec::new();
    let mut k: usize = 0;
    while k < 465
        invariant
            k <= 465,
            acc.len() == k,
            z < bld.wire_count(),
            forall|j: int| 0 <= j < k ==> #[trigger] acc@[j] == z,
        decreases 465 - k,
    {
        acc.push(z);
        k = k + 1;
    }
    let ghost b0 = *bld;
    let mut i: usize = 0;
    while i < GF_LEN
        invariant
            i <= GF_LEN,
            acc.len() == 465,
            gf_in(*old(bld), *a),
            gf_in(*old(bld), *b),
            room(*old(bld), MUL_COST as nat),
            grows(*old(bld), b0, 1),
            appends(*old(bld), b0, 0),
            grows(b0, *bld, (466 * i) as nat),
            appends(b0, *bld, (466 * i) as nat),
            wires_in(*bld, acc@),
            forall|w: Seq<bool>| #[trigger]
                bld.sat(w) ==> forall|k: int|
                    0 <= k < 465 ==> w[#[trigger] acc@[k] as int] == conv_upto(
                        gf_val(w, *a),
                        gf_val(w, *b),
                        k,
                        i as int,
                    ),
        decreases GF_LEN - i,
    {
        let ghost row_start = *bld;
        let mut j: usize = 0;
        while j < GF_LEN
            invariant
                i < GF_LEN,
                j <= GF_LEN,
                acc.len() == 465,
                gf_in(*old(bld), *a),
                gf_in(*old(bld), *b),
                room(*old(bld), MUL_COST as nat),
                grows(*old(bld), b0, 1),
                appends(*old(bld), b0, 0),
                grows(b0, row_start, (466 * i) as nat),
                appends(b0, row_start, (466 * i) as nat),
                grows(row_start, *bld, (2 * j) as nat),
                appends(row_start, *bld, (2 * j) as nat),
                wires_in(*bld, acc@),
                forall|w: Seq<bool>| #[trigger]
                    bld.sat(w) ==> forall|k: int|
                        0 <= k < 465 ==> w[#[trigger] acc@[k] as int] == (conv_upto(
                            gf_val(w, *a),
                            gf_val(w, *b),
                            k,
                            i as int,
                        ) != (0 <= k - i < j && gf_val(w, *a)[i as int] && gf_val(w, *b)[k - i])),
            decreases GF_LEN - j,
        {
            let ghost prev = *bld;
            let ghost prev_acc = acc@;
            let t = bld.and_wire(a[i], b[j]);
            let ghost mid = *bld;
            let x = bld.xor_wire(acc[i + j], t);
            acc.set(i + j, x);
            proof {
                assert forall|w: Seq<bool>| #[trigger] bld.sat(w) implies forall|k: int|
                    0 <= k < 465 ==> w[#[trigger] acc@[k] as int] == (conv_upto(
                        gf_val(w, *a),
                        gf_val(w, *b),
                        k,
                        i as int,
                    ) != (0 <= k - i < j + 1 && gf_val(w, *a)[i as int] && gf_val(w, *b)[k - i])) by {
                    assert(mid.sat(w));
                    assert(prev.sat(w));
                    assert(gf_val(w, *a)[i as int] == w[a[i as int] as int]);
                    assert(gf_val(w, *b)[j as int] == w[b[j as int] as int]);
                    assert forall|k: int| 0 <= k < 465 implies w[#[trigger] acc@[k] as int] == (conv_upto(
                        gf_val(w, *a),
                        gf_val(w, *b),
                        k,
                        i as int,
                    ) != (0 <= k - i < j + 1 && gf_val(w, *a)[i as int] && gf_val(w, *b)[k - i])) by {
                        if k != i + j {
                            assert(acc@[k] == prev_acc[k]);
                        }
                    }
                }
            }
            j = j + 1;
        }
        proof {
            assert forall|w: Seq<bool>| #[trigger] bld.sat(w) implies forall|k: int|
                0 <= k < 465 ==> w[#[trigger] acc@[k] as int] == conv_upto(
                    gf_val(w, *a),
                    gf_val(w, *b),
                    k,
                    i + 1,
                ) by {
                assert forall|k: int| 0 <= k < 465 implies w[#[trigger] acc@[k] as int] == conv_upto(
                    gf_val(w, *a),
                    gf_val(w, *b),
                    k,
                    i + 1,
                ) by {
                    assert(conv_upto(gf_val(w, *a), gf_val(w, *b), k, i + 1) == (conv_upto(
                        gf_val(w, *a),
                        gf_val(w, *b),
                        k,
                        i as int,
                    ) != (0 <= k - i < 233 && gf_val(w, *a)[i as int] && gf_val(w, *b)[k - i])));
                }
            }
        }
        i = i + 1;
    }
    let ghost mid = *bld;
    let r = emit_gf_reduce(bld, acc);
    proof {
        assert forall|w: Seq<bool>| #[trigger] bld.sat(w) implies gf_val(w, r) == gf_mul(
            gf_val(w, *a),
            gf_val(w, *b),
        ) by {
            assert(mid.sat(w));
            assert(wires_val(w, acc@) =~= poly_product(gf_val(w, *a), gf_val(w, *b)));
        }
    }
    r
}

} // verus!
