//! Polynomials over GF(2) as coefficient sequences: sums of parities, the
//! product, and the facts that make reduction modulo x^233 + x^74 + 1
//! compatible with the product.

use vstd::prelude::*;

verus! {

/// Coefficient `i` of `p` (zero outside its length).
pub open spec fn pc(p: Seq<bool>, i: int) -> bool {
    0 <= i < p.len() && p[i]
}

/// `p` and `r` have the same coefficients (their lengths may differ by zeros).
pub open spec fn peq(p: Seq<bool>, r: Seq<bool>) -> bool {
    forall|i: int| #![trigger pc(p, i)] #![trigger pc(r, i)] pc(p, i) == pc(r, i)
}

/// The parity of `f(0), ..., f(n - 1)`.
pub open spec fn xsum(f: spec_fn(int) -> bool, n: int) -> bool
    decreases n,
{
    if n <= 0 {
        false
    } else {
        xsum(f, n - 1) != f(n - 1)
    }
}

/// `i |-> h(i, j)`.
pub open spec fn col(h: spec_fn(int, int) -> bool, j: int) -> spec_fn(int) -> bool {
    |i: int| h(i, j)
}

/// `j |-> h(i, j)`.
pub open spec fn row(h: spec_fn(int, int) -> bool, i: int) -> spec_fn(int) -> bool {
    |j: int| h(i, j)
}

/// `i |-> parity of h(i, 0), ..., h(i, m - 1)`.
pub open spec fn sum_rows(h: spec_fn(int, int) -> bool, m: int) -> spec_fn(int) -> bool {
    |i: int| xsum(row(h, i), m)
}

/// `j |-> parity of h(0, j), ..., h(n - 1, j)`.
pub open spec fn sum_cols(h: spec_fn(int, int) -> bool, n: int) -> spec_fn(int) -> bool {
    |j: int| xsum(col(h, j), n)
}

/// The terms `a_i b_(k-i)` of coefficient `k` of a product.
pub open spec fn pmul_terms(a: Seq<bool>, b: Seq<bool>, k: int) -> spec_fn(int) -> bool {
    |i: int| pc(a, i) && pc(b, k - i)
}

/// The product of polynomials `a` and `b`.
pub open spec fn pmul(a: Seq<bool>, b: Seq<bool>) -> Seq<bool> {
    Seq::new(a.len() + b.len(), |k: int| xsum(pmul_terms(a, b, k), a.len() as int))
}

/// The sum of polynomials `a` and `b`.
pub open spec fn padd(a: Seq<bool>, b: Seq<bool>) -> Seq<bool> {
    Seq::new(if a.len() >= b.len() { a.len() } else { b.len() }, |i: int| pc(a, i) != pc(b, i))
}

/// The monomial `x^m`.
pub open spec fn mono(m: nat) -> Seq<bool> {
    Seq::new(m + 1, |i: int| i == m)
}

/// `x^m * p`.
pub open spec fn shift(p: Seq<bool>, m: nat) -> Seq<bool> {
    Seq::new(p.len() + m, |i: int| pc(p, i - m))
}

pub proof fn lemma_xsum_ext(f: spec_fn(int) -> bool, g: spec_fn(int) -> bool, n: int)
    requires
        forall|i: int| 0 <= i < n ==> #[trigger] f(i) == g(i),
    ensures
        xsum(f, n) == xsum(g, n),
    decreases n,
{
    if n > 0 {
        lemma_xsum_ext(f, g, n - 1);
    }
}

pub proof fn lemma_xsum_xor(f: spec_fn(int) -> bool, g: spec_fn(int) -> bool, h: spec_fn(int) -> bool, n: int)
    requires
        forall|i: int| 0 <= i < n ==> #[trigger] h(i) == (f(i) != g(i)),
    ensures
        xsum(h, n) == (xsum(f, n) != xsum(g, n)),
    decreases n,
{
    if n > 0 {
        lemma_xsum_xor(f, g, h, n - 1);
    }
}

pub proof fn lemma_xsum_and(f: spec_fn(int) -> bool, g: spec_fn(int) -> bool, b: bool, n: int)
    requires
        forall|i: int| 0 <= i < n ==> #[trigger] g(i) == (f(i) && b),
    ensures
        xsum(g, n) == (xsum(f, n) && b),
    decreases n,
{
    if n > 0 {
        lemma_xsum_and(f, g, b, n - 1);
    }
}

/// Terms that are zero between `m` and `n` do not change the parity.
pub proof fn lemma_xsum_zero_tail(f: spec_fn(int) -> bool, m: int, n: int)
    requires
        0 <= m,
        0 <= n,
        forall|i: int| (m <= i < n || n <= i < m) ==> !#[trigger] f(i),
    ensures
        xsum(f, n) == xsum(f, m),
    decreases if n >= m { n - m } else { m - n },
{
    if n > m {
        lemma_xsum_zero_tail(f, m, n - 1);
    } else if n < m {
        lemma_xsum_zero_tail(f, m - 1, n);
    }
}

/// The parity of terms that are all zero is zero.
pub proof fn lemma_xsum_zero(f: spec_fn(int) -> bool, n: int)
    requires
        forall|i: int| 0 <= i < n ==> !#[trigger] f(i),
    ensures
        !xsum(f, n),
{
    if n > 0 {
        lemma_xsum_zero_tail(f, 0, n);
    }
}

/// A single non-zero term gives the parity.
pub proof fn lemma_xsum_single(f: spec_fn(int) -> bool, i0: int, n: int)
    requires
        0 <= i0 < n,
        forall|i: int| 0 <= i < n && i != i0 ==> !#[trigger] f(i),
    ensures
        xsum(f, n) == f(i0),
{
    lemma_xsum_zero_tail(f, i0 + 1, n);
    lemma_xsum_zero(f, i0);
}

/// Dropping `s` leading zero terms shifts the index.
pub proof fn lemma_xsum_shift(f: spec_fn(int) -> bool, g: spec_fn(int) -> bool, s: int, n: int)
    requires
        0 <= s <= n,
        forall|i: int| 0 <= i < s ==> !#[trigger] f(i),
        forall|l: int| 0 <= l < n - s ==> #[trigger] g(l) == f(s + l),
    ensures
        xsum(f, n) == xsum(g, n - s),
    decreases n - s,
{
    if n == s {
        lemma_xsum_zero(f, n);
    } else {
        lemma_xsum_shift(f, g, s, n - 1);
    }
}

/// The parity of terms does not depend on their order: reversed.
pub proof fn lemma_xsum_reverse(f: spec_fn(int) -> bool, g: spec_fn(int) -> bool, n: int)
    requires
        forall|i: int| 0 <= i < n ==> #[trigger] g(i) == f(n - 1 - i),
    ensures
        xsum(g, n) == xsum(f, n),
    decreases n,
{
    if n > 0 {
        // g(0..n) = g(0..n-1), g(n-1) = f(0); and g(i) = f(n-1-i) = f'(n-2-i) for f'(j) = f(j+1)
        let f1 = |j: int| f(j + 1);
        lemma_xsum_reverse(f1, g, n - 1);
        // xsum(f, n) = f(0) + xsum(f1, n - 1)
        let h = |i: int| if i == 0 { f(0) } else { false };
        let r = |i: int| if i == 0 { false } else { f(i) };
        lemma_xsum_xor(h, r, f, n);
        lemma_xsum_single(h, 0, n);
        lemma_xsum_shift(r, f1, 1, n);
    }
}

/// Exchanging the order of a double parity sum.
pub proof fn lemma_xsum_fubini(h: spec_fn(int, int) -> bool, m: int, n: int)
    requires
        0 <= m,
    ensures
        xsum(sum_rows(h, m), n) == xsum(sum_cols(h, n), m),
    decreases n,
{
    if n <= 0 {
        assert forall|j: int| 0 <= j < m implies !#[trigger] sum_cols(h, n)(j) by {
        }
        lemma_xsum_zero(sum_cols(h, n), m);
    } else {
        lemma_xsum_fubini(h, m, n - 1);
        assert forall|j: int| 0 <= j < m implies #[trigger] sum_cols(h, n)(j) == (sum_cols(h, n - 1)(j) != row(
            h,
            n - 1,
        )(j)) by {
        }
        lemma_xsum_xor(sum_cols(h, n - 1), row(h, n - 1), sum_cols(h, n), m);
    }
}


/// Coefficient `k` of a product is the parity of its terms over any range
/// that covers the first factor.
pub proof fn lemma_pmul_coef(a: Seq<bool>, b: Seq<bool>, k: int, n: int)
    requires
        n >= a.len(),
    ensures
        pc(pmul(a, b), k) == xsum(pmul_terms(a, b, k), n),
{
    let f = pmul_terms(a, b, k);
    if 0 <= k < a.len() + b.len() {
        assert forall|i: int| (a.len() <= i < n || n <= i < a.len()) implies !#[trigger] f(i) by {
        }
        lemma_xsum_zero_tail(f, a.len() as int, n);
    } else {
        assert forall|i: int| 0 <= i < n implies !#[trigger] f(i) by {
        }
        lemma_xsum_zero(f, n);
    }
}

/// The product of polynomials is commutative.
pub proof fn lemma_pmul_comm(a: Seq<bool>, b: Seq<bool>)
    ensures
        pmul(a, b) == pmul(b, a),
{
    assert forall|k: int| 0 <= k < a.len() + b.len() implies pmul(a, b)[k] == pmul(b, a)[k] by {
        let f = pmul_terms(a, b, k);
        let g = pmul_terms(b, a, k);
        lemma_pmul_coef(a, b, k, a.len() + b.len() + k + 1);
        lemma_pmul_coef(b, a, k, a.len() + b.len() + k + 1);
        assert forall|i: int| (k + 1 <= i < a.len() + b.len() + k + 1 || a.len() + b.len() + k + 1 <= i < k + 1) implies !#[trigger] f(i) by {
        }
        assert forall|i: int| (k + 1 <= i < a.len() + b.len() + k + 1 || a.len() + b.len() + k + 1 <= i < k + 1) implies !#[trigger] g(i) by {
        }
        lemma_xsum_zero_tail(f, k + 1, a.len() + b.len() + k + 1);
        lemma_xsum_zero_tail(g, k + 1, a.len() + b.len() + k + 1);
        assert forall|i: int| 0 <= i < k + 1 implies #[trigger] g(i) == f(k + 1 - 1 - i) by {
        }
        lemma_xsum_reverse(f, g, k + 1);
    }
    assert(pmul(a, b) =~= pmul(b, a));
}

/// The product distributes over the sum in its first factor.
pub proof fn lemma_pmul_padd_left(a: Seq<bool>, a2: Seq<bool>, b: Seq<bool>)
    ensures
        peq(pmul(padd(a, a2), b), padd(pmul(a, b), pmul(a2, b))),
{
    let s = padd(a, a2);
    assert forall|k: int| #![trigger pc(pmul(s, b), k)] pc(pmul(s, b), k) == pc(padd(pmul(a, b), pmul(a2, b)), k) by {
        let n = s.len() as int;
        lemma_pmul_coef(s, b, k, n);
        lemma_pmul_coef(a, b, k, n);
        lemma_pmul_coef(a2, b, k, n);
        assert forall|i: int| 0 <= i < n implies #[trigger] pmul_terms(s, b, k)(i) == (pmul_terms(a, b, k)(i)
            != pmul_terms(a2, b, k)(i)) by {
        }
        lemma_xsum_xor(pmul_terms(a, b, k), pmul_terms(a2, b, k), pmul_terms(s, b, k), n);
    }
}

/// The product respects equality of coefficients in its first factor.
pub proof fn lemma_pmul_peq_left(a: Seq<bool>, a2: Seq<bool>, b: Seq<bool>)
    requires
        peq(a, a2),
    ensures
        peq(pmul(a, b), pmul(a2, b)),
{
    assert forall|k: int| #![trigger pc(pmul(a, b), k)] pc(pmul(a, b), k) == pc(pmul(a2, b), k) by {
        let n = (a.len() + a2.len()) as int;
        lemma_pmul_coef(a, b, k, n);
        lemma_pmul_coef(a2, b, k, n);
        assert forall|i: int| 0 <= i < n implies #[trigger] pmul_terms(a, b, k)(i) == pmul_terms(a2, b, k)(i) by {
            assert(pc(a, i) == pc(a2, i));
        }
        lemma_xsum_ext(pmul_terms(a, b, k), pmul_terms(a2, b, k), n);
    }
}

/// The product respects equality of coefficients in its second factor.
pub proof fn lemma_pmul_peq_right(a: Seq<bool>, b: Seq<bool>, b2: Seq<bool>)
    requires
        peq(b, b2),
    ensures
        peq(pmul(a, b), pmul(a, b2)),
{
    assert forall|k: int| #![trigger pc(pmul(a, b), k)] pc(pmul(a, b), k) == pc(pmul(a, b2), k) by {
        let n = a.len() as int;
        lemma_pmul_coef(a, b, k, n);
        lemma_pmul_coef(a, b2, k, n);
        assert forall|i: int| 0 <= i < n implies #[trigger] pmul_terms(a, b, k)(i) == pmul_terms(a, b2, k)(i) by {
            assert(pc(b, k - i) == pc(b2, k - i));
        }
        lemma_xsum_ext(pmul_terms(a, b, k), pmul_terms(a, b2, k), n);
    }
}

/// Multiplying by `x^m` shifts.
pub proof fn lemma_pmul_mono(m: nat, q: Seq<bool>)
    ensures
        peq(pmul(mono(m), q), shift(q, m)),
{
    assert forall|k: int| #![trigger pc(pmul(mono(m), q), k)] pc(pmul(mono(m), q), k) == pc(shift(q, m), k) by {
        lemma_pmul_coef(mono(m), q, k, (m + 1) as int);
        assert forall|i: int| 0 <= i < m + 1 && i != m implies !#[trigger] pmul_terms(mono(m), q, k)(i) by {
        }
        lemma_xsum_single(pmul_terms(mono(m), q, k), m as int, (m + 1) as int);
    }
}

/// The terms of coefficient `k` of `(a b) c`, indexed by the position `i` in
/// `a` and `j` in `a b`.
pub open spec fn assoc_terms(a: Seq<bool>, b: Seq<bool>, c: Seq<bool>, k: int) -> spec_fn(int, int) -> bool {
    |i: int, j: int| pc(a, i) && pc(b, j - i) && pc(c, k - j)
}

/// The terms of coefficient `k` of `a (b c)` for a fixed position `i` in `a`.
pub open spec fn assoc_inner(a: Seq<bool>, b: Seq<bool>, c: Seq<bool>, k: int, i: int) -> spec_fn(int) -> bool {
    |l: int| pc(a, i) && pc(b, l) && pc(c, k - i - l)
}

/// The product of polynomials is associative.
pub proof fn lemma_pmul_assoc(a: Seq<bool>, b: Seq<bool>, c: Seq<bool>)
    ensures
        pmul(pmul(a, b), c) == pmul(a, pmul(b, c)),
{
    let ab = pmul(a, b);
    let bc = pmul(b, c);
    let na = a.len() as int;
    let nb = b.len() as int;
    assert forall|k: int| 0 <= k < a.len() + b.len() + c.len() implies pmul(ab, c)[k] == pmul(a, bc)[k] by {
        let h = assoc_terms(a, b, c, k);
        // left side: sum over j of (sum over i of h(i, j))
        assert forall|j: int| 0 <= j < na + nb implies #[trigger] pmul_terms(ab, c, k)(j) == sum_cols(h, na)(j) by {
            lemma_xsum_and(pmul_terms(a, b, j), col(h, j), pc(c, k - j), na);
        }
        lemma_xsum_ext(pmul_terms(ab, c, k), sum_cols(h, na), na + nb);
        lemma_xsum_fubini(h, na + nb, na);
        // right side: sum over i of (sum over l of the inner terms)
        assert forall|i: int| 0 <= i < na implies #[trigger] pmul_terms(a, bc, k)(i) == sum_rows(h, na + nb)(i) by {
            let g = assoc_inner(a, b, c, k, i);
            lemma_pmul_coef(b, c, k - i, nb);
            lemma_xsum_and(pmul_terms(b, c, k - i), g, pc(a, i), nb);
            assert forall|j: int| 0 <= j < i implies !#[trigger] row(h, i)(j) by {
            }
            assert forall|l: int| 0 <= l < na + nb - i implies #[trigger] g(l) == row(h, i)(i + l) by {
            }
            lemma_xsum_shift(row(h, i), g, i, na + nb);
            assert forall|l: int| (nb <= l < na + nb - i || na + nb - i <= l < nb) implies !#[trigger] g(l) by {
            }
            lemma_xsum_zero_tail(g, nb, na + nb - i);
        }
        lemma_xsum_ext(pmul_terms(a, bc, k), sum_rows(h, na + nb), na);
    }
    assert(pmul(ab, c) =~= pmul(a, bc));
}

} // verus!
