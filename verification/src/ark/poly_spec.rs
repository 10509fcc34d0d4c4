//! The integer models of polynomials over the scalar field, and their laws.
//!
//! A polynomial is a sequence of integer coefficients in increasing order of
//! degree. Its value at a point, its sums and its products are taken over the
//! integers, and two polynomials are the same over the field where their
//! coefficients are congruent. The canonical form of a polynomial has its
//! coefficients reduced and no zero coefficient of highest degree.
use crate::ark::field::{modulus, Scalar};
use vstd::arithmetic::div_mod::{
    lemma_add_mod_noop, lemma_mod_twice, lemma_mul_mod_noop, lemma_small_mod, lemma_sub_mod_noop,
};
use vstd::arithmetic::power::{lemma_pow0, lemma_pow1, lemma_pow_adds, pow};
use vstd::prelude::*;

verus! {

/// Congruence of two integers in the scalar field.
pub open spec fn cong(a: int, b: int) -> bool {
    a % modulus() == b % modulus()
}

/// The integers that a sequence of scalars denotes.
pub open spec fn vals(s: Seq<Scalar>) -> Seq<int> {
    Seq::new(s.len(), |i: int| s[i]@)
}

/// The first `n` powers of `x` in the field.
pub open spec fn power_values(x: int, n: nat) -> Seq<int> {
    Seq::new(n, |i: int| pow(x, i as nat) % modulus())
}

/// Whether every scalar of the sequence is canonical.
pub open spec fn all_wf(s: Seq<Scalar>) -> bool {
    forall|i: int| 0 <= i < s.len() ==> (#[trigger] s[i]).wf()
}

/// The coefficient of degree `i`, zero beyond the stored ones.
pub open spec fn coeff(p: Seq<int>, i: int) -> int {
    if 0 <= i < p.len() {
        p[i]
    } else {
        0
    }
}

/// The value of the polynomial `p` at `x`, over the integers.
pub open spec fn eval(p: Seq<int>, x: int) -> int
    decreases p.len(),
{
    if p.len() == 0 {
        0
    } else {
        p[0] + x * eval(p.skip(1), x)
    }
}

/// Two coefficient sequences that denote the same polynomial over the field.
pub open spec fn same_poly(p: Seq<int>, q: Seq<int>) -> bool {
    forall|i: int| cong(#[trigger] coeff(p, i), coeff(q, i))
}

/// Whether the highest stored coefficient is not zero.
pub open spec fn is_normal(p: Seq<int>) -> bool {
    p.len() == 0 || p.last() != 0
}

/// Whether every value is a canonical representative.
pub open spec fn canonical(p: Seq<int>) -> bool {
    forall|i: int| 0 <= i < p.len() ==> 0 <= #[trigger] p[i] < modulus()
}

/// The partial sum, over the first `n` coefficients of `b`, of the products
/// that contribute to the coefficient of degree `k` of `a * b`.
pub open spec fn conv(a: Seq<int>, b: Seq<int>, k: int, n: nat) -> int
    decreases n,
{
    if n == 0 {
        0
    } else {
        conv(a, b, k, (n - 1) as nat) + b[n - 1] * coeff(a, k - (n - 1))
    }
}

/// The coefficient of degree `k` of the product `a * b`, over the integers.
pub open spec fn mul_coeff(a: Seq<int>, b: Seq<int>, k: int) -> int {
    conv(a, b, k, b.len())
}

/// The coefficients of `a` multiplied by `x + c0`, over the integers.
pub open spec fn linear_product(a: Seq<int>, c0: int) -> Seq<int> {
    Seq::new(a.len() + 1, |k: int| coeff(a, k - 1) + c0 * coeff(a, k))
}

/// The sum of two polynomials over the integers.
pub open spec fn p_add(a: Seq<int>, b: Seq<int>) -> Seq<int> {
    Seq::new(if a.len() > b.len() { a.len() } else { b.len() }, |k: int| coeff(a, k) + coeff(b, k))
}

/// The polynomial `a` multiplied by the integer `c`.
pub open spec fn p_scale(c: int, a: Seq<int>) -> Seq<int> {
    Seq::new(a.len(), |k: int| c * a[k])
}

/// The difference of two polynomials over the integers.
pub open spec fn p_sub(a: Seq<int>, b: Seq<int>) -> Seq<int> {
    Seq::new(if a.len() > b.len() { a.len() } else { b.len() }, |k: int| coeff(a, k) - coeff(b, k))
}

/// The product of two polynomials over the integers.
pub open spec fn p_mul(a: Seq<int>, b: Seq<int>) -> Seq<int> {
    Seq::new(a.len() + b.len(), |k: int| mul_coeff(a, b, k))
}

/// The coefficients reduced to their canonical representatives.
pub open spec fn reduced(p: Seq<int>) -> Seq<int> {
    Seq::new(p.len(), |i: int| p[i] % modulus())
}

/// The coefficients without the zeros of highest degree.
pub open spec fn normalized(p: Seq<int>) -> Seq<int>
    decreases p.len(),
{
    if p.len() > 0 && p.last() == 0 {
        normalized(p.drop_last())
    } else {
        p
    }
}

/// The canonical form of an integer polynomial in the field: coefficients
/// reduced, and without the zeros of highest degree.
pub open spec fn canon(p: Seq<int>) -> Seq<int> {
    normalized(reduced(p))
}

/// The coefficients of `a`, moved up by `m` degrees, in a sequence of length
/// `len`.
pub open spec fn shifted(a: Seq<int>, m: int, len: nat) -> Seq<int> {
    Seq::new(len, |k: int| coeff(a, k - m))
}

/// The partial products of `a` with the first `n` coefficients of `b`.
pub open spec fn partial_product(a: Seq<int>, b: Seq<int>, n: nat) -> Seq<int> {
    Seq::new(a.len() + b.len(), |k: int| conv(a, b, k, n))
}

/// An integer is congruent to its reduction.
pub proof fn lemma_cong_reduce(a: int)
    ensures
        cong(a % modulus(), a),
{
    lemma_mod_twice(a, modulus());
}

/// Sums of congruent integers are congruent.
pub proof fn lemma_cong_add(a: int, a2: int, b: int, b2: int)
    requires
        cong(a, a2),
        cong(b, b2),
    ensures
        cong(a + b, a2 + b2),
{
    lemma_add_mod_noop(a, b, modulus());
    lemma_add_mod_noop(a2, b2, modulus());
}

/// Differences of congruent integers are congruent.
pub proof fn lemma_cong_sub(a: int, a2: int, b: int, b2: int)
    requires
        cong(a, a2),
        cong(b, b2),
    ensures
        cong(a - b, a2 - b2),
{
    lemma_sub_mod_noop(a, b, modulus());
    lemma_sub_mod_noop(a2, b2, modulus());
}

/// Products of congruent integers are congruent.
pub proof fn lemma_cong_mul(a: int, a2: int, b: int, b2: int)
    requires
        cong(a, a2),
        cong(b, b2),
    ensures
        cong(a * b, a2 * b2),
{
    lemma_mul_mod_noop(a, b, modulus());
    lemma_mul_mod_noop(a2, b2, modulus());
}

/// Canonical representatives that are congruent are equal.
pub proof fn lemma_cong_canonical(a: int, b: int)
    requires
        0 <= a < modulus(),
        0 <= b < modulus(),
        cong(a, b),
    ensures
        a == b,
{
    lemma_small_mod(a as nat, modulus() as nat);
    lemma_small_mod(b as nat, modulus() as nat);
}

/// The values of canonical scalars are canonical.
pub proof fn lemma_vals_canonical(s: Seq<Scalar>)
    requires
        all_wf(s),
    ensures
        canonical(vals(s)),
{
    assert forall|i: int| 0 <= i < vals(s).len() implies 0 <= #[trigger] vals(s)[i] < modulus() by {
        assert(s[i].wf());
    }
}

/// Congruent coefficients give congruent values.
pub proof fn lemma_eval_cong(p: Seq<int>, q: Seq<int>, x: int, y: int)
    requires
        p.len() == q.len(),
        forall|i: int| 0 <= i < p.len() ==> cong(#[trigger] p[i], q[i]),
        cong(x, y),
    ensures
        cong(eval(p, x), eval(q, y)),
    decreases p.len(),
{
    if p.len() > 0 {
        let p1 = p.skip(1);
        let q1 = q.skip(1);
        assert forall|i: int| 0 <= i < p1.len() implies cong(#[trigger] p1[i], q1[i]) by {
            assert(cong(p[i + 1], q[i + 1]));
        }
        lemma_eval_cong(p1, q1, x, y);
        lemma_cong_mul(x, y, eval(p1, x), eval(q1, y));
        assert(cong(p[0], q[0]));
        lemma_cong_add(p[0], q[0], x * eval(p1, x), y * eval(q1, y));
    }
}

/// Polynomials with congruent coefficients have congruent values.
pub proof fn lemma_eval_same_poly(p: Seq<int>, q: Seq<int>, x: int)
    requires
        same_poly(p, q),
    ensures
        cong(eval(p, x), eval(q, x)),
    decreases p.len() + q.len(),
{
    if p.len() > 0 || q.len() > 0 {
        let p1 = if p.len() > 0 { p.skip(1) } else { p };
        let q1 = if q.len() > 0 { q.skip(1) } else { q };
        assert forall|i: int| cong(#[trigger] coeff(p1, i), coeff(q1, i)) by {
            if i >= 0 {
                assert(cong(coeff(p, i + 1), coeff(q, i + 1)));
                assert(coeff(p1, i) == coeff(p, i + 1));
                assert(coeff(q1, i) == coeff(q, i + 1));
            }
        }
        lemma_eval_same_poly(p1, q1, x);
        lemma_cong_mul(x, x, eval(p1, x), eval(q1, x));
        assert(cong(coeff(p, 0), coeff(q, 0)));
        lemma_cong_add(coeff(p, 0), coeff(q, 0), x * eval(p1, x), x * eval(q1, x));
        assert(eval(p, x) == coeff(p, 0) + x * eval(p1, x)) by {
            if p.len() == 0 {
                assert(x * 0 == 0);
            }
        }
        assert(eval(q, x) == coeff(q, 0) + x * eval(q1, x)) by {
            if q.len() == 0 {
                assert(x * 0 == 0);
            }
        }
    }
}

/// The value of a polynomial is its constant coefficient plus `x` times the
/// value of the rest.
pub proof fn lemma_eval_unfold(p: Seq<int>, x: int)
    ensures
        eval(p, x) == coeff(p, 0) + x * eval(if p.len() > 0 { p.skip(1) } else { p }, x),
{
    if p.len() == 0 {
        assert(x * 0 == 0);
    }
}

/// Polynomials whose coefficients add up, up to congruence, have values that
/// add up.
pub proof fn lemma_eval_sum(a: Seq<int>, b: Seq<int>, s: Seq<int>, x: int)
    requires
        forall|k: int| cong(#[trigger] coeff(s, k), coeff(a, k) + coeff(b, k)),
    ensures
        cong(eval(s, x), eval(a, x) + eval(b, x)),
    decreases a.len() + b.len() + s.len(),
{
    if a.len() > 0 || b.len() > 0 || s.len() > 0 {
        let a1 = if a.len() > 0 { a.skip(1) } else { a };
        let b1 = if b.len() > 0 { b.skip(1) } else { b };
        let s1 = if s.len() > 0 { s.skip(1) } else { s };
        assert forall|k: int| cong(#[trigger] coeff(s1, k), coeff(a1, k) + coeff(b1, k)) by {
            if k >= 0 {
                assert(cong(coeff(s, k + 1), coeff(a, k + 1) + coeff(b, k + 1)));
                assert(coeff(a1, k) == coeff(a, k + 1));
                assert(coeff(b1, k) == coeff(b, k + 1));
                assert(coeff(s1, k) == coeff(s, k + 1));
            }
        }
        lemma_eval_sum(a1, b1, s1, x);
        lemma_eval_unfold(a, x);
        lemma_eval_unfold(b, x);
        lemma_eval_unfold(s, x);
        lemma_cong_mul(x, x, eval(s1, x), eval(a1, x) + eval(b1, x));
        assert(cong(coeff(s, 0), coeff(a, 0) + coeff(b, 0)));
        lemma_cong_add(coeff(s, 0), coeff(a, 0) + coeff(b, 0), x * eval(s1, x), x * (eval(a1, x) + eval(b1, x)));
        assert(x * (eval(a1, x) + eval(b1, x)) == x * eval(a1, x) + x * eval(b1, x)) by (nonlinear_arith);
    }
}

/// A polynomial whose coefficients are those of another times `c`, up to
/// congruence, has `c` times its values.
pub proof fn lemma_eval_scaled(a: Seq<int>, c: int, s: Seq<int>, x: int)
    requires
        forall|k: int| cong(#[trigger] coeff(s, k), c * coeff(a, k)),
    ensures
        cong(eval(s, x), c * eval(a, x)),
    decreases a.len() + s.len(),
{
    if a.len() > 0 || s.len() > 0 {
        let a1 = if a.len() > 0 { a.skip(1) } else { a };
        let s1 = if s.len() > 0 { s.skip(1) } else { s };
        assert forall|k: int| cong(#[trigger] coeff(s1, k), c * coeff(a1, k)) by {
            if k >= 0 {
                assert(cong(coeff(s, k + 1), c * coeff(a, k + 1)));
                assert(coeff(a1, k) == coeff(a, k + 1));
                assert(coeff(s1, k) == coeff(s, k + 1));
            } else {
                assert(c * 0 == 0);
            }
        }
        lemma_eval_scaled(a1, c, s1, x);
        lemma_eval_unfold(a, x);
        lemma_eval_unfold(s, x);
        lemma_cong_mul(x, x, eval(s1, x), c * eval(a1, x));
        assert(cong(coeff(s, 0), c * coeff(a, 0)));
        lemma_cong_add(coeff(s, 0), c * coeff(a, 0), x * eval(s1, x), x * (c * eval(a1, x)));
        assert(c * coeff(a, 0) + x * (c * eval(a1, x)) == c * (coeff(a, 0) + x * eval(a1, x)))
            by (nonlinear_arith);
    } else {
        assert(c * 0 == 0);
    }
}

/// Multiplying by `x + c0` multiplies the value at `x` by `x + c0`.
pub proof fn lemma_eval_linear_product(a: Seq<int>, c0: int, x: int)
    ensures
        eval(linear_product(a, c0), x) == (x + c0) * eval(a, x),
    decreases a.len(),
{
    let c = linear_product(a, c0);
    if a.len() == 0 {
        assert(c0 * 0 == 0);
        assert(c[0] == 0);
        assert(c.skip(1).len() == 0);
        assert(eval(c.skip(1), x) == 0);
        assert(x * 0 == 0);
        assert((x + c0) * 0 == 0);
    } else {
        let a1 = a.skip(1);
        let c1 = linear_product(a1, c0);
        let t = c.skip(1);
        lemma_eval_linear_product(a1, c0, x);
        assert(t.len() == c1.len());
        assert(t[0] == c1[0] + a[0]) by {
            assert(coeff(a1, 0) == coeff(a, 1));
        }
        assert(t.skip(1) =~= c1.skip(1)) by {
            assert forall|j: int| 0 <= j < t.len() - 1 implies t.skip(1)[j] == c1.skip(1)[j] by {
                assert(coeff(a1, j) == coeff(a, j + 1));
                assert(coeff(a1, j + 1) == coeff(a, j + 2));
            }
        }
        let e1 = eval(a1, x);
        let r1 = eval(c1.skip(1), x);
        assert(eval(c1, x) == c1[0] + x * r1);
        assert(eval(t, x) == t[0] + x * r1);
        assert(eval(c, x) == c[0] + x * eval(t, x));
        assert(c[0] == c0 * a[0]);
        assert(eval(a, x) == a[0] + x * e1);
        assert(eval(c, x) == (x + c0) * eval(a, x)) by (nonlinear_arith)
            requires
                eval(c, x) == c0 * a[0] + x * (c1[0] + a[0] + x * r1),
                c1[0] + x * r1 == (x + c0) * e1,
                eval(a, x) == a[0] + x * e1,
        ;
    }
}

/// Appending a coefficient adds its term to the value.
pub proof fn lemma_eval_push(s: Seq<int>, c: int, x: int)
    ensures
        eval(s.push(c), x) == eval(s, x) + c * pow(x, s.len()),
    decreases s.len(),
{
    let t = s.push(c);
    assert(eval(t, x) == t[0] + x * eval(t.skip(1), x));
    if s.len() == 0 {
        assert(t.skip(1).len() == 0);
        assert(eval(t.skip(1), x) == 0);
        assert(t[0] == c);
        lemma_pow0(x);
        assert(x * 0 == 0);
        assert(c * 1 == c);
    } else {
        assert(t.skip(1) =~= s.skip(1).push(c));
        assert(t[0] == s[0]);
        lemma_eval_push(s.skip(1), c, x);
        let e = eval(s.skip(1), x);
        let w = pow(x, (s.len() - 1) as nat);
        assert(eval(t.skip(1), x) == e + c * w);
        assert(eval(s, x) == s[0] + x * e);
        lemma_pow1(x);
        lemma_pow_adds(x, 1, (s.len() - 1) as nat);
        assert(pow(x, s.len()) == x * w);
        assert(x * (e + c * w) == x * e + c * (x * w)) by (nonlinear_arith);
    }
}

/// Moving the coefficients up by `m` degrees multiplies the value by the
/// `m`-th power of `x`.
pub proof fn lemma_eval_shifted(a: Seq<int>, m: nat, len: nat, x: int)
    requires
        len >= a.len() + m,
    ensures
        cong(eval(shifted(a, m as int, len), x), pow(x, m) * eval(a, x)),
    decreases m,
{
    let s = shifted(a, m as int, len);
    if m == 0 {
        assert forall|k: int| cong(#[trigger] coeff(s, k), coeff(a, k)) by {
        }
        lemma_eval_same_poly(s, a, x);
        lemma_pow0(x);
        assert(1 * eval(a, x) == eval(a, x));
    } else {
        let s1 = shifted(a, m - 1, (len - 1) as nat);
        assert(s.skip(1) =~= s1);
        assert(s[0] == 0);
        lemma_eval_shifted(a, (m - 1) as nat, (len - 1) as nat, x);
        let w = pow(x, (m - 1) as nat);
        lemma_cong_mul(x, x, eval(s1, x), w * eval(a, x));
        lemma_pow1(x);
        lemma_pow_adds(x, 1, (m - 1) as nat);
        assert(x * (w * eval(a, x)) == (x * w) * eval(a, x)) by (nonlinear_arith);
    }
}

/// The value of a partial product is the product of the values.
pub proof fn lemma_eval_partial_product(a: Seq<int>, b: Seq<int>, n: nat, x: int)
    requires
        n <= b.len(),
    ensures
        cong(eval(partial_product(a, b, n), x), eval(a, x) * eval(b.take(n as int), x)),
    decreases n,
{
    let p = partial_product(a, b, n);
    if n == 0 {
        let e = Seq::<int>::empty();
        assert forall|k: int| cong(#[trigger] coeff(p, k), coeff(e, k)) by {
        }
        lemma_eval_same_poly(p, e, x);
        assert(b.take(0).len() == 0);
        assert(eval(a, x) * 0 == 0);
    } else {
        let m = (n - 1) as nat;
        let prev = partial_product(a, b, m);
        let c = b[m as int];
        let sh = shifted(a, m as int, p.len());
        lemma_eval_partial_product(a, b, m, x);
        lemma_eval_shifted(a, m, p.len(), x);
        // p == prev + c * sh, coefficient by coefficient
        let scaled = p_scale(c, sh);
        assert forall|k: int| cong(#[trigger] coeff(scaled, k), c * coeff(sh, k)) by {
            lemma_p_scale_coeff(c, sh, k);
        }
        lemma_eval_scaled(sh, c, scaled, x);
        assert forall|k: int| cong(#[trigger] coeff(p, k), coeff(prev, k) + coeff(scaled, k)) by {
            lemma_p_scale_coeff(c, sh, k);
            if !(0 <= k < p.len()) {
                assert(c * 0 == 0);
            }
        }
        lemma_eval_sum(prev, scaled, p, x);
        assert(b.take(n as int) =~= b.take(m as int).push(c));
        lemma_eval_push(b.take(m as int), c, x);
        let ea = eval(a, x);
        let eb = eval(b.take(m as int), x);
        let w = pow(x, m);
        lemma_cong_mul(c, c, eval(sh, x), w * ea);
        lemma_cong_add(eval(prev, x), ea * eb, eval(scaled, x), c * (w * ea));
        assert(ea * eb + c * (w * ea) == ea * (eb + c * w)) by (nonlinear_arith);
    }
}

/// The value of a product is the product of the values.
pub proof fn lemma_eval_product(a: Seq<int>, b: Seq<int>, x: int)
    ensures
        cong(eval(p_mul(a, b), x), eval(a, x) * eval(b, x)),
{
    lemma_eval_partial_product(a, b, b.len(), x);
    assert(b.take(b.len() as int) =~= b);
    assert(p_mul(a, b) =~= partial_product(a, b, b.len()));
}

/// No product contributes where one factor has no coefficient in range.
pub proof fn lemma_conv_out_of_range(a: Seq<int>, b: Seq<int>, k: int, n: nat)
    requires
        n <= b.len(),
        k < 0 || k >= a.len() + n - 1,
    ensures
        conv(a, b, k, n) == 0,
    decreases n,
{
    if n > 0 {
        lemma_conv_out_of_range(a, b, k, (n - 1) as nat);
        assert(coeff(a, k - (n - 1)) == 0);
        assert(b[n - 1] * 0 == 0);
    }
}

/// The product with the zero polynomial has no coefficients.
pub proof fn lemma_conv_empty(a: Seq<int>, b: Seq<int>, k: int, n: nat)
    requires
        a.len() == 0,
        n <= b.len(),
    ensures
        conv(a, b, k, n) == 0,
    decreases n,
{
    if n > 0 {
        lemma_conv_empty(a, b, k, (n - 1) as nat);
        assert(b[n - 1] * 0 == 0);
    }
}

/// The product depends on the first factor through its coefficients only.
pub proof fn lemma_conv_same_coeffs(a: Seq<int>, a2: Seq<int>, b: Seq<int>, k: int, n: nat)
    requires
        n <= b.len(),
        forall|i: int| #[trigger] coeff(a, i) == coeff(a2, i),
    ensures
        conv(a, b, k, n) == conv(a2, b, k, n),
    decreases n,
{
    if n > 0 {
        lemma_conv_same_coeffs(a, a2, b, k, (n - 1) as nat);
        assert(coeff(a, k - (n - 1)) == coeff(a2, k - (n - 1)));
    }
}

/// The product with a polynomial whose coefficients are all zero is zero.
pub proof fn lemma_conv_zero(a: Seq<int>, b: Seq<int>, k: int, n: nat)
    requires
        n <= b.len(),
        forall|i: int| #[trigger] coeff(a, i) == 0,
    ensures
        conv(a, b, k, n) == 0,
    decreases n,
{
    if n > 0 {
        lemma_conv_zero(a, b, k, (n - 1) as nat);
        assert(coeff(a, k - (n - 1)) == 0);
        assert(b[n - 1] * 0 == 0);
    }
}

/// Changing one coefficient of the first factor changes the product by the
/// second factor, shifted and scaled by the change.
pub proof fn lemma_conv_update(a: Seq<int>, b: Seq<int>, t: int, c: int, k: int, n: nat)
    requires
        0 <= t < a.len(),
        n <= b.len(),
    ensures
        conv(a.update(t, c), b, k, n) == conv(a, b, k, n) + (if 0 <= k - t < n {
            b[k - t] * (c - a[t])
        } else {
            0
        }),
    decreases n,
{
    if n > 0 {
        let j = n - 1;
        lemma_conv_update(a, b, t, c, k, (n - 1) as nat);
        if k - j == t {
            assert(coeff(a.update(t, c), k - j) == c);
            assert(coeff(a, k - j) == a[t]);
            assert(b[j] * c == b[j] * a[t] + b[j] * (c - a[t])) by (nonlinear_arith);
        } else {
            assert(coeff(a.update(t, c), k - j) == coeff(a, k - j));
        }
    }
}

/// The product reads the first factor only where its indices reach.
pub proof fn lemma_conv_agree_above(a: Seq<int>, a2: Seq<int>, b: Seq<int>, i: int, n: nat, k: int)
    requires
        n <= b.len(),
        forall|t: int| t > k ==> #[trigger] coeff(a, t) == coeff(a2, t),
        n == 0 || i - (n - 1) > k,
    ensures
        conv(a, b, i, n) == conv(a2, b, i, n),
    decreases n,
{
    if n > 0 {
        lemma_conv_agree_above(a, a2, b, i, (n - 1) as nat, k);
        assert(coeff(a, i - (n - 1)) == coeff(a2, i - (n - 1)));
    }
}

/// Every coefficient of a sum, in and out of range.
pub proof fn lemma_p_add_coeff(a: Seq<int>, b: Seq<int>, k: int)
    ensures
        coeff(p_add(a, b), k) == coeff(a, k) + coeff(b, k),
{
}

/// Every coefficient of a multiple, in and out of range.
pub proof fn lemma_p_scale_coeff(c: int, a: Seq<int>, k: int)
    ensures
        coeff(p_scale(c, a), k) == c * coeff(a, k),
{
    if !(0 <= k < a.len()) {
        assert(c * 0 == 0);
    }
}

/// Every coefficient of a difference, in and out of range.
pub proof fn lemma_p_sub_coeff(a: Seq<int>, b: Seq<int>, k: int)
    ensures
        coeff(p_sub(a, b), k) == coeff(a, k) - coeff(b, k),
{
}

/// Every coefficient of a product, in and out of range.
pub proof fn lemma_p_mul_coeff(a: Seq<int>, b: Seq<int>, k: int)
    ensures
        coeff(p_mul(a, b), k) == mul_coeff(a, b, k),
{
    if !(0 <= k < a.len() + b.len()) {
        if a.len() == 0 {
            lemma_conv_empty(a, b, k, b.len());
        } else {
            lemma_conv_out_of_range(a, b, k, b.len());
        }
    }
}

/// A sequence without superfluous zeros is the normal form of every sequence
/// with the same coefficients.
pub proof fn lemma_normalized_unique(r: Seq<int>, q: Seq<int>)
    requires
        is_normal(r),
        forall|k: int| #[trigger] coeff(r, k) == coeff(q, k),
    ensures
        normalized(q) == r,
    decreases q.len(),
{
    if q.len() > 0 && q.last() == 0 {
        let q1 = q.drop_last();
        assert(coeff(r, q.len() - 1) == coeff(q, q.len() - 1));
        if r.len() >= q.len() {
            assert(coeff(r, r.len() - 1) == coeff(q, r.len() - 1));
            assert(false);
        }
        assert forall|k: int| #[trigger] coeff(r, k) == coeff(q1, k) by {
            assert(coeff(r, k) == coeff(q, k));
        }
        lemma_normalized_unique(r, q1);
    } else {
        if r.len() > q.len() {
            assert(coeff(r, r.len() - 1) == coeff(q, r.len() - 1));
            assert(false);
        }
        if q.len() > r.len() {
            assert(coeff(r, q.len() - 1) == coeff(q, q.len() - 1));
            assert(false);
        }
        assert forall|k: int| 0 <= k < r.len() implies r[k] == q[k] by {
            assert(coeff(r, k) == coeff(q, k));
        }
        assert(r =~= q);
    }
}

/// A sequence without superfluous zeros is its own normal form.
pub proof fn lemma_normal_is_normalized(p: Seq<int>)
    requires
        is_normal(p),
    ensures
        normalized(p) == p,
{
}

/// The normal form keeps the coefficients and drops superfluous zeros.
pub proof fn lemma_normalized_properties(q: Seq<int>)
    ensures
        is_normal(normalized(q)),
        normalized(q).len() <= q.len(),
        forall|k: int| #[trigger] coeff(normalized(q), k) == coeff(q, k),
    decreases q.len(),
{
    if q.len() > 0 && q.last() == 0 {
        lemma_normalized_properties(q.drop_last());
        assert forall|k: int| #[trigger] coeff(normalized(q), k) == coeff(q, k) by {
            assert(coeff(normalized(q.drop_last()), k) == coeff(q.drop_last(), k));
        }
    }
}

/// A canonical sequence without superfluous zeros is the canonical form of
/// every polynomial with congruent coefficients.
pub proof fn lemma_canon_unique(r: Seq<int>, p: Seq<int>)
    requires
        canonical(r),
        is_normal(r),
        same_poly(r, p),
    ensures
        r == canon(p),
{
    let q = reduced(p);
    lemma_small_mod(0, modulus() as nat);
    assert forall|k: int| #[trigger] coeff(r, k) == coeff(q, k) by {
        assert(cong(coeff(r, k), coeff(p, k)));
        if 0 <= k < p.len() {
            lemma_cong_reduce(p[k]);
            if 0 <= k < r.len() {
                assert(0 <= r[k] < modulus());
            }
            lemma_cong_canonical(coeff(r, k), q[k]);
        } else {
            if 0 <= k < r.len() {
                assert(0 <= r[k] < modulus());
                lemma_cong_canonical(r[k], 0);
            }
        }
    }
    lemma_normalized_unique(r, q);
}

/// The canonical form has congruent coefficients, is canonical and has no
/// superfluous zeros.
pub proof fn lemma_canon_properties(p: Seq<int>)
    ensures
        canonical(canon(p)),
        is_normal(canon(p)),
        same_poly(canon(p), p),
        canon(p).len() <= p.len(),
{
    let q = reduced(p);
    lemma_normalized_properties(q);
    assert forall|i: int| 0 <= i < canon(p).len() implies 0 <= #[trigger] canon(p)[i] < modulus() by {
        assert(coeff(canon(p), i) == coeff(q, i));
    }
    assert forall|k: int| cong(#[trigger] coeff(canon(p), k), coeff(p, k)) by {
        assert(coeff(canon(p), k) == coeff(q, k));
        if 0 <= k < p.len() {
            lemma_cong_reduce(p[k]);
        }
    }
}

} // verus!
