//! Univariate polynomials over the scalar field, as coefficient vectors in
//! increasing order of degree.
//!
//! The results of the arithmetic are stated coefficient by coefficient and as
//! canonical forms of the integer polynomials of [`crate::ark::poly_spec`].
use crate::ark::field::{modulus, Scalar};
use rand::rngs::StdRng;
use vstd::arithmetic::div_mod::lemma_small_mod;
use vstd::arithmetic::power::{lemma_pow0, pow};
use vstd::prelude::*;

pub use crate::ark::division::{
    divide_by_linear,
    divide_with_q_and_r,
    divides_as,
    division,
    field_inv,
    has_inverse,
    horner_tail,
    is_division,
    is_inverse,
    lemma_division_is_quotient,
    lemma_division_unique,
    lemma_horner_tail_is_eval,
    lemma_inverse_unique,
    lemma_linear_quotient,
    lemma_linear_quotient_coeff,
    lemma_quotient_coeffs_unique,
    lemma_remainder_values,
    lemma_synthetic_division,
    lemma_synthetic_division_from,
    lemma_zero_has_no_inverse,
    quotient,
    quotient_by_linear,
    remainder,
};
pub use crate::ark::poly_spec::{
    all_wf,
    canon,
    canonical,
    coeff,
    cong,
    conv,
    eval,
    is_normal,
    lemma_canon_properties,
    lemma_canon_unique,
    lemma_cong_add,
    lemma_cong_canonical,
    lemma_cong_mul,
    lemma_cong_reduce,
    lemma_cong_sub,
    lemma_conv_agree_above,
    lemma_conv_empty,
    lemma_conv_out_of_range,
    lemma_conv_same_coeffs,
    lemma_conv_update,
    lemma_conv_zero,
    lemma_eval_cong,
    lemma_eval_linear_product,
    lemma_eval_partial_product,
    lemma_eval_product,
    lemma_eval_push,
    lemma_eval_same_poly,
    lemma_eval_scaled,
    lemma_eval_shifted,
    lemma_eval_sum,
    lemma_eval_unfold,
    lemma_normal_is_normalized,
    lemma_normalized_properties,
    lemma_normalized_unique,
    lemma_p_add_coeff,
    lemma_p_mul_coeff,
    lemma_p_scale_coeff,
    lemma_p_sub_coeff,
    lemma_vals_canonical,
    linear_product,
    mul_coeff,
    normalized,
    p_add,
    p_mul,
    p_scale,
    p_sub,
    partial_product,
    reduced,
    power_values,
    same_poly,
    shifted,
    vals,
};

verus! {

/// The value of `coeffs` at `x` in the field, by Horner's rule.
pub fn evaluate(coeffs: &Vec<Scalar>, x: &Scalar) -> (r: Scalar)
    requires
        all_wf(coeffs@),
        x.wf(),
    ensures
        r.wf(),
        r@ == eval(vals(coeffs@), x@) % modulus(),
        0 <= eval(vals(coeffs@), x@) < modulus() ==> r@ == eval(vals(coeffs@), x@),
{
    let n = coeffs.len();
    let mut acc = Scalar::zero();
    let mut i: usize = n;
    proof {
        assert(vals(coeffs@).subrange(n as int, n as int).len() == 0);
        lemma_small_mod(0, modulus() as nat);
    }
    while i > 0
        invariant
            0 <= i <= n,
            n == coeffs.len(),
            all_wf(coeffs@),
            x.wf(),
            acc.wf(),
            acc@ == eval(vals(coeffs@).subrange(i as int, n as int), x@) % modulus(),
        decreases i,
    {
        let ghost tail = vals(coeffs@).subrange(i as int, n as int);
        i = i - 1;
        let c = coeffs[i];
        assert(c.wf());
        let t = acc.mul(x);
        let next = t.add(&c);
        proof {
            let cur = vals(coeffs@).subrange(i as int, n as int);
            assert(cur.skip(1) =~= tail);
            assert(cur[0] == c@);
            let e = eval(tail, x@);
            lemma_cong_reduce(e);
            lemma_cong_mul(acc@, e, x@, x@);
            lemma_cong_reduce(acc@ * x@);
            lemma_cong_add(t@, e * x@, c@, c@);
            lemma_cong_reduce(t@ + c@);
            assert(e * x@ + c@ == eval(cur, x@)) by (nonlinear_arith)
                requires
                    eval(cur, x@) == c@ + x@ * e,
            ;
            lemma_small_mod(next@ as nat, modulus() as nat);
        }
        acc = next;
    }
    proof {
        assert(vals(coeffs@).subrange(0, n as int) =~= vals(coeffs@));
        let e = eval(vals(coeffs@), x@);
        if 0 <= e < modulus() {
            lemma_small_mod(e as nat, modulus() as nat);
        }
    }
    acc
}

/// The first `len` powers of `element`, starting with one.
pub fn powers(element: Scalar, len: usize) -> (r: Vec<Scalar>)
    requires
        element.wf(),
    ensures
        r.len() == len,
        all_wf(r@),
        forall|i: int| 0 <= i < len ==> (#[trigger] r[i])@ == pow(element@, i as nat) % modulus(),
        vals(r@) == power_values(element@, len as nat),
{
    let mut r: Vec<Scalar> = Vec::new();
    let mut cur = Scalar::one();
    let mut i: usize = 0;
    proof {
        lemma_pow0(element@);
        lemma_small_mod(1, modulus() as nat);
    }
    while i < len
        invariant
            0 <= i <= len,
            element.wf(),
            cur.wf(),
            cur@ == pow(element@, i as nat) % modulus(),
            r.len() == i,
            all_wf(r@),
            forall|j: int| 0 <= j < i ==> (#[trigger] r[j])@ == pow(element@, j as nat) % modulus(),
        decreases len - i,
    {
        r.push(cur);
        let next = element.mul(&cur);
        proof {
            let e = element@;
            let p = pow(e, i as nat);
            lemma_cong_reduce(p);
            lemma_cong_mul(e, e, cur@, p);
            lemma_cong_reduce(e * cur@);
            assert(pow(e, (i + 1) as nat) == e * p) by {
                reveal(pow);
            }
            lemma_small_mod(next@ as nat, modulus() as nat);
        }
        cur = next;
        i = i + 1;
    }
    r
}

/// Drops the zero coefficients of highest degree.
pub fn trim(v: Vec<Scalar>) -> (r: Vec<Scalar>)
    ensures
        r.len() <= v.len(),
        r@ == v@.take(r.len() as int),
        is_normal(vals(r@)),
        forall|i: int| r.len() <= i < v.len() ==> (#[trigger] v[i])@ == 0,
        forall|k: int| #[trigger] coeff(vals(r@), k) == coeff(vals(v@), k),
        all_wf(v@) ==> all_wf(r@),
{
    let mut r = v;
    while r.len() > 0 && r[r.len() - 1].is_zero()
        invariant
            r.len() <= v.len(),
            r@ == v@.take(r.len() as int),
            forall|i: int| r.len() <= i < v.len() ==> (#[trigger] v[i])@ == 0,
        decreases r.len(),
    {
        r.pop();
    }
    proof {
        assert forall|k: int| #[trigger] coeff(vals(r@), k) == coeff(vals(v@), k) by {
            if 0 <= k < v.len() && k >= r.len() {
                assert(v[k]@ == 0);
            }
        }
        if r.len() > 0 {
            assert(vals(r@).last() == r[r.len() - 1]@);
        }
    }
    r
}

/// The polynomial `a` multiplied by the scalar `c`.
pub fn scale(a: &Vec<Scalar>, c: &Scalar) -> (r: Vec<Scalar>)
    requires
        all_wf(a@),
        c.wf(),
    ensures
        all_wf(r@),
        is_normal(vals(r@)),
        r.len() <= a.len(),
        forall|k: int| cong(#[trigger] coeff(vals(r@), k), c@ * coeff(vals(a@), k)),
        vals(r@) == canon(p_scale(c@, vals(a@))),
{
    let mut raw: Vec<Scalar> = Vec::new();
    let mut i: usize = 0;
    while i < a.len()
        invariant
            0 <= i <= a.len(),
            raw.len() == i,
            all_wf(a@),
            c.wf(),
            all_wf(raw@),
            forall|k: int| 0 <= k < i ==> cong(#[trigger] raw[k]@, c@ * a[k]@),
        decreases a.len() - i,
    {
        let x = a[i];
        assert(x.wf());
        let y = c.mul(&x);
        proof {
            lemma_cong_reduce(c@ * x@);
        }
        raw.push(y);
        i = i + 1;
    }
    let r = trim(raw);
    proof {
        assert forall|k: int| cong(#[trigger] coeff(vals(r@), k), c@ * coeff(vals(a@), k)) by {
            assert(coeff(vals(r@), k) == coeff(vals(raw@), k));
            if 0 <= k < a.len() {
                assert(cong(raw[k]@, c@ * a[k]@));
            } else {
                assert(c@ * 0 == 0);
            }
        }
        assert forall|k: int| cong(#[trigger] coeff(vals(r@), k), coeff(p_scale(c@, vals(a@)), k)) by {
            lemma_p_scale_coeff(c@, vals(a@), k);
            assert(cong(coeff(vals(r@), k), c@ * coeff(vals(a@), k)));
        }
        lemma_vals_canonical(r@);
        lemma_canon_unique(vals(r@), p_scale(c@, vals(a@)));
    }
    r
}

/// The sum of the polynomials `a` and `b`.
pub fn add(a: &Vec<Scalar>, b: &Vec<Scalar>) -> (r: Vec<Scalar>)
    requires
        all_wf(a@),
        all_wf(b@),
    ensures
        all_wf(r@),
        is_normal(vals(r@)),
        r.len() <= a.len() || r.len() <= b.len(),
        forall|k: int| cong(#[trigger] coeff(vals(r@), k), coeff(vals(a@), k) + coeff(vals(b@), k)),
        vals(r@) == canon(p_add(vals(a@), vals(b@))),
{
    let n = if a.len() > b.len() { a.len() } else { b.len() };
    let mut raw: Vec<Scalar> = Vec::new();
    let mut i: usize = 0;
    while i < n
        invariant
            0 <= i <= n,
            n >= a.len(),
            n >= b.len(),
            raw.len() == i,
            all_wf(a@),
            all_wf(b@),
            all_wf(raw@),
            forall|k: int| 0 <= k < i ==> cong(#[trigger] raw[k]@, coeff(vals(a@), k) + coeff(vals(b@), k)),
        decreases n - i,
    {
        let x = if i < a.len() { a[i] } else { Scalar::zero() };
        let y = if i < b.len() { b[i] } else { Scalar::zero() };
        assert(x.wf() && y.wf());
        let z = x.add(&y);
        proof {
            lemma_cong_reduce(x@ + y@);
        }
        raw.push(z);
        i = i + 1;
    }
    let r = trim(raw);
    proof {
        assert forall|k: int| cong(#[trigger] coeff(vals(r@), k), coeff(vals(a@), k) + coeff(vals(b@), k)) by {
            assert(coeff(vals(r@), k) == coeff(vals(raw@), k));
            if 0 <= k < n {
                assert(cong(raw[k]@, coeff(vals(a@), k) + coeff(vals(b@), k)));
            }
        }
        assert forall|k: int| cong(#[trigger] coeff(vals(r@), k), coeff(p_add(vals(a@), vals(b@)), k)) by {
            lemma_p_add_coeff(vals(a@), vals(b@), k);
            assert(cong(coeff(vals(r@), k), coeff(vals(a@), k) + coeff(vals(b@), k)));
        }
        lemma_vals_canonical(r@);
        lemma_canon_unique(vals(r@), p_add(vals(a@), vals(b@)));
    }
    r
}

/// The difference of the polynomials `a` and `b`.
pub fn sub(a: &Vec<Scalar>, b: &Vec<Scalar>) -> (r: Vec<Scalar>)
    requires
        all_wf(a@),
        all_wf(b@),
    ensures
        all_wf(r@),
        is_normal(vals(r@)),
        r.len() <= a.len() || r.len() <= b.len(),
        forall|k: int| cong(#[trigger] coeff(vals(r@), k), coeff(vals(a@), k) - coeff(vals(b@), k)),
        vals(r@) == canon(p_sub(vals(a@), vals(b@))),
{
    let n = if a.len() > b.len() { a.len() } else { b.len() };
    let mut raw: Vec<Scalar> = Vec::new();
    let mut i: usize = 0;
    while i < n
        invariant
            0 <= i <= n,
            n >= a.len(),
            n >= b.len(),
            raw.len() == i,
            all_wf(a@),
            all_wf(b@),
            all_wf(raw@),
            forall|k: int| 0 <= k < i ==> cong(#[trigger] raw[k]@, coeff(vals(a@), k) - coeff(vals(b@), k)),
        decreases n - i,
    {
        let x = if i < a.len() { a[i] } else { Scalar::zero() };
        let y = if i < b.len() { b[i] } else { Scalar::zero() };
        assert(x.wf() && y.wf());
        let z = x.sub(&y);
        proof {
            lemma_cong_reduce(x@ - y@);
        }
        raw.push(z);
        i = i + 1;
    }
    let r = trim(raw);
    proof {
        assert forall|k: int| cong(#[trigger] coeff(vals(r@), k), coeff(vals(a@), k) - coeff(vals(b@), k)) by {
            assert(coeff(vals(r@), k) == coeff(vals(raw@), k));
            if 0 <= k < n {
                assert(cong(raw[k]@, coeff(vals(a@), k) - coeff(vals(b@), k)));
            }
        }
        assert forall|k: int| cong(#[trigger] coeff(vals(r@), k), coeff(p_sub(vals(a@), vals(b@)), k)) by {
            lemma_p_sub_coeff(vals(a@), vals(b@), k);
            assert(cong(coeff(vals(r@), k), coeff(vals(a@), k) - coeff(vals(b@), k)));
        }
        lemma_vals_canonical(r@);
        lemma_canon_unique(vals(r@), p_sub(vals(a@), vals(b@)));
    }
    r
}

/// The product of the polynomials `a` and `b`, coefficient by coefficient.
pub fn naive_mul(a: &Vec<Scalar>, b: &Vec<Scalar>) -> (r: Vec<Scalar>)
    requires
        all_wf(a@),
        all_wf(b@),
        a.len() + b.len() <= usize::MAX,
    ensures
        all_wf(r@),
        is_normal(vals(r@)),
        r.len() == 0 || r.len() + 1 <= a.len() + b.len(),
        forall|k: int| cong(#[trigger] coeff(vals(r@), k), mul_coeff(vals(a@), vals(b@), k)),
        vals(r@) == canon(p_mul(vals(a@), vals(b@))),
{
    let ghost av = vals(a@);
    let ghost bv = vals(b@);
    let total = if a.len() == 0 || b.len() == 0 { 0 } else { a.len() + b.len() - 1 };
    let mut raw: Vec<Scalar> = Vec::new();
    let mut k: usize = 0;
    while k < total
        invariant
            0 <= k <= total,
            total == (if a.len() == 0 || b.len() == 0 { 0 } else { a.len() + b.len() - 1 }),
            raw.len() == k,
            all_wf(a@),
            all_wf(b@),
            all_wf(raw@),
            av == vals(a@),
            bv == vals(b@),
            forall|i: int| 0 <= i < k ==> cong(#[trigger] raw[i]@, mul_coeff(av, bv, i)),
        decreases total - k,
    {
        let mut acc = Scalar::zero();
        let mut j: usize = 0;
        while j < b.len()
            invariant
                0 <= j <= b.len(),
                k < total,
                total == (if a.len() == 0 || b.len() == 0 { 0 } else { a.len() + b.len() - 1 }),
                all_wf(a@),
                all_wf(b@),
                av == vals(a@),
                bv == vals(b@),
                acc.wf(),
                cong(acc@, conv(av, bv, k as int, j as nat)),
            decreases b.len() - j,
        {
            if j <= k && k - j < a.len() {
                let x = a[k - j];
                let y = b[j];
                assert(x.wf() && y.wf());
                let t = y.mul(&x);
                let next = acc.add(&t);
                proof {
                    lemma_cong_reduce(y@ * x@);
                    lemma_cong_add(acc@, conv(av, bv, k as int, j as nat), t@, y@ * x@);
                    lemma_cong_reduce(acc@ + t@);
                    assert(coeff(av, k - j) == x@);
                    assert(bv[j as int] == y@);
                }
                acc = next;
            } else {
                proof {
                    assert(coeff(av, k - j) == 0);
                    assert(bv[j as int] * 0 == 0);
                }
            }
            j = j + 1;
        }
        raw.push(acc);
        k = k + 1;
    }
    let r = trim(raw);
    proof {
        assert forall|i: int| cong(#[trigger] coeff(vals(r@), i), mul_coeff(av, bv, i)) by {
            assert(coeff(vals(r@), i) == coeff(vals(raw@), i));
            if 0 <= i < total {
                assert(cong(raw[i]@, mul_coeff(av, bv, i)));
            } else if a.len() == 0 {
                lemma_conv_empty(av, bv, i, bv.len());
            } else if b.len() == 0 {
            } else {
                lemma_conv_out_of_range(av, bv, i, bv.len());
            }
        }
        assert forall|k: int| cong(#[trigger] coeff(vals(r@), k), coeff(p_mul(av, bv), k)) by {
            lemma_p_mul_coeff(av, bv, k);
            assert(cong(coeff(vals(r@), k), mul_coeff(av, bv, k)));
        }
        lemma_vals_canonical(r@);
        lemma_canon_unique(vals(r@), p_mul(av, bv));
    }
    r
}

/// A copy of the coefficients.
pub fn copy_of(v: &Vec<Scalar>) -> (r: Vec<Scalar>)
    ensures
        r@ == v@,
{
    let mut r: Vec<Scalar> = Vec::new();
    let mut i: usize = 0;
    while i < v.len()
        invariant
            0 <= i <= v.len(),
            r@ == v@.take(i as int),
        decreases v.len() - i,
    {
        r.push(v[i]);
        proof {
            assert(v@.take(i + 1) =~= v@.take(i as int).push(v[i as int]));
        }
        i = i + 1;
    }
    proof {
        assert(v@.take(v.len() as int) =~= v@);
    }
    r
}

/// A vector of `n` zero scalars.
pub fn zeros(n: usize) -> (r: Vec<Scalar>)
    ensures
        r.len() == n,
        all_wf(r@),
        forall|i: int| 0 <= i < n ==> (#[trigger] r[i])@ == 0,
{
    let mut r: Vec<Scalar> = Vec::new();
    let mut i: usize = 0;
    while i < n
        invariant
            0 <= i <= n,
            r.len() == i,
            all_wf(r@),
            forall|j: int| 0 <= j < i ==> (#[trigger] r[j])@ == 0,
        decreases n - i,
    {
        r.push(Scalar::zero());
        i = i + 1;
    }
    r
}

/// A polynomial in coefficient form, without superfluous zero coefficients.
#[derive(Clone, Debug, PartialEq, Eq)]
pub struct DensePolynomial {
    /// The coefficients, in increasing order of degree.
    pub coeffs: Vec<Scalar>,
}

impl View for DensePolynomial {
    type V = Seq<int>;

    open spec fn view(&self) -> Seq<int> {
        vals(self.coeffs@)
    }
}

impl DensePolynomial {
    /// Whether the coefficients are canonical and the highest is not zero.
    pub open spec fn wf(&self) -> bool {
        all_wf(self.coeffs@) && is_normal(self@)
    }

    /// Whether the polynomial is what the coefficients leave without their
    /// zeros of highest degree: it holds the first of them, the others are
    /// zero, and it is their canonical form.
    pub open spec fn is_trimmed_from(&self, coeffs: Seq<Scalar>) -> bool {
        &&& self.coeffs.len() <= coeffs.len()
        &&& self.coeffs@ == coeffs.take(self.coeffs.len() as int)
        &&& forall|i: int| self.coeffs.len() <= i < coeffs.len() ==> (#[trigger] coeffs[i])@ == 0
        &&& self@ == canon(vals(coeffs))
    }

    /// The degree: one less than the number of coefficients, and zero for
    /// the zero polynomial.
    pub open spec fn spec_degree(&self) -> nat {
        if self.coeffs.len() == 0 {
            0
        } else {
            (self.coeffs.len() - 1) as nat
        }
    }

    /// The polynomial with the given coefficients, without the zeros of
    /// highest degree.
    pub fn from_coefficients_vec(coeffs: Vec<Scalar>) -> (r: DensePolynomial)
        requires
            all_wf(coeffs@),
        ensures
            r.wf(),
            r.coeffs.len() <= coeffs.len(),
            r.coeffs@ == coeffs@.take(r.coeffs.len() as int),
            forall|i: int| r.coeffs.len() <= i < coeffs.len() ==> (#[trigger] coeffs[i])@ == 0,
            r@ == canon(vals(coeffs@)),
    {
        let r = DensePolynomial { coeffs: trim(coeffs) };
        proof {
            lemma_vals_canonical(r.coeffs@);
            lemma_canon_unique(r@, vals(coeffs@));
        }
        r
    }

    /// The polynomial with a copy of the given coefficients, without the
    /// zeros of highest degree.
    pub fn from_coefficients_slice(coeffs: &[Scalar]) -> (r: DensePolynomial)
        requires
            all_wf(coeffs@),
        ensures
            r.wf(),
            r.coeffs.len() <= coeffs.len(),
            r.coeffs@ == coeffs@.take(r.coeffs.len() as int),
            forall|i: int| r.coeffs.len() <= i < coeffs.len() ==> (#[trigger] coeffs[i])@ == 0,
            r@ == canon(vals(coeffs@)),
    {
        let mut v: Vec<Scalar> = Vec::new();
        let mut i: usize = 0;
        while i < coeffs.len()
            invariant
                0 <= i <= coeffs.len(),
                v@ == coeffs@.take(i as int),
            decreases coeffs.len() - i,
        {
            v.push(coeffs[i]);
            proof {
                assert(coeffs@.take(i + 1) =~= coeffs@.take(i as int).push(coeffs[i as int]));
            }
            i = i + 1;
        }
        proof {
            assert(coeffs@.take(coeffs.len() as int) =~= coeffs@);
        }
        let r = DensePolynomial { coeffs: trim(v) };
        proof {
            lemma_vals_canonical(r.coeffs@);
            lemma_canon_unique(r@, vals(coeffs@));
        }
        r
    }

    /// The zero polynomial.
    pub fn zero() -> (r: DensePolynomial)
        ensures
            r.wf(),
            r.coeffs.len() == 0,
    {
        DensePolynomial { coeffs: Vec::new() }
    }

    /// Whether this is the zero polynomial.
    pub fn is_zero(&self) -> (r: bool)
        ensures
            r == (self.coeffs.len() == 0),
    {
        self.coeffs.len() == 0
    }

    /// The degree of the polynomial.
    pub fn degree(&self) -> (r: usize)
        ensures
            r == self.spec_degree(),
    {
        if self.coeffs.len() == 0 {
            0
        } else {
            self.coeffs.len() - 1
        }
    }

    /// The value of the polynomial at `point`.
    pub fn evaluate(&self, point: &Scalar) -> (r: Scalar)
        requires
            self.wf(),
            point.wf(),
        ensures
            r.wf(),
            r@ == eval(self@, point@) % modulus(),
    {
        evaluate(&self.coeffs, point)
    }

    /// A polynomial with `degree + 1` coefficients drawn from `rng`, without
    /// the zeros of highest degree.
    pub fn rand(degree: usize, rng: &mut StdRng) -> (r: DensePolynomial)
        requires
            degree < usize::MAX,
        ensures
            r.wf(),
            r.coeffs.len() <= degree + 1,
            exists|drawn: Seq<Scalar>|
                drawn.len() == degree + 1 && all_wf(drawn) && #[trigger] r.is_trimmed_from(drawn),
    {
        let mut v: Vec<Scalar> = Vec::new();
        let mut i: usize = 0;
        while i <= degree
            invariant
                0 <= i <= degree + 1,
                degree < usize::MAX,
                v.len() == i,
                all_wf(v@),
            decreases degree + 1 - i,
        {
            let c = Scalar::rand(rng);
            v.push(c);
            i = i + 1;
        }
        let ghost drawn = v@;
        let r = DensePolynomial::from_coefficients_vec(v);
        proof {
            assert(r.is_trimmed_from(drawn));
        }
        r
    }
}

} // verus!
