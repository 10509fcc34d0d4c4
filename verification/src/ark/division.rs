//! Division of polynomials over the scalar field: long division by any
//! polynomial that is not zero, and synthetic division by `x - z`.
//!
//! The quotient and the remainder of a division are the only pair with
//! `f == q * d + r` and `r` shorter than `d`, where the highest coefficient of
//! `d` has an inverse. Division by `x - z` leaves the value at `z` as the
//! remainder.
use crate::ark::field::{modulus, Scalar};
use crate::ark::poly::{copy_of, trim, zeros};
use crate::ark::poly_spec::{
    all_wf, canonical, coeff, cong, conv, eval, is_normal, lemma_cong_add, lemma_cong_canonical,
    lemma_cong_mul, lemma_cong_reduce, lemma_cong_sub, lemma_conv_agree_above,
    lemma_conv_same_coeffs, lemma_conv_update, lemma_conv_zero, lemma_eval_product,
    lemma_eval_sum, lemma_normal_is_normalized, lemma_normalized_unique, lemma_p_mul_coeff,
    lemma_vals_canonical, mul_coeff, p_mul, vals,
};
use vstd::arithmetic::div_mod::{lemma_mul_mod_noop_right, lemma_small_mod};
use vstd::prelude::*;

verus! {

/// Whether `r` is the canonical inverse of `a` in the field.
pub open spec fn is_inverse(r: int, a: int) -> bool {
    0 <= r < modulus() && (r * a) % modulus() == 1
}

/// Whether `a` has an inverse in the field.
pub open spec fn has_inverse(a: int) -> bool {
    exists|r: int| is_inverse(r, a)
}

/// The canonical inverse of `a` in the field, where it has one.
pub open spec fn field_inv(a: int) -> int {
    choose|r: int| is_inverse(r, a)
}

/// An element has at most one canonical inverse.
pub proof fn lemma_inverse_unique(r1: int, r2: int, a: int)
    requires
        is_inverse(r1, a),
        is_inverse(r2, a),
    ensures
        r1 == r2,
{
    lemma_small_mod(1, modulus() as nat);
    // r1 == r1 * (r2 * a) == (r1 * a) * r2 == r2
    lemma_cong_mul(r1, r1, r2 * a, 1);
    lemma_cong_mul(r1 * a, 1, r2, r2);
    assert(r1 * (r2 * a) == (r1 * a) * r2) by (nonlinear_arith);
    assert(r1 * 1 == r1 && 1 * r2 == r2);
    lemma_cong_canonical(r1, r2);
}

/// Nothing congruent to zero has an inverse.
pub proof fn lemma_zero_has_no_inverse(a: int)
    requires
        a % modulus() == 0,
    ensures
        !has_inverse(a),
{
    assert forall|r: int| !is_inverse(r, a) by {
        lemma_mul_mod_noop_right(r, a, modulus());
        assert(r * 0 == 0);
        lemma_small_mod(0, modulus() as nat);
    }
}

/// Whether `q` and `r` are the quotient and the remainder of `f` by `d`:
/// `f == q * d + r` coefficient by coefficient in the field, with `r` shorter
/// than `d`, both without superfluous zeros.
pub open spec fn is_division(f: Seq<int>, d: Seq<int>, q: Seq<int>, r: Seq<int>) -> bool {
    &&& canonical(q)
    &&& canonical(r)
    &&& is_normal(q)
    &&& is_normal(r)
    &&& r.len() < d.len()
    &&& (q.len() + d.len() <= f.len() + 1 || q.len() == 0)
    &&& forall|k: int| cong(#[trigger] coeff(f, k), mul_coeff(q, d, k) + coeff(r, k))
}

/// Whether the pair holds the quotient and the remainder of `f` by `d`.
pub open spec fn divides_as(f: Seq<int>, d: Seq<int>, qr: (Seq<int>, Seq<int>)) -> bool {
    is_division(f, d, qr.0, qr.1)
}

/// The quotient and the remainder of `f` by `d` in the field.
pub open spec fn division(f: Seq<int>, d: Seq<int>) -> (Seq<int>, Seq<int>) {
    choose|qr: (Seq<int>, Seq<int>)| divides_as(f, d, qr)
}

/// The quotient of `f` by `d` in the field.
pub open spec fn quotient(f: Seq<int>, d: Seq<int>) -> Seq<int> {
    division(f, d).0
}

/// The remainder of `f` by `d` in the field.
pub open spec fn remainder(f: Seq<int>, d: Seq<int>) -> Seq<int> {
    division(f, d).1
}

/// Two divisions of `f` by a polynomial whose highest coefficient has an
/// inverse agree on the quotient's coefficients from degree `k` on.
pub proof fn lemma_quotient_coeffs_unique(
    f: Seq<int>,
    d: Seq<int>,
    q1: Seq<int>,
    r1: Seq<int>,
    q2: Seq<int>,
    r2: Seq<int>,
    k: int,
)
    requires
        d.len() > 0,
        has_inverse(d.last()),
        is_division(f, d, q1, r1),
        is_division(f, d, q2, r2),
        k >= 0,
    ensures
        forall|t: int| t >= k ==> #[trigger] coeff(q1, t) == coeff(q2, t),
    decreases f.len() - k,
{
    let top = d.len() - 1;
    if k + top >= f.len() {
        assert forall|t: int| t >= k implies #[trigger] coeff(q1, t) == coeff(q2, t) by {
            assert(t >= q1.len() && t >= q2.len());
        }
    } else {
        lemma_quotient_coeffs_unique(f, d, q1, r1, q2, r2, k + 1);
        let i = k + top;
        let n = d.len();
        let lead = d[top];
        let inv = field_inv(lead);
        assert(is_inverse(inv, lead));
        assert(cong(coeff(f, i), mul_coeff(q1, d, i) + coeff(r1, i)));
        assert(cong(coeff(f, i), mul_coeff(q2, d, i) + coeff(r2, i)));
        assert(coeff(r1, i) == 0 && coeff(r2, i) == 0);
        assert forall|t: int| t > k implies #[trigger] coeff(q1, t) == coeff(q2, t) by {
            assert(t >= k + 1);
        }
        lemma_conv_agree_above(q1, q2, d, i, top as nat, k);
        let s = conv(q1, d, i, top as nat);
        let c1 = coeff(q1, k);
        let c2 = coeff(q2, k);
        assert(mul_coeff(q1, d, i) == s + lead * c1);
        assert(mul_coeff(q2, d, i) == s + lead * c2);
        // lead * c1 and lead * c2 are congruent; multiply by the inverse.
        lemma_cong_sub(s + lead * c1, s + lead * c2, s, s);
        lemma_cong_mul(inv, inv, lead * c1, lead * c2);
        lemma_small_mod(1, modulus() as nat);
        lemma_cong_mul(inv * lead, 1, c1, c1);
        lemma_cong_mul(inv * lead, 1, c2, c2);
        assert(inv * (lead * c1) == (inv * lead) * c1) by (nonlinear_arith);
        assert(inv * (lead * c2) == (inv * lead) * c2) by (nonlinear_arith);
        assert(1 * c1 == c1 && 1 * c2 == c2);
        assert(cong(c1, c2));
        lemma_small_mod(0, modulus() as nat);
        if 0 <= k < q1.len() {
            assert(0 <= q1[k] < modulus());
        }
        if 0 <= k < q2.len() {
            assert(0 <= q2[k] < modulus());
        }
        lemma_cong_canonical(c1, c2);
        assert forall|t: int| t >= k implies #[trigger] coeff(q1, t) == coeff(q2, t) by {
            if t > k {
                assert(t >= k + 1);
            }
        }
    }
}

/// Division by a polynomial whose highest coefficient has an inverse has one
/// result only.
pub proof fn lemma_division_unique(
    f: Seq<int>,
    d: Seq<int>,
    q1: Seq<int>,
    r1: Seq<int>,
    q2: Seq<int>,
    r2: Seq<int>,
)
    requires
        d.len() > 0,
        has_inverse(d.last()),
        is_division(f, d, q1, r1),
        is_division(f, d, q2, r2),
    ensures
        q1 == q2,
        r1 == r2,
{
    lemma_quotient_coeffs_unique(f, d, q1, r1, q2, r2, 0);
    assert forall|t: int| #[trigger] coeff(q1, t) == coeff(q2, t) by {
        if t >= 0 {
        }
    }
    lemma_normalized_unique(q1, q2);
    lemma_normal_is_normalized(q2);
    lemma_small_mod(0, modulus() as nat);
    assert forall|t: int| #[trigger] coeff(r1, t) == coeff(r2, t) by {
        assert(cong(coeff(f, t), mul_coeff(q1, d, t) + coeff(r1, t)));
        assert(cong(coeff(f, t), mul_coeff(q2, d, t) + coeff(r2, t)));
        let s = mul_coeff(q1, d, t);
        lemma_cong_sub(s + coeff(r1, t), s + coeff(r2, t), s, s);
        if 0 <= t < r1.len() {
            assert(0 <= r1[t] < modulus());
        }
        if 0 <= t < r2.len() {
            assert(0 <= r2[t] < modulus());
        }
        lemma_cong_canonical(coeff(r1, t), coeff(r2, t));
    }
    lemma_normalized_unique(r1, r2);
    lemma_normal_is_normalized(r2);
}

/// What a division by a polynomial whose highest coefficient has an inverse
/// gives is the quotient and the remainder.
pub proof fn lemma_division_is_quotient(f: Seq<int>, d: Seq<int>, q: Seq<int>, r: Seq<int>)
    requires
        d.len() > 0,
        has_inverse(d.last()),
        is_division(f, d, q, r),
    ensures
        q == quotient(f, d),
        r == remainder(f, d),
{
    assert(divides_as(f, d, (q, r)));
    let qr = division(f, d);
    assert(divides_as(f, d, qr));
    lemma_division_unique(f, d, q, r, qr.0, qr.1);
}

/// Long division: the quotient and the remainder of `f` by the non-zero
/// polynomial `d`. The remainder is shorter than `d`, and `f == q * d + r`
/// coefficient by coefficient.
pub fn divide_with_q_and_r(f: &Vec<Scalar>, d: &Vec<Scalar>) -> (res: (Vec<Scalar>, Vec<Scalar>))
    requires
        all_wf(f@),
        all_wf(d@),
        d.len() > 0,
        d[d.len() - 1]@ != 0,
    ensures
        all_wf(res.0@),
        all_wf(res.1@),
        is_normal(vals(res.0@)),
        is_normal(vals(res.1@)),
        res.1.len() < d.len(),
        res.0.len() + d.len() <= f.len() + 1 || res.0.len() == 0,
        forall|k: int|
            cong(
                #[trigger] coeff(vals(f@), k),
                mul_coeff(vals(res.0@), vals(d@), k) + coeff(vals(res.1@), k),
            ),
        is_division(vals(f@), vals(d@), vals(res.0@), vals(res.1@)),
        vals(res.0@) == quotient(vals(f@), vals(d@)),
        vals(res.1@) == remainder(vals(f@), vals(d@)),
{
    let ghost fv = vals(f@);
    let ghost dv = vals(d@);
    let dlen = d.len();
    let mut rem = trim(copy_of(f));
    let qlen = if rem.len() >= dlen { rem.len() - dlen + 1 } else { 0 };
    let mut q = zeros(qlen);
    let lead = d[dlen - 1];
    assert(lead.wf());
    let inv = match lead.inverse() {
        Some(x) => x,
        None => unreached(),
    };
    proof {
        assert forall|k: int|
            cong(#[trigger] coeff(fv, k), conv(vals(q@), dv, k, dlen as nat) + coeff(vals(rem@), k)) by {
            assert forall|i: int| #[trigger] coeff(vals(q@), i) == 0 by {
                if 0 <= i < q.len() {
                    assert(q[i]@ == 0);
                }
            }
            lemma_conv_zero(vals(q@), dv, k, dlen as nat);
            assert(coeff(vals(rem@), k) == coeff(fv, k));
        }
    }
    while rem.len() >= dlen
        invariant
            dlen == d.len(),
            dlen > 0,
            dv == vals(d@),
            fv == vals(f@),
            all_wf(d@),
            lead == d[dlen - 1],
            lead@ != 0,
            inv.wf(),
            (inv@ * lead@) % modulus() == 1,
            q.len() == qlen,
            qlen + dlen <= f.len() + 1 || qlen == 0,
            all_wf(q@),
            all_wf(rem@),
            is_normal(vals(rem@)),
            rem.len() >= dlen ==> rem.len() - dlen + 1 <= qlen,
            forall|j: int| 0 <= j < q.len() && j <= rem.len() - dlen ==> (#[trigger] q[j])@ == 0,
            forall|k: int|
                cong(
                    #[trigger] coeff(fv, k),
                    conv(vals(q@), dv, k, dlen as nat) + coeff(vals(rem@), k),
                ),
        decreases rem.len(),
    {
        let t = rem.len() - dlen;
        let top_index = rem.len() - 1;
        let top = rem[top_index];
        assert(top.wf());
        let c = top.mul(&inv);
        let ghost q0 = q@;
        let ghost rem0 = rem@;
        q.set(t, c);
        let mut i: usize = 0;
        while i < dlen
            invariant
                0 <= i <= dlen,
                dlen == d.len(),
                t + dlen == rem.len(),
                rem.len() == rem0.len(),
                all_wf(d@),
                all_wf(rem@),
                c.wf(),
                forall|k: int|
                    0 <= k < rem.len() ==> cong(
                        (#[trigger] rem[k])@,
                        rem0[k]@ - (if t <= k < t + i {
                            c@ * d[k - t]@
                        } else {
                            0
                        }),
                    ),
            decreases dlen - i,
        {
            let x = rem[t + i];
            let y = d[i];
            assert(x.wf() && y.wf());
            let cy = c.mul(&y);
            let z = x.sub(&cy);
            let ghost before = rem@;
            rem.set(t + i, z);
            proof {
                assert forall|k: int| 0 <= k < rem.len() implies cong(
                    (#[trigger] rem[k])@,
                    rem0[k]@ - (if t <= k < t + i + 1 {
                        c@ * d[k - t]@
                    } else {
                        0
                    }),
                ) by {
                    if k == t + i {
                        assert(cong(before[k]@, rem0[k]@ - 0));
                        lemma_cong_reduce(c@ * y@);
                        lemma_cong_sub(x@, rem0[k]@, cy@, c@ * y@);
                        lemma_cong_reduce(x@ - cy@);
                    } else {
                        assert(rem[k] == before[k]);
                        assert(cong(
                            before[k]@,
                            rem0[k]@ - (if t <= k < t + i {
                                c@ * d[k - t]@
                            } else {
                                0
                            }),
                        ));
                    }
                }
            }
            i = i + 1;
        }
        proof {
            // The leading coefficient of the remainder has been cancelled.
            let ti = top_index as int;
            assert(cong(rem[ti]@, rem0[ti]@ - c@ * d[ti - t]@));
            lemma_cong_reduce(top@ * inv@);
            lemma_cong_mul(c@, top@ * inv@, lead@, lead@);
            lemma_small_mod(1, modulus() as nat);
            lemma_cong_mul(top@, top@, inv@ * lead@, 1);
            assert(top@ * inv@ * lead@ == top@ * (inv@ * lead@)) by (nonlinear_arith);
            assert(top@ * 1 == top@);
            lemma_cong_sub(top@, top@, c@ * lead@, top@);
            lemma_small_mod(0, modulus() as nat);
            assert(rem[ti].wf());
            lemma_cong_canonical(rem[ti]@, 0);
        }
        let ghost rem1 = rem@;
        rem = trim(rem);
        proof {
            if rem.len() == rem1.len() {
                assert(vals(rem@).last() == rem1[top_index as int]@);
                assert(false);
            }
            assert forall|k: int|
                cong(
                    #[trigger] coeff(fv, k),
                    conv(vals(q@), dv, k, dlen as nat) + coeff(vals(rem@), k),
                ) by {
                let qa = vals(q0);
                assert(vals(q@) =~= qa.update(t as int, c@));
                assert(qa[t as int] == 0) by {
                    assert(q0[t as int]@ == 0);
                }
                lemma_conv_update(qa, dv, t as int, c@, k, dlen as nat);
                assert(cong(coeff(fv, k), conv(qa, dv, k, dlen as nat) + coeff(vals(rem0), k)));
                assert(coeff(vals(rem@), k) == coeff(vals(rem1), k));
                let delta = if 0 <= k - t < dlen {
                    dv[k - t] * c@
                } else {
                    0
                };
                assert(conv(vals(q@), dv, k, dlen as nat) == conv(qa, dv, k, dlen as nat) + delta);
                if 0 <= k < rem1.len() {
                    assert(cong(
                        rem1[k]@,
                        rem0[k]@ - (if t <= k < t + dlen {
                            c@ * d[k - t]@
                        } else {
                            0
                        }),
                    ));
                    if t <= k {
                        assert(dv[k - t] * c@ == c@ * d[k - t]@) by (nonlinear_arith)
                            requires
                                dv[k - t] == d[k - t]@,
                        ;
                    }
                    assert(cong(coeff(vals(rem1), k), coeff(vals(rem0), k) - delta));
                } else {
                    assert(delta == 0);
                    assert(coeff(vals(rem1), k) == 0 && coeff(vals(rem0), k) == 0);
                }
                lemma_cong_add(
                    conv(vals(q@), dv, k, dlen as nat),
                    conv(vals(q@), dv, k, dlen as nat),
                    coeff(vals(rem1), k),
                    coeff(vals(rem0), k) - delta,
                );
            }
        }
    }
    let ghost q1 = q@;
    let q = trim(q);
    proof {
        assert forall|k: int|
            cong(
                #[trigger] coeff(fv, k),
                mul_coeff(vals(q@), dv, k) + coeff(vals(rem@), k),
            ) by {
            lemma_conv_same_coeffs(vals(q@), vals(q1), dv, k, dlen as nat);
            assert(cong(coeff(fv, k), conv(vals(q1), dv, k, dlen as nat) + coeff(vals(rem@), k)));
        }
        lemma_vals_canonical(q@);
        lemma_vals_canonical(rem@);
        lemma_mul_mod_noop_right(inv@, lead@, modulus());
        assert(is_inverse(inv@, dv.last()));
        lemma_division_is_quotient(fv, dv, vals(q@), vals(rem@));
    }
    (q, rem)
}

/// Where the divisor vanishes, the remainder has the value of the dividend:
/// the remainder by the vanishing polynomial of a set of points holds the
/// values at those points.
pub proof fn lemma_remainder_values(f: Seq<int>, d: Seq<int>, q: Seq<int>, r: Seq<int>, x: int)
    requires
        is_division(f, d, q, r),
        cong(eval(d, x), 0),
    ensures
        cong(eval(f, x), eval(r, x)),
{
    let prod = p_mul(q, d);
    assert forall|k: int| cong(#[trigger] coeff(f, k), coeff(prod, k) + coeff(r, k)) by {
        lemma_p_mul_coeff(q, d, k);
        assert(cong(coeff(f, k), mul_coeff(q, d, k) + coeff(r, k)));
    }
    lemma_eval_sum(prod, r, f, x);
    lemma_eval_product(q, d, x);
    lemma_cong_mul(eval(q, x), eval(q, x), eval(d, x), 0);
    assert(eval(q, x) * 0 == 0);
    lemma_cong_add(eval(prod, x), 0, eval(r, x), eval(r, x));
}

/// Horner's rule from the top down to degree `k`: the value in the field of
/// the polynomial with the coefficients of `p` from degree `k` on, at `z`.
pub open spec fn horner_tail(p: Seq<int>, z: int, k: int) -> int
    decreases p.len() - k,
{
    if k < 0 || k >= p.len() {
        0
    } else {
        (p[k] + z * horner_tail(p, z, k + 1)) % modulus()
    }
}

/// The quotient of `p` by `x - z` in the field, by synthetic division: one
/// coefficient fewer than `p`, each the Horner value one degree higher.
pub open spec fn quotient_by_linear(p: Seq<int>, z: int) -> Seq<int> {
    Seq::new(
        if p.len() == 0 {
            0nat
        } else {
            (p.len() - 1) as nat
        },
        |k: int| horner_tail(p, z, k + 1),
    )
}

/// Horner's rule at degree `k` is the value of the coefficients from `k` on.
pub proof fn lemma_horner_tail_is_eval(p: Seq<int>, z: int, k: int)
    requires
        0 <= k <= p.len(),
    ensures
        cong(horner_tail(p, z, k), eval(p.subrange(k, p.len() as int), z)),
        0 <= horner_tail(p, z, k) < modulus(),
    decreases p.len() - k,
{
    if k < p.len() {
        let cur = p.subrange(k, p.len() as int);
        let tail = p.subrange(k + 1, p.len() as int);
        assert(cur.skip(1) =~= tail);
        lemma_horner_tail_is_eval(p, z, k + 1);
        lemma_cong_mul(z, z, horner_tail(p, z, k + 1), eval(tail, z));
        lemma_cong_add(p[k], p[k], z * horner_tail(p, z, k + 1), z * eval(tail, z));
        lemma_cong_reduce(p[k] + z * horner_tail(p, z, k + 1));
        assert(cur[0] == p[k]);
    } else {
        assert(p.subrange(k, p.len() as int).len() == 0);
    }
}

/// Synthetic division of `polynomial` by `x - point`: the value of the
/// polynomial at the point, and the quotient.
pub fn divide_by_linear(polynomial: &[Scalar], point: &Scalar) -> (res: (Scalar, Vec<Scalar>))
    requires
        all_wf(polynomial@),
        point.wf(),
    ensures
        res.0.wf(),
        all_wf(res.1@),
        res.0@ == horner_tail(vals(polynomial@), point@, 0),
        res.0@ == eval(vals(polynomial@), point@) % modulus(),
        vals(res.1@) == quotient_by_linear(vals(polynomial@), point@),
{
    let ghost pv = vals(polynomial@);
    let n = polynomial.len();
    let mut rev: Vec<Scalar> = Vec::new();
    let mut previous = Scalar::zero();
    let mut i: usize = n;
    while i > 0
        invariant
            0 <= i <= n,
            n == polynomial.len(),
            pv == vals(polynomial@),
            all_wf(polynomial@),
            point.wf(),
            previous.wf(),
            previous@ == horner_tail(pv, point@, i as int),
            rev.len() == n - i,
            all_wf(rev@),
            forall|j: int| 0 <= j < rev.len() ==> (#[trigger] rev[j])@ == horner_tail(pv, point@, n - 1 - j),
        decreases i,
    {
        i = i - 1;
        let c = polynomial[i];
        assert(c.wf());
        let t = previous.mul(point);
        let coefficient = c.add(&t);
        proof {
            lemma_cong_reduce(previous@ * point@);
            lemma_cong_add(c@, c@, t@, previous@ * point@);
            assert(previous@ * point@ == point@ * previous@) by (nonlinear_arith);
            assert(pv[i as int] == c@);
        }
        rev.push(coefficient);
        previous = coefficient;
    }
    // `rev` holds the Horner values from the top down; the last is the value
    // of the polynomial, and the others, read backwards, are the quotient.
    let mut quotient: Vec<Scalar> = Vec::new();
    let mut k: usize = 0;
    let qlen = if n == 0 { 0 } else { n - 1 };
    while k < qlen
        invariant
            0 <= k <= qlen,
            qlen == (if n == 0 { 0 } else { n - 1 }),
            rev.len() == n,
            all_wf(rev@),
            all_wf(quotient@),
            quotient.len() == k,
            forall|j: int| 0 <= j < rev.len() ==> (#[trigger] rev[j])@ == horner_tail(pv, point@, n - 1 - j),
            forall|j: int| 0 <= j < k ==> (#[trigger] quotient[j])@ == horner_tail(pv, point@, j + 1),
        decreases qlen - k,
    {
        let x = rev[n - 2 - k];
        assert(x.wf());
        quotient.push(x);
        k = k + 1;
    }
    proof {
        assert(vals(quotient@) =~= quotient_by_linear(pv, point@));
        lemma_horner_tail_is_eval(pv, point@, 0);
        assert(pv.subrange(0, pv.len() as int) =~= pv);
        lemma_small_mod(horner_tail(pv, point@, 0) as nat, modulus() as nat);
    }
    (previous, quotient)
}

/// Division by `x - z` leaves the quotient of synthetic division: the
/// coefficient of each degree is the Horner value one degree higher.
pub proof fn lemma_linear_quotient_coeff(
    f: Seq<int>,
    z: int,
    d: Seq<int>,
    q: Seq<int>,
    r: Seq<int>,
    k: int,
)
    requires
        d.len() == 2,
        cong(d[0], -z),
        d[1] == 1,
        is_division(f, d, q, r),
        k >= 0,
    ensures
        coeff(q, k) == horner_tail(f, z, k + 1),
    decreases f.len() - k,
{
    if k + 1 < f.len() {
        lemma_linear_quotient_coeff(f, z, d, q, r, k + 1);
        let h2 = horner_tail(f, z, k + 2);
        assert(cong(coeff(f, k + 1), mul_coeff(q, d, k + 1) + coeff(r, k + 1)));
        assert(coeff(r, k + 1) == 0);
        assert(conv(q, d, k + 1, 0) == 0);
        assert(conv(q, d, k + 1, 1) == conv(q, d, k + 1, 0) + d[0] * coeff(q, k + 1));
        assert(conv(q, d, k + 1, 2) == conv(q, d, k + 1, 1) + d[1] * coeff(q, k));
        assert(d[1] * coeff(q, k) == coeff(q, k)) by (nonlinear_arith)
            requires
                d[1] == 1,
        ;
        // f[k + 1] == d[0] * h2 + q[k], so q[k] == f[k + 1] + z * h2.
        assert(mul_coeff(q, d, k + 1) == d[0] * h2 + coeff(q, k));
        lemma_cong_mul(d[0], -z, h2, h2);
        lemma_cong_sub(d[0] * h2 + coeff(q, k), f[k + 1], d[0] * h2, (-z) * h2);
        assert(f[k + 1] - (-z) * h2 == f[k + 1] + z * h2) by (nonlinear_arith);
        lemma_cong_reduce(f[k + 1] + z * h2);
        lemma_horner_tail_is_eval(f, z, k + 1);
        if 0 <= k < q.len() {
            assert(0 <= q[k] < modulus());
        } else {
            lemma_small_mod(0, modulus() as nat);
        }
        lemma_cong_canonical(coeff(q, k), horner_tail(f, z, k + 1));
    }
}

/// Division of a polynomial without superfluous zeros by `x - z` gives
/// exactly the quotient of synthetic division.
pub proof fn lemma_linear_quotient(f: Seq<int>, z: int, d: Seq<int>, q: Seq<int>, r: Seq<int>)
    requires
        d.len() == 2,
        cong(d[0], -z),
        d[1] == 1,
        canonical(f),
        is_normal(f),
        is_division(f, d, q, r),
    ensures
        q == quotient_by_linear(f, z),
{
    let s = quotient_by_linear(f, z);
    assert forall|k: int| 0 <= k implies coeff(q, k) == horner_tail(f, z, k + 1) by {
        lemma_linear_quotient_coeff(f, z, d, q, r, k);
    }
    if f.len() >= 2 {
        let top = f.len() - 2;
        assert(coeff(q, top) == horner_tail(f, z, top + 1));
        assert(horner_tail(f, z, top + 2) == 0);
        assert(z * 0 == 0);
        assert(f[top + 1] != 0);
        lemma_small_mod(f[top + 1] as nat, modulus() as nat);
        assert(q.len() == s.len());
    } else {
        assert(q.len() == 0);
    }
    assert forall|k: int| 0 <= k < q.len() implies q[k] == s[k] by {
        assert(coeff(q, k) == horner_tail(f, z, k + 1));
    }
    assert(q =~= s);
}

/// From degree `k` on, a polynomial is its quotient by `x - z` times
/// `x - z`, plus the Horner value of that degree.
pub proof fn lemma_synthetic_division_from(p: Seq<int>, z: int, x: int, k: int)
    requires
        0 <= k <= p.len(),
    ensures
        ({
            let q = quotient_by_linear(p, z);
            let start = if k <= q.len() { k } else { q.len() as int };
            cong(
                eval(p.subrange(k, p.len() as int), x),
                eval(q.subrange(start, q.len() as int), x) * (x - z) + horner_tail(p, z, k),
            )
        }),
    decreases p.len() - k,
{
    let n = p.len() as int;
    let q = quotient_by_linear(p, z);
    if k == n {
        assert(p.subrange(k, n).len() == 0);
        if n > 0 {
            assert(q.subrange(q.len() as int, q.len() as int).len() == 0);
        } else {
            assert(q.subrange(0, 0).len() == 0);
        }
        assert(0 * (x - z) == 0);
    } else {
        lemma_synthetic_division_from(p, z, x, k + 1);
        let pk = p.subrange(k, n);
        let pk1 = p.subrange(k + 1, n);
        assert(pk.skip(1) =~= pk1);
        assert(pk[0] == p[k]);
        let h = horner_tail(p, z, k);
        let h1 = horner_tail(p, z, k + 1);
        lemma_cong_reduce(p[k] + z * h1);
        if k == n - 1 {
            assert(q.subrange(k, q.len() as int).len() == 0);
            assert(pk1.len() == 0);
            assert(x * 0 == 0);
            assert(z * 0 == 0);
            assert(0 * (x - z) == 0);
        } else {
            let qk = q.subrange(k, q.len() as int);
            let qk1 = q.subrange(k + 1, q.len() as int);
            assert(qk.skip(1) =~= qk1);
            assert(qk[0] == h1);
            let e = eval(qk1, x);
            // eval(pk1) is e (x - z) + h1, so eval(pk) is p[k] + x (e (x - z) + h1)
            lemma_cong_mul(x, x, eval(pk1, x), e * (x - z) + h1);
            lemma_cong_add(p[k], p[k], x * eval(pk1, x), x * (e * (x - z) + h1));
            // the other side is (h1 + x e)(x - z) + h, with h congruent to p[k] + z h1
            lemma_cong_add((h1 + x * e) * (x - z), (h1 + x * e) * (x - z), h, p[k] + z * h1);
            assert((h1 + x * e) * (x - z) + (p[k] + z * h1) == p[k] + x * (e * (x - z) + h1))
                by (nonlinear_arith);
        }
    }
}

/// A polynomial is its quotient by `x - z` times `x - z`, plus its value at
/// `z`: the witness of an opening at `z` accounts for the whole polynomial.
pub proof fn lemma_synthetic_division(p: Seq<int>, z: int, x: int)
    ensures
        cong(eval(p, x), eval(quotient_by_linear(p, z), x) * (x - z) + eval(p, z)),
{
    let q = quotient_by_linear(p, z);
    lemma_synthetic_division_from(p, z, x, 0);
    assert(p.subrange(0, p.len() as int) =~= p);
    assert(q.subrange(0, q.len() as int) =~= q);
    lemma_horner_tail_is_eval(p, z, 0);
    lemma_cong_add(
        eval(q, x) * (x - z),
        eval(q, x) * (x - z),
        horner_tail(p, z, 0),
        eval(p, z),
    );
}

} // verus!
