//! Polynomials given by their roots or by their values: the vanishing
//! polynomial of a set of points, linear combinations, and Lagrange
//! interpolation.
//!
//! Each result is stated as the canonical form of a polynomial over the
//! integers that is built from the arguments by sums, multiples and products
//! with `x - p`.
use crate::ark::field::{modulus, Scalar};
use crate::ark::poly::{
    all_wf, lemma_p_add_coeff, lemma_p_scale_coeff, p_add, p_scale, field_inv, has_inverse, is_inverse, lemma_inverse_unique, lemma_zero_has_no_inverse, canon, canonical, coeff, cong, conv, eval, is_normal, lemma_canon_properties,
    lemma_canon_unique, lemma_cong_add, lemma_cong_canonical, lemma_cong_mul, lemma_cong_reduce,
    lemma_eval_linear_product, lemma_eval_same_poly, lemma_eval_scaled, lemma_eval_sum,
    lemma_vals_canonical, linear_product, mul_coeff, naive_mul, same_poly, scale, vals,
};
use vstd::arithmetic::div_mod::{lemma_mul_mod_noop_right, lemma_small_mod};
use vstd::prelude::*;

verus! {

/// The product of `x - p` over the points, but for the one at index `skip`.
pub open spec fn root_product_skip(points: Seq<int>, skip: int, x: int) -> int
    decreases points.len(),
{
    if points.len() == 0 {
        1
    } else {
        let rest = root_product_skip(points.drop_last(), skip, x);
        if points.len() - 1 == skip {
            rest
        } else {
            rest * (x - points.last())
        }
    }
}

/// The product of `x - p` over all the points.
pub open spec fn root_product(points: Seq<int>, x: int) -> int {
    root_product_skip(points, -1, x)
}

/// The coefficients, over the integers, of the product of `x - p` over the
/// points, but for the one at index `skip`.
pub open spec fn roots_poly(points: Seq<int>, skip: int) -> Seq<int>
    decreases points.len(),
{
    if points.len() == 0 {
        seq![1int]
    } else {
        let rest = roots_poly(points.drop_last(), skip);
        if points.len() - 1 == skip {
            rest
        } else {
            linear_product(rest, -points.last())
        }
    }
}

/// The index that a skipped point stands for: none is minus one.
pub open spec fn skip_index(skip: Option<usize>) -> int {
    match skip {
        Some(j) => j as int,
        None => -1,
    }
}

/// The number of factors of the product over `n` points without the one at
/// index `skip`.
pub open spec fn factor_count(n: int, skip: int) -> int {
    if 0 <= skip < n {
        n - 1
    } else {
        n
    }
}

/// The polynomial built from the roots takes the product of `x - p` as its
/// value at `x`.
pub proof fn lemma_roots_poly_eval(points: Seq<int>, skip: int, x: int)
    ensures
        eval(roots_poly(points, skip), x) == root_product_skip(points, skip, x),
    decreases points.len(),
{
    if points.len() == 0 {
        let one = seq![1int];
        assert(one.skip(1).len() == 0);
        assert(eval(one.skip(1), x) == 0);
        assert(x * 0 == 0);
        assert(eval(one, x) == one[0] + x * eval(one.skip(1), x));
    } else {
        let rest = roots_poly(points.drop_last(), skip);
        lemma_roots_poly_eval(points.drop_last(), skip, x);
        if points.len() - 1 != skip {
            lemma_eval_linear_product(rest, -points.last(), x);
            assert((x + (-points.last())) * eval(rest, x) == eval(rest, x) * (x - points.last()))
                by (nonlinear_arith);
        }
    }
}

/// The polynomial built from the roots is monic, with one coefficient more
/// than it has factors.
pub proof fn lemma_roots_poly_monic(points: Seq<int>, skip: int)
    ensures
        roots_poly(points, skip).len() == factor_count(points.len() as int, skip) + 1,
        roots_poly(points, skip).last() == 1,
    decreases points.len(),
{
    if points.len() > 0 {
        let rest = roots_poly(points.drop_last(), skip);
        lemma_roots_poly_monic(points.drop_last(), skip);
        if points.len() - 1 != skip {
            let lp = linear_product(rest, -points.last());
            assert(coeff(rest, rest.len() as int) == 0);
            assert((-points.last()) * 0 == 0);
            assert(lp.last() == coeff(rest, rest.len() - 1) + (-points.last()) * coeff(
                rest,
                rest.len() as int,
            ));
        }
    }
}

/// The product of `x - p` vanishes in the field where `x` is one of the
/// points that are not skipped.
pub proof fn lemma_root_product_vanishes(points: Seq<int>, skip: int, i: int)
    requires
        0 <= i < points.len(),
        i != skip,
    ensures
        cong(root_product_skip(points, skip, points[i]), 0),
    decreases points.len(),
{
    let x = points[i];
    let head = points.drop_last();
    let rest = root_product_skip(head, skip, x);
    if i == points.len() - 1 {
        assert(rest * 0 == 0);
    } else {
        lemma_root_product_vanishes(head, skip, i);
        if points.len() - 1 != skip {
            lemma_cong_mul(rest, 0, x - points.last(), x - points.last());
            assert(0 * (x - points.last()) == 0);
        }
    }
}

/// Every coefficient of the product with `x + c0`, in and out of range.
pub proof fn lemma_linear_product_coeff(a: Seq<int>, c0: int, k: int)
    ensures
        coeff(linear_product(a, c0), k) == coeff(a, k - 1) + c0 * coeff(a, k),
{
    if !(0 <= k < a.len() + 1) {
        assert(c0 * 0 == 0);
    }
}

/// The canonical form of a monic polynomial has its length and ends in one.
pub proof fn lemma_canon_monic(p: Seq<int>)
    requires
        p.len() > 0,
        p.last() == 1,
    ensures
        canon(p).len() == p.len(),
        canon(p).last() == 1,
{
    let c = canon(p);
    lemma_canon_properties(p);
    lemma_small_mod(1, modulus() as nat);
    lemma_small_mod(0, modulus() as nat);
    let top = p.len() - 1;
    assert(cong(coeff(c, top), coeff(p, top)));
    if c.len() <= top {
        assert(false);
    }
    assert(0 <= c[top] < modulus());
    lemma_cong_canonical(c[top], 1);
}

/// The polynomial whose roots are the given points, but for the one at index
/// `skip`: the canonical form of the product of `x - p`.
pub fn roots_polynomial(points: &[Scalar], skip: Option<usize>) -> (r: Vec<Scalar>)
    requires
        all_wf(points@),
        points.len() < usize::MAX - 2,
    ensures
        all_wf(r@),
        vals(r@) == canon(roots_poly(vals(points@), skip_index(skip))),
        r.len() == factor_count(points.len() as int, skip_index(skip)) + 1,
        r[r.len() - 1]@ == 1,
        forall|x: int|
            cong(
                #[trigger] eval(vals(r@), x),
                root_product_skip(vals(points@), skip_index(skip), x),
            ),
{
    let ghost pts = vals(points@);
    let ghost sk = skip_index(skip);
    let mut r: Vec<Scalar> = Vec::new();
    r.push(Scalar::one());
    let mut j: usize = 0;
    proof {
        assert(pts.take(0).len() == 0);
        assert(vals(r@) =~= seq![1int]);
        lemma_small_mod(1, modulus() as nat);
    }
    while j < points.len()
        invariant
            0 <= j <= points.len(),
            points.len() < usize::MAX - 2,
            pts == vals(points@),
            sk == skip_index(skip),
            all_wf(points@),
            all_wf(r@),
            r.len() <= j + 1,
            is_normal(vals(r@)),
            same_poly(vals(r@), roots_poly(pts.take(j as int), sk)),
        decreases points.len() - j,
    {
        let is_skipped = match skip {
            Some(s) => s == j,
            None => false,
        };
        proof {
            assert(pts.take(j + 1).drop_last() =~= pts.take(j as int));
        }
        if !is_skipped {
            let p = points[j];
            assert(p.wf());
            let mut factor: Vec<Scalar> = Vec::new();
            let c0 = p.neg();
            factor.push(c0);
            factor.push(Scalar::one());
            let next = naive_mul(&r, &factor);
            proof {
                let a = vals(r@);
                let b = vals(factor@);
                let before = roots_poly(pts.take(j as int), sk);
                let target = linear_product(before, -p@);
                assert(pts.take(j + 1).last() == p@);
                assert(roots_poly(pts.take(j + 1), sk) == target);
                assert(b[0] == c0@ && b[1] == 1);
                lemma_cong_reduce(-p@);
                assert forall|k: int| cong(#[trigger] coeff(vals(next@), k), coeff(target, k)) by {
                    assert(cong(coeff(vals(next@), k), mul_coeff(a, b, k)));
                    assert(conv(a, b, k, 0) == 0);
                    assert(conv(a, b, k, 1) == conv(a, b, k, 0) + b[0] * coeff(a, k));
                    assert(conv(a, b, k, 2) == conv(a, b, k, 1) + b[1] * coeff(a, k - 1));
                    assert(b[1] * coeff(a, k - 1) == coeff(a, k - 1)) by (nonlinear_arith)
                        requires
                            b[1] == 1,
                    ;
                    lemma_linear_product_coeff(before, -p@, k);
                    assert(cong(coeff(a, k), coeff(before, k)));
                    assert(cong(coeff(a, k - 1), coeff(before, k - 1)));
                    lemma_cong_mul(c0@, -p@, coeff(a, k), coeff(before, k));
                    lemma_cong_add(
                        coeff(a, k - 1),
                        coeff(before, k - 1),
                        c0@ * coeff(a, k),
                        (-p@) * coeff(before, k),
                    );
                }
            }
            r = next;
        }
        j = j + 1;
    }
    proof {
        assert(pts.take(points.len() as int) =~= pts);
        let target = roots_poly(pts, sk);
        lemma_vals_canonical(r@);
        lemma_canon_unique(vals(r@), target);
        lemma_roots_poly_monic(pts, sk);
        lemma_canon_monic(target);
        assert(vals(r@).last() == r[r.len() - 1]@);
        assert forall|x: int| cong(#[trigger] eval(vals(r@), x), root_product_skip(pts, sk, x)) by {
            lemma_eval_same_poly(vals(r@), target, x);
            lemma_roots_poly_eval(pts, sk, x);
        }
    }
    r
}

/// The vanishing polynomial of any points, which is the canonical form of
/// the product of `x - p` over them, has one coefficient more than there are
/// points, the highest of them one, and its value in the field is zero at
/// each of the points.
pub proof fn lemma_vanishing_polynomial(points: Seq<int>)
    ensures
        canon(roots_poly(points, -1)).len() == points.len() + 1,
        canon(roots_poly(points, -1)).last() == 1,
        forall|i: int|
            0 <= i < points.len() ==> eval(canon(roots_poly(points, -1)), #[trigger] points[i])
                % modulus() == 0,
{
    let z = roots_poly(points, -1);
    lemma_roots_poly_monic(points, -1);
    lemma_canon_monic(z);
    lemma_canon_properties(z);
    assert forall|i: int| 0 <= i < points.len() implies eval(canon(z), #[trigger] points[i])
        % modulus() == 0 by {
        lemma_eval_same_poly(canon(z), z, points[i]);
        lemma_roots_poly_eval(points, -1, points[i]);
        lemma_root_product_vanishes(points, -1, i);
        lemma_small_mod(0, modulus() as nat);
    }
}

/// The monic polynomial whose roots are the given points: its value at every
/// `x` is the product of `x - p` over the points, so it vanishes at each of
/// them.
pub fn vanishing_polynomial(points: &[Scalar]) -> (r: Vec<Scalar>)
    requires
        all_wf(points@),
        points.len() < usize::MAX - 2,
    ensures
        all_wf(r@),
        vals(r@) == canon(roots_poly(vals(points@), -1)),
        r.len() == points.len() + 1,
        r[points.len() as int]@ == 1,
        forall|x: int| cong(#[trigger] eval(vals(r@), x), root_product(vals(points@), x)),
        forall|i: int| 0 <= i < points.len() ==> eval(vals(r@), #[trigger] points[i]@) % modulus() == 0,
{
    let r = roots_polynomial(points, None);
    proof {
        let pts = vals(points@);
        assert forall|i: int| 0 <= i < points.len() implies eval(vals(r@), #[trigger] points[i]@)
            % modulus() == 0 by {
            lemma_root_product_vanishes(pts, -1, i);
            assert(cong(eval(vals(r@), pts[i]), root_product_skip(pts, -1, pts[i])));
            lemma_small_mod(0, modulus() as nat);
        }
    }
    r
}

/// The integer polynomials that a sequence of coefficient vectors denotes.
pub open spec fn vals2(polys: Seq<Vec<Scalar>>) -> Seq<Seq<int>> {
    Seq::new(polys.len(), |i: int| vals(polys[i]@))
}

/// Whether every coefficient of every polynomial is canonical.
pub open spec fn all_wf2(polys: Seq<Vec<Scalar>>) -> bool {
    forall|i: int| 0 <= i < polys.len() ==> all_wf(#[trigger] polys[i]@)
}

/// The sum of the first `n` polynomials, each multiplied by the challenge at
/// its index.
pub open spec fn lincomb(polys: Seq<Seq<int>>, challenges: Seq<int>, n: nat) -> Seq<int>
    decreases n,
{
    if n == 0 {
        Seq::empty()
    } else {
        p_add(lincomb(polys, challenges, (n - 1) as nat), p_scale(challenges[n - 1], polys[n - 1]))
    }
}

/// The smaller of two lengths.
pub open spec fn min_len(a: int, b: int) -> int {
    if a < b {
        a
    } else {
        b
    }
}

/// The largest number of coefficients among the first `n` polynomials.
pub open spec fn longest(polys: Seq<Vec<Scalar>>, n: nat) -> nat
    decreases n,
{
    if n == 0 {
        0
    } else {
        let rest = longest(polys, (n - 1) as nat);
        if polys[n - 1].len() > rest {
            polys[n - 1].len() as nat
        } else {
            rest
        }
    }
}

/// A bound on the length of each polynomial bounds the longest.
pub proof fn lemma_longest_bound(polys: Seq<Vec<Scalar>>, n: nat, bound: int)
    requires
        n <= polys.len(),
        bound >= 0,
        forall|i: int| 0 <= i < n ==> (#[trigger] polys[i]).len() <= bound,
    ensures
        longest(polys, n) <= bound,
    decreases n,
{
    if n > 0 {
        lemma_longest_bound(polys, (n - 1) as nat, bound);
        assert(polys[n - 1].len() <= bound);
    }
}

/// None of the first `n` polynomials is longer than the longest.
pub proof fn lemma_longest_is_upper(polys: Seq<Vec<Scalar>>, n: nat, i: int)
    requires
        0 <= i < n <= polys.len(),
    ensures
        polys[i].len() <= longest(polys, n),
    decreases n,
{
    if i < n - 1 {
        lemma_longest_is_upper(polys, (n - 1) as nat, i);
    }
}

/// Compute a linear combination of the polynomials `polynomials` with the
/// given challenges: nothing if there is no polynomial or no challenge, and
/// else the sum of the polynomials, each multiplied by its challenge, over
/// the indices that both lists have.
pub fn linear_combination(polynomials: &[Vec<Scalar>], challenges: &[Scalar]) -> (r: Option<Vec<Scalar>>)
    requires
        all_wf2(polynomials@),
        all_wf(challenges@),
    ensures
        r.is_none() <==> polynomials.len() == 0 || challenges.len() == 0,
        r.is_some() ==> all_wf(r.unwrap()@) && vals(r.unwrap()@) == canon(
            lincomb(
                vals2(polynomials@),
                vals(challenges@),
                min_len(polynomials.len() as int, challenges.len() as int) as nat,
            ),
        ),
        r.is_some() ==> r.unwrap().len() <= longest(
            polynomials@,
            min_len(polynomials.len() as int, challenges.len() as int) as nat,
        ),
{
    let n = if polynomials.len() < challenges.len() { polynomials.len() } else { challenges.len() };
    if n == 0 {
        return None;
    }
    let ghost ps = vals2(polynomials@);
    let ghost cs = vals(challenges@);
    let mut acc: Vec<Scalar> = Vec::new();
    let mut i: usize = 0;
    while i < n
        invariant
            0 <= i <= n,
            n <= polynomials.len(),
            n <= challenges.len(),
            ps == vals2(polynomials@),
            cs == vals(challenges@),
            all_wf2(polynomials@),
            all_wf(challenges@),
            all_wf(acc@),
            is_normal(vals(acc@)),
            acc.len() <= longest(polynomials@, i as nat),
            same_poly(vals(acc@), lincomb(ps, cs, i as nat)),
        decreases n - i,
    {
        let c = challenges[i];
        assert(c.wf());
        assert(all_wf(polynomials[i as int]@));
        let term = scale(&polynomials[i], &c);
        let next = crate::ark::poly::add(&acc, &term);
        proof {
            let prev = lincomb(ps, cs, i as nat);
            let scaled = p_scale(cs[i as int], ps[i as int]);
            assert forall|k: int| cong(#[trigger] coeff(vals(next@), k), coeff(p_add(prev, scaled), k)) by {
                lemma_p_add_coeff(prev, scaled, k);
                lemma_p_scale_coeff(cs[i as int], ps[i as int], k);
                assert(cong(coeff(vals(acc@), k), coeff(prev, k)));
                assert(cong(coeff(vals(term@), k), c@ * coeff(vals(polynomials[i as int]@), k)));
                lemma_cong_add(
                    coeff(vals(acc@), k),
                    coeff(prev, k),
                    coeff(vals(term@), k),
                    coeff(scaled, k),
                );
            }
        }
        acc = next;
        i = i + 1;
    }
    proof {
        lemma_vals_canonical(acc@);
        lemma_canon_unique(vals(acc@), lincomb(ps, cs, n as nat));
    }
    Some(acc)
}

/// The denominator of the Lagrange basis polynomial of the point at index
/// `j`: the product of its differences to the other points.
pub open spec fn denominator(points: Seq<int>, j: int) -> int {
    root_product_skip(points, j, points[j])
}

/// Whether the points have an interpolant: every denominator has an inverse,
/// which asks that no point occurs twice.
pub open spec fn interpolable(points: Seq<int>) -> bool {
    forall|j: int| 0 <= j < points.len() ==> has_inverse(#[trigger] denominator(points, j))
}

/// The sum of the first `n` Lagrange terms: each the basis polynomial of a
/// point, divided by its denominator and multiplied by the value there.
pub open spec fn lagrange_sum(points: Seq<int>, evals: Seq<int>, n: nat) -> Seq<int>
    decreases n,
{
    if n == 0 {
        Seq::empty()
    } else {
        p_add(
            lagrange_sum(points, evals, (n - 1) as nat),
            p_scale(field_inv(denominator(points, n - 1)) * evals[n - 1], roots_poly(points, n - 1)),
        )
    }
}

/// The polynomial of least degree that takes the values `evals` at `points`,
/// over the indices that both have, and zero at the points that are left.
pub open spec fn interpolant(points: Seq<int>, evals: Seq<int>) -> Seq<int> {
    canon(lagrange_sum(points, evals, min_len(points.len() as int, evals.len() as int) as nat))
}

/// A point that occurs twice leaves no interpolant.
pub proof fn lemma_repeated_point_not_interpolable(points: Seq<int>, i: int, j: int)
    requires
        0 <= i < points.len(),
        0 <= j < points.len(),
        i != j,
        cong(points[i], points[j]),
    ensures
        !interpolable(points),
{
    lemma_root_product_vanishes(points, j, i);
    lemma_root_product_cong(points, j, points[i], points[j]);
    lemma_small_mod(0, modulus() as nat);
    lemma_zero_has_no_inverse(denominator(points, j));
}

/// The product of `x - p` respects congruence in `x`.
pub proof fn lemma_root_product_cong(points: Seq<int>, skip: int, x: int, y: int)
    requires
        cong(x, y),
    ensures
        cong(root_product_skip(points, skip, x), root_product_skip(points, skip, y)),
    decreases points.len(),
{
    if points.len() > 0 {
        lemma_root_product_cong(points.drop_last(), skip, x, y);
        if points.len() - 1 != skip {
            lemma_cong_add(x, y, -points.last(), -points.last());
            lemma_cong_mul(
                root_product_skip(points.drop_last(), skip, x),
                root_product_skip(points.drop_last(), skip, y),
                x - points.last(),
                y - points.last(),
            );
        }
    }
}

/// The first `n` Lagrange terms take the given values at the first `n`
/// points and vanish at the others.
pub proof fn lemma_lagrange_sum_values(points: Seq<int>, evals: Seq<int>, n: nat, t: int)
    requires
        interpolable(points),
        n <= points.len(),
        n <= evals.len(),
        0 <= t < points.len(),
    ensures
        cong(eval(lagrange_sum(points, evals, n), points[t]), if t < n { evals[t] } else { 0 }),
    decreases n,
{
    let x = points[t];
    if n == 0 {
        assert(lagrange_sum(points, evals, 0).len() == 0);
    } else {
        let j = n - 1;
        let prev = lagrange_sum(points, evals, j as nat);
        let den = denominator(points, j);
        let inv = field_inv(den);
        let c = inv * evals[j];
        let basis = roots_poly(points, j);
        let term = p_scale(c, basis);
        let sum = p_add(prev, term);
        lemma_lagrange_sum_values(points, evals, j as nat, t);
        assert forall|k: int| cong(#[trigger] coeff(sum, k), coeff(prev, k) + coeff(term, k)) by {
            lemma_p_add_coeff(prev, term, k);
        }
        lemma_eval_sum(prev, term, sum, x);
        assert forall|k: int| cong(#[trigger] coeff(term, k), c * coeff(basis, k)) by {
            lemma_p_scale_coeff(c, basis, k);
        }
        lemma_eval_scaled(basis, c, term, x);
        lemma_roots_poly_eval(points, j, x);
        let b = root_product_skip(points, j, x);
        assert(has_inverse(den));
        assert(is_inverse(inv, den));
        lemma_small_mod(1, modulus() as nat);
        lemma_small_mod(0, modulus() as nat);
        if t == j {
            // c * den == evals[j] * (inv * den), congruent to evals[j]
            lemma_cong_mul(evals[j], evals[j], inv * den, 1);
            assert(c * b == evals[j] * (inv * den)) by (nonlinear_arith)
                requires
                    c == inv * evals[j],
                    b == den,
            ;
            assert(evals[j] * 1 == evals[j]);
            lemma_cong_add(eval(prev, x), 0, eval(term, x), evals[j]);
        } else {
            lemma_root_product_vanishes(points, j, t);
            lemma_cong_mul(c, c, b, 0);
            assert(c * 0 == 0);
            lemma_cong_add(eval(prev, x), if t < j { evals[t] } else { 0 }, eval(term, x), 0);
        }
    }
}

/// The interpolant takes the given values at the points.
pub proof fn lemma_interpolant_values(points: Seq<int>, evals: Seq<int>, t: int)
    requires
        interpolable(points),
        0 <= t < points.len(),
    ensures
        cong(eval(interpolant(points, evals), points[t]), coeff(evals, t)),
        interpolant(points, evals).len() <= points.len(),
{
    let n = min_len(points.len() as int, evals.len() as int) as nat;
    let sum = lagrange_sum(points, evals, n);
    lemma_lagrange_sum_values(points, evals, n, t);
    lemma_canon_properties(sum);
    lemma_eval_same_poly(canon(sum), sum, points[t]);
    lemma_lagrange_sum_len(points, evals, n);
}

/// The Lagrange terms have no more coefficients than there are points.
pub proof fn lemma_lagrange_sum_len(points: Seq<int>, evals: Seq<int>, n: nat)
    requires
        n <= points.len(),
    ensures
        lagrange_sum(points, evals, n).len() <= points.len(),
    decreases n,
{
    if n > 0 {
        lemma_lagrange_sum_len(points, evals, (n - 1) as nat);
        lemma_roots_poly_monic(points, n - 1);
    }
}

/// The product of the differences of the point at index `j` to the others.
fn denominator_of(points: &[Scalar], j: usize) -> (r: Scalar)
    requires
        all_wf(points@),
        j < points.len(),
    ensures
        r.wf(),
        r@ == denominator(vals(points@), j as int) % modulus(),
{
    let ghost pts = vals(points@);
    let x = points[j];
    assert(x.wf());
    let mut acc = Scalar::one();
    let mut k: usize = 0;
    proof {
        assert(pts.take(0).len() == 0);
    }
    while k < points.len()
        invariant
            0 <= k <= points.len(),
            j < points.len(),
            pts == vals(points@),
            all_wf(points@),
            x == points[j as int],
            x.wf(),
            acc.wf(),
            cong(acc@, root_product_skip(pts.take(k as int), j as int, x@)),
        decreases points.len() - k,
    {
        proof {
            assert(pts.take(k + 1).drop_last() =~= pts.take(k as int));
            assert(pts.take(k + 1).last() == points[k as int]@);
        }
        if k != j {
            let y = points[k];
            assert(y.wf());
            let d = x.sub(&y);
            let next = acc.mul(&d);
            proof {
                lemma_cong_reduce(x@ - y@);
                lemma_cong_mul(
                    acc@,
                    root_product_skip(pts.take(k as int), j as int, x@),
                    d@,
                    x@ - y@,
                );
                lemma_cong_reduce(acc@ * d@);
            }
            acc = next;
        }
        k = k + 1;
    }
    proof {
        assert(pts.take(points.len() as int) =~= pts);
        lemma_small_mod(acc@ as nat, modulus() as nat);
    }
    acc
}

/// Lagrange interpolation: the polynomial of least degree that takes the
/// values `evals` at `points`. There is none where a denominator has no
/// inverse, which is where a point occurs twice.
pub fn interpolate(points: &[Scalar], evals: &[Scalar]) -> (r: Option<Vec<Scalar>>)
    requires
        all_wf(points@),
        all_wf(evals@),
        points.len() < usize::MAX - 2,
    ensures
        r.is_none() <==> !interpolable(vals(points@)),
        r.is_some() ==> all_wf(r.unwrap()@) && vals(r.unwrap()@) == interpolant(
            vals(points@),
            vals(evals@),
        ),
{
    let ghost pts = vals(points@);
    let ghost evs = vals(evals@);
    // The inverses of the denominators.
    let mut inverses: Vec<Scalar> = Vec::new();
    let mut j: usize = 0;
    while j < points.len()
        invariant
            0 <= j <= points.len(),
            pts == vals(points@),
            all_wf(points@),
            inverses.len() == j,
            all_wf(inverses@),
            forall|t: int| 0 <= t < j ==> is_inverse((#[trigger] inverses[t])@, denominator(pts, t)),
        decreases points.len() - j,
    {
        let den = denominator_of(points, j);
        match den.inverse() {
            None => {
                proof {
                    lemma_zero_has_no_inverse(denominator(pts, j as int));
                }
                return None;
            },
            Some(inv) => {
                proof {
                    lemma_mul_mod_noop_right(inv@, denominator(pts, j as int), modulus());
                }
                inverses.push(inv);
            },
        }
        j = j + 1;
    }
    proof {
        assert forall|t: int| 0 <= t < pts.len() implies has_inverse(#[trigger] denominator(pts, t)) by {
            assert(is_inverse(inverses[t]@, denominator(pts, t)));
        }
    }
    let n = if points.len() < evals.len() { points.len() } else { evals.len() };
    let mut res: Vec<Scalar> = Vec::new();
    let mut i: usize = 0;
    while i < n
        invariant
            0 <= i <= n,
            n <= points.len(),
            n <= evals.len(),
            points.len() < usize::MAX - 2,
            pts == vals(points@),
            evs == vals(evals@),
            all_wf(points@),
            all_wf(evals@),
            inverses.len() == points.len(),
            all_wf(inverses@),
            forall|t: int|
                0 <= t < points.len() ==> is_inverse((#[trigger] inverses[t])@, denominator(pts, t)),
            all_wf(res@),
            is_normal(vals(res@)),
            same_poly(vals(res@), lagrange_sum(pts, evs, i as nat)),
        decreases n - i,
    {
        let basis = roots_polynomial(points, Some(i));
        let y = evals[i];
        let inv = inverses[i];
        assert(y.wf() && inv.wf());
        let c = inv.mul(&y);
        let term = scale(&basis, &c);
        let next = crate::ark::poly::add(&res, &term);
        proof {
            let prev = lagrange_sum(pts, evs, i as nat);
            let den = denominator(pts, i as int);
            let f = field_inv(den);
            assert(is_inverse(inv@, den));
            lemma_inverse_unique(inv@, f, den);
            let target_basis = roots_poly(pts, i as int);
            let target_term = p_scale(f * evs[i as int], target_basis);
            lemma_canon_properties(target_basis);
            lemma_cong_reduce(inv@ * y@);
            assert forall|k: int|
                cong(#[trigger] coeff(vals(next@), k), coeff(p_add(prev, target_term), k)) by {
                lemma_p_add_coeff(prev, target_term, k);
                lemma_p_scale_coeff(f * evs[i as int], target_basis, k);
                assert(cong(coeff(vals(res@), k), coeff(prev, k)));
                assert(cong(coeff(vals(term@), k), c@ * coeff(vals(basis@), k)));
                assert(cong(coeff(vals(basis@), k), coeff(target_basis, k)));
                lemma_cong_mul(c@, f * evs[i as int], coeff(vals(basis@), k), coeff(target_basis, k));
                lemma_cong_add(
                    coeff(vals(res@), k),
                    coeff(prev, k),
                    coeff(vals(term@), k),
                    coeff(target_term, k),
                );
            }
        }
        res = next;
        i = i + 1;
    }
    proof {
        lemma_vals_canonical(res@);
        lemma_canon_unique(vals(res@), lagrange_sum(pts, evs, n as nat));
    }
    Some(res)
}

} // verus!
