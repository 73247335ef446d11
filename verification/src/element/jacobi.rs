use vstd::prelude::*;

use crate::numeric::bigint::{big_add, big_clone, big_from_i64, big_mul, big_sub, big_value};
use crate::numeric::combinatorics::{
    lemma_binomial_diagonal, lemma_pow_add, lemma_pow_neg, lemma_pow_nonzero,
    lemma_pow_zero_base, lemma_sum_int_reverse, lemma_sum_int_scale, lemma_sum_int_zero,
    spec_binomial, spec_pow, sum_int,
};

use num::bigint::BigInt;

verus! {

/// Binomial coefficient extended to integer arguments: `C(n, 0) == 1` for
/// every `n`, and `C(n, k) == 0` outside `0 <= k <= n`.
pub open spec fn spec_gbinom(n: int, k: int) -> int {
    if k == 0 {
        1
    } else if 0 < k <= n {
        spec_binomial(n as nat, k as nat) as int
    } else {
        0
    }
}

/// Coefficient `k` of the degree-`degree` Jacobi polynomial with parameters
/// `(alpha, beta)`: `C(degree+alpha, k) * C(degree+beta, degree-k)`.
pub open spec fn spec_jacobi_coeff(degree: nat, alpha: int, beta: int, k: int) -> int {
    spec_gbinom(degree + alpha, k) * spec_gbinom(degree + beta, degree - k)
}

/// The monomial terms of the Jacobi polynomial at the rational point
/// `x_num / x_den`, cleared of denominators: term `k` is
/// `coeff_k * (x_num - x_den)^(degree-k) * (x_num + x_den)^k`.
pub open spec fn spec_jacobi_terms(
    degree: nat,
    alpha: int,
    beta: int,
    x_num: int,
    x_den: int,
) -> Seq<int> {
    Seq::new(
        degree + 1,
        |k: int|
            spec_jacobi_coeff(degree, alpha, beta, k) * spec_pow(x_num - x_den, (degree - k) as nat)
                * spec_pow(x_num + x_den, k as nat),
    )
}

/// Numerator of the exact value of the Jacobi polynomial at `x_num / x_den`,
/// over the denominator `(2 * x_den)^degree`: the terms summed in ascending
/// index order.
pub open spec fn spec_jacobi_numerator(
    degree: nat,
    alpha: int,
    beta: int,
    x_num: int,
    x_den: int,
) -> int {
    sum_int(spec_jacobi_terms(degree, alpha, beta, x_num, x_den))
}

/// A member of the Jacobi family of orthogonal polynomials, held as its
/// degree, its two integer parameters and its exact integer coefficients.
pub struct Jacobi {
    degree: usize,
    alpha: i32,
    beta: i32,
    coeffs: Vec<BigInt>,
}

impl Jacobi {
    /// The polynomial's degree.
    pub closed spec fn spec_degree(&self) -> usize {
        self.degree
    }

    /// The polynomial's first parameter.
    pub closed spec fn spec_alpha(&self) -> i32 {
        self.alpha
    }

    /// The polynomial's second parameter.
    pub closed spec fn spec_beta(&self) -> i32 {
        self.beta
    }

    /// Well-formedness: parameters at least `-1`, and one exact coefficient
    /// per power, each the binomial-combinatorial function of the degree and
    /// the parameters.
    pub closed spec fn wf(&self) -> bool {
        &&& self.alpha >= -1
        &&& self.beta >= -1
        &&& self.coeffs@.len() == self.degree + 1
        &&& forall|k: int|
            0 <= k <= self.degree ==> big_value(#[trigger] self.coeffs@[k]) == spec_jacobi_coeff(
                self.degree as nat,
                self.alpha as int,
                self.beta as int,
                k,
            )
    }

    /// Construct the Jacobi polynomial of the given degree and parameters.
    /// Construction fails exactly when `alpha < -1` or `beta < -1`. The
    /// preconditions only keep the Pascal row lengths within a machine
    /// word.
    pub fn new(degree: usize, alpha: i32, beta: i32) -> (r: Option<Jacobi>)
        requires
            degree + alpha < usize::MAX,
            degree + beta < usize::MAX,
            degree < usize::MAX,
        ensures
            r is Some <==> (alpha >= -1 && beta >= -1),
            r is Some ==> {
                &&& r.unwrap().wf()
                &&& r.unwrap().spec_degree() == degree
                &&& r.unwrap().spec_alpha() == alpha
                &&& r.unwrap().spec_beta() == beta
            },
    {
        if alpha < -1 || beta < -1 {
            return None;
        }
        let ghost na: int = degree + alpha;
        let ghost nb: int = degree + beta;
        let row_a = parameter_row(degree, alpha);
        let row_b = parameter_row(degree, beta);
        let mut coeffs: Vec<BigInt> = Vec::new();
        let mut k: usize = 0;
        while k <= degree
            invariant
                k <= degree + 1,
                degree < usize::MAX,
                alpha >= -1,
                beta >= -1,
                row_models(row_a@, na),
                row_models(row_b@, nb),
                na == degree + alpha,
                nb == degree + beta,
                coeffs@.len() == k,
                forall|j: int|
                    0 <= j < k ==> big_value(#[trigger] coeffs@[j]) == spec_jacobi_coeff(
                        degree as nat,
                        alpha as int,
                        beta as int,
                        j,
                    ),
            decreases degree + 1 - k,
        {
            let g1 = gbinom_from_row(&row_a, Ghost(na), k);
            let g2 = gbinom_from_row(&row_b, Ghost(nb), degree - k);
            let c = big_mul(&g1, &g2);
            coeffs.push(c);
            k = k + 1;
        }
        Some(Jacobi { degree, alpha, beta, coeffs })
    }

    /// Return the degree of the polynomial.
    pub fn get_degree(&self) -> (r: usize)
        ensures
            r == self.spec_degree(),
    {
        self.degree
    }

    /// Return the alpha parameter of the polynomial.
    pub fn get_alpha(&self) -> (r: i32)
        ensures
            r == self.spec_alpha(),
    {
        self.alpha
    }

    /// Return the beta parameter of the polynomial.
    pub fn get_beta(&self) -> (r: i32)
        ensures
            r == self.spec_beta(),
    {
        self.beta
    }

    /// The exact coefficients, lowest index first; coefficient `k` weights
    /// the monomial `(x-1)^(degree-k) * (x+1)^k`.
    pub fn get_coefficients(&self) -> (r: &Vec<BigInt>)
        requires
            self.wf(),
        ensures
            r@.len() == self.spec_degree() + 1,
            forall|k: int|
                0 <= k <= self.spec_degree() ==> big_value(#[trigger] r@[k]) == spec_jacobi_coeff(
                    self.spec_degree() as nat,
                    self.spec_alpha() as int,
                    self.spec_beta() as int,
                    k,
                ),
    {
        &self.coeffs
    }

    /// Evaluate the polynomial exactly at the rational point
    /// `x_num / x_den`, returning the numerator and the denominator
    /// `(2 * x_den)^degree` of the exact value as big integers.
    /// The terms are summed in ascending coefficient order.
    pub fn evaluate_rational(&self, x_num: i64, x_den: i64) -> (r: (BigInt, BigInt))
        requires
            self.wf(),
            x_den != 0,
        ensures
            big_value(r.0) == spec_jacobi_numerator(
                self.spec_degree() as nat,
                self.spec_alpha() as int,
                self.spec_beta() as int,
                x_num as int,
                x_den as int,
            ),
            big_value(r.1) == spec_pow(2 * x_den, self.spec_degree() as nat),
    {
        let ghost d: nat = self.degree as nat;
        let ghost terms: Seq<int> = spec_jacobi_terms(
            d,
            self.alpha as int,
            self.beta as int,
            x_num as int,
            x_den as int,
        );
        let len = self.coeffs.len();
        let xnb = big_from_i64(x_num);
        let xdb = big_from_i64(x_den);
        let xm = big_sub(&xnb, &xdb);
        let xp = big_add(&xnb, &xdb);
        let mut acc = big_from_i64(0);
        let mut k: usize = 0;
        assert(terms.take(0) =~= Seq::<int>::empty());
        while k <= self.degree
            invariant
                self.wf(),
                k <= self.degree + 1,
                self.degree < len == self.coeffs@.len(),
                big_value(xm) == x_num - x_den,
                big_value(xp) == x_num + x_den,
                d == self.degree as nat,
                terms == spec_jacobi_terms(
                    d,
                    self.alpha as int,
                    self.beta as int,
                    x_num as int,
                    x_den as int,
                ),
                big_value(acc) == sum_int(terms.take(k as int)),
            decreases self.degree + 1 - k,
        {
            let pm = big_pow(&xm, self.degree - k);
            let pp = big_pow(&xp, k);
            let t1 = big_mul(&self.coeffs[k], &pm);
            let t2 = big_mul(&t1, &pp);
            acc = big_add(&acc, &t2);
            proof {
                assert(terms.take(k + 1).drop_last() =~= terms.take(k as int));
                assert(terms.take(k + 1).last() == terms[k as int]);
            }
            k = k + 1;
        }
        proof {
            assert(terms.take(self.degree + 1) =~= terms);
        }
        let two = big_from_i64(2);
        let txd = big_mul(&two, &xdb);
        let den = big_pow(&txd, self.degree);
        (acc, den)
    }
}

/// A sequence of big integers holds row `n` of Pascal's triangle: empty when
/// `n < 0`, else entry `j` is `C(n, j)`.
pub open spec fn row_models(row: Seq<BigInt>, n: int) -> bool {
    &&& row.len() == if n >= 0 {
        n + 1
    } else {
        0
    }
    &&& forall|j: int|
        0 <= j < row.len() ==> big_value(#[trigger] row[j]) == spec_binomial(
            n as nat,
            j as nat,
        ) as int
}

/// Row `n` of Pascal's triangle, built by the additive recurrence.
fn pascal_row(n: usize) -> (r: Vec<BigInt>)
    requires
        n < usize::MAX,
    ensures
        row_models(r@, n as int),
{
    let mut row: Vec<BigInt> = Vec::new();
    row.push(big_from_i64(1));
    let mut i: usize = 0;
    while i < n
        invariant
            i <= n,
            n < usize::MAX,
            row_models(row@, i as int),
        decreases n - i,
    {
        let mut next: Vec<BigInt> = Vec::new();
        next.push(big_from_i64(1));
        let mut j: usize = 1;
        while j <= i
            invariant
                1 <= j <= i + 1,
                i < n < usize::MAX,
                row_models(row@, i as int),
                next@.len() == j,
                forall|t: int|
                    0 <= t < j ==> big_value(#[trigger] next@[t]) == spec_binomial(
                        (i + 1) as nat,
                        t as nat,
                    ) as int,
            decreases i + 1 - j,
        {
            next.push(big_add(&row[j - 1], &row[j]));
            j = j + 1;
        }
        next.push(big_from_i64(1));
        proof {
            lemma_binomial_diagonal((i + 1) as nat);
        }
        row = next;
        i = i + 1;
    }
    row
}

/// The Pascal row for parameter sum `degree + p`, empty when that sum is
/// negative (only possible as `-1`, for `degree == 0` and `p == -1`).
fn parameter_row(degree: usize, p: i32) -> (r: Vec<BigInt>)
    requires
        p >= -1,
        degree + p < usize::MAX,
    ensures
        row_models(r@, degree + p),
{
    if p >= 0 {
        pascal_row(degree + (p as usize))
    } else if degree == 0 {
        Vec::new()
    } else {
        pascal_row(degree - 1)
    }
}

/// Look the extended binomial coefficient `C(n, k)` up in Pascal row `n`.
fn gbinom_from_row(row: &Vec<BigInt>, Ghost(n): Ghost<int>, k: usize) -> (r: BigInt)
    requires
        row_models(row@, n),
    ensures
        big_value(r) == spec_gbinom(n, k as int),
{
    if k < row.len() {
        big_clone(&row[k])
    } else if k == 0 {
        big_from_i64(1)
    } else {
        big_from_i64(0)
    }
}

/// Raise a big integer to a machine-sized power by repeated multiplication.
fn big_pow(base: &BigInt, e: usize) -> (r: BigInt)
    ensures
        big_value(r) == spec_pow(big_value(*base), e as nat),
{
    let mut acc = big_from_i64(1);
    let mut i: usize = 0;
    while i < e
        invariant
            i <= e,
            big_value(acc) == spec_pow(big_value(*base), i as nat),
        decreases e - i,
    {
        acc = big_mul(base, &acc);
        i = i + 1;
    }
    acc
}

/// At the right endpoint (`x == 1`, i.e. `x_num == x_den`) the numerator of
/// the Jacobi polynomial is `C(degree+alpha, degree)` times the denominator
/// `(2*x_den)^degree`: the value there is the binomial coefficient itself.
pub proof fn lemma_value_at_right_end(degree: nat, alpha: int, beta: int, x_den: int)
    ensures
        spec_jacobi_numerator(degree, alpha, beta, x_den, x_den) == spec_gbinom(
            degree + alpha,
            degree as int,
        ) * spec_pow(2 * x_den, degree),
        x_den != 0 ==> spec_pow(2 * x_den, degree) != 0,
{
    if x_den != 0 {
        lemma_pow_nonzero(2 * x_den, degree);
    }
    let terms = spec_jacobi_terms(degree, alpha, beta, x_den, x_den);
    assert forall|k: int| 0 <= k < degree implies terms[k] == 0 by {
        lemma_pow_zero_base((degree - k) as nat);
    }
    assert(forall|i: int| 0 <= i < terms.drop_last().len() ==> #[trigger] terms.drop_last()[i]
        == 0);
    lemma_sum_int_zero(terms.drop_last());
    assert(terms.last() == terms[degree as int]);
    assert(terms[degree as int] == spec_jacobi_coeff(degree, alpha, beta, degree as int) * spec_pow(
        0,
        0,
    ) * spec_pow(2 * x_den, degree));
    assert(spec_jacobi_coeff(degree, alpha, beta, degree as int) == spec_gbinom(
        degree + alpha,
        degree as int,
    ));
}

/// At the left endpoint (`x == -1`, i.e. `x_num == -x_den`) the numerator of
/// the Jacobi polynomial is `(-1)^degree * C(degree+beta, degree)` times the
/// denominator `(2*x_den)^degree`.
pub proof fn lemma_value_at_left_end(degree: nat, alpha: int, beta: int, x_den: int)
    ensures
        spec_jacobi_numerator(degree, alpha, beta, -x_den, x_den) == spec_pow(-1, degree)
            * spec_gbinom(degree + beta, degree as int) * spec_pow(2 * x_den, degree),
        x_den != 0 ==> spec_pow(2 * x_den, degree) != 0,
{
    if x_den != 0 {
        lemma_pow_nonzero(2 * x_den, degree);
    }
    let terms = spec_jacobi_terms(degree, alpha, beta, -x_den, x_den);
    assert forall|k: int| 0 < k <= degree implies terms[k] == 0 by {
        lemma_pow_zero_base(k as nat);
        assert(terms[k] == spec_jacobi_coeff(degree, alpha, beta, k) * spec_pow(
            -x_den - x_den,
            (degree - k) as nat,
        ) * 0);
    }
    lemma_sum_int_from_first_only(terms);
    let g = spec_gbinom(degree + beta, degree as int);
    assert(terms[0] == (1 * g) * spec_pow(-2 * x_den, degree) * 1);
    lemma_pow_neg(2 * x_den, degree);
    assert(-(2 * x_den) == -2 * x_den);
    let s = spec_pow(-1, degree);
    let p = spec_pow(2 * x_den, degree);
    assert((1 * g) * (s * p) * 1 == s * g * p) by (nonlinear_arith);
}

/// A sequence whose entries past the first are all zero sums to its first
/// entry.
proof fn lemma_sum_int_from_first_only(s: Seq<int>)
    requires
        s.len() > 0,
        forall|i: int| 0 < i < s.len() ==> s[i] == 0,
    ensures
        sum_int(s) == s[0],
    decreases s.len(),
{
    if s.len() == 1 {
        assert(s.drop_last() =~= Seq::<int>::empty());
        assert(sum_int(s) == sum_int(Seq::<int>::empty()) + s.last());
    } else {
        assert(forall|i: int| 0 < i < s.drop_last().len() ==> #[trigger] s.drop_last()[i] == 0);
        lemma_sum_int_from_first_only(s.drop_last());
        assert(s.last() == 0);
    }
}

/// The symmetry law of the Jacobi family: evaluating at `-x` with parameters
/// `(alpha, beta)` gives `(-1)^degree` times the value at `x` with the
/// parameters swapped. Stated over the cleared numerators, whose common
/// denominator `(2*x_den)^degree` is unchanged by the reflection.
pub proof fn lemma_symmetry(degree: nat, alpha: int, beta: int, x_num: int, x_den: int)
    ensures
        spec_jacobi_numerator(degree, alpha, beta, -x_num, x_den) == spec_pow(-1, degree)
            * spec_jacobi_numerator(degree, beta, alpha, x_num, x_den),
{
    let tl = spec_jacobi_terms(degree, alpha, beta, -x_num, x_den);
    let tr = spec_jacobi_terms(degree, beta, alpha, x_num, x_den);
    let sgn = spec_pow(-1, degree);
    let scaled = tr.reverse().map_values(|t: int| sgn * t);
    assert forall|k: int| 0 <= k <= degree implies tl[k] == scaled[k] by {
        let g1 = spec_gbinom(degree + alpha, k);
        let g2 = spec_gbinom(degree + beta, degree - k);
        let s1 = spec_pow(-1, (degree - k) as nat);
        let s2 = spec_pow(-1, k as nat);
        let p1 = spec_pow(x_num + x_den, (degree - k) as nat);
        let p2 = spec_pow(x_num - x_den, k as nat);
        lemma_pow_neg(x_num + x_den, (degree - k) as nat);
        lemma_pow_neg(x_num - x_den, k as nat);
        lemma_pow_add(-1, (degree - k) as nat, k as nat);
        assert(-x_num - x_den == -(x_num + x_den));
        assert(-x_num + x_den == -(x_num - x_den));
        assert(spec_pow(-x_num - x_den, (degree - k) as nat) == s1 * p1);
        assert(spec_pow(-x_num + x_den, k as nat) == s2 * p2);
        assert(tl[k] == (g1 * g2) * (s1 * p1) * (s2 * p2));
        assert(tr.reverse()[k] == tr[degree - k]);
        assert(degree - (degree - k) == k);
        assert(tr[degree - k] == (g2 * g1) * spec_pow(x_num - x_den, k as nat) * spec_pow(
            x_num + x_den,
            (degree - k) as nat,
        ));
        assert(sgn == s1 * s2);
        assert((g1 * g2) * (s1 * p1) * (s2 * p2) == (s1 * s2) * ((g2 * g1) * p2
            * p1)) by (nonlinear_arith);
        assert(scaled[k] == sgn * tr[degree - k]);
    }
    assert(tl =~= scaled);
    lemma_sum_int_scale(tr.reverse(), sgn);
    lemma_sum_int_reverse(tr);
    assert(sum_int(scaled) == sum_int(tr.reverse().map_values(|t: int| sgn * t)));
}

} // verus!
