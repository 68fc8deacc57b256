//! Polynomial threshold sharing and the homomorphic combination of shares.

use vstd::arithmetic::div_mod::{lemma_add_mod_noop, lemma_mod_twice, lemma_mul_mod_noop};
use vstd::prelude::*;

use crate::field::{calc_mod, reduce, ShareError, PRIME};
use crate::polynomial::{
    eval_fits, eval_prefix, polynomial_eval, polynomial_multiply, poly_value, power, product_coeff,
    product_len,
};
use crate::random::random_below;

verus! {

/// Whether every point `1..=n` at which shares of `c` are taken fits an
/// `i32`, and evaluating `c` there never leaves `i32`.
pub open spec fn shares_fit(c: Seq<i32>) -> bool {
    &&& c.len() <= i32::MAX
    &&& forall|k: int| 1 <= k <= c.len() ==> #[trigger] eval_fits(c, k)
}

/// Whether `shares` are the values of `c` at the points `1..=|shares|`,
/// each reduced into the field.
pub open spec fn shares_of(c: Seq<i32>, shares: Seq<i32>) -> bool {
    forall|k: int| 0 <= k < shares.len() ==> #[trigger] shares[k] == reduce(poly_value(c, k + 1))
}

/// Takes one share per coefficient of `coefficients`: its value at
/// `x = 1, 2, ..., n`, each reduced into the field. Fails with
/// `ArithmeticOverflow` exactly when a point or an evaluation leaves `i32`.
pub fn shares_from_polynomial(coefficients: &[i32]) -> (r: Result<Vec<i32>, ShareError>)
    ensures
        shares_fit(coefficients@) <==> r is Ok,
        r is Ok ==> r->Ok_0@.len() == coefficients@.len(),
        r is Ok ==> shares_of(coefficients@, r->Ok_0@),
        r is Err ==> r->Err_0 == ShareError::ArithmeticOverflow,
{
    let n = coefficients.len();
    if n > i32::MAX as usize {
        return Err(ShareError::ArithmeticOverflow);
    }
    let mut shares: Vec<i32> = Vec::new();
    let mut k: usize = 0;
    while k < n
        invariant
            n == coefficients@.len(),
            n <= i32::MAX,
            0 <= k <= n,
            shares@.len() == k,
            shares_of(coefficients@, shares@),
            forall|j: int| 1 <= j <= k ==> #[trigger] eval_fits(coefficients@, j),
        decreases n - k,
    {
        let x = (k + 1) as i32;
        let y = match polynomial_eval(coefficients, x) {
            Ok(y) => y,
            Err(e) => {
                assert(!eval_fits(coefficients@, x as int));
                return Err(e);
            },
        };
        shares.push(calc_mod(y));
        k += 1;
    }
    Ok(shares)
}

/// Powers of a point in `1..=8` up to the seventh stay within `8^7`.
proof fn lemma_small_power(x: int, i: nat)
    requires
        1 <= x <= 8,
        i <= 7,
    ensures
        1 <= power(x, i) <= power(8, i),
        power(8, i) <= 2097152,
    decreases i,
{
    assert(power(8, 0) == 1);
    assert(power(8, 1) == 8);
    assert(power(8, 2) == 64);
    assert(power(8, 3) == 512);
    assert(power(8, 4) == 4096);
    assert(power(8, 5) == 32768);
    assert(power(8, 6) == 262144);
    assert(power(8, 7) == 2097152);
    if i > 0 {
        lemma_small_power(x, (i - 1) as nat);
        let a = power(x, (i - 1) as nat);
        let b = power(8, (i - 1) as nat);
        assert(1 <= x * a <= 8 * b) by (nonlinear_arith)
            requires
                1 <= x <= 8,
                1 <= a <= b,
        ;
    }
}

/// A polynomial of at most eight coefficients in `[0, PRIME)` evaluates
/// within `i32` at every point of `1..=8`, term by term.
proof fn lemma_small_polynomial_fits(c: Seq<i32>, x: int)
    requires
        c.len() <= 8,
        1 <= x <= 8,
        forall|i: int| 0 <= i < c.len() ==> 0 <= #[trigger] c[i] < PRIME,
    ensures
        eval_fits(c, x),
{
    assert forall|i: int| 0 <= i < c.len() implies #[trigger] crate::polynomial::term_fits(
        c,
        x,
        i,
    ) by {
        lemma_small_power(x, i as nat);
        lemma_small_prefix(c, x, (i + 1) as nat);
        assert((i + 1) * (126 * 2097152) <= 8 * (126 * 2097152)) by (nonlinear_arith)
            requires
                i + 1 <= 8,
        ;
        let pw = power(x, i as nat);
        assert(0 <= c[i] * pw <= 126 * 2097152) by (nonlinear_arith)
            requires
                0 <= c[i] < 127,
                1 <= pw <= 2097152,
        ;
    }
}

/// The running sums of such an evaluation stay within `k * 126 * 8^7`.
proof fn lemma_small_prefix(c: Seq<i32>, x: int, k: nat)
    requires
        k <= c.len() <= 8,
        1 <= x <= 8,
        forall|i: int| 0 <= i < c.len() ==> 0 <= #[trigger] c[i] < PRIME,
    ensures
        0 <= eval_prefix(c, x, k) <= k * (126 * 2097152),
    decreases k,
{
    if k > 0 {
        let j = (k - 1) as nat;
        lemma_small_prefix(c, x, j);
        lemma_small_power(x, j);
        let pw = power(x, j);
        let cj = c[j as int] as int;
        assert(0 <= cj * pw <= 126 * 2097152) by (nonlinear_arith)
            requires
                0 <= cj < 127,
                1 <= pw <= 2097152,
        ;
    }
}

/// Shamir-style sharing: builds a polynomial of `n` coefficients whose
/// constant term is `secret` and whose other coefficients are drawn from
/// `[0, PRIME)`, and returns its values at `1..=n` (reduced into the field)
/// together with the polynomial.
pub fn share(secret: i32, n: usize) -> (r: Result<(Vec<i32>, Vec<i32>), ShareError>)
    ensures
        r is Err && r->Err_0 == ShareError::InvalidPartyCount <==> n == 0,
        r is Err ==> r->Err_0 == ShareError::InvalidPartyCount || r->Err_0
            == ShareError::ArithmeticOverflow,
        n == 1 ==> r is Ok,
        1 <= n <= 8 && 0 <= secret < PRIME ==> r is Ok,
        r is Ok ==> r->Ok_0.1@.len() == n && r->Ok_0.1@[0] == secret,
        r is Ok ==> forall|i: int| 1 <= i < n ==> 0 <= #[trigger] r->Ok_0.1@[i] < PRIME,
        r is Ok ==> r->Ok_0.0@.len() == n,
        r is Ok ==> shares_of(r->Ok_0.1@, r->Ok_0.0@),
        r is Ok && n == 1 ==> r->Ok_0.1@ == seq![secret] && r->Ok_0.0@ == seq![
            reduce(secret as int) as i32,
        ],
        r is Err && r->Err_0 == ShareError::ArithmeticOverflow ==> n >= 2,
{
    if n == 0 {
        return Err(ShareError::InvalidPartyCount);
    }
    let mut polynomial: Vec<i32> = Vec::new();
    polynomial.push(secret);
    let mut i: usize = 1;
    while i < n
        invariant
            1 <= i <= n,
            polynomial@.len() == i,
            polynomial@[0] == secret,
            forall|j: int| 1 <= j < i ==> 0 <= #[trigger] polynomial@[j] < PRIME,
        decreases n - i,
    {
        polynomial.push(random_below(PRIME));
        i += 1;
    }
    proof {
        if n == 1 {
            let c = polynomial@;
            assert(c =~= seq![secret]);
            assert(power(1, 0) == 1);
            assert(eval_prefix(c, 1, 0) == 0);
            assert(c[0] * power(1, 0) == secret);
            assert(eval_prefix(c, 1, 1) == secret);
            assert(crate::polynomial::term_fits(c, 1, 0));
            assert(eval_fits(c, 1));
            assert(shares_fit(c));
        }
        if 1 <= n <= 8 && 0 <= secret < PRIME {
            assert forall|k: int| 1 <= k <= polynomial@.len() implies #[trigger] eval_fits(
                polynomial@,
                k,
            ) by {
                lemma_small_polynomial_fits(polynomial@, k);
            }
        }
    }
    match shares_from_polynomial(polynomial.as_slice()) {
        Ok(shares) => {
            proof {
                if n == 1 {
                    assert(shares@[0] == reduce(poly_value(polynomial@, 1)));
                    assert(eval_prefix(polynomial@, 1, 1) == secret);
                    assert(shares@ =~= seq![reduce(secret as int) as i32]);
                }
            }
            Ok((shares, polynomial))
        },
        Err(e) => Err(e),
    }
}

/// The pointwise reduced sum of `a` and `b`.
pub open spec fn pointwise_sum(a: Seq<i32>, b: Seq<i32>) -> Seq<i32> {
    Seq::new(a.len(), |i: int| reduce(a[i] + b[i]) as i32)
}

/// The pointwise reduced product of `a` and `b`.
pub open spec fn pointwise_product(a: Seq<i32>, b: Seq<i32>) -> Seq<i32> {
    Seq::new(a.len(), |i: int| reduce(a[i] * b[i]) as i32)
}

/// Adds two share sequences position by position, reducing each sum into
/// the field. Fails with `ShapeMismatch` exactly when their lengths differ.
pub fn combine_additive(shares_a: &[i32], shares_b: &[i32]) -> (r: Result<Vec<i32>, ShareError>)
    ensures
        r is Ok <==> shares_a@.len() == shares_b@.len(),
        r is Ok ==> r->Ok_0@ == pointwise_sum(shares_a@, shares_b@),
        r is Err ==> r->Err_0 == ShareError::ShapeMismatch,
{
    if shares_a.len() != shares_b.len() {
        return Err(ShareError::ShapeMismatch);
    }
    let mut combined: Vec<i32> = Vec::new();
    let mut i: usize = 0;
    while i < shares_a.len()
        invariant
            shares_a@.len() == shares_b@.len(),
            0 <= i <= shares_a@.len(),
            combined@ == pointwise_sum(shares_a@, shares_b@).take(i as int),
        decreases shares_a.len() - i,
    {
        let x = calc_mod(shares_a[i]);
        let y = calc_mod(shares_b[i]);
        proof {
            lemma_add_mod_noop(shares_a@[i as int] as int, shares_b@[i as int] as int, PRIME as int);
        }
        combined.push(calc_mod(x + y));
        i += 1;
        assert(combined@ =~= pointwise_sum(shares_a@, shares_b@).take(i as int));
    }
    assert(combined@ =~= pointwise_sum(shares_a@, shares_b@));
    Ok(combined)
}

/// Adds two polynomials coefficient by coefficient, reducing each sum into
/// the field. Fails with `ShapeMismatch` exactly when their lengths differ.
pub fn combine_polynomials_additive(poly_a: &[i32], poly_b: &[i32]) -> (r: Result<
    Vec<i32>,
    ShareError,
>)
    ensures
        r is Ok <==> poly_a@.len() == poly_b@.len(),
        r is Ok ==> r->Ok_0@ == pointwise_sum(poly_a@, poly_b@),
        r is Err ==> r->Err_0 == ShareError::ShapeMismatch,
{
    combine_additive(poly_a, poly_b)
}

/// Multiplies two share sequences position by position, reducing each
/// product into the field. Fails with `ShapeMismatch` exactly when their
/// lengths differ.
pub fn combine_multiplicative(shares_a: &[i32], shares_b: &[i32]) -> (r: Result<
    Vec<i32>,
    ShareError,
>)
    ensures
        r is Ok <==> shares_a@.len() == shares_b@.len(),
        r is Ok ==> r->Ok_0@ == pointwise_product(shares_a@, shares_b@),
        r is Err ==> r->Err_0 == ShareError::ShapeMismatch,
{
    if shares_a.len() != shares_b.len() {
        return Err(ShareError::ShapeMismatch);
    }
    let mut combined: Vec<i32> = Vec::new();
    let mut i: usize = 0;
    while i < shares_a.len()
        invariant
            shares_a@.len() == shares_b@.len(),
            0 <= i <= shares_a@.len(),
            combined@ == pointwise_product(shares_a@, shares_b@).take(i as int),
        decreases shares_a.len() - i,
    {
        let x = calc_mod(shares_a[i]);
        let y = calc_mod(shares_b[i]);
        proof {
            lemma_mul_mod_noop(shares_a@[i as int] as int, shares_b@[i as int] as int, PRIME as int);
            assert(0 <= x * y < 127 * 127) by (nonlinear_arith)
                requires
                    0 <= x < 127,
                    0 <= y < 127,
            ;
        }
        combined.push(calc_mod(x * y));
        i += 1;
        assert(combined@ =~= pointwise_product(shares_a@, shares_b@).take(i as int));
    }
    assert(combined@ =~= pointwise_product(shares_a@, shares_b@));
    Ok(combined)
}

/// Reduces each value of `values` into the field: the explicit last step
/// after a combination that leaves raw integers, such as the product of
/// two polynomials.
pub fn reduce_all(values: &[i32]) -> (r: Vec<i32>)
    ensures
        r@.len() == values@.len(),
        forall|i: int| 0 <= i < r@.len() ==> #[trigger] r@[i] == reduce(values@[i] as int),
{
    let mut reduced: Vec<i32> = Vec::new();
    let mut i: usize = 0;
    while i < values.len()
        invariant
            0 <= i <= values@.len(),
            reduced@.len() == i,
            forall|j: int| 0 <= j < i ==> #[trigger] reduced@[j] == reduce(values@[j] as int),
        decreases values.len() - i,
    {
        reduced.push(calc_mod(values[i]));
        i += 1;
    }
    reduced
}

/// Additive homomorphism: where `shares_a` and `shares_b` are the shares of
/// two polynomials of equal length, their pointwise reduced sum is the
/// set of shares of the pointwise reduced sum of the polynomials.
pub proof fn lemma_additive_homomorphism(
    poly_a: Seq<i32>,
    poly_b: Seq<i32>,
    shares_a: Seq<i32>,
    shares_b: Seq<i32>,
)
    requires
        poly_a.len() == poly_b.len(),
        shares_a.len() == shares_b.len(),
        shares_of(poly_a, shares_a),
        shares_of(poly_b, shares_b),
    ensures
        shares_of(pointwise_sum(poly_a, poly_b), pointwise_sum(shares_a, shares_b)),
{
    let sum_poly = pointwise_sum(poly_a, poly_b);
    let sum_shares = pointwise_sum(shares_a, shares_b);
    assert forall|k: int| 0 <= k < sum_shares.len() implies #[trigger] sum_shares[k] == reduce(
        poly_value(sum_poly, k + 1),
    ) by {
        let p = PRIME as int;
        let va = poly_value(poly_a, k + 1);
        let vb = poly_value(poly_b, k + 1);
        lemma_sum_poly_value(poly_a, poly_b, k + 1, poly_a.len());
        lemma_add_mod_noop(va, vb, p);
        assert(shares_a[k] == reduce(va));
        assert(shares_b[k] == reduce(vb));
        lemma_mod_twice(va, p);
        lemma_mod_twice(vb, p);
        lemma_add_mod_noop(shares_a[k] as int, shares_b[k] as int, p);
    }
}

/// Over the first `m` coefficients, the value of the pointwise reduced sum
/// of two polynomials agrees, reduced, with the sum of their values.
proof fn lemma_sum_poly_value(a: Seq<i32>, b: Seq<i32>, x: int, m: nat)
    requires
        a.len() == b.len(),
        m <= a.len(),
    ensures
        reduce(eval_prefix(pointwise_sum(a, b), x, m)) == reduce(eval_prefix(a, x, m)
            + eval_prefix(b, x, m)),
    decreases m,
{
    if m > 0 {
        let j = m - 1;
        let s = pointwise_sum(a, b);
        let p = PRIME as int;
        let pw = power(x, j as nat);
        lemma_sum_poly_value(a, b, x, j as nat);
        let es = eval_prefix(s, x, j as nat);
        let ea = eval_prefix(a, x, j as nat);
        let eb = eval_prefix(b, x, j as nat);
        assert(s[j] == reduce(a[j] + b[j]));
        lemma_mul_mod_noop(a[j] + b[j], pw, p);
        lemma_mul_mod_noop(s[j] as int, pw, p);
        lemma_mod_twice(a[j] + b[j], p);
        assert((a[j] + b[j]) * pw == a[j] * pw + b[j] * pw) by (nonlinear_arith);
        lemma_add_mod_noop(es, s[j] * pw, p);
        lemma_add_mod_noop(ea + eb, (a[j] + b[j]) * pw, p);
        assert(ea + a[j] * pw + eb + b[j] * pw == (ea + eb) + (a[j] + b[j]) * pw);
    }
}

/// One run of the homomorphic combinations: 5 and 2 shared with three
/// shares each and combined by addition, then 5 and 2 shared with two
/// shares each and combined by multiplication.
pub struct ShamirRun {
    pub shares1: Vec<i32>,
    pub polynomial1: Vec<i32>,
    pub shares2: Vec<i32>,
    pub polynomial2: Vec<i32>,
    pub combined_shares: Vec<i32>,
    pub combined_polynomial: Vec<i32>,
    pub shares3: Vec<i32>,
    pub polynomial3: Vec<i32>,
    pub shares4: Vec<i32>,
    pub polynomial4: Vec<i32>,
    pub combined_shares2: Vec<i32>,
    pub combined_polynomial2: Vec<i32>,
}

/// Shares 5 and 2 with three shares each and adds them share by share, and
/// shares 5 and 2 with two shares each and multiplies them share by share;
/// the polynomials are combined alongside, the product reduced into the
/// field coefficient by coefficient. The sum's shares are the shares
/// of the summed polynomial, whose constant term is 7.
pub fn shamir_sharing() -> (run: ShamirRun)
    ensures
        ({
            &&& run.polynomial1@.len() == 3 && run.polynomial1@[0] == 5
            &&& run.polynomial2@.len() == 3 && run.polynomial2@[0] == 2
            &&& shares_of(run.polynomial1@, run.shares1@) && run.shares1@.len() == 3
            &&& shares_of(run.polynomial2@, run.shares2@) && run.shares2@.len() == 3
            &&& run.combined_shares@ == pointwise_sum(run.shares1@, run.shares2@)
            &&& run.combined_polynomial@ == pointwise_sum(run.polynomial1@, run.polynomial2@)
            &&& shares_of(run.combined_polynomial@, run.combined_shares@)
            &&& run.combined_polynomial@[0] == 7
            &&& run.polynomial3@.len() == 2 && run.polynomial3@[0] == 5
            &&& run.polynomial4@.len() == 2 && run.polynomial4@[0] == 2
            &&& shares_of(run.polynomial3@, run.shares3@) && run.shares3@.len() == 2
            &&& shares_of(run.polynomial4@, run.shares4@) && run.shares4@.len() == 2
            &&& run.combined_shares2@ == pointwise_product(run.shares3@, run.shares4@)
            &&& run.combined_polynomial2@.len() == 3
            &&& forall|k: int|
                0 <= k < 3 ==> #[trigger] run.combined_polynomial2@[k] == reduce(
                    product_coeff(run.polynomial3@, run.polynomial4@, k),
                )
        }),
{
    let (shares1, polynomial1) = share(5, 3).unwrap();
    let (shares2, polynomial2) = share(2, 3).unwrap();
    let combined_shares = combine_additive(shares1.as_slice(), shares2.as_slice()).unwrap();
    let combined_polynomial = combine_polynomials_additive(
        polynomial1.as_slice(),
        polynomial2.as_slice(),
    ).unwrap();
    proof {
        lemma_additive_homomorphism(polynomial1@, polynomial2@, shares1@, shares2@);
        assert(combined_polynomial@[0] == reduce(7int));
    }
    let (shares3, polynomial3) = share(5, 2).unwrap();
    let (shares4, polynomial4) = share(2, 2).unwrap();
    let combined_shares2 = combine_multiplicative(shares3.as_slice(), shares4.as_slice()).unwrap();
    proof {
        let a = polynomial3@;
        let b = polynomial4@;
        assert(product_len(a, b) == 3);
        assert forall|k: int| 0 <= k < 3 implies #[trigger] crate::polynomial::fits_i32(
            product_coeff(a, b, k),
        ) by {
            let t0 = if 0 <= k < 2 { a[0] * b[k] } else { 0 };
            let t1 = if 0 <= k - 1 < 2 { a[1] * b[k - 1] } else { 0 };
            assert(crate::polynomial::conv_partial(a, b, k, 0) == 0);
            assert(crate::polynomial::conv_partial(a, b, k, 1) == t0);
            assert(product_coeff(a, b, k) == t0 + t1);
            assert(0 <= a[1] * b[1] <= 126 * 126) by (nonlinear_arith)
                requires
                    0 <= a[1] < 127,
                    0 <= b[1] < 127,
            ;
            assert(0 <= a[1] * b[0] <= 126 * 2) by (nonlinear_arith)
                requires
                    0 <= a[1] < 127,
                    b[0] == 2,
            ;
            assert(0 <= a[0] * b[1] <= 5 * 126) by (nonlinear_arith)
                requires
                    0 <= b[1] < 127,
                    a[0] == 5,
            ;
        }
    }
    let product = polynomial_multiply(polynomial3.as_slice(), polynomial4.as_slice()).unwrap();
    let combined_polynomial2 = reduce_all(product.as_slice());
    ShamirRun {
        shares1,
        polynomial1,
        shares2,
        polynomial2,
        combined_shares,
        combined_polynomial,
        shares3,
        polynomial3,
        shares4,
        polynomial4,
        combined_shares2,
        combined_polynomial2,
    }
}

} // verus!
