//! Polynomials as coefficient sequences: evaluation, multiplication and
//! text rendering.

use vstd::prelude::*;
use vstd::string::StringExecFns;

use crate::field::ShareError;

verus! {

/// `x` raised to the natural power `e`.
pub open spec fn power(x: int, e: nat) -> int
    decreases e,
{
    if e == 0 {
        1
    } else {
        x * power(x, (e - 1) as nat)
    }
}

/// Whether `v` is representable as an `i32`.
pub open spec fn fits_i32(v: int) -> bool {
    i32::MIN <= v <= i32::MAX
}

/// `c[0] + c[1] x + ... + c[k-1] x^(k-1)`, over the integers.
pub open spec fn eval_prefix(c: Seq<i32>, x: int, k: nat) -> int
    decreases k,
{
    if k == 0 {
        0
    } else {
        eval_prefix(c, x, (k - 1) as nat) + c[k - 1] * power(x, (k - 1) as nat)
    }
}

/// The value of the polynomial with coefficients `c` (index i is the
/// coefficient of x^i) at `x`, over the integers.
pub open spec fn poly_value(c: Seq<i32>, x: int) -> int {
    eval_prefix(c, x, c.len())
}

/// Term `i` of the evaluation stays within `i32`: the power of `x`, the
/// term itself and the running sum up to it.
pub open spec fn term_fits(c: Seq<i32>, x: int, i: int) -> bool {
    &&& fits_i32(power(x, i as nat))
    &&& fits_i32(c[i] * power(x, i as nat))
    &&& fits_i32(eval_prefix(c, x, (i + 1) as nat))
}

/// Evaluating `c` at `x` term by term never leaves `i32`.
pub open spec fn eval_fits(c: Seq<i32>, x: int) -> bool {
    forall|i: int| 0 <= i < c.len() ==> #[trigger] term_fits(c, x, i)
}

/// Evaluates the polynomial `data` at `x` without reducing into the field.
/// Fails with `ArithmeticOverflow` exactly when a power of `x`, a term or a
/// running sum leaves `i32`.
pub fn polynomial_eval(data: &[i32], x: i32) -> (r: Result<i32, ShareError>)
    ensures
        eval_fits(data@, x as int) <==> r is Ok,
        r is Ok ==> r->Ok_0 == poly_value(data@, x as int),
        r is Err ==> r->Err_0 == ShareError::ArithmeticOverflow,
{
    let mut pw: i32 = 1;
    let mut y: i32 = 0;
    let mut i: usize = 0;
    while i < data.len()
        invariant
            0 <= i <= data.len(),
            i < data.len() ==> pw == power(x as int, i as nat),
            y == eval_prefix(data@, x as int, i as nat),
            forall|j: int| 0 <= j < i ==> #[trigger] term_fits(data@, x as int, j),
        decreases data.len() - i,
    {
        let term = match data[i].checked_mul(pw) {
            Some(t) => t,
            None => {
                assert(!term_fits(data@, x as int, i as int));
                return Err(ShareError::ArithmeticOverflow);
            },
        };
        y = match y.checked_add(term) {
            Some(s) => s,
            None => {
                assert(!term_fits(data@, x as int, i as int));
                return Err(ShareError::ArithmeticOverflow);
            },
        };
        assert(term_fits(data@, x as int, i as int));
        if i + 1 < data.len() {
            pw = match pw.checked_mul(x) {
                Some(p) => p,
                None => {
                    assert(power(x as int, (i + 1) as nat) == x * power(x as int, i as nat));
                    assert(!term_fits(data@, x as int, (i + 1) as int));
                    return Err(ShareError::ArithmeticOverflow);
                },
            };
            assert(power(x as int, (i + 1) as nat) == x * power(x as int, i as nat));
        }
        i += 1;
    }
    Ok(y)
}

/// The sum of `a[i] * b[k - i]` over the indices `i < m` of `a` for which
/// `k - i` is an index of `b`.
pub open spec fn conv_partial(a: Seq<i32>, b: Seq<i32>, k: int, m: nat) -> int
    decreases m,
{
    if m == 0 {
        0
    } else {
        let i = m - 1;
        conv_partial(a, b, k, (m - 1) as nat) + if 0 <= k - i < b.len() {
            a[i] * b[k - i]
        } else {
            0
        }
    }
}

/// Coefficient `k` of the product of the polynomials `a` and `b`.
pub open spec fn product_coeff(a: Seq<i32>, b: Seq<i32>, k: int) -> int {
    conv_partial(a, b, k, a.len())
}

/// The number of coefficients of the product of `a` and `b`:
/// `|a| + |b| - 1`, or none when both are empty.
pub open spec fn product_len(a: Seq<i32>, b: Seq<i32>) -> nat {
    if a.len() + b.len() == 0 {
        0
    } else {
        (a.len() + b.len() - 1) as nat
    }
}

/// Multiplies two polynomials by convolution, without reducing the
/// coefficients into the field. Fails with `ArithmeticOverflow` exactly
/// when a coefficient of the product does not fit an `i32`.
pub fn polynomial_multiply(data1: &[i32], data2: &[i32]) -> (r: Result<Vec<i32>, ShareError>)
    requires
        data1.len() + data2.len() <= usize::MAX,
    ensures
        (forall|k: int| 0 <= k < product_len(data1@, data2@)
            ==> #[trigger] fits_i32(product_coeff(data1@, data2@, k))) <==> r is Ok,
        r is Ok ==> r->Ok_0@.len() == product_len(data1@, data2@),
        r is Ok ==> forall|k: int| 0 <= k < r->Ok_0@.len()
            ==> r->Ok_0@[k] == product_coeff(data1@, data2@, k),
        r is Err ==> r->Err_0 == ShareError::ArithmeticOverflow,
{
    let mut polynomial: Vec<i32> = Vec::new();
    if data1.len() == 0 && data2.len() == 0 {
        return Ok(polynomial);
    }
    let len = data1.len() + data2.len() - 1;
    let ghost a = data1@;
    let ghost b = data2@;
    let mut k: usize = 0;
    while k < len
        invariant
            a == data1@,
            b == data2@,
            len == product_len(a, b),
            0 <= k <= len,
            polynomial@.len() == k,
            forall|j: int| 0 <= j < k ==> polynomial@[j] == product_coeff(a, b, j),
            forall|j: int| 0 <= j < k ==> #[trigger] fits_i32(product_coeff(a, b, j)),
        decreases len - k,
    {
        let mut acc: i128 = 0;
        let mut i: usize = 0;
        while i < data1.len()
            invariant
                a == data1@,
                b == data2@,
                0 <= i <= data1.len(),
                k < len,
                acc == conv_partial(a, b, k as int, i as nat),
                -(i as int) * 0x4000_0000_0000_0000 <= acc <= (i as int) * 0x4000_0000_0000_0000,
            decreases data1.len() - i,
        {
            if i <= k && k - i < data2.len() {
                let x = data1[i] as i128;
                let y = data2[k - i] as i128;
                proof {
                    assert(-0x4000_0000_0000_0000 <= x * y <= 0x4000_0000_0000_0000)
                        by (nonlinear_arith)
                        requires
                            -0x8000_0000 <= x <= 0x8000_0000,
                            -0x8000_0000 <= y <= 0x8000_0000,
                    ;
                    assert((i as int) * 0x4000_0000_0000_0000 + 0x4000_0000_0000_0000
                        <= 0x4000_0000_0000_0000_0000_0000_0000_0000) by (nonlinear_arith)
                        requires
                            i < 0x1_0000_0000_0000_0000,
                    ;
                }
                acc = acc + x * y;
            }
            proof {
                assert(((i + 1) as int) * 0x4000_0000_0000_0000 == (i as int) * 0x4000_0000_0000_0000
                    + 0x4000_0000_0000_0000) by (nonlinear_arith);
            }
            i += 1;
        }
        if acc < i32::MIN as i128 || acc > i32::MAX as i128 {
            assert(!fits_i32(product_coeff(a, b, k as int)));
            return Err(ShareError::ArithmeticOverflow);
        }
        polynomial.push(acc as i32);
        k += 1;
    }
    Ok(polynomial)
}

/// The decimal digit character for `d` in `[0, 10)`.
pub open spec fn digit_char(d: int) -> char {
    (d + 48) as char
}

/// The decimal digits of a natural number, most significant first.
pub open spec fn digits(n: nat) -> Seq<char>
    decreases n,
{
    if n < 10 {
        seq![digit_char(n as int)]
    } else {
        digits(n / 10) + seq![digit_char((n % 10) as int)]
    }
}

/// The decimal text of an integer, with a leading `-` when negative.
pub open spec fn decimal(v: int) -> Seq<char> {
    if v < 0 {
        seq!['-'] + digits((-v) as nat)
    } else {
        digits(v as nat)
    }
}

/// The one-character text of the decimal digit `d`.
fn digit_text(d: u64) -> (r: &'static str)
    requires
        d < 10,
    ensures
        r@ == seq![digit_char(d as int)],
{
    proof {
        reveal_strlit("0");
        reveal_strlit("1");
        reveal_strlit("2");
        reveal_strlit("3");
        reveal_strlit("4");
        reveal_strlit("5");
        reveal_strlit("6");
        reveal_strlit("7");
        reveal_strlit("8");
        reveal_strlit("9");
    }
    match d {
        0 => "0",
        1 => "1",
        2 => "2",
        3 => "3",
        4 => "4",
        5 => "5",
        6 => "6",
        7 => "7",
        8 => "8",
        _ => "9",
    }
}

/// Appends the decimal digits of `m` to `text`.
fn append_digits(text: &mut String, m: u64)
    ensures
        final(text)@ == old(text)@ + digits(m as nat),
    decreases m,
{
    if m >= 10 {
        append_digits(text, m / 10);
    }
    text.append(digit_text(m % 10));
}

/// The decimal text of `v`, with a leading `-` when negative.
fn i32_text(v: i32) -> (r: String)
    ensures
        r@ == decimal(v as int),
{
    let mut text = String::new();
    if v < 0 {
        proof {
            reveal_strlit("-");
        }
        text.append("-");
        append_digits(&mut text, (-(v as i64)) as u64);
    } else {
        append_digits(&mut text, v as u64);
    }
    text
}

/// The decimal text of `v`.
pub(crate) fn usize_text(v: usize) -> (r: String)
    ensures
        r@ == decimal(v as int),
{
    let mut text = String::new();
    append_digits(&mut text, v as u64);
    text
}

/// The text of coefficient `i` of `c`: the coefficient, then ` x^i` unless
/// `i` is 0, then ` + ` unless it is the last one.
pub open spec fn term_text(c: Seq<i32>, i: int) -> Seq<char> {
    decimal(c[i] as int) + (if i > 0 {
        " x^"@ + decimal(i)
    } else {
        Seq::empty()
    }) + (if i + 1 < c.len() {
        " + "@
    } else {
        Seq::empty()
    })
}

/// The text of the first `k` terms of `c`.
pub open spec fn format_prefix(c: Seq<i32>, k: nat) -> Seq<char>
    decreases k,
{
    if k == 0 {
        Seq::empty()
    } else {
        format_prefix(c, (k - 1) as nat) + term_text(c, k - 1)
    }
}

/// The text of the polynomial `c`: `c0 + c1 x^1 + c2 x^2 + ...`.
pub open spec fn poly_text(c: Seq<i32>) -> Seq<char> {
    format_prefix(c, c.len())
}

/// Renders a polynomial as `c0 + c1 x^1 + c2 x^2 + ...`.
pub fn polynomial_print(data: &[i32]) -> (r: String)
    ensures
        r@ == poly_text(data@),
{
    let mut polynomial = String::new();
    let mut i: usize = 0;
    while i < data.len()
        invariant
            0 <= i <= data.len(),
            polynomial@ == format_prefix(data@, i as nat),
        decreases data.len() - i,
    {
        let ghost before = polynomial@;
        let coeff = i32_text(data[i]);
        polynomial.append(coeff.as_str());
        if i > 0 {
            polynomial.append(" x^");
            let index = usize_text(i);
            polynomial.append(index.as_str());
        }
        if i + 1 < data.len() {
            polynomial.append(" + ");
        }
        proof {
            assert(polynomial@ == before + term_text(data@, i as int));
        }
        i += 1;
    }
    polynomial
}

} // verus!
