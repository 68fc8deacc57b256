//! Chart traces of share sets and their polynomials.

use vstd::prelude::*;
use vstd::string::StringExecFns;

use crate::field::{calc_mod, reduce, ShareError};
use crate::polynomial::{decimal, eval_fits, polynomial_eval, poly_value, usize_text};

verus! {

/// The shares of one secret as chart points: the secret at `x = 0`, then
/// share `k` at `x = k`.
#[derive(Debug)]
pub struct PointsTrace {
    pub x: Vec<i32>,
    pub y: Vec<i32>,
    pub mode: String,
    pub trace_type: String,
    pub name: String,
    pub text: Vec<String>,
}

/// A polynomial sampled as a chart line, each value reduced into the field.
#[derive(Debug)]
pub struct PolyTrace {
    pub x: Vec<i32>,
    pub y: Vec<i32>,
    pub mode: String,
    pub trace_type: String,
    pub name: String,
}

/// One chart trace.
#[derive(Debug)]
pub enum Trace {
    Points(PointsTrace),
    Polynomial(PolyTrace),
}

/// The first point at which a polynomial's line is sampled.
pub const CURVE_START: i32 = -6;

/// The number of points at which a polynomial's line is sampled.
pub const CURVE_POINTS: usize = 12;

/// Whether `t` shows `points`, the shares of the polynomial `coefficients`,
/// as the set numbered `index + 1`.
pub open spec fn is_points_trace(
    t: PointsTrace,
    points: Seq<i32>,
    coefficients: Seq<i32>,
    index: int,
) -> bool {
    &&& t.x@ == Seq::new((points.len() + 1) as nat, |i: int| i as i32)
    &&& t.y@ == seq![coefficients[0]] + points
    &&& t.mode@ == "markers"@
    &&& t.trace_type@ == "scatter"@
    &&& t.name@ == "Shares "@ + decimal(index + 1)
    &&& t.text@.len() == points.len() + 1
    &&& t.text@[0]@ == "Value"@
    &&& forall|i: int| 1 <= i <= points.len() ==> #[trigger] t.text@[i]@ == "Share "@ + decimal(i)
}

/// Whether `t` is the line of `coefficients` over `-6..6`, numbered
/// `index + 1`.
pub open spec fn is_poly_trace(t: PolyTrace, coefficients: Seq<i32>, index: int) -> bool {
    &&& t.x@ == Seq::new(CURVE_POINTS as nat, |j: int| (CURVE_START + j) as i32)
    &&& t.y@.len() == CURVE_POINTS
    &&& forall|j: int|
        0 <= j < CURVE_POINTS ==> #[trigger] t.y@[j] == reduce(
            poly_value(coefficients, CURVE_START + j),
        )
    &&& t.mode@ == "lines"@
    &&& t.trace_type@ == "scatter"@
    &&& t.name@ == "Polynomial "@ + decimal(index + 1)
}

/// Builds the chart traces of one share set: its points and the line of
/// its polynomial over `-6..6`. Fails with `ArithmeticOverflow` exactly
/// when evaluating the polynomial at one of those points leaves `i32`.
pub fn plot_point(points: &[i32], coefficients: &[i32], index: usize) -> (r: Result<
    (Trace, Trace),
    ShareError,
>)
    requires
        coefficients@.len() > 0,
        points@.len() < i32::MAX,
        index < usize::MAX,
    ensures
        r is Ok <==> forall|x: int|
            CURVE_START <= x < CURVE_START + CURVE_POINTS ==> #[trigger] eval_fits(
                coefficients@,
                x,
            ),
        r is Ok ==> r->Ok_0.0 is Points && is_points_trace(
            r->Ok_0.0->Points_0,
            points@,
            coefficients@,
            index as int,
        ),
        r is Ok ==> r->Ok_0.1 is Polynomial && is_poly_trace(
            r->Ok_0.1->Polynomial_0,
            coefficients@,
            index as int,
        ),
        r is Err ==> r->Err_0 == ShareError::ArithmeticOverflow,
{
    let number = usize_text(index + 1);
    let mut xs: Vec<i32> = vec![0];
    let mut ys: Vec<i32> = vec![coefficients[0]];
    let mut text: Vec<String> = vec![String::from_str("Value")];
    let mut i: usize = 0;
    while i < points.len()
        invariant
            0 <= i <= points@.len() < i32::MAX,
            xs@ == Seq::new((i + 1) as nat, |k: int| k as i32),
            ys@ == seq![coefficients@[0]] + points@.take(i as int),
            text@.len() == i + 1,
            text@[0]@ == "Value"@,
            forall|k: int| 1 <= k <= i ==> #[trigger] text@[k]@ == "Share "@ + decimal(k),
        decreases points.len() - i,
    {
        xs.push((i + 1) as i32);
        ys.push(points[i]);
        let mut label = String::from_str("Share ");
        let k = usize_text(i + 1);
        label.append(k.as_str());
        text.push(label);
        i += 1;
        assert(xs@ =~= Seq::new((i + 1) as nat, |k: int| k as i32));
        assert(ys@ =~= seq![coefficients@[0]] + points@.take(i as int));
    }
    assert(ys@ =~= seq![coefficients@[0]] + points@);
    let mut name = String::from_str("Shares ");
    name.append(number.as_str());
    let points_trace = PointsTrace {
        x: xs,
        y: ys,
        mode: String::from_str("markers"),
        trace_type: String::from_str("scatter"),
        name,
        text,
    };
    let mut curve_x: Vec<i32> = Vec::new();
    let mut curve_y: Vec<i32> = Vec::new();
    let mut j: usize = 0;
    while j < CURVE_POINTS
        invariant
            0 <= j <= CURVE_POINTS,
            curve_x@ == Seq::new(j as nat, |m: int| (CURVE_START + m) as i32),
            curve_y@.len() == j,
            forall|m: int|
                0 <= m < j ==> #[trigger] curve_y@[m] == reduce(
                    poly_value(coefficients@, CURVE_START + m),
                ),
            forall|m: int| 0 <= m < j ==> #[trigger] eval_fits(coefficients@, CURVE_START + m),
        decreases CURVE_POINTS - j,
    {
        let x = CURVE_START + j as i32;
        let value = match polynomial_eval(coefficients, x) {
            Ok(v) => v,
            Err(e) => {
                return Err(e);
            },
        };
        curve_x.push(x);
        curve_y.push(calc_mod(value));
        j += 1;
        assert(curve_x@ =~= Seq::new(j as nat, |m: int| (CURVE_START + m) as i32));
    }
    proof {
        assert forall|x: int| CURVE_START <= x < CURVE_START + CURVE_POINTS implies #[trigger] eval_fits(
            coefficients@,
            x,
        ) by {
            assert(eval_fits(coefficients@, CURVE_START + (x - CURVE_START)));
        }
    }
    let mut poly_name = String::from_str("Polynomial ");
    poly_name.append(number.as_str());
    let poly_trace = PolyTrace {
        x: curve_x,
        y: curve_y,
        mode: String::from_str("lines"),
        trace_type: String::from_str("scatter"),
        name: poly_name,
    };
    Ok((Trace::Points(points_trace), Trace::Polynomial(poly_trace)))
}

} // verus!
