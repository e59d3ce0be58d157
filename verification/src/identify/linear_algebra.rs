//! Lines through points of the image.

use crate::ops::QuircPoint;
use vstd::prelude::*;

verus! {

/// The bound on coordinates for which the intersection of lines is computed.
pub const QUIRC_MAX_COORDINATE: isize = 0x7fff_ffff;

/// Whether both coordinates of the point are at most `QUIRC_MAX_COORDINATE`
/// in size.
pub open spec fn near(p: QuircPoint) -> bool {
    &&& -QUIRC_MAX_COORDINATE <= p.x <= QUIRC_MAX_COORDINATE
    &&& -QUIRC_MAX_COORDINATE <= p.y <= QUIRC_MAX_COORDINATE
}

/// The quotient of `n` by `d`, rounded towards zero.
pub open spec fn trunc_div(n: int, d: int) -> int {
    if d == 0 {
        0
    } else if (n < 0) == (d < 0) {
        (if n < 0 {
            -n
        } else {
            n
        }) / (if d < 0 {
            -d
        } else {
            d
        })
    } else {
        -((if n < 0 {
            -n
        } else {
            n
        }) / (if d < 0 {
            -d
        } else {
            d
        }))
    }
}

/// The determinant of the directions of the line through `p_a` and `p_b` and
/// of the line through `q_a` and `q_b`. It is zero when the lines are
/// parallel.
pub open spec fn line_det(p_a: QuircPoint, p_b: QuircPoint, q_a: QuircPoint, q_b: QuircPoint) -> int {
    let a = -(p_b.y - p_a.y);
    let b = p_b.x - p_a.x;
    let c = -(q_b.y - q_a.y);
    let d = q_b.x - q_a.x;
    a * d - b * c
}

/// The coordinates of the point where the two lines meet, each rounded
/// towards zero, for lines that are not parallel.
pub open spec fn line_meet(p_a: QuircPoint, p_b: QuircPoint, q_a: QuircPoint, q_b: QuircPoint) -> (int, int) {
    let a = -(p_b.y - p_a.y);
    let b = p_b.x - p_a.x;
    let c = -(q_b.y - q_a.y);
    let d = q_b.x - q_a.x;
    let e = a * p_b.x + b * p_b.y;
    let f = c * q_b.x + d * q_b.y;
    let det = a * d - b * c;
    (trunc_div(d * e - b * f, det), trunc_div(-c * e + a * f, det))
}

/// The point where the two lines meet, if they meet in one point whose
/// coordinates are numbers of the machine.
pub open spec fn spec_line_intersect(p_a: QuircPoint, p_b: QuircPoint, q_a: QuircPoint, q_b: QuircPoint) -> Option<
    QuircPoint,
> {
    let (x, y) = line_meet(p_a, p_b, q_a, q_b);
    if line_det(p_a, p_b, q_a, q_b) == 0 {
        None
    } else if isize::MIN <= x <= isize::MAX && isize::MIN <= y <= isize::MAX {
        Some(QuircPoint { x: x as isize, y: y as isize })
    } else {
        None
    }
}

/// The product of two bounded numbers is bounded by the product of the
/// bounds.
pub proof fn lemma_products(a: int, b: int, bound_a: int, bound_b: int)
    by (nonlinear_arith)
    requires
        -bound_a <= a <= bound_a,
        -bound_b <= b <= bound_b,
    ensures
        -(bound_a * bound_b) <= a * b <= bound_a * bound_b,
{
}

/// Divides `n` by `d`, rounding towards zero.
fn div_toward_zero(n: i128, d: i128) -> (q: i128)
    requires
        d != 0,
        i128::MIN < n,
        i128::MIN < d,
    ensures
        q == trunc_div(n as int, d as int),
{
    let an: u128 = if n < 0 {
        (-n) as u128
    } else {
        n as u128
    };
    let ad: u128 = if d < 0 {
        (-d) as u128
    } else {
        d as u128
    };
    let q = (an / ad) as i128;
    if (n < 0) == (d < 0) {
        q
    } else {
        -q
    }
}

/// Finds the point where the line through `p_a` and `p_b` meets the line
/// through `q_a` and `q_b`.
pub fn line_intersect(p_a: &QuircPoint, p_b: &QuircPoint, q_a: &QuircPoint, q_b: &QuircPoint) -> (r: Option<
    QuircPoint,
>)
    requires
        near(*p_a),
        near(*p_b),
        near(*q_a),
        near(*q_b),
    ensures
        r == spec_line_intersect(*p_a, *p_b, *q_a, *q_b),
{
    let a: i128 = -(p_b.y as i128 - p_a.y as i128);
    let b: i128 = p_b.x as i128 - p_a.x as i128;
    let c: i128 = -(q_b.y as i128 - q_a.y as i128);
    let d: i128 = q_b.x as i128 - q_a.x as i128;
    let ghost k: int = 0x1_0000_0000;
    proof {
        lemma_products(a as int, p_b.x as int, k, k);
        lemma_products(b as int, p_b.y as int, k, k);
        lemma_products(c as int, q_b.x as int, k, k);
        lemma_products(d as int, q_b.y as int, k, k);
        lemma_products(a as int, d as int, k, k);
        lemma_products(b as int, c as int, k, k);
        assert(k * k == 0x1_0000_0000_0000_0000);
    }
    let e: i128 = a * p_b.x as i128 + b * p_b.y as i128;
    let f: i128 = c * q_b.x as i128 + d * q_b.y as i128;
    let det: i128 = a * d - b * c;
    if det == 0 {
        return None;
    }
    let ghost kk: int = 0x2_0000_0000_0000_0000;
    proof {
        lemma_products(d as int, e as int, k, kk);
        lemma_products(b as int, f as int, k, kk);
        lemma_products(-c as int, e as int, k, kk);
        lemma_products(a as int, f as int, k, kk);
        assert(k * kk == 0x2_0000_0000_0000_0000_0000_0000);
    }
    let x = div_toward_zero(d * e - b * f, det);
    let y = div_toward_zero(-c * e + a * f, det);
    if x < isize::MIN as i128 || x > isize::MAX as i128 || y < isize::MIN as i128 || y > isize::MAX as i128 {
        return None;
    }
    Some(QuircPoint { x: x as isize, y: y as isize })
}

} // verus!
