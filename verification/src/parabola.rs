//! One site, one sweep line: the parabola of the points that are as far from
//! the site (the focus) as from the sweep line (the directrix).

use vstd::prelude::*;

verus! {

/// A site: a point of the surface, in surface units.
#[derive(Clone, Copy, Debug, PartialEq, Eq, Structural)]
pub struct Site {
    pub x: i32,
    pub y: i32,
}

/// A sampled point of an arc. Its abscissa is `x`; its ordinate is the exact
/// fraction `num / den`.
#[derive(Clone, Copy, Debug, PartialEq, Eq, Structural)]
pub struct ArcPoint {
    pub x: i32,
    pub num: i128,
    pub den: i64,
}

/// A straight piece of a sketched arc.
#[derive(Clone, Copy, Debug, PartialEq, Eq, Structural)]
pub struct Segment {
    pub from: ArcPoint,
    pub to: ArcPoint,
}

/// Numerator of the arc's ordinate at `x`.
///
/// The ordinate is `(x - site.x)^2 / (2 (site.y - sweep_y)) + (site.y + sweep_y) / 2`;
/// over the common denominator `2 (site.y - sweep_y)` its numerator is
/// `(x - site.x)^2 + (site.y - sweep_y) (site.y + sweep_y)`.
pub open spec fn arc_num(site: Site, sweep_y: int, x: int) -> int {
    (x - site.x) * (x - site.x) + (site.y - sweep_y) * (site.y + sweep_y)
}

/// Denominator of the arc's ordinate: zero exactly when the site lies on the
/// sweep line.
pub open spec fn arc_den(site: Site, sweep_y: int) -> int {
    2 * (site.y - sweep_y)
}

/// The ordinate `num / den` is a number, and it is negative.
pub open spec fn fraction_negative(num: int, den: int) -> bool {
    (den > 0 && num < 0) || (den < 0 && num > 0)
}

/// The ordinate `num / den` is a number strictly between 0 and `bound`.
pub open spec fn fraction_within(num: int, den: int, bound: int) -> bool {
    (den > 0 && 0 < num && num < bound * den) || (den < 0 && num < 0 && bound * den < num)
}

/// The arc of `site` is, at `x`, strictly between the top edge of the surface
/// (ordinate 0) and the sweep line.
pub open spec fn in_view(site: Site, sweep_y: int, x: int) -> bool {
    fraction_within(arc_num(site, sweep_y, x), arc_den(site, sweep_y), sweep_y)
}

/// The arc of `site` is, at `x`, beyond the top edge of the surface.
pub open spec fn above_top(site: Site, sweep_y: int, x: int) -> bool {
    fraction_negative(arc_num(site, sweep_y, x), arc_den(site, sweep_y))
}

/// The point of the arc of `site` at the abscissa `x`.
pub open spec fn arc_point_at(site: Site, sweep_y: int, x: int) -> ArcPoint {
    ArcPoint {
        x: x as i32,
        num: arc_num(site, sweep_y, x) as i128,
        den: arc_den(site, sweep_y) as i64,
    }
}

impl ArcPoint {
    /// The ordinate is a number: the denominator is not zero.
    pub open spec fn is_finite(self) -> bool {
        self.den != 0
    }

    /// The ordinate lies strictly between 0 and `sweep_y`.
    pub open spec fn visible(self, sweep_y: int) -> bool {
        fraction_within(self.num as int, self.den as int, sweep_y)
    }

    /// The ordinate is negative.
    pub open spec fn beyond_top(self) -> bool {
        fraction_negative(self.num as int, self.den as int)
    }

    /// Decides `visible` without dividing.
    pub fn is_visible(&self, sweep_y: i32) -> (r: bool)
        ensures
            r == self.visible(sweep_y as int),
    {
        assert(-0x8000_0000 * 0x8000_0000_0000_0000 <= (sweep_y as int) * (self.den as int)
            <= 0x8000_0000 * 0x8000_0000_0000_0000) by (nonlinear_arith)
            requires
                -0x8000_0000 <= sweep_y as int <= 0x8000_0000,
                -0x8000_0000_0000_0000 <= self.den as int <= 0x8000_0000_0000_0000,
        ;
        let limit: i128 = (sweep_y as i128) * (self.den as i128);
        if self.den > 0 {
            0 < self.num && self.num < limit
        } else if self.den < 0 {
            self.num < 0 && limit < self.num
        } else {
            false
        }
    }

    /// Decides `beyond_top` without dividing.
    pub fn is_beyond_top(&self) -> (r: bool)
        ensures
            r == self.beyond_top(),
    {
        (self.den > 0 && self.num < 0) || (self.den < 0 && self.num > 0)
    }
}

/// The arc of a site never meets the sweep line: wherever its ordinate is a
/// number, it lies on the site's side of the line. So only the arc of a site
/// that the sweep line has passed can be in view.
pub proof fn lemma_in_view_only_behind_sweep_line(site: Site, sweep_y: int, x: int)
    ensures
        in_view(site, sweep_y, x) ==> site.y < sweep_y,
        site.y < sweep_y ==> sweep_y * arc_den(site, sweep_y) < arc_num(site, sweep_y, x),
{
    let dx: int = x - site.x;
    let a: int = site.y - sweep_y;
    let b: int = site.y + sweep_y;
    assert(dx * dx >= 0) by (nonlinear_arith);
    assert(a != 0 ==> a * a > 0) by (nonlinear_arith);
    assert(a * b - sweep_y * (2 * a) == a * a) by (nonlinear_arith)
        requires
            b - 2 * sweep_y == a,
    ;
}

/// Every point of the arc is as far from the site as from the sweep line.
/// With the ordinate `y = num / den`, the squared distances
/// `(x - site.x)^2 + (y - site.y)^2` and `(y - sweep_y)^2` are equal; the
/// equation is stated after multiplying both sides by `den^2`.
pub proof fn lemma_arc_equidistant(site: Site, sweep_y: int, x: int)
    ensures
        ({
            let num = arc_num(site, sweep_y, x);
            let den = arc_den(site, sweep_y);
            den * den * ((x - site.x) * (x - site.x)) + (num - site.y * den) * (num - site.y * den)
                == (num - sweep_y * den) * (num - sweep_y * den)
        }),
{
    let num = arc_num(site, sweep_y, x);
    let den = arc_den(site, sweep_y);
    let sy: int = site.y as int;
    let a: int = sy - sweep_y;
    let b: int = sy + sweep_y;
    let d: int = (x - site.x) * (x - site.x);
    assert(num - sy * den == d - a * a) by (nonlinear_arith)
        requires
            num == d + a * b,
            den == 2 * a,
            a == sy - sweep_y,
            b == sy + sweep_y,
    ;
    assert(num - sweep_y * den == d + a * a) by (nonlinear_arith)
        requires
            num == d + a * b,
            den == 2 * a,
            a == sy - sweep_y,
            b == sy + sweep_y,
    ;
    let e: int = a * a;
    assert(den * den * d + (d - e) * (d - e) == (d + e) * (d + e)) by (nonlinear_arith)
        requires
            den == 2 * a,
            e == a * a,
    ;
}

/// Bounds of the numerator for coordinates of 32 bits.
pub proof fn lemma_arc_num_bounds(site: Site, sweep_y: i32, x: i32)
    ensures
        -0x4000_0000_0000_0000 <= arc_num(site, sweep_y as int, x as int)
            <= 0x1_4000_0000_0000_0000,
{
    let dx: int = x - site.x;
    let a: int = site.y - sweep_y;
    let b: int = site.y + sweep_y;
    assert(0 <= dx * dx <= 0x1_0000_0000 * 0x1_0000_0000) by (nonlinear_arith)
        requires
            -0x1_0000_0000 <= dx <= 0x1_0000_0000,
    ;
    let sy: int = site.y as int;
    let sw: int = sweep_y as int;
    assert(a * b == sy * sy - sw * sw) by (nonlinear_arith)
        requires
            a == sy - sw,
            b == sy + sw,
    ;
    assert(0 <= sy * sy <= 0x8000_0000 * 0x8000_0000) by (nonlinear_arith)
        requires
            -0x8000_0000 <= sy <= 0x8000_0000,
    ;
    assert(0 <= sw * sw <= 0x8000_0000 * 0x8000_0000) by (nonlinear_arith)
        requires
            -0x8000_0000 <= sw <= 0x8000_0000,
    ;
}

/// Samples the arc of `site` at the abscissa `x`: the exact ordinate, as a
/// fraction whose denominator is zero only for a site on the sweep line.
pub fn sample_arc(site: Site, sweep_y: i32, x: i32) -> (p: ArcPoint)
    ensures
        p == arc_point_at(site, sweep_y as int, x as int),
        p.x == x,
        p.num == arc_num(site, sweep_y as int, x as int),
        p.den == arc_den(site, sweep_y as int),
        p.is_finite() <==> site.y != sweep_y,
        p.visible(sweep_y as int) <==> in_view(site, sweep_y as int, x as int),
        p.beyond_top() <==> above_top(site, sweep_y as int, x as int),
{
    proof {
        lemma_arc_num_bounds(site, sweep_y, x);
    }
    let dx: i128 = (x as i128) - (site.x as i128);
    let a: i128 = (site.y as i128) - (sweep_y as i128);
    let b: i128 = (site.y as i128) + (sweep_y as i128);
    assert(0 <= dx * dx <= 0x1_0000_0000 * 0x1_0000_0000) by (nonlinear_arith)
        requires
            -0x1_0000_0000 <= dx <= 0x1_0000_0000,
    ;
    assert(-0x1_0000_0000 * 0x1_0000_0000 <= a * b <= 0x1_0000_0000 * 0x1_0000_0000)
        by (nonlinear_arith)
        requires
            -0x1_0000_0000 <= a <= 0x1_0000_0000,
            -0x1_0000_0000 <= b <= 0x1_0000_0000,
    ;
    let num: i128 = dx * dx + a * b;
    let den: i64 = 2 * ((site.y as i64) - (sweep_y as i64));
    ArcPoint { x, num, den }
}

} // verus!
