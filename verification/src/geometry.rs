//! Points in the plane, exact ratios, and the comparisons the matcher is built from.

use vstd::prelude::*;

verus! {

/// A position on the screen, in pixels.
#[derive(Debug, Clone, Copy, PartialEq, Eq, Structural)]
pub struct Point {
    pub x: i16,
    pub y: i16,
}

/// A non-negative rational number `num / den`.
///
/// Scale factors and tolerances are ratios of whole pixel counts, so every
/// comparison the matcher makes can be carried out exactly, in integers, by
/// multiplying out the denominators.
#[derive(Debug, Clone, Copy, PartialEq, Eq, Structural)]
pub struct Ratio {
    pub num: u32,
    pub den: u32,
}

impl Ratio {
    /// A ratio denotes a number only when its denominator is not zero.
    pub open spec fn wf(self) -> bool {
        self.den > 0
    }

    /// The ratio `num / den`, or `None` when `den` is zero.
    pub fn new(num: u32, den: u32) -> (r: Option<Ratio>)
        ensures
            den == 0 ==> r is None,
            den != 0 ==> r == Some(Ratio { num, den }),
    {
        if den == 0 {
            None
        } else {
            Some(Ratio { num, den })
        }
    }

    /// The whole number `n`.
    pub fn whole(n: u32) -> (r: Ratio)
        ensures
            r == (Ratio { num: n, den: 1 }),
            r.wf(),
    {
        Ratio { num: n, den: 1 }
    }

    /// The number one, the scale of a stroke that is compared as drawn.
    pub fn one() -> (r: Ratio)
        ensures
            r == (Ratio { num: 1, den: 1 }),
            r.wf(),
    {
        Ratio { num: 1, den: 1 }
    }
}

/// The absolute value of an integer.
pub open spec fn abs(v: int) -> int {
    if v < 0 {
        -v
    } else {
        v
    }
}

/// Whether a displacement of `live` pixels, scaled by `scale`, differs from a
/// displacement of `template` pixels by strictly less than `tolerance`.
///
/// With `scale = sn/sd` and `tolerance = tn/td` this is
/// `|live * sn/sd - template| < tn/td`, with both sides multiplied by `sd * td`.
pub open spec fn axis_within(live: int, template: int, scale: Ratio, tolerance: Ratio) -> bool {
    abs(live * scale.num - template * scale.den) * tolerance.den < tolerance.num * scale.den
}

/// At scale one and with a whole tolerance of `n` pixels, two displacements
/// agree exactly if they differ by less than `n`.
pub proof fn lemma_axis_within_at_scale_one(live: int, template: int, n: u32)
    ensures
        axis_within(live, template, Ratio { num: 1, den: 1 }, Ratio { num: n, den: 1 }) <==> abs(
            live - template,
        ) < n,
{
}

/// Whether the displacement `p1 -> p2`, scaled per axis, agrees with the
/// displacement `p3 -> p4` within `tolerance` on both axes.
pub open spec fn displacement_matches(
    p1: Point,
    p2: Point,
    p3: Point,
    p4: Point,
    xscale: Ratio,
    yscale: Ratio,
    tolerance: Ratio,
) -> bool {
    &&& axis_within(p2.x - p1.x, p4.x - p3.x, xscale, tolerance)
    &&& axis_within(p2.y - p1.y, p4.y - p3.y, yscale, tolerance)
}

/// The smallest x coordinate among `s` (0 for the empty sequence).
pub open spec fn min_x(s: Seq<Point>) -> int
    decreases s.len(),
{
    if s.len() == 0 {
        0
    } else if s.len() == 1 {
        s[0].x as int
    } else {
        let rest = min_x(s.drop_last());
        if s.last().x < rest {
            s.last().x as int
        } else {
            rest
        }
    }
}

/// The largest x coordinate among `s` (0 for the empty sequence).
pub open spec fn max_x(s: Seq<Point>) -> int
    decreases s.len(),
{
    if s.len() == 0 {
        0
    } else if s.len() == 1 {
        s[0].x as int
    } else {
        let rest = max_x(s.drop_last());
        if s.last().x > rest {
            s.last().x as int
        } else {
            rest
        }
    }
}

/// The smallest y coordinate among `s` (0 for the empty sequence).
pub open spec fn min_y(s: Seq<Point>) -> int
    decreases s.len(),
{
    if s.len() == 0 {
        0
    } else if s.len() == 1 {
        s[0].y as int
    } else {
        let rest = min_y(s.drop_last());
        if s.last().y < rest {
            s.last().y as int
        } else {
            rest
        }
    }
}

/// The largest y coordinate among `s` (0 for the empty sequence).
pub open spec fn max_y(s: Seq<Point>) -> int
    decreases s.len(),
{
    if s.len() == 0 {
        0
    } else if s.len() == 1 {
        s[0].y as int
    } else {
        let rest = max_y(s.drop_last());
        if s.last().y > rest {
            s.last().y as int
        } else {
            rest
        }
    }
}

/// The width of the bounding box of `s`.
pub open spec fn extent_x(s: Seq<Point>) -> int {
    max_x(s) - min_x(s)
}

/// The height of the bounding box of `s`.
pub open spec fn extent_y(s: Seq<Point>) -> int {
    max_y(s) - min_y(s)
}

/// `min_x` and `max_x` are attained by points of `s` and bound every point of `s`.
pub proof fn lemma_x_range(s: Seq<Point>)
    requires
        s.len() > 0,
    ensures
        exists|i: int| 0 <= i < s.len() && #[trigger] s[i].x == min_x(s),
        exists|i: int| 0 <= i < s.len() && #[trigger] s[i].x == max_x(s),
        forall|i: int| 0 <= i < s.len() ==> min_x(s) <= #[trigger] s[i].x <= max_x(s),
    decreases s.len(),
{
    if s.len() == 1 {
        assert(s[0].x == min_x(s));
        assert(s[0].x == max_x(s));
    } else {
        let t = s.drop_last();
        lemma_x_range(t);
        let lo = choose|i: int| 0 <= i < t.len() && #[trigger] t[i].x == min_x(t);
        let hi = choose|i: int| 0 <= i < t.len() && #[trigger] t[i].x == max_x(t);
        assert(t[lo] == s[lo] && t[hi] == s[hi]);
        let last = s.len() - 1;
        if s.last().x < min_x(t) {
            assert(s[last].x == min_x(s));
        } else {
            assert(s[lo].x == min_x(s));
        }
        if s.last().x > max_x(t) {
            assert(s[last].x == max_x(s));
        } else {
            assert(s[hi].x == max_x(s));
        }
        assert forall|i: int| 0 <= i < s.len() implies min_x(s) <= #[trigger] s[i].x <= max_x(
            s,
        ) by {
            if i < last {
                assert(t[i] == s[i]);
            }
        }
    }
}

/// `min_y` and `max_y` are attained by points of `s` and bound every point of `s`.
pub proof fn lemma_y_range(s: Seq<Point>)
    requires
        s.len() > 0,
    ensures
        exists|i: int| 0 <= i < s.len() && #[trigger] s[i].y == min_y(s),
        exists|i: int| 0 <= i < s.len() && #[trigger] s[i].y == max_y(s),
        forall|i: int| 0 <= i < s.len() ==> min_y(s) <= #[trigger] s[i].y <= max_y(s),
    decreases s.len(),
{
    if s.len() == 1 {
        assert(s[0].y == min_y(s));
        assert(s[0].y == max_y(s));
    } else {
        let t = s.drop_last();
        lemma_y_range(t);
        let lo = choose|i: int| 0 <= i < t.len() && #[trigger] t[i].y == min_y(t);
        let hi = choose|i: int| 0 <= i < t.len() && #[trigger] t[i].y == max_y(t);
        assert(t[lo] == s[lo] && t[hi] == s[hi]);
        let last = s.len() - 1;
        if s.last().y < min_y(t) {
            assert(s[last].y == min_y(s));
        } else {
            assert(s[lo].y == min_y(s));
        }
        if s.last().y > max_y(t) {
            assert(s[last].y == max_y(s));
        } else {
            assert(s[hi].y == max_y(s));
        }
        assert forall|i: int| 0 <= i < s.len() implies min_y(s) <= #[trigger] s[i].y <= max_y(
            s,
        ) by {
            if i < last {
                assert(t[i] == s[i]);
            }
        }
    }
}

/// The bounding box of a non-empty sequence of points has a width and a height
/// that are not negative and fit in 16 bits, and an extent is zero exactly when
/// all the points share their coordinate on that axis.
pub proof fn lemma_extent_zero_iff_flat(s: Seq<Point>)
    requires
        s.len() > 0,
    ensures
        0 <= extent_x(s) <= u16::MAX,
        0 <= extent_y(s) <= u16::MAX,
        extent_x(s) == 0 <==> (forall|i: int, j: int|
            0 <= i < s.len() && 0 <= j < s.len() ==> #[trigger] s[i].x == #[trigger] s[j].x),
        extent_y(s) == 0 <==> (forall|i: int, j: int|
            0 <= i < s.len() && 0 <= j < s.len() ==> #[trigger] s[i].y == #[trigger] s[j].y),
{
    lemma_x_range(s);
    lemma_y_range(s);
    let xlo = choose|i: int| 0 <= i < s.len() && #[trigger] s[i].x == min_x(s);
    let xhi = choose|i: int| 0 <= i < s.len() && #[trigger] s[i].x == max_x(s);
    let ylo = choose|i: int| 0 <= i < s.len() && #[trigger] s[i].y == min_y(s);
    let yhi = choose|i: int| 0 <= i < s.len() && #[trigger] s[i].y == max_y(s);
    assert(min_x(s) <= s[xhi].x);
    assert(min_y(s) <= s[yhi].y);
    if forall|i: int, j: int|
        0 <= i < s.len() && 0 <= j < s.len() ==> #[trigger] s[i].x == #[trigger] s[j].x {
        assert(s[xlo].x == s[xhi].x);
    }
    if forall|i: int, j: int|
        0 <= i < s.len() && 0 <= j < s.len() ==> #[trigger] s[i].y == #[trigger] s[j].y {
        assert(s[ylo].y == s[yhi].y);
    }
}

impl Point {
    pub fn new(x: i16, y: i16) -> (p: Point)
        ensures
            p == (Point { x, y }),
    {
        Point { x, y }
    }

    /// Strictly greater than `p1` on both axes.
    pub open spec fn spec_bigger(&self, p1: &Point) -> bool {
        self.x > p1.x && self.y > p1.y
    }

    /// Strictly less than `p1` on both axes.
    pub open spec fn spec_smaller(&self, p1: &Point) -> bool {
        self.x < p1.x && self.y < p1.y
    }

    /// Strictly inside the open rectangle spanned by `p1` and `p2`.
    pub open spec fn spec_between(&self, p1: &Point, p2: &Point) -> bool {
        p1.x < self.x < p2.x && p1.y < self.y < p2.y
    }

    /// Decides whether the stroke segment `p1 -> p2`, scaled by `xscale` and
    /// `yscale`, is the template segment `p3 -> p4` up to `tolerance`.
    pub fn matched(
        p1: &Point,
        p2: &Point,
        p3: &Point,
        p4: &Point,
        xscale: Ratio,
        yscale: Ratio,
        tolerance: Ratio,
    ) -> (r: bool)
        ensures
            r == displacement_matches(*p1, *p2, *p3, *p4, xscale, yscale, tolerance),
    {
        let x_ok = axis_matched(p1.x, p2.x, p3.x, p4.x, xscale, tolerance);
        let y_ok = axis_matched(p1.y, p2.y, p3.y, p4.y, yscale, tolerance);
        x_ok && y_ok
    }

    #[verifier::when_used_as_spec(spec_bigger)]
    pub fn bigger(&self, p1: &Point) -> (r: bool)
        ensures
            r == self.spec_bigger(p1),
    {
        self.x > p1.x && self.y > p1.y
    }

    #[verifier::when_used_as_spec(spec_smaller)]
    pub fn smaller(&self, p1: &Point) -> (r: bool)
        ensures
            r == self.spec_smaller(p1),
    {
        self.x < p1.x && self.y < p1.y
    }

    #[verifier::when_used_as_spec(spec_between)]
    pub fn between(&self, p1: &Point, p2: &Point) -> (r: bool)
        ensures
            r == self.spec_between(p1, p2),
    {
        self.smaller(p2) && self.bigger(p1)
    }

    /// The width and height of the bounding box of `points`; `(0, 0)` when
    /// there are none.
    pub fn bounds(points: &Vec<Point>) -> (r: (u16, u16))
        ensures
            r.0 == extent_x(points@),
            r.1 == extent_y(points@),
    {
        if points.len() == 0 {
            return (0, 0);
        }
        let first = points[0];
        let mut smallx: i16 = first.x;
        let mut bigx: i16 = first.x;
        let mut smally: i16 = first.y;
        let mut bigy: i16 = first.y;
        let mut i: usize = 1;
        assert(points@.take(1).len() == 1);
        while i < points.len()
            invariant
                1 <= i <= points.len(),
                smallx == min_x(points@.take(i as int)),
                bigx == max_x(points@.take(i as int)),
                smally == min_y(points@.take(i as int)),
                bigy == max_y(points@.take(i as int)),
            decreases points.len() - i,
        {
            let point = points[i];
            proof {
                let now = points@.take(i as int + 1);
                assert(now.drop_last() =~= points@.take(i as int));
                assert(now.last() == point);
            }
            if point.x < smallx {
                smallx = point.x;
            }
            if point.x > bigx {
                bigx = point.x;
            }
            if point.y < smally {
                smally = point.y;
            }
            if point.y > bigy {
                bigy = point.y;
            }
            i += 1;
        }
        proof {
            assert(points@.take(i as int) =~= points@);
            lemma_extent_zero_iff_flat(points@);
        }
        let width: i32 = bigx as i32 - smallx as i32;
        let height: i32 = bigy as i32 - smally as i32;
        (width as u16, height as u16)
    }
}

/// One axis of `Point::matched`: the live displacement `a1 -> a2` against the
/// template displacement `b1 -> b2`.
fn axis_matched(a1: i16, a2: i16, b1: i16, b2: i16, scale: Ratio, tolerance: Ratio) -> (r: bool)
    ensures
        r == axis_within(a2 - a1, b2 - b1, scale, tolerance),
{
    let live: i128 = a2 as i128 - a1 as i128;
    let template: i128 = b2 as i128 - b1 as i128;
    let sn: i128 = scale.num as i128;
    let sd: i128 = scale.den as i128;
    let tn: i128 = tolerance.num as i128;
    let td: i128 = tolerance.den as i128;
    assert(-0x1_0000_0000_0000 <= live * sn <= 0x1_0000_0000_0000) by (nonlinear_arith)
        requires
            -0x1_0000 <= live <= 0x1_0000,
            0 <= sn <= 0x1_0000_0000,
    ;
    assert(-0x1_0000_0000_0000 <= template * sd <= 0x1_0000_0000_0000) by (nonlinear_arith)
        requires
            -0x1_0000 <= template <= 0x1_0000,
            0 <= sd <= 0x1_0000_0000,
    ;
    let gap: i128 = live * sn - template * sd;
    let distance: i128 = if gap < 0 {
        -gap
    } else {
        gap
    };
    assert(0 <= distance * td <= 0x2_0000_0000_0000 * 0x1_0000_0000) by (nonlinear_arith)
        requires
            0 <= distance <= 0x2_0000_0000_0000,
            0 <= td <= 0x1_0000_0000,
    ;
    assert(0 <= tn * sd <= 0x1_0000_0000 * 0x1_0000_0000) by (nonlinear_arith)
        requires
            0 <= tn <= 0x1_0000_0000,
            0 <= sd <= 0x1_0000_0000,
    ;
    distance * td < tn * sd
}

} // verus!
