//! The progress of one gesture through one stroke.

use crate::geometry::{
    abs, axis_within, displacement_matches, extent_x, extent_y, lemma_extent_zero_iff_flat, lemma_x_range,
    lemma_y_range, max_x, max_y, min_x, min_y, Point, Ratio,
};
use crate::gesture::{all_constraints_hold, Gesture, GestureView};
use std::sync::Arc;
use vstd::prelude::*;

verus! {

/// The scale of one axis once a stroke of extent `session_extent` is known: the
/// gesture's extent over the stroke's. A stroke that is flat on the axis has
/// nothing to scale there, and the scale stays `current`.
pub open spec fn scale_for(template_extent: int, session_extent: int, current: Ratio) -> Ratio {
    if session_extent > 0 {
        Ratio { num: template_extent as u32, den: session_extent as u32 }
    } else {
        current
    }
}

/// The horizontal scale at which `session` is compared with the gesture `g`.
pub open spec fn session_xscale(g: GestureView, session: Seq<Point>) -> Ratio {
    if g.is_relative {
        scale_for(g.width, extent_x(session), Ratio { num: 1, den: 1 })
    } else {
        Ratio { num: 1, den: 1 }
    }
}

/// The vertical scale at which `session` is compared with the gesture `g`.
pub open spec fn session_yscale(g: GestureView, session: Seq<Point>) -> Ratio {
    if g.is_relative {
        scale_for(g.height, extent_y(session), Ratio { num: 1, den: 1 })
    } else {
        Ratio { num: 1, den: 1 }
    }
}

/// Whether point `i` of the stroke is point `k` of the gesture, both taken
/// from the first point of their sequence.
pub open spec fn point_matches(
    g: GestureView,
    xscale: Ratio,
    yscale: Ratio,
    session: Seq<Point>,
    i: int,
    k: int,
) -> bool {
    displacement_matches(
        session[0],
        session[i],
        g.points[0],
        g.points[k],
        xscale,
        yscale,
        g.tolerance,
    )
}

/// The cursor after stroke point `i` was looked at: one further if the point
/// is the gesture's next point, unchanged otherwise or at the gesture's end.
pub open spec fn advance(
    g: GestureView,
    xscale: Ratio,
    yscale: Ratio,
    session: Seq<Point>,
    cursor: nat,
    i: int,
) -> nat {
    if cursor < g.points.len() && point_matches(g, xscale, yscale, session, i, cursor as int) {
        cursor + 1
    } else {
        cursor
    }
}

/// The cursor after the first `n` points of the stroke were looked at in
/// order, starting from `start`.
pub open spec fn walk(
    g: GestureView,
    xscale: Ratio,
    yscale: Ratio,
    session: Seq<Point>,
    start: nat,
    n: nat,
) -> nat
    decreases n,
{
    if n == 0 {
        start
    } else {
        advance(g, xscale, yscale, session, walk(g, xscale, yscale, session, start, (n - 1) as nat), n - 1)
    }
}

/// Whether the stroke `session` follows the whole path of `g`, at the scale
/// that the stroke's size gives.
pub open spec fn fully_matches(g: GestureView, session: Seq<Point>) -> bool {
    walk(g, session_xscale(g, session), session_yscale(g, session), session, 0, session.len())
        == g.points.len()
}

/// Whether `g` is recognised in the stroke `session`: the stroke has points,
/// follows the path, and satisfies the constraints.
pub open spec fn recognises(g: GestureView, session: Seq<Point>) -> bool {
    &&& session.len() > 0
    &&& fully_matches(g, session)
    &&& all_constraints_hold(g.constraints, session)
}

/// A walk never moves the cursor back and never past the end of the path.
pub proof fn lemma_walk_bounds(
    g: GestureView,
    xscale: Ratio,
    yscale: Ratio,
    session: Seq<Point>,
    start: nat,
    n: nat,
)
    requires
        start <= g.points.len(),
    ensures
        start <= walk(g, xscale, yscale, session, start, n) <= g.points.len(),
        walk(g, xscale, yscale, session, start, n) <= start + n,
    decreases n,
{
    if n > 0 {
        lemma_walk_bounds(g, xscale, yscale, session, start, (n - 1) as nat);
    }
}

/// Once the cursor is at the end of the path, further points leave it there.
pub proof fn lemma_walk_stays_complete(
    g: GestureView,
    xscale: Ratio,
    yscale: Ratio,
    session: Seq<Point>,
    start: nat,
    n: nat,
    m: nat,
)
    requires
        n <= m,
        walk(g, xscale, yscale, session, start, n) == g.points.len(),
    ensures
        walk(g, xscale, yscale, session, start, m) == g.points.len(),
    decreases m,
{
    if m > n {
        lemma_walk_stays_complete(g, xscale, yscale, session, start, n, (m - 1) as nat);
    }
}

/// Whether `places` says where in the stroke the first points of the gesture
/// lie: one place for each of them, at which the stroke's point matches, the
/// places ascending.
pub open spec fn is_embedding(
    g: GestureView,
    xscale: Ratio,
    yscale: Ratio,
    session: Seq<Point>,
    places: Seq<int>,
) -> bool {
    &&& places.len() <= g.points.len()
    &&& forall|k: int|
        0 <= k < places.len() ==> 0 <= #[trigger] places[k] < session.len() && point_matches(
            g,
            xscale,
            yscale,
            session,
            places[k],
            k,
        )
    &&& forall|k: int, l: int| 0 <= k < l < places.len() ==> places[k] < places[l]
}

/// The places at which a walk from the start moved the cursor on: they embed
/// as many points of the gesture as the cursor has passed.
pub proof fn lemma_walk_gives_embedding(
    g: GestureView,
    xscale: Ratio,
    yscale: Ratio,
    session: Seq<Point>,
    n: nat,
) -> (places: Seq<int>)
    requires
        n <= session.len(),
    ensures
        is_embedding(g, xscale, yscale, session, places),
        places.len() == walk(g, xscale, yscale, session, 0, n),
        forall|k: int| 0 <= k < places.len() ==> places[k] < n,
    decreases n,
{
    if n == 0 {
        Seq::empty()
    } else {
        let before = lemma_walk_gives_embedding(g, xscale, yscale, session, (n - 1) as nat);
        let cursor = walk(g, xscale, yscale, session, 0, (n - 1) as nat);
        if cursor < g.points.len() && point_matches(g, xscale, yscale, session, n - 1, cursor as int) {
            let places = before.push(n - 1);
            assert forall|k: int| 0 <= k < places.len() implies 0 <= #[trigger] places[k]
                < session.len() && point_matches(g, xscale, yscale, session, places[k], k) by {
                if k < before.len() {
                    assert(places[k] == before[k]);
                }
            }
            assert forall|k: int, l: int| 0 <= k < l < places.len() implies places[k]
                < places[l] by {
                assert(places[k] == before[k]);
                if l < before.len() {
                    assert(places[l] == before[l]);
                }
            }
            places
        } else {
            before
        }
    }
}

/// A walk from the start passes at least as many points of the gesture as
/// can be embedded in the part of the stroke that it looks at.
pub proof fn lemma_embedding_bounds_walk(
    g: GestureView,
    xscale: Ratio,
    yscale: Ratio,
    session: Seq<Point>,
    places: Seq<int>,
    n: nat,
)
    requires
        n <= session.len(),
        is_embedding(g, xscale, yscale, session, places),
        forall|k: int| 0 <= k < places.len() ==> places[k] < n,
    ensures
        walk(g, xscale, yscale, session, 0, n) >= places.len(),
    decreases n,
{
    let m = places.len();
    if m > 0 {
        assert(0 <= places[m - 1] < n);
        let fewer = (n - 1) as nat;
        if places[m - 1] < n - 1 {
            assert forall|k: int| 0 <= k < places.len() implies places[k] < fewer by {
                if k < m - 1 {
                    assert(places[k] < places[m - 1]);
                }
            }
            lemma_embedding_bounds_walk(g, xscale, yscale, session, places, fewer);
        } else {
            let shorter = places.drop_last();
            assert forall|k: int| 0 <= k < shorter.len() implies 0 <= #[trigger] shorter[k]
                < session.len() && point_matches(g, xscale, yscale, session, shorter[k], k) by {
                assert(shorter[k] == places[k]);
            }
            assert forall|k: int, l: int| 0 <= k < l < shorter.len() implies shorter[k]
                < shorter[l] by {
                assert(shorter[k] == places[k] && shorter[l] == places[l]);
            }
            assert forall|k: int| 0 <= k < shorter.len() implies shorter[k] < fewer by {
                assert(shorter[k] == places[k]);
                assert(places[k] < places[m - 1]);
            }
            lemma_embedding_bounds_walk(g, xscale, yscale, session, shorter, fewer);
            lemma_walk_bounds(g, xscale, yscale, session, 0, fewer);
            assert(point_matches(g, xscale, yscale, session, places[m - 1], m - 1));
        }
    }
}

/// A stroke follows the whole path of a gesture exactly if the points of the
/// gesture can be found in the stroke in their order: for each of them a
/// point of the stroke that matches it, later in the stroke than the point
/// for the one before.
pub proof fn lemma_walk_finds_what_can_be_found(
    g: GestureView,
    xscale: Ratio,
    yscale: Ratio,
    session: Seq<Point>,
)
    ensures
        walk(g, xscale, yscale, session, 0, session.len()) == g.points.len() <==> exists|
            places: Seq<int>,
        |
            places.len() == g.points.len() && is_embedding(g, xscale, yscale, session, places),
{
    let found = lemma_walk_gives_embedding(g, xscale, yscale, session, session.len());
    lemma_walk_bounds(g, xscale, yscale, session, 0, session.len());
    if exists|places: Seq<int>|
        places.len() == g.points.len() && is_embedding(g, xscale, yscale, session, places) {
        let places = choose|places: Seq<int>|
            places.len() == g.points.len() && is_embedding(g, xscale, yscale, session, places);
        lemma_embedding_bounds_walk(g, xscale, yscale, session, places, session.len());
    }
}

/// A displacement matches itself at scale one under any tolerance above zero.
proof fn lemma_same_displacement_matches(d: int, tolerance: Ratio)
    requires
        tolerance.num > 0,
    ensures
        axis_within(d, d, Ratio { num: 1, den: 1 }, tolerance),
{
    let td = tolerance.den as int;
    assert(abs(d * 1 - d * 1) * td == 0) by (nonlinear_arith);
}

/// A stroke that has the shape and the size of the path of an absolute
/// gesture follows the path, wherever on the screen it lies, provided the
/// gesture tolerates anything at all.
pub proof fn lemma_replay_is_followed(g: GestureView, session: Seq<Point>)
    requires
        !g.is_relative,
        g.tolerance.num > 0,
        session.len() == g.points.len(),
        forall|i: int|
            0 <= i < session.len() ==> (#[trigger] session[i]).x - session[0].x == g.points[i].x
                - g.points[0].x && session[i].y - session[0].y == g.points[i].y - g.points[0].y,
    ensures
        fully_matches(g, session),
{
    let one = Ratio { num: 1, den: 1 };
    let places = Seq::new(session.len(), |i: int| i);
    assert forall|k: int| 0 <= k < places.len() implies 0 <= #[trigger] places[k] < session.len()
        && point_matches(g, one, one, session, places[k], k) by {
        assert(session[k].x - session[0].x == g.points[k].x - g.points[0].x);
        lemma_same_displacement_matches(session[k].x - session[0].x, g.tolerance);
        lemma_same_displacement_matches(session[k].y - session[0].y, g.tolerance);
    }
    lemma_embedding_bounds_walk(g, one, one, session, places, session.len());
    lemma_walk_bounds(g, one, one, session, 0, session.len());
}

/// Where the horizontal displacements of two paths are in proportion, so are
/// the widths of their bounding boxes.
pub proof fn lemma_widths_in_proportion(t: Seq<Point>, s: Seq<Point>, a: int, b: int)
    requires
        t.len() == s.len() > 0,
        a >= 1,
        b >= 1,
        forall|i: int|
            0 <= i < s.len() ==> a * ((#[trigger] t[i]).x - t[0].x) == b * (s[i].x - s[0].x),
    ensures
        a * extent_x(t) == b * extent_x(s),
{
    lemma_x_range(t);
    lemma_x_range(s);
    let t_low = choose|i: int| 0 <= i < t.len() && #[trigger] t[i].x == min_x(t);
    let t_high = choose|i: int| 0 <= i < t.len() && #[trigger] t[i].x == max_x(t);
    let s_low = choose|i: int| 0 <= i < s.len() && #[trigger] s[i].x == min_x(s);
    let s_high = choose|i: int| 0 <= i < s.len() && #[trigger] s[i].x == max_x(s);
    let t0 = t[0].x as int;
    let s0 = s[0].x as int;
    lemma_proportional_extreme(
        a,
        b,
        t[t_high].x - t0,
        s[t_high].x - s0,
        t[s_high].x - t0,
        s[s_high].x - s0,
    );
    lemma_proportional_extreme(
        a,
        b,
        t[s_low].x - t0,
        s[s_low].x - s0,
        t[t_low].x - t0,
        s[t_low].x - s0,
    );
    let high_t = max_x(t) - t0;
    let high_s = max_x(s) - s0;
    let low_t = min_x(t) - t0;
    let low_s = min_x(s) - s0;
    assert(a * low_t == b * low_s);
    assert(a * (high_t - low_t) == b * (high_s - low_s)) by (nonlinear_arith)
        requires
            a * high_t == b * high_s,
            a * low_t == b * low_s,
    ;
}

/// Where the vertical displacements of two paths are in proportion, so are
/// the heights of their bounding boxes.
pub proof fn lemma_heights_in_proportion(t: Seq<Point>, s: Seq<Point>, a: int, b: int)
    requires
        t.len() == s.len() > 0,
        a >= 1,
        b >= 1,
        forall|i: int|
            0 <= i < s.len() ==> a * ((#[trigger] t[i]).y - t[0].y) == b * (s[i].y - s[0].y),
    ensures
        a * extent_y(t) == b * extent_y(s),
{
    lemma_y_range(t);
    lemma_y_range(s);
    let t_low = choose|i: int| 0 <= i < t.len() && #[trigger] t[i].y == min_y(t);
    let t_high = choose|i: int| 0 <= i < t.len() && #[trigger] t[i].y == max_y(t);
    let s_low = choose|i: int| 0 <= i < s.len() && #[trigger] s[i].y == min_y(s);
    let s_high = choose|i: int| 0 <= i < s.len() && #[trigger] s[i].y == max_y(s);
    let t0 = t[0].y as int;
    let s0 = s[0].y as int;
    lemma_proportional_extreme(
        a,
        b,
        t[t_high].y - t0,
        s[t_high].y - s0,
        t[s_high].y - t0,
        s[s_high].y - s0,
    );
    lemma_proportional_extreme(
        a,
        b,
        t[s_low].y - t0,
        s[s_low].y - s0,
        t[t_low].y - t0,
        s[t_low].y - s0,
    );
    let high_t = max_y(t) - t0;
    let high_s = max_y(s) - s0;
    let low_t = min_y(t) - t0;
    let low_s = min_y(s) - s0;
    assert(a * low_t == b * low_s);
    assert(a * (high_t - low_t) == b * (high_s - low_s)) by (nonlinear_arith)
        requires
            a * high_t == b * high_s,
            a * low_t == b * low_s,
    ;
}

/// Of two pairs in the same proportion, of which the first holds the
/// greatest first part and the second the greatest second part, the greatest
/// parts are in that proportion too.
proof fn lemma_proportional_extreme(a: int, b: int, t1: int, s1: int, t2: int, s2: int)
    by (nonlinear_arith)
    requires
        a >= 1,
        b >= 1,
        a * t1 == b * s1,
        a * t2 == b * s2,
        t2 <= t1,
        s1 <= s2,
    ensures
        a * t1 == b * s2,
{
}

/// One axis of a stroke in proportion to a gesture: at the scale that the
/// two extents give, each displacement of the stroke is the displacement of
/// the gesture.
proof fn lemma_proportional_axis_matches(
    a: int,
    b: int,
    live: int,
    template: int,
    template_extent: int,
    session_extent: int,
    tolerance: Ratio,
)
    requires
        a >= 1,
        b >= 1,
        a * template == b * live,
        a * template_extent == b * session_extent,
        0 <= template_extent <= u16::MAX,
        0 <= session_extent <= u16::MAX,
        session_extent == 0 ==> live == 0,
        tolerance.num > 0,
    ensures
        axis_within(
            live,
            template,
            scale_for(template_extent, session_extent, Ratio { num: 1, den: 1 }),
            tolerance,
        ),
{
    let tn = tolerance.num as int;
    let td = tolerance.den as int;
    if session_extent > 0 {
        let gap = live * template_extent - template * session_extent;
        assert(a * gap == 0) by (nonlinear_arith)
            requires
                a * template == b * live,
                a * template_extent == b * session_extent,
                gap == live * template_extent - template * session_extent,
        ;
        assert(gap == 0) by (nonlinear_arith)
            requires
                a * gap == 0,
                a >= 1,
        ;
        assert(tn * session_extent > 0) by (nonlinear_arith)
            requires
                tn > 0,
                session_extent > 0,
        ;
        assert(abs(gap) * td == 0) by (nonlinear_arith)
            requires
                gap == 0,
        ;
        let scale = scale_for(template_extent, session_extent, Ratio { num: 1, den: 1 });
        assert(scale.num == template_extent && scale.den == session_extent);
    } else {
        assert(template == 0) by (nonlinear_arith)
            requires
                a * template == b * live,
                live == 0,
                a >= 1,
        ;
        assert(abs(live * 1 - template * 1) * td == 0) by (nonlinear_arith)
            requires
                live == 0,
                template == 0,
        ;
    }
}

/// A stroke that has the shape of the path of a relative gesture, stretched
/// or shrunk along each axis by any ratio, follows the path, wherever on the
/// screen it lies, provided the gesture knows its size and tolerates
/// anything at all. `ax / bx` is the ratio of the stroke's horizontal
/// displacements to the gesture's, `ay / by` that of the vertical ones.
pub proof fn lemma_scaled_stroke_is_followed(
    g: GestureView,
    session: Seq<Point>,
    ax: int,
    bx: int,
    ay: int,
    by: int,
)
    requires
        g.is_relative,
        g.bounds_current(),
        g.tolerance.num > 0,
        session.len() == g.points.len(),
        ax >= 1 && bx >= 1 && ay >= 1 && by >= 1,
        forall|i: int|
            0 <= i < session.len() ==> ax * ((#[trigger] g.points[i]).x - g.points[0].x) == bx * (
            session[i].x - session[0].x),
        forall|i: int|
            0 <= i < session.len() ==> ay * ((#[trigger] g.points[i]).y - g.points[0].y) == by * (
            session[i].y - session[0].y),
    ensures
        fully_matches(g, session),
{
    let xscale = session_xscale(g, session);
    let yscale = session_yscale(g, session);
    if session.len() > 0 {
        lemma_widths_in_proportion(g.points, session, ax, bx);
        lemma_heights_in_proportion(g.points, session, ay, by);
        lemma_extent_zero_iff_flat(g.points);
        lemma_extent_zero_iff_flat(session);
        let places = Seq::new(session.len(), |i: int| i);
        assert forall|k: int| 0 <= k < places.len() implies 0 <= #[trigger] places[k]
            < session.len() && point_matches(g, xscale, yscale, session, places[k], k) by {
            assert(ax * (g.points[k].x - g.points[0].x) == bx * (session[k].x - session[0].x));
            assert(ay * (g.points[k].y - g.points[0].y) == by * (session[k].y - session[0].y));
            if extent_x(session) == 0 {
                assert(session[k].x == session[0].x);
            }
            if extent_y(session) == 0 {
                assert(session[k].y == session[0].y);
            }
            lemma_proportional_axis_matches(
                ax,
                bx,
                session[k].x - session[0].x,
                g.points[k].x - g.points[0].x,
                extent_x(g.points),
                extent_x(session),
                g.tolerance,
            );
            lemma_proportional_axis_matches(
                ay,
                by,
                session[k].y - session[0].y,
                g.points[k].y - g.points[0].y,
                extent_y(g.points),
                extent_y(session),
                g.tolerance,
            );
        }
        lemma_embedding_bounds_walk(g, xscale, yscale, session, places, session.len());
    }
    lemma_walk_bounds(g, xscale, yscale, session, 0, session.len());
}

/// A gesture cursor as a mathematical value.
pub struct TrackedGestureView {
    pub gesture: Gesture,
    pub matched_points: nat,
    pub xscale: Ratio,
    pub yscale: Ratio,
}

impl TrackedGestureView {
    /// The cursor lies within the path of its gesture.
    pub open spec fn wf(self) -> bool {
        self.matched_points <= self.gesture@.points.len()
    }

    /// The cursor as it is when a stroke begins.
    pub open spec fn fresh(gesture: Gesture) -> TrackedGestureView {
        TrackedGestureView {
            gesture,
            matched_points: 0,
            xscale: Ratio { num: 1, den: 1 },
            yscale: Ratio { num: 1, den: 1 },
        }
    }
}

/// How far one stroke has come along the path of one gesture, and the scale
/// at which the stroke is compared with it.
#[derive(Debug, Clone)]
pub struct TrackedGesture {
    gesture: Arc<Gesture>,
    pub matched_points: usize,
    pub xscale: Ratio,
    pub yscale: Ratio,
}

impl View for TrackedGesture {
    type V = TrackedGestureView;

    closed spec fn view(&self) -> TrackedGestureView {
        TrackedGestureView {
            gesture: *self.gesture,
            matched_points: self.matched_points as nat,
            xscale: self.xscale,
            yscale: self.yscale,
        }
    }
}

impl TrackedGesture {
    /// A cursor at the start of `gesture`, at scale one.
    pub fn new(gesture: Arc<Gesture>) -> (t: TrackedGesture)
        ensures
            t@ == TrackedGestureView::fresh(*gesture),
            t@.wf(),
    {
        TrackedGesture { gesture, matched_points: 0, xscale: Ratio::one(), yscale: Ratio::one() }
    }

    /// Moves the cursor to the next point of the path.
    pub fn inc_matched(&mut self)
        requires
            old(self)@.matched_points < old(self)@.gesture@.points.len(),
        ensures
            final(self)@ == (TrackedGestureView {
                matched_points: old(self)@.matched_points + 1,
                ..old(self)@
            }),
    {
        proof {
            self.gesture.lemma_view_is_bounded();
        }
        self.matched_points += 1;
    }

    /// Whether the cursor has reached the end of the path.
    pub fn all_matched(&self) -> (r: bool)
        ensures
            r == (self@.matched_points == self@.gesture@.points.len()),
    {
        self.matched_points == self.gesture.points_count()
    }

    /// Sets the scale for a stroke that is `pwidth` wide and `pheight` high:
    /// on each axis the gesture's extent over the stroke's. The scale of an
    /// absolute gesture stays as it is, and so does the scale of an axis on
    /// which the stroke has no extent.
    pub fn determine_scale(&mut self, pwidth: u16, pheight: u16)
        ensures
            final(self)@ == (TrackedGestureView {
                xscale: if old(self)@.gesture@.is_relative {
                    scale_for(old(self)@.gesture@.width, pwidth as int, old(self)@.xscale)
                } else {
                    old(self)@.xscale
                },
                yscale: if old(self)@.gesture@.is_relative {
                    scale_for(old(self)@.gesture@.height, pheight as int, old(self)@.yscale)
                } else {
                    old(self)@.yscale
                },
                ..old(self)@
            }),
    {
        if self.gesture.is_relative() {
            if pwidth > 0 {
                self.xscale = Ratio { num: self.gesture.width() as u32, den: pwidth as u32 };
            }
            if pheight > 0 {
                self.yscale = Ratio { num: self.gesture.height() as u32, den: pheight as u32 };
            }
        }
    }

    pub fn is_relative(&self) -> (r: bool)
        ensures
            r == self@.gesture@.is_relative,
    {
        self.gesture.is_relative()
    }

    pub fn first(&self) -> (p: &Point)
        requires
            self@.gesture@.points.len() > 0,
        ensures
            *p == self@.gesture@.points.first(),
    {
        self.gesture.first()
    }

    pub fn last(&self) -> (p: &Point)
        requires
            self@.gesture@.points.len() > 0,
        ensures
            *p == self@.gesture@.points.last(),
    {
        self.gesture.last()
    }

    pub fn points_count(&self) -> (n: usize)
        ensures
            n == self@.gesture@.points.len(),
    {
        self.gesture.points_count()
    }

    pub fn gesture(&self) -> (g: &Gesture)
        ensures
            *g == self@.gesture,
    {
        &self.gesture
    }

    /// A further handle on the gesture that the cursor runs over.
    pub fn shared_gesture(&self) -> (g: Arc<Gesture>)
        ensures
            *g == self@.gesture,
    {
        self.gesture.clone()
    }

    pub fn get_point(&self, index: usize) -> (p: &Point)
        requires
            index < self@.gesture@.points.len(),
        ensures
            *p == self@.gesture@.points[index as int],
    {
        self.gesture.get_point(index)
    }

    pub fn constraints_matching(&self, points: &Vec<Point>) -> (r: bool)
        ensures
            r == all_constraints_hold(self@.gesture@.constraints, points@),
    {
        self.gesture.constraints_matching(points)
    }

    pub fn tolerance(&self) -> (t: Ratio)
        ensures
            t == self@.gesture@.tolerance,
    {
        self.gesture.tolerance()
    }

    /// The cursor's position.
    pub fn matched(&self) -> (n: usize)
        ensures
            n == self@.matched_points,
    {
        self.matched_points
    }

    /// The horizontal scale of the current stroke.
    pub fn xscale(&self) -> (s: Ratio)
        ensures
            s == self@.xscale,
    {
        self.xscale
    }

    /// The vertical scale of the current stroke.
    pub fn yscale(&self) -> (s: Ratio)
        ensures
            s == self@.yscale,
    {
        self.yscale
    }
}

} // verus!
