//! Gesture templates: a path of points, how it is compared, and where a
//! stroke may start and end.

use crate::geometry::{extent_x, extent_y, Point, Ratio};
use vstd::prelude::*;

verus! {

/// The tolerance, in whole pixels, of a gesture that names none.
pub const DEFAULT_TOLERANCE: u32 = 20;

/// A region of the screen, without its border.
#[derive(Debug, Clone, Copy)]
pub enum Area {
    /// Left of and above the point.
    Smaller(Point),
    /// Right of and below the point.
    Bigger(Point),
    /// Inside the rectangle between the two points.
    Between(Point, Point),
}

/// A restriction on where a stroke begins or ends.
#[derive(Debug, Clone, Copy)]
pub enum Constraint {
    /// The first point of the stroke lies in the area.
    StartArea(Area),
    /// The last point of the stroke lies in the area.
    StopArea(Area),
}

impl Area {
    /// Whether `p` lies strictly inside the area.
    pub open spec fn spec_contains(&self, p: &Point) -> bool {
        match *self {
            Area::Smaller(max) => p.spec_smaller(&max),
            Area::Bigger(min) => p.spec_bigger(&min),
            Area::Between(start, end) => p.spec_between(&start, &end),
        }
    }

    /// Whether `p` lies strictly inside the area.
    #[verifier::when_used_as_spec(spec_contains)]
    pub fn contains(&self, p: &Point) -> (r: bool)
        ensures
            r == self.spec_contains(p),
    {
        match self {
            Area::Smaller(max) => p.smaller(max),
            Area::Bigger(min) => p.bigger(min),
            Area::Between(start, end) => p.between(start, end),
        }
    }
}

impl Constraint {
    /// Whether a stroke satisfies the constraint. A stroke without points has
    /// no first and no last point and satisfies none.
    pub open spec fn spec_holds(&self, session: Seq<Point>) -> bool {
        match *self {
            Constraint::StartArea(area) => session.len() > 0 && area.spec_contains(
                &session.first(),
            ),
            Constraint::StopArea(area) => session.len() > 0 && area.spec_contains(&session.last()),
        }
    }
}

/// Whether a stroke satisfies every one of `constraints`.
pub open spec fn all_constraints_hold(constraints: Seq<Constraint>, session: Seq<Point>) -> bool {
    forall|i: int| 0 <= i < constraints.len() ==> (#[trigger] constraints[i]).spec_holds(session)
}

/// What a gesture is made from, apart from its points and constraints.
pub struct GestureAttributes<'a> {
    pub name: &'a str,
    pub action: &'a str,
    pub is_relative: bool,
    pub tolerance: Ratio,
}

impl<'a> GestureAttributes<'a> {
    /// An unnamed absolute gesture without action, with the default tolerance.
    pub fn default() -> (r: GestureAttributes<'a>)
        ensures
            r.name@ == Seq::<char>::empty(),
            r.action@ == Seq::<char>::empty(),
            !r.is_relative,
            r.tolerance == (Ratio { num: DEFAULT_TOLERANCE, den: 1 }),
    {
        proof {
            reveal_strlit("");
        }
        let r = GestureAttributes {
            name: "",
            action: "",
            is_relative: false,
            tolerance: Ratio::whole(DEFAULT_TOLERANCE),
        };
        assert(r.name@ =~= Seq::<char>::empty());
        assert(r.action@ =~= Seq::<char>::empty());
        r
    }
}

/// A gesture template as a mathematical value.
pub struct GestureView {
    pub points: Seq<Point>,
    pub is_relative: bool,
    pub constraints: Seq<Constraint>,
    pub tolerance: Ratio,
    pub name: Seq<char>,
    pub action: Seq<char>,
    pub width: int,
    pub height: int,
}

impl GestureView {
    /// The recorded size is the size of the bounding box of the points.
    pub open spec fn bounds_current(self) -> bool {
        self.width == extent_x(self.points) && self.height == extent_y(self.points)
    }
}

/// A gesture template. Its points are conventionally given from `(0, 0)`;
/// where on the screen a stroke may lie is said by constraints.
#[derive(Debug, Clone)]
pub struct Gesture {
    points: Vec<Point>,
    pub is_relative: bool,
    constraints: Vec<Constraint>,
    pub tolerance: Ratio,
    pub name: String,
    pub action: String,
    width: u16,
    height: u16,
}

impl View for Gesture {
    type V = GestureView;

    closed spec fn view(&self) -> GestureView {
        GestureView {
            points: self.points@,
            is_relative: self.is_relative,
            constraints: self.constraints@,
            tolerance: self.tolerance,
            name: self.name@,
            action: self.action@,
            width: self.width as int,
            height: self.height as int,
        }
    }
}

impl Gesture {
    /// The number of points of a gesture fits in a machine word, and its
    /// recorded size in 16 bits.
    pub proof fn lemma_view_is_bounded(&self)
        ensures
            self@.points.len() <= usize::MAX,
            0 <= self@.width <= u16::MAX,
            0 <= self@.height <= u16::MAX,
    {
        assert(self.points.len() == self.points@.len());
    }

    /// A gesture without points or constraints whose size is still zero.
    pub fn new(attributes: &GestureAttributes) -> (g: Gesture)
        ensures
            g@ == (GestureView {
                points: Seq::empty(),
                is_relative: attributes.is_relative,
                constraints: Seq::empty(),
                tolerance: attributes.tolerance,
                name: attributes.name@,
                action: attributes.action@,
                width: 0,
                height: 0,
            }),
    {
        let g = Gesture {
            is_relative: attributes.is_relative,
            name: attributes.name.to_owned(),
            action: attributes.action.to_owned(),
            points: Vec::new(),
            tolerance: attributes.tolerance,
            constraints: Vec::new(),
            width: 0,
            height: 0,
        };
        assert(g@.points =~= Seq::empty());
        assert(g@.constraints =~= Seq::empty());
        g
    }

    /// Records the size of the bounding box of the points. To be called once
    /// all points are added.
    pub fn calculate_bounds(&mut self)
        ensures
            final(self)@ == (GestureView {
                width: extent_x(old(self)@.points),
                height: extent_y(old(self)@.points),
                ..old(self)@
            }),
            final(self)@.bounds_current(),
    {
        let (width, height) = Point::bounds(&self.points);
        self.width = width;
        self.height = height;
    }

    /// Appends `points` to the path.
    pub fn add_points(&mut self, points: Vec<Point>)
        ensures
            final(self)@ == (GestureView { points: old(self)@.points + points@, ..old(self)@ }),
    {
        let mut points = points;
        self.points.append(&mut points);
    }

    /// Appends `point` to the path.
    pub fn add_point(&mut self, point: Point)
        ensures
            final(self)@ == (GestureView { points: old(self)@.points.push(point), ..old(self)@ }),
    {
        self.points.push(point);
    }

    /// Adds a constraint that a stroke has to satisfy besides following the path.
    pub fn add_constraint(&mut self, constraint: Constraint)
        ensures
            final(self)@ == (GestureView {
                constraints: old(self)@.constraints.push(constraint),
                ..old(self)@
            }),
    {
        self.constraints.push(constraint);
    }

    pub fn get_point(&self, index: usize) -> (p: &Point)
        requires
            index < self@.points.len(),
        ensures
            *p == self@.points[index as int],
    {
        &self.points[index]
    }

    /// Whether the stroke `points` satisfies every constraint of the gesture:
    /// each `StartArea` holds its first point and each `StopArea` its last.
    pub fn constraints_matching(&self, points: &Vec<Point>) -> (r: bool)
        ensures
            r == all_constraints_hold(self@.constraints, points@),
    {
        if points.len() == 0 {
            proof {
                if self.constraints@.len() > 0 {
                    assert(!self.constraints@[0].spec_holds(points@));
                }
            }
            return self.constraints.len() == 0;
        }
        let first = &points[0];
        let last = &points[points.len() - 1];
        let mut i: usize = 0;
        while i < self.constraints.len()
            invariant
                i <= self.constraints@.len(),
                points@.len() > 0,
                *first == points@.first(),
                *last == points@.last(),
                forall|j: int| 0 <= j < i ==> (#[trigger] self.constraints@[j]).spec_holds(points@),
            decreases self.constraints@.len() - i,
        {
            let holds = match &self.constraints[i] {
                Constraint::StartArea(area) => area.contains(first),
                Constraint::StopArea(area) => area.contains(last),
            };
            if !holds {
                assert(!self.constraints@[i as int].spec_holds(points@));
                return false;
            }
            i += 1;
        }
        true
    }

    pub fn first(&self) -> (p: &Point)
        requires
            self@.points.len() > 0,
        ensures
            *p == self@.points.first(),
    {
        &self.points[0]
    }

    pub fn last(&self) -> (p: &Point)
        requires
            self@.points.len() > 0,
        ensures
            *p == self@.points.last(),
    {
        &self.points[self.points.len() - 1]
    }

    pub fn points_count(&self) -> (n: usize)
        ensures
            n == self@.points.len(),
    {
        self.points.len()
    }

    /// The name that the gesture is shown by.
    pub fn name(&self) -> (name: &str)
        ensures
            name@ == self@.name,
    {
        self.name.as_str()
    }

    /// What is to be done when the gesture is recognised. The recorder hands
    /// it on and does not look into it.
    pub fn action(&self) -> (action: &str)
        ensures
            action@ == self@.action,
    {
        self.action.as_str()
    }

    /// Whether strokes are compared after scaling them to the gesture's size.
    pub fn is_relative(&self) -> (r: bool)
        ensures
            r == self@.is_relative,
    {
        self.is_relative
    }

    /// The largest deviation per axis, in pixels, that still counts as a match.
    pub fn tolerance(&self) -> (t: Ratio)
        ensures
            t == self@.tolerance,
    {
        self.tolerance
    }

    /// The width recorded by the last `calculate_bounds`.
    pub fn width(&self) -> (w: u16)
        ensures
            w == self@.width,
    {
        self.width
    }

    /// The height recorded by the last `calculate_bounds`.
    pub fn height(&self) -> (h: u16)
        ensures
            h == self@.height,
    {
        self.height
    }
}

} // verus!
