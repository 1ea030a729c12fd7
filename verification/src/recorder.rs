//! The recorder: it collects the points of one stroke at a time and decides,
//! when the stroke ends, which registered gesture it was.

use crate::geometry::{extent_x, extent_y, Point};
use crate::gesture::{all_constraints_hold, Gesture, GestureView};
use crate::tracking::{
    lemma_walk_stays_complete, recognises, session_xscale, session_yscale, walk, TrackedGesture,
    TrackedGestureView,
};
use std::sync::Arc;
use vstd::prelude::*;

verus! {

/// Why the recorder refused a call.
#[derive(Debug, Clone, Copy, PartialEq, Eq, Structural)]
pub enum RecorderError {
    /// The call is not allowed in the recorder's current state.
    InvalidState,
    /// The gesture has no points.
    MalformedTemplate,
}

/// Whether candidate `a` is preferred to candidate `b`: the one with more
/// points is, then the absolute one; of two absolute gestures with as many
/// points the later, of two relative ones the earlier.
pub open spec fn beats(candidates: Seq<Gesture>, a: int, b: int) -> bool {
    let ga = candidates[a]@;
    let gb = candidates[b]@;
    ||| ga.points.len() > gb.points.len()
    ||| ga.points.len() == gb.points.len() && !ga.is_relative && gb.is_relative
    ||| ga.points.len() == gb.points.len() && ga.is_relative == gb.is_relative && (if ga.is_relative {
        a < b
    } else {
        a > b
    })
}

/// Whether candidate `w` is the gesture that the stroke `session` is taken
/// for: it is recognised in the stroke and preferred to every other candidate
/// that is.
pub open spec fn is_winner(candidates: Seq<Gesture>, session: Seq<Point>, w: int) -> bool {
    &&& 0 <= w < candidates.len()
    &&& recognises(candidates[w]@, session)
    &&& forall|j: int|
        0 <= j < candidates.len() && j != w && recognises(#[trigger] candidates[j]@, session)
            ==> beats(candidates, w, j)
}

/// The index of the gesture that the stroke `session` is taken for, if it is
/// taken for any.
pub open spec fn winner(candidates: Seq<Gesture>, session: Seq<Point>) -> Option<int> {
    if exists|w: int| is_winner(candidates, session, w) {
        Some(choose|w: int| is_winner(candidates, session, w))
    } else {
        None
    }
}

/// Of two different candidates one is preferred to the other, never both, and
/// the preference carries over a third.
pub proof fn lemma_beats_is_a_strict_order(candidates: Seq<Gesture>, a: int, b: int, c: int)
    ensures
        !beats(candidates, a, a),
        a != b ==> (beats(candidates, a, b) <==> !beats(candidates, b, a)),
        beats(candidates, a, b) && beats(candidates, b, c) ==> beats(candidates, a, c),
{
}

/// No stroke is taken for two gestures: the winner, if there is one, is the
/// only one. So the same gestures and the same stroke give the same answer.
pub proof fn lemma_winner_is_unique(candidates: Seq<Gesture>, session: Seq<Point>, a: int, b: int)
    requires
        is_winner(candidates, session, a),
        is_winner(candidates, session, b),
    ensures
        a == b,
{
    if a != b {
        assert(beats(candidates, a, b));
        assert(beats(candidates, b, a));
    }
}

/// The winner is the candidate that `is_winner` describes.
pub proof fn lemma_winner_is(candidates: Seq<Gesture>, session: Seq<Point>, w: int)
    ensures
        is_winner(candidates, session, w) <==> winner(candidates, session) == Some(w),
{
    if is_winner(candidates, session, w) {
        let chosen = choose|w: int| is_winner(candidates, session, w);
        lemma_winner_is_unique(candidates, session, w, chosen);
    }
}

/// There is no winner exactly when no candidate is recognised in the stroke.
pub proof fn lemma_no_winner(candidates: Seq<Gesture>, session: Seq<Point>)
    ensures
        winner(candidates, session) is None <==> (forall|j: int|
            0 <= j < candidates.len() ==> !recognises((#[trigger] candidates[j])@, session)),
{
    if exists|j: int| 0 <= j < candidates.len() && recognises((#[trigger] candidates[j])@, session) {
        let j = choose|j: int|
            0 <= j < candidates.len() && recognises((#[trigger] candidates[j])@, session);
        lemma_winner_exists(candidates, session, j);
    }
}

/// A stroke in which some candidate is recognised is taken for a gesture.
pub proof fn lemma_winner_exists(candidates: Seq<Gesture>, session: Seq<Point>, j: int)
    requires
        0 <= j < candidates.len(),
        recognises(candidates[j]@, session),
    ensures
        exists|w: int| is_winner(candidates, session, w),
    decreases candidates.len(),
{
    let last = candidates.len() - 1;
    let rest = candidates.drop_last();
    assert(forall|i: int| 0 <= i < last ==> rest[i] == candidates[i]);
    let first_recognised = choose|i: int| 0 <= i < last && recognises(rest[i]@, session);
    if 0 <= first_recognised < last && recognises(rest[first_recognised]@, session) {
        lemma_winner_exists(rest, session, first_recognised);
        let w = choose|w: int| is_winner(rest, session, w);
        if recognises(candidates[last]@, session) && beats(candidates, last, w) {
            assert forall|i: int|
                0 <= i < candidates.len() && i != last && recognises(
                    #[trigger] candidates[i]@,
                    session,
                ) implies beats(candidates, last, i) by {
                if i != w {
                    assert(recognises(rest[i]@, session));
                    assert(beats(rest, w, i));
                    lemma_beats_is_a_strict_order(candidates, last, w, i);
                }
            }
            assert(is_winner(candidates, session, last));
        } else {
            assert forall|i: int|
                0 <= i < candidates.len() && i != w && recognises(
                    #[trigger] candidates[i]@,
                    session,
                ) implies beats(candidates, w, i) by {
                if i == last {
                    lemma_beats_is_a_strict_order(candidates, last, w, i);
                } else {
                    assert(recognises(rest[i]@, session));
                    assert(beats(rest, w, i));
                }
            }
            assert(is_winner(candidates, session, w));
        }
    } else {
        assert forall|i: int|
            0 <= i < candidates.len() && i != last implies !recognises(
                #[trigger] candidates[i]@,
                session,
            ) by {
            assert(!recognises(rest[i]@, session));
        }
        assert(is_winner(candidates, session, last));
    }
}

/// The winner has at least as many points as every candidate recognised in
/// the stroke, and among those with as many points a relative gesture wins
/// only over relative ones.
pub proof fn lemma_winner_is_most_specific(
    candidates: Seq<Gesture>,
    session: Seq<Point>,
    w: int,
    j: int,
)
    requires
        is_winner(candidates, session, w),
        0 <= j < candidates.len(),
        recognises(candidates[j]@, session),
    ensures
        candidates[w]@.points.len() >= candidates[j]@.points.len(),
        candidates[w]@.points.len() == candidates[j]@.points.len() && candidates[w]@.is_relative
            ==> candidates[j]@.is_relative,
{
    if j != w {
        assert(beats(candidates, w, j));
    }
}

/// A gesture with a constraint that the stroke does not satisfy is not
/// recognised in it, whatever its path, and so is not the winner.
pub proof fn lemma_unmet_constraint_excludes(
    candidates: Seq<Gesture>,
    session: Seq<Point>,
    w: int,
    i: int,
)
    requires
        0 <= w < candidates.len(),
        0 <= i < candidates[w]@.constraints.len(),
        !candidates[w]@.constraints[i].spec_holds(session),
    ensures
        !recognises(candidates[w]@, session),
        !is_winner(candidates, session, w),
{
}

/// A recorder as a mathematical value.
pub struct RecorderView {
    pub is_tracking: bool,
    pub fast_trigger: bool,
    /// The points of the current stroke.
    pub points: Seq<Point>,
    /// The registered gestures, in the order of their registration.
    pub gestures: Seq<Gesture>,
    /// The cursors of the current stroke.
    pub cursors: Seq<TrackedGestureView>,
}

impl RecorderView {
    /// Every registered gesture has a point and knows its size; the cursors
    /// stand at the start of the gestures that were registered when the
    /// stroke began, and there are none between strokes.
    pub open spec fn wf(self) -> bool {
        &&& forall|i: int|
            0 <= i < self.gestures.len() ==> (#[trigger] self.gestures[i])@.points.len() > 0
                && self.gestures[i]@.bounds_current()
        &&& self.cursors.len() <= self.gestures.len()
        &&& forall|i: int|
            0 <= i < self.cursors.len() ==> #[trigger] self.cursors[i] == TrackedGestureView::fresh(
                self.gestures[i],
            )
        &&& !self.is_tracking ==> self.cursors.len() == 0
    }

    /// The gestures that the current stroke is compared with.
    pub open spec fn candidates(self) -> Seq<Gesture> {
        self.gestures.take(self.cursors.len() as int)
    }

    /// The recorder after a stroke began.
    pub open spec fn started(self) -> RecorderView {
        RecorderView {
            is_tracking: true,
            points: Seq::empty(),
            cursors: Seq::new(self.gestures.len(), |i: int| TrackedGestureView::fresh(self.gestures[i])),
            ..self
        }
    }

    /// The recorder after `point` was added to the stroke.
    pub open spec fn extended(self, point: Point) -> RecorderView {
        RecorderView { points: self.points.push(point), ..self }
    }

    /// The recorder after the stroke ended.
    pub open spec fn stopped(self) -> RecorderView {
        RecorderView { is_tracking: false, cursors: Seq::empty(), ..self }
    }

    /// The recorder after `gesture` was registered.
    pub open spec fn registered(self, gesture: Gesture) -> RecorderView {
        RecorderView { gestures: self.gestures.push(gesture), ..self }
    }

    /// The recorder after each of `samples` was added to the stroke in turn.
    pub open spec fn replayed(self, samples: Seq<Point>) -> RecorderView
        decreases samples.len(),
    {
        if samples.len() == 0 {
            self
        } else {
            self.replayed(samples.drop_last()).extended(samples.last())
        }
    }

    /// A stroke that begins and ends without a point between is taken for no
    /// gesture, so that the listener is not told of any.
    pub proof fn lemma_empty_session_has_no_winner(self)
        ensures
            self.started().points.len() == 0,
            winner(self.started().candidates(), self.started().points) is None,
            forall|w: int| !is_winner(self.started().candidates(), self.started().points, w),
    {
    }

    /// Adding points to the stroke changes nothing but the stroke.
    pub proof fn lemma_replayed(self, samples: Seq<Point>)
        ensures
            self.replayed(samples) == (RecorderView { points: self.points + samples, ..self }),
        decreases samples.len(),
    {
        if samples.len() == 0 {
            assert(self.points + samples =~= self.points);
        } else {
            self.lemma_replayed(samples.drop_last());
            assert(self.points + samples =~= (self.points + samples.drop_last()).push(
                samples.last(),
            ));
        }
    }

    /// What a stroke is taken for depends on the registered gestures and on
    /// the points of the stroke, and on nothing else: not on earlier strokes,
    /// nor on the fast trigger. Two idle recorders with the same gestures
    /// that are given the same points compare the same candidates with the
    /// same stroke, and have the same winner or none.
    pub proof fn lemma_session_is_determined(self, other: RecorderView, samples: Seq<Point>)
        requires
            self.gestures == other.gestures,
        ensures
            self.started().replayed(samples).points == samples,
            self.started().replayed(samples).candidates() == self.gestures,
            other.started().replayed(samples).points == samples,
            other.started().replayed(samples).candidates() == self.gestures,
            winner(
                self.started().replayed(samples).candidates(),
                self.started().replayed(samples).points,
            ) == winner(
                other.started().replayed(samples).candidates(),
                other.started().replayed(samples).points,
            ),
    {
        self.started().lemma_replayed(samples);
        other.started().lemma_replayed(samples);
        assert(Seq::<Point>::empty() + samples =~= samples);
        assert(self.started().candidates() =~= self.gestures);
        assert(other.started().candidates() =~= self.gestures);
    }
}

/// Records strokes and recognises gestures in them. `L` is the listener that
/// is told of each recognised gesture.
pub struct GestureRecorder<L: Fn(Arc<Gesture>) -> bool> {
    pub is_tracking: bool,
    fast_trigger: bool,
    points: Vec<Point>,
    gestures: Vec<Arc<Gesture>>,
    tracked_gestures: Vec<TrackedGesture>,
    listener: L,
}

impl<L: Fn(Arc<Gesture>) -> bool> View for GestureRecorder<L> {
    type V = RecorderView;

    closed spec fn view(&self) -> RecorderView {
        RecorderView {
            is_tracking: self.is_tracking,
            fast_trigger: self.fast_trigger,
            points: self.points@,
            gestures: Seq::new(self.gestures@.len(), |i: int| *self.gestures@[i]),
            cursors: Seq::new(self.tracked_gestures@.len(), |i: int| self.tracked_gestures@[i]@),
        }
    }
}

impl<L: Fn(Arc<Gesture>) -> bool> GestureRecorder<L> {
    /// The listener that the recorder was made with.
    pub closed spec fn spec_listener(&self) -> L {
        self.listener
    }

    /// The recorder's state is consistent, and its listener accepts every gesture.
    pub open spec fn wf(&self) -> bool {
        &&& self@.wf()
        &&& forall|gesture: Arc<Gesture>| call_requires(self.spec_listener(), (gesture,))
    }

    /// An idle recorder without gestures that reports to `listener`.
    pub fn new(listener: L) -> (r: GestureRecorder<L>)
        requires
            forall|gesture: Arc<Gesture>| call_requires(listener, (gesture,)),
        ensures
            r.wf(),
            r.spec_listener() == listener,
            r@ == (RecorderView {
                is_tracking: false,
                fast_trigger: false,
                points: Seq::empty(),
                gestures: Seq::empty(),
                cursors: Seq::empty(),
            }),
    {
        let r = GestureRecorder {
            is_tracking: false,
            fast_trigger: false,
            points: Vec::new(),
            gestures: Vec::new(),
            tracked_gestures: Vec::new(),
            listener,
        };
        assert(r@.points =~= Seq::empty());
        assert(r@.gestures =~= Seq::empty());
        assert(r@.cursors =~= Seq::empty());
        r
    }

    /// Whether a stroke is being recorded.
    pub fn tracking(&self) -> (r: bool)
        ensures
            r == self@.is_tracking,
    {
        self.is_tracking
    }

    /// Switches the fast trigger on or off. Refused with `InvalidState` while
    /// a stroke is being recorded.
    pub fn set_fast_trigger(&mut self, fast_trigger: bool) -> (r: Result<(), RecorderError>)
        ensures
            final(self).spec_listener() == old(self).spec_listener(),
            old(self)@.is_tracking ==> r == Err::<(), RecorderError>(RecorderError::InvalidState)
                && final(self)@ == old(self)@,
            !old(self)@.is_tracking ==> r == Ok::<(), RecorderError>(()) && final(self)@ == (
            RecorderView { fast_trigger, ..old(self)@ }),
    {
        if self.is_tracking {
            return Err(RecorderError::InvalidState);
        }
        self.fast_trigger = fast_trigger;
        Ok(())
    }

    pub fn fast_trigger_activated(&self) -> (r: bool)
        ensures
            r == self@.fast_trigger,
    {
        self.fast_trigger
    }

    /// Adds `gesture`, with the size of its path worked out, to the gestures
    /// that later strokes are compared with. A gesture without points is
    /// refused with `MalformedTemplate`.
    pub fn register_gesture(&mut self, gesture: Gesture) -> (r: Result<(), RecorderError>)
        requires
            old(self).wf(),
        ensures
            final(self).wf(),
            final(self).spec_listener() == old(self).spec_listener(),
            gesture@.points.len() == 0 ==> r == Err::<(), RecorderError>(
                RecorderError::MalformedTemplate,
            ) && final(self)@ == old(self)@,
            gesture@.points.len() > 0 ==> r == Ok::<(), RecorderError>(()) && exists|stored: Gesture|
                {
                    &&& stored@ == (GestureView {
                        width: extent_x(gesture@.points),
                        height: extent_y(gesture@.points),
                        ..gesture@
                    })
                    &&& final(self)@ == old(self)@.registered(stored)
                },
    {
        if gesture.points_count() == 0 {
            return Err(RecorderError::MalformedTemplate);
        }
        let mut gesture = gesture;
        gesture.calculate_bounds();
        let ghost stored = gesture;
        let ghost before = self@;
        self.gestures.push(Arc::new(gesture));
        proof {
            assert(self@.gestures =~= before.gestures.push(stored));
            assert(self@.cursors =~= before.cursors);
            assert(self@ == before.registered(stored));
            assert(self.spec_listener() == old(self).spec_listener());
        }
        Ok(())
    }

    /// Begins a stroke: forgets the points of the last one and puts a cursor
    /// at the start of every registered gesture. Refused with `InvalidState`
    /// while a stroke is being recorded.
    pub fn start(&mut self) -> (r: Result<(), RecorderError>)
        requires
            old(self).wf(),
        ensures
            final(self).wf(),
            final(self).spec_listener() == old(self).spec_listener(),
            old(self)@.is_tracking ==> r == Err::<(), RecorderError>(RecorderError::InvalidState)
                && final(self)@ == old(self)@,
            !old(self)@.is_tracking ==> r == Ok::<(), RecorderError>(()) && final(self)@ == old(
                self,
            )@.started(),
    {
        if self.is_tracking {
            return Err(RecorderError::InvalidState);
        }
        let ghost before = self@;
        self.points.clear();
        self.tracked_gestures.clear();
        let mut i: usize = 0;
        while i < self.gestures.len()
            invariant
                i <= self.gestures@.len(),
                self.tracked_gestures@.len() == i,
                self.listener == old(self).listener,
                self.is_tracking == old(self).is_tracking,
                self.fast_trigger == old(self).fast_trigger,
                self.gestures == old(self).gestures,
                self.points@.len() == 0,
                forall|j: int|
                    0 <= j < i ==> (#[trigger] self.tracked_gestures@[j])@
                        == TrackedGestureView::fresh(*self.gestures@[j]),
            decreases self.gestures@.len() - i,
        {
            self.tracked_gestures.push(TrackedGesture::new(self.gestures[i].clone()));
            i += 1;
        }
        self.is_tracking = true;
        proof {
            assert(self@.points =~= before.started().points);
            assert(self@.gestures =~= before.gestures);
            assert(self@.cursors =~= before.started().cursors);
            assert(self.spec_listener() == old(self).spec_listener());
        }
        Ok(())
    }

    /// Ends the stroke and decides which gesture it was: among the gestures
    /// that the stroke follows to the end and whose constraints it satisfies,
    /// the one with the most points, an absolute one before a relative one.
    /// The listener is told of that gesture, and it is returned. Refused with
    /// `InvalidState` when no stroke is being recorded.
    pub fn stop(&mut self) -> (r: Result<Option<Arc<Gesture>>, RecorderError>)
        requires
            old(self).wf(),
        ensures
            final(self).wf(),
            final(self).spec_listener() == old(self).spec_listener(),
            !old(self)@.is_tracking ==> r == Err::<Option<Arc<Gesture>>, RecorderError>(
                RecorderError::InvalidState,
            ) && final(self)@ == old(self)@,
            old(self)@.is_tracking && old(self)@.points.len() == 0 ==> r matches Ok(None),
            old(self)@.is_tracking ==> final(self)@ == old(self)@.stopped() && match r {
                Ok(found) => match winner(old(self)@.candidates(), old(self)@.points) {
                    Some(w) => found matches Some(gesture) && *gesture == old(self)@.candidates()[w],
                    None => found is None,
                },
                Err(_) => false,
            },
            r matches Ok(Some(gesture)) ==> exists|accepted: bool|
                call_ensures(old(self).spec_listener(), (gesture,), accepted),
    {
        if !self.is_tracking {
            return Err(RecorderError::InvalidState);
        }
        let ghost before = self@;
        let ghost candidates = before.candidates();
        let mut cursors: Vec<TrackedGesture> = Vec::new();
        std::mem::swap(&mut cursors, &mut self.tracked_gestures);
        self.is_tracking = false;
        proof {
            assert(self@.points =~= before.points);
            assert(self@.gestures =~= before.gestures);
            assert(self@.cursors =~= Seq::empty());
            assert(self@ == before.stopped());
            assert(self.spec_listener() == old(self).spec_listener());
        }
        let mut found: Option<Arc<Gesture>> = None;
        if self.points.len() > 0 {
            let (pwidth, pheight) = Point::bounds(&self.points);
            let pfirst = self.points[0];
            let ghost mut best: int = 0;
            // The cursors are taken from the back, so each candidate was
            // registered before the best one so far.
            while cursors.len() > 0
                invariant
                    self@ == before.stopped(),
                    self.wf(),
                    self.listener == old(self).listener,
                    self.points@ == before.points,
                    before.wf(),
                    before.points.len() > 0,
                    pfirst == before.points[0],
                    pwidth == extent_x(before.points),
                    pheight == extent_y(before.points),
                    candidates == before.candidates(),
                    cursors@.len() <= candidates.len() == before.cursors.len(),
                    forall|j: int|
                        0 <= j < cursors@.len() ==> (#[trigger] cursors@[j])@ == before.cursors[j],
                    match found {
                        Some(gesture) => {
                            &&& cursors@.len() <= best < candidates.len()
                            &&& *gesture == candidates[best]
                            &&& recognises(candidates[best]@, before.points)
                            &&& forall|j: int|
                                cursors@.len() <= j < candidates.len() && j != best && recognises(
                                    #[trigger] candidates[j]@,
                                    before.points,
                                ) ==> beats(candidates, best, j)
                        },
                        None => forall|j: int|
                            cursors@.len() <= j < candidates.len() ==> !recognises(
                                #[trigger] candidates[j]@,
                                before.points,
                            ),
                    },
                decreases cursors@.len(),
            {
                let ghost index = cursors@.len() - 1;
                let mut cursor = cursors.pop().unwrap();
                proof {
                    assert(cursor@ == before.cursors[index]);
                    assert(candidates[index] == before.gestures[index]);
                    assert(cursor@ == TrackedGestureView::fresh(candidates[index]));
                    assert(candidates[index]@.points.len() > 0);
                }
                cursor.determine_scale(pwidth, pheight);
                let (gesture_matched, cursor) = self.check_likeliest_match(cursor, &pfirst);
                proof {
                    let g = candidates[index]@;
                    assert(cursor@.xscale == session_xscale(g, before.points));
                    assert(cursor@.yscale == session_yscale(g, before.points));
                    assert(gesture_matched == recognises(g, before.points));
                }
                if gesture_matched {
                    let replace = match &found {
                        Some(best) => cursor.points_count() > best.points_count() || (
                        cursor.points_count() == best.points_count() && best.is_relative()),
                        None => true,
                    };
                    if replace {
                        found = Some(cursor.shared_gesture());
                        proof {
                            best = index;
                        }
                    }
                }
            }
            proof {
                if found is Some {
                    assert(is_winner(candidates, before.points, best));
                    lemma_winner_is(candidates, before.points, best);
                } else {
                    lemma_no_winner(candidates, before.points);
                }
            }
        } else {
            proof {
                lemma_no_winner(candidates, before.points);
            }
        }
        if let Some(gesture) = &found {
            self.notify(gesture.clone());
        }
        Ok(found)
    }

    /// Adds `plast` to the stroke. Refused with `InvalidState` when no stroke
    /// is being recorded.
    pub fn track(&mut self, plast: Point) -> (r: Result<(), RecorderError>)
        ensures
            final(self).spec_listener() == old(self).spec_listener(),
            !old(self)@.is_tracking ==> r == Err::<(), RecorderError>(RecorderError::InvalidState)
                && final(self)@ == old(self)@,
            old(self)@.is_tracking ==> r == Ok::<(), RecorderError>(()) && final(self)@ == old(
                self,
            )@.extended(plast),
    {
        if !self.is_tracking {
            return Err(RecorderError::InvalidState);
        }
        let ghost before = self@;
        self.points.push(plast);
        proof {
            assert(self@.gestures =~= before.gestures);
            assert(self@.cursors =~= before.cursors);
        }
        Ok(())
    }

    /// Walks the stroke with `tracked_gesture`, from where the cursor stands,
    /// and says whether the gesture is recognised: the cursor reaches the end
    /// of the path and the stroke satisfies the constraints.
    fn check_likeliest_match(&self, tracked_gesture: TrackedGesture, pfirst: &Point) -> (r: (
        bool,
        TrackedGesture,
    ))
        requires
            self.points@.len() > 0,
            *pfirst == self.points@[0],
            tracked_gesture@.matched_points < tracked_gesture@.gesture@.points.len(),
        ensures
            r.1@ == (TrackedGestureView {
                matched_points: walk(
                    tracked_gesture@.gesture@,
                    tracked_gesture@.xscale,
                    tracked_gesture@.yscale,
                    self.points@,
                    tracked_gesture@.matched_points,
                    self.points@.len(),
                ),
                ..tracked_gesture@
            }),
            r.0 == (r.1@.matched_points == r.1@.gesture@.points.len() && all_constraints_hold(
                r.1@.gesture@.constraints,
                self.points@,
            )),
    {
        let mut cursor = tracked_gesture;
        let ghost initial = cursor@;
        let ghost g = initial.gesture@;
        let gfirst = *cursor.first();
        let mut i: usize = 0;
        while i < self.points.len()
            invariant
                i <= self.points@.len(),
                self.points@.len() > 0,
                *pfirst == self.points@[0],
                initial == tracked_gesture@,
                g == initial.gesture@,
                gfirst == g.points[0],
                initial.matched_points < g.points.len(),
                cursor@ == (TrackedGestureView {
                    matched_points: walk(
                        g,
                        initial.xscale,
                        initial.yscale,
                        self.points@,
                        initial.matched_points,
                        i as nat,
                    ),
                    ..initial
                }),
                cursor@.matched_points < g.points.len(),
            decreases self.points@.len() - i,
        {
            let point = &self.points[i];
            let glast = cursor.get_point(cursor.matched());
            if Point::matched(
                pfirst,
                point,
                &gfirst,
                glast,
                cursor.xscale(),
                cursor.yscale(),
                cursor.tolerance(),
            ) {
                cursor.inc_matched();
            }
            i += 1;
            if cursor.all_matched() {
                proof {
                    lemma_walk_stays_complete(
                        g,
                        initial.xscale,
                        initial.yscale,
                        self.points@,
                        initial.matched_points,
                        i as nat,
                        self.points@.len(),
                    );
                }
                return (cursor.constraints_matching(&self.points), cursor);
            }
        }
        (false, cursor)
    }

    /// Tells the listener of `gesture` and returns its answer.
    pub fn notify(&self, gesture: Arc<Gesture>) -> (accepted: bool)
        requires
            self.wf(),
        ensures
            call_ensures(self.spec_listener(), (gesture,), accepted),
    {
        assert(call_requires(self.spec_listener(), (gesture,)));
        (self.listener)(gesture)
    }
}

} // verus!
