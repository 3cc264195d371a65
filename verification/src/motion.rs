//! What the compositor plays on the overlay's opacity, and which opacity that
//! shows at a given moment.
//!
//! The compositor has no getter for an animated value. The overlay remembers the
//! motion it scheduled and derives from it the value on screen, so that the next
//! motion starts there.

use vstd::prelude::*;
use crate::number::{Double, Single};

verus! {

/// How a segment of a cycle gets from its start value to its end value.
#[derive(Clone, Copy, Debug, PartialEq, Eq, Structural)]
pub enum OpacityEase {
    /// The end value, from the start on.
    Hold,
    /// The symmetric ease-in-out curve.
    Smooth,
}

/// One segment of a repeating opacity cycle.
#[derive(Clone, Copy, Debug, PartialEq, Eq, Structural)]
pub struct OpacitySegment {
    pub start_s: Double,
    pub end_s: Double,
    pub start_value: Single,
    pub end_value: Single,
    pub ease: OpacityEase,
}

/// The ease-in-out curve from `from` at `start_s` to `to` at `end_s`.
#[derive(Clone, Copy, Debug, PartialEq, Eq, Structural)]
pub struct Curve {
    pub from: Single,
    pub to: Single,
    pub start_s: Double,
    pub end_s: Double,
}

/// One piece of an opacity animation.
#[derive(Clone, Copy, Debug, PartialEq, Eq, Structural)]
pub enum Piece {
    /// A constant value from `start_s` on.
    Flat { start_s: Double, value: Single },
    /// A curve, from its own start on.
    Eased(Curve),
}

/// The opacity that a motion shows at some moment.
#[derive(Clone, Copy, Debug, PartialEq, Eq, Structural)]
pub enum Opacity {
    /// A value the motion names itself.
    Known(Single),
    /// The value of `curve` at `at_s`.
    OnCurve { curve: Curve, at_s: Double },
}

/// What the compositor is playing on the overlay's opacity.
///
/// Moments are nanoseconds on a clock that never goes back.
#[derive(Debug)]
pub enum Motion {
    /// A constant value, held.
    Hold(Single),
    /// A one-shot fade in flight.
    Fade { from: Single, to: Single, started_ns: u128, duration_s: Double },
    /// A cycle, repeating from `started_ns`.
    Breathe { started_ns: u128, segments: Vec<OpacitySegment> },
}

/// The mathematical content of a [`Motion`].
#[verifier::ext_equal]
pub enum MotionView {
    Hold(Single),
    Fade { from: Single, to: Single, started_ns: u128, duration_s: Double },
    Breathe { started_ns: u128, segments: Seq<OpacitySegment> },
}

impl View for Motion {
    type V = MotionView;

    open spec fn view(&self) -> MotionView {
        match *self {
            Motion::Hold(value) => MotionView::Hold(value),
            Motion::Fade { from, to, started_ns, duration_s } => MotionView::Fade {
                from,
                to,
                started_ns,
                duration_s,
            },
            Motion::Breathe { started_ns, segments } => MotionView::Breathe {
                started_ns,
                segments: segments@,
            },
        }
    }
}

impl Piece {
    /// What an animation shows at `at_s` while it plays this piece.
    pub open spec fn shown(self, at_s: Double) -> Opacity {
        match self {
            Piece::Flat { start_s, value } => Opacity::Known(value),
            Piece::Eased(curve) => Opacity::OnCurve { curve, at_s },
        }
    }

    /// What an animation shows at `at_s` while it plays this piece.
    fn show(self, at_s: Double) -> (opacity: Opacity)
        ensures
            opacity == self.shown(at_s),
    {
        match self {
            Piece::Flat { start_s, value } => Opacity::Known(value),
            Piece::Eased(curve) => Opacity::OnCurve { curve, at_s },
        }
    }
}

impl OpacitySegment {
    /// A smooth segment eases over its own time. A segment that holds, and one
    /// that takes no time, is at its end value from the start on.
    pub open spec fn as_piece(self) -> Piece {
        if self.ease == OpacityEase::Smooth && self.start_s.is_less(self.end_s) {
            Piece::Eased(
                Curve {
                    from: self.start_value,
                    to: self.end_value,
                    start_s: self.start_s,
                    end_s: self.end_s,
                },
            )
        } else {
            Piece::Flat { start_s: self.start_s, value: self.end_value }
        }
    }

    /// The piece of an animation that plays this segment. It is the one place
    /// that decides how a segment moves: the animation is built from it and the
    /// value on screen is derived from it.
    ///
    /// The time a segment takes, the difference of its ends, is above zero
    /// exactly when its end is above its start.
    pub fn piece(&self) -> (piece: Piece)
        ensures
            piece == self.as_piece(),
    {
        match self.ease {
            OpacityEase::Smooth if self.start_s.less(self.end_s) => Piece::Eased(
                Curve {
                    from: self.start_value,
                    to: self.end_value,
                    start_s: self.start_s,
                    end_s: self.end_s,
                },
            ),
            OpacityEase::Smooth => Piece::Flat { start_s: self.start_s, value: self.end_value },
            OpacityEase::Hold => Piece::Flat { start_s: self.start_s, value: self.end_value },
        }
    }
}

/// The nanoseconds from `started_ns` to `now_ns`, zero where that is not later.
pub open spec fn since(started_ns: u128, now_ns: u128) -> u128 {
    if now_ns <= started_ns {
        0
    } else {
        (now_ns - started_ns) as u128
    }
}

/// The nanoseconds from `started_ns` to `now_ns`, zero where that is not later.
pub(crate) fn time_since(started_ns: u128, now_ns: u128) -> (elapsed_ns: u128)
    ensures
        elapsed_ns == since(started_ns, now_ns),
{
    if now_ns <= started_ns {
        0
    } else {
        now_ns - started_ns
    }
}

/// The curve of a fade: from `from` to `to`, over `duration_s` from zero on.
pub open spec fn fade_curve(from: Single, to: Single, duration_s: Double) -> Curve {
    Curve { from, to, start_s: Double { bits: 0 }, end_s: duration_s }
}

/// Whether segment `index` is the one that plays at `at_s`: the first that ends
/// after `at_s`, or the last where none does.
pub open spec fn plays(segments: Seq<OpacitySegment>, at_s: Double, index: int) -> bool {
    &&& 0 <= index < segments.len()
    &&& forall|earlier: int| 0 <= earlier < index ==> !at_s.is_less((#[trigger] segments[earlier]).end_s)
    &&& at_s.is_less(segments[index].end_s) || index == segments.len() - 1
}

/// The segment that plays at `at_s`.
pub open spec fn playing(segments: Seq<OpacitySegment>, at_s: Double) -> int {
    choose|index: int| plays(segments, at_s, index)
}

/// At every moment exactly one segment of a cycle plays.
pub proof fn lemma_one_segment_plays(segments: Seq<OpacitySegment>, at_s: Double)
    requires
        segments.len() > 0,
    ensures
        plays(segments, at_s, playing(segments, at_s)),
        forall|index: int|
            #[trigger] plays(segments, at_s, index) ==> index == playing(segments, at_s),
{
    let found = lemma_some_segment_plays(segments, at_s, 0);
    assert(plays(segments, at_s, found));
    let chosen = playing(segments, at_s);
    assert forall|index: int| #[trigger] plays(segments, at_s, index) implies index == chosen by {
        if index < chosen {
            assert(!at_s.is_less(segments[index].end_s));
        } else if chosen < index {
            assert(!at_s.is_less(segments[chosen].end_s));
        }
    }
}

proof fn lemma_some_segment_plays(segments: Seq<OpacitySegment>, at_s: Double, from: int) -> (found: int)
    requires
        0 <= from < segments.len(),
        forall|earlier: int|
            0 <= earlier < from ==> !at_s.is_less((#[trigger] segments[earlier]).end_s),
    ensures
        plays(segments, at_s, found),
    decreases segments.len() - from,
{
    if at_s.is_less(segments[from].end_s) || from == segments.len() - 1 {
        from
    } else {
        lemma_some_segment_plays(segments, at_s, from + 1)
    }
}

/// The segment of a cycle that plays at `at_s`.
pub fn playing_index(segments: &[OpacitySegment], at_s: Double) -> (index: usize)
    requires
        segments@.len() > 0,
    ensures
        index == playing(segments@, at_s),
        plays(segments@, at_s, index as int),
{
    let last: usize = segments.len() - 1;
    let mut index: usize = 0;
    while index < last && !at_s.less(segments[index].end_s)
        invariant
            index <= last,
            last == segments@.len() - 1,
            forall|earlier: int|
                0 <= earlier < index ==> !at_s.is_less((#[trigger] segments@[earlier]).end_s),
        decreases last - index,
    {
        index = index + 1;
    }
    proof {
        assert(plays(segments@, at_s, index as int));
        lemma_one_segment_plays(segments@, at_s);
    }
    index
}

impl MotionView {
    /// A cycle has a segment to play.
    pub open spec fn wf(self) -> bool {
        self matches MotionView::Breathe { segments, .. } ==> segments.len() > 0
    }

    /// The nanoseconds from the start of the motion to `now_ns`, zero where the
    /// motion started later, and where nothing moves.
    pub open spec fn elapsed(self, now_ns: u128) -> u128 {
        let started_ns = match self {
            MotionView::Hold(_) => now_ns,
            MotionView::Fade { started_ns, .. } => started_ns,
            MotionView::Breathe { started_ns, .. } => started_ns,
        };
        since(started_ns, now_ns)
    }

    /// The length by which the motion repeats: that of a cycle, unless it is
    /// empty or takes no time.
    pub open spec fn cycle(self) -> Option<Double> {
        match self {
            MotionView::Breathe { segments, .. } => if segments.len() > 0
                && !segments.last().end_s.is_at_most_zero() {
                Some(segments.last().end_s)
            } else {
                None
            },
            _ => None,
        }
    }

    /// The opacity on screen `at_s` seconds into the motion, or into the cycle
    /// of a motion that repeats.
    pub open spec fn value(self, at_s: Double) -> Opacity {
        match self {
            MotionView::Hold(value) => Opacity::Known(value),
            MotionView::Fade { from, to, duration_s, .. } => if duration_s.is_at_most_zero()
                || duration_s.is_at_most(at_s) {
                Opacity::Known(to)
            } else {
                Piece::Eased(fade_curve(from, to, duration_s)).shown(at_s)
            },
            MotionView::Breathe { segments, .. } => if segments.len() == 0 {
                Opacity::Known(Single { bits: 0 })
            } else if self.cycle() is None {
                Opacity::Known(segments.last().end_value)
            } else {
                segments[playing(segments, at_s)].as_piece().shown(at_s)
            },
        }
    }
}

impl Motion {
    /// The nanoseconds from the start of the motion to `now_ns`.
    pub fn elapsed(&self, now_ns: u128) -> (elapsed_ns: u128)
        ensures
            elapsed_ns == self@.elapsed(now_ns),
    {
        let started_ns: u128 = match self {
            Motion::Hold(_) => now_ns,
            Motion::Fade { started_ns, .. } => *started_ns,
            Motion::Breathe { started_ns, .. } => *started_ns,
        };
        time_since(started_ns, now_ns)
    }

    /// The length by which the motion repeats, if it does.
    pub fn cycle(&self) -> (cycle_s: Option<Double>)
        ensures
            cycle_s == self@.cycle(),
    {
        match self {
            Motion::Breathe { segments, .. } => {
                if segments.len() == 0 {
                    return None;
                }
                let cycle_s = segments[segments.len() - 1].end_s;
                if cycle_s.at_most_zero() {
                    None
                } else {
                    Some(cycle_s)
                }
            },
            _ => None,
        }
    }

    /// The opacity the visual shows `at_s` seconds into the motion, or into the
    /// cycle of a motion that repeats.
    pub fn value_at(&self, at_s: Double) -> (opacity: Opacity)
        ensures
            opacity == self@.value(at_s),
            self@ matches MotionView::Breathe { segments, .. } ==> (segments.len() > 0 ==> plays(
                segments,
                at_s,
                playing(segments, at_s),
            )),
    {
        proof {
            if let MotionView::Breathe { segments, .. } = self@ {
                if segments.len() > 0 {
                    lemma_one_segment_plays(segments, at_s);
                }
            }
        }
        match self {
            Motion::Hold(value) => Opacity::Known(*value),
            Motion::Fade { from, to, duration_s, .. } => {
                if duration_s.at_most_zero() || duration_s.at_most(at_s) {
                    return Opacity::Known(*to);
                }
                Piece::Eased(
                    Curve { from: *from, to: *to, start_s: Double::zero(), end_s: *duration_s },
                ).show(at_s)
            },
            Motion::Breathe { segments, .. } => {
                if segments.len() == 0 {
                    return Opacity::Known(Single::zero());
                }
                let last: usize = segments.len() - 1;
                if segments[last].end_s.at_most_zero() {
                    return Opacity::Known(segments[last].end_value);
                }
                let index = playing_index(segments.as_slice(), at_s);
                segments[index].piece().show(at_s)
            },
        }
    }
}

} // verus!
