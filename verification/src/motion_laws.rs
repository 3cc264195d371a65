//! What fades, cycles and rebuilds make of the overlay's opacity.

use vstd::prelude::*;
use crate::laws::{
    lemma_answers_in_parts, lemma_content_and_position_stay, lemma_continued_orderly,
    lemma_failure_stays, lemma_finished_stays,
};
use crate::motion::{
    fade_curve, lemma_one_segment_plays, playing, since, MotionView, Opacity, OpacitySegment,
    Piece,
};
use crate::number::{Double, Single};
use crate::operation::{Command, OperationView, Reply, Step};
use crate::overlay::{cycle_steps, fade_steps, turn_steps, OverlayView};
use crate::size_laws::lemma_extent_stays;

verus! {

impl Step {
    /// The step, once done, changes the motion, or leads to one that does.
    pub open spec fn changes_motion(self) -> bool {
        match self {
            Step::PlayFade { .. } => true,
            Step::StartCycle => true,
            Step::ReadRemaining { .. } => true,
            Step::Remaining { .. } => true,
            Step::ReadOpacity { .. } => true,
            Step::Position { .. } => true,
            Step::Evaluate { .. } => true,
            _ => false,
        }
    }
}

/// While a cycle plays, the overlay takes the opacity to be what the compositor
/// shows: the value comes from the very piece that the animation was given for
/// the segment that plays.
pub proof fn lemma_cycle_estimate_follows_animation(
    started_ns: u128,
    segments: Seq<OpacitySegment>,
    at_s: Double,
)
    requires
        segments.len() > 0,
        !segments.last().end_s.is_at_most_zero(),
    ensures
        ({
            let motion = MotionView::Breathe { started_ns, segments };
            let index = playing(segments, at_s);
            let piece = segments[index].as_piece();
            &&& 0 <= index < segments.len()
            &&& cycle_steps(segments)[1 + index].asked() == Command::AddCubic(piece)
            &&& motion.value(at_s) == piece.shown(at_s)
            &&& motion.cycle() == Some(segments.last().end_s)
            &&& cycle_steps(segments)[1int + segments.len()].asked() == (Command::RepeatAnimation {
                begin_s: segments.last().end_s,
                duration_s: segments.last().end_s,
            })
        }),
{
    lemma_one_segment_plays(segments, at_s);
}

/// While a fade plays, the overlay takes the opacity to be what the compositor
/// shows: the value comes from the very curve that the animation was given, and
/// from its end on it is the value that the animation ends with.
pub proof fn lemma_fade_estimate_follows_animation(
    from: Single,
    to: Single,
    started_ns: u128,
    duration_s: Double,
    at_s: Double,
)
    requires
        !duration_s.is_at_most_zero(),
    ensures
        ({
            let motion = MotionView::Fade { from, to, started_ns, duration_s };
            let steps = fade_steps(from, to, started_ns, duration_s);
            let piece = Piece::Eased(fade_curve(from, to, duration_s));
            &&& steps[1].asked() == Command::AddCubic(piece)
            &&& steps[2].asked() == (Command::EndAnimation { at_s: duration_s, value: to })
            &&& motion.value(at_s) == if duration_s.is_at_most(at_s) {
                Opacity::Known(to)
            } else {
                piece.shown(at_s)
            }
        }),
{
}

/// An update without steps that move the opacity leaves the motion alone,
/// whatever is answered.
pub proof fn lemma_motion_stays(overlay: OverlayView, operation: OperationView, replies: Seq<Reply>)
    requires
        forall|i: int|
            0 <= i < operation.steps.len() ==> !(#[trigger] operation.steps[i]).changes_motion(),
    ensures
        overlay.played(operation, replies).0.motion == overlay.motion,
    decreases replies.len(),
{
    if replies.len() > 0 {
        let looked_at = overlay.checked(operation);
        let (after, next) = overlay.resumed(looked_at, replies[0]);
        if !looked_at.finished() {
            assert(!looked_at.steps[0].changes_motion());
            let rest = looked_at.steps.skip(1);
            assert(forall|i: int| 0 <= i < rest.len() ==> rest[i] == looked_at.steps[i + 1]);
        }
        lemma_motion_stays(after, next, replies.skip(1));
    }
}

/// A fade starts from the opacity on screen when it looks: the value that the
/// running motion names, or the value on its curve. Where no time is given, or
/// where the opacity is there already, it holds its target at once.
///
/// `at_s` is what is answered for the position in the running motion, and `value`
/// for the value on its curve where it is on one.
pub proof fn lemma_fade_starts_from_what_shows(
    overlay: OverlayView,
    to: Single,
    duration_s: Double,
    now_ns: u128,
    at_s: Double,
    value: Single,
)
    ensures
        ({
            let started = OperationView::of(
                seq![Step::ReadOpacity { to, duration_s }],
                Seq::empty(),
            );
            let shows = overlay.motion.value(at_s);
            let looked = seq![Reply::Now(now_ns), Reply::Seconds(at_s)];
            let (from, replies) = match shows {
                Opacity::Known(known) => (known, looked),
                Opacity::OnCurve { .. } => (value, looked.push(Reply::Opacity(value))),
            };
            let (fading, steps) = overlay.fading(from, to, now_ns, duration_s);
            &&& started.steps[0].asked() is ReadClock
            &&& overlay.played(started, seq![Reply::Now(now_ns)]).1.steps[0].asked() == (
            Command::Position {
                elapsed_ns: overlay.motion.elapsed(now_ns),
                cycle_s: overlay.motion.cycle(),
            })
            &&& shows matches Opacity::OnCurve { curve, at_s } ==> overlay.played(
                started,
                looked,
            ).1.steps[0].asked() == (Command::Evaluate { curve, at_s })
            &&& overlay.played(started, replies) == (fading, OperationView::of(steps, Seq::empty()))
        }),
{
    let started = OperationView::of(seq![Step::ReadOpacity { to, duration_s }], Seq::empty());
    let position = Step::Position {
        to,
        duration_s,
        now_ns,
        elapsed_ns: overlay.motion.elapsed(now_ns),
        cycle_s: overlay.motion.cycle(),
    };
    let second = OperationView::of(seq![position], Seq::empty());
    assert(overlay.resumed(started, Reply::Now(now_ns)).1 =~= second);
    let one = seq![Reply::Now(now_ns)];
    let looked = seq![Reply::Now(now_ns), Reply::Seconds(at_s)];
    assert(overlay.played(started, one) == (overlay, second)) by {
        assert(one.skip(1) =~= Seq::empty());
        assert(overlay.played(second, Seq::empty()) == (overlay, second));
    }
    let last = seq![Reply::Seconds(at_s)];
    assert(last.skip(1) =~= Seq::empty());
    assert(looked.skip(1) =~= last);
    match overlay.motion.value(at_s) {
        Opacity::Known(from) => {
            let (fading, steps) = overlay.fading(from, to, now_ns, duration_s);
            let third = OperationView::of(steps, Seq::empty());
            assert(overlay.resumed(second, Reply::Seconds(at_s)).1 =~= third);
            assert(fading.played(third, Seq::empty()) == (fading, third));
            assert(overlay.played(second, last) == (fading, third));
        },
        Opacity::OnCurve { curve, at_s: on } => {
            let (fading, steps) = overlay.fading(value, to, now_ns, duration_s);
            let evaluate = Step::Evaluate { to, duration_s, now_ns, curve, at_s: on };
            let third = OperationView::of(seq![evaluate], Seq::empty());
            let fourth = OperationView::of(steps, Seq::empty());
            assert(overlay.resumed(second, Reply::Seconds(at_s)).1 =~= third);
            assert(overlay.resumed(third, Reply::Opacity(value)).1 =~= fourth);
            assert(overlay.played(third, Seq::empty()) == (overlay, third));
            assert(overlay.played(second, last) == (overlay, third));
            assert(overlay.played(started, looked) == (overlay, third));
            let all = looked.push(Reply::Opacity(value));
            let two = seq![Reply::Seconds(at_s), Reply::Opacity(value)];
            let end = seq![Reply::Opacity(value)];
            assert(all.skip(1) =~= two);
            assert(two.skip(1) =~= end);
            assert(end.skip(1) =~= Seq::empty());
            assert(fading.played(fourth, Seq::empty()) == (fading, fourth));
            assert(overlay.played(third, end) == (fading, fourth));
            assert(overlay.played(second, two) == (fading, fourth));
            assert(overlay.played(started, all) == (fading, fourth));
        },
    }
}

/// The motion once all of `steps` are done, where none of them looks at the
/// clock.
spec fn motion_after(motion: MotionView, steps: Seq<Step>) -> MotionView
    decreases steps.len(),
{
    if steps.len() == 0 {
        motion
    } else {
        let next = match steps[0] {
            Step::PlayFade { from, to, started_ns, duration_s } => MotionView::Fade {
                from,
                to,
                started_ns,
                duration_s,
            },
            _ => motion,
        };
        motion_after(next, steps.skip(1))
    }
}

proof fn lemma_motion_after_more(motion: MotionView, more: Seq<Step>, rest: Seq<Step>)
    requires
        forall|i: int| 0 <= i < more.len() ==> !(#[trigger] more[i]).changes_motion(),
    ensures
        motion_after(motion, more + rest) == motion_after(motion, rest),
    decreases more.len(),
{
    if more.len() == 0 {
        assert(more + rest =~= rest);
    } else {
        assert((more + rest).skip(1) =~= more.skip(1) + rest);
        assert(!more[0].changes_motion());
        assert forall|i: int| 0 <= i < more.skip(1).len() implies !(#[trigger] more.skip(
            1,
        )[i]).changes_motion() by {
            assert(more.skip(1)[i] == more[i + 1]);
        }
        lemma_motion_after_more(motion, more.skip(1), rest);
    }
}

/// An update that succeeds, and does not look at the clock, does to the motion
/// what its steps say.
proof fn lemma_success_moves_all(overlay: OverlayView, operation: OperationView, replies: Seq<Reply>)
    requires
        operation.failure is None,
        overlay.played(operation, replies).1.failure is None,
        forall|i: int|
            0 <= i < operation.steps.len() ==> ((#[trigger] operation.steps[i]).changes_motion()
                ==> operation.steps[i] is PlayFade),
    ensures
        ({
            let (end, left) = overlay.played(operation, replies);
            motion_after(end.motion, left.steps) == motion_after(overlay.motion, operation.steps)
        }),
    decreases replies.len(),
{
    let looked_at = overlay.checked(operation);
    if looked_at.failure is Some {
        if replies.len() > 0 {
            let (after, next) = overlay.resumed(looked_at, replies[0]);
            lemma_failure_stays(after, next, replies.skip(1));
        }
    } else if replies.len() > 0 {
        let (after, next) = overlay.resumed(looked_at, replies[0]);
        if next.failure is Some {
            lemma_failure_stays(after, next, replies.skip(1));
        } else {
            if !looked_at.finished() {
                assert(looked_at.steps[0].changes_motion() ==> looked_at.steps[0] is PlayFade);
                let more = overlay.settled(looked_at.cycle, looked_at.steps[0], replies[0])->Ok_0.1;
                let rest = looked_at.steps.skip(1);
                assert(forall|i: int| 0 <= i < rest.len() ==> rest[i] == looked_at.steps[i + 1]);
                lemma_motion_after_more(after.motion, more, rest);
            }
            lemma_success_moves_all(after, next, replies.skip(1));
        }
    }
}

/// A fade that succeeds is remembered as what plays: from where it found the
/// opacity, to its target, since it looked. One with no time or no way to go is
/// remembered as its target, held. Nothing else changes.
pub proof fn lemma_fade_is_remembered(
    overlay: OverlayView,
    from: Single,
    to: Single,
    now_ns: u128,
    duration_s: Double,
    replies: Seq<Reply>,
)
    requires
        ({
            let (fading, steps) = overlay.fading(from, to, now_ns, duration_s);
            fading.played(OperationView::of(steps, Seq::empty()), replies).1.succeeded()
        }),
    ensures
        ({
            let (fading, steps) = overlay.fading(from, to, now_ns, duration_s);
            let motion = if duration_s.is_at_most_zero() || from.is_equal(to) {
                MotionView::Hold(to)
            } else {
                MotionView::Fade { from, to, started_ns: now_ns, duration_s }
            };
            fading.played(OperationView::of(steps, Seq::empty()), replies).0 == (OverlayView {
                motion,
                ..overlay
            })
        }),
{
    let (fading, steps) = overlay.fading(from, to, now_ns, duration_s);
    let operation = OperationView::of(steps, Seq::empty());
    lemma_content_and_position_stay(fading, operation, replies);
    lemma_extent_stays(fading, operation, replies);
    lemma_success_moves_all(fading, operation, replies);
    reveal_with_fuel(motion_after, 6);
}

/// A cycle that succeeds is remembered as what plays, since the moment that the
/// clock was read, and nothing else changes.
pub proof fn lemma_cycle_is_remembered(
    overlay: OverlayView,
    segments: Seq<OpacitySegment>,
    replies: Seq<Reply>,
)
    requires
        segments.len() > 0,
        overlay.played(
            OperationView::of(cycle_steps(segments), segments),
            replies,
        ).1.succeeded(),
    ensures
        ({
            let end = overlay.played(
                OperationView::of(cycle_steps(segments), segments),
                replies,
            ).0;
            &&& plays_since_an_answer(end.motion, segments, replies)
            &&& end == (OverlayView { motion: end.motion, ..overlay })
        }),
{
    let operation = OperationView::of(cycle_steps(segments), segments);
    lemma_content_and_position_stay(overlay, operation, replies);
    lemma_extent_stays(overlay, operation, replies);
    assert(operation.steps[1int + segments.len() + 2] is StartCycle);
    lemma_cycle_starts(overlay, operation, replies);
}

/// The motion is the cycle of `segments`, since a moment that is one of the
/// answers.
pub open spec fn plays_since_an_answer(
    motion: MotionView,
    segments: Seq<OpacitySegment>,
    replies: Seq<Reply>,
) -> bool {
    motion matches MotionView::Breathe { started_ns, segments: playing } && playing == segments
        && exists|i: int|
        0 <= i < replies.len() && #[trigger] replies[i] == Reply::Now(started_ns)
}

proof fn lemma_cycle_starts(overlay: OverlayView, operation: OperationView, replies: Seq<Reply>)
    requires
        operation.failure is None,
        overlay.played(operation, replies).1.succeeded(),
        forall|i: int|
            0 <= i < operation.steps.len() ==> ((#[trigger] operation.steps[i]).changes_motion()
                ==> operation.steps[i] is StartCycle),
        exists|i: int|
            0 <= i < operation.steps.len() && #[trigger] operation.steps[i] is StartCycle,
    ensures
        plays_since_an_answer(
            overlay.played(operation, replies).0.motion,
            operation.cycle,
            replies,
        ),
    decreases replies.len(),
{
    let at = choose|i: int|
        0 <= i < operation.steps.len() && #[trigger] operation.steps[i] is StartCycle;
    let looked_at = overlay.checked(operation);
    assert(replies.len() > 0);
    let (after, next) = overlay.resumed(looked_at, replies[0]);
    let later = replies.skip(1);
    if next.failure is Some {
        lemma_failure_stays(after, next, later);
    } else {
        let step = looked_at.steps[0];
        assert(step.changes_motion() ==> step is StartCycle);
        let more = overlay.settled(looked_at.cycle, step, replies[0])->Ok_0.1;
        let rest = looked_at.steps.skip(1);
        assert(forall|i: int| 0 <= i < rest.len() ==> rest[i] == looked_at.steps[i + 1]);
        assert(forall|i: int| 0 <= i < more.len() ==> !(#[trigger] more[i]).changes_motion());
        assert(forall|i: int| 0 <= i < later.len() ==> later[i] == replies[i + 1]);
        let end = after.played(next, later).0;
        if exists|i: int| 0 <= i < next.steps.len() && #[trigger] next.steps[i] is StartCycle {
            lemma_cycle_starts(after, next, later);
            let started_ns = end.motion->Breathe_started_ns;
            let i = choose|i: int|
                0 <= i < later.len() && #[trigger] later[i] == Reply::Now(started_ns);
            assert(replies[i + 1] == Reply::Now(started_ns));
        } else {
            if at > 0 {
                assert(next.steps[more.len() + at - 1] == operation.steps[at]);
            }
            assert(step is StartCycle);
            lemma_motion_stays(after, next, later);
            assert(replies[0] == Reply::Now(end.motion->Breathe_started_ns));
        }
    }
}

// ---- rebuilds ---------------------------------------------------------------

impl MotionView {
    /// The two motions lead to the same: a held value, a target, a cycle.
    pub open spec fn same_course(self, other: MotionView) -> bool {
        match self {
            MotionView::Hold(value) => other == MotionView::Hold(value),
            MotionView::Fade { to, .. } => match other {
                MotionView::Hold(value) => value == to,
                MotionView::Fade { to: target, .. } => target == to,
                MotionView::Breathe { .. } => false,
            },
            MotionView::Breathe { segments, .. } => other matches MotionView::Breathe {
                segments: playing,
                ..
            } && playing == segments,
        }
    }
}

impl Step {
    /// What the step does to the motion keeps to the course of `motion`.
    spec fn keeps_course(self, motion: MotionView) -> bool {
        match motion {
            MotionView::Hold(_) => !self.changes_motion(),
            MotionView::Fade { to: target, .. } => match self {
                Step::PlayFade { to, .. } => to == target,
                Step::StartCycle => false,
                Step::ReadRemaining { to, .. } => to == target,
                Step::Remaining { to, .. } => to == target,
                Step::ReadOpacity { to, .. } => to == target,
                Step::Position { to, .. } => to == target,
                Step::Evaluate { to, .. } => to == target,
                _ => true,
            },
            MotionView::Breathe { .. } => self.changes_motion() ==> self is StartCycle,
        }
    }
}

proof fn lemma_course_is_kept(
    motion: MotionView,
    overlay: OverlayView,
    operation: OperationView,
    replies: Seq<Reply>,
)
    requires
        motion.same_course(overlay.motion),
        forall|i: int|
            0 <= i < operation.steps.len() ==> (#[trigger] operation.steps[i]).keeps_course(motion),
        motion matches MotionView::Breathe { segments, .. } ==> operation.cycle == segments,
    ensures
        motion.same_course(overlay.played(operation, replies).0.motion),
    decreases replies.len(),
{
    let looked_at = overlay.checked(operation);
    if replies.len() > 0 {
        let (after, next) = overlay.resumed(looked_at, replies[0]);
        if !looked_at.finished() {
            assert(looked_at.steps[0].keeps_course(motion));
            let rest = looked_at.steps.skip(1);
            assert(forall|i: int| 0 <= i < rest.len() ==> rest[i] == looked_at.steps[i + 1]);
        }
        lemma_course_is_kept(motion, after, next, replies.skip(1));
    }
}

/// Whatever is answered to a rebuild, the motion keeps its course: a held value is
/// held, a fade is still to end at its target, a cycle is the same cycle.
pub proof fn lemma_rebuild_keeps_the_course(overlay: OverlayView, replies: Seq<Reply>)
    ensures
        overlay.motion.same_course(overlay.played(overlay.rebuilding(), replies).0.motion),
{
    lemma_course_is_kept(overlay.motion, overlay, overlay.rebuilding(), replies);
}

/// A rebuild goes on with a fade for what was left of its time: it asks for the
/// time of the fade less what has passed since it started, and fades to the same
/// target for the answer.
pub proof fn lemma_rebuilt_fade_takes_what_was_left(
    overlay: OverlayView,
    operation: OperationView,
    to: Single,
    started_ns: u128,
    duration_s: Double,
    now_ns: u128,
    remaining_s: Double,
)
    requires
        !operation.finished(),
        operation.steps[0] == (Step::ReadRemaining { to, started_ns, duration_s }),
    ensures
        ({
            let (same, second) = overlay.resumed(operation, Reply::Now(now_ns));
            let (still, third) = same.resumed(second, Reply::Seconds(remaining_s));
            &&& operation.steps[0].asked() is ReadClock
            &&& second.steps[0].asked() == (Command::Remaining {
                duration_s,
                elapsed_ns: since(started_ns, now_ns),
            })
            &&& third.steps[0] == (Step::ReadOpacity { to, duration_s: remaining_s })
            &&& still == overlay
        }),
{
}

/// A rebuild does not make a cycle jump, whatever is answered. A cycle that takes
/// time stays the cycle it was, since when it was: at every moment it is at the
/// value at which it would have been. One that takes no time stays at its value.
pub proof fn lemma_rebuilt_cycle_does_not_jump(
    overlay: OverlayView,
    replies: Seq<Reply>,
    at_s: Double,
)
    requires
        overlay.motion is Breathe,
    ensures
        ({
            let end = overlay.played(overlay.rebuilding(), replies).0;
            &&& overlay.motion.cycle() is Some ==> end.motion == overlay.motion
            &&& end.motion.cycle() == overlay.motion.cycle()
            &&& end.motion.value(at_s) == overlay.motion.value(at_s)
        }),
{
    lemma_rebuild_keeps_the_course(overlay, replies);
    if overlay.motion.cycle() is Some {
        lemma_motion_stays(overlay, overlay.rebuilding(), replies);
    }
}

/// The animation that a rebuild gives the new visual is the cycle from where it is:
/// it starts with the rest of the very piece that the overlay takes to be on
/// screen, goes on with the pieces after it, and then plays whole turns for good.
///
/// `now_ns` is what is answered for the clock, and `at_s` for the position of that
/// moment in the cycle.
pub proof fn lemma_rebuilt_cycle_plays_on(
    overlay: OverlayView,
    operation: OperationView,
    started_ns: u128,
    segments: Seq<OpacitySegment>,
    turn_s: Double,
    now_ns: u128,
    at_s: Double,
)
    requires
        overlay.motion == (MotionView::Breathe { started_ns, segments }),
        overlay.motion.cycle() == Some(turn_s),
        !operation.finished(),
        operation.cycle == segments,
        operation.steps[0] == (Step::ReadPhase { started_ns, turn_s }),
    ensures
        overlay.rebuild_steps().last() == operation.steps[0],
        ({
            let (same, second) = overlay.resumed(operation, Reply::Now(now_ns));
            let (still, third) = same.resumed(second, Reply::Seconds(at_s));
            let first = playing(segments, at_s);
            let left = segments.len() - first;
            let piece = |i: int| segments[i].as_piece();
            &&& still == overlay
            &&& operation.steps[0].asked() is ReadClock
            &&& second.steps[0].asked() == (Command::Position {
                elapsed_ns: overlay.motion.elapsed(now_ns),
                cycle_s: overlay.motion.cycle(),
            })
            &&& 0 <= first < segments.len()
            &&& overlay.motion.value(at_s) == piece(first).shown(at_s)
            &&& third.steps[0].asked() is CreateAnimation
            &&& forall|i: int|
                first <= i < segments.len() ==> third.steps[1 + i - first].asked() == (
                Command::AddCubicRest { piece: #[trigger] piece(i), at_s })
            &&& forall|i: int|
                0 <= i < segments.len() ==> third.steps[1 + left + i].asked() == (
                Command::AddCubicTurn { piece: #[trigger] piece(i), at_s, turn_s })
            &&& third.steps[1 + left + segments.len()].asked() == (Command::RepeatTurn {
                at_s,
                turn_s,
            })
            &&& third.steps[2 + left + segments.len()].asked() is AnimateOpacity
            &&& third.steps[3 + left + segments.len()].asked() is Commit
            &&& third.steps.skip(4 + left + segments.len()) == operation.steps.skip(1)
        }),
{
    lemma_one_segment_plays(segments, at_s);
    let (same, second) = overlay.resumed(operation, Reply::Now(now_ns));
    let third = same.resumed(second, Reply::Seconds(at_s)).1;
    let steps = turn_steps(segments, at_s, turn_s);
    let rest = operation.steps.skip(1);
    assert(second.steps.skip(1) =~= rest);
    assert(third.steps =~= steps + rest);
    assert(third.steps.skip(steps.len() as int) =~= rest);
}

// ---- fades across a rebuild -------------------------------------------------

/// The motion of a fade to `to` over `duration_s` that found `motion` on screen.
/// `replies` answer for the clock, for the position in that motion, and for the
/// value on its curve where it is on one.
pub open spec fn faded(
    motion: MotionView,
    to: Single,
    duration_s: Double,
    replies: Seq<Reply>,
) -> MotionView {
    let from = match motion.value(replies[1]->Seconds_0) {
        Opacity::Known(known) => known,
        Opacity::OnCurve { .. } => replies[2]->Opacity_0,
    };
    if duration_s.is_at_most_zero() || from.is_equal(to) {
        MotionView::Hold(to)
    } else {
        MotionView::Fade { from, to, started_ns: replies[0]->Now_0, duration_s }
    }
}

impl OverlayView {
    /// What the update asks after the first `count` of `replies`.
    pub open spec fn asked_after(
        self,
        operation: OperationView,
        replies: Seq<Reply>,
        count: int,
    ) -> Command {
        self.played(operation, replies.take(count)).1.steps[0].asked()
    }

    /// From the answer `first` on, `replies` are those to what a fade asks that
    /// starts from the present motion: the clock, the position in the motion, and
    /// the value on its curve where it is on one.
    pub open spec fn looks_from(
        self,
        operation: OperationView,
        replies: Seq<Reply>,
        first: int,
    ) -> bool {
        &&& 0 <= first
        &&& first + 2 <= replies.len()
        &&& self.asked_after(operation, replies, first) is ReadClock
        &&& replies[first] is Now
        &&& self.asked_after(operation, replies, first + 1) == (Command::Position {
            elapsed_ns: self.motion.elapsed(replies[first]->Now_0),
            cycle_s: self.motion.cycle(),
        })
        &&& replies[first + 1] is Seconds
        &&& self.motion.value(replies[first + 1]->Seconds_0) matches Opacity::OnCurve {
            curve,
            at_s,
        } ==> {
            &&& first + 3 <= replies.len()
            &&& self.asked_after(operation, replies, first + 2) == (Command::Evaluate {
                curve,
                at_s,
            })
            &&& replies[first + 2] is Opacity
        }
    }

    /// From the answer `first` on, `replies` are those by which the update takes
    /// the present fade up again: the clock, what is left of the time of the fade,
    /// and what a fade asks. It ends as a fade to the same target for that time.
    pub open spec fn fades_on_from(
        self,
        operation: OperationView,
        replies: Seq<Reply>,
        first: int,
    ) -> bool {
        &&& 0 <= first
        &&& first + 2 <= replies.len()
        &&& self.asked_after(operation, replies, first) is ReadClock
        &&& replies[first] is Now
        &&& self.asked_after(operation, replies, first + 1) == (Command::Remaining {
            duration_s: self.motion->Fade_duration_s,
            elapsed_ns: self.motion.elapsed(replies[first]->Now_0),
        })
        &&& replies[first + 1] is Seconds
        &&& self.looks_from(operation, replies, first + 2)
        &&& self.played(operation, replies).0.motion == faded(
            self.motion,
            self.motion->Fade_to,
            replies[first + 1]->Seconds_0,
            replies.skip(first + 2),
        )
    }
}

/// Where an update succeeds, its first step got an answer that settles it.
pub(crate) proof fn lemma_success_settles_first(
    overlay: OverlayView,
    operation: OperationView,
    replies: Seq<Reply>,
)
    requires
        operation.failure is None,
        !operation.finished(),
        !(operation.steps[0] is BeginDraw),
        overlay.played(operation, replies).1.succeeded(),
    ensures
        replies.len() > 0,
        overlay.settled(operation.cycle, operation.steps[0], replies[0]) is Ok,
        ({
            let (after, next) = overlay.resumed(operation, replies[0]);
            &&& overlay.played(operation, replies) == after.played(next, replies.skip(1))
            &&& forall|count: int|
                1 <= count <= replies.len() ==> #[trigger] overlay.played(
                    operation,
                    replies.take(count),
                ) == after.played(next, replies.skip(1).take(count - 1))
        }),
{
    let (after, next) = overlay.resumed(operation, replies[0]);
    if replies.len() > 0 {
        if next.failure is Some {
            lemma_failure_stays(after, next, replies.skip(1));
        }
        assert forall|count: int| 1 <= count <= replies.len() implies #[trigger] overlay.played(
            operation,
            replies.take(count),
        ) == after.played(next, replies.skip(1).take(count - 1)) by {
            assert(replies.take(count).skip(1) =~= replies.skip(1).take(count - 1));
        }
    }
}

/// A fade that succeeds, from the request on: it looks at the opacity on screen,
/// and is remembered as a fade from there to its target. Nothing else changes.
pub proof fn lemma_fade_looks_and_is_remembered(
    overlay: OverlayView,
    to: Single,
    duration_s: Double,
    replies: Seq<Reply>,
)
    requires
        overlay.played(
            OperationView::of(seq![Step::ReadOpacity { to, duration_s }], Seq::empty()),
            replies,
        ).1.succeeded(),
    ensures
        ({
            let operation = OperationView::of(
                seq![Step::ReadOpacity { to, duration_s }],
                Seq::empty(),
            );
            &&& overlay.looks_from(operation, replies, 0)
            &&& overlay.played(operation, replies).0 == (OverlayView {
                motion: faded(overlay.motion, to, duration_s, replies),
                ..overlay
            })
        }),
{
    let operation = OperationView::of(seq![Step::ReadOpacity { to, duration_s }], Seq::empty());
    lemma_success_settles_first(overlay, operation, replies);
    let now_ns = replies[0]->Now_0;
    let position = Step::Position {
        to,
        duration_s,
        now_ns,
        elapsed_ns: overlay.motion.elapsed(now_ns),
        cycle_s: overlay.motion.cycle(),
    };
    let second = OperationView::of(seq![position], Seq::empty());
    assert(overlay.resumed(operation, replies[0]) == (overlay, second)) by {
        assert(overlay.resumed(operation, replies[0]).1 =~= second);
    }
    let later = replies.skip(1);
    lemma_success_settles_first(overlay, second, later);
    let at_s = replies[1]->Seconds_0;
    assert(later[0] == replies[1]);
    assert(replies.take(0) =~= Seq::empty());
    assert(later.take(0) =~= Seq::empty());
    assert(overlay.played(operation, replies.take(0)) == (overlay, operation));
    assert(overlay.played(operation, replies.take(1)) == (overlay, second));
    match overlay.motion.value(at_s) {
        Opacity::Known(from) => {
            let (fading, steps) = overlay.fading(from, to, now_ns, duration_s);
            let third = OperationView::of(steps, Seq::empty());
            assert(overlay.resumed(second, later[0]).1 =~= third);
            lemma_fade_is_remembered(overlay, from, to, now_ns, duration_s, later.skip(1));
        },
        Opacity::OnCurve { curve, at_s: on } => {
            let evaluate = Step::Evaluate { to, duration_s, now_ns, curve, at_s: on };
            let third = OperationView::of(seq![evaluate], Seq::empty());
            assert(overlay.resumed(second, later[0]).1 =~= third);
            let last = later.skip(1);
            lemma_success_settles_first(overlay, third, last);
            assert(last[0] == replies[2]);
            assert(last.take(0) =~= Seq::empty());
            assert(later.take(1).len() == 1);
            assert(overlay.played(second, later.take(1)) == overlay.played(third, last.take(0)));
            assert(overlay.played(operation, replies.take(2)) == (overlay, third));
            let from = last[0]->Opacity_0;
            let (fading, steps) = overlay.fading(from, to, now_ns, duration_s);
            let fourth = OperationView::of(steps, Seq::empty());
            assert(overlay.resumed(third, last[0]).1 =~= fourth);
            lemma_fade_is_remembered(overlay, from, to, now_ns, duration_s, last.skip(1));
        },
    }
}

/// Where an update succeeds whose last step is the only one that moves the opacity,
/// it comes to that step with the motion it started with.
#[verifier::rlimit(40)]
pub(crate) proof fn lemma_success_comes_to_the_last(
    overlay: OverlayView,
    operation: OperationView,
    replies: Seq<Reply>,
) -> (count: int)
    requires
        operation.orderly(),
        operation.failure is None,
        !operation.finished(),
        operation.steps.last() is ReadRemaining || operation.steps.last() is ReadPhase,
        forall|i: int|
            0 <= i < operation.steps.len() - 1 ==> !(
            #[trigger] operation.steps[i]).changes_motion(),
        overlay.played(operation, replies).1.succeeded(),
    ensures
        0 <= count <= replies.len(),
        overlay.played(operation, replies.take(count)).0.motion == overlay.motion,
        overlay.played(operation, replies.take(count)).1 == OperationView::of(
            seq![operation.steps.last()],
            operation.cycle,
        ),
    decreases replies.len(),
{
    if operation.steps.len() == 1 {
        assert(!operation.steps[0].needs_open() || operation.open is Some);
        assert(operation =~= OperationView::of(seq![operation.steps.last()], operation.cycle));
        assert(replies.take(0) =~= Seq::empty());
        0
    } else {
        let looked_at = overlay.checked(operation);
        assert(!operation.steps[0].changes_motion());
        if looked_at.failure is Some {
            lemma_failure_stays(overlay, looked_at, replies);
            assert(overlay.played(operation, replies) == overlay.played(looked_at, replies)) by {
                lemma_answers_in_parts(overlay, operation, Seq::empty(), replies);
                assert(Seq::<Reply>::empty() + replies =~= replies);
            }
        }
        assert(replies.len() > 0);
        let (after, next) = overlay.resumed(operation, replies[0]);
        let later = replies.skip(1);
        if next.failure is Some {
            lemma_failure_stays(after, next, later);
        }
        let more = overlay.settled(operation.cycle, operation.steps[0], replies[0])->Ok_0.1;
        let rest = operation.steps.skip(1);
        assert(forall|i: int| 0 <= i < rest.len() ==> rest[i] == operation.steps[i + 1]);
        assert(next.steps =~= more + rest);
        lemma_continued_orderly(overlay, operation, replies[0]);
        let count = lemma_success_comes_to_the_last(after, next, later);
        assert(replies.take(count + 1).skip(1) =~= later.take(count));
        count + 1
    }
}

/// After `first` answers and `count` more, an update is where it gets from the
/// first over those that came after them.
pub(crate) proof fn lemma_asked_later(
    overlay: OverlayView,
    operation: OperationView,
    replies: Seq<Reply>,
    first: int,
    count: int,
)
    requires
        0 <= first,
        0 <= count,
        first + count <= replies.len(),
    ensures
        ({
            let (midway, left) = overlay.played(operation, replies.take(first));
            overlay.played(operation, replies.take(first + count)) == midway.played(
                left,
                replies.skip(first).take(count),
            )
        }),
{
    assert(replies.take(first + count) =~= replies.take(first) + replies.skip(first).take(count));
    lemma_answers_in_parts(
        overlay,
        operation,
        replies.take(first),
        replies.skip(first).take(count),
    );
}

/// Where an update succeeds that has the rest of a fade before it, the time that is
/// left of it was answered for.
proof fn lemma_success_knows_the_rest(
    overlay: OverlayView,
    to: Single,
    started_ns: u128,
    duration_s: Double,
    replies: Seq<Reply>,
)
    requires
        overlay.played(
            OperationView::of(
                seq![Step::ReadRemaining { to, started_ns, duration_s }],
                Seq::empty(),
            ),
            replies,
        ).1.succeeded(),
    ensures
        replies.len() >= 2,
        replies[0] is Now,
        replies[1] is Seconds,
{
    let operation = OperationView::of(
        seq![Step::ReadRemaining { to, started_ns, duration_s }],
        Seq::empty(),
    );
    lemma_success_settles_first(overlay, operation, replies);
    let elapsed_ns = since(started_ns, replies[0]->Now_0);
    let second = OperationView::of(
        seq![Step::Remaining { to, duration_s, elapsed_ns }],
        Seq::empty(),
    );
    assert(overlay.resumed(operation, replies[0]).1 =~= second);
    let later = replies.skip(1);
    lemma_success_settles_first(overlay, second, later);
    assert(later[0] == replies[1]);
}

/// The rest of a fade whose time is known is faded for that time.
proof fn lemma_known_rest_is_faded(
    overlay: OverlayView,
    to: Single,
    started_ns: u128,
    duration_s: Double,
    replies: Seq<Reply>,
)
    requires
        replies.len() >= 2,
        replies[0] is Now,
        replies[1] is Seconds,
    ensures
        ({
            let operation = OperationView::of(
                seq![Step::ReadRemaining { to, started_ns, duration_s }],
                Seq::empty(),
            );
            let looking = OperationView::of(
                seq![Step::ReadOpacity { to, duration_s: replies[1]->Seconds_0 }],
                Seq::empty(),
            );
            &&& overlay.played(operation, replies.take(1)).1.steps[0].asked() == (
            Command::Remaining { duration_s, elapsed_ns: since(started_ns, replies[0]->Now_0) })
            &&& overlay.played(operation, replies.take(2)) == (overlay, looking)
        }),
{
    let operation = OperationView::of(
        seq![Step::ReadRemaining { to, started_ns, duration_s }],
        Seq::empty(),
    );
    let elapsed_ns = since(started_ns, replies[0]->Now_0);
    let second = OperationView::of(
        seq![Step::Remaining { to, duration_s, elapsed_ns }],
        Seq::empty(),
    );
    let looking = OperationView::of(
        seq![Step::ReadOpacity { to, duration_s: replies[1]->Seconds_0 }],
        Seq::empty(),
    );
    assert(overlay.resumed(operation, replies[0]).1 =~= second);
    assert(overlay.resumed(second, replies[1]).1 =~= looking);
    assert(overlay.played(second, Seq::empty()) == (overlay, second));
    assert(overlay.played(looking, Seq::empty()) == (overlay, looking));
    assert(replies.take(1).skip(1) =~= Seq::empty());
    let one = seq![replies[1]];
    assert(replies.take(2).skip(1) =~= one);
    assert(one.skip(1) =~= Seq::empty());
    assert(overlay.played(second, one) == (overlay, looking));
}

/// An update that looks after some answers looks where it is then.
proof fn lemma_looks_later(
    overlay: OverlayView,
    operation: OperationView,
    replies: Seq<Reply>,
    first: int,
)
    requires
        0 <= first <= replies.len(),
        ({
            let (midway, left) = overlay.played(operation, replies.take(first));
            midway.motion == overlay.motion && midway.looks_from(left, replies.skip(first), 0)
        }),
    ensures
        overlay.looks_from(operation, replies, first),
{
    let looking = replies.skip(first);
    assert(looking[0] == replies[first]);
    assert(looking[1] == replies[first + 1]);
    lemma_asked_later(overlay, operation, replies, first, 0);
    lemma_asked_later(overlay, operation, replies, first, 1);
    if overlay.motion.value(looking[1]->Seconds_0) is OnCurve {
        assert(looking[2] == replies[first + 2]);
        lemma_asked_later(overlay, operation, replies, first, 2);
    }
}

/// After `first` answers, an update goes on over the others from where it is.
pub(crate) proof fn lemma_all_later(
    overlay: OverlayView,
    operation: OperationView,
    replies: Seq<Reply>,
    first: int,
)
    requires
        0 <= first <= replies.len(),
    ensures
        ({
            let (midway, left) = overlay.played(operation, replies.take(first));
            overlay.played(operation, replies) == midway.played(left, replies.skip(first))
        }),
{
    assert(replies.take(first) + replies.skip(first) =~= replies);
    lemma_answers_in_parts(overlay, operation, replies.take(first), replies.skip(first));
}

/// Where an update succeeds whose last step takes the present fade up again, and
/// no other moves the opacity, that fade goes on.
#[verifier::rlimit(40)]
proof fn lemma_last_step_fades_on(
    overlay: OverlayView,
    operation: OperationView,
    to: Single,
    started_ns: u128,
    duration_s: Double,
    replies: Seq<Reply>,
) -> (first: int)
    requires
        overlay.motion matches MotionView::Fade { to: t, started_ns: s, duration_s: d, .. } && t
            == to && s == started_ns && d == duration_s,
        operation.orderly(),
        operation.failure is None,
        !operation.finished(),
        operation.cycle == Seq::<OpacitySegment>::empty(),
        operation.steps.last() == (Step::ReadRemaining { to, started_ns, duration_s }),
        forall|i: int|
            0 <= i < operation.steps.len() - 1 ==> !(
            #[trigger] operation.steps[i]).changes_motion(),
        overlay.played(operation, replies).1.succeeded(),
    ensures
        overlay.fades_on_from(operation, replies, first),
{
    let first = lemma_success_comes_to_the_last(overlay, operation, replies);
    let midway = overlay.played(operation, replies.take(first)).0;
    let later = replies.skip(first);
    lemma_all_later(overlay, operation, replies, first);
    lemma_success_knows_the_rest(midway, to, started_ns, duration_s, later);
    lemma_known_rest_is_faded(midway, to, started_ns, duration_s, later);
    assert(later[0] == replies[first]);
    assert(later[1] == replies[first + 1]);
    lemma_asked_later(overlay, operation, replies, first, 1);
    lemma_asked_later(overlay, operation, replies, first, 2);
    let looking = replies.skip(first + 2);
    lemma_all_later(overlay, operation, replies, first + 2);
    lemma_fade_looks_and_is_remembered(midway, to, replies[first + 1]->Seconds_0, looking);
    lemma_looks_later(overlay, operation, replies, first + 2);
    first
}

/// A rebuild goes on with a fade. Where it succeeds, the motion is a fade from the
/// value on screen, to the same target, for the time that was left; or the target,
/// held, where no time or no way was left.
#[verifier::rlimit(40)]
pub proof fn lemma_rebuilt_fade_goes_on(overlay: OverlayView, replies: Seq<Reply>)
    requires
        overlay.motion is Fade,
        overlay.played(overlay.rebuilding(), replies).1.succeeded(),
    ensures
        exists|first: int|
            #[trigger] overlay.fades_on_from(overlay.rebuilding(), replies, first),
{
    let first = lemma_last_step_fades_on(
        overlay,
        overlay.rebuilding(),
        overlay.motion->Fade_to,
        overlay.motion->Fade_started_ns,
        overlay.motion->Fade_duration_s,
        replies,
    );
    assert(overlay.fades_on_from(overlay.rebuilding(), replies, first));
}

// ---- what is remembered whatever is answered --------------------------------

impl OverlayView {
    /// Answer `index` is the one to playing an animation on the opacity, and it was
    /// done.
    pub open spec fn told_at(
        self,
        operation: OperationView,
        replies: Seq<Reply>,
        index: int,
    ) -> bool {
        let left = self.played(operation, replies.take(index)).1;
        &&& 0 <= index < replies.len()
        &&& !left.finished()
        &&& left.steps[0].asked() is AnimateOpacity
        &&& replies[index] is Done
    }

    /// The compositor was told to play an animation on the opacity, and took it.
    pub open spec fn told_to_play(self, operation: OperationView, replies: Seq<Reply>) -> bool {
        exists|index: int| #[trigger] self.told_at(operation, replies, index)
    }
}

/// What is told after `first` answers is told over all of them.
proof fn lemma_told_later(
    overlay: OverlayView,
    operation: OperationView,
    replies: Seq<Reply>,
    first: int,
)
    requires
        0 <= first <= replies.len(),
        ({
            let (midway, left) = overlay.played(operation, replies.take(first));
            midway.told_to_play(left, replies.skip(first))
        }),
    ensures
        overlay.told_to_play(operation, replies),
{
    let (midway, left) = overlay.played(operation, replies.take(first));
    let later = replies.skip(first);
    let index = choose|index: int| #[trigger] midway.told_at(left, later, index);
    assert(midway.told_at(left, later, index));
    lemma_asked_later(overlay, operation, replies, first, index);
    assert(later[index] == replies[first + index]);
    assert(overlay.told_at(operation, replies, first + index));
}

/// The first answer, and those that come after it.
proof fn lemma_first_answer(overlay: OverlayView, operation: OperationView, replies: Seq<Reply>)
    requires
        replies.len() > 0,
    ensures
        ({
            let looked_at = overlay.checked(operation);
            let (after, next) = overlay.resumed(looked_at, replies[0]);
            &&& overlay.played(operation, replies) == after.played(next, replies.skip(1))
            &&& after.told_to_play(next, replies.skip(1)) ==> overlay.told_to_play(
                operation,
                replies,
            )
            &&& !looked_at.finished() && looked_at.steps[0].asked() is AnimateOpacity
                && replies[0] is Done ==> overlay.told_to_play(operation, replies)
        }),
{
    let looked_at = overlay.checked(operation);
    let (after, next) = overlay.resumed(looked_at, replies[0]);
    let later = replies.skip(1);
    if after.told_to_play(next, later) {
        let index = choose|index: int| #[trigger] after.told_at(next, later, index);
        assert(after.told_at(next, later, index));
        let upto = replies.take(index + 1);
        assert(upto[0] == replies[0]);
        assert(upto.skip(1) =~= later.take(index));
        assert(overlay.played(operation, upto) == after.played(next, later.take(index)));
        assert(later[index] == replies[index + 1]);
        assert(overlay.told_at(operation, replies, index + 1));
    }
    if !looked_at.finished() && looked_at.steps[0].asked() is AnimateOpacity
        && replies[0] is Done {
        assert(replies.take(0) =~= Seq::empty());
        assert(overlay.told_at(operation, replies, 0));
    }
}

proof fn lemma_cycle_starts_or_motion_stays(
    overlay: OverlayView,
    operation: OperationView,
    replies: Seq<Reply>,
)
    requires
        forall|i: int|
            0 <= i < operation.steps.len() ==> ((#[trigger] operation.steps[i]).changes_motion()
                ==> operation.steps[i] is StartCycle),
    ensures
        ({
            let motion = overlay.played(operation, replies).0.motion;
            motion == overlay.motion || plays_since_an_answer(motion, operation.cycle, replies)
        }),
    decreases replies.len(),
{
    if replies.len() > 0 {
        let looked_at = overlay.checked(operation);
        let (after, next) = overlay.resumed(looked_at, replies[0]);
        let later = replies.skip(1);
        if !looked_at.finished() {
            assert(looked_at.steps[0].changes_motion() ==> looked_at.steps[0] is StartCycle);
            let rest = looked_at.steps.skip(1);
            assert(forall|i: int| 0 <= i < rest.len() ==> rest[i] == looked_at.steps[i + 1]);
        }
        lemma_cycle_starts_or_motion_stays(after, next, later);
        let motion = after.played(next, later).0.motion;
        if plays_since_an_answer(motion, operation.cycle, later) {
            let started_ns = motion->Breathe_started_ns;
            let i = choose|i: int|
                0 <= i < later.len() && #[trigger] later[i] == Reply::Now(started_ns);
            assert(replies[i + 1] == Reply::Now(started_ns));
        } else if motion != overlay.motion {
            assert(replies[0] == Reply::Now(motion->Breathe_started_ns));
        }
    }
}

/// Before each step that notes a cycle there is one that has it played.
spec fn played_before_noted(steps: Seq<Step>) -> bool {
    forall|i: int|
        0 <= i < steps.len() ==> (#[trigger] steps[i] is StartCycle ==> exists|j: int|
            0 <= j < i && #[trigger] steps[j] == Step::Do(Command::AnimateOpacity))
}

proof fn lemma_noted_cycle_was_played(
    overlay: OverlayView,
    operation: OperationView,
    replies: Seq<Reply>,
)
    requires
        played_before_noted(operation.steps),
        forall|i: int|
            0 <= i < operation.steps.len() ==> ((#[trigger] operation.steps[i]).changes_motion()
                ==> operation.steps[i] is StartCycle),
    ensures
        overlay.played(operation, replies).0.motion == overlay.motion || overlay.told_to_play(
            operation,
            replies,
        ),
    decreases replies.len(),
{
    if replies.len() > 0 {
        let looked_at = overlay.checked(operation);
        let (after, next) = overlay.resumed(looked_at, replies[0]);
        let later = replies.skip(1);
        lemma_first_answer(overlay, operation, replies);
        if looked_at.finished() {
            lemma_noted_cycle_was_played(after, next, later);
        } else {
            let step = looked_at.steps[0];
            assert(step.changes_motion() ==> step is StartCycle);
            let rest = looked_at.steps.skip(1);
            assert(forall|i: int| 0 <= i < rest.len() ==> rest[i] == looked_at.steps[i + 1]);
            if looked_at != operation || overlay.settled(
                looked_at.cycle,
                step,
                replies[0],
            ) is Err {
                lemma_motion_stays(after, next, later);
            } else if step != Step::Do(Command::AnimateOpacity) {
                let more = overlay.settled(looked_at.cycle, step, replies[0])->Ok_0.1;
                assert(forall|i: int|
                    0 <= i < more.len() ==> !(#[trigger] more[i]).changes_motion());
                assert forall|i: int|
                    0 <= i < next.steps.len() && #[trigger] next.steps[i] is StartCycle implies exists|
                    j: int,
                | 0 <= j < i && #[trigger] next.steps[j] == Step::Do(Command::AnimateOpacity) by {
                    let before = i - more.len() + 1;
                    assert(operation.steps[before] is StartCycle);
                    let j = choose|j: int|
                        0 <= j < before && #[trigger] operation.steps[j] == Step::Do(
                            Command::AnimateOpacity,
                        );
                    assert(next.steps[more.len() + j - 1] == operation.steps[j]);
                }
                lemma_noted_cycle_was_played(after, next, later);
            }
        }
    }
}

/// Whatever is answered to a cycle, the motion is the one it was, or the cycle,
/// since the moment that the clock was read. It is the cycle only where the
/// compositor was told to play it and took it: one that is refused before it plays
/// is not remembered. Nothing else changes.
pub proof fn lemma_only_a_cycle_that_plays_is_remembered(
    overlay: OverlayView,
    segments: Seq<OpacitySegment>,
    replies: Seq<Reply>,
)
    ensures
        ({
            let operation = OperationView::of(cycle_steps(segments), segments);
            let end = overlay.played(operation, replies).0;
            &&& end.motion == overlay.motion || (plays_since_an_answer(
                end.motion,
                segments,
                replies,
            ) && overlay.told_to_play(operation, replies))
            &&& end == (OverlayView { motion: end.motion, ..overlay })
        }),
{
    let operation = OperationView::of(cycle_steps(segments), segments);
    lemma_content_and_position_stay(overlay, operation, replies);
    lemma_extent_stays(overlay, operation, replies);
    lemma_cycle_starts_or_motion_stays(overlay, operation, replies);
    if segments.len() > 0 {
        let at = 1int + segments.len() + 1;
        assert(operation.steps[at] == Step::Do(Command::AnimateOpacity));
        assert(forall|i: int|
            0 <= i < operation.steps.len() ==> (#[trigger] operation.steps[i] is StartCycle ==> i
                == at + 1));
    }
    lemma_noted_cycle_was_played(overlay, operation, replies);
}

proof fn lemma_fade_plays_or_motion_stays(
    overlay: OverlayView,
    operation: OperationView,
    fade: Step,
    replies: Seq<Reply>,
)
    requires
        fade is PlayFade,
        forall|i: int|
            0 <= i < operation.steps.len() ==> ((#[trigger] operation.steps[i]).changes_motion()
                ==> operation.steps[i] == fade),
    ensures
        ({
            let motion = overlay.played(operation, replies).0.motion;
            motion == overlay.motion || (motion == (MotionView::Fade {
                from: fade->PlayFade_from,
                to: fade->PlayFade_to,
                started_ns: fade->PlayFade_started_ns,
                duration_s: fade->PlayFade_duration_s,
            }) && overlay.told_to_play(operation, replies))
        }),
    decreases replies.len(),
{
    if replies.len() > 0 {
        let looked_at = overlay.checked(operation);
        let (after, next) = overlay.resumed(looked_at, replies[0]);
        lemma_first_answer(overlay, operation, replies);
        if !looked_at.finished() {
            assert(looked_at.steps[0].changes_motion() ==> looked_at.steps[0] == fade);
            let rest = looked_at.steps.skip(1);
            assert(forall|i: int| 0 <= i < rest.len() ==> rest[i] == looked_at.steps[i + 1]);
        }
        lemma_fade_plays_or_motion_stays(after, next, fade, replies.skip(1));
    }
}

impl OverlayView {
    /// What a fade to `to` over `duration_s` may leave as the motion, over
    /// `replies`: the present motion, or the fade from what it found on screen. It
    /// is a fade, and not its target held, only where it was told to play.
    pub open spec fn fades_or_stays(
        self,
        operation: OperationView,
        to: Single,
        duration_s: Double,
        replies: Seq<Reply>,
    ) -> bool {
        let motion = self.played(operation, replies).0.motion;
        motion == self.motion || {
            &&& self.looks_from(operation, replies, 0)
            &&& motion == faded(self.motion, to, duration_s, replies)
            &&& motion is Fade ==> self.told_to_play(operation, replies)
        }
    }
}

/// Where a fade has found the opacity at `from`, the motion is from then on the one
/// it was, or the fade, which the compositor took; or the target, held.
proof fn lemma_found_fade_plays_or_motion_stays(
    overlay: OverlayView,
    from: Single,
    to: Single,
    now_ns: u128,
    duration_s: Double,
    replies: Seq<Reply>,
)
    ensures
        ({
            let (fading, steps) = overlay.fading(from, to, now_ns, duration_s);
            let operation = OperationView::of(steps, Seq::empty());
            let motion = fading.played(operation, replies).0.motion;
            if duration_s.is_at_most_zero() || from.is_equal(to) {
                motion == MotionView::Hold(to)
            } else {
                motion == overlay.motion || (motion == (MotionView::Fade {
                    from,
                    to,
                    started_ns: now_ns,
                    duration_s,
                }) && fading.told_to_play(operation, replies))
            }
        }),
{
    let (fading, steps) = overlay.fading(from, to, now_ns, duration_s);
    let operation = OperationView::of(steps, Seq::empty());
    if duration_s.is_at_most_zero() || from.is_equal(to) {
        lemma_motion_stays(fading, operation, replies);
    } else {
        let fade = Step::PlayFade { from, to, started_ns: now_ns, duration_s };
        lemma_fade_plays_or_motion_stays(fading, operation, fade, replies);
    }
}

/// Whatever is answered to a fade, the motion is the one it was, or the fade from
/// the opacity it found on screen; or its target, held, where it has no time or no
/// way to go. It is a fade only where the compositor was told to play it and took
/// it: one that is refused before it plays is not remembered. Nothing else changes.
pub proof fn lemma_only_a_fade_that_plays_is_remembered(
    overlay: OverlayView,
    to: Single,
    duration_s: Double,
    replies: Seq<Reply>,
)
    ensures
        ({
            let operation = OperationView::of(
                seq![Step::ReadOpacity { to, duration_s }],
                Seq::empty(),
            );
            let end = overlay.played(operation, replies).0;
            &&& overlay.fades_or_stays(operation, to, duration_s, replies)
            &&& end == (OverlayView { motion: end.motion, ..overlay })
        }),
{
    let operation = OperationView::of(seq![Step::ReadOpacity { to, duration_s }], Seq::empty());
    lemma_content_and_position_stay(overlay, operation, replies);
    lemma_extent_stays(overlay, operation, replies);
    if replies.len() > 0 {
        let later = replies.skip(1);
        if !(replies[0] is Now) {
            lemma_motion_stays(overlay, overlay.resumed(operation, replies[0]).1, later);
        } else {
            lemma_timed_fade_plays_or_motion_stays(overlay, to, duration_s, replies);
        }
    }
}

proof fn lemma_timed_fade_plays_or_motion_stays(
    overlay: OverlayView,
    to: Single,
    duration_s: Double,
    replies: Seq<Reply>,
)
    requires
        replies.len() > 0,
        replies[0] is Now,
    ensures
        overlay.fades_or_stays(
            OperationView::of(seq![Step::ReadOpacity { to, duration_s }], Seq::empty()),
            to,
            duration_s,
            replies,
        ),
{
    let operation = OperationView::of(seq![Step::ReadOpacity { to, duration_s }], Seq::empty());
    let now_ns = replies[0]->Now_0;
    let position = Step::Position {
        to,
        duration_s,
        now_ns,
        elapsed_ns: overlay.motion.elapsed(now_ns),
        cycle_s: overlay.motion.cycle(),
    };
    let second = OperationView::of(seq![position], Seq::empty());
    assert(overlay.resumed(operation, replies[0]).1 =~= second);
    assert(replies.take(0) =~= Seq::empty());
    assert(overlay.played(operation, replies.take(0)) == (overlay, operation));
    assert(overlay.played(operation, replies.take(1)) == (overlay, second)) by {
        assert(replies.take(1).skip(1) =~= Seq::empty());
        assert(overlay.played(second, Seq::empty()) == (overlay, second));
    }
    lemma_all_later(overlay, operation, replies, 1);
    let later = replies.skip(1);
    if later.len() > 0 {
        assert(later[0] == replies[1]);
        if !(replies[1] is Seconds) {
            lemma_motion_stays(overlay, overlay.resumed(second, later[0]).1, later.skip(1));
        } else {
            lemma_positioned_fade_plays_or_motion_stays(
                overlay,
                operation,
                position,
                to,
                duration_s,
                now_ns,
                replies,
            );
        }
    }
}

/// The same for a fade that knows where in the motion it is.
proof fn lemma_positioned_fade_plays_or_motion_stays(
    overlay: OverlayView,
    operation: OperationView,
    position: Step,
    to: Single,
    duration_s: Double,
    now_ns: u128,
    replies: Seq<Reply>,
)
    requires
        replies.len() >= 2,
        replies[0] == Reply::Now(now_ns),
        replies[1] is Seconds,
        position == (Step::Position {
            to,
            duration_s,
            now_ns,
            elapsed_ns: overlay.motion.elapsed(now_ns),
            cycle_s: overlay.motion.cycle(),
        }),
        overlay.asked_after(operation, replies, 0) is ReadClock,
        overlay.played(operation, replies.take(1)) == (
            overlay,
            OperationView::of(seq![position], Seq::empty()),
        ),
    ensures
        overlay.fades_or_stays(operation, to, duration_s, replies),
{
    let second = OperationView::of(seq![position], Seq::empty());
    let later = replies.skip(1);
    assert(later[0] == replies[1]);
    lemma_asked_later(overlay, operation, replies, 1, 1);
    lemma_all_later(overlay, operation, replies, 2);
    assert(later.take(1).skip(1) =~= Seq::empty());
    match overlay.motion.value(replies[1]->Seconds_0) {
        Opacity::Known(from) => {
            let (fading, steps) = overlay.fading(from, to, now_ns, duration_s);
            let third = OperationView::of(steps, Seq::empty());
            assert(overlay.resumed(second, replies[1]).1 =~= third);
            assert(fading.played(third, Seq::empty()) == (fading, third));
            assert(overlay.played(operation, replies.take(2)) == (fading, third));
            let rest = replies.skip(2);
            lemma_found_fade_plays_or_motion_stays(overlay, from, to, now_ns, duration_s, rest);
            if fading.told_to_play(third, rest) {
                lemma_told_later(overlay, operation, replies, 2);
            }
        },
        Opacity::OnCurve { curve, at_s } => {
            let evaluate = Step::Evaluate { to, duration_s, now_ns, curve, at_s };
            let third = OperationView::of(seq![evaluate], Seq::empty());
            assert(overlay.resumed(second, replies[1]).1 =~= third);
            assert(overlay.played(third, Seq::empty()) == (overlay, third));
            assert(overlay.played(operation, replies.take(2)) == (overlay, third));
            let rest = replies.skip(2);
            if rest.len() > 0 {
                assert(rest[0] == replies[2]);
                if !(replies[2] is Opacity) {
                    lemma_motion_stays(overlay, overlay.resumed(third, rest[0]).1, rest.skip(1));
                } else {
                    let from = replies[2]->Opacity_0;
                    let (fading, steps) = overlay.fading(from, to, now_ns, duration_s);
                    let fourth = OperationView::of(steps, Seq::empty());
                    assert(overlay.resumed(third, replies[2]).1 =~= fourth);
                    assert(rest.take(1).skip(1) =~= Seq::empty());
                    assert(fading.played(fourth, Seq::empty()) == (fading, fourth));
                    lemma_asked_later(overlay, operation, replies, 2, 1);
                    lemma_all_later(overlay, operation, replies, 3);
                    assert(overlay.played(operation, replies.take(3)) == (fading, fourth));
                    let last = replies.skip(3);
                    lemma_found_fade_plays_or_motion_stays(
                        overlay,
                        from,
                        to,
                        now_ns,
                        duration_s,
                        last,
                    );
                    if fading.told_to_play(fourth, last) {
                        lemma_told_later(overlay, operation, replies, 3);
                    }
                }
            }
        },
    }
}

/// Whatever is answered to an update whose last step is the only one that moves the
/// opacity, it comes to that step with the motion it started with, or ends with it.
proof fn lemma_comes_to_the_last_or_motion_stays(
    overlay: OverlayView,
    operation: OperationView,
    replies: Seq<Reply>,
) -> (found: Option<int>)
    requires
        operation.orderly(),
        operation.failure is None,
        !operation.finished(),
        operation.steps.last() is ReadRemaining,
        forall|i: int|
            0 <= i < operation.steps.len() - 1 ==> !(
            #[trigger] operation.steps[i]).changes_motion(),
    ensures
        match found {
            None => overlay.played(operation, replies).0.motion == overlay.motion,
            Some(count) => {
                &&& 0 <= count <= replies.len()
                &&& overlay.played(operation, replies.take(count)).0.motion == overlay.motion
                &&& overlay.played(operation, replies.take(count)).1 == OperationView::of(
                    seq![operation.steps.last()],
                    operation.cycle,
                )
            },
        },
    decreases replies.len(),
{
    if operation.steps.len() == 1 {
        assert(operation =~= OperationView::of(seq![operation.steps.last()], operation.cycle));
        assert(replies.take(0) =~= Seq::empty());
        Some(0int)
    } else if replies.len() == 0 {
        None
    } else {
        let looked_at = overlay.checked(operation);
        assert(!operation.steps[0].changes_motion());
        let (after, next) = overlay.resumed(looked_at, replies[0]);
        let later = replies.skip(1);
        if looked_at.failure is Some || next.failure is Some {
            lemma_motion_stays(after, next, later);
            None
        } else {
            let more = overlay.settled(operation.cycle, operation.steps[0], replies[0])->Ok_0.1;
            let rest = operation.steps.skip(1);
            assert(forall|i: int| 0 <= i < rest.len() ==> rest[i] == operation.steps[i + 1]);
            assert(next.steps =~= more + rest);
            lemma_continued_orderly(overlay, operation, replies[0]);
            match lemma_comes_to_the_last_or_motion_stays(after, next, later) {
                Some(count) => {
                    assert(replies.take(count + 1).skip(1) =~= later.take(count));
                    Some(count + 1)
                },
                None => None,
            }
        }
    }
}

/// Whatever is answered to an update whose last step takes the present fade up
/// again, and of which no other moves the opacity, that fade stays or goes on.
#[verifier::rlimit(40)]
proof fn lemma_last_step_fades_on_or_motion_stays(
    overlay: OverlayView,
    operation: OperationView,
    to: Single,
    started_ns: u128,
    duration_s: Double,
    replies: Seq<Reply>,
)
    requires
        overlay.motion matches MotionView::Fade { to: t, started_ns: s, duration_s: d, .. } && t
            == to && s == started_ns && d == duration_s,
        operation.orderly(),
        operation.failure is None,
        !operation.finished(),
        operation.cycle == Seq::<OpacitySegment>::empty(),
        operation.steps.last() == (Step::ReadRemaining { to, started_ns, duration_s }),
        forall|i: int|
            0 <= i < operation.steps.len() - 1 ==> !(
            #[trigger] operation.steps[i]).changes_motion(),
    ensures
        ({
            let motion = overlay.played(operation, replies).0.motion;
            motion == overlay.motion || {
                &&& exists|first: int| #[trigger] overlay.fades_on_from(operation, replies, first)
                &&& motion is Fade ==> overlay.told_to_play(operation, replies)
            }
        }),
{
    match lemma_comes_to_the_last_or_motion_stays(overlay, operation, replies) {
        None => {},
        Some(first) => {
            let midway = overlay.played(operation, replies.take(first)).0;
            let later = replies.skip(first);
            lemma_all_later(overlay, operation, replies, first);
            if later.len() < 2 || !(later[0] is Now) || !(later[1] is Seconds) {
                lemma_unknown_rest_leaves_motion(midway, to, started_ns, duration_s, later);
            } else {
                assert(later[0] == replies[first]);
                assert(later[1] == replies[first + 1]);
                lemma_known_rest_is_faded(midway, to, started_ns, duration_s, later);
                lemma_asked_later(overlay, operation, replies, first, 1);
                lemma_asked_later(overlay, operation, replies, first, 2);
                let looking = replies.skip(first + 2);
                let fade = OperationView::of(
                    seq![Step::ReadOpacity { to, duration_s: later[1]->Seconds_0 }],
                    Seq::empty(),
                );
                lemma_all_later(overlay, operation, replies, first + 2);
                lemma_only_a_fade_that_plays_is_remembered(
                    midway,
                    to,
                    later[1]->Seconds_0,
                    looking,
                );
                if overlay.played(operation, replies).0.motion != overlay.motion {
                    lemma_looks_later(overlay, operation, replies, first + 2);
                    if midway.told_to_play(fade, looking) {
                        lemma_told_later(overlay, operation, replies, first + 2);
                    }
                    assert(overlay.fades_on_from(operation, replies, first));
                }
            }
        },
    }
}

/// The rest of a fade whose time is not known is not taken up.
proof fn lemma_unknown_rest_leaves_motion(
    overlay: OverlayView,
    to: Single,
    started_ns: u128,
    duration_s: Double,
    replies: Seq<Reply>,
)
    requires
        replies.len() < 2 || !(replies[0] is Now) || !(replies[1] is Seconds),
    ensures
        overlay.played(
            OperationView::of(
                seq![Step::ReadRemaining { to, started_ns, duration_s }],
                Seq::empty(),
            ),
            replies,
        ).0.motion == overlay.motion,
{
    let operation = OperationView::of(
        seq![Step::ReadRemaining { to, started_ns, duration_s }],
        Seq::empty(),
    );
    if replies.len() > 0 {
        let later = replies.skip(1);
        let next = overlay.resumed(operation, replies[0]).1;
        if !(replies[0] is Now) {
            lemma_motion_stays(overlay, next, later);
        } else {
            let elapsed_ns = since(started_ns, replies[0]->Now_0);
            let second = OperationView::of(
                seq![Step::Remaining { to, duration_s, elapsed_ns }],
                Seq::empty(),
            );
            assert(next =~= second);
            if later.len() > 0 {
                assert(later[0] == replies[1]);
                lemma_motion_stays(overlay, overlay.resumed(second, later[0]).1, later.skip(1));
            }
            assert(overlay.played(second, later).0.motion == overlay.motion);
        }
    }
}

/// Whatever is answered to the rebuild of a fade, the motion is the fade it was, or
/// what [`OverlayView::fades_on_from`] says of it: the fade from the value on
/// screen, to the same target, for the time that was left. Where it is another
/// fade, the compositor was told to play it and took it.
#[verifier::rlimit(40)]
pub proof fn lemma_rebuilt_fade_stays_or_goes_on(overlay: OverlayView, replies: Seq<Reply>)
    requires
        overlay.motion is Fade,
    ensures
        ({
            let operation = overlay.rebuilding();
            let motion = overlay.played(operation, replies).0.motion;
            motion == overlay.motion || {
                &&& exists|first: int| #[trigger] overlay.fades_on_from(operation, replies, first)
                &&& motion is Fade ==> overlay.told_to_play(operation, replies)
            }
        }),
{
    lemma_last_step_fades_on_or_motion_stays(
        overlay,
        overlay.rebuilding(),
        overlay.motion->Fade_to,
        overlay.motion->Fade_started_ns,
        overlay.motion->Fade_duration_s,
        replies,
    );
}

// ---- exactly when a motion is remembered ------------------------------------

/// The answers from `first` up to `last` are all done.
pub open spec fn all_done(replies: Seq<Reply>, first: int, last: int) -> bool {
    &&& last <= replies.len()
    &&& forall|i: int| first <= i < last ==> #[trigger] replies[i] is Done
}

/// An update that does `count` commands before it comes to a step that moves the
/// opacity leaves the motion alone unless all of them are done.
proof fn lemma_motion_moves_after_commands(
    overlay: OverlayView,
    operation: OperationView,
    count: int,
    replies: Seq<Reply>,
)
    requires
        operation.open is None,
        0 <= count < operation.steps.len(),
        forall|i: int| 0 <= i < count ==> #[trigger] operation.steps[i] is Do,
        !(operation.steps[count] is BeginDraw),
    ensures
        if all_done(replies, 0, count) {
            overlay.played(operation, replies) == overlay.played(
                OperationView { steps: operation.steps.skip(count), ..operation },
                replies.skip(count),
            )
        } else {
            overlay.played(operation, replies).0 == overlay
        },
    decreases count,
{
    if count == 0 {
        assert(operation.steps.skip(0) =~= operation.steps);
        assert(replies.skip(0) =~= replies);
    } else if replies.len() > 0 {
        assert(operation.steps[0] is Do);
        let later = replies.skip(1);
        let rest = operation.steps.skip(1);
        let next = OperationView { steps: rest, ..operation };
        assert(forall|i: int| 0 <= i < rest.len() ==> rest[i] == operation.steps[i + 1]);
        assert(forall|i: int| 0 <= i < later.len() ==> later[i] == replies[i + 1]);
        if replies[0] is Done {
            assert(overlay.resumed(operation, replies[0]) == (overlay, next)) by {
                assert(overlay.resumed(operation, replies[0]).1 =~= next);
            }
            lemma_motion_moves_after_commands(overlay, next, count - 1, later);
            assert(rest.skip(count - 1) =~= operation.steps.skip(count));
            if count <= replies.len() {
                assert(later.skip(count - 1) =~= replies.skip(count));
            }
            assert(all_done(replies, 0, count) == all_done(later, 0, count - 1)) by {
                if all_done(replies, 0, count) {
                    assert forall|i: int|
                        0 <= i < count - 1 implies #[trigger] later[i] is Done by {
                        assert(replies[i + 1] is Done);
                    }
                }
                if all_done(later, 0, count - 1) {
                    assert forall|i: int| 0 <= i < count implies #[trigger] replies[i] is Done by {
                        if i > 0 {
                            assert(later[i - 1] is Done);
                        }
                    }
                }
            }
        } else {
            assert(!all_done(replies, 0, count));
            lemma_finished_stays(overlay, overlay.resumed(operation, replies[0]).1, later);
        }
    }
}

/// A cycle is remembered exactly where all that has it played was done and the clock
/// answered, whatever comes after: it was created, a piece was added for each segment,
/// it was made to repeat, and it was played. It is then remembered as of the moment on
/// the clock. Else the motion is the one it was.
pub proof fn lemma_cycle_is_remembered_exactly_once_it_plays(
    overlay: OverlayView,
    segments: Seq<OpacitySegment>,
    replies: Seq<Reply>,
)
    requires
        segments.len() > 0,
    ensures
        ({
            let motion = overlay.played(OverlayView::breathing(segments), replies).0.motion;
            let count = 3int + segments.len();
            motion == if all_done(replies, 0, count) && replies.len() > count
                && replies[count] is Now {
                MotionView::Breathe { started_ns: replies[count]->Now_0, segments }
            } else {
                overlay.motion
            }
        }),
{
    let operation = OverlayView::breathing(segments);
    let count = 3int + segments.len();
    let steps = operation.steps;
    assert(steps[count] is StartCycle);
    lemma_motion_moves_after_commands(overlay, operation, count, replies);
    if all_done(replies, 0, count) {
        let rest = OperationView { steps: steps.skip(count), ..operation };
        let later = replies.skip(count);
        assert(rest.steps =~= seq![Step::StartCycle, Step::Do(Command::Commit)]);
        if later.len() > 0 {
            assert(later[0] == replies[count]);
            let (after, next) = overlay.resumed(rest, later[0]);
            lemma_motion_stays(after, next, later.skip(1));
        }
    }
}

/// Where a fade has found the opacity at `from` and has time and a way to go, it is
/// remembered exactly where its animation was created, built, ended and played.
proof fn lemma_found_fade_is_remembered_exactly_once_it_plays(
    overlay: OverlayView,
    from: Single,
    to: Single,
    now_ns: u128,
    duration_s: Double,
    replies: Seq<Reply>,
)
    ensures
        ({
            let (fading, steps) = overlay.fading(from, to, now_ns, duration_s);
            let motion = fading.played(OperationView::of(steps, Seq::empty()), replies).0.motion;
            motion == if duration_s.is_at_most_zero() || from.is_equal(to) {
                MotionView::Hold(to)
            } else if all_done(replies, 0, 4) {
                MotionView::Fade { from, to, started_ns: now_ns, duration_s }
            } else {
                overlay.motion
            }
        }),
{
    let (fading, steps) = overlay.fading(from, to, now_ns, duration_s);
    let operation = OperationView::of(steps, Seq::empty());
    if duration_s.is_at_most_zero() || from.is_equal(to) {
        lemma_motion_stays(fading, operation, replies);
    } else {
        lemma_motion_moves_after_commands(overlay, operation, 3, replies);
        if all_done(replies, 0, 3) {
            let rest = OperationView { steps: steps.skip(3), ..operation };
            let later = replies.skip(3);
            let play = Step::PlayFade { from, to, started_ns: now_ns, duration_s };
            assert(rest.steps =~= seq![play, Step::Do(Command::Commit)]);
            if later.len() > 0 {
                assert(later[0] == replies[3]);
                let (after, next) = overlay.resumed(rest, later[0]);
                lemma_motion_stays(after, next, later.skip(1));
            }
        }
    }
}

/// A fade is remembered exactly where it has looked at the opacity on screen and all
/// that has it played was done, whatever comes after: its animation was created, built,
/// ended and played. Where it has no time or no way to go, its target is remembered as
/// soon as it has looked. Else the motion is the one it was.
pub proof fn lemma_fade_is_remembered_exactly_once_it_plays(
    overlay: OverlayView,
    to: Single,
    duration_s: Double,
    replies: Seq<Reply>,
)
    ensures
        ({
            let operation = OverlayView::fading_to(to, duration_s);
            let motion = overlay.played(operation, replies).0.motion;
            let found = faded(overlay.motion, to, duration_s, replies);
            let count: int = if overlay.motion.value(replies[1]->Seconds_0) is Known {
                2
            } else {
                3
            };
            motion == if !overlay.looks_from(operation, replies, 0) {
                overlay.motion
            } else if found is Hold || all_done(replies, count, count + 4) {
                found
            } else {
                overlay.motion
            }
        }),
{
    let operation = OverlayView::fading_to(to, duration_s);
    lemma_only_a_fade_that_plays_is_remembered(overlay, to, duration_s, replies);
    if overlay.looks_from(operation, replies, 0) {
        lemma_looked_fade_is_remembered_exactly_once_it_plays(overlay, to, duration_s, replies);
    }
}

#[verifier::rlimit(40)]
proof fn lemma_looked_fade_is_remembered_exactly_once_it_plays(
    overlay: OverlayView,
    to: Single,
    duration_s: Double,
    replies: Seq<Reply>,
)
    requires
        overlay.looks_from(OverlayView::fading_to(to, duration_s), replies, 0),
    ensures
        ({
            let operation = OverlayView::fading_to(to, duration_s);
            let motion = overlay.played(operation, replies).0.motion;
            let found = faded(overlay.motion, to, duration_s, replies);
            let count: int = if overlay.motion.value(replies[1]->Seconds_0) is Known {
                2
            } else {
                3
            };
            motion == if found is Hold || all_done(replies, count, count + 4) {
                found
            } else {
                overlay.motion
            }
        }),
{
    let operation = OverlayView::fading_to(to, duration_s);
    let now_ns = replies[0]->Now_0;
    let position = Step::Position {
        to,
        duration_s,
        now_ns,
        elapsed_ns: overlay.motion.elapsed(now_ns),
        cycle_s: overlay.motion.cycle(),
    };
    let second = OperationView::of(seq![position], Seq::empty());
    assert(overlay.resumed(operation, replies[0]).1 =~= second);
    let later = replies.skip(1);
    assert(later[0] == replies[1]);
    assert(overlay.played(operation, replies) == overlay.played(second, later));
    match overlay.motion.value(replies[1]->Seconds_0) {
        Opacity::Known(from) => {
            let (fading, steps) = overlay.fading(from, to, now_ns, duration_s);
            let third = OperationView::of(steps, Seq::empty());
            assert(overlay.resumed(second, replies[1]).1 =~= third);
            let rest = later.skip(1);
            assert(rest =~= replies.skip(2));
            lemma_found_fade_is_remembered_exactly_once_it_plays(
                overlay,
                from,
                to,
                now_ns,
                duration_s,
                rest,
            );
            lemma_all_done_later(replies, 2, 4);
        },
        Opacity::OnCurve { curve, at_s } => {
            let evaluate = Step::Evaluate { to, duration_s, now_ns, curve, at_s };
            let third = OperationView::of(seq![evaluate], Seq::empty());
            assert(overlay.resumed(second, replies[1]).1 =~= third);
            let rest = later.skip(1);
            assert(rest[0] == replies[2]);
            assert(overlay.played(second, later) == overlay.played(third, rest));
            let from = replies[2]->Opacity_0;
            let (fading, steps) = overlay.fading(from, to, now_ns, duration_s);
            let fourth = OperationView::of(steps, Seq::empty());
            assert(overlay.resumed(third, replies[2]).1 =~= fourth);
            let last = rest.skip(1);
            assert(last =~= replies.skip(3));
            lemma_found_fade_is_remembered_exactly_once_it_plays(
                overlay,
                from,
                to,
                now_ns,
                duration_s,
                last,
            );
            lemma_all_done_later(replies, 3, 4);
        },
    }
}

proof fn lemma_all_done_later(replies: Seq<Reply>, first: int, count: int)
    requires
        0 <= first <= replies.len(),
        0 <= count,
    ensures
        all_done(replies.skip(first), 0, count) == all_done(replies, first, first + count),
{
    let later = replies.skip(first);
    assert(forall|i: int| 0 <= i < later.len() ==> later[i] == replies[first + i]);
    if all_done(later, 0, count) {
        assert forall|i: int| first <= i < first + count implies #[trigger] replies[i] is Done by {
            assert(later[i - first] is Done);
        }
    }
    if all_done(replies, first, first + count) {
        assert forall|i: int| 0 <= i < count implies #[trigger] later[i] is Done by {
            assert(replies[first + i] is Done);
        }
    }
}

} // verus!
