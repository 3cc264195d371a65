//! What holds of the overlay whatever the compositor answers.
//!
//! An update is followed over a sequence of answers. The laws on it need no more
//! of the answers than they say.

use vstd::prelude::*;
use crate::content::{byte_count, red_blue_swapped, ContentView};
use crate::destination::{DestinationBox, Point};
use crate::error::OverlayError;
use crate::motion::{lemma_one_segment_plays, MotionView, OpacitySegment};
use crate::motion_laws::lemma_motion_stays;
use crate::number::Single;
use crate::operation::{all_closed, Command, OperationView, Progress, Reply, Step, Target};
use crate::overlay::OverlayView;
use crate::size_laws::lemma_extent_stays;

verus! {

// ---- what every update keeps ------------------------------------------------

/// Whatever is answered, the overlay stays well-formed and the update stays one
/// that it can carry out.
pub proof fn lemma_resumed_ready(overlay: OverlayView, operation: OperationView, reply: Reply)
    requires
        overlay.wf(),
        overlay.ready(operation),
    ensures
        overlay.resumed(operation, reply).0.wf(),
        overlay.resumed(operation, reply).0.ready(overlay.resumed(operation, reply).1),
{
    if !operation.finished() {
        let step = operation.steps[0];
        let rest = operation.steps.skip(1);
        assert(overlay.covers(step));
        assert(forall|i: int| 0 <= i < rest.len() ==> rest[i] == operation.steps[i + 1]);
        assert(forall|i: int| 0 <= i < rest.len() ==> overlay.covers(#[trigger] rest[i]));
        match overlay.settled(operation.cycle, step, reply) {
            Ok((after, more)) => {
                lemma_settled_covers(overlay, operation.cycle, step, reply);
                let next = operation.continued(more);
                assert(next.steps =~= more + rest);
                lemma_continued_orderly(overlay, operation, reply);
            },
            Err(error) => {},
        }
    }
}

/// What an answer adds to an update is covered by the content, and leaves the
/// content and the position alone.
proof fn lemma_settled_covers(
    overlay: OverlayView,
    cycle: Seq<OpacitySegment>,
    step: Step,
    reply: Reply,
)
    requires
        overlay.covers(step),
        overlay.settled(cycle, step, reply) is Ok,
    ensures
        ({
            let (after, more) = overlay.settled(cycle, step, reply)->Ok_0;
            &&& after.content == overlay.content
            &&& after.x == overlay.x
            &&& after.y == overlay.y
            &&& after.placed == overlay.placed
            &&& forall|i: int| 0 <= i < more.len() ==> after.covers(#[trigger] more[i])
            &&& forall|i: int| 0 <= i < more.len() ==> !(#[trigger] more[i] is StartCycle)
        }),
{
}

pub(crate) proof fn lemma_continued_orderly(overlay: OverlayView, operation: OperationView, reply: Reply)
    requires
        operation.orderly(),
        !operation.finished(),
        overlay.settled(operation.cycle, operation.steps[0], reply) is Ok,
    ensures
        operation.continued(
            overlay.settled(operation.cycle, operation.steps[0], reply)->Ok_0.1,
        ).orderly(),
{
    let step = operation.steps[0];
    let rest = operation.steps.skip(1);
    let more = overlay.settled(operation.cycle, step, reply)->Ok_0.1;
    let next = operation.continued(more);
    match operation.open {
        None => {
            assert(!step.needs_open());
            assert(forall|i: int| 0 <= i < rest.len() ==> rest[i] == operation.steps[i + 1]);
            assert(all_closed(rest));
            if step is BeginDraw {
                assert(next.steps.skip(2) =~= rest);
            }
        },
        Some(target) => {
            if step is EndDraw {
                assert(next.steps =~= rest);
            } else if step is Upload {
                assert(next.steps =~= rest);
                assert(next.steps.skip(1) =~= operation.steps.skip(2));
            } else {
                assert(next.steps.skip(2) =~= operation.steps.skip(2));
            }
        },
    }
}

// ---- an update over the answers to it ---------------------------------------

impl OverlayView {
    /// The overlay and the update after `replies`, taken one by one. The answers
    /// that come after the update is over change nothing.
    pub open spec fn played(self, operation: OperationView, replies: Seq<Reply>) -> (
        OverlayView,
        OperationView,
    )
        decreases replies.len(),
    {
        let looked_at = self.checked(operation);
        if replies.len() == 0 {
            (self, looked_at)
        } else {
            let (overlay, next) = self.resumed(looked_at, replies[0]);
            overlay.played(next, replies.skip(1))
        }
    }

    /// How many surfaces were opened for drawing.
    pub open spec fn opened(self, operation: OperationView, replies: Seq<Reply>) -> nat
        decreases replies.len(),
    {
        if replies.len() == 0 {
            0
        } else {
            let looked_at = self.checked(operation);
            let (overlay, next) = self.resumed(looked_at, replies[0]);
            let later = overlay.opened(next, replies.skip(1));
            if !looked_at.finished() && looked_at.steps[0].asked() is BeginDraw
                && replies[0] is Origin {
                later + 1
            } else {
                later
            }
        }
    }

    /// How often a surface was asked to be closed.
    pub open spec fn closed(self, operation: OperationView, replies: Seq<Reply>) -> nat
        decreases replies.len(),
    {
        if replies.len() == 0 {
            0
        } else {
            let looked_at = self.checked(operation);
            let (overlay, next) = self.resumed(looked_at, replies[0]);
            let later = overlay.closed(next, replies.skip(1));
            if !looked_at.finished() && looked_at.steps[0].asked() is EndDraw {
                later + 1
            } else {
                later
            }
        }
    }
}

/// An update may be followed over its answers in parts: after `earlier`, it goes on
/// with `later` from where it is.
pub proof fn lemma_answers_in_parts(
    overlay: OverlayView,
    operation: OperationView,
    earlier: Seq<Reply>,
    later: Seq<Reply>,
)
    ensures
        ({
            let (midway, left) = overlay.played(operation, earlier);
            overlay.played(operation, earlier + later) == midway.played(left, later)
        }),
    decreases earlier.len(),
{
    let looked_at = overlay.checked(operation);
    if earlier.len() == 0 {
        assert(earlier + later =~= later);
        assert(overlay.checked(looked_at) == looked_at);
    } else {
        let all = earlier + later;
        let (after, next) = overlay.resumed(looked_at, earlier[0]);
        assert(all[0] == earlier[0]);
        assert(all.skip(1) =~= earlier.skip(1) + later);
        lemma_answers_in_parts(after, next, earlier.skip(1), later);
    }
}

/// Over any answers, the overlay stays well-formed and the update stays one that
/// it can carry out.
pub proof fn lemma_played_ready(
    overlay: OverlayView,
    operation: OperationView,
    replies: Seq<Reply>,
)
    requires
        overlay.wf(),
        overlay.ready(operation),
    ensures
        overlay.played(operation, replies).0.wf(),
        overlay.played(operation, replies).0.ready(overlay.played(operation, replies).1),
    decreases replies.len(),
{
    lemma_remembered_content_is_never_rejected(overlay, operation);
    if replies.len() > 0 {
        lemma_resumed_ready(overlay, operation, replies[0]);
        let (after, next) = overlay.resumed(operation, replies[0]);
        lemma_played_ready(after, next, replies.skip(1));
    }
}

/// The overlay's own content passes every check that is made before a surface is
/// opened: an update stops only for an answer.
pub proof fn lemma_remembered_content_is_never_rejected(
    overlay: OverlayView,
    operation: OperationView,
)
    requires
        overlay.ready(operation),
    ensures
        overlay.checked(operation) == operation,
{
    if !operation.finished() {
        assert(overlay.covers(operation.steps[0]));
    }
}

/// Content that a surface cannot take is rejected before the surface is opened,
/// and nothing is asked of the compositor any more.
pub proof fn lemma_rejected_before_opened(
    overlay: OverlayView,
    operation: OperationView,
    target: Target,
    width: u32,
    height: u32,
)
    requires
        operation.open is None,
        operation.failure is None,
        !operation.finished(),
        operation.steps[0] == (Step::BeginDraw { target, width, height }),
        overlay.content.draw_error(width, height) is Some,
    ensures
        overlay.checked(operation).finished(),
        overlay.checked(operation).open is None,
        overlay.checked(operation).failure == overlay.content.draw_error(width, height),
{
}

/// A surface that was opened for drawing is closed again on every path: over any
/// answers, once the update is over, as many were closed as were opened. Until
/// then at most one is open.
pub proof fn lemma_every_opened_surface_is_closed(
    overlay: OverlayView,
    operation: OperationView,
    replies: Seq<Reply>,
)
    requires
        operation.orderly(),
    ensures
        ({
            let end = overlay.played(operation, replies).1;
            let opened = overlay.opened(operation, replies);
            let closed = overlay.closed(operation, replies);
            &&& end.orderly()
            &&& end.finished() ==> end.open is None
            &&& (if operation.open is Some { 1int } else { 0 }) + opened - closed == (if end.open is Some {
                1int
            } else {
                0
            })
        }),
    decreases replies.len(),
{
    let looked_at = overlay.checked(operation);
    assert(looked_at.orderly());
    if replies.len() > 0 {
        let (after, next) = overlay.resumed(looked_at, replies[0]);
        if !looked_at.finished() {
            let step = looked_at.steps[0];
            assert(looked_at.open is None ==> !step.needs_open());
            match overlay.settled(looked_at.cycle, step, replies[0]) {
                Ok(_) => lemma_continued_orderly(overlay, looked_at, replies[0]),
                Err(_) => {},
            }
        }
        lemma_every_opened_surface_is_closed(after, next, replies.skip(1));
    }
}

/// Whatever is answered, the remembered content and position stay.
pub proof fn lemma_content_and_position_stay(
    overlay: OverlayView,
    operation: OperationView,
    replies: Seq<Reply>,
)
    ensures
        overlay.played(operation, replies).0.content == overlay.content,
        overlay.played(operation, replies).0.x == overlay.x,
        overlay.played(operation, replies).0.y == overlay.y,
        overlay.played(operation, replies).0.placed == overlay.placed,
    decreases replies.len(),
{
    if replies.len() > 0 {
        let (after, next) = overlay.resumed(overlay.checked(operation), replies[0]);
        lemma_content_and_position_stay(after, next, replies.skip(1));
    }
}

/// What went wrong first with an update stands, whatever goes wrong later.
pub proof fn lemma_failure_stays(overlay: OverlayView, operation: OperationView, replies: Seq<Reply>)
    requires
        operation.failure is Some,
    ensures
        overlay.played(operation, replies).1.failure == operation.failure,
    decreases replies.len(),
{
    if replies.len() > 0 {
        let (after, next) = overlay.resumed(overlay.checked(operation), replies[0]);
        lemma_failure_stays(after, next, replies.skip(1));
    }
}

// ---- that updates end -------------------------------------------------------

impl Step {
    /// How many answers it takes, at most, until the step and all that comes of
    /// it is done, in an update that plays a cycle of this many segments.
    pub open spec fn effort(self, segments: nat) -> nat {
        match self {
            Step::RemoveVisual => 2,
            Step::Phase { .. } => 2 * segments + 5,
            Step::ReadPhase { .. } => 2 * segments + 6,
            Step::MeasureUpdate { .. } => 2,
            Step::BeginDraw { .. } => 4,
            Step::Evaluate { .. } => 6,
            Step::Position { .. } => 7,
            Step::ReadOpacity { .. } => 8,
            Step::Remaining { .. } => 9,
            Step::ReadRemaining { .. } => 10,
            _ => 1,
        }
    }

    /// `reply` is a good answer to the step: the device did what it was asked,
    /// and content that is to be written has its place.
    pub open spec fn answered(self, reply: Reply) -> bool {
        match self {
            Step::RemoveVisual => true,
            Step::CommitRemoval => true,
            Step::ReadPhase { .. } => reply is Now,
            Step::Phase { .. } => reply is Seconds,
            Step::BeginDraw { .. } => reply is Origin,
            Step::MeasureUpdate { origin, width, height } => reply matches Reply::Size {
                width: update_width,
                height: update_height,
            } && 0 <= origin.x && 0 <= origin.y && origin.x + width <= update_width && origin.y
                + height <= update_height,
            Step::StartCycle => reply is Now,
            Step::ReadRemaining { .. } => reply is Now,
            Step::Remaining { .. } => reply is Seconds,
            Step::ReadOpacity { .. } => reply is Now,
            Step::Position { .. } => reply is Seconds,
            Step::Evaluate { .. } => reply is Opacity,
            _ => reply is Done,
        }
    }
}

/// How many answers it takes, at most, until all of `steps` are done, in an update
/// that plays a cycle of this many segments.
pub open spec fn effort(steps: Seq<Step>, segments: nat) -> nat
    decreases steps.len(),
{
    if steps.len() == 0 {
        0
    } else {
        steps[0].effort(segments) + effort(steps.skip(1), segments)
    }
}

proof fn lemma_effort_adds(more: Seq<Step>, rest: Seq<Step>, segments: nat)
    ensures
        effort(more + rest, segments) == effort(more, segments) + effort(rest, segments),
    decreases more.len(),
{
    if more.len() == 0 {
        assert(more + rest =~= rest);
    } else {
        assert((more + rest).skip(1) =~= more.skip(1) + rest);
        lemma_effort_adds(more.skip(1), rest, segments);
    }
}

proof fn lemma_effort_of_commands(steps: Seq<Step>, segments: nat)
    requires
        forall|i: int| 0 <= i < steps.len() ==> #[trigger] steps[i] is Do,
    ensures
        effort(steps, segments) == steps.len(),
    decreases steps.len(),
{
    if steps.len() > 0 {
        assert(steps[0] is Do);
        let rest = steps.skip(1);
        assert forall|i: int| 0 <= i < rest.len() implies #[trigger] rest[i] is Do by {
            assert(rest[i] == steps[i + 1]);
        }
        lemma_effort_of_commands(rest, segments);
    }
}

/// Every answer, good or bad, brings an update closer to its end.
pub proof fn lemma_every_answer_counts(
    overlay: OverlayView,
    operation: OperationView,
    reply: Reply,
)
    requires
        operation.orderly(),
        !operation.finished(),
    ensures
        effort(overlay.resumed(operation, reply).1.steps, operation.cycle.len()) < effort(
            operation.steps,
            operation.cycle.len(),
        ),
{
    let step = operation.steps[0];
    let rest = operation.steps.skip(1);
    let segments = operation.cycle.len();
    match overlay.settled(operation.cycle, step, reply) {
        Ok((_, more)) => {
            lemma_effort_adds(more, rest, segments);
            lemma_answered_step_takes_less(overlay, operation.cycle, step, reply);
        },
        Err(_) => {
            reveal_with_fuel(effort, 3);
        },
    }
}

proof fn lemma_answered_step_takes_less(
    overlay: OverlayView,
    cycle: Seq<OpacitySegment>,
    step: Step,
    reply: Reply,
)
    requires
        overlay.settled(cycle, step, reply) is Ok,
    ensures
        effort(overlay.settled(cycle, step, reply)->Ok_0.1, cycle.len()) < step.effort(cycle.len()),
{
    let more = overlay.settled(cycle, step, reply)->Ok_0.1;
    if step is Phase {
        if cycle.len() > 0 {
            lemma_one_segment_plays(cycle, reply->Seconds_0);
        }
        lemma_effort_of_commands(more, cycle.len());
    } else {
        reveal_with_fuel(effort, 6);
    }
}

/// An update is over after a number of answers that is known when it starts.
pub proof fn lemma_updates_end(
    overlay: OverlayView,
    operation: OperationView,
    replies: Seq<Reply>,
)
    requires
        operation.orderly(),
        effort(operation.steps, operation.cycle.len()) <= replies.len(),
    ensures
        overlay.played(operation, replies).1.finished(),
    decreases replies.len(),
{
    reveal_with_fuel(effort, 3);
    let segments = operation.cycle.len();
    let looked_at = overlay.checked(operation);
    assert(looked_at.orderly() && effort(looked_at.steps, segments) <= effort(
        operation.steps,
        segments,
    ));
    if replies.len() > 0 {
        let (after, next) = overlay.resumed(looked_at, replies[0]);
        if !looked_at.finished() {
            lemma_every_answer_counts(overlay, looked_at, replies[0]);
            match overlay.settled(looked_at.cycle, looked_at.steps[0], replies[0]) {
                Ok(_) => lemma_continued_orderly(overlay, looked_at, replies[0]),
                Err(_) => {},
            }
        }
        lemma_updates_end(after, next, replies.skip(1));
    }
}

impl OverlayView {
    /// Each of `replies` is a good answer to what the update asked.
    pub open spec fn answered(self, operation: OperationView, replies: Seq<Reply>) -> bool
        decreases replies.len(),
    {
        replies.len() > 0 ==> {
            let (overlay, next) = self.resumed(operation, replies[0]);
            &&& !operation.finished() ==> operation.steps[0].answered(replies[0])
            &&& overlay.answered(next, replies.skip(1))
        }
    }
}

/// An update that gets nothing but good answers, and all of them, succeeds.
pub proof fn lemma_good_answers_succeed(
    overlay: OverlayView,
    operation: OperationView,
    replies: Seq<Reply>,
)
    requires
        overlay.wf(),
        overlay.ready(operation),
        operation.failure is None,
        overlay.answered(operation, replies),
        effort(operation.steps, operation.cycle.len()) <= replies.len(),
    ensures
        overlay.played(operation, replies).1.succeeded(),
{
    lemma_updates_end(overlay, operation, replies);
    lemma_good_answers_do_not_fail(overlay, operation, replies);
}

proof fn lemma_good_answers_do_not_fail(
    overlay: OverlayView,
    operation: OperationView,
    replies: Seq<Reply>,
)
    requires
        overlay.wf(),
        overlay.ready(operation),
        operation.failure is None,
        overlay.answered(operation, replies),
    ensures
        overlay.played(operation, replies).1.failure is None,
    decreases replies.len(),
{
    lemma_remembered_content_is_never_rejected(overlay, operation);
    if replies.len() > 0 {
        let (after, next) = overlay.resumed(operation, replies[0]);
        lemma_resumed_ready(overlay, operation, replies[0]);
        lemma_good_answers_do_not_fail(after, next, replies.skip(1));
    }
}

// ---- detaching --------------------------------------------------------------

/// A visual is removed from its root once, and the removal is committed exactly
/// where it succeeded. Whatever is answered to either, nothing went wrong.
pub proof fn lemma_only_a_removal_is_committed(
    overlay: OverlayView,
    operation: OperationView,
    removed: Reply,
    committed: Reply,
)
    requires
        !operation.finished(),
        operation.steps[0] is RemoveVisual,
    ensures
        ({
            let rest = OperationView { steps: operation.steps.skip(1), ..operation };
            let (after, next) = overlay.resumed(operation, removed);
            &&& operation.steps[0].asked() is RemoveVisual
            &&& after == overlay
            &&& removed is Done ==> {
                &&& next.steps.len() == operation.steps.len()
                &&& next.steps[0].asked() is Commit
                &&& overlay.resumed(next, committed) == (overlay, rest)
            }
            &&& !(removed is Done) ==> next == rest
        }),
{
    let rest = OperationView { steps: operation.steps.skip(1), ..operation };
    let next = overlay.resumed(operation, removed).1;
    if removed is Done {
        assert(overlay.resumed(next, committed).1 =~= rest);
    } else {
        assert(next =~= rest);
    }
}

// ---- what is written to a surface -------------------------------------------

/// Content is written only where all of it fits: at the origin that the
/// compositor reported, in a box of its own size that leaves no side of the
/// update surface. Where there is no such box nothing is written, and the surface
/// is closed next.
pub proof fn lemma_content_is_never_clipped(
    overlay: OverlayView,
    operation: OperationView,
    origin: Point,
    size: (u32, u32),
    update: (u32, u32),
)
    requires
        operation.orderly(),
        !operation.finished(),
        operation.steps[0] == (Step::MeasureUpdate { origin, width: size.0, height: size.1 }),
    ensures
        ({
            let next = overlay.resumed(
                operation,
                Reply::Size { width: update.0, height: update.1 },
            ).1;
            let fits = 0 <= origin.x && 0 <= origin.y && origin.x + size.0 <= update.0 && origin.y
                + size.1 <= update.1;
            &&& next.steps.len() > 0
            &&& fits ==> next.steps[0].asked() == (Command::Upload {
                destination: DestinationBox {
                    left: origin.x as u32,
                    top: origin.y as u32,
                    front: 0,
                    right: (origin.x + size.0) as u32,
                    bottom: (origin.y + size.1) as u32,
                    back: 1,
                },
                width: size.0,
                height: size.1,
            })
            &&& !fits ==> next.failure is Some && next.steps.len() == 1
                && next.steps[0].asked() is EndDraw
        }),
{
}

/// What an upload writes is exactly the pixels of the box it is written to.
pub proof fn lemma_uploads_fill_their_box(overlay: OverlayView, operation: OperationView)
    requires
        overlay.wf(),
        overlay.ready(operation),
        !operation.finished(),
    ensures
        operation.steps[0].asked() matches Command::Upload { destination, width, height } ==> {
            &&& destination.right - destination.left == width
            &&& destination.bottom - destination.top == height
            &&& red_blue_swapped(overlay.content.pixels(width, height)).len() == byte_count(
                width,
                height,
            )
        },
{
    assert(overlay.covers(operation.steps[0]));
}

/// Exchanging red and blue twice gives the pixels back.
pub proof fn lemma_swapping_twice_restores(pixels: Seq<u8>)
    ensures
        red_blue_swapped(red_blue_swapped(pixels)) == pixels,
{
    let swapped = red_blue_swapped(pixels);
    assert forall|i: int| 0 <= i < pixels.len() implies red_blue_swapped(swapped)[i]
        == pixels[i] by {
        if i - i % 4 + 4 <= pixels.len() {
            if i % 4 == 0 {
                assert((i + 2) % 4 == 2);
                assert(swapped[i + 2] == pixels[i]);
            } else if i % 4 == 2 {
                assert((i - 2) % 4 == 0);
                assert(swapped[i - 2] == pixels[i]);
            }
        }
    }
    assert(red_blue_swapped(swapped) =~= pixels);
}

// ---- what answers come to ---------------------------------------------------

/// What is told of an update that is over is what went wrong with it, if anything
/// did. While it is not over, its next command is asked.
pub proof fn lemma_result_is_what_went_wrong(operation: OperationView)
    ensures
        match operation.failure {
            None => operation.steps.len() == 0 ==> OverlayView::next(operation)
                == Progress::Finished(Ok(())),
            Some(error) => operation.steps.len() == 0 ==> OverlayView::next(operation)
                == Progress::Finished(Err(error)),
        },
        operation.steps.len() > 0 ==> OverlayView::next(operation) == Progress::Issue(
            operation.steps[0].asked(),
        ),
{
}

/// An answer that is no good answer to a step stops the update: what is left is to
/// close a surface that is open, and nothing of the overlay changes. Where it is the
/// first thing to go wrong it is a failure of the device, or, of a measured surface,
/// that the content has no place on it.
pub proof fn lemma_bad_answer_stops_the_update(
    overlay: OverlayView,
    operation: OperationView,
    reply: Reply,
)
    requires
        operation.orderly(),
        !operation.finished(),
        !operation.steps[0].answered(reply),
    ensures
        ({
            let (after, next) = overlay.resumed(operation, reply);
            let step = operation.steps[0];
            &&& after == overlay
            &&& next.failure is Some
            &&& next.steps.len() <= 1
            &&& next.steps.len() == 1 ==> next.steps[0].asked() is EndDraw
            &&& next.steps.len() == 1 <==> operation.open is Some && !(step.asked() is EndDraw)
            &&& operation.failure is Some ==> next.failure == operation.failure
            &&& operation.failure is None ==> next.failure == Some(
                match (step, reply) {
                    (
                        Step::MeasureUpdate { origin, width, height },
                        Reply::Size { width: update_width, height: update_height },
                    ) => if origin.x < 0 || origin.y < 0 || origin.x + width > u32::MAX || origin.y
                        + height > u32::MAX {
                        OverlayError::OffsetOutside
                    } else {
                        OverlayError::DestinationOutside {
                            right: (origin.x + width) as u32,
                            bottom: (origin.y + height) as u32,
                            update_width,
                            update_height,
                        }
                    },
                    _ => OverlayError::Device,
                },
            )
        }),
{
}

/// A good answer to a step lets the update go on: nothing goes wrong by it, and all
/// the steps after it are still to come.
pub proof fn lemma_good_answer_goes_on(
    overlay: OverlayView,
    operation: OperationView,
    reply: Reply,
)
    requires
        operation.orderly(),
        !operation.finished(),
        operation.steps[0].answered(reply),
    ensures
        ({
            let next = overlay.resumed(operation, reply).1;
            let rest = operation.steps.skip(1);
            &&& next.failure == operation.failure
            &&& next.cycle == operation.cycle
            &&& next.steps.len() >= rest.len()
            &&& next.steps.skip(next.steps.len() - rest.len()) == rest
        }),
{
    let rest = operation.steps.skip(1);
    let more = overlay.settled(operation.cycle, operation.steps[0], reply)->Ok_0.1;
    let next = overlay.resumed(operation, reply).1;
    assert(next.steps =~= more + rest);
    assert(next.steps.skip(more.len() as int) =~= rest);
}

/// What answers each command well.
pub open spec fn answers(command: Command, reply: Reply) -> bool {
    match command {
        Command::BeginDraw { .. } => reply is Origin,
        Command::MeasureUpdate => reply is Size,
        Command::ReadClock => reply is Now,
        Command::Position { .. } => reply is Seconds,
        Command::Remaining { .. } => reply is Seconds,
        Command::Evaluate { .. } => reply is Opacity,
        _ => reply is Done,
    }
}

/// A step is answered well only by what answers its command, but for the two that
/// take a visual off its root, which any answer will do for.
pub proof fn lemma_steps_are_answered_as_their_commands(step: Step, reply: Reply)
    requires
        !(step is Do) || !(step->Do_0 is BeginDraw || step->Do_0 is MeasureUpdate
            || step->Do_0 is ReadClock || step->Do_0 is Position || step->Do_0 is Remaining
            || step->Do_0 is Evaluate),
        step.answered(reply),
    ensures
        answers(step.asked(), reply) || step is RemoveVisual || step is CommitRemoval,
{
}

// ---- what is remembered whatever is answered --------------------------------

/// Whatever is answered to a placement, its position is remembered, and that there
/// was one. The content and the motion are left alone.
pub proof fn lemma_placement_is_remembered(
    overlay: OverlayView,
    x: Single,
    y: Single,
    size: (u32, u32),
    replies: Seq<Reply>,
)
    ensures
        ({
            let (placed, operation) = overlay.placing(x, y, size);
            let end = placed.played(operation, replies).0;
            &&& end.x == x
            &&& end.y == y
            &&& end.placed
            &&& end.content == overlay.content
            &&& end.motion == overlay.motion
            &&& placed.extent() == overlay.extent()
        }),
{
    let (placed, operation) = overlay.placing(x, y, size);
    lemma_content_and_position_stay(placed, operation, replies);
    lemma_motion_stays(placed, operation, replies);
}

/// Whatever is answered to new content, it is remembered. The position and the motion
/// are left alone.
pub proof fn lemma_content_is_remembered(
    overlay: OverlayView,
    content: ContentView,
    replies: Seq<Reply>,
)
    ensures
        ({
            let (showing, operation) = overlay.showing(content);
            let end = showing.played(operation, replies).0;
            &&& end.content == content
            &&& end.x == overlay.x
            &&& end.y == overlay.y
            &&& end.placed == overlay.placed
            &&& end.motion == overlay.motion
            &&& showing.extent() == overlay.extent()
        }),
{
    let (showing, operation) = overlay.showing(content);
    lemma_content_and_position_stay(showing, operation, replies);
    lemma_motion_stays(showing, operation, replies);
}

/// Whatever is answered to a hold, its value is remembered. Nothing else changes.
pub proof fn lemma_hold_is_remembered(overlay: OverlayView, value: Single, replies: Seq<Reply>)
    ensures
        ({
            let (holding, operation) = overlay.holding(value);
            holding.played(operation, replies).0 == (OverlayView {
                motion: MotionView::Hold(value),
                ..overlay
            })
        }),
{
    let (holding, operation) = overlay.holding(value);
    lemma_content_and_position_stay(holding, operation, replies);
    lemma_motion_stays(holding, operation, replies);
    lemma_extent_stays(holding, operation, replies);
}

/// A rebuild that gets no visual is over at once, and leaves everything.
pub proof fn lemma_rebuild_without_visual_leaves_everything(
    overlay: OverlayView,
    replies: Seq<Reply>,
)
    requires
        replies.len() > 0,
        !(replies[0] is Done),
    ensures
        ({
            let (end, left) = overlay.played(overlay.rebuilding(), replies);
            &&& end == overlay
            &&& left.finished()
            &&& left.failure == Some(OverlayError::Device)
        }),
{
    let next = overlay.resumed(overlay.rebuilding(), replies[0]).1;
    lemma_finished_stays(overlay, next, replies.skip(1));
}

/// Answers that come after an update is over change nothing.
pub proof fn lemma_finished_stays(
    overlay: OverlayView,
    operation: OperationView,
    replies: Seq<Reply>,
)
    requires
        operation.finished(),
    ensures
        overlay.played(operation, replies) == (overlay, operation),
    decreases replies.len(),
{
    if replies.len() > 0 {
        lemma_finished_stays(overlay, operation, replies.skip(1));
    }
}

/// The bytes that an upload needs can be had exactly where those of a row can be
/// counted and, of a color, all of them held.
pub proof fn lemma_drawable_is_what_can_be_held(overlay: OverlayView, width: u32, height: u32)
    ensures
        overlay.drawable(width, height) <==> {
            &&& width < 0x4000_0000
            &&& overlay.content is Rgba || 4 * (width * height) <= isize::MAX
        },
{
}

} // verus!
