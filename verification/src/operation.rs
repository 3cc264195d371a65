//! What the overlay asks of the compositor, what the compositor answers, and an
//! update of the overlay that is under way.
//!
//! An update is a list of steps. Each asks one thing of the compositor, of the
//! clock or of the arithmetic on seconds and opacities, and waits for the answer
//! before the next is taken.

use vstd::prelude::*;
use crate::destination::{DestinationBox, Point};
use crate::error::OverlayError;
use crate::motion::{Curve, OpacitySegment, Piece};
use crate::number::{Double, Single};

verus! {

/// The surface that is drawn into.
#[derive(Clone, Copy, Debug, PartialEq, Eq, Structural)]
pub enum Target {
    /// The surface that the visual shows.
    Attached,
    /// The surface that was created last and is not attached yet.
    Fresh,
}

/// One thing asked of the world outside the overlay.
#[derive(Clone, Copy, Debug, PartialEq, Eq, Structural)]
pub enum Command {
    /// Create a visual, and have it typed for opacity control.
    CreateVisual,
    /// Take the overlay's visual off the root it is on.
    RemoveVisual,
    /// Make the created visual, its device and its root the overlay's own, and
    /// let go of the surface.
    AdoptVisual,
    /// Have the visual show nothing.
    ClearContent,
    /// Add the visual to the root as its topmost child.
    AddVisual,
    SetOffsetX(Single),
    SetOffsetY(Single),
    /// Stop any animation of the opacity, and hold this one.
    SetOpacity(Single),
    /// Create a surface, of blue, green, red and premultiplied alpha.
    CreateSurface { width: u32, height: u32 },
    /// Open the whole of a surface for an update; answered with its origin.
    BeginDraw { target: Target, width: u32, height: u32 },
    /// Take the texture of the update surface, and answer with its size.
    MeasureUpdate,
    /// Write the content, for `width`x`height` pixels, to `destination` on the
    /// update surface.
    Upload { destination: DestinationBox, width: u32, height: u32 },
    /// Close the surface again.
    EndDraw { target: Target },
    /// Have the visual show the created surface.
    AttachSurface,
    CreateAnimation,
    /// Add a piece to the created animation.
    AddCubic(Piece),
    /// End the created animation at `at_s` with `value`.
    EndAnimation { at_s: Double, value: Single },
    /// From `begin_s` on, repeat the last `duration_s` for good.
    RepeatAnimation { begin_s: Double, duration_s: Double },
    /// Add a piece of a cycle to the created animation as it plays from `at_s` in
    /// the cycle on: what is left of it at once where it has begun, all of it when
    /// it is due where it has not.
    AddCubicRest { piece: Piece, at_s: Double },
    /// Add a piece of a cycle whose turns take `turn_s` to the created animation,
    /// for the turn that starts when the one that is at `at_s` ends.
    AddCubicTurn { piece: Piece, at_s: Double, turn_s: Double },
    /// From the end of that turn on, repeat it for good.
    RepeatTurn { at_s: Double, turn_s: Double },
    /// Play the created animation on the opacity.
    AnimateOpacity,
    /// Commit everything since the last commit.
    Commit,
    /// Answer with the nanoseconds on a clock that never goes back.
    ReadClock,
    /// Answer with `elapsed_ns` in seconds, or with its remainder by `cycle_s`.
    Position { elapsed_ns: u128, cycle_s: Option<Double> },
    /// Answer with `duration_s` less `elapsed_ns` in seconds.
    Remaining { duration_s: Double, elapsed_ns: u128 },
    /// Answer with the opacity on `curve` at `at_s`.
    Evaluate { curve: Curve, at_s: Double },
}

/// The answer to what was asked.
#[derive(Clone, Copy, Debug, PartialEq, Eq, Structural)]
pub enum Reply {
    Failed,
    Done,
    /// Where on the update surface the opened update starts.
    Origin(Point),
    /// The size of the update surface.
    Size { width: u32, height: u32 },
    /// A moment in nanoseconds.
    Now(u128),
    Seconds(Double),
    Opacity(Single),
}

/// One step of an update.
#[derive(Clone, Copy, Debug, PartialEq, Eq, Structural)]
pub enum Step {
    /// A command that the overlay itself is not changed by.
    Do(Command),
    /// Take the visual off its root, as far as that can be done.
    RemoveVisual,
    /// Commit that the visual is off its root, as far as that can be done.
    CommitRemoval,
    /// Go over to the created visual.
    AdoptVisual,
    /// Draw the content into a surface of this size.
    BeginDraw { target: Target, width: u32, height: u32 },
    /// Find the destination of content of this size.
    MeasureUpdate { origin: Point, width: u32, height: u32 },
    /// Write the content.
    Upload { destination: DestinationBox, width: u32, height: u32 },
    EndDraw { target: Target },
    /// Show the created surface, of this size.
    AttachSurface { width: u32, height: u32 },
    /// Play the created animation as a fade.
    PlayFade { from: Single, to: Single, started_ns: u128, duration_s: Double },
    /// Note when the cycle that plays has started.
    StartCycle,
    /// Find where in its turn a cycle is, and play on from there.
    ReadPhase { started_ns: u128, turn_s: Double },
    /// Play a cycle on from where it is.
    Phase { elapsed_ns: u128, turn_s: Double },
    /// Find how much of a fade was left, and fade on.
    ReadRemaining { to: Single, started_ns: u128, duration_s: Double },
    /// Fade on for what is left.
    Remaining { to: Single, duration_s: Double, elapsed_ns: u128 },
    /// Find where the opacity on screen is, and fade from there.
    ReadOpacity { to: Single, duration_s: Double },
    /// Fade from where the motion is.
    Position {
        to: Single,
        duration_s: Double,
        now_ns: u128,
        elapsed_ns: u128,
        cycle_s: Option<Double>,
    },
    /// Fade from a point of a curve.
    Evaluate { to: Single, duration_s: Double, now_ns: u128, curve: Curve, at_s: Double },
}

/// What is to be done next about an update.
#[derive(Clone, Copy, Debug, PartialEq, Eq)]
pub enum Progress {
    /// Ask this, and hand the answer back.
    Issue(Command),
    /// Nothing: the update is over.
    Finished(Result<(), OverlayError>),
}

/// An update of the overlay that is under way.
#[derive(Debug)]
pub struct Operation {
    /// What is left to do. The first step is the one that waits for an answer.
    pub steps: Vec<Step>,
    /// The cycle that the update plays, if it plays one.
    pub cycle: Vec<OpacitySegment>,
    /// The surface that is open for drawing.
    pub open: Option<Target>,
    /// The first thing that went wrong.
    pub failure: Option<OverlayError>,
}

/// The mathematical content of an [`Operation`].
#[verifier::ext_equal]
pub struct OperationView {
    pub steps: Seq<Step>,
    pub cycle: Seq<OpacitySegment>,
    pub open: Option<Target>,
    pub failure: Option<OverlayError>,
}

impl View for Operation {
    type V = OperationView;

    open spec fn view(&self) -> OperationView {
        OperationView {
            steps: self.steps@,
            cycle: self.cycle@,
            open: self.open,
            failure: self.failure,
        }
    }
}

impl Step {
    /// What the step asks.
    pub open spec fn asked(self) -> Command {
        match self {
            Step::Do(command) => command,
            Step::RemoveVisual => Command::RemoveVisual,
            Step::CommitRemoval => Command::Commit,
            Step::AdoptVisual => Command::AdoptVisual,
            Step::BeginDraw { target, width, height } => Command::BeginDraw {
                target,
                width,
                height,
            },
            Step::MeasureUpdate { .. } => Command::MeasureUpdate,
            Step::Upload { destination, width, height } => Command::Upload {
                destination,
                width,
                height,
            },
            Step::EndDraw { target } => Command::EndDraw { target },
            Step::AttachSurface { .. } => Command::AttachSurface,
            Step::PlayFade { .. } => Command::AnimateOpacity,
            Step::StartCycle => Command::ReadClock,
            Step::ReadPhase { .. } => Command::ReadClock,
            Step::Phase { elapsed_ns, turn_s } => Command::Position {
                elapsed_ns,
                cycle_s: Some(turn_s),
            },
            Step::ReadRemaining { .. } => Command::ReadClock,
            Step::Remaining { duration_s, elapsed_ns, .. } => Command::Remaining {
                duration_s,
                elapsed_ns,
            },
            Step::ReadOpacity { .. } => Command::ReadClock,
            Step::Position { elapsed_ns, cycle_s, .. } => Command::Position {
                elapsed_ns,
                cycle_s,
            },
            Step::Evaluate { curve, at_s, .. } => Command::Evaluate { curve, at_s },
        }
    }

    /// What the step asks.
    pub fn command(self) -> (command: Command)
        ensures
            command == self.asked(),
    {
        match self {
            Step::Do(command) => command,
            Step::RemoveVisual => Command::RemoveVisual,
            Step::CommitRemoval => Command::Commit,
            Step::AdoptVisual => Command::AdoptVisual,
            Step::BeginDraw { target, width, height } => Command::BeginDraw {
                target,
                width,
                height,
            },
            Step::MeasureUpdate { .. } => Command::MeasureUpdate,
            Step::Upload { destination, width, height } => Command::Upload {
                destination,
                width,
                height,
            },
            Step::EndDraw { target } => Command::EndDraw { target },
            Step::AttachSurface { .. } => Command::AttachSurface,
            Step::PlayFade { .. } => Command::AnimateOpacity,
            Step::StartCycle => Command::ReadClock,
            Step::ReadPhase { .. } => Command::ReadClock,
            Step::Phase { elapsed_ns, turn_s } => Command::Position {
                elapsed_ns,
                cycle_s: Some(turn_s),
            },
            Step::ReadRemaining { .. } => Command::ReadClock,
            Step::Remaining { duration_s, elapsed_ns, .. } => Command::Remaining {
                duration_s,
                elapsed_ns,
            },
            Step::ReadOpacity { .. } => Command::ReadClock,
            Step::Position { elapsed_ns, cycle_s, .. } => Command::Position {
                elapsed_ns,
                cycle_s,
            },
            Step::Evaluate { curve, at_s, .. } => Command::Evaluate { curve, at_s },
        }
    }

    /// The step belongs to an open surface, or draws without minding one.
    pub open spec fn needs_open(self) -> bool {
        match self {
            Step::MeasureUpdate { .. } => true,
            Step::Upload { .. } => true,
            Step::EndDraw { .. } => true,
            Step::Do(command) => command is BeginDraw || command is MeasureUpdate
                || command is Upload || command is EndDraw,
            _ => false,
        }
    }

    /// The size that the step draws at, if it draws.
    pub open spec fn draws(self) -> Option<(u32, u32)> {
        match self {
            Step::BeginDraw { width, height, .. } => Some((width, height)),
            Step::MeasureUpdate { width, height, .. } => Some((width, height)),
            Step::Upload { width, height, .. } => Some((width, height)),
            _ => None,
        }
    }

    /// The surface that is open once the step is done.
    pub open spec fn opens(self, open: Option<Target>) -> Option<Target> {
        match self {
            Step::BeginDraw { target, .. } => Some(target),
            Step::EndDraw { .. } => None,
            _ => open,
        }
    }
}

/// None of the steps needs an open surface.
pub open spec fn all_closed(steps: Seq<Step>) -> bool {
    forall|i: int| 0 <= i < steps.len() ==> !(#[trigger] steps[i]).needs_open()
}

impl OperationView {
    /// An update that has these steps before it.
    pub open spec fn of(steps: Seq<Step>, cycle: Seq<OpacitySegment>) -> OperationView {
        OperationView { steps, cycle, open: None, failure: None }
    }

    /// A surface that is open is closed by the next step or the one after it, and
    /// nothing else is drawn.
    pub open spec fn orderly(self) -> bool {
        match self.open {
            None => all_closed(self.steps),
            Some(target) => {
                ||| {
                    &&& self.steps.len() >= 1
                    &&& self.steps[0] == Step::EndDraw { target }
                    &&& all_closed(self.steps.skip(1))
                }
                ||| {
                    &&& self.steps.len() >= 2
                    &&& self.steps[0] is MeasureUpdate || self.steps[0] is Upload
                    &&& self.steps[1] == Step::EndDraw { target }
                    &&& all_closed(self.steps.skip(2))
                }
            },
        }
    }

    pub open spec fn finished(self) -> bool {
        self.steps.len() == 0
    }

    pub open spec fn succeeded(self) -> bool {
        self.finished() && self.failure is None
    }

    /// The update after its first step is done, with `more` to do in its place.
    pub open spec fn continued(self, more: Seq<Step>) -> OperationView {
        OperationView {
            steps: more + self.steps.skip(1),
            open: self.steps[0].opens(self.open),
            ..self
        }
    }

    /// The update after its first step came to nothing. All that is left is to
    /// close a surface that is open, and what went wrong first stands.
    pub open spec fn stopped(self, error: OverlayError) -> OperationView {
        let failure = Some(
            match self.failure {
                Some(first) => first,
                None => error,
            },
        );
        match (self.steps[0], self.open) {
            (Step::EndDraw { .. }, _) => OperationView {
                steps: Seq::empty(),
                open: None,
                failure,
                ..self
            },
            (_, Some(target)) => OperationView {
                steps: seq![Step::EndDraw { target }],
                failure,
                ..self
            },
            (_, None) => OperationView { steps: Seq::empty(), failure, ..self },
        }
    }
}

impl Operation {
    /// An update that has these steps before it.
    pub(crate) fn of(steps: Vec<Step>, cycle: Vec<OpacitySegment>) -> (operation: Operation)
        ensures
            operation@ == OperationView::of(steps@, cycle@),
    {
        Operation { steps, cycle, open: None, failure: None }
    }

    /// Leaves the first step, which is done, and takes up `more` in its place.
    pub(crate) fn go_on(&mut self, more: Vec<Step>)
        requires
            old(self)@.steps.len() > 0,
        ensures
            final(self)@ == old(self)@.continued(more@),
    {
        let step = self.steps.remove(0);
        let mut steps = more;
        steps.append(&mut self.steps);
        self.steps = steps;
        match step {
            Step::BeginDraw { target, .. } => self.open = Some(target),
            Step::EndDraw { .. } => self.open = None,
            _ => {},
        }
        assert(old(self)@.steps.remove(0) =~= old(self)@.steps.skip(1));
        assert(self@ =~= old(self)@.continued(more@));
    }

    /// Gives up on the first step, and on all others but the one that closes an
    /// open surface.
    pub(crate) fn stop(&mut self, error: OverlayError)
        requires
            old(self)@.steps.len() > 0,
        ensures
            final(self)@ == old(self)@.stopped(error),
    {
        let step = self.steps[0];
        let mut steps: Vec<Step> = Vec::new();
        match (step, self.open) {
            (Step::EndDraw { .. }, _) => self.open = None,
            (_, Some(target)) => steps.push(Step::EndDraw { target }),
            (_, None) => {},
        }
        self.steps = steps;
        if self.failure.is_none() {
            self.failure = Some(error);
        }
        assert(self@ =~= old(self)@.stopped(error));
    }
}

} // verus!
