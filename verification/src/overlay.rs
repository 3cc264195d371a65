//! The overlay: what it remembers, the updates it is given, and what each answer
//! of the compositor makes of an update.

use vstd::prelude::*;
use vstd::slice::slice_to_vec;
use crate::content::{
    byte_count, content_pixels, image_error, red_blue_swapped, shown_size, swap_red_blue,
    validate_draw, validate_rgba, verdict, Content, ContentView,
};
use crate::destination::{boxed, destination_box, validate_destination};
use crate::error::OverlayError;
use crate::laws::lemma_resumed_ready;
use crate::motion::{
    fade_curve, playing, playing_index, since, time_since, Curve, Motion, MotionView, Opacity,
    OpacitySegment, Piece,
};
use crate::number::{Double, Single};
use crate::operation::{Command, Operation, OperationView, Progress, Reply, Step, Target};

verus! {

/// A small visual under the composition root of a window. It is presentation
/// only, and all policy is the application's: whether to have one, when to show
/// it, where to place it, what it shows and how its opacity moves.
#[derive(Debug)]
pub struct CompositorOverlay {
    /// Whether the overlay was ever placed. Until then there is no surface.
    pub placed: bool,
    /// Whether the visual has a surface.
    pub surface: bool,
    pub x: Single,
    pub y: Single,
    /// The size of the surface, zero without one.
    pub width: u32,
    pub height: u32,
    pub content: Content,
    /// What the compositor was last told to play. It is also the remembered
    /// opacity: a rebuild restores the value this motion holds or is passing
    /// through, so the overlay never comes back at a stale one.
    pub motion: Motion,
}

/// The mathematical content of a [`CompositorOverlay`].
#[verifier::ext_equal]
pub struct OverlayView {
    pub placed: bool,
    pub surface: bool,
    pub x: Single,
    pub y: Single,
    pub width: u32,
    pub height: u32,
    pub content: ContentView,
    pub motion: MotionView,
}

impl View for CompositorOverlay {
    type V = OverlayView;

    open spec fn view(&self) -> OverlayView {
        OverlayView {
            placed: self.placed,
            surface: self.surface,
            x: self.x,
            y: self.y,
            width: self.width,
            height: self.height,
            content: self.content@,
            motion: self.motion@,
        }
    }
}

/// Hold `value`.
pub open spec fn hold_steps(value: Single) -> Seq<Step> {
    seq![Step::Do(Command::SetOpacity(value)), Step::Do(Command::Commit)]
}

/// Fade from `from` to `to`, as of `now_ns`.
pub open spec fn fade_steps(from: Single, to: Single, now_ns: u128, duration_s: Double) -> Seq<Step> {
    seq![
        Step::Do(Command::CreateAnimation),
        Step::Do(Command::AddCubic(Piece::Eased(fade_curve(from, to, duration_s)))),
        Step::Do(Command::EndAnimation { at_s: duration_s, value: to }),
        Step::PlayFade { from, to, started_ns: now_ns, duration_s },
        Step::Do(Command::Commit),
    ]
}

/// Add a piece for each of `segments`.
pub open spec fn piece_steps(segments: Seq<OpacitySegment>) -> Seq<Step> {
    segments.map_values(|segment: OpacitySegment| Step::Do(Command::AddCubic(segment.as_piece())))
}

/// Play `segments` again and again. Without segments there is nothing to play.
pub open spec fn cycle_steps(segments: Seq<OpacitySegment>) -> Seq<Step> {
    if segments.len() == 0 {
        Seq::empty()
    } else {
        let length_s = segments.last().end_s;
        seq![Step::Do(Command::CreateAnimation)] + piece_steps(segments) + seq![
            Step::Do(Command::RepeatAnimation { begin_s: length_s, duration_s: length_s }),
            Step::Do(Command::AnimateOpacity),
            Step::StartCycle,
            Step::Do(Command::Commit),
        ]
    }
}

/// Draw the content into a new surface of `size`, and have the visual show it.
pub open spec fn recreate_steps(size: (u32, u32)) -> Seq<Step> {
    seq![
        Step::Do(Command::CreateSurface { width: size.0, height: size.1 }),
        Step::BeginDraw { target: Target::Fresh, width: size.0, height: size.1 },
        Step::AttachSurface { width: size.0, height: size.1 },
    ]
}

/// Move the visual to `x`, `y`, and commit.
pub open spec fn position_steps(x: Single, y: Single) -> Seq<Step> {
    seq![
        Step::Do(Command::SetOffsetX(x)),
        Step::Do(Command::SetOffsetY(y)),
        Step::Do(Command::Commit),
    ]
}

/// Play the turn of a cycle that is at `at_s` to its end, and whole turns from
/// then on. Without segments there is nothing to play.
pub open spec fn turn_steps(segments: Seq<OpacitySegment>, at_s: Double, turn_s: Double) -> Seq<
    Step,
> {
    if segments.len() == 0 {
        Seq::empty()
    } else {
        seq![Step::Do(Command::CreateAnimation)] + segments.skip(
            playing(segments, at_s),
        ).map_values(
            |segment: OpacitySegment|
                Step::Do(Command::AddCubicRest { piece: segment.as_piece(), at_s }),
        ) + segments.map_values(
            |segment: OpacitySegment|
                Step::Do(Command::AddCubicTurn { piece: segment.as_piece(), at_s, turn_s }),
        ) + seq![
            Step::Do(Command::RepeatTurn { at_s, turn_s }),
            Step::Do(Command::AnimateOpacity),
            Step::Do(Command::Commit),
        ]
    }
}

/// Take up `motion` again on a new visual: a cycle goes on where it is, a fade
/// goes on toward its target for the time it had left, anything else holds. A
/// cycle that takes no time is at one value wherever it is, and starts again.
pub open spec fn replay_steps(motion: MotionView) -> Seq<Step> {
    match motion {
        MotionView::Hold(value) => hold_steps(value),
        MotionView::Fade { to, started_ns, duration_s, .. } => seq![
            Step::ReadRemaining { to, started_ns, duration_s },
        ],
        MotionView::Breathe { started_ns, segments } => match motion.cycle() {
            Some(turn_s) => seq![Step::ReadPhase { started_ns, turn_s }],
            None => cycle_steps(segments),
        },
    }
}

/// The cycle that taking up `motion` again plays.
pub open spec fn replay_cycle(motion: MotionView) -> Seq<OpacitySegment> {
    match motion {
        MotionView::Breathe { segments, .. } => segments,
        _ => Seq::empty(),
    }
}

impl OverlayView {
    /// What is remembered can be shown, only an overlay that was placed has a
    /// surface, and only a surface has a size.
    pub open spec fn wf(self) -> bool {
        &&& self.content.wf()
        &&& self.motion.wf()
        &&& self.surface ==> self.placed
        &&& !self.surface ==> self.width == 0 && self.height == 0
    }

    /// The content covers what the step draws, what it uploads is as large as the
    /// box it is written to, and it attaches a surface only once the overlay was
    /// placed.
    pub open spec fn covers(self, step: Step) -> bool {
        &&& step is AttachSurface ==> self.placed
        &&& step.draws() matches Some(size) ==> self.content.draw_error(size.0, size.1) is None
        &&& step matches Step::Upload { destination, width, height } ==> {
            &&& destination.right - destination.left == width
            &&& destination.bottom - destination.top == height
            &&& destination.front == 0
            &&& destination.back == 1
        }
    }

    /// The update can be carried out on this overlay: its surfaces are closed in
    /// order, the content covers all that it draws, and a cycle that it starts has
    /// a segment.
    pub open spec fn ready(self, operation: OperationView) -> bool {
        &&& operation.orderly()
        &&& forall|i: int|
            0 <= i < operation.steps.len() ==> self.covers(#[trigger] operation.steps[i])
        &&& forall|i: int|
            0 <= i < operation.steps.len() ==> (#[trigger] operation.steps[i] is StartCycle
                ==> operation.cycle.len() > 0)
    }

    /// The overlay as it starts: nowhere, without a surface, and invisible until
    /// the first fade brings it in.
    pub open spec fn initial() -> OverlayView {
        OverlayView {
            placed: false,
            surface: false,
            x: Single { bits: 0 },
            y: Single { bits: 0 },
            width: 0,
            height: 0,
            content: ContentView::Solid(seq![0u8, 0, 0, 255]),
            motion: MotionView::Hold(Single { bits: 0 }),
        }
    }

    /// The size of the surface.
    pub open spec fn size(self) -> (u32, u32) {
        (self.width, self.height)
    }

    /// The size at which the content shows where it is placed at `placed`.
    pub open spec fn shown(self, placed: (u32, u32)) -> (u32, u32) {
        self.content.shown(placed)
    }

    /// What it takes to have a surface of `size`.
    pub open spec fn resize_steps(self, size: (u32, u32)) -> Seq<Step> {
        if self.size() != size {
            recreate_steps(size)
        } else {
            Seq::empty()
        }
    }

    /// What it takes to have the surface, if there is one, show the content.
    pub open spec fn redraw_steps(self) -> Seq<Step> {
        if !self.surface {
            Seq::empty()
        } else if self.shown(self.size()) != self.size() {
            recreate_steps(self.shown(self.size()))
        } else {
            seq![
                Step::BeginDraw {
                    target: Target::Attached,
                    width: self.width,
                    height: self.height,
                },
            ]
        }
    }

    /// Go over to a new visual, and show there what was shown. An overlay that was
    /// never placed has no surface to come back.
    pub open spec fn rebuild_steps(self) -> Seq<Step> {
        let size = self.shown(self.size());
        seq![
            Step::Do(Command::CreateVisual),
            Step::RemoveVisual,
            Step::AdoptVisual,
            Step::Do(Command::ClearContent),
            Step::Do(Command::AddVisual),
        ] + (if self.placed && size.0 > 0 && size.1 > 0 {
            recreate_steps(size)
        } else {
            Seq::empty()
        }) + position_steps(self.x, self.y) + replay_steps(self.motion)
    }

    /// The overlay placed at `x`, `y` in `size`, and the update that does it.
    pub open spec fn placing(self, x: Single, y: Single, size: (u32, u32)) -> (
        OverlayView,
        OperationView,
    ) {
        (
            OverlayView { placed: true, x, y, ..self },
            OperationView::of(
                self.resize_steps(self.shown(size)) + position_steps(x, y),
                Seq::empty(),
            ),
        )
    }

    /// The overlay showing `content`, and the update that does it.
    pub open spec fn showing(self, content: ContentView) -> (OverlayView, OperationView) {
        let overlay = OverlayView { content, ..self };
        (
            overlay,
            OperationView::of(
                overlay.redraw_steps().push(Step::Do(Command::Commit)),
                Seq::empty(),
            ),
        )
    }

    /// The overlay holding `opacity`, and the update that does it.
    pub open spec fn holding(self, opacity: Single) -> (OverlayView, OperationView) {
        (
            OverlayView { motion: MotionView::Hold(opacity), ..self },
            OperationView::of(hold_steps(opacity), Seq::empty()),
        )
    }

    /// The bytes of `width`x`height` pixels of the content can be held in memory,
    /// and those of a row counted.
    pub open spec fn drawable(self, width: u32, height: u32) -> bool {
        &&& width * 4 <= u32::MAX
        &&& self.content is Solid ==> byte_count(width, height) <= isize::MAX
    }

    /// The update that creates the overlay's visual.
    pub open spec fn creating() -> OperationView {
        OperationView::of(
            seq![
                Step::Do(Command::CreateVisual),
                Step::AdoptVisual,
                Step::Do(Command::ClearContent),
                Step::Do(Command::AddVisual),
                Step::Do(Command::SetOffsetX(Single { bits: 0 })),
                Step::Do(Command::SetOffsetY(Single { bits: 0 })),
                Step::Do(Command::SetOpacity(Single { bits: 0 })),
                Step::Do(Command::Commit),
            ],
            Seq::empty(),
        )
    }

    /// The update that fades to `to` over `duration_s`.
    pub open spec fn fading_to(to: Single, duration_s: Double) -> OperationView {
        OperationView::of(seq![Step::ReadOpacity { to, duration_s }], Seq::empty())
    }

    /// The update that repeats `segments`.
    pub open spec fn breathing(segments: Seq<OpacitySegment>) -> OperationView {
        OperationView::of(cycle_steps(segments), segments)
    }

    /// The update that takes the visual off its root.
    pub open spec fn detaching() -> OperationView {
        OperationView::of(seq![Step::RemoveVisual], Seq::empty())
    }

    /// The update that takes the overlay to a new device.
    pub open spec fn rebuilding(self) -> OperationView {
        OperationView::of(self.rebuild_steps(), replay_cycle(self.motion))
    }

    /// The overlay without the surface that a lost device had.
    pub open spec fn without_surface(self) -> OverlayView {
        OverlayView { surface: false, width: 0, height: 0, ..self }
    }

    /// The overlay, and what is left to do, where a fade of `duration_s` to `to`
    /// finds the opacity at `from`.
    pub open spec fn fading(
        self,
        from: Single,
        to: Single,
        now_ns: u128,
        duration_s: Double,
    ) -> (OverlayView, Seq<Step>) {
        if duration_s.is_at_most_zero() || from.is_equal(to) {
            (OverlayView { motion: MotionView::Hold(to), ..self }, hold_steps(to))
        } else {
            (self, fade_steps(from, to, now_ns, duration_s))
        }
    }

    /// What the answer `reply` to `step` makes of the overlay, and what is to be
    /// done in the place of the step; or why the step came to nothing. A reply
    /// that does not answer the step counts as a failure of the device.
    pub open spec fn settled(
        self,
        cycle: Seq<OpacitySegment>,
        step: Step,
        reply: Reply,
    ) -> Result<(OverlayView, Seq<Step>), OverlayError> {
        match (step, reply) {
            (Step::Do(_), Reply::Done) => Ok((self, Seq::empty())),
            (Step::RemoveVisual, Reply::Done) => Ok((self, seq![Step::CommitRemoval])),
            (Step::RemoveVisual, _) => Ok((self, Seq::empty())),
            (Step::CommitRemoval, _) => Ok((self, Seq::empty())),
            (Step::AdoptVisual, Reply::Done) => Ok((self.without_surface(), Seq::empty())),
            (Step::BeginDraw { target, width, height }, Reply::Origin(origin)) => Ok(
                (
                    self,
                    seq![
                        Step::MeasureUpdate { origin, width, height },
                        Step::EndDraw { target },
                    ],
                ),
            ),
            (
                Step::MeasureUpdate { origin, width, height },
                Reply::Size { width: update_width, height: update_height },
            ) => match boxed(width, height, origin) {
                None => Err(OverlayError::OffsetOutside),
                Some(destination) => if destination.inside(update_width, update_height) {
                    Ok((self, seq![Step::Upload { destination, width, height }]))
                } else {
                    Err(
                        OverlayError::DestinationOutside {
                            right: destination.right,
                            bottom: destination.bottom,
                            update_width,
                            update_height,
                        },
                    )
                },
            },
            (Step::Upload { .. }, Reply::Done) => Ok((self, Seq::empty())),
            (Step::EndDraw { .. }, Reply::Done) => Ok((self, Seq::empty())),
            (Step::AttachSurface { width, height }, Reply::Done) => Ok(
                (OverlayView { surface: true, width, height, ..self }, Seq::empty()),
            ),
            (Step::PlayFade { from, to, started_ns, duration_s }, Reply::Done) => Ok(
                (
                    OverlayView {
                        motion: MotionView::Fade { from, to, started_ns, duration_s },
                        ..self
                    },
                    Seq::empty(),
                ),
            ),
            (Step::StartCycle, Reply::Now(now_ns)) => Ok(
                (
                    OverlayView {
                        motion: MotionView::Breathe { started_ns: now_ns, segments: cycle },
                        ..self
                    },
                    Seq::empty(),
                ),
            ),
            (Step::ReadPhase { started_ns, turn_s }, Reply::Now(now_ns)) => Ok(
                (
                    self,
                    seq![Step::Phase { elapsed_ns: since(started_ns, now_ns), turn_s }],
                ),
            ),
            (Step::Phase { turn_s, .. }, Reply::Seconds(at_s)) => Ok(
                (self, turn_steps(cycle, at_s, turn_s)),
            ),
            (Step::ReadRemaining { to, started_ns, duration_s }, Reply::Now(now_ns)) => Ok(
                (
                    self,
                    seq![
                        Step::Remaining {
                            to,
                            duration_s,
                            elapsed_ns: since(started_ns, now_ns),
                        },
                    ],
                ),
            ),
            (Step::Remaining { to, .. }, Reply::Seconds(remaining_s)) => Ok(
                (self, seq![Step::ReadOpacity { to, duration_s: remaining_s }]),
            ),
            (Step::ReadOpacity { to, duration_s }, Reply::Now(now_ns)) => Ok(
                (
                    self,
                    seq![
                        Step::Position {
                            to,
                            duration_s,
                            now_ns,
                            elapsed_ns: self.motion.elapsed(now_ns),
                            cycle_s: self.motion.cycle(),
                        },
                    ],
                ),
            ),
            (Step::Position { to, duration_s, now_ns, .. }, Reply::Seconds(at_s)) => Ok(
                match self.motion.value(at_s) {
                    Opacity::Known(from) => self.fading(from, to, now_ns, duration_s),
                    Opacity::OnCurve { curve, at_s } => (
                        self,
                        seq![Step::Evaluate { to, duration_s, now_ns, curve, at_s }],
                    ),
                },
            ),
            (Step::Evaluate { to, duration_s, now_ns, .. }, Reply::Opacity(from)) => Ok(
                self.fading(from, to, now_ns, duration_s),
            ),
            _ => Err(OverlayError::Device),
        }
    }

    /// The update with its first step looked at: content that its surface cannot
    /// take is rejected before the surface is opened.
    pub open spec fn checked(self, operation: OperationView) -> OperationView {
        if operation.finished() {
            operation
        } else {
            match operation.steps[0] {
                Step::BeginDraw { width, height, .. } => match self.content.draw_error(width, height) {
                    Some(error) => operation.stopped(error),
                    None => operation,
                },
                _ => operation,
            }
        }
    }

    /// The overlay and the update after the answer `reply` to its first step.
    pub open spec fn resumed(self, operation: OperationView, reply: Reply) -> (
        OverlayView,
        OperationView,
    ) {
        if operation.finished() {
            (self, operation)
        } else {
            match self.settled(operation.cycle, operation.steps[0], reply) {
                Ok((overlay, more)) => (overlay, operation.continued(more)),
                Err(error) => (self, operation.stopped(error)),
            }
        }
    }

    /// What is next about an update.
    pub open spec fn next(operation: OperationView) -> Progress {
        if operation.finished() {
            Progress::Finished(verdict(operation.failure))
        } else {
            Progress::Issue(operation.steps[0].asked())
        }
    }
}

impl CompositorOverlay {
    /// The overlay, and what puts its visual under the composition root as the
    /// topmost child. It starts hidden and contentless.
    pub fn new() -> (created: (CompositorOverlay, Operation))
        ensures
            created.0@ == OverlayView::initial(),
            created.0@.wf() && created.0@.ready(created.1@),
            created.1@ == OverlayView::creating(),
            created.1@ == OperationView::of(
                seq![
                    Step::Do(Command::CreateVisual),
                    Step::AdoptVisual,
                    Step::Do(Command::ClearContent),
                    Step::Do(Command::AddVisual),
                    Step::Do(Command::SetOffsetX(Single { bits: 0 })),
                    Step::Do(Command::SetOffsetY(Single { bits: 0 })),
                    Step::Do(Command::SetOpacity(Single { bits: 0 })),
                    Step::Do(Command::Commit),
                ],
                Seq::empty(),
            ),
    {
        let overlay = CompositorOverlay {
            placed: false,
            surface: false,
            x: Single::zero(),
            y: Single::zero(),
            width: 0,
            height: 0,
            content: Content::Solid([0, 0, 0, 255]),
            motion: Motion::Hold(Single::zero()),
        };
        let steps: Vec<Step> = vec![
            Step::Do(Command::CreateVisual),
            Step::AdoptVisual,
            Step::Do(Command::ClearContent),
            Step::Do(Command::AddVisual),
            Step::Do(Command::SetOffsetX(Single::zero())),
            Step::Do(Command::SetOffsetY(Single::zero())),
            Step::Do(Command::SetOpacity(Single::zero())),
            Step::Do(Command::Commit),
        ];
        assert(overlay@ =~~= OverlayView::initial());
        let operation = Operation::of(steps, Vec::new());
        assert(operation@ =~= OperationView::of(steps@, Seq::empty()));
        (overlay, operation)
    }

    /// Recreates the overlay's composition resources on a fresh device after
    /// device loss. Position, content and opacity are kept.
    ///
    /// The surface of an overlay that was placed comes back from the remembered
    /// content, so its size is the one at which that content shows. The animation
    /// died with the lost device: a cycle goes on where it is, and a fade finishes
    /// its remaining time toward the same target, where holding it would strand
    /// the overlay half faded.
    pub fn rebuild(&self) -> (operation: Operation)
        ensures
            operation@ == self@.rebuilding(),
            self@.wf() ==> self@.ready(operation@),
    {
        let (width, height) = shown_size(&self.content, (self.width, self.height));
        let mut steps: Vec<Step> = vec![
            Step::Do(Command::CreateVisual),
            Step::RemoveVisual,
            Step::AdoptVisual,
            Step::Do(Command::ClearContent),
            Step::Do(Command::AddVisual),
        ];
        if self.placed && width > 0 && height > 0 {
            push_recreate(&mut steps, width, height);
        }
        push_position(&mut steps, self.x, self.y);
        let cycle = match &self.motion {
            Motion::Hold(value) => {
                push_hold(&mut steps, *value);
                Vec::new()
            },
            Motion::Fade { to, started_ns, duration_s, .. } => {
                steps.push(
                    Step::ReadRemaining {
                        to: *to,
                        started_ns: *started_ns,
                        duration_s: *duration_s,
                    },
                );
                Vec::new()
            },
            Motion::Breathe { started_ns, segments } => {
                match self.motion.cycle() {
                    Some(turn_s) => steps.push(
                        Step::ReadPhase { started_ns: *started_ns, turn_s },
                    ),
                    None => push_cycle(&mut steps, segments.as_slice()),
                }
                slice_to_vec(segments.as_slice())
            },
        };
        assert(steps@ =~= self@.rebuild_steps());
        Operation::of(steps, cycle)
    }

    /// Places the overlay at `x`, `y` in the size at which the remembered content
    /// shows, on a new surface where the present one has another size.
    ///
    /// The position always applies. The size applies only where the content can
    /// fill it: a placement that an image does not fill leaves the surface, and
    /// the complete image in it, alone.
    pub fn set_geometry_impl(&mut self, x: Single, y: Single, width: u32, height: u32) -> (operation:
        Operation)
        ensures
            (final(self)@, operation@) == old(self)@.placing(x, y, (width, height)),
            final(self).x == x && final(self).y == y && final(self).placed,
            old(self)@.wf() ==> final(self)@.wf() && final(self)@.ready(operation@),
    {
        self.placed = true;
        self.x = x;
        self.y = y;
        let (shown_width, shown_height) = shown_size(&self.content, (width, height));
        let mut steps: Vec<Step> = Vec::new();
        if self.width != shown_width || self.height != shown_height {
            push_recreate(&mut steps, shown_width, shown_height);
        }
        push_position(&mut steps, x, y);
        assert(self@ =~= OverlayView { placed: true, x, y, ..old(self)@ });
        assert(steps@ =~= old(self)@.resize_steps(old(self)@.shown((width, height)))
            + position_steps(x, y));
        let operation = Operation::of(steps, Vec::new());
        assert(operation@ =~= OperationView::of(steps@, Seq::empty()));
        operation
    }

    /// Shows a solid color, given as its premultiplied pixel.
    pub fn set_color_impl(&mut self, pixel: [u8; 4]) -> (operation: Operation)
        ensures
            (final(self)@, operation@) == old(self)@.showing(ContentView::Solid(pixel@)),
            final(self).content == Content::Solid(pixel),
            old(self)@.wf() ==> final(self)@.wf() && final(self)@.ready(operation@),
    {
        self.content = Content::Solid(pixel);
        let mut steps: Vec<Step> = Vec::new();
        if self.surface {
            steps.push(
                Step::BeginDraw {
                    target: Target::Attached,
                    width: self.width,
                    height: self.height,
                },
            );
        }
        steps.push(Step::Do(Command::Commit));
        assert(self@ =~= OverlayView { content: ContentView::Solid(pixel@), ..old(self)@ });
        assert(steps@ =~= self@.redraw_steps().push(Step::Do(Command::Commit)));
        let operation = Operation::of(steps, Vec::new());
        assert(operation@ =~= OperationView::of(steps@, Seq::empty()));
        operation
    }

    /// Shows an image. One that is not the buffer it claims to be is rejected
    /// before it becomes the remembered content.
    ///
    /// An image shows at its own raster size, so one of another size brings a new
    /// surface with it, drawn before it is attached.
    pub fn set_content_rgba_impl(&mut self, width: u32, height: u32, pixels: &[u8]) -> (started:
        Result<Operation, OverlayError>)
        ensures
            match image_error(width, height, pixels@.len()) {
                Some(error) => {
                    &&& started == Err::<Operation, OverlayError>(error)
                    &&& final(self)@ == old(self)@
                },
                None => {
                    &&& started is Ok
                    &&& (final(self)@, started->Ok_0@) == old(self)@.showing(
                        ContentView::Rgba { width, height, pixels: pixels@ },
                    )
                },
            },
            old(self)@.wf() ==> final(self)@.wf() && (started matches Ok(operation)
                ==> final(self)@.ready(operation@)),
    {
        match validate_rgba(width, height, pixels) {
            Ok(()) => {},
            Err(error) => {
                return Err(error);
            },
        }
        self.content = Content::Rgba { width, height, pixels: slice_to_vec(pixels) };
        let mut steps: Vec<Step> = Vec::new();
        if self.surface {
            let (shown_width, shown_height) = shown_size(&self.content, (self.width, self.height));
            if shown_width != self.width || shown_height != self.height {
                push_recreate(&mut steps, shown_width, shown_height);
            } else {
                steps.push(
                    Step::BeginDraw {
                        target: Target::Attached,
                        width: self.width,
                        height: self.height,
                    },
                );
            }
        }
        steps.push(Step::Do(Command::Commit));
        assert(self@ =~~= OverlayView {
            content: ContentView::Rgba { width, height, pixels: pixels@ },
            ..old(self)@
        });
        assert(steps@ =~= self@.redraw_steps().push(Step::Do(Command::Commit)));
        let operation = Operation::of(steps, Vec::new());
        assert(operation@ =~= OperationView::of(steps@, Seq::empty()));
        Ok(operation)
    }

    /// Stops any compositor animation and holds `opacity`.
    pub fn hold_impl(&mut self, opacity: Single) -> (operation: Operation)
        ensures
            (final(self)@, operation@) == old(self)@.holding(opacity),
            final(self).motion == Motion::Hold(opacity),
            old(self)@.wf() ==> final(self)@.wf() && final(self)@.ready(operation@),
    {
        self.motion = Motion::Hold(opacity);
        let mut steps: Vec<Step> = Vec::new();
        push_hold(&mut steps, opacity);
        assert(self@ =~= OverlayView { motion: MotionView::Hold(opacity), ..old(self)@ });
        assert(steps@ =~= hold_steps(opacity));
        let operation = Operation::of(steps, Vec::new());
        assert(operation@ =~= OperationView::of(steps@, Seq::empty()));
        operation
    }

    /// Fades to `target` over `duration_s`, from the opacity that is on screen
    /// when the update gets to look: the tail of a previous fade, or the phase of
    /// a running cycle. No transition ever snaps.
    pub fn fade_impl(&self, target: Single, duration_s: Double) -> (operation: Operation)
        ensures
            operation@ == OperationView::of(
                seq![Step::ReadOpacity { to: target, duration_s }],
                Seq::empty(),
            ),
            operation@ == OverlayView::fading_to(target, duration_s),
            self@.ready(operation@),
    {
        let steps: Vec<Step> = vec![Step::ReadOpacity { to: target, duration_s }];
        let operation = Operation::of(steps, Vec::new());
        assert(operation@ =~= OperationView::of(steps@, Seq::empty()));
        operation
    }

    /// Repeats `segments` for good. Without segments nothing is done.
    pub fn breathe_impl(&self, segments: &[OpacitySegment]) -> (operation: Operation)
        ensures
            operation@ == OperationView::of(cycle_steps(segments@), segments@),
            operation@ == OverlayView::breathing(segments@),
            self@.ready(operation@),
    {
        let mut steps: Vec<Step> = Vec::new();
        push_cycle(&mut steps, segments);
        assert(steps@ =~= cycle_steps(segments@));
        Operation::of(steps, slice_to_vec(segments))
    }

    /// Takes the overlay's visual off the composition root, and commits where that
    /// could be done. Best effort: on device loss and at shutdown the device behind
    /// the root is already gone, and a visual that cannot be removed is no failure.
    pub fn detach_visual(&self) -> (operation: Operation)
        ensures
            operation@ == OperationView::of(seq![Step::RemoveVisual], Seq::empty()),
            operation@ == OverlayView::detaching(),
            self@.ready(operation@),
    {
        let steps: Vec<Step> = vec![Step::RemoveVisual];
        let operation = Operation::of(steps, Vec::new());
        assert(operation@ =~= OperationView::of(steps@, Seq::empty()));
        operation
    }

    /// What is next about `operation`.
    ///
    /// Everything that can be rejected about the content is rejected here, before
    /// the surface is opened.
    pub fn advance(&self, operation: &mut Operation) -> (progress: Progress)
        ensures
            final(operation)@ == self@.checked(old(operation)@),
            progress == OverlayView::next(final(operation)@),
            self@.ready(old(operation)@) ==> final(operation)@ == old(operation)@,
    {
        if operation.steps.len() > 0 {
            match operation.steps[0] {
                Step::BeginDraw { width, height, .. } => {
                    match validate_draw(&self.content, width, height) {
                        Ok(()) => {},
                        Err(error) => operation.stop(error),
                    }
                },
                _ => {},
            }
        }
        if operation.steps.len() > 0 {
            Progress::Issue(operation.steps[0].command())
        } else {
            match operation.failure {
                Some(error) => Progress::Finished(Err(error)),
                None => Progress::Finished(Ok(())),
            }
        }
    }

    /// Whether [`CompositorOverlay::draw_content`] can have the bytes of
    /// `width`x`height` pixels.
    pub fn is_drawable(&self, width: u32, height: u32) -> (drawable: bool)
        ensures
            drawable == self@.drawable(width, height),
    {
        let (w, h) = (width as u128, height as u128);
        assert(0 <= w * h <= w * h * 4 <= 0x4_0000_0000_0000_0000) by (nonlinear_arith)
            requires
                0 <= w <= 0x1_0000_0000,
                0 <= h <= 0x1_0000_0000,
        ;
        let solid_fits = match &self.content {
            Content::Solid(_) => w * h * 4 <= isize::MAX as u128,
            Content::Rgba { .. } => true,
        };
        w * 4 <= u32::MAX as u128 && solid_fits
    }

    /// The bytes that [`Command::Upload`] writes for `width`x`height` pixels, in
    /// rows of the returned number of bytes.
    ///
    /// The overlay's content is red, green, blue and alpha while its surface is
    /// blue, green, red and alpha. Here red and blue change places, and nothing
    /// else knows the format of the surface.
    pub fn draw_content(&self, width: u32, height: u32) -> (drawn: (Vec<u8>, u32))
        requires
            self@.drawable(width, height),
        ensures
            drawn.0@ == red_blue_swapped(self@.content.pixels(width, height)),
            drawn.1 == width * 4,
    {
        let mut bgra = content_pixels(&self.content, width, height);
        swap_red_blue(&mut bgra);
        (bgra, width * 4)
    }

    /// Takes the answer `reply` to what `operation` asked last.
    pub fn resume(&mut self, operation: &mut Operation, reply: Reply)
        ensures
            (final(self)@, final(operation)@) == old(self)@.resumed(old(operation)@, reply),
            old(self)@.wf() && old(self)@.ready(old(operation)@) ==> final(self)@.wf()
                && final(self)@.ready(final(operation)@),
    {
        proof {
            if self@.wf() && self@.ready(operation@) {
                lemma_resumed_ready(self@, operation@, reply);
            }
        }
        if operation.steps.len() == 0 {
            return;
        }
        let step = operation.steps[0];
        match self.settle(operation, step, reply) {
            Ok(more) => operation.go_on(more),
            Err(error) => operation.stop(error),
        }
    }

    /// What `reply` makes of the overlay, and what is to be done in the place of
    /// `step`.
    fn settle(&mut self, operation: &Operation, step: Step, reply: Reply) -> (settled: Result<
        Vec<Step>,
        OverlayError,
    >)
        ensures
            match old(self)@.settled(operation@.cycle, step, reply) {
                Ok((overlay, more)) => settled is Ok && final(self)@ == overlay
                    && settled->Ok_0@ == more,
                Err(error) => settled == Err::<Vec<Step>, OverlayError>(error) && final(self)@
                    == old(self)@,
            },
    {
        let mut more: Vec<Step> = Vec::new();
        match (step, reply) {
            (Step::Do(_), Reply::Done) => {},
            (Step::RemoveVisual, Reply::Done) => more.push(Step::CommitRemoval),
            (Step::RemoveVisual, _) => {},
            (Step::CommitRemoval, _) => {},
            (Step::AdoptVisual, Reply::Done) => {
                self.surface = false;
                self.width = 0;
                self.height = 0;
            },
            (Step::BeginDraw { target, width, height }, Reply::Origin(origin)) => {
                more.push(Step::MeasureUpdate { origin, width, height });
                more.push(Step::EndDraw { target });
            },
            (
                Step::MeasureUpdate { origin, width, height },
                Reply::Size { width: update_width, height: update_height },
            ) => {
                match destination_box(width, height, origin) {
                    None => {
                        return Err(OverlayError::OffsetOutside);
                    },
                    Some(destination) => {
                        match validate_destination(&destination, update_width, update_height) {
                            Ok(()) => more.push(Step::Upload { destination, width, height }),
                            Err(error) => {
                                return Err(error);
                            },
                        }
                    },
                }
            },
            (Step::Upload { .. }, Reply::Done) => {},
            (Step::EndDraw { .. }, Reply::Done) => {},
            (Step::AttachSurface { width, height }, Reply::Done) => {
                self.surface = true;
                self.width = width;
                self.height = height;
            },
            (Step::PlayFade { from, to, started_ns, duration_s }, Reply::Done) => {
                self.motion = Motion::Fade { from, to, started_ns, duration_s };
            },
            (Step::StartCycle, Reply::Now(now_ns)) => {
                self.motion = Motion::Breathe {
                    started_ns: now_ns,
                    segments: slice_to_vec(operation.cycle.as_slice()),
                };
            },
            (Step::ReadPhase { started_ns, turn_s }, Reply::Now(now_ns)) => {
                more.push(Step::Phase { elapsed_ns: time_since(started_ns, now_ns), turn_s });
            },
            (Step::Phase { turn_s, .. }, Reply::Seconds(at_s)) => {
                push_turn(&mut more, operation.cycle.as_slice(), at_s, turn_s);
            },
            (Step::ReadRemaining { to, started_ns, duration_s }, Reply::Now(now_ns)) => {
                let elapsed_ns: u128 = time_since(started_ns, now_ns);
                more.push(Step::Remaining { to, duration_s, elapsed_ns });
            },
            (Step::Remaining { to, .. }, Reply::Seconds(remaining_s)) => {
                more.push(Step::ReadOpacity { to, duration_s: remaining_s });
            },
            (Step::ReadOpacity { to, duration_s }, Reply::Now(now_ns)) => {
                more.push(
                    Step::Position {
                        to,
                        duration_s,
                        now_ns,
                        elapsed_ns: self.motion.elapsed(now_ns),
                        cycle_s: self.motion.cycle(),
                    },
                );
            },
            (Step::Position { to, duration_s, now_ns, .. }, Reply::Seconds(at_s)) => {
                match self.motion.value_at(at_s) {
                    Opacity::Known(from) => {
                        more = self.fade_from(from, to, now_ns, duration_s);
                    },
                    Opacity::OnCurve { curve, at_s } => more.push(
                        Step::Evaluate { to, duration_s, now_ns, curve, at_s },
                    ),
                }
            },
            (Step::Evaluate { to, duration_s, now_ns, .. }, Reply::Opacity(from)) => {
                more = self.fade_from(from, to, now_ns, duration_s);
            },
            _ => {
                return Err(OverlayError::Device);
            },
        }
        proof {
            let expected = old(self)@.settled(operation@.cycle, step, reply);
            assert(expected is Ok);
            assert(self@ =~~= expected->Ok_0.0);
            assert(more@ =~= expected->Ok_0.1);
        }
        Ok(more)
    }

    /// Starts a fade to `to` from the opacity `from` on screen at `now_ns`, or
    /// holds `to` where there is no way or no time to go.
    fn fade_from(&mut self, from: Single, to: Single, now_ns: u128, duration_s: Double) -> (steps:
        Vec<Step>)
        ensures
            (final(self)@, steps@) == old(self)@.fading(from, to, now_ns, duration_s),
    {
        let mut steps: Vec<Step> = Vec::new();
        if duration_s.at_most_zero() || from.equals(to) {
            self.motion = Motion::Hold(to);
            push_hold(&mut steps, to);
        } else {
            let curve = Curve { from, to, start_s: Double::zero(), end_s: duration_s };
            steps.push(Step::Do(Command::CreateAnimation));
            steps.push(Step::Do(Command::AddCubic(Piece::Eased(curve))));
            steps.push(Step::Do(Command::EndAnimation { at_s: duration_s, value: to }));
            steps.push(Step::PlayFade { from, to, started_ns: now_ns, duration_s });
            steps.push(Step::Do(Command::Commit));
        }
        proof {
            let expected = old(self)@.fading(from, to, now_ns, duration_s);
            assert(self@ =~= expected.0);
            assert(steps@ =~= expected.1);
        }
        steps
    }
}

fn push_hold(steps: &mut Vec<Step>, value: Single)
    ensures
        final(steps)@ == old(steps)@ + hold_steps(value),
{
    steps.push(Step::Do(Command::SetOpacity(value)));
    steps.push(Step::Do(Command::Commit));
    assert(steps@ =~= old(steps)@ + hold_steps(value));
}

fn push_recreate(steps: &mut Vec<Step>, width: u32, height: u32)
    ensures
        final(steps)@ == old(steps)@ + recreate_steps((width, height)),
{
    steps.push(Step::Do(Command::CreateSurface { width, height }));
    steps.push(Step::BeginDraw { target: Target::Fresh, width, height });
    steps.push(Step::AttachSurface { width, height });
    assert(steps@ =~= old(steps)@ + recreate_steps((width, height)));
}

fn push_position(steps: &mut Vec<Step>, x: Single, y: Single)
    ensures
        final(steps)@ == old(steps)@ + position_steps(x, y),
{
    steps.push(Step::Do(Command::SetOffsetX(x)));
    steps.push(Step::Do(Command::SetOffsetY(y)));
    steps.push(Step::Do(Command::Commit));
    assert(steps@ =~= old(steps)@ + position_steps(x, y));
}

fn push_turn(steps: &mut Vec<Step>, segments: &[OpacitySegment], at_s: Double, turn_s: Double)
    ensures
        final(steps)@ == old(steps)@ + turn_steps(segments@, at_s, turn_s),
{
    if segments.len() == 0 {
        assert(steps@ =~= old(steps)@ + turn_steps(segments@, at_s, turn_s));
        return;
    }
    let first = playing_index(segments, at_s);
    steps.push(Step::Do(Command::CreateAnimation));
    let ghost rest = |segment: OpacitySegment|
        Step::Do(Command::AddCubicRest { piece: segment.as_piece(), at_s });
    let ghost turn = |segment: OpacitySegment|
        Step::Do(Command::AddCubicTurn { piece: segment.as_piece(), at_s, turn_s });
    let ghost before = steps@;
    let mut index: usize = first;
    while index < segments.len()
        invariant
            first <= index <= segments@.len(),
            rest == (|segment: OpacitySegment|
                Step::Do(Command::AddCubicRest { piece: segment.as_piece(), at_s })),
            steps@ =~= before + segments@.subrange(first as int, index as int).map_values(rest),
        decreases segments@.len() - index,
    {
        steps.push(Step::Do(Command::AddCubicRest { piece: segments[index].piece(), at_s }));
        index = index + 1;
    }
    assert(segments@.subrange(first as int, index as int) =~= segments@.skip(first as int));
    let ghost between = steps@;
    index = 0;
    while index < segments.len()
        invariant
            index <= segments@.len(),
            turn == (|segment: OpacitySegment|
                Step::Do(Command::AddCubicTurn { piece: segment.as_piece(), at_s, turn_s })),
            steps@ =~= between + segments@.take(index as int).map_values(turn),
        decreases segments@.len() - index,
    {
        steps.push(
            Step::Do(Command::AddCubicTurn { piece: segments[index].piece(), at_s, turn_s }),
        );
        index = index + 1;
    }
    assert(segments@.take(index as int) =~= segments@);
    steps.push(Step::Do(Command::RepeatTurn { at_s, turn_s }));
    steps.push(Step::Do(Command::AnimateOpacity));
    steps.push(Step::Do(Command::Commit));
    assert(steps@ =~= old(steps)@ + turn_steps(segments@, at_s, turn_s));
}

fn push_cycle(steps: &mut Vec<Step>, segments: &[OpacitySegment])
    ensures
        final(steps)@ == old(steps)@ + cycle_steps(segments@),
{
    if segments.len() == 0 {
        assert(steps@ =~= old(steps)@ + cycle_steps(segments@));
        return;
    }
    steps.push(Step::Do(Command::CreateAnimation));
    let ghost before = steps@;
    let mut index: usize = 0;
    while index < segments.len()
        invariant
            index <= segments@.len(),
            steps@ =~= before + piece_steps(segments@.take(index as int)),
        decreases segments@.len() - index,
    {
        steps.push(Step::Do(Command::AddCubic(segments[index].piece())));
        index = index + 1;
    }
    assert(segments@.take(index as int) =~= segments@);
    let length_s = segments[segments.len() - 1].end_s;
    steps.push(
        Step::Do(Command::RepeatAnimation { begin_s: length_s, duration_s: length_s }),
    );
    steps.push(Step::Do(Command::AnimateOpacity));
    steps.push(Step::StartCycle);
    steps.push(Step::Do(Command::Commit));
    assert(steps@ =~= old(steps)@ + cycle_steps(segments@));
}

} // verus!
