//! What is seen of an overlay once an update of it has succeeded.

use vstd::prelude::*;
use crate::content::{red_blue_swapped, ContentView};
use crate::laws::{lemma_content_and_position_stay, lemma_failure_stays, lemma_played_ready};
use crate::motion::{
    lemma_one_segment_plays, playing, plays, since, Curve, MotionView, Opacity, OpacityEase,
    OpacitySegment, Piece,
};
use crate::motion_laws::{
    faded, lemma_all_later, lemma_asked_later, lemma_cycle_is_remembered,
    lemma_fade_is_remembered, lemma_fade_looks_and_is_remembered, lemma_motion_stays,
    lemma_rebuilt_cycle_does_not_jump, lemma_success_comes_to_the_last,
    lemma_success_settles_first, plays_since_an_answer,
};
use crate::number::{lemma_double_rank_orders, Double, Single};
use crate::operation::{Command, OperationView, Reply, Step, Target};
use crate::overlay::{
    cycle_steps, fade_steps, hold_steps, piece_steps, position_steps, recreate_steps,
    replay_cycle, replay_steps, turn_steps, OverlayView,
};
use crate::screen::{
    below, is_on, moves_as, pixel_shows, plays_all, plays_on, Picture, Screen, Track, Visual,
};
use crate::size_laws::{lemma_extent_stays, lemma_rebuild_restores_what_was_shown};

verus! {

// ---- what steps do to the screen --------------------------------------------

impl Step {
    /// The step is settled by one answer, or draws, and does nothing else.
    spec fn plain(self) -> bool {
        match self {
            Step::Do(_) => true,
            Step::AdoptVisual => true,
            Step::BeginDraw { .. } => true,
            Step::AttachSurface { .. } => true,
            Step::PlayFade { .. } => true,
            Step::StartCycle => true,
            _ => false,
        }
    }
}

/// The bytes that an upload of the content writes.
spec fn written(content: ContentView, width: u32, height: u32) -> Seq<u8> {
    red_blue_swapped(content.pixels(width, height))
}

impl Screen {
    /// The surface `picture` with the content drawn into an update of this size.
    spec fn painted(
        picture: Option<Picture>,
        content: ContentView,
        width: u32,
        height: u32,
    ) -> Option<Picture> {
        match picture {
            Some(surface) => Some(
                Picture {
                    drawn: if surface.width == width && surface.height == height {
                        Some(written(content, width, height))
                    } else {
                        None
                    },
                    ..surface
                },
            ),
            None => None,
        }
    }

    /// The screen once a plain step is done.
    spec fn after_step(self, content: ContentView, step: Step) -> Screen {
        match step {
            Step::BeginDraw { target: Target::Fresh, width, height } => Screen {
                fresh: Screen::painted(self.fresh, content, width, height),
                open: None,
                ..self
            },
            Step::BeginDraw { target: Target::Attached, width, height } => Screen {
                own: Visual {
                    picture: Screen::painted(self.own.picture, content, width, height),
                    ..self.own
                },
                open: None,
                ..self
            },
            Step::StartCycle => self,
            _ => self.told(content, step.asked(), Reply::Done),
        }
    }

    /// The screen once all of the plain `steps` are done.
    spec fn after(self, content: ContentView, steps: Seq<Step>) -> Screen
        decreases steps.len(),
    {
        if steps.len() == 0 {
            self
        } else {
            self.after_step(content, steps[0]).after(content, steps.skip(1))
        }
    }
}

proof fn lemma_after_adds(screen: Screen, content: ContentView, a: Seq<Step>, b: Seq<Step>)
    ensures
        screen.after(content, a + b) == screen.after(content, a).after(content, b),
    decreases a.len(),
{
    if a.len() == 0 {
        assert(a + b =~= b);
    } else {
        assert((a + b).skip(1) =~= a.skip(1) + b);
        lemma_after_adds(screen.after_step(content, a[0]), content, a.skip(1), b);
    }
}

/// Where an update succeeds that draws next, it draws all of the content.
#[verifier::rlimit(40)]
proof fn lemma_success_draws(
    overlay: OverlayView,
    operation: OperationView,
    screen: Screen,
    target: Target,
    width: u32,
    height: u32,
    replies: Seq<Reply>,
)
    requires
        operation.open is None,
        operation.failure is None,
        !operation.finished(),
        operation.steps[0] == (Step::BeginDraw { target, width, height }),
        overlay.played(operation, replies).1.succeeded(),
    ensures
        replies.len() >= 4,
        ({
            let next = OperationView { steps: operation.steps.skip(1), ..operation };
            &&& overlay.played(operation, replies) == overlay.played(next, replies.skip(4))
            &&& overlay.screened(operation, screen, replies) == overlay.screened(
                next,
                screen.after_step(overlay.content, operation.steps[0]),
                replies.skip(4),
            )
        }),
{
    let rest = operation.steps.skip(1);
    let looked_at = overlay.checked(operation);
    if replies.len() > 0 && looked_at.failure is Some {
        let (after, next) = overlay.resumed(looked_at, replies[0]);
        lemma_failure_stays(after, next, replies.skip(1));
    }
    assert(looked_at == operation);
    assert(replies.len() > 0);
    let first = overlay.resumed(operation, replies[0]).1;
    let r1 = replies.skip(1);
    if first.failure is Some {
        lemma_failure_stays(overlay, first, r1);
    }
    let origin = replies[0]->Origin_0;
    let measure = Step::MeasureUpdate { origin, width, height };
    let close = Step::EndDraw { target };
    let second = OperationView {
        steps: seq![measure, close] + rest,
        open: Some(target),
        ..operation
    };
    assert(first =~= second);
    lemma_success_settles_first(overlay, second, r1);
    let r2 = r1.skip(1);
    let destination = crate::destination::boxed(width, height, origin)->Some_0;
    let upload = Step::Upload { destination, width, height };
    let third = OperationView { steps: seq![upload, close] + rest, ..second };
    assert(second.steps.skip(1) =~= seq![close] + rest);
    assert(overlay.resumed(second, r1[0]).1 =~= third);
    lemma_success_settles_first(overlay, third, r2);
    let r3 = r2.skip(1);
    let fourth = OperationView { steps: seq![close] + rest, ..second };
    assert(third.steps.skip(1) =~= fourth.steps);
    assert(overlay.resumed(third, r2[0]).1 =~= fourth);
    lemma_success_settles_first(overlay, fourth, r3);
    let r4 = r3.skip(1);
    let next = OperationView { steps: rest, ..operation };
    assert(fourth.steps.skip(1) =~= rest);
    assert(overlay.resumed(fourth, r3[0]).1 =~= next);
    assert(r4 =~= replies.skip(4));
    let s1 = screen.told(overlay.content, operation.steps[0].asked(), replies[0]);
    let s2 = s1.told(overlay.content, measure.asked(), r1[0]);
    let s3 = s2.told(overlay.content, upload.asked(), r2[0]);
    let s4 = s3.told(overlay.content, close.asked(), r3[0]);
    assert(s4 =~= screen.after_step(overlay.content, operation.steps[0]));
    assert(overlay.screened(operation, screen, replies) == overlay.screened(second, s1, r1));
    assert(overlay.screened(second, s1, r1) == overlay.screened(third, s2, r2));
    assert(overlay.screened(third, s2, r2) == overlay.screened(fourth, s3, r3));
    assert(overlay.screened(fourth, s3, r3) == overlay.screened(next, s4, r4));
}

/// Where an update succeeds whose steps start with plain ones, those are done, and
/// it goes on from there over the answers that are left.
#[verifier::rlimit(40)]
proof fn lemma_success_does_plain(
    overlay: OverlayView,
    operation: OperationView,
    front: Seq<Step>,
    back: Seq<Step>,
    screen: Screen,
    replies: Seq<Reply>,
) -> (left: (OverlayView, Seq<Reply>))
    requires
        operation.steps == front + back,
        operation.open is None,
        operation.failure is None,
        forall|i: int| 0 <= i < front.len() ==> (#[trigger] front[i]).plain(),
        overlay.played(operation, replies).1.succeeded(),
    ensures
        ({
            let (midway, later) = left;
            let next = OperationView { steps: back, ..operation };
            &&& overlay.played(operation, replies) == midway.played(next, later)
            &&& overlay.screened(operation, screen, replies) == midway.screened(
                next,
                screen.after(overlay.content, front),
                later,
            )
            &&& midway.content == overlay.content
            &&& (forall|i: int| 0 <= i < front.len() ==> !(#[trigger] front[i]).changes_motion())
                ==> midway.motion == overlay.motion
        }),
    decreases front.len(),
{
    if front.len() == 0 {
        assert(front + back =~= back);
        assert(operation =~= OperationView { steps: back, ..operation });
        (overlay, replies)
    } else {
        let step = front[0];
        let rest = front.skip(1);
        assert(step.plain());
        assert(forall|i: int| 0 <= i < rest.len() ==> rest[i] == front[i + 1]);
        assert(operation.steps[0] == step);
        assert(operation.steps.skip(1) =~= rest + back);
        let next = OperationView { steps: rest + back, ..operation };
        if let Step::BeginDraw { target, width, height } = step {
            lemma_success_draws(overlay, operation, screen, target, width, height, replies);
            assert(OperationView { steps: operation.steps.skip(1), ..operation } =~= next);
            lemma_success_does_plain(
                overlay,
                next,
                rest,
                back,
                screen.after_step(overlay.content, step),
                replies.skip(4),
            )
        } else {
            lemma_success_settles_first(overlay, operation, replies);
            let after = overlay.resumed(operation, replies[0]).0;
            assert(overlay.resumed(operation, replies[0]).1 =~= next);
            let told = screen.told(overlay.content, step.asked(), replies[0]);
            assert(told == screen.after_step(overlay.content, step));
            assert(overlay.screened(operation, screen, replies) == after.screened(
                next,
                told,
                replies.skip(1),
            ));
            lemma_success_does_plain(after, next, rest, back, told, replies.skip(1))
        }
    }
}

/// Where an update of plain steps succeeds, the screen is as its steps make it.
proof fn lemma_success_does_all_plain(
    overlay: OverlayView,
    operation: OperationView,
    screen: Screen,
    replies: Seq<Reply>,
)
    requires
        operation.open is None,
        operation.failure is None,
        forall|i: int| 0 <= i < operation.steps.len() ==> (#[trigger] operation.steps[i]).plain(),
        overlay.played(operation, replies).1.succeeded(),
    ensures
        overlay.screened(operation, screen, replies) == screen.after(
            overlay.content,
            operation.steps,
        ),
{
    let steps = operation.steps;
    assert(steps =~= steps + Seq::<Step>::empty());
    let (midway, later) = lemma_success_does_plain(
        overlay,
        operation,
        steps,
        Seq::empty(),
        screen,
        replies,
    );
    lemma_nothing_left(
        midway,
        OperationView { steps: Seq::empty(), ..operation },
        screen.after(overlay.content, steps),
        later,
    );
}

/// Nothing is told where nothing is left to do.
proof fn lemma_nothing_left(
    overlay: OverlayView,
    operation: OperationView,
    screen: Screen,
    replies: Seq<Reply>,
)
    requires
        operation.finished(),
    ensures
        overlay.screened(operation, screen, replies) == screen,
        overlay.played(operation, replies) == (overlay, operation),
    decreases replies.len(),
{
    if replies.len() > 0 {
        lemma_nothing_left(overlay, operation, screen, replies.skip(1));
    }
}

// ---- what is drawn ----------------------------------------------------------

/// The bytes that an upload writes are the pixels of the content.
proof fn lemma_written_shows(content: ContentView, width: u32, height: u32)
    requires
        content.whole(),
        content matches ContentView::Rgba { width: w, height: h, .. } ==> w == width && h
            == height,
    ensures
        (Picture { width, height, drawn: Some(written(content, width, height)) }).shows(content),
{
    let bytes = written(content, width, height);
    let count = width * height;
    assert(0 <= count) by (nonlinear_arith)
        requires
            0 <= width,
            0 <= height,
            count == width * height,
    ;
    assert(content.pixels(width, height).len() == count * 4);
    assert forall|index: int| 0 <= index < width * height implies #[trigger] pixel_shows(
        bytes,
        index,
        content,
    ) by {
        assert((4 * index) % 4 == 0);
        assert((4 * index + 1) % 4 == 1);
        assert((4 * index + 2) % 4 == 2);
        assert((4 * index + 3) % 4 == 3);
    }
}

proof fn lemma_after_recreate(screen: Screen, content: ContentView, size: (u32, u32))
    ensures
        screen.after(content, recreate_steps(size)) == (Screen {
            own: Visual {
                picture: Some(
                    Picture {
                        width: size.0,
                        height: size.1,
                        drawn: Some(written(content, size.0, size.1)),
                    },
                ),
                ..screen.own
            },
            fresh: None,
            open: None,
            surfaces: screen.surfaces + 1,
            ..screen
        }),
{
    reveal_with_fuel(Screen::after, 4);
}

proof fn lemma_after_position(screen: Screen, content: ContentView, x: Single, y: Single)
    ensures
        ({
            let own = Visual { x: Some(x), y: Some(y), ..screen.own };
            screen.after(content, position_steps(x, y)) == (Screen {
                own,
                shown: own,
                commits: screen.commits + 1,
                ..screen
            })
        }),
{
    reveal_with_fuel(Screen::after, 4);
}

/// A placement that succeeds is seen: the visual is where the placement says,
/// whatever it shows and wherever it was. It shows all of its content, at the size
/// of an image and else at the size of the placement, where that is not the size of
/// the surface it had; else it shows what it showed. Its opacity is left alone. All
/// of it is committed at once.
pub proof fn lemma_placement_is_seen(
    overlay: OverlayView,
    x: Single,
    y: Single,
    size: (u32, u32),
    screen: Screen,
    replies: Seq<Reply>,
)
    requires
        overlay.content.whole(),
        ({
            let (placed, operation) = overlay.placing(x, y, size);
            placed.played(operation, replies).1.succeeded()
        }),
    ensures
        ({
            let (placed, operation) = overlay.placing(x, y, size);
            let end = placed.screened(operation, screen, replies);
            let (width, height) = match overlay.content {
                ContentView::Rgba { width, height, .. } => (width, height),
                ContentView::Solid(_) => size,
            };
            &&& end.committed_once_since(screen)
            &&& end.shown.x == Some(x)
            &&& end.shown.y == Some(y)
            &&& end.shown == (Visual {
                x: Some(x),
                y: Some(y),
                picture: end.shown.picture,
                ..screen.own
            })
            &&& if overlay.width == width && overlay.height == height {
                &&& end.shown.picture == screen.own.picture
                &&& end.surfaces == screen.surfaces
            } else {
                &&& end.surfaces == screen.surfaces + 1
                &&& end.shown.picture matches Some(picture)
                &&& picture.width == width
                &&& picture.height == height
                &&& picture.shows(overlay.content)
            }
        }),
{
    let (placed, operation) = overlay.placing(x, y, size);
    lemma_success_does_all_plain(placed, operation, screen, replies);
    let shown = overlay.shown(size);
    let resize = overlay.resize_steps(shown);
    lemma_after_adds(screen, overlay.content, resize, position_steps(x, y));
    let resized = screen.after(overlay.content, resize);
    if overlay.size() != shown {
        lemma_after_recreate(screen, overlay.content, shown);
        lemma_written_shows(overlay.content, shown.0, shown.1);
    }
    lemma_after_position(resized, overlay.content, x, y);
}

/// New content that succeeds is seen: where there is a surface, the visual shows
/// all of it, an image at its own size and a color at the size there was. Without a
/// surface none comes. The position and the opacity are left alone. All of it is
/// committed at once.
pub proof fn lemma_content_is_seen(
    overlay: OverlayView,
    content: ContentView,
    screen: Screen,
    replies: Seq<Reply>,
)
    requires
        content.whole(),
        overlay.surface ==> (screen.own.picture matches Some(picture) && picture.width
            == overlay.width && picture.height == overlay.height),
        ({
            let (showing, operation) = overlay.showing(content);
            showing.played(operation, replies).1.succeeded()
        }),
    ensures
        ({
            let (showing, operation) = overlay.showing(content);
            let end = showing.screened(operation, screen, replies);
            let (width, height) = match content {
                ContentView::Rgba { width, height, .. } => (width, height),
                ContentView::Solid(_) => (overlay.width, overlay.height),
            };
            &&& end.committed_once_since(screen)
            &&& end.shown == (Visual { picture: end.shown.picture, ..screen.own })
            &&& end.surfaces == screen.surfaces + if overlay.surface && (width != overlay.width
                || height != overlay.height) {
                1nat
            } else {
                0
            }
            &&& if overlay.surface {
                &&& end.shown.picture matches Some(picture)
                &&& picture.width == width
                &&& picture.height == height
                &&& picture.shows(content)
            } else {
                end.shown.picture == screen.own.picture
            }
        }),
{
    let (showing, operation) = overlay.showing(content);
    lemma_success_does_all_plain(showing, operation, screen, replies);
    let redraw = showing.redraw_steps();
    let commit = seq![Step::Do(Command::Commit)];
    assert(operation.steps =~= redraw + commit);
    lemma_after_adds(screen, content, redraw, commit);
    reveal_with_fuel(Screen::after, 2);
    if overlay.surface {
        let size = showing.shown(showing.size());
        lemma_written_shows(content, size.0, size.1);
        if size != showing.size() {
            lemma_after_recreate(screen, content, size);
        }
    }
}

// ---- what moves -------------------------------------------------------------

/// The screen with `opacity` told of the visual and committed.
spec fn moved(screen: Screen, opacity: Track, animation: Seq<Command>) -> Screen {
    let own = Visual { opacity, ..screen.own };
    Screen { own, shown: own, animation, commits: screen.commits + 1, ..screen }
}

proof fn lemma_after_hold(screen: Screen, content: ContentView, value: Single)
    ensures
        screen.after(content, hold_steps(value)) == moved(
            screen,
            Track::Held(value),
            screen.animation,
        ),
{
    reveal_with_fuel(Screen::after, 3);
}

/// A hold that succeeds is seen: the opacity is held at the value. Nothing else
/// changes.
pub proof fn lemma_hold_is_seen(
    overlay: OverlayView,
    value: Single,
    screen: Screen,
    replies: Seq<Reply>,
)
    requires
        ({
            let (holding, operation) = overlay.holding(value);
            holding.played(operation, replies).1.succeeded()
        }),
    ensures
        ({
            let (holding, operation) = overlay.holding(value);
            let end = holding.screened(operation, screen, replies);
            &&& end.committed_once_since(screen)
            &&& end.shown == (Visual { opacity: Track::Held(value), ..screen.own })
            &&& end.surfaces == screen.surfaces
            &&& end.left == screen.left
            &&& holding.played(operation, replies).0 == (OverlayView {
                motion: MotionView::Hold(value),
                ..overlay
            })
        }),
{
    let (holding, operation) = overlay.holding(value);
    lemma_success_does_all_plain(holding, operation, screen, replies);
    lemma_after_hold(screen, overlay.content, value);
    lemma_motion_stays(holding, operation, replies);
    lemma_extent_stays(holding, operation, replies);
    lemma_content_and_position_stay(holding, operation, replies);
}

impl Step {
    /// The step adds something to the created animation.
    spec fn adds(self) -> bool {
        self matches Step::Do(command) && match command {
            Command::AddCubic(_) => true,
            Command::EndAnimation { .. } => true,
            Command::RepeatAnimation { .. } => true,
            Command::AddCubicRest { .. } => true,
            Command::AddCubicTurn { .. } => true,
            Command::RepeatTurn { .. } => true,
            _ => false,
        }
    }
}

proof fn lemma_after_adding(screen: Screen, content: ContentView, steps: Seq<Step>)
    requires
        forall|i: int| 0 <= i < steps.len() ==> (#[trigger] steps[i]).adds(),
    ensures
        screen.after(content, steps) == (Screen {
            animation: screen.animation + steps.map_values(|step: Step| step.asked()),
            ..screen
        }),
    decreases steps.len(),
{
    let asked = steps.map_values(|step: Step| step.asked());
    if steps.len() == 0 {
        assert(screen.animation + asked =~= screen.animation);
    } else {
        assert(steps[0].adds());
        let rest = steps.skip(1);
        assert(forall|i: int| 0 <= i < rest.len() ==> rest[i] == steps[i + 1]);
        let next = screen.after_step(content, steps[0]);
        lemma_after_adding(next, content, rest);
        assert(screen.animation + asked =~= next.animation + rest.map_values(
            |step: Step| step.asked(),
        ));
    }
}

/// An animation that is created, built of `steps`, played and committed.
#[verifier::rlimit(40)]
proof fn lemma_after_animation(
    screen: Screen,
    content: ContentView,
    steps: Seq<Step>,
    play: Seq<Step>,
)
    requires
        forall|i: int| 0 <= i < steps.len() ==> (#[trigger] steps[i]).adds(),
        play.len() == 2 || (play.len() == 3 && play[1] is StartCycle),
        play[0].plain(),
        !(play[0] is BeginDraw),
        !(play[0] is StartCycle),
        play[0].asked() is AnimateOpacity,
        play.last() == Step::Do(Command::Commit),
    ensures
        ({
            let animation = steps.map_values(|step: Step| step.asked());
            screen.after(content, seq![Step::Do(Command::CreateAnimation)] + steps + play)
                == moved(screen, Track::Played(animation), animation)
        }),
{
    let create = seq![Step::Do(Command::CreateAnimation)];
    let animation = steps.map_values(|step: Step| step.asked());
    lemma_after_adds(screen, content, create + steps, play);
    lemma_after_adds(screen, content, create, steps);
    let created = screen.after(content, create);
    assert(created == (Screen { animation: Seq::empty(), ..screen })) by {
        reveal_with_fuel(Screen::after, 2);
    }
    lemma_after_adding(created, content, steps);
    assert(Seq::<Command>::empty() + animation =~= animation);
    let built = created.after(content, steps);
    reveal_with_fuel(Screen::after, 4);
    assert(built.after(content, play) == moved(screen, Track::Played(animation), animation));
}

#[verifier::rlimit(40)]
proof fn lemma_after_fade(
    screen: Screen,
    content: ContentView,
    from: Single,
    to: Single,
    now_ns: u128,
    duration_s: Double,
)
    ensures
        ({
            let end = screen.after(content, fade_steps(from, to, now_ns, duration_s));
            &&& end == moved(screen, end.own.opacity, end.animation)
            &&& end.own.opacity.follows(
                MotionView::Fade { from, to, started_ns: now_ns, duration_s },
            )
        }),
{
    let curve = Curve { from, to, start_s: Double { bits: 0 }, end_s: duration_s };
    let first = Command::AddCubic(Piece::Eased(curve));
    let last = Command::EndAnimation { at_s: duration_s, value: to };
    let adding = seq![Step::Do(first), Step::Do(last)];
    let play = seq![
        Step::PlayFade { from, to, started_ns: now_ns, duration_s },
        Step::Do(Command::Commit),
    ];
    assert(fade_steps(from, to, now_ns, duration_s) =~= seq![
        Step::Do(Command::CreateAnimation),
    ] + adding + play);
    lemma_after_animation(screen, content, adding, play);
    assert(adding.map_values(|step: Step| step.asked()) =~= seq![first, last]);
}

/// Where a fade has found the opacity at `from` and succeeds, it is seen.
proof fn lemma_found_fade_is_seen(
    overlay: OverlayView,
    from: Single,
    to: Single,
    now_ns: u128,
    duration_s: Double,
    screen: Screen,
    replies: Seq<Reply>,
)
    requires
        ({
            let (fading, steps) = overlay.fading(from, to, now_ns, duration_s);
            fading.played(OperationView::of(steps, Seq::empty()), replies).1.succeeded()
        }),
    ensures
        ({
            let (fading, steps) = overlay.fading(from, to, now_ns, duration_s);
            let operation = OperationView::of(steps, Seq::empty());
            let end = fading.screened(operation, screen, replies);
            &&& end.committed_once_since(screen)
            &&& end.shown == (Visual { opacity: end.shown.opacity, ..screen.own })
            &&& end.surfaces == screen.surfaces
            &&& end.left == screen.left
            &&& end.shown.opacity.follows(fading.played(operation, replies).0.motion)
        }),
{
    let (fading, steps) = overlay.fading(from, to, now_ns, duration_s);
    let operation = OperationView::of(steps, Seq::empty());
    lemma_success_does_all_plain(fading, operation, screen, replies);
    lemma_fade_is_remembered(overlay, from, to, now_ns, duration_s, replies);
    if duration_s.is_at_most_zero() || from.is_equal(to) {
        lemma_after_hold(screen, overlay.content, to);
    } else {
        lemma_after_fade(screen, overlay.content, from, to, now_ns, duration_s);
    }
}

/// A fade that succeeds is seen: the opacity does what the fade is remembered as,
/// and that is, for the answers it got, a fade from the opacity on screen to the
/// target over the time it was given, or the target held. Nothing else changes.
#[verifier::rlimit(40)]
pub proof fn lemma_fade_is_seen(
    overlay: OverlayView,
    to: Single,
    duration_s: Double,
    screen: Screen,
    replies: Seq<Reply>,
)
    requires
        overlay.played(OverlayView::fading_to(to, duration_s), replies).1.succeeded(),
    ensures
        ({
            let operation = OverlayView::fading_to(to, duration_s);
            let end = overlay.screened(operation, screen, replies);
            let motion = overlay.played(operation, replies).0.motion;
            &&& end.committed_once_since(screen)
            &&& end.shown == (Visual { opacity: end.shown.opacity, ..screen.own })
            &&& end.surfaces == screen.surfaces
            &&& end.left == screen.left
            &&& end.shown.opacity.follows(motion)
            &&& overlay.looks_from(operation, replies, 0)
            &&& motion == faded(overlay.motion, to, duration_s, replies)
            &&& overlay.played(operation, replies).0 == (OverlayView { motion, ..overlay })
        }),
{
    let operation = OverlayView::fading_to(to, duration_s);
    lemma_fade_looks_and_is_remembered(overlay, to, duration_s, replies);
    lemma_success_settles_first(overlay, operation, replies);
    let now_ns = replies[0]->Now_0;
    let position = Step::Position {
        to,
        duration_s,
        now_ns,
        elapsed_ns: overlay.motion.elapsed(now_ns),
        cycle_s: overlay.motion.cycle(),
    };
    let second = OperationView::of(seq![position], Seq::empty());
    assert(overlay.resumed(operation, replies[0]).1 =~= second);
    let later = replies.skip(1);
    lemma_success_settles_first(overlay, second, later);
    let last = later.skip(1);
    assert(overlay.screened(operation, screen, replies) == overlay.screened(
        second,
        screen,
        later,
    ));
    match overlay.motion.value(later[0]->Seconds_0) {
        Opacity::Known(from) => {
            let (fading, steps) = overlay.fading(from, to, now_ns, duration_s);
            let third = OperationView::of(steps, Seq::empty());
            assert(overlay.resumed(second, later[0]).1 =~= third);
            assert(overlay.screened(second, screen, later) == fading.screened(
                third,
                screen,
                last,
            ));
            lemma_found_fade_is_seen(overlay, from, to, now_ns, duration_s, screen, last);
        },
        Opacity::OnCurve { curve, at_s } => {
            let evaluate = Step::Evaluate { to, duration_s, now_ns, curve, at_s };
            let third = OperationView::of(seq![evaluate], Seq::empty());
            assert(overlay.resumed(second, later[0]).1 =~= third);
            assert(overlay.screened(second, screen, later) == overlay.screened(
                third,
                screen,
                last,
            ));
            lemma_success_settles_first(overlay, third, last);
            let from = last[0]->Opacity_0;
            let (fading, steps) = overlay.fading(from, to, now_ns, duration_s);
            let fourth = OperationView::of(steps, Seq::empty());
            assert(overlay.resumed(third, last[0]).1 =~= fourth);
            assert(overlay.screened(third, screen, last) == fading.screened(
                fourth,
                screen,
                last.skip(1),
            ));
            lemma_found_fade_is_seen(
                overlay,
                from,
                to,
                now_ns,
                duration_s,
                screen,
                last.skip(1),
            );
        },
    }
}

/// The piece of a segment moves as the segment says.
pub proof fn lemma_piece_moves_as_its_segment(segment: OpacitySegment)
    ensures
        moves_as(segment.as_piece(), segment),
{
    lemma_double_rank_orders(segment.start_s, segment.end_s);
}

#[verifier::rlimit(40)]
proof fn lemma_after_cycle(screen: Screen, content: ContentView, segments: Seq<OpacitySegment>)
    requires
        segments.len() > 0,
    ensures
        ({
            let end = screen.after(content, cycle_steps(segments));
            &&& end == moved(screen, end.own.opacity, end.animation)
            &&& end.own.opacity == Track::Played(end.animation)
            &&& plays_all(end.animation, segments)
        }),
{
    let steps = cycle_steps(segments);
    let count = segments.len() as int;
    let adding = steps.subrange(1, count + 2);
    let play = steps.subrange(count + 2, count + 5);
    assert(steps =~= seq![Step::Do(Command::CreateAnimation)] + adding + play);
    assert(piece_steps(segments).len() == count);
    assert forall|i: int| 0 <= i < adding.len() implies (#[trigger] adding[i]).adds() by {
        assert(adding[i] == steps[i + 1]);
        if i < count {
            assert(steps[i + 1] == piece_steps(segments)[i]);
        }
    }
    lemma_after_animation(screen, content, adding, play);
    let animation = adding.map_values(|step: Step| step.asked());
    assert forall|i: int| 0 <= i < count implies (animation[i] matches Command::AddCubic(piece)
        && moves_as(piece, #[trigger] segments[i])) by {
        lemma_piece_moves_as_its_segment(segments[i]);
        assert(adding[i] == piece_steps(segments)[i]);
    }
}

/// A cycle that succeeds is seen: the opacity plays each of the segments, in order,
/// and from their end on all of them again. Nothing else changes. Without segments
/// nothing is seen of it.
pub proof fn lemma_cycle_is_seen(
    overlay: OverlayView,
    segments: Seq<OpacitySegment>,
    screen: Screen,
    replies: Seq<Reply>,
)
    requires
        overlay.played(OverlayView::breathing(segments), replies).1.succeeded(),
    ensures
        ({
            let operation = OverlayView::breathing(segments);
            let end = overlay.screened(operation, screen, replies);
            let after = overlay.played(operation, replies).0;
            if segments.len() == 0 {
                end == screen && after == overlay
            } else {
                &&& end.committed_once_since(screen)
                &&& end.shown == (Visual { opacity: end.shown.opacity, ..screen.own })
                &&& end.surfaces == screen.surfaces
                &&& end.left == screen.left
                &&& end.shown.opacity matches Track::Played(animation)
                &&& plays_all(animation, segments)
                &&& plays_since_an_answer(after.motion, segments, replies)
                &&& after == (OverlayView { motion: after.motion, ..overlay })
            }
        }),
{
    let operation = OverlayView::breathing(segments);
    if segments.len() == 0 {
        lemma_nothing_left(overlay, operation, screen, replies);
    } else {
        lemma_success_does_all_plain(overlay, operation, screen, replies);
        lemma_after_cycle(screen, overlay.content, segments);
        lemma_cycle_is_remembered(overlay, segments, replies);
    }
}

// ---- visuals that come and go -----------------------------------------------

/// A new overlay that succeeds is seen on its root, in the corner, with nothing to
/// show and at no opacity; and that is what it remembers.
pub proof fn lemma_new_overlay_is_seen(screen: Screen, replies: Seq<Reply>)
    requires
        OverlayView::initial().played(OverlayView::creating(), replies).1.succeeded(),
    ensures
        ({
            let zero = Single { bits: 0 };
            let operation = OverlayView::creating();
            let end = OverlayView::initial().screened(operation, screen, replies);
            &&& end.committed_once_since(screen)
            &&& end.shown == (Visual {
                alive: true,
                on_root: true,
                let_go: false,
                x: Some(zero),
                y: Some(zero),
                opacity: Track::Held(zero),
                picture: None,
            })
            &&& OverlayView::initial().played(operation, replies).0 == (OverlayView {
                placed: false,
                surface: false,
                x: zero,
                y: zero,
                width: 0,
                height: 0,
                content: ContentView::Solid(seq![0u8, 0, 0, 255]),
                motion: MotionView::Hold(zero),
            })
        }),
{
    let overlay = OverlayView::initial();
    let operation = OverlayView::creating();
    lemma_success_does_all_plain(overlay, operation, screen, replies);
    reveal_with_fuel(Screen::after, 9);
    lemma_motion_stays(overlay, operation, replies);
    lemma_content_and_position_stay(overlay, operation, replies);
    assert(overlay.ready(operation));
    lemma_played_ready(overlay, operation, replies);
    assert(overlay.played(operation, replies).0 =~= overlay);
}

/// A visual that is taken off its root, where both that and the commit are done, is
/// seen no more. Where it cannot be taken off, nothing is committed. In any case
/// the overlay remembers what it did.
pub proof fn lemma_detached_overlay_is_not_seen(
    overlay: OverlayView,
    screen: Screen,
    replies: Seq<Reply>,
)
    requires
        replies.len() >= 2,
    ensures
        ({
            let operation = OverlayView::detaching();
            let end = overlay.screened(operation, screen, replies);
            let (after, left) = overlay.played(operation, replies);
            &&& left.succeeded()
            &&& after == overlay
            &&& replies[0] is Done && replies[1] is Done ==> end.committed_once_since(screen)
                && end.shown == (Visual { on_root: false, let_go: true, ..screen.own })
            &&& !(replies[0] is Done) ==> end == screen.with(
                Visual { let_go: true, ..screen.own },
            )
            &&& replies[0] is Done && !(replies[1] is Done) ==> end == screen.with(
                Visual { on_root: false, let_go: true, ..screen.own },
            )
        }),
{
    let operation = OverlayView::detaching();
    let next = overlay.resumed(operation, replies[0]).1;
    let later = replies.skip(1);
    assert(later[0] == replies[1]);
    let told = screen.told(overlay.content, Command::RemoveVisual, replies[0]);
    assert(overlay.screened(operation, screen, replies) == overlay.screened(next, told, later));
    if replies[0] is Done {
        let second = OperationView::of(seq![Step::CommitRemoval], Seq::empty());
        assert(next =~= second);
        let third = overlay.resumed(second, replies[1]).1;
        let seen = told.told(overlay.content, Command::Commit, replies[1]);
        assert(overlay.screened(second, told, later) == overlay.screened(
            third,
            seen,
            later.skip(1),
        ));
        assert(overlay.played(operation, replies) == overlay.played(second, later));
        assert(overlay.played(second, later) == overlay.played(third, later.skip(1)));
        lemma_nothing_left(overlay, third, seen, later.skip(1));
    } else {
        lemma_nothing_left(overlay, next, told, later);
    }
}

/// Where an update succeeds that takes a visual off its root next, it goes on from
/// there. A visual that was created is still there.
proof fn lemma_success_goes_on_from_removal(
    overlay: OverlayView,
    operation: OperationView,
    screen: Screen,
    replies: Seq<Reply>,
) -> (left: (Screen, Seq<Reply>))
    requires
        operation.open is None,
        operation.failure is None,
        !operation.finished(),
        operation.steps[0] is RemoveVisual,
        overlay.played(operation, replies).1.succeeded(),
    ensures
        ({
            let (seen, later) = left;
            let next = OperationView { steps: operation.steps.skip(1), ..operation };
            &&& overlay.played(operation, replies) == overlay.played(next, later)
            &&& overlay.screened(operation, screen, replies) == overlay.screened(
                next,
                seen,
                later,
            )
            &&& seen.created == screen.created
            &&& seen.surfaces == screen.surfaces
            &&& screen.commits <= seen.commits <= screen.commits + 1
            &&& seen.own == (Visual { on_root: seen.own.on_root, let_go: true, ..screen.own })
        }),
{
    let rest = operation.steps.skip(1);
    let next = OperationView { steps: rest, ..operation };
    lemma_success_settles_first(overlay, operation, replies);
    let later = replies.skip(1);
    let told = screen.told(overlay.content, Command::RemoveVisual, replies[0]);
    let second = overlay.resumed(operation, replies[0]).1;
    assert(overlay.screened(operation, screen, replies) == overlay.screened(second, told, later));
    if replies[0] is Done {
        let removed = OperationView { steps: seq![Step::CommitRemoval] + rest, ..operation };
        assert(second =~= removed);
        lemma_success_settles_first(overlay, removed, later);
        assert(removed.steps.skip(1) =~= rest);
        assert(overlay.resumed(removed, later[0]).1 =~= next);
        let seen = told.told(overlay.content, Command::Commit, later[0]);
        assert(overlay.screened(removed, told, later) == overlay.screened(
            next,
            seen,
            later.skip(1),
        ));
        (seen, later.skip(1))
    } else {
        assert(second =~= next);
        (told, later)
    }
}

/// The surface that a rebuild brings back, with the content drawn into it.
spec fn rebuilt_picture(overlay: OverlayView) -> Option<Picture> {
    let size = overlay.shown(overlay.size());
    if overlay.placed && size.0 > 0 && size.1 > 0 {
        Some(
            Picture {
                width: size.0,
                height: size.1,
                drawn: Some(written(overlay.content, size.0, size.1)),
            },
        )
    } else {
        None
    }
}

/// A rebuild that succeeds comes to the motion with a new visual that is where the
/// overlay was and shows what it showed.
#[verifier::rlimit(40)]
proof fn lemma_rebuild_comes_to_the_motion(
    overlay: OverlayView,
    screen: Screen,
    replies: Seq<Reply>,
) -> (left: (OverlayView, Screen, Seq<Reply>))
    requires
        overlay.played(overlay.rebuilding(), replies).1.succeeded(),
    ensures
        ({
            let (midway, seen, later) = left;
            let operation = overlay.rebuilding();
            let next = OperationView::of(replay_steps(overlay.motion), operation.cycle);
            &&& overlay.played(operation, replies) == midway.played(next, later)
            &&& overlay.screened(operation, screen, replies) == midway.screened(
                next,
                seen,
                later,
            )
            &&& midway.motion == overlay.motion
            &&& midway.content == overlay.content
            &&& seen.own == (Visual {
                alive: true,
                on_root: true,
                let_go: false,
                x: Some(overlay.x),
                y: Some(overlay.y),
                opacity: Track::Unset,
                picture: rebuilt_picture(overlay),
            })
            &&& seen.shown == seen.own
            &&& screen.commits < seen.commits <= screen.commits + 2
            &&& seen.surfaces == screen.surfaces + if rebuilt_picture(overlay) is Some {
                1nat
            } else {
                0
            }
            &&& seen.left matches Some(before) && before == (Visual {
                on_root: before.on_root,
                let_go: true,
                ..screen.own
            })
        }),
{
    let operation = overlay.rebuilding();
    let size = overlay.shown(overlay.size());
    let resize = if overlay.placed && size.0 > 0 && size.1 > 0 {
        recreate_steps(size)
    } else {
        Seq::empty()
    };
    let front = adopting_steps() + resize + position_steps(overlay.x, overlay.y);
    let replay = replay_steps(overlay.motion);
    assert(operation.steps =~= seq![Step::Do(Command::CreateVisual), Step::RemoveVisual] + (front
        + replay));
    let (midway, removed, later) = lemma_success_moves_to_a_new_visual(
        overlay,
        operation,
        front,
        replay,
        screen,
        replies,
    );
    lemma_after_moving(removed, overlay.content, resize, size, overlay.x, overlay.y);
    (midway, removed.after(overlay.content, front), later)
}

/// Go over to the created visual.
spec fn adopting_steps() -> Seq<Step> {
    seq![Step::AdoptVisual, Step::Do(Command::ClearContent), Step::Do(Command::AddVisual)]
}

/// Where an update succeeds that creates a visual and takes the one there was off its
/// root, it goes on with the created one at hand.
#[verifier::rlimit(40)]
proof fn lemma_success_moves_to_a_new_visual(
    overlay: OverlayView,
    operation: OperationView,
    front: Seq<Step>,
    back: Seq<Step>,
    screen: Screen,
    replies: Seq<Reply>,
) -> (left: (OverlayView, Screen, Seq<Reply>))
    requires
        operation.open is None,
        operation.failure is None,
        operation.steps == seq![Step::Do(Command::CreateVisual), Step::RemoveVisual] + (front
            + back),
        forall|i: int| 0 <= i < front.len() ==> (#[trigger] front[i]).plain(),
        forall|i: int| 0 <= i < front.len() ==> !(#[trigger] front[i]).changes_motion(),
        overlay.played(operation, replies).1.succeeded(),
    ensures
        ({
            let (midway, removed, later) = left;
            let next = OperationView { steps: back, ..operation };
            &&& overlay.played(operation, replies) == midway.played(next, later)
            &&& overlay.screened(operation, screen, replies) == midway.screened(
                next,
                removed.after(overlay.content, front),
                later,
            )
            &&& midway.motion == overlay.motion
            &&& midway.content == overlay.content
            &&& removed.created
            &&& removed.surfaces == screen.surfaces
            &&& screen.commits <= removed.commits <= screen.commits + 1
            &&& removed.own == (Visual {
                on_root: removed.own.on_root,
                let_go: true,
                ..screen.own
            })
        }),
{
    let content = overlay.content;
    let create = seq![Step::Do(Command::CreateVisual)];
    let tail = seq![Step::RemoveVisual] + (front + back);
    assert(operation.steps =~= create + tail);
    let (first, later) = lemma_success_does_plain(
        overlay,
        operation,
        create,
        tail,
        screen,
        replies,
    );
    let created = screen.after(content, create);
    assert(created == (Screen { created: true, ..screen })) by {
        reveal_with_fuel(Screen::after, 2);
    }
    let second = OperationView { steps: tail, ..operation };
    let (removed, rest) = lemma_success_goes_on_from_removal(first, second, created, later);
    assert(tail.skip(1) =~= front + back);
    let third = OperationView { steps: front + back, ..operation };
    assert(OperationView { steps: tail.skip(1), ..second } =~= third);
    let (midway, last) = lemma_success_does_plain(first, third, front, back, removed, rest);
    (midway, removed, last)
}

proof fn lemma_after_moving(
    screen: Screen,
    content: ContentView,
    resize: Seq<Step>,
    size: (u32, u32),
    x: Single,
    y: Single,
)
    requires
        screen.created,
        resize == recreate_steps(size) || resize == Seq::<Step>::empty(),
    ensures
        ({
            let end = screen.after(content, adopting_steps() + resize + position_steps(x, y));
            &&& end.own == (Visual {
                alive: true,
                on_root: true,
                let_go: false,
                x: Some(x),
                y: Some(y),
                opacity: Track::Unset,
                picture: if resize.len() > 0 {
                    Some(
                        Picture {
                            width: size.0,
                            height: size.1,
                            drawn: Some(written(content, size.0, size.1)),
                        },
                    )
                } else {
                    None
                },
            })
            &&& end.committed_once_since(screen)
            &&& end.left == Some(screen.own)
            &&& end.surfaces == screen.surfaces + if resize.len() > 0 {
                1nat
            } else {
                0
            }
        }),
{
    let adopt = adopting_steps();
    lemma_after_adds(screen, content, adopt + resize, position_steps(x, y));
    lemma_after_adds(screen, content, adopt, resize);
    let adopted = screen.after(content, adopt);
    assert(adopted == (Screen {
        own: Visual { on_root: true, ..Visual::blank(true) },
        created: false,
        left: Some(screen.own),
        ..screen
    })) by {
        reveal_with_fuel(Screen::after, 4);
    }
    let resized = adopted.after(content, resize);
    if resize.len() > 0 {
        lemma_after_recreate(adopted, content, size);
    }
    lemma_after_position(resized, content, x, y);
}

#[verifier::rlimit(40)]
proof fn lemma_after_turn(
    screen: Screen,
    content: ContentView,
    segments: Seq<OpacitySegment>,
    at_s: Double,
)
    requires
        segments.len() > 0,
    ensures
        ({
            let end = screen.after(
                content,
                turn_steps(segments, at_s, segments.last().end_s),
            );
            let first = playing(segments, at_s);
            &&& end == moved(screen, end.own.opacity, end.animation)
            &&& end.own.opacity == Track::Played(end.animation)
            &&& is_on(segments, at_s, first)
            &&& plays_on(end.animation, segments, at_s, first)
        }),
{
    let turn_s = segments.last().end_s;
    let count = segments.len() as int;
    lemma_one_segment_plays(segments, at_s);
    let first = playing(segments, at_s);
    let left = count - first;
    lemma_is_on(segments, at_s, first);
    let rest = segments.skip(first).map_values(
        |segment: OpacitySegment|
            Step::Do(Command::AddCubicRest { piece: segment.as_piece(), at_s }),
    );
    let turn = segments.map_values(
        |segment: OpacitySegment|
            Step::Do(Command::AddCubicTurn { piece: segment.as_piece(), at_s, turn_s }),
    );
    let adding = rest + turn + seq![Step::Do(Command::RepeatTurn { at_s, turn_s })];
    let play = seq![Step::Do(Command::AnimateOpacity), Step::Do(Command::Commit)];
    assert(turn_steps(segments, at_s, turn_s) =~= seq![Step::Do(Command::CreateAnimation)]
        + adding + play);
    lemma_after_animation(screen, content, adding, play);
    let animation = adding.map_values(|step: Step| step.asked());
    assert(plays_on(animation, segments, at_s, first)) by {
        lemma_turn_plays_on(animation, adding, segments, at_s, first);
    }
}

proof fn lemma_turn_plays_on(
    animation: Seq<Command>,
    adding: Seq<Step>,
    segments: Seq<OpacitySegment>,
    at_s: Double,
    first: int,
)
    requires
        0 <= first < segments.len(),
        ({
            let turn_s = segments.last().end_s;
            let left = segments.len() - first;
            &&& animation == adding.map_values(|step: Step| step.asked())
            &&& adding.len() == left + segments.len() + 1
            &&& forall|i: int|
                0 <= i < left ==> (#[trigger] adding[i]) == Step::Do(
                    Command::AddCubicRest { piece: segments[first + i].as_piece(), at_s },
                )
            &&& forall|i: int|
                left <= i < left + segments.len() ==> (#[trigger] adding[i]) == Step::Do(
                    Command::AddCubicTurn { piece: segments[i - left].as_piece(), at_s, turn_s },
                )
            &&& adding.last() == Step::Do(Command::RepeatTurn { at_s, turn_s })
        }),
    ensures
        plays_on(animation, segments, at_s, first),
{
    let count = segments.len() as int;
    let left = count - first;
    assert forall|i: int| first <= i < count implies (
    animation[i - first] matches Command::AddCubicRest { piece, at_s: from_s } && from_s == at_s
        && moves_as(piece, #[trigger] segments[i])) by {
        lemma_piece_moves_as_its_segment(segments[i]);
        assert(animation[i - first] == adding[i - first].asked());
    }
    assert forall|i: int| 0 <= i < count implies (
    animation[left + i] matches Command::AddCubicTurn { piece, at_s: from_s, turn_s } && from_s
        == at_s && turn_s == segments[count - 1].end_s && moves_as(
        piece,
        #[trigger] segments[i],
    )) by {
        lemma_piece_moves_as_its_segment(segments[i]);
        assert(animation[left + i] == adding[left + i].asked());
    }
    assert(animation[left + count] == adding[left + count].asked());
}

/// The segment that plays is the first that ends later.
proof fn lemma_is_on(segments: Seq<OpacitySegment>, at_s: Double, index: int)
    requires
        plays(segments, at_s, index),
    ensures
        is_on(segments, at_s, index),
{
    lemma_double_rank_orders(at_s, segments[index].end_s);
    assert forall|earlier: int| 0 <= earlier < index implies !below(
        at_s,
        (#[trigger] segments[earlier]).end_s,
    ) by {
        lemma_double_rank_orders(at_s, segments[earlier].end_s);
    }
}

/// Where a rebuild that succeeds comes to a cycle that takes time, the new visual
/// plays it on from the position that is answered for.
#[verifier::rlimit(40)]
proof fn lemma_turn_is_seen(
    overlay: OverlayView,
    started_ns: u128,
    segments: Seq<OpacitySegment>,
    screen: Screen,
    replies: Seq<Reply>,
)
    requires
        segments.len() > 0,
        overlay.played(
            OperationView::of(
                seq![Step::ReadPhase { started_ns, turn_s: segments.last().end_s }],
                segments,
            ),
            replies,
        ).1.succeeded(),
    ensures
        ({
            let operation = OperationView::of(
                seq![Step::ReadPhase { started_ns, turn_s: segments.last().end_s }],
                segments,
            );
            let end = overlay.screened(operation, screen, replies);
            &&& replies.len() >= 2
            &&& replies[0] is Now
            &&& replies[1] is Seconds
            &&& overlay.played(operation, replies.take(0)).1.steps[0].asked() is ReadClock
            &&& overlay.played(operation, replies.take(1)).1.steps[0].asked() == (
            Command::Position {
                elapsed_ns: since(started_ns, replies[0]->Now_0),
                cycle_s: Some(segments.last().end_s),
            })
            &&& end == moved(screen, end.own.opacity, end.animation)
            &&& end.own.opacity == Track::Played(end.animation)
            &&& exists|first: int|
                is_on(segments, replies[1]->Seconds_0, first) && #[trigger] plays_on(
                    end.animation,
                    segments,
                    replies[1]->Seconds_0,
                    first,
                )
        }),
{
    let turn_s = segments.last().end_s;
    let operation = OperationView::of(seq![Step::ReadPhase { started_ns, turn_s }], segments);
    lemma_success_settles_first(overlay, operation, replies);
    let elapsed_ns = since(started_ns, replies[0]->Now_0);
    let second = OperationView::of(seq![Step::Phase { elapsed_ns, turn_s }], segments);
    assert(overlay.resumed(operation, replies[0]).1 =~= second);
    let later = replies.skip(1);
    lemma_success_settles_first(overlay, second, later);
    assert(later[0] == replies[1]);
    let at_s = later[0]->Seconds_0;
    let third = OperationView::of(turn_steps(segments, at_s, turn_s), segments);
    assert(overlay.resumed(second, later[0]).1 =~= third);
    let last = later.skip(1);
    assert(overlay.screened(operation, screen, replies) == overlay.screened(
        second,
        screen,
        later,
    ));
    assert(overlay.screened(second, screen, later) == overlay.screened(third, screen, last));
    assert(replies.take(0) =~= Seq::empty());
    assert(replies.take(1).skip(1) =~= Seq::empty());
    assert(overlay.played(second, Seq::empty()) == (overlay, second));
    assert(overlay.played(operation, replies.take(1)) == (overlay, second));
    lemma_success_does_all_plain(overlay, third, screen, last);
    lemma_after_turn(screen, overlay.content, segments, at_s);
    let end = overlay.screened(operation, screen, replies);
    assert(is_on(segments, at_s, playing(segments, at_s)) && plays_on(
        end.animation,
        segments,
        at_s,
        playing(segments, at_s),
    ));
}

/// Where a rebuild that succeeds comes to the rest of a fade, the new visual fades
/// on.
proof fn lemma_rest_of_fade_is_seen(
    overlay: OverlayView,
    to: Single,
    started_ns: u128,
    duration_s: Double,
    screen: Screen,
    replies: Seq<Reply>,
)
    requires
        overlay.played(
            OperationView::of(
                seq![Step::ReadRemaining { to, started_ns, duration_s }],
                Seq::empty(),
            ),
            replies,
        ).1.succeeded(),
    ensures
        ({
            let operation = OperationView::of(
                seq![Step::ReadRemaining { to, started_ns, duration_s }],
                Seq::empty(),
            );
            let end = overlay.screened(operation, screen, replies);
            &&& end.committed_once_since(screen)
            &&& end.surfaces == screen.surfaces
            &&& end.left == screen.left
            &&& end.own == (Visual { opacity: end.own.opacity, ..screen.own })
            &&& end.own.opacity.follows(overlay.played(operation, replies).0.motion)
        }),
{
    let operation = OperationView::of(
        seq![Step::ReadRemaining { to, started_ns, duration_s }],
        Seq::empty(),
    );
    lemma_success_settles_first(overlay, operation, replies);
    let elapsed_ns = since(started_ns, replies[0]->Now_0);
    let second = OperationView::of(
        seq![Step::Remaining { to, duration_s, elapsed_ns }],
        Seq::empty(),
    );
    assert(overlay.resumed(operation, replies[0]).1 =~= second);
    let later = replies.skip(1);
    lemma_success_settles_first(overlay, second, later);
    let third = OverlayView::fading_to(to, later[0]->Seconds_0);
    assert(overlay.resumed(second, later[0]).1 =~= third);
    assert(overlay.screened(operation, screen, replies) == overlay.screened(
        second,
        screen,
        later,
    ));
    assert(overlay.screened(second, screen, later) == overlay.screened(
        third,
        screen,
        later.skip(1),
    ));
    lemma_fade_is_seen(overlay, to, later[0]->Seconds_0, screen, later.skip(1));
}

/// The motion of a rebuild that succeeds is seen on the new visual.
#[verifier::rlimit(40)]
proof fn lemma_replay_is_seen(
    overlay: OverlayView,
    screen: Screen,
    replies: Seq<Reply>,
)
    requires
        overlay.motion.wf(),
        overlay.played(
            OperationView::of(replay_steps(overlay.motion), replay_cycle(overlay.motion)),
            replies,
        ).1.succeeded(),
    ensures
        ({
            let operation = OperationView::of(
                replay_steps(overlay.motion),
                replay_cycle(overlay.motion),
            );
            let end = overlay.screened(operation, screen, replies);
            &&& end.committed_once_since(screen)
            &&& end.surfaces == screen.surfaces
            &&& end.left == screen.left
            &&& end.own == (Visual { opacity: end.own.opacity, ..screen.own })
            &&& end.own.opacity.follows(overlay.played(operation, replies).0.motion)
        }),
{
    let operation = OperationView::of(replay_steps(overlay.motion), replay_cycle(overlay.motion));
    match overlay.motion {
        MotionView::Hold(value) => {
            lemma_success_does_all_plain(overlay, operation, screen, replies);
            lemma_after_hold(screen, overlay.content, value);
            lemma_motion_stays(overlay, operation, replies);
        },
        MotionView::Fade { to, started_ns, duration_s, .. } => {
            lemma_rest_of_fade_is_seen(overlay, to, started_ns, duration_s, screen, replies);
        },
        MotionView::Breathe { started_ns, segments } => {
            if overlay.motion.cycle() is Some {
                lemma_turn_is_seen(overlay, started_ns, segments, screen, replies);
                lemma_motion_stays(overlay, operation, replies);
            } else {
                lemma_cycle_is_seen(overlay, segments, screen, replies);
            }
        },
    }
}

/// A rebuild that succeeds is seen, whatever was seen before: there is a new visual
/// on the root, at the position of the overlay, and the one before it was asked to be
/// taken off its root. It shows all of the content, an
/// image at its own size and a color at the size there was, unless that is none or
/// the overlay was never placed. Its opacity does what the overlay remembers. All
/// of it is committed.
#[verifier::rlimit(40)]
pub proof fn lemma_rebuild_is_seen(overlay: OverlayView, screen: Screen, replies: Seq<Reply>)
    requires
        overlay.content.whole(),
        overlay.motion matches MotionView::Breathe { segments, .. } ==> segments.len() > 0,
        overlay.played(overlay.rebuilding(), replies).1.succeeded(),
    ensures
        ({
            let end = overlay.screened(overlay.rebuilding(), screen, replies);
            let after = overlay.played(overlay.rebuilding(), replies).0;
            let (width, height) = match overlay.content {
                ContentView::Rgba { width, height, .. } => (width, height),
                ContentView::Solid(_) => (overlay.width, overlay.height),
            };
            &&& end.shown == end.own
            &&& end.shown.shows(after)
            &&& end.shown.x == Some(overlay.x)
            &&& end.shown.y == Some(overlay.y)
            &&& after.x == overlay.x
            &&& after.y == overlay.y
            &&& after.content == overlay.content
            &&& screen.commits + 1 < end.commits <= screen.commits + 3
            &&& end.left matches Some(before) && before == (Visual {
                on_root: before.on_root,
                let_go: true,
                ..screen.own
            })
            &&& !end.shown.let_go
            &&& end.surfaces == screen.surfaces + if end.shown.picture is Some {
                1nat
            } else {
                0
            }
            &&& if overlay.placed && width > 0 && height > 0 {
                &&& end.shown.picture matches Some(picture)
                &&& picture.width == width
                &&& picture.height == height
                &&& picture.shows(overlay.content)
            } else {
                end.shown.picture is None
            }
        }),
{
    let operation = overlay.rebuilding();
    let (midway, seen, later) = lemma_rebuild_comes_to_the_motion(overlay, screen, replies);
    lemma_replay_is_seen(midway, seen, later);
    lemma_rebuild_restores_what_was_shown(overlay, replies);
    let size = overlay.shown(overlay.size());
    if overlay.placed && size.0 > 0 && size.1 > 0 {
        lemma_written_shows(overlay.content, size.0, size.1);
    }
}

/// The screen may be followed over the answers in parts.
proof fn lemma_screened_in_parts(
    overlay: OverlayView,
    operation: OperationView,
    screen: Screen,
    earlier: Seq<Reply>,
    later: Seq<Reply>,
)
    ensures
        ({
            let (midway, left) = overlay.played(operation, earlier);
            let seen = overlay.screened(operation, screen, earlier);
            overlay.screened(operation, screen, earlier + later) == midway.screened(
                left,
                seen,
                later,
            )
        }),
    decreases earlier.len(),
{
    let looked_at = overlay.checked(operation);
    if earlier.len() == 0 {
        assert(earlier + later =~= later);
        assert(overlay.checked(looked_at) == looked_at);
    } else {
        let all = earlier + later;
        let (after, next) = overlay.resumed(looked_at, earlier[0]);
        let told = if looked_at.finished() {
            screen
        } else {
            screen.told(overlay.content, looked_at.steps[0].asked(), earlier[0])
        };
        assert(all[0] == earlier[0]);
        assert(all.skip(1) =~= earlier.skip(1) + later);
        lemma_screened_in_parts(after, next, told, earlier.skip(1), later);
    }
}

impl OverlayView {
    /// From the answer `first` on, `replies` are those by which the update takes the
    /// cycle of `segments` up again: the clock, and where in a turn of the cycle
    /// the time since its start is. The opacity plays on from there.
    pub open spec fn plays_on_from(
        self,
        operation: OperationView,
        segments: Seq<OpacitySegment>,
        started_ns: u128,
        screen: Screen,
        replies: Seq<Reply>,
        first: int,
    ) -> bool {
        let end = self.screened(operation, screen, replies);
        let now_ns = replies[first]->Now_0;
        let at_s = replies[first + 1]->Seconds_0;
        &&& 0 <= first
        &&& first + 2 <= replies.len()
        &&& self.asked_after(operation, replies, first) is ReadClock
        &&& replies[first] is Now
        &&& self.asked_after(operation, replies, first + 1) == (Command::Position {
            elapsed_ns: if started_ns <= now_ns {
                (now_ns - started_ns) as u128
            } else {
                0
            },
            cycle_s: Some(segments.last().end_s),
        })
        &&& replies[first + 1] is Seconds
        &&& end.shown.opacity is Played
        &&& exists|index: int|
            is_on(segments, at_s, index) && #[trigger] plays_on(
                end.shown.opacity->Played_0,
                segments,
                at_s,
                index,
            )
    }
}

/// A rebuild that succeeds goes on with a cycle that takes time from where it is at
/// the moment that the clock was read. The cycle is remembered as it was.
#[verifier::rlimit(40)]
pub proof fn lemma_rebuilt_cycle_is_seen_where_it_was(
    overlay: OverlayView,
    screen: Screen,
    replies: Seq<Reply>,
)
    requires
        overlay.motion is Breathe,
        overlay.motion->Breathe_segments.len() > 0,
        ({
            let length_s = overlay.motion->Breathe_segments.last().end_s;
            length_s.is_nan() || length_s.value() > 0
        }),
        overlay.played(overlay.rebuilding(), replies).1.succeeded(),
    ensures
        ({
            let segments = overlay.motion->Breathe_segments;
            let started_ns = overlay.motion->Breathe_started_ns;
            &&& overlay.played(overlay.rebuilding(), replies).0.motion == overlay.motion
            &&& exists|first: int|
                #[trigger] overlay.plays_on_from(
                    overlay.rebuilding(),
                    segments,
                    started_ns,
                    screen,
                    replies,
                    first,
                )
        }),
{
    let operation = overlay.rebuilding();
    let segments = overlay.motion->Breathe_segments;
    let started_ns = overlay.motion->Breathe_started_ns;
    let turn_s = segments.last().end_s;
    lemma_takes_time(turn_s);
    lemma_rebuilt_cycle_does_not_jump(overlay, replies, turn_s);
    let first = lemma_last_step_plays_on(
        overlay,
        operation,
        segments,
        started_ns,
        screen,
        replies,
    );
    assert(overlay.plays_on_from(operation, segments, started_ns, screen, replies, first));
}

/// Where an update succeeds whose last step takes a cycle up again, and no other moves
/// the opacity, the cycle plays on.
#[verifier::rlimit(40)]
proof fn lemma_last_step_plays_on(
    overlay: OverlayView,
    operation: OperationView,
    segments: Seq<OpacitySegment>,
    started_ns: u128,
    screen: Screen,
    replies: Seq<Reply>,
) -> (first: int)
    requires
        segments.len() > 0,
        operation.orderly(),
        operation.failure is None,
        !operation.finished(),
        operation.cycle == segments,
        operation.steps.last() == (Step::ReadPhase { started_ns, turn_s: segments.last().end_s }),
        forall|i: int|
            0 <= i < operation.steps.len() - 1 ==> !(
            #[trigger] operation.steps[i]).changes_motion(),
        overlay.played(operation, replies).1.succeeded(),
    ensures
        overlay.plays_on_from(operation, segments, started_ns, screen, replies, first),
{
    let first = lemma_success_comes_to_the_last(overlay, operation, replies);
    let midway = overlay.played(operation, replies.take(first)).0;
    let seen = overlay.screened(operation, screen, replies.take(first));
    let later = replies.skip(first);
    assert(replies.take(first) + later =~= replies);
    lemma_screened_in_parts(overlay, operation, screen, replies.take(first), later);
    lemma_all_later(overlay, operation, replies, first);
    lemma_turn_is_seen(midway, started_ns, segments, seen, later);
    lemma_asked_later(overlay, operation, replies, first, 0);
    lemma_asked_later(overlay, operation, replies, first, 1);
    assert(later[0] == replies[first]);
    assert(later[1] == replies[first + 1]);
    let end = overlay.screened(operation, screen, replies);
    let at_s = replies[first + 1]->Seconds_0;
    let now_ns = replies[first]->Now_0;
    assert(end.shown.opacity == Track::Played(end.animation));
    let index = choose|index: int|
        is_on(segments, at_s, index) && #[trigger] plays_on(end.animation, segments, at_s, index);
    assert(is_on(segments, at_s, index));
    assert(plays_on(end.animation, segments, at_s, index));
    let animation = end.shown.opacity->Played_0;
    assert(animation == end.animation);
    assert(plays_on(animation, segments, at_s, index));
    assert(overlay.asked_after(operation, replies, first) is ReadClock);
    let elapsed_ns = if started_ns <= now_ns {
        (now_ns - started_ns) as u128
    } else {
        0
    };
    assert(elapsed_ns == since(started_ns, now_ns));
    assert(overlay.asked_after(operation, replies, first + 1) == (Command::Position {
        elapsed_ns,
        cycle_s: Some(segments.last().end_s),
    }));
    assert(first + 2 <= replies.len());
    assert(overlay.plays_on_from(operation, segments, started_ns, screen, replies, first));
    first
}

/// A length is zero or below by its rank where it is by its value.
proof fn lemma_takes_time(length_s: Double)
    ensures
        length_s.is_at_most_zero() == (!length_s.is_nan() && length_s.value() <= 0),
{
    let zero = Double { bits: 0 };
    lemma_double_rank_orders(zero, length_s);
    assert(zero.value() == 0) by {
        assert(crate::number::absolute(0, 0x10_0000_0000_0000) == 0);
    }
}

// ---- what a motion is taken to show -----------------------------------------

/// A held value shows at any moment.
pub proof fn lemma_held_value_shows(value: Single, at_s: Double)
    ensures
        MotionView::Hold(value).value(at_s) == Opacity::Known(value),
{
}

/// A fade is at its target where it takes no time and from its end on. Until then it
/// is on the curve that starts at its value at zero and ends at its target at its
/// end.
pub proof fn lemma_fade_shows_its_curve(
    from: Single,
    to: Single,
    started_ns: u128,
    duration_s: Double,
    at_s: Double,
)
    ensures
        ({
            let shows = MotionView::Fade { from, to, started_ns, duration_s }.value(at_s);
            let no_time = !duration_s.is_nan() && duration_s.value() <= 0;
            let over = !duration_s.is_nan() && !at_s.is_nan() && duration_s.value() <= at_s.value();
            &&& no_time || over ==> shows == Opacity::Known(to)
            &&& !no_time && !over ==> {
                &&& shows matches Opacity::OnCurve { curve, at_s: moment }
                &&& moment == at_s
                &&& curve.from == from
                &&& curve.to == to
                &&& curve.start_s == Double { bits: 0 }
                &&& curve.end_s == duration_s
            }
        }),
{
    lemma_takes_time(duration_s);
    lemma_double_rank_orders(at_s, duration_s);
}

/// A cycle that takes time shows what the segment that is on says: one that is
/// smooth and takes time is on the curve from its start value to its end value over
/// its time, any other is at its end value. A cycle that takes no time is at the end
/// value of its last segment.
pub proof fn lemma_cycle_shows_the_segment_that_is_on(
    started_ns: u128,
    segments: Seq<OpacitySegment>,
    at_s: Double,
    index: int,
)
    requires
        is_on(segments, at_s, index),
    ensures
        ({
            let motion = MotionView::Breathe { started_ns, segments };
            let length_s = segments.last().end_s;
            let segment = segments[index];
            if !length_s.is_nan() && length_s.value() <= 0 {
                &&& motion.value(at_s) == Opacity::Known(segments.last().end_value)
                &&& motion.cycle() is None
            } else {
                &&& motion.cycle() == Some(length_s)
                &&& if segment.ease == OpacityEase::Smooth && below(
                    segment.start_s,
                    segment.end_s,
                ) {
                    &&& motion.value(at_s) matches Opacity::OnCurve { curve, at_s: moment }
                    &&& moment == at_s
                    &&& curve.from == segment.start_value
                    &&& curve.to == segment.end_value
                    &&& curve.start_s == segment.start_s
                    &&& curve.end_s == segment.end_s
                } else {
                    motion.value(at_s) == Opacity::Known(segment.end_value)
                }
            }
        }),
{
    lemma_takes_time(segments.last().end_s);
    lemma_double_rank_orders(at_s, segments[index].end_s);
    assert forall|earlier: int| 0 <= earlier < index implies !at_s.is_less(
        (#[trigger] segments[earlier]).end_s,
    ) by {
        lemma_double_rank_orders(at_s, segments[earlier].end_s);
    }
    assert(plays(segments, at_s, index));
    lemma_one_segment_plays(segments, at_s);
    lemma_piece_moves_as_its_segment(segments[index]);
}

/// At every moment a segment of a cycle is on, and no other.
pub proof fn lemma_one_segment_is_on(segments: Seq<OpacitySegment>, at_s: Double)
    requires
        segments.len() > 0,
    ensures
        is_on(segments, at_s, playing(segments, at_s)),
        forall|index: int|
            #[trigger] is_on(segments, at_s, index) ==> index == playing(segments, at_s),
{
    lemma_one_segment_plays(segments, at_s);
    let on = playing(segments, at_s);
    lemma_is_on(segments, at_s, on);
    assert forall|index: int| #[trigger] is_on(segments, at_s, index) implies index == on by {
        if index < on {
            assert(!below(at_s, segments[index].end_s));
        } else if on < index {
            assert(!below(at_s, segments[on].end_s));
        }
    }
}

/// The time since the start of a motion, added to its start, is the moment, unless
/// it started later. Where nothing moves, no time passes and nothing repeats.
pub proof fn lemma_time_passes_since_the_start(motion: MotionView, now_ns: u128)
    ensures
        match motion {
            MotionView::Hold(_) => motion.elapsed(now_ns) == 0 && motion.cycle() is None,
            MotionView::Fade { started_ns, .. } => {
                &&& started_ns <= now_ns ==> started_ns + motion.elapsed(now_ns) == now_ns
                &&& now_ns <= started_ns ==> motion.elapsed(now_ns) == 0
                &&& motion.cycle() is None
            },
            MotionView::Breathe { started_ns, segments } => {
                &&& started_ns <= now_ns ==> started_ns + motion.elapsed(now_ns) == now_ns
                &&& now_ns <= started_ns ==> motion.elapsed(now_ns) == 0
                &&& segments.len() == 0 ==> motion.cycle() is None
            },
        },
{
}

/// A cycle without segments shows nothing.
pub proof fn lemma_empty_cycle_shows_nothing(started_ns: u128, at_s: Double)
    ensures
        (MotionView::Breathe { started_ns, segments: Seq::empty() }).value(at_s) == Opacity::Known(
            Single { bits: 0 },
        ),
{
}

// ---- what the overlay knows of its surface ----------------------------------

impl Screen {
    /// The overlay knows whether its visual has a surface, and of which size.
    pub open spec fn is_known_to(self, overlay: OverlayView) -> bool {
        match self.own.picture {
            Some(picture) => overlay.surface && picture.width == overlay.width && picture.height
                == overlay.height,
            None => !overlay.surface,
        }
    }
}

/// The size of a surface.
spec fn size_of(picture: Option<Picture>) -> Option<(u32, u32)> {
    match picture {
        Some(surface) => Some((surface.width, surface.height)),
        None => None,
    }
}

/// Each surface that the steps attach is the one that was created last, of its size;
/// and a visual shows nothing only where it has just come.
spec fn attach_what_was_created(
    steps: Seq<Step>,
    fresh: Option<(u32, u32)>,
    bare: bool,
) -> bool
    decreases steps.len(),
{
    if steps.len() == 0 {
        true
    } else {
        let rest = steps.skip(1);
        match steps[0] {
            Step::AttachSurface { width, height } => fresh == Some((width, height))
                && attach_what_was_created(rest, None, false),
            Step::AdoptVisual => attach_what_was_created(rest, fresh, true),
            Step::Do(Command::CreateSurface { width, height }) => attach_what_was_created(
                rest,
                Some((width, height)),
                bare,
            ),
            Step::Do(Command::ClearContent) => bare && attach_what_was_created(
                rest,
                fresh,
                bare,
            ),
            Step::Do(Command::AttachSurface) => false,
            Step::Do(Command::AdoptVisual) => false,
            _ => attach_what_was_created(rest, fresh, bare),
        }
    }
}

/// The step has to do with which surface the visual has.
spec fn concerns_surface(step: Step) -> bool {
    match step {
        Step::AttachSurface { .. } => true,
        Step::AdoptVisual => true,
        Step::Do(command) => match command {
            Command::CreateSurface { .. } => true,
            Command::ClearContent => true,
            Command::AttachSurface => true,
            Command::AdoptVisual => true,
            _ => false,
        },
        _ => false,
    }
}

proof fn lemma_attach_after_others(
    more: Seq<Step>,
    rest: Seq<Step>,
    fresh: Option<(u32, u32)>,
    bare: bool,
)
    requires
        forall|i: int| 0 <= i < more.len() ==> !concerns_surface(#[trigger] more[i]),
    ensures
        attach_what_was_created(more + rest, fresh, bare) == attach_what_was_created(
            rest,
            fresh,
            bare,
        ),
    decreases more.len(),
{
    if more.len() == 0 {
        assert(more + rest =~= rest);
    } else {
        assert(!concerns_surface(more[0]));
        let left = more.skip(1);
        assert(forall|i: int| 0 <= i < left.len() ==> left[i] == more[i + 1]);
        assert((more + rest).skip(1) =~= left + rest);
        lemma_attach_after_others(left, rest, fresh, bare);
    }
}

#[verifier::rlimit(40)]
proof fn lemma_surface_stays_known(
    overlay: OverlayView,
    operation: OperationView,
    screen: Screen,
    bare: bool,
    replies: Seq<Reply>,
)
    requires
        screen.is_known_to(overlay),
        bare ==> !overlay.surface,
        attach_what_was_created(operation.steps, size_of(screen.fresh), bare),
    ensures
        overlay.screened(operation, screen, replies).is_known_to(
            overlay.played(operation, replies).0,
        ),
    decreases replies.len(),
{
    if replies.len() > 0 {
        let looked_at = overlay.checked(operation);
        let (after, next) = overlay.resumed(looked_at, replies[0]);
        reveal_with_fuel(attach_what_was_created, 2);
        if looked_at.finished() {
            lemma_surface_stays_known(after, next, screen, bare, replies.skip(1));
        } else {
            let step = looked_at.steps[0];
            let told = screen.told(overlay.content, step.asked(), replies[0]);
            let rest = looked_at.steps.skip(1);
            match overlay.settled(looked_at.cycle, step, replies[0]) {
                Ok((_, more)) => {
                    let left = match step {
                        Step::AttachSurface { .. } => false,
                        Step::AdoptVisual => true,
                        _ => bare,
                    };
                    lemma_settled_is_about_no_surface(
                        overlay,
                        looked_at.cycle,
                        step,
                        replies[0],
                    );
                    lemma_attach_after_others(more, rest, size_of(told.fresh), left);
                    lemma_surface_stays_known(after, next, told, left, replies.skip(1));
                },
                Err(_) => {
                    lemma_surface_stays_known(after, next, told, bare, replies.skip(1));
                },
            }
        }
    }
}

proof fn lemma_settled_is_about_no_surface(
    overlay: OverlayView,
    cycle: Seq<OpacitySegment>,
    step: Step,
    reply: Reply,
)
    requires
        overlay.settled(cycle, step, reply) is Ok,
    ensures
        ({
            let more = overlay.settled(cycle, step, reply)->Ok_0.1;
            forall|i: int| 0 <= i < more.len() ==> !concerns_surface(#[trigger] more[i])
        }),
{
}

/// Whatever is answered to a placement, the overlay knows which surface its visual
/// has.
pub proof fn lemma_surface_is_known_after_placement(
    overlay: OverlayView,
    x: Single,
    y: Single,
    size: (u32, u32),
    screen: Screen,
    replies: Seq<Reply>,
)
    requires
        screen.is_known_to(overlay),
    ensures
        ({
            let (placed, operation) = overlay.placing(x, y, size);
            placed.screened(operation, screen, replies).is_known_to(
                placed.played(operation, replies).0,
            )
        }),
{
    let (placed, operation) = overlay.placing(x, y, size);
    reveal_with_fuel(attach_what_was_created, 7);
    lemma_surface_stays_known(placed, operation, screen, false, replies);
}

/// Whatever is answered to new content, the overlay knows which surface its visual
/// has.
pub proof fn lemma_surface_is_known_after_content(
    overlay: OverlayView,
    content: ContentView,
    screen: Screen,
    replies: Seq<Reply>,
)
    requires
        screen.is_known_to(overlay),
    ensures
        ({
            let (showing, operation) = overlay.showing(content);
            showing.screened(operation, screen, replies).is_known_to(
                showing.played(operation, replies).0,
            )
        }),
{
    let (showing, operation) = overlay.showing(content);
    reveal_with_fuel(attach_what_was_created, 5);
    lemma_surface_stays_known(showing, operation, screen, false, replies);
}

/// Whatever is answered to a rebuild, the overlay knows which surface its visual has:
/// of the one on the lost device none is left.
#[verifier::rlimit(40)]
pub proof fn lemma_surface_is_known_after_rebuild(
    overlay: OverlayView,
    screen: Screen,
    replies: Seq<Reply>,
)
    requires
        screen.is_known_to(overlay),
    ensures
        overlay.screened(overlay.rebuilding(), screen, replies).is_known_to(
            overlay.played(overlay.rebuilding(), replies).0,
        ),
{
    let operation = overlay.rebuilding();
    let size = overlay.shown(overlay.size());
    let front = seq![
        Step::Do(Command::CreateVisual),
        Step::RemoveVisual,
        Step::AdoptVisual,
        Step::Do(Command::ClearContent),
        Step::Do(Command::AddVisual),
    ];
    let resize = if overlay.placed && size.0 > 0 && size.1 > 0 {
        recreate_steps(size)
    } else {
        Seq::empty()
    };
    let tail = position_steps(overlay.x, overlay.y) + replay_steps(overlay.motion);
    assert(operation.steps =~= front + (resize + tail));
    lemma_rebuild_attaches_what_it_created(front, resize, tail, size, size_of(screen.fresh));
    lemma_surface_stays_known(overlay, operation, screen, false, replies);
}

proof fn lemma_rebuild_attaches_what_it_created(
    front: Seq<Step>,
    resize: Seq<Step>,
    tail: Seq<Step>,
    size: (u32, u32),
    fresh: Option<(u32, u32)>,
)
    requires
        front == seq![
            Step::Do(Command::CreateVisual),
            Step::RemoveVisual,
            Step::AdoptVisual,
            Step::Do(Command::ClearContent),
            Step::Do(Command::AddVisual),
        ],
        resize == recreate_steps(size) || resize == Seq::<Step>::empty(),
        forall|i: int| 0 <= i < tail.len() ==> !concerns_surface(#[trigger] tail[i]),
    ensures
        attach_what_was_created(front + (resize + tail), fresh, false),
{
    let none = Seq::<Step>::empty();
    assert(tail =~= tail + none);
    lemma_attach_after_others(tail, none, fresh, true);
    lemma_attach_after_others(tail, none, None, false);
    let steps = resize + tail;
    assert(attach_what_was_created(steps, fresh, true)) by {
        reveal_with_fuel(attach_what_was_created, 4);
        if resize.len() == 0 {
            assert(steps =~= tail);
        } else {
            assert(steps.skip(1).skip(1).skip(1) =~= tail);
        }
    }
    let all = front + steps;
    reveal_with_fuel(attach_what_was_created, 6);
    assert(all.skip(1).skip(1).skip(1).skip(1).skip(1) =~= steps);
}

} // verus!
