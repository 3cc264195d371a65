//! What placements, contents and rebuilds make of the overlay's surface.

use vstd::prelude::*;
use crate::content::ContentView;
use crate::laws::{lemma_content_and_position_stay, lemma_failure_stays, lemma_played_ready};
use crate::motion_laws::lemma_motion_stays;
use crate::number::Single;
use crate::operation::{Command, OperationView, Reply, Step};
use crate::overlay::{position_steps, recreate_steps, replay_steps, OverlayView};

verus! {

/// Whether there is a surface, and its size.
pub type Extent = (bool, (u32, u32));

impl OverlayView {
    pub open spec fn extent(self) -> Extent {
        (self.surface, self.size())
    }
}

impl Step {
    /// The step, once done, changes the surface.
    pub open spec fn changes_surface(self) -> bool {
        self is AdoptVisual || self is AttachSurface
    }
}

/// The surface once all of `steps` are done.
pub open spec fn extent_after(extent: Extent, steps: Seq<Step>) -> Extent
    decreases steps.len(),
{
    if steps.len() == 0 {
        extent
    } else {
        let next = match steps[0] {
            Step::AdoptVisual => (false, (0u32, 0u32)),
            Step::AttachSurface { width, height } => (true, (width, height)),
            _ => extent,
        };
        extent_after(next, steps.skip(1))
    }
}

proof fn lemma_extent_after_more(extent: Extent, more: Seq<Step>, rest: Seq<Step>)
    requires
        forall|i: int| 0 <= i < more.len() ==> !(#[trigger] more[i]).changes_surface(),
    ensures
        extent_after(extent, more + rest) == extent_after(extent, rest),
    decreases more.len(),
{
    if more.len() == 0 {
        assert(more + rest =~= rest);
    } else {
        assert((more + rest).skip(1) =~= more.skip(1) + rest);
        assert(!more[0].changes_surface());
        assert forall|i: int| 0 <= i < more.skip(1).len() implies !(#[trigger] more.skip(
            1,
        )[i]).changes_surface() by {
            assert(more.skip(1)[i] == more[i + 1]);
        }
        lemma_extent_after_more(extent, more.skip(1), rest);
    }
}

/// An update that succeeds does to the surface what its steps say.
proof fn lemma_success_does_all(overlay: OverlayView, operation: OperationView, replies: Seq<Reply>)
    requires
        operation.failure is None,
        overlay.played(operation, replies).1.failure is None,
    ensures
        ({
            let (end, left) = overlay.played(operation, replies);
            extent_after(end.extent(), left.steps) == extent_after(
                overlay.extent(),
                operation.steps,
            )
        }),
    decreases replies.len(),
{
    let looked_at = overlay.checked(operation);
    if looked_at.failure is Some {
        if replies.len() > 0 {
            let (after, next) = overlay.resumed(looked_at, replies[0]);
            lemma_failure_stays(after, next, replies.skip(1));
        }
    } else if replies.len() > 0 {
        let (after, next) = overlay.resumed(looked_at, replies[0]);
        if next.failure is Some {
            lemma_failure_stays(after, next, replies.skip(1));
        } else {
            if !looked_at.finished() {
                let more = overlay.settled(looked_at.cycle, looked_at.steps[0], replies[0])->Ok_0.1;
                lemma_extent_after_more(after.extent(), more, looked_at.steps.skip(1));
            }
            lemma_success_does_all(after, next, replies.skip(1));
        }
    }
}

/// A placement that succeeds puts the overlay where it says, at the size at which
/// the content shows, and changes nothing else.
pub proof fn lemma_placement_takes_the_shown_size(
    overlay: OverlayView,
    x: Single,
    y: Single,
    size: (u32, u32),
    replies: Seq<Reply>,
)
    requires
        ({
            let (placed, operation) = overlay.placing(x, y, size);
            placed.played(operation, replies).1.succeeded()
        }),
    ensures
        ({
            let (placed, operation) = overlay.placing(x, y, size);
            let end = placed.played(operation, replies).0;
            &&& end.extent() == (
                overlay.surface || overlay.size() != overlay.shown(size),
                overlay.shown(size),
            )
            &&& end == (OverlayView {
                placed: true,
                x,
                y,
                surface: end.surface,
                width: end.width,
                height: end.height,
                ..overlay
            })
        }),
{
    let (placed, operation) = overlay.placing(x, y, size);
    let end = placed.played(operation, replies).0;
    lemma_success_does_all(placed, operation, replies);
    lemma_content_and_position_stay(placed, operation, replies);
    lemma_motion_stays(placed, operation, replies);
    let shown = overlay.shown(size);
    let tail = position_steps(x, y);
    assert(extent_after(overlay.extent(), operation.steps) == (
        overlay.surface || overlay.size() != shown,
        shown,
    )) by {
        lemma_extent_after_resize(overlay.extent(), overlay.resize_steps(shown), shown, tail);
    }
}

/// New surface or not, the steps of a resize end at `size`.
proof fn lemma_extent_after_resize(
    extent: Extent,
    resize: Seq<Step>,
    size: (u32, u32),
    rest: Seq<Step>,
)
    requires
        resize == recreate_steps(size) || (resize == Seq::<Step>::empty() && extent.1 == size),
        forall|i: int| 0 <= i < rest.len() ==> !(#[trigger] rest[i]).changes_surface(),
    ensures
        extent_after(extent, resize + rest) == (extent.0 || resize.len() > 0, size),
{
    reveal_with_fuel(extent_after, 4);
    if resize.len() == 0 {
        assert(resize + rest =~= rest);
        assert(rest =~= rest + Seq::<Step>::empty());
        lemma_extent_after_more(extent, rest, Seq::empty());
    } else {
        let steps = resize + rest;
        assert(steps.skip(1).skip(1).skip(1) =~= rest + Seq::<Step>::empty());
        lemma_extent_after_more((true, size), rest, Seq::empty());
    }
}

/// New content that succeeds ends at its own size where it is an image, and
/// leaves the size alone where it is a color. Without a surface none comes.
pub proof fn lemma_content_takes_its_own_size(
    overlay: OverlayView,
    content: ContentView,
    replies: Seq<Reply>,
)
    requires
        ({
            let (showing, operation) = overlay.showing(content);
            showing.played(operation, replies).1.succeeded()
        }),
    ensures
        ({
            let (showing, operation) = overlay.showing(content);
            let end = showing.played(operation, replies).0;
            &&& end.extent() == (
                overlay.surface,
                if overlay.surface {
                    content.shown(overlay.size())
                } else {
                    overlay.size()
                },
            )
            &&& end == (OverlayView {
                content,
                width: end.width,
                height: end.height,
                ..overlay
            })
        }),
{
    let (showing, operation) = overlay.showing(content);
    lemma_success_does_all(showing, operation, replies);
    lemma_content_and_position_stay(showing, operation, replies);
    lemma_motion_stays(showing, operation, replies);
    let commit = seq![Step::Do(Command::Commit)];
    let redraw = showing.redraw_steps();
    let size = showing.shown(showing.size());
    assert(redraw.push(Step::Do(Command::Commit)) =~= redraw + commit);
    if showing.surface && size != showing.size() {
        lemma_extent_after_resize(showing.extent(), redraw, size, commit);
    } else {
        assert(redraw + commit =~= (redraw + commit) + Seq::<Step>::empty());
        lemma_extent_after_more(showing.extent(), redraw + commit, Seq::empty());
    }
}

/// A placement and an image may arrive in either order: where both succeed, the
/// overlay ends the same, at the size of the image.
///
/// Left out is a placement of no size on an overlay without a surface. After it
/// there is still none for the image to show in.
pub proof fn lemma_placement_and_image_in_either_order(
    overlay: OverlayView,
    x: Single,
    y: Single,
    size: (u32, u32),
    image: ContentView,
    replies: (Seq<Reply>, Seq<Reply>),
    other: (Seq<Reply>, Seq<Reply>),
)
    requires
        overlay.wf(),
        image is Rgba,
        image.wf(),
        overlay.surface || size != (0u32, 0u32),
        ({
            let (placed, first) = overlay.placing(x, y, size);
            let (midway, first_end) = placed.played(first, replies.0);
            let (showing, second) = midway.showing(image);
            first_end.succeeded() && showing.played(second, replies.1).1.succeeded()
        }),
        ({
            let (showing, first) = overlay.showing(image);
            let (midway, first_end) = showing.played(first, other.0);
            let (placed, second) = midway.placing(x, y, size);
            first_end.succeeded() && placed.played(second, other.1).1.succeeded()
        }),
    ensures
        ({
            let (placed, first) = overlay.placing(x, y, size);
            let midway = placed.played(first, replies.0).0;
            let (showing, second) = midway.showing(image);
            let end = showing.played(second, replies.1).0;
            let (showing_first, other_first) = overlay.showing(image);
            let other_midway = showing_first.played(other_first, other.0).0;
            let (placed_last, other_second) = other_midway.placing(x, y, size);
            let other_end = placed_last.played(other_second, other.1).0;
            &&& end == other_end
            &&& end.surface
            &&& end.size() == image.shown(size)
            &&& end.content == image
            &&& end.x == x
            &&& end.y == y
            &&& end.motion == overlay.motion
        }),
{
    let (placed, first) = overlay.placing(x, y, size);
    let midway = placed.played(first, replies.0).0;
    let (showing, second) = midway.showing(image);
    let end = showing.played(second, replies.1).0;
    lemma_placement_takes_the_shown_size(overlay, x, y, size, replies.0);
    lemma_content_takes_its_own_size(midway, image, replies.1);

    let (showing_first, other_first) = overlay.showing(image);
    let other_midway = showing_first.played(other_first, other.0).0;
    let (placed_last, other_second) = other_midway.placing(x, y, size);
    let other_end = placed_last.played(other_second, other.1).0;
    lemma_content_takes_its_own_size(overlay, image, other.0);
    lemma_placement_takes_the_shown_size(other_midway, x, y, size, other.1);
    assert(end.extent() == other_end.extent());
    assert(end =~= other_end);
}

impl OverlayView {
    /// The content covers the surface, if there is one.
    pub open spec fn covered(self) -> bool {
        self.surface ==> self.content.draw_error(self.width, self.height) is None
    }
}

/// A placement that succeeds leaves a surface that the content covers.
pub proof fn lemma_placement_leaves_surface_covered(
    overlay: OverlayView,
    x: Single,
    y: Single,
    size: (u32, u32),
    replies: Seq<Reply>,
)
    requires
        overlay.wf(),
        ({
            let (placed, operation) = overlay.placing(x, y, size);
            placed.played(operation, replies).1.succeeded()
        }),
    ensures
        ({
            let (placed, operation) = overlay.placing(x, y, size);
            placed.played(operation, replies).0.covered()
        }),
{
    lemma_placement_takes_the_shown_size(overlay, x, y, size, replies);
}

/// New content that succeeds covers the surface it shows in.
pub proof fn lemma_content_leaves_surface_covered(
    overlay: OverlayView,
    content: ContentView,
    replies: Seq<Reply>,
)
    requires
        content.wf(),
        ({
            let (showing, operation) = overlay.showing(content);
            showing.played(operation, replies).1.succeeded()
        }),
    ensures
        ({
            let (showing, operation) = overlay.showing(content);
            showing.played(operation, replies).0.covered()
        }),
{
    lemma_content_takes_its_own_size(overlay, content, replies);
}

/// Every step that changes the surface attaches one of `size`.
spec fn only_attaches(steps: Seq<Step>, size: (u32, u32)) -> bool {
    forall|i: int|
        0 <= i < steps.len() ==> (#[trigger] steps[i]).changes_surface() ==> steps[i] == (
        Step::AttachSurface { width: size.0, height: size.1 })
}

proof fn lemma_only_attaches(
    overlay: OverlayView,
    operation: OperationView,
    size: (u32, u32),
    replies: Seq<Reply>,
)
    requires
        only_attaches(operation.steps, size),
    ensures
        ({
            let end = overlay.played(operation, replies).0;
            end.extent() == overlay.extent() || end.extent() == (true, size)
        }),
    decreases replies.len(),
{
    if replies.len() > 0 {
        let looked_at = overlay.checked(operation);
        let (after, next) = overlay.resumed(looked_at, replies[0]);
        if !looked_at.finished() {
            assert(looked_at.steps[0].changes_surface() ==> looked_at.steps[0] == (
            Step::AttachSurface { width: size.0, height: size.1 }));
            let rest = looked_at.steps.skip(1);
            assert(forall|i: int| 0 <= i < rest.len() ==> rest[i] == looked_at.steps[i + 1]);
        }
        lemma_only_attaches(after, next, size, replies.skip(1));
    }
}

/// Whatever is answered to a placement, the surface is the one it was or one of
/// the size at which the content shows: a new surface is attached only once it is
/// drawn.
pub proof fn lemma_placement_keeps_or_completes(
    overlay: OverlayView,
    x: Single,
    y: Single,
    size: (u32, u32),
    replies: Seq<Reply>,
)
    ensures
        ({
            let (placed, operation) = overlay.placing(x, y, size);
            let end = placed.played(operation, replies).0;
            end.extent() == overlay.extent() || end.extent() == (true, overlay.shown(size))
        }),
{
    let (placed, operation) = overlay.placing(x, y, size);
    lemma_only_attaches(placed, operation, overlay.shown(size), replies);
}

/// Whatever is answered to new content, the surface is the one it was or one of
/// the size of the content.
pub proof fn lemma_content_keeps_or_completes(
    overlay: OverlayView,
    content: ContentView,
    replies: Seq<Reply>,
)
    ensures
        ({
            let (showing, operation) = overlay.showing(content);
            let end = showing.played(operation, replies).0;
            end.extent() == overlay.extent() || end.extent() == (
                true,
                content.shown(overlay.size()),
            )
        }),
{
    let (showing, operation) = overlay.showing(content);
    lemma_only_attaches(showing, operation, content.shown(overlay.size()), replies);
}

/// A surface is attached only after it was drawn and closed: where a step that
/// attaches one is next, none is open.
pub proof fn lemma_attached_once_closed(operation: OperationView)
    requires
        operation.orderly(),
        !operation.finished(),
        operation.steps[0] is AttachSurface,
    ensures
        operation.open is None,
{
}

/// None of the steps creates a surface.
spec fn none_creates(steps: Seq<Step>) -> bool {
    forall|i: int| 0 <= i < steps.len() ==> !((#[trigger] steps[i]).asked() is CreateSurface)
}

proof fn lemma_none_creates(overlay: OverlayView, operation: OperationView, replies: Seq<Reply>)
    requires
        none_creates(operation.steps),
    ensures
        none_creates(overlay.played(operation, replies).1.steps),
    decreases replies.len(),
{
    if replies.len() > 0 {
        let looked_at = overlay.checked(operation);
        let (after, next) = overlay.resumed(looked_at, replies[0]);
        if !looked_at.finished() {
            let rest = looked_at.steps.skip(1);
            assert(forall|i: int| 0 <= i < rest.len() ==> rest[i] == looked_at.steps[i + 1]);
        }
        lemma_none_creates(after, next, replies.skip(1));
    }
}

/// A placement at which the content shows in the size of the surface is a plain
/// move: over any answers no surface is created. That is every placement of an
/// image that fills the surface.
pub proof fn lemma_plain_move_creates_nothing(
    overlay: OverlayView,
    x: Single,
    y: Single,
    size: (u32, u32),
    replies: Seq<Reply>,
)
    requires
        overlay.shown(size) == overlay.size(),
    ensures
        ({
            let (placed, operation) = overlay.placing(x, y, size);
            let (end, left) = placed.played(operation, replies);
            &&& !left.finished() ==> !(left.steps[0].asked() is CreateSurface)
            &&& end.extent() == overlay.extent()
        }),
{
    let (placed, operation) = overlay.placing(x, y, size);
    lemma_none_creates(placed, operation, replies);
    lemma_extent_stays(placed, operation, replies);
    let left = placed.played(operation, replies).1;
    if !left.finished() {
        assert(!(left.steps[0].asked() is CreateSurface));
    }
}

/// Content that shows in the size of the surface is drawn into the surface there
/// is: over any answers none is created. That is every solid color, and an image
/// of the size of the surface.
pub proof fn lemma_same_size_content_creates_nothing(
    overlay: OverlayView,
    content: ContentView,
    replies: Seq<Reply>,
)
    requires
        content.shown(overlay.size()) == overlay.size(),
    ensures
        ({
            let (showing, operation) = overlay.showing(content);
            let (end, left) = showing.played(operation, replies);
            &&& !left.finished() ==> !(left.steps[0].asked() is CreateSurface)
            &&& end.extent() == overlay.extent()
        }),
{
    let (showing, operation) = overlay.showing(content);
    lemma_none_creates(showing, operation, replies);
    lemma_extent_stays(showing, operation, replies);
    let left = showing.played(operation, replies).1;
    if !left.finished() {
        assert(!(left.steps[0].asked() is CreateSurface));
    }
}

/// An update without steps that change the surface leaves it alone, whatever is
/// answered.
pub proof fn lemma_extent_stays(overlay: OverlayView, operation: OperationView, replies: Seq<Reply>)
    requires
        forall|i: int|
            0 <= i < operation.steps.len() ==> !(#[trigger] operation.steps[i]).changes_surface(),
    ensures
        overlay.played(operation, replies).0.extent() == overlay.extent(),
    decreases replies.len(),
{
    if replies.len() > 0 {
        let looked_at = overlay.checked(operation);
        let (after, next) = overlay.resumed(looked_at, replies[0]);
        if !looked_at.finished() {
            assert(!looked_at.steps[0].changes_surface());
            let rest = looked_at.steps.skip(1);
            assert(forall|i: int| 0 <= i < rest.len() ==> rest[i] == looked_at.steps[i + 1]);
        }
        lemma_extent_stays(after, next, replies.skip(1));
    }
}

/// A rebuild that succeeds shows what was shown, where it was shown, at the size
/// at which that content shows. An overlay that was never placed, or that shows at
/// no size, has no surface.
pub proof fn lemma_rebuild_restores_what_was_shown(overlay: OverlayView, replies: Seq<Reply>)
    requires
        overlay.played(overlay.rebuilding(), replies).1.succeeded(),
    ensures
        ({
            let end = overlay.played(overlay.rebuilding(), replies).0;
            let size = overlay.shown(overlay.size());
            &&& end.extent() == (if overlay.placed && size.0 > 0 && size.1 > 0 {
                (true, size)
            } else {
                (false, (0u32, 0u32))
            })
            &&& end.content == overlay.content
            &&& end.x == overlay.x
            &&& end.y == overlay.y
            &&& end.placed == overlay.placed
            &&& overlay.wf() ==> end.covered()
        }),
{
    let operation = overlay.rebuilding();
    lemma_success_does_all(overlay, operation, replies);
    lemma_content_and_position_stay(overlay, operation, replies);
    let size = overlay.shown(overlay.size());
    let rest = position_steps(overlay.x, overlay.y) + replay_steps(overlay.motion);
    let resize = if overlay.placed && size.0 > 0 && size.1 > 0 {
        recreate_steps(size)
    } else {
        Seq::empty()
    };
    let front = seq![
        Step::Do(Command::CreateVisual),
        Step::RemoveVisual,
        Step::AdoptVisual,
        Step::Do(Command::ClearContent),
        Step::Do(Command::AddVisual),
    ];
    assert(operation.steps =~= front + (resize + rest));
    assert forall|i: int| 0 <= i < rest.len() implies !(#[trigger] rest[i]).changes_surface() by {
    }
    reveal_with_fuel(extent_after, 6);
    let none: Extent = (false, (0u32, 0u32));
    assert(operation.steps.skip(1).skip(1).skip(1).skip(1).skip(1) =~= resize + rest);
    assert(extent_after(overlay.extent(), operation.steps) == extent_after(none, resize + rest));
    if resize.len() > 0 {
        lemma_extent_after_resize(none, resize, size, rest);
    } else {
        lemma_extent_after_resize(none, resize, (0u32, 0u32), rest);
    }
}

/// An overlay that was never placed has no surface to rebuild, whatever content was
/// set: over any answers none is created, and there is none.
pub proof fn lemma_rebuild_before_placement_creates_nothing(
    overlay: OverlayView,
    replies: Seq<Reply>,
)
    requires
        overlay.wf(),
        !overlay.placed,
    ensures
        ({
            let (end, left) = overlay.played(overlay.rebuilding(), replies);
            &&& !left.finished() ==> !(left.steps[0].asked() is CreateSurface)
            &&& end.extent() == (false, (0u32, 0u32))
        }),
{
    let operation = overlay.rebuilding();
    lemma_none_creates(overlay, operation, replies);
    lemma_content_and_position_stay(overlay, operation, replies);
    lemma_played_ready(overlay, operation, replies);
    let left = overlay.played(operation, replies).1;
    if !left.finished() {
        assert(!(left.steps[0].asked() is CreateSurface));
    }
}

} // verus!
