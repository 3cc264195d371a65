//! What the compositor makes of what it is asked: the side of an overlay that is
//! seen.
//!
//! A screen is followed over the commands of an update and the answers to them. A
//! command that was not done leaves it alone. What was told of a visual is seen
//! once it is committed.

use vstd::prelude::*;
use crate::content::{red_blue_swapped, ContentView};
use crate::destination::{DestinationBox, Point};
use crate::motion::{Curve, MotionView, OpacityEase, OpacitySegment, Piece};
use crate::number::{Double, Single};
use crate::operation::{Command, OperationView, Reply, Target};
use crate::overlay::OverlayView;

verus! {

/// A surface: its size, and the bytes of its pixels where it was drawn in full.
#[verifier::ext_equal]
pub struct Picture {
    pub width: u32,
    pub height: u32,
    pub drawn: Option<Seq<u8>>,
}

/// What the opacity of a visual does.
#[verifier::ext_equal]
pub enum Track {
    Unset,
    /// A value that is held.
    Held(Single),
    /// An animation that plays: all that was added to it, in order.
    Played(Seq<Command>),
}

/// A visual, as the compositor was told about it.
#[verifier::ext_equal]
pub struct Visual {
    /// Whether there is one.
    pub alive: bool,
    pub on_root: bool,
    /// Whether it was asked to be taken off its root.
    pub let_go: bool,
    pub x: Option<Single>,
    pub y: Option<Single>,
    pub opacity: Track,
    pub picture: Option<Picture>,
}

/// A surface that is open for an update.
#[verifier::ext_equal]
pub struct Opening {
    pub target: Target,
    pub width: u32,
    pub height: u32,
    /// Where on the update surface the update starts.
    pub origin: Point,
    /// The size of the update surface, once it was measured.
    pub measured: Option<(u32, u32)>,
    /// What was written to all of the update, and to nothing else.
    pub written: Option<Seq<u8>>,
}

/// The compositor's side of an overlay.
#[verifier::ext_equal]
pub struct Screen {
    /// The overlay's visual.
    pub own: Visual,
    /// What is seen of it: the visual as it was when it was last committed.
    pub shown: Visual,
    /// Whether a visual was created that is not the overlay's yet.
    pub created: bool,
    /// The visual that the overlay had before this one.
    pub left: Option<Visual>,
    /// The surface that was created last and is not attached yet.
    pub fresh: Option<Picture>,
    pub open: Option<Opening>,
    /// All that was added to the created animation.
    pub animation: Seq<Command>,
    /// How many surfaces were created.
    pub surfaces: nat,
    /// How often was committed.
    pub commits: nat,
}

impl Visual {
    /// A visual of which nothing was told, if there is one.
    pub open spec fn blank(alive: bool) -> Visual {
        Visual {
            alive,
            on_root: false,
            let_go: false,
            x: None,
            y: None,
            opacity: Track::Unset,
            picture: None,
        }
    }
}

impl Opening {
    /// The box is the opened update, all of it on the measured update surface, and
    /// the content is of its size.
    pub open spec fn is_filled_by(
        self,
        destination: DestinationBox,
        width: u32,
        height: u32,
    ) -> bool {
        &&& self.width == width
        &&& self.height == height
        &&& destination.left == self.origin.x
        &&& destination.top == self.origin.y
        &&& destination.front == 0
        &&& destination.right == self.origin.x + width
        &&& destination.bottom == self.origin.y + height
        &&& destination.back == 1
        &&& self.measured matches Some(update) && destination.right <= update.0
            && destination.bottom <= update.1
    }
}

impl Screen {
    /// The visual told otherwise.
    pub open spec fn with(self, own: Visual) -> Screen {
        Screen { own, ..self }
    }

    /// The surface `picture` after the opened update is closed.
    pub open spec fn closed(self, opening: Opening, picture: Option<Picture>) -> Option<Picture> {
        match picture {
            Some(surface) => Some(
                Picture {
                    drawn: if surface.width == opening.width && surface.height == opening.height {
                        opening.written
                    } else {
                        None
                    },
                    ..surface
                },
            ),
            None => None,
        }
    }

    /// The screen after `command`, asked for an overlay that shows `content`, was
    /// answered with `reply`.
    pub open spec fn told(self, content: ContentView, command: Command, reply: Reply) -> Screen {
        match (command, reply) {
            (Command::CreateVisual, Reply::Done) => Screen { created: true, ..self },
            (Command::RemoveVisual, _) => self.with(
                Visual {
                    on_root: self.own.on_root && !(reply is Done),
                    let_go: true,
                    ..self.own
                },
            ),
            (Command::AdoptVisual, Reply::Done) => Screen {
                own: Visual::blank(self.created),
                created: false,
                left: Some(self.own),
                ..self
            },
            (Command::ClearContent, Reply::Done) => self.with(
                Visual { picture: None, ..self.own },
            ),
            (Command::AddVisual, Reply::Done) => self.with(Visual { on_root: true, ..self.own }),
            (Command::SetOffsetX(x), Reply::Done) => self.with(Visual { x: Some(x), ..self.own }),
            (Command::SetOffsetY(y), Reply::Done) => self.with(Visual { y: Some(y), ..self.own }),
            (Command::SetOpacity(value), Reply::Done) => self.with(
                Visual { opacity: Track::Held(value), ..self.own },
            ),
            (Command::CreateSurface { width, height }, Reply::Done) => Screen {
                fresh: Some(Picture { width, height, drawn: None }),
                surfaces: self.surfaces + 1,
                ..self
            },
            (Command::BeginDraw { target, width, height }, Reply::Origin(origin)) => Screen {
                open: Some(
                    Opening { target, width, height, origin, measured: None, written: None },
                ),
                ..self
            },
            (Command::MeasureUpdate, Reply::Size { width, height }) => match self.open {
                Some(opening) => Screen {
                    open: Some(Opening { measured: Some((width, height)), ..opening }),
                    ..self
                },
                None => self,
            },
            (Command::Upload { destination, width, height }, Reply::Done) => match self.open {
                Some(opening) => Screen {
                    open: Some(
                        Opening {
                            written: if opening.is_filled_by(destination, width, height) {
                                Some(red_blue_swapped(content.pixels(width, height)))
                            } else {
                                None
                            },
                            ..opening
                        },
                    ),
                    ..self
                },
                None => self,
            },
            (Command::EndDraw { target }, Reply::Done) => match (self.open, target) {
                (Some(opening), Target::Fresh) => if opening.target == target {
                    Screen { fresh: self.closed(opening, self.fresh), open: None, ..self }
                } else {
                    self
                },
                (Some(opening), Target::Attached) => if opening.target == target {
                    Screen {
                        own: Visual {
                            picture: self.closed(opening, self.own.picture),
                            ..self.own
                        },
                        open: None,
                        ..self
                    }
                } else {
                    self
                },
                _ => self,
            },
            (Command::AttachSurface, Reply::Done) => Screen {
                own: Visual { picture: self.fresh, ..self.own },
                fresh: None,
                ..self
            },
            (Command::CreateAnimation, Reply::Done) => Screen { animation: Seq::empty(), ..self },
            (Command::AddCubic(_), Reply::Done) => self.adding(command),
            (Command::EndAnimation { .. }, Reply::Done) => self.adding(command),
            (Command::RepeatAnimation { .. }, Reply::Done) => self.adding(command),
            (Command::AddCubicRest { .. }, Reply::Done) => self.adding(command),
            (Command::AddCubicTurn { .. }, Reply::Done) => self.adding(command),
            (Command::RepeatTurn { .. }, Reply::Done) => self.adding(command),
            (Command::AnimateOpacity, Reply::Done) => self.with(
                Visual { opacity: Track::Played(self.animation), ..self.own },
            ),
            (Command::Commit, Reply::Done) => Screen {
                shown: self.own,
                commits: self.commits + 1,
                ..self
            },
            _ => self,
        }
    }

    /// `command` added to the created animation.
    pub open spec fn adding(self, command: Command) -> Screen {
        Screen { animation: self.animation.push(command), ..self }
    }

    /// After one commit since `before`, all that was told is seen.
    pub open spec fn committed_once_since(self, before: Screen) -> bool {
        &&& self.shown == self.own
        &&& self.commits == before.commits + 1
    }
}

impl OverlayView {
    /// The screen after `replies` to an update of the overlay, taken one by one.
    pub open spec fn screened(
        self,
        operation: OperationView,
        screen: Screen,
        replies: Seq<Reply>,
    ) -> Screen
        decreases replies.len(),
    {
        if replies.len() == 0 {
            screen
        } else {
            let looked_at = self.checked(operation);
            let told = if looked_at.finished() {
                screen
            } else {
                screen.told(self.content, looked_at.steps[0].asked(), replies[0])
            };
            let (overlay, next) = self.resumed(looked_at, replies[0]);
            overlay.screened(next, told, replies.skip(1))
        }
    }
}

// ---- what is to be seen -----------------------------------------------------

impl ContentView {
    /// The red, green, blue or alpha of pixel `index`, counted from zero.
    pub open spec fn channel(self, index: int, which: int) -> u8 {
        match self {
            ContentView::Solid(pixel) => pixel[which],
            ContentView::Rgba { pixels, .. } => pixels[4 * index + which],
        }
    }
}

/// Pixel `index` of `bytes`, which come in the order blue, green, red and alpha, is
/// that of the content.
pub open spec fn pixel_shows(bytes: Seq<u8>, index: int, content: ContentView) -> bool {
    &&& bytes[4 * index] == content.channel(index, 2)
    &&& bytes[4 * index + 1] == content.channel(index, 1)
    &&& bytes[4 * index + 2] == content.channel(index, 0)
    &&& bytes[4 * index + 3] == content.channel(index, 3)
}

impl ContentView {
    /// A color is one pixel, and an image has four bytes for each of its pixels.
    pub open spec fn whole(self) -> bool {
        match self {
            ContentView::Solid(pixel) => pixel.len() == 4,
            ContentView::Rgba { width, height, pixels } => pixels.len() == width * height * 4,
        }
    }
}

impl Picture {
    /// Each pixel of the picture is that of the content, and an image is of its
    /// size.
    pub open spec fn shows(self, content: ContentView) -> bool {
        &&& content matches ContentView::Rgba { width, height, .. } ==> self.width == width
            && self.height == height
        &&& self.drawn matches Some(bytes) && {
            &&& bytes.len() == self.width * self.height * 4
            &&& forall|index: int|
                0 <= index < self.width * self.height ==> #[trigger] pixel_shows(
                    bytes,
                    index,
                    content,
                )
        }
    }
}

/// Both are numbers, and `a` is the smaller.
pub open spec fn below(a: Double, b: Double) -> bool {
    !a.is_nan() && !b.is_nan() && a.value() < b.value()
}

/// The piece moves as the segment says: over its time from its start value to its
/// end value where it is smooth and takes time, else at its end value.
pub open spec fn moves_as(piece: Piece, segment: OpacitySegment) -> bool {
    if segment.ease == OpacityEase::Smooth && below(segment.start_s, segment.end_s) {
        piece == Piece::Eased(
            Curve {
                from: segment.start_value,
                to: segment.end_value,
                start_s: segment.start_s,
                end_s: segment.end_s,
            },
        )
    } else {
        piece == (Piece::Flat { start_s: segment.start_s, value: segment.end_value })
    }
}

/// Segment `index` is the first that ends after `at_s`, or the last where none does.
pub open spec fn is_on(segments: Seq<OpacitySegment>, at_s: Double, index: int) -> bool {
    &&& 0 <= index < segments.len()
    &&& below(at_s, segments[index].end_s) || index == segments.len() - 1
    &&& forall|earlier: int|
        0 <= earlier < index ==> !below(at_s, (#[trigger] segments[earlier]).end_s)
}

/// The animation is the segments, one by one, and from their end on the same again.
pub open spec fn plays_all(animation: Seq<Command>, segments: Seq<OpacitySegment>) -> bool {
    let count = segments.len() as int;
    &&& count > 0
    &&& animation.len() == count + 1
    &&& forall|i: int|
        0 <= i < count ==> (animation[i] matches Command::AddCubic(piece) && moves_as(
            piece,
            #[trigger] segments[i],
        ))
    &&& animation[count] == (Command::RepeatAnimation {
        begin_s: segments[count - 1].end_s,
        duration_s: segments[count - 1].end_s,
    })
}

/// The animation is the rest of the segments from segment `first` on, as they play
/// from `at_s` on; then a turn of all the segments, one by one; and from its end on
/// the same again.
pub open spec fn plays_on(
    animation: Seq<Command>,
    segments: Seq<OpacitySegment>,
    at_s: Double,
    first: int,
) -> bool {
    let count = segments.len() as int;
    let left = count - first;
    let length_s = segments[count - 1].end_s;
    &&& animation.len() == left + count + 1
    &&& forall|i: int|
        first <= i < count ==> (animation[i - first] matches Command::AddCubicRest {
            piece,
            at_s: from_s,
        } && from_s == at_s && moves_as(piece, #[trigger] segments[i]))
    &&& forall|i: int|
        0 <= i < count ==> (animation[left + i] matches Command::AddCubicTurn {
            piece,
            at_s: from_s,
            turn_s,
        } && from_s == at_s && turn_s == length_s && moves_as(piece, #[trigger] segments[i]))
    &&& animation[left + count] == (Command::RepeatTurn { at_s, turn_s: length_s })
}

impl Track {
    /// The opacity does what the motion says: a held value is held; a fade eases
    /// from its value to its target, over its time from zero on, and ends there; a
    /// cycle plays all its segments, or plays on from where it was.
    pub open spec fn follows(self, motion: MotionView) -> bool {
        match motion {
            MotionView::Hold(value) => self == Track::Held(value),
            MotionView::Fade { from, to, duration_s, .. } => self == Track::Played(
                seq![
                    Command::AddCubic(
                        Piece::Eased(
                            Curve { from, to, start_s: Double { bits: 0 }, end_s: duration_s },
                        ),
                    ),
                    Command::EndAnimation { at_s: duration_s, value: to },
                ],
            ),
            MotionView::Breathe { segments, .. } => self matches Track::Played(animation) && (
            plays_all(animation, segments) || exists|at_s: Double, first: int|
                is_on(segments, at_s, first) && #[trigger] plays_on(
                    animation,
                    segments,
                    at_s,
                    first,
                )),
        }
    }
}

impl Visual {
    /// The visual shows what the overlay remembers: where it is, what it shows and
    /// how its opacity moves.
    pub open spec fn shows(self, overlay: OverlayView) -> bool {
        &&& self.alive
        &&& self.on_root
        &&& self.x == Some(overlay.x)
        &&& self.y == Some(overlay.y)
        &&& self.opacity.follows(overlay.motion)
        &&& self.has_picture_of(overlay)
    }

    /// The visual has a picture exactly where the overlay has a surface, of its
    /// size, and it shows the content.
    pub open spec fn has_picture_of(self, overlay: OverlayView) -> bool {
        match self.picture {
            Some(picture) => {
                &&& overlay.surface
                &&& picture.width == overlay.width
                &&& picture.height == overlay.height
                &&& picture.shows(overlay.content)
            },
            None => !overlay.surface,
        }
    }
}

} // verus!
