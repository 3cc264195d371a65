//! Where on an update surface the content of the overlay is written.

use vstd::prelude::*;
use crate::error::OverlayError;

verus! {

/// A pixel position, which may lie outside what it is measured on.
#[derive(Clone, Copy, Debug, PartialEq, Eq, Structural)]
pub struct Point {
    pub x: i32,
    pub y: i32,
}

/// A box of pixels: its first corner is inside it, its second one past it.
#[derive(Clone, Copy, Debug, PartialEq, Eq, Structural)]
pub struct DestinationBox {
    pub left: u32,
    pub top: u32,
    pub front: u32,
    pub right: u32,
    pub bottom: u32,
    pub back: u32,
}

/// The box of `width`x`height` pixels, one slice deep, whose first corner is
/// `offset`. There is none where `offset` is negative, or where the box would
/// end past what a coordinate can say.
pub open spec fn boxed(width: u32, height: u32, offset: Point) -> Option<DestinationBox> {
    if offset.x < 0 || offset.y < 0 || offset.x + width > u32::MAX || offset.y + height > u32::MAX {
        None
    } else {
        Some(
            DestinationBox {
                left: offset.x as u32,
                top: offset.y as u32,
                front: 0,
                right: (offset.x + width) as u32,
                bottom: (offset.y + height) as u32,
                back: 1,
            },
        )
    }
}

impl DestinationBox {
    /// The box leaves no side of a surface of `width`x`height`.
    pub open spec fn inside(self, width: u32, height: u32) -> bool {
        self.right <= width && self.bottom <= height
    }
}

/// The destination box for content of `width`x`height` written at the origin
/// that the compositor reported for an update.
///
/// An update offset is a signed pixel coordinate. A negative one has no
/// destination inside the update surface.
pub fn destination_box(width: u32, height: u32, offset: Point) -> (destination: Option<DestinationBox>)
    ensures
        destination == boxed(width, height, offset),
{
    if offset.x < 0 || offset.y < 0 {
        return None;
    }
    let left: u32 = offset.x as u32;
    let top: u32 = offset.y as u32;
    match (left.checked_add(width), top.checked_add(height)) {
        (Some(right), Some(bottom)) => Some(
            DestinationBox { left, top, front: 0, right, bottom, back: 1 },
        ),
        _ => None,
    }
}

/// Rejects a destination box that leaves the update surface. It would be
/// clipped silently, and the content drawn cropped.
pub fn validate_destination(
    destination: &DestinationBox,
    update_width: u32,
    update_height: u32,
) -> (valid: Result<(), OverlayError>)
    ensures
        destination.inside(update_width, update_height) ==> valid == Ok::<(), OverlayError>(()),
        !destination.inside(update_width, update_height) ==> valid == Err::<(), OverlayError>(
            OverlayError::DestinationOutside {
                right: destination.right,
                bottom: destination.bottom,
                update_width,
                update_height,
            },
        ),
{
    if destination.right <= update_width && destination.bottom <= update_height {
        Ok(())
    } else {
        Err(
            OverlayError::DestinationOutside {
                right: destination.right,
                bottom: destination.bottom,
                update_width,
                update_height,
            },
        )
    }
}

/// There is a box exactly where none of its corners is negative or past the last
/// coordinate. It starts at the offset, is of the size that was asked for, and is
/// one slice deep.
pub proof fn lemma_box_is_of_its_size_at_its_offset(width: u32, height: u32, offset: Point)
    ensures
        boxed(width, height, offset) is Some <==> 0 <= offset.x && 0 <= offset.y && offset.x + width
            < 0x1_0000_0000 && offset.y + height < 0x1_0000_0000,
        boxed(width, height, offset) matches Some(destination) ==> {
            &&& destination.left == offset.x
            &&& destination.top == offset.y
            &&& destination.right - destination.left == width
            &&& destination.bottom - destination.top == height
            &&& destination.front == 0
            &&& destination.back == 1
        },
{
}

/// A box is inside a surface exactly where every pixel of it is one of the surface.
/// Left out are boxes without a pixel.
pub proof fn lemma_box_is_inside_with_all_its_pixels(
    destination: DestinationBox,
    width: u32,
    height: u32,
)
    requires
        destination.left < destination.right,
        destination.top < destination.bottom,
    ensures
        destination.inside(width, height) <==> forall|x: int, y: int|
            #![trigger destination.has(x, y)]
            destination.has(x, y) ==> x < width && y < height,
{
    let (x, y) = (destination.right - 1, destination.bottom - 1);
    assert(destination.has(x, y));
}

impl DestinationBox {
    /// The pixel at `x`, `y` is in the box.
    pub open spec fn has(self, x: int, y: int) -> bool {
        self.left <= x < self.right && self.top <= y < self.bottom
    }
}

} // verus!
