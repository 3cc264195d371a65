//! What the overlay shows inside its surface.

use vstd::prelude::*;
use vstd::slice::slice_to_vec;
use crate::error::OverlayError;

verus! {

/// What the overlay shows inside its surface. The overlay remembers the last
/// content committed to it, so that it can be drawn again after a device loss.
#[derive(Debug)]
pub enum Content {
    /// A solid color, as the premultiplied red, green, blue and alpha of its
    /// every pixel.
    Solid([u8; 4]),
    /// A small tightly packed premultiplied RGBA8 image.
    Rgba { width: u32, height: u32, pixels: Vec<u8> },
}

/// The mathematical content of a [`Content`].
#[verifier::ext_equal]
pub enum ContentView {
    Solid(Seq<u8>),
    Rgba { width: u32, height: u32, pixels: Seq<u8> },
}

impl View for Content {
    type V = ContentView;

    open spec fn view(&self) -> ContentView {
        match *self {
            Content::Solid(pixel) => ContentView::Solid(pixel@),
            Content::Rgba { width, height, pixels } => ContentView::Rgba {
                width,
                height,
                pixels: pixels@,
            },
        }
    }
}

/// The bytes of `width`x`height` pixels.
pub open spec fn byte_count(width: u32, height: u32) -> nat {
    (width * height * 4) as nat
}

/// Why `length` bytes are no image of `width`x`height`, if they are not.
pub open spec fn image_error(width: u32, height: u32, length: nat) -> Option<OverlayError> {
    if width == 0 || height == 0 {
        Some(OverlayError::EmptyImage)
    } else if byte_count(width, height) > usize::MAX {
        Some(OverlayError::ImageOverflow)
    } else if length != byte_count(width, height) {
        Some(
            OverlayError::ImageLength {
                found: length as usize,
                expected: byte_count(width, height) as usize,
            },
        )
    } else {
        None
    }
}

/// Why an image of `width`x`height` does not cover a surface, if it does not.
pub open spec fn fit_error(
    width: u32,
    height: u32,
    surface_width: u32,
    surface_height: u32,
) -> Option<OverlayError> {
    if width == surface_width && height == surface_height {
        None
    } else {
        Some(OverlayError::ImageSize { width, height, surface_width, surface_height })
    }
}

/// Success, unless there is an error.
pub open spec fn verdict(error: Option<OverlayError>) -> Result<(), OverlayError> {
    match error {
        Some(error) => Err(error),
        None => Ok(()),
    }
}

/// `pixels` with red and blue exchanged in every whole pixel.
pub open spec fn red_blue_swapped(pixels: Seq<u8>) -> Seq<u8> {
    Seq::new(
        pixels.len(),
        |i: int|
            if i - i % 4 + 4 > pixels.len() {
                pixels[i]
            } else if i % 4 == 0 {
                pixels[i + 2]
            } else if i % 4 == 2 {
                pixels[i - 2]
            } else {
                pixels[i]
            },
    )
}

impl ContentView {
    /// A solid color is one pixel. An image is exactly the bytes that its
    /// dimensions ask for.
    pub open spec fn wf(self) -> bool {
        match self {
            ContentView::Solid(pixel) => pixel.len() == 4,
            ContentView::Rgba { width, height, pixels } => image_error(width, height, pixels.len())
                is None,
        }
    }

    /// The content as bytes of red, green, blue and alpha for `width`x`height`
    /// pixels: a solid color repeats its pixel, an image is its own bytes.
    pub open spec fn pixels(self, width: u32, height: u32) -> Seq<u8> {
        match self {
            ContentView::Solid(pixel) => Seq::new(
                byte_count(width, height),
                |i: int| pixel[i % 4],
            ),
            ContentView::Rgba { pixels, .. } => pixels,
        }
    }

    /// The size at which the overlay shows the content when it is placed at
    /// `placed`: a solid color fills it, an image has its own.
    pub open spec fn shown(self, placed: (u32, u32)) -> (u32, u32) {
        match self {
            ContentView::Solid(_) => placed,
            ContentView::Rgba { width, height, .. } => (width, height),
        }
    }

    /// Why the content cannot be drawn into a surface of `width`x`height`, if it
    /// cannot.
    pub open spec fn draw_error(self, width: u32, height: u32) -> Option<OverlayError> {
        match self {
            ContentView::Solid(_) => None,
            ContentView::Rgba { width: own_width, height: own_height, pixels } => match image_error(
                own_width,
                own_height,
                pixels.len(),
            ) {
                Some(error) => Some(error),
                None => fit_error(own_width, own_height, width, height),
            },
        }
    }
}

/// Rejects an image that is not exactly the buffer it claims to be: dimensions
/// must be non-zero and `pixels` must hold exactly `width * height * 4` bytes.
pub fn validate_rgba(width: u32, height: u32, pixels: &[u8]) -> (valid: Result<(), OverlayError>)
    ensures
        valid == verdict(image_error(width, height, pixels@.len())),
{
    if width == 0 || height == 0 {
        return Err(OverlayError::EmptyImage);
    }
    let (w, h) = (width as usize, height as usize);
    assert(w * h >= 0) by (nonlinear_arith)
        requires
            0 <= w,
            0 <= h,
    ;
    let expected = match w.checked_mul(h) {
        Some(count) => count.checked_mul(4),
        None => None,
    };
    match expected {
        None => Err(OverlayError::ImageOverflow),
        Some(expected) => {
            if pixels.len() == expected {
                Ok(())
            } else {
                Err(OverlayError::ImageLength { found: pixels.len(), expected })
            }
        },
    }
}

/// Rejects an image that does not cover the surface it is drawn into. The
/// surface is a fixed raster, so an image that does not fill it would be drawn
/// at the wrong scale.
pub fn validate_rgba_fits(
    width: u32,
    height: u32,
    surface_width: u32,
    surface_height: u32,
) -> (valid: Result<(), OverlayError>)
    ensures
        valid == verdict(fit_error(width, height, surface_width, surface_height)),
{
    if width == surface_width && height == surface_height {
        Ok(())
    } else {
        Err(OverlayError::ImageSize { width, height, surface_width, surface_height })
    }
}

/// The content as premultiplied RGBA8 covering `width`x`height`.
///
/// A solid color expands to a buffer of that size, which lets both kinds of
/// content reach the surface through one region-limited upload.
pub fn content_pixels(content: &Content, width: u32, height: u32) -> (pixels: Vec<u8>)
    requires
        content@ is Solid ==> byte_count(width, height) <= isize::MAX,
    ensures
        pixels@ == content@.pixels(width, height),
{
    match content {
        Content::Solid(pixel) => {
            let count = byte_total(width, height);
            let mut pixels: Vec<u8> = Vec::with_capacity(count);
            let mut written: usize = 0;
            while written < count
                invariant
                    count == byte_count(width, height),
                    count % 4 == 0,
                    written % 4 == 0,
                    written <= count,
                    pixels@ =~= Seq::new(written as nat, |i: int| pixel@[i % 4]),
                decreases count - written,
            {
                pixels.push(pixel[0]);
                pixels.push(pixel[1]);
                pixels.push(pixel[2]);
                pixels.push(pixel[3]);
                written = written + 4;
            }
            pixels
        },
        Content::Rgba { pixels, .. } => slice_to_vec(pixels.as_slice()),
    }
}

/// The bytes of `width`x`height` pixels.
fn byte_total(width: u32, height: u32) -> (count: usize)
    requires
        byte_count(width, height) <= usize::MAX,
    ensures
        count == byte_count(width, height),
        count % 4 == 0,
{
    let (w, h) = (width as usize, height as usize);
    assert(0 <= w * h <= w * h * 4) by (nonlinear_arith)
        requires
            0 <= w,
            0 <= h,
    ;
    let count: usize = w * h;
    count * 4
}

/// Exchanges red and blue in every whole pixel of `pixels`.
pub fn swap_red_blue(pixels: &mut Vec<u8>)
    ensures
        final(pixels)@ == red_blue_swapped(old(pixels)@),
{
    let ghost before = pixels@;
    let mut done: usize = 0;
    while pixels.len() - done >= 4
        invariant
            done <= pixels@.len(),
            done % 4 == 0,
            pixels@.len() == before.len(),
            forall|i: int| 0 <= i < done ==> pixels@[i] == red_blue_swapped(before)[i],
            forall|i: int| done <= i < before.len() ==> pixels@[i] == before[i],
        decreases pixels@.len() - done,
    {
        let red: u8 = pixels[done];
        let blue: u8 = pixels[done + 2];
        pixels.set(done, blue);
        pixels.set(done + 2, red);
        done = done + 4;
    }
    assert(pixels@ =~= red_blue_swapped(before));
}

/// The size the overlay shows `content` at when it is placed at `placed`.
///
/// A solid color fills whatever size it is placed at. An image is exactly its
/// own raster size, because the overlay never scales one. A placement that an
/// image does not fill is therefore not applied to the surface: the image stays
/// complete until the image for that size arrives.
pub fn shown_size(content: &Content, placed: (u32, u32)) -> (size: (u32, u32))
    ensures
        size == content@.shown(placed),
{
    match content {
        Content::Solid(_) => placed,
        Content::Rgba { width, height, .. } => (*width, *height),
    }
}

/// Rejects content that cannot be drawn into a surface of `width`x`height`.
pub(crate) fn validate_draw(content: &Content, width: u32, height: u32) -> (valid: Result<
    (),
    OverlayError,
>)
    ensures
        valid == verdict(content@.draw_error(width, height)),
{
    match content {
        Content::Solid(_) => Ok(()),
        Content::Rgba { width: own_width, height: own_height, pixels } => {
            match validate_rgba(*own_width, *own_height, pixels.as_slice()) {
                Ok(()) => validate_rgba_fits(*own_width, *own_height, width, height),
                Err(error) => Err(error),
            }
        },
    }
}

// ---- what holds of content --------------------------------------------------

/// Exchanging red and blue puts the first byte of every pixel in the place of its
/// third and the third in the place of the first. Green, alpha, and what is left
/// over of no whole pixel stay.
pub proof fn lemma_red_and_blue_change_places(pixels: Seq<u8>, index: int)
    requires
        0 <= index,
    ensures
        red_blue_swapped(pixels).len() == pixels.len(),
        4 * index + 4 <= pixels.len() ==> {
            &&& red_blue_swapped(pixels)[4 * index] == pixels[4 * index + 2]
            &&& red_blue_swapped(pixels)[4 * index + 1] == pixels[4 * index + 1]
            &&& red_blue_swapped(pixels)[4 * index + 2] == pixels[4 * index]
            &&& red_blue_swapped(pixels)[4 * index + 3] == pixels[4 * index + 3]
        },
        pixels.len() - pixels.len() % 4 <= index < pixels.len() ==> red_blue_swapped(pixels)[index]
            == pixels[index],
{
    assert((4 * index) % 4 == 0);
    assert((4 * index + 1) % 4 == 1);
    assert((4 * index + 2) % 4 == 2);
    assert((4 * index + 3) % 4 == 3);
}

/// A color, as pixels, is its own four bytes in each pixel. An image, as pixels, is
/// its own bytes, whatever it is asked for.
pub proof fn lemma_pixels_are_those_of_the_content(
    content: ContentView,
    width: u32,
    height: u32,
    index: int,
)
    requires
        0 <= index < width * height,
    ensures
        content matches ContentView::Solid(pixel) ==> {
            let bytes = content.pixels(width, height);
            &&& bytes.len() == width * height * 4
            &&& bytes[4 * index] == pixel[0]
            &&& bytes[4 * index + 1] == pixel[1]
            &&& bytes[4 * index + 2] == pixel[2]
            &&& bytes[4 * index + 3] == pixel[3]
        },
        content matches ContentView::Rgba { pixels, .. } ==> content.pixels(width, height)
            == pixels,
{
    assert((4 * index) % 4 == 0);
    assert((4 * index + 1) % 4 == 1);
    assert((4 * index + 2) % 4 == 2);
    assert((4 * index + 3) % 4 == 3);
}

/// A surface without pixels has no bytes of a color.
pub proof fn lemma_no_pixels_have_no_bytes(pixel: Seq<u8>, width: u32, height: u32)
    requires
        width == 0 || height == 0,
    ensures
        ContentView::Solid(pixel).pixels(width, height).len() == 0,
{
    assert(width * height == 0) by (nonlinear_arith)
        requires
            width == 0 || height == 0,
    ;
}

/// An image is accepted exactly where it has a width and a height, and four bytes
/// for each of its pixels. What has neither is empty; what could have no such number
/// of bytes overflows; and any other number of bytes is told beside the right one.
pub proof fn lemma_image_is_accepted_exactly_with_all_its_bytes(
    width: u32,
    height: u32,
    length: usize,
)
    ensures
        ({
            let error = image_error(width, height, length as nat);
            let bytes = 4 * (width * height);
            &&& error is None <==> width > 0 && height > 0 && length == bytes
            &&& error == Some(OverlayError::EmptyImage) <==> width == 0 || height == 0
            &&& error == Some(OverlayError::ImageOverflow) <==> width > 0 && height > 0 && bytes
                > usize::MAX
            &&& width > 0 && height > 0 && bytes <= usize::MAX && length != bytes ==> error == Some(
                OverlayError::ImageLength { found: length, expected: bytes as usize },
            )
        }),
{
}

/// A color can be drawn into any surface. An image can be drawn exactly into a
/// surface of its own size: where it is no image it has the flaw of the image, and
/// in a surface of another size the flaw names both sizes.
pub proof fn lemma_content_is_drawn_exactly_at_its_size(
    content: ContentView,
    surface_width: u32,
    surface_height: u32,
)
    ensures
        content is Solid ==> content.draw_error(surface_width, surface_height) is None,
        content matches ContentView::Rgba { width, height, pixels } ==> {
            let flaw = image_error(width, height, pixels.len());
            let error = content.draw_error(surface_width, surface_height);
            &&& flaw is Some ==> error == flaw
            &&& flaw is None && (width != surface_width || height != surface_height) ==> error
                == Some(
                OverlayError::ImageSize { width, height, surface_width, surface_height },
            )
            &&& flaw is None && width == surface_width && height == surface_height ==> error
                is None
        },
{
}

/// A color shows at the size it is placed at, and an image at its own, wherever it
/// is placed.
pub proof fn lemma_content_shows_at_its_size(content: ContentView, placed: (u32, u32))
    ensures
        content is Solid ==> content.shown(placed) == placed,
        content matches ContentView::Rgba { width, height, .. } ==> content.shown(placed) == (
            width,
            height,
        ),
{
}

/// A check comes to nothing else than the error it found.
pub proof fn lemma_verdict_is_the_error(error: Option<OverlayError>)
    ensures
        error is None <==> verdict(error) is Ok,
        error matches Some(found) ==> verdict(error) == Err::<(), OverlayError>(found),
{
}

} // verus!
