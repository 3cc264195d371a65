use compositor_overlay::content::{
    content_pixels, shown_size, swap_red_blue, validate_rgba, validate_rgba_fits, Content,
};
use compositor_overlay::destination::{destination_box, validate_destination, Point};
use compositor_overlay::error::OverlayError;

/// An image of `width`x`height` whose pixel values are not under test.
fn image(width: u32, height: u32) -> Content {
    Content::Rgba {
        width,
        height,
        pixels: vec![0; width as usize * height as usize * 4],
    }
}

/// One color channel scaled by alpha and quantized to 8 bits.
fn premultiplied_channel(channel: f32, alpha: f32) -> u8 {
    (channel * alpha * 255.0).round().clamp(0.0, 255.0) as u8
}

/// A solid color, by its red, green, blue and alpha.
fn solid(color: [f32; 4]) -> Content {
    let [r, g, b, a] = color;
    Content::Solid([
        premultiplied_channel(r, a),
        premultiplied_channel(g, a),
        premultiplied_channel(b, a),
        (a * 255.0).round().clamp(0.0, 255.0) as u8,
    ])
}

#[test]
fn rgba_content_must_be_a_complete_nonzero_buffer() {
    assert!(validate_rgba(2, 2, &[0; 16]).is_ok());
    assert!(validate_rgba(1, 1, &[0; 3]).is_err(), "short buffer");
    assert!(validate_rgba(1, 1, &[0; 5]).is_err(), "long buffer");
    assert!(validate_rgba(0, 1, &[]).is_err(), "zero width");
    assert!(validate_rgba(1, 0, &[]).is_err(), "zero height");
    assert!(
        validate_rgba(u32::MAX, u32::MAX, &[0; 4]).is_err(),
        "dimensions that overflow a byte count"
    );
}

#[test]
fn each_flaw_of_an_image_has_its_error() {
    assert_eq!(validate_rgba(0, 1, &[]), Err(OverlayError::EmptyImage));
    assert_eq!(validate_rgba(1, 0, &[0; 4]), Err(OverlayError::EmptyImage));
    assert_eq!(
        validate_rgba(u32::MAX, u32::MAX, &[0; 4]),
        Err(OverlayError::ImageOverflow)
    );
    assert_eq!(
        validate_rgba(1, 1, &[0; 3]),
        Err(OverlayError::ImageLength {
            found: 3,
            expected: 4
        })
    );
    assert_eq!(
        validate_rgba(3, 2, &[0; 25]),
        Err(OverlayError::ImageLength {
            found: 25,
            expected: 24
        })
    );
}

#[test]
fn rgba_content_must_cover_the_surface_it_is_drawn_into() {
    assert!(validate_rgba_fits(22, 22, 22, 22).is_ok());
    assert!(
        validate_rgba_fits(22, 22, 23, 22).is_err(),
        "narrow surface"
    );
    assert!(validate_rgba_fits(22, 22, 22, 21).is_err(), "short surface");
}

/// The update surface's returned origin is where the content must be
/// written; zero is only one of the origins `BeginDraw` may report.
#[test]
fn content_destination_starts_at_the_reported_update_offset() {
    let zero = destination_box(8, 4, Point { x: 0, y: 0 }).expect("zero offset");
    assert_eq!((zero.left, zero.top, zero.right, zero.bottom), (0, 0, 8, 4));
    assert_eq!((zero.front, zero.back), (0, 1), "one depth slice");

    let shifted_x = destination_box(8, 4, Point { x: 3, y: 0 }).expect("positive x");
    assert_eq!(
        (
            shifted_x.left,
            shifted_x.top,
            shifted_x.right,
            shifted_x.bottom
        ),
        (3, 0, 11, 4)
    );

    let shifted_y = destination_box(8, 4, Point { x: 0, y: 5 }).expect("positive y");
    assert_eq!(
        (
            shifted_y.left,
            shifted_y.top,
            shifted_y.right,
            shifted_y.bottom
        ),
        (0, 5, 8, 9)
    );

    let shifted = destination_box(8, 4, Point { x: 2, y: 5 }).expect("x and y");
    assert_eq!(
        (shifted.left, shifted.top, shifted.right, shifted.bottom),
        (2, 5, 10, 9),
        "an offset moves the destination in both axes"
    );
}

#[test]
fn a_negative_update_offset_has_no_destination() {
    assert!(destination_box(8, 4, Point { x: -1, y: 0 }).is_none());
    assert!(destination_box(8, 4, Point { x: 0, y: -1 }).is_none());
}

#[test]
fn an_origin_that_would_overflow_has_no_destination() {
    assert!(destination_box(u32::MAX, 1, Point { x: 1, y: 0 }).is_none());
    assert!(destination_box(1, u32::MAX, Point { x: 0, y: 1 }).is_none());
}

#[test]
fn a_box_may_end_at_the_last_coordinate() {
    let last = destination_box(u32::MAX - 1, u32::MAX, Point { x: 1, y: 0 }).expect("fits");
    assert_eq!((last.right, last.bottom), (u32::MAX, u32::MAX));
}

/// A destination that does not fit is rejected instead of being silently
/// clipped into a cropped draw at the wrong place.
#[test]
fn a_destination_must_stay_inside_the_update_surface() {
    let fits = destination_box(8, 4, Point { x: 2, y: 1 }).expect("offset");
    assert!(validate_destination(&fits, 10, 5).is_ok(), "exactly fits");
    assert!(
        validate_destination(&fits, 9, 5).is_err(),
        "overflows width"
    );
    assert!(
        validate_destination(&fits, 10, 4).is_err(),
        "overflows height"
    );
}

/// A solid color becomes a premultiplied image covering exactly the
/// requested region, so it reaches the surface through the same
/// region-limited upload as an image instead of clearing a whole render
/// target that may extend past the update rectangle.
#[test]
fn a_solid_color_rasterizes_to_a_premultiplied_image() {
    let overlay = solid([0.2, 0.4, 0.6, 0.5]);
    let pixels = content_pixels(&overlay, 2, 2);
    assert_eq!(pixels.len(), 16, "2x2 premultiplied RGBA");
    // Premultiplied: each channel scaled by alpha 0.5.
    assert_eq!(&pixels[0..4], &[26, 51, 77, 128]);
    assert!(
        pixels.chunks_exact(4).all(|pixel| pixel == &pixels[0..4]),
        "every pixel of a solid fill is the same"
    );
}

/// The image kind keeps its own pixels; only the byte order is swapped at
/// the surface boundary, never inside this buffer.
#[test]
fn an_image_keeps_its_pixels() {
    let source = vec![1, 2, 3, 4, 5, 6, 7, 8];
    let content = Content::Rgba {
        width: 2,
        height: 1,
        pixels: source.clone(),
    };
    assert_eq!(content_pixels(&content, 2, 1), source);
}

#[test]
fn red_and_blue_change_places_in_whole_pixels() {
    let mut pixels = vec![1, 2, 3, 4, 5, 6, 7, 8, 9, 10];
    swap_red_blue(&mut pixels);
    assert_eq!(pixels, vec![3, 2, 1, 4, 7, 6, 5, 8, 9, 10]);
    swap_red_blue(&mut pixels);
    assert_eq!(pixels, vec![1, 2, 3, 4, 5, 6, 7, 8, 9, 10], "twice restores");
}

#[test]
fn no_pixels_have_no_bytes() {
    assert!(content_pixels(&Content::Solid([1, 2, 3, 4]), 0, 7).is_empty());
    assert!(content_pixels(&Content::Solid([1, 2, 3, 4]), 7, 0).is_empty());
}

/// The update the app really performs — place the overlay, then upload the
/// image for that placement — ends at the image's own size, in both
/// directions, and the surface holds a complete image at every step.
#[test]
fn an_image_of_another_size_resizes_the_surface_with_it() {
    // Growing: the placement arrives while the previous image is remembered.
    assert_eq!(
        shown_size(&image(24, 24), (30, 30)),
        (24, 24),
        "an image is shown at its own size, never stretched to the placement"
    );
    // The image for the new size arrives in the same update and resizes it.
    assert_eq!(shown_size(&image(30, 30), (30, 30)), (30, 30), "larger");

    // Shrinking behaves the same way.
    assert_eq!(
        shown_size(&image(30, 30), (18, 18)),
        (30, 30),
        "the image on screen stays complete until its replacement arrives"
    );
    assert_eq!(shown_size(&image(18, 18), (18, 18)), (18, 18), "smaller");
}

/// An image that already fills the surface is drawn into the surface it has:
/// neither a same-size update nor a plain move recreates anything.
#[test]
fn a_same_size_image_updates_the_surface_it_already_has() {
    let content = image(24, 24);
    let surface = (24, 24);
    assert_eq!(
        shown_size(&content, surface),
        surface,
        "a same-size image, and a move of one, leave the surface size alone"
    );
}

/// A solid color fills whatever size it is placed at, and the image that
/// replaces it takes the size over from then on.
#[test]
fn a_solid_color_and_an_image_swap_the_size_authority() {
    let solid = solid([0.2, 0.4, 0.6, 1.0]);
    assert_eq!(shown_size(&solid, (30, 30)), (30, 30), "a solid fills it");
    assert_eq!(shown_size(&solid, (18, 18)), (18, 18), "at any size");
    assert_eq!(
        shown_size(&image(24, 24), (30, 30)),
        (24, 24),
        "an image owns the size, not the placement"
    );
    assert_eq!(
        shown_size(&solid, (24, 24)),
        (24, 24),
        "and a solid replacing one keeps the size the surface has"
    );
}

/// A device-loss rebuild restores what the overlay was showing, at the size
/// that content is shown at: an image's own raster size, or the placement for
/// a solid color. A surface the lost device had is never reused.
#[test]
fn a_rebuild_restores_the_remembered_content_at_the_size_it_is_shown_at() {
    assert_eq!(shown_size(&image(30, 30), (30, 30)), (30, 30), "an image");
    let solid = solid([0.2, 0.4, 0.6, 1.0]);
    assert_eq!(shown_size(&solid, (30, 30)), (30, 30), "a solid color");
    assert_eq!(
        shown_size(&solid, (0, 0)),
        (0, 0),
        "an overlay that was never placed has no surface to rebuild"
    );
}

#[test]
fn errors_say_what_is_wrong() {
    assert_eq!(
        OverlayError::EmptyImage.message(),
        "RGBA content dimensions must be non-zero"
    );
    assert_eq!(
        OverlayError::ImageOverflow.message(),
        "RGBA content dimensions overflow"
    );
    assert_eq!(
        validate_rgba(5, 2, &[0; 7]).unwrap_err().message(),
        "RGBA content has 7 bytes, expected 40"
    );
    assert_eq!(
        validate_rgba_fits(22, 0, 4294967295, 10)
            .unwrap_err()
            .message(),
        "RGBA content is 22x0, but the surface is 4294967295x10"
    );
    assert_eq!(
        OverlayError::OffsetOutside.message(),
        "compositor update offset is outside the update surface"
    );
    let leaves = destination_box(8, 4, Point { x: 2, y: 1 }).unwrap();
    assert_eq!(
        validate_destination(&leaves, 9, 123).unwrap_err().message(),
        "compositor update destination 10x5 leaves the 9x123 update surface"
    );
    assert_eq!(
        OverlayError::Device.message(),
        "compositor device call failed"
    );
}
