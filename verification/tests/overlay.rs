use compositor_overlay::content::Content;
use compositor_overlay::destination::{DestinationBox, Point};
use compositor_overlay::error::OverlayError;
use compositor_overlay::motion::{Curve, Motion, OpacityEase, OpacitySegment, Piece};
use compositor_overlay::number::{Double, Single};
use compositor_overlay::operation::{Command, Operation, Progress, Reply, Step, Target};
use compositor_overlay::overlay::CompositorOverlay;

fn seconds(value: f64) -> Double {
    Double {
        bits: value.to_bits(),
    }
}

fn single(value: f32) -> Single {
    Single {
        bits: value.to_bits(),
    }
}

fn in_seconds(elapsed_ns: u128) -> f64 {
    std::time::Duration::new(
        (elapsed_ns / 1_000_000_000) as u64,
        (elapsed_ns % 1_000_000_000) as u32,
    )
    .as_secs_f64()
}

fn on_curve(curve: Curve, at_s: Double) -> f32 {
    let (from, to) = (f32::from_bits(curve.from.bits), f32::from_bits(curve.to.bits));
    let (start, end) = (
        f64::from_bits(curve.start_s.bits),
        f64::from_bits(curve.end_s.bits),
    );
    let u = ((f64::from_bits(at_s.bits) - start) / (end - start)).clamp(0.0, 1.0);
    from + (to - from) * (u * u * (3.0 - 2.0 * u)) as f32
}

/// A compositor that does what it is asked, except the one call it fails.
struct Compositor {
    asked: Vec<Command>,
    uploads: Vec<(Vec<u8>, u32)>,
    fails: Option<fn(&Command) -> bool>,
    origin: Point,
    update: (u32, u32),
    now_ns: u128,
}

impl Compositor {
    fn new() -> Compositor {
        Compositor {
            asked: vec![],
            uploads: vec![],
            fails: None,
            origin: Point { x: 0, y: 0 },
            update: (4096, 4096),
            now_ns: 0,
        }
    }

    fn answer(&mut self, overlay: &CompositorOverlay, command: Command) -> Reply {
        self.asked.push(command);
        if let Some(fails) = self.fails {
            if fails(&command) {
                return Reply::Failed;
            }
        }
        match command {
            Command::BeginDraw { .. } => Reply::Origin(self.origin),
            Command::MeasureUpdate => Reply::Size {
                width: self.update.0,
                height: self.update.1,
            },
            Command::Upload { width, height, .. } => {
                assert!(overlay.is_drawable(width, height));
                self.uploads.push(overlay.draw_content(width, height));
                Reply::Done
            }
            Command::ReadClock => Reply::Now(self.now_ns),
            Command::Position {
                elapsed_ns,
                cycle_s,
            } => {
                let elapsed = in_seconds(elapsed_ns);
                Reply::Seconds(seconds(match cycle_s {
                    Some(cycle) => elapsed % f64::from_bits(cycle.bits),
                    None => elapsed,
                }))
            }
            Command::Remaining {
                duration_s,
                elapsed_ns,
            } => Reply::Seconds(seconds(
                f64::from_bits(duration_s.bits) - in_seconds(elapsed_ns),
            )),
            Command::Evaluate { curve, at_s } => Reply::Opacity(single(on_curve(curve, at_s))),
            _ => Reply::Done,
        }
    }

    fn run(
        &mut self,
        overlay: &mut CompositorOverlay,
        mut operation: Operation,
    ) -> Result<(), OverlayError> {
        self.asked.clear();
        self.uploads.clear();
        loop {
            match overlay.advance(&mut operation) {
                Progress::Issue(command) => {
                    let reply = self.answer(overlay, command);
                    overlay.resume(&mut operation, reply);
                }
                Progress::Finished(result) => return result,
            }
        }
    }

    fn place(&mut self, overlay: &mut CompositorOverlay, x: f32, y: f32, w: u32, h: u32) {
        let operation = overlay.set_geometry_impl(single(x), single(y), w, h);
        assert_eq!(self.run(overlay, operation), Ok(()));
    }

    fn show(&mut self, overlay: &mut CompositorOverlay, w: u32, h: u32) {
        let operation = overlay
            .set_content_rgba_impl(w, h, &image(w, h))
            .expect("a valid image");
        assert_eq!(self.run(overlay, operation), Ok(()));
    }
}

fn image(width: u32, height: u32) -> Vec<u8> {
    (0..width * height * 4).map(|i| i as u8).collect()
}

fn fresh() -> CompositorOverlay {
    let (mut overlay, operation) = CompositorOverlay::new();
    assert_eq!(Compositor::new().run(&mut overlay, operation), Ok(()));
    overlay
}

fn extent(overlay: &CompositorOverlay) -> (bool, u32, u32) {
    (overlay.surface, overlay.width, overlay.height)
}

fn breath() -> Vec<OpacitySegment> {
    vec![
        OpacitySegment {
            start_s: seconds(0.0),
            end_s: seconds(0.5),
            start_value: single(0.0),
            end_value: single(1.0),
            ease: OpacityEase::Smooth,
        },
        OpacitySegment {
            start_s: seconds(0.5),
            end_s: seconds(1.0),
            start_value: single(1.0),
            end_value: single(1.0),
            ease: OpacityEase::Hold,
        },
    ]
}

#[test]
fn a_new_overlay_is_hidden_and_contentless() {
    let (mut overlay, operation) = CompositorOverlay::new();
    let mut compositor = Compositor::new();
    assert_eq!(compositor.run(&mut overlay, operation), Ok(()));
    assert_eq!(
        compositor.asked,
        vec![
            Command::CreateVisual,
            Command::AdoptVisual,
            Command::ClearContent,
            Command::AddVisual,
            Command::SetOffsetX(single(0.0)),
            Command::SetOffsetY(single(0.0)),
            Command::SetOpacity(single(0.0)),
            Command::Commit,
        ]
    );
    assert_eq!(extent(&overlay), (false, 0, 0));
    assert!(matches!(overlay.motion, Motion::Hold(value) if value == single(0.0)));
    assert!(matches!(overlay.content, Content::Solid([0, 0, 0, 255])));
}

#[test]
fn a_solid_placement_draws_a_new_surface_before_attaching_it() {
    let mut overlay = fresh();
    let mut compositor = Compositor::new();
    compositor.origin = Point { x: 3, y: 5 };
    let operation = overlay.set_color_impl([1, 2, 3, 4]);
    assert_eq!(compositor.run(&mut overlay, operation), Ok(()));
    assert_eq!(compositor.asked, vec![Command::Commit], "no surface yet");
    compositor.place(&mut overlay, 1.5, -2.5, 2, 1);
    assert_eq!(
        compositor.asked,
        vec![
            Command::CreateSurface {
                width: 2,
                height: 1
            },
            Command::BeginDraw {
                target: Target::Fresh,
                width: 2,
                height: 1
            },
            Command::MeasureUpdate,
            Command::Upload {
                destination: DestinationBox {
                    left: 3,
                    top: 5,
                    front: 0,
                    right: 5,
                    bottom: 6,
                    back: 1
                },
                width: 2,
                height: 1
            },
            Command::EndDraw {
                target: Target::Fresh
            },
            Command::AttachSurface,
            Command::SetOffsetX(single(1.5)),
            Command::SetOffsetY(single(-2.5)),
            Command::Commit,
        ]
    );
    assert_eq!(
        compositor.uploads,
        vec![(vec![3, 2, 1, 4, 3, 2, 1, 4], 8)],
        "blue first, two pixels a row"
    );
    assert_eq!(extent(&overlay), (true, 2, 1));
    compositor.place(&mut overlay, 9.0, 9.0, 2, 1);
    assert_eq!(
        compositor.asked,
        vec![
            Command::SetOffsetX(single(9.0)),
            Command::SetOffsetY(single(9.0)),
            Command::Commit
        ],
        "a plain move"
    );
}

#[test]
fn an_image_keeps_its_size_until_the_next_one_arrives() {
    let mut overlay = fresh();
    let mut compositor = Compositor::new();
    compositor.place(&mut overlay, 0.0, 0.0, 24, 24);
    compositor.show(&mut overlay, 24, 24);
    assert_eq!(
        compositor.asked[0],
        Command::BeginDraw {
            target: Target::Attached,
            width: 24,
            height: 24
        }
    );
    compositor.place(&mut overlay, 0.0, 0.0, 30, 30);
    assert_eq!(extent(&overlay), (true, 24, 24));
    assert_eq!(compositor.asked.len(), 3, "the surface is left alone");
    compositor.show(&mut overlay, 30, 30);
    assert_eq!(extent(&overlay), (true, 30, 30));
    let operation = overlay.set_color_impl([9, 9, 9, 9]);
    assert_eq!(compositor.run(&mut overlay, operation), Ok(()));
    assert_eq!(extent(&overlay), (true, 30, 30), "a color keeps the size");
}

#[test]
fn a_placement_and_its_image_may_come_in_either_order() {
    let mut compositor = Compositor::new();
    let mut one = fresh();
    compositor.place(&mut one, 1.0, 2.0, 30, 20);
    compositor.show(&mut one, 30, 20);
    let mut other = fresh();
    compositor.show(&mut other, 30, 20);
    assert_eq!(extent(&other), (false, 0, 0));
    compositor.place(&mut other, 1.0, 2.0, 30, 20);
    assert_eq!(extent(&one), (true, 30, 20));
    assert_eq!(format!("{one:?}"), format!("{other:?}"));

    let mut nowhere = fresh();
    compositor.place(&mut nowhere, 1.0, 2.0, 0, 0);
    compositor.show(&mut nowhere, 30, 20);
    assert_eq!(extent(&nowhere), (false, 0, 0), "placed at no size");
}

#[test]
fn a_rejected_image_changes_nothing() {
    let mut overlay = fresh();
    let mut compositor = Compositor::new();
    compositor.place(&mut overlay, 0.0, 0.0, 2, 2);
    compositor.show(&mut overlay, 2, 2);
    let before = format!("{overlay:?}");
    assert_eq!(
        overlay.set_content_rgba_impl(2, 2, &[0; 15]).unwrap_err(),
        OverlayError::ImageLength {
            found: 15,
            expected: 16
        }
    );
    assert_eq!(format!("{overlay:?}"), before);
}

#[test]
fn a_surface_that_was_opened_is_closed_on_every_path() {
    let failures: [fn(&Command) -> bool; 3] = [
        |command| matches!(command, Command::MeasureUpdate),
        |command| matches!(command, Command::Upload { .. }),
        |command| matches!(command, Command::EndDraw { .. }),
    ];
    for fails in failures {
        let mut overlay = fresh();
        let mut compositor = Compositor::new();
        compositor.fails = Some(fails);
        let operation = overlay.set_geometry_impl(single(4.0), single(5.0), 8, 8);
        assert_eq!(
            compositor.run(&mut overlay, operation),
            Err(OverlayError::Device)
        );
        assert_eq!(
            compositor.asked.last(),
            Some(&Command::EndDraw {
                target: Target::Fresh
            })
        );
        assert_eq!(extent(&overlay), (false, 0, 0), "nothing was attached");
        assert_eq!((overlay.x, overlay.y), (single(4.0), single(5.0)));
    }
}

#[test]
fn content_that_would_be_clipped_is_not_written() {
    let mut overlay = fresh();
    let mut compositor = Compositor::new();
    compositor.origin = Point { x: 1, y: 0 };
    compositor.update = (8, 8);
    let operation = overlay.set_geometry_impl(single(0.0), single(0.0), 8, 8);
    assert_eq!(
        compositor.run(&mut overlay, operation),
        Err(OverlayError::DestinationOutside {
            right: 9,
            bottom: 8,
            update_width: 8,
            update_height: 8
        })
    );
    assert!(compositor.uploads.is_empty());
    compositor.origin = Point { x: 0, y: -1 };
    compositor.fails = Some(|command| matches!(command, Command::EndDraw { .. }));
    let operation = overlay.set_geometry_impl(single(0.0), single(0.0), 8, 8);
    assert_eq!(
        compositor.run(&mut overlay, operation),
        Err(OverlayError::OffsetOutside),
        "what went wrong first stands"
    );
    assert!(compositor.uploads.is_empty());
}

#[test]
fn content_that_does_not_cover_its_surface_is_rejected_before_it_is_opened() {
    let mut overlay = fresh();
    let mut compositor = Compositor::new();
    compositor.show(&mut overlay, 3, 2);
    let operation = Operation {
        steps: vec![
            Step::BeginDraw {
                target: Target::Attached,
                width: 4,
                height: 4,
            },
            Step::Do(Command::Commit),
        ],
        cycle: vec![],
        open: None,
        failure: None,
    };
    assert_eq!(
        compositor.run(&mut overlay, operation),
        Err(OverlayError::ImageSize {
            width: 3,
            height: 2,
            surface_width: 4,
            surface_height: 4
        })
    );
    assert!(compositor.asked.is_empty());
}

#[test]
fn an_answer_to_something_else_counts_as_a_failure() {
    let mut overlay = fresh();
    let mut operation = overlay.set_color_impl([0; 4]);
    assert_eq!(
        overlay.advance(&mut operation),
        Progress::Issue(Command::Commit)
    );
    overlay.resume(&mut operation, Reply::Now(1));
    assert_eq!(
        overlay.advance(&mut operation),
        Progress::Finished(Err(OverlayError::Device))
    );
    overlay.resume(&mut operation, Reply::Done);
    assert_eq!(
        overlay.advance(&mut operation),
        Progress::Finished(Err(OverlayError::Device)),
        "what comes after the end changes nothing"
    );
}

#[test]
fn a_fade_starts_from_the_opacity_on_screen() {
    let mut overlay = fresh();
    let mut compositor = Compositor::new();
    compositor.now_ns = 1_000;
    let operation = overlay.fade_impl(single(1.0), seconds(2.0));
    assert_eq!(compositor.run(&mut overlay, operation), Ok(()));
    assert_eq!(
        compositor.asked,
        vec![
            Command::ReadClock,
            Command::Position {
                elapsed_ns: 0,
                cycle_s: None
            },
            Command::CreateAnimation,
            Command::AddCubic(Piece::Eased(Curve {
                from: single(0.0),
                to: single(1.0),
                start_s: seconds(0.0),
                end_s: seconds(2.0)
            })),
            Command::EndAnimation {
                at_s: seconds(2.0),
                value: single(1.0)
            },
            Command::AnimateOpacity,
            Command::Commit,
        ]
    );
    // Half way up the curve, the next fade turns back from there.
    compositor.now_ns = 1_000_001_000;
    let operation = overlay.fade_impl(single(0.0), seconds(4.0));
    assert_eq!(compositor.run(&mut overlay, operation), Ok(()));
    assert!(matches!(
        overlay.motion,
        Motion::Fade { from, to, started_ns: 1_000_001_000, duration_s }
            if from == single(0.5) && to == single(0.0) && duration_s == seconds(4.0)
    ));
}

#[test]
fn a_fade_without_time_or_way_holds_its_target() {
    let mut overlay = fresh();
    let mut compositor = Compositor::new();
    for (target, duration) in [(0.75f32, 0.0), (0.5, -1.0), (0.5, 3.0)] {
        let operation = overlay.fade_impl(single(target), seconds(duration));
        assert_eq!(compositor.run(&mut overlay, operation), Ok(()));
        assert_eq!(
            compositor.asked[2..],
            [Command::SetOpacity(single(target)), Command::Commit]
        );
        assert!(matches!(overlay.motion, Motion::Hold(value) if value == single(target)));
    }
}

#[test]
fn a_fade_that_the_compositor_refuses_is_not_remembered() {
    let mut overlay = fresh();
    let mut compositor = Compositor::new();
    compositor.fails = Some(|command| matches!(command, Command::AnimateOpacity));
    let operation = overlay.fade_impl(single(1.0), seconds(2.0));
    assert_eq!(
        compositor.run(&mut overlay, operation),
        Err(OverlayError::Device)
    );
    assert!(matches!(overlay.motion, Motion::Hold(value) if value == single(0.0)));
}

#[test]
fn a_fade_that_plays_is_remembered_even_where_the_commit_fails() {
    let mut overlay = fresh();
    let mut compositor = Compositor::new();
    compositor.now_ns = 9;
    compositor.fails = Some(|command| matches!(command, Command::Commit));
    let operation = overlay.fade_impl(single(1.0), seconds(2.0));
    assert_eq!(
        compositor.run(&mut overlay, operation),
        Err(OverlayError::Device)
    );
    assert!(matches!(
        overlay.motion,
        Motion::Fade { from, to, started_ns: 9, duration_s }
            if from == single(0.0) && to == single(1.0) && duration_s == seconds(2.0)
    ));
}

#[test]
fn a_cycle_that_the_compositor_refuses_is_not_remembered() {
    let refusals: [fn(&Command) -> bool; 4] = [
        |command| matches!(command, Command::CreateAnimation),
        |command| matches!(command, Command::AddCubic(_)),
        |command| matches!(command, Command::RepeatAnimation { .. }),
        |command| matches!(command, Command::AnimateOpacity),
    ];
    for fails in refusals {
        let mut overlay = fresh();
        let mut compositor = Compositor::new();
        compositor.fails = Some(fails);
        let operation = overlay.breathe_impl(&breath());
        assert_eq!(
            compositor.run(&mut overlay, operation),
            Err(OverlayError::Device)
        );
        assert!(matches!(overlay.motion, Motion::Hold(value) if value == single(0.0)));
    }
    let mut overlay = fresh();
    let mut compositor = Compositor::new();
    compositor.now_ns = 9;
    compositor.fails = Some(|command| matches!(command, Command::Commit));
    let operation = overlay.breathe_impl(&breath());
    assert_eq!(
        compositor.run(&mut overlay, operation),
        Err(OverlayError::Device)
    );
    assert!(
        matches!(&overlay.motion, Motion::Breathe { started_ns: 9, segments } if *segments == breath()),
        "it plays, though the commit failed"
    );
}

#[test]
fn a_rebuild_whose_fade_is_refused_keeps_the_fade() {
    let mut overlay = fresh();
    let mut compositor = Compositor::new();
    let operation = overlay.fade_impl(single(1.0), seconds(2.0));
    assert_eq!(compositor.run(&mut overlay, operation), Ok(()));
    let before = format!("{overlay:?}");
    compositor.now_ns = 1_000_000_000;
    compositor.fails = Some(|command| matches!(command, Command::AnimateOpacity));
    let operation = overlay.rebuild();
    assert_eq!(
        compositor.run(&mut overlay, operation),
        Err(OverlayError::Device)
    );
    assert_eq!(format!("{overlay:?}"), before);
}

#[test]
fn a_cycle_plays_a_piece_for_each_segment() {
    let mut overlay = fresh();
    let mut compositor = Compositor::new();
    compositor.now_ns = 77;
    let operation = overlay.breathe_impl(&breath());
    assert_eq!(compositor.run(&mut overlay, operation), Ok(()));
    assert_eq!(
        compositor.asked,
        vec![
            Command::CreateAnimation,
            Command::AddCubic(Piece::Eased(Curve {
                from: single(0.0),
                to: single(1.0),
                start_s: seconds(0.0),
                end_s: seconds(0.5)
            })),
            Command::AddCubic(Piece::Flat {
                start_s: seconds(0.5),
                value: single(1.0)
            }),
            Command::RepeatAnimation {
                begin_s: seconds(1.0),
                duration_s: seconds(1.0)
            },
            Command::AnimateOpacity,
            Command::ReadClock,
            Command::Commit,
        ]
    );
    assert!(
        matches!(&overlay.motion, Motion::Breathe { started_ns: 77, segments } if *segments == breath())
    );
    // A quarter of a second into the fourth turn, half way up.
    compositor.now_ns = 77 + 3_250_000_000;
    let operation = overlay.fade_impl(single(0.0), seconds(1.0));
    assert_eq!(compositor.run(&mut overlay, operation), Ok(()));
    assert_eq!(
        compositor.asked[1],
        Command::Position {
            elapsed_ns: 3_250_000_000,
            cycle_s: Some(seconds(1.0))
        }
    );
    assert!(matches!(overlay.motion, Motion::Fade { from, .. } if from == single(0.5)));
}

#[test]
fn a_cycle_without_segments_does_nothing() {
    let mut overlay = fresh();
    let mut compositor = Compositor::new();
    let operation = overlay.breathe_impl(&[]);
    assert_eq!(compositor.run(&mut overlay, operation), Ok(()));
    assert!(compositor.asked.is_empty());
    assert!(matches!(overlay.motion, Motion::Hold(_)));
}

#[test]
fn a_hold_is_remembered_even_where_it_fails() {
    let mut overlay = fresh();
    let mut compositor = Compositor::new();
    compositor.fails = Some(|command| matches!(command, Command::SetOpacity(_)));
    let operation = overlay.hold_impl(single(0.25));
    assert_eq!(
        compositor.run(&mut overlay, operation),
        Err(OverlayError::Device)
    );
    assert_eq!(compositor.asked, vec![Command::SetOpacity(single(0.25))]);
    assert!(matches!(overlay.motion, Motion::Hold(value) if value == single(0.25)));
}

#[test]
fn a_rebuild_restores_image_position_and_held_opacity() {
    let mut overlay = fresh();
    let mut compositor = Compositor::new();
    compositor.place(&mut overlay, 7.0, 8.0, 2, 1);
    compositor.show(&mut overlay, 3, 1);
    let operation = overlay.hold_impl(single(0.5));
    assert_eq!(compositor.run(&mut overlay, operation), Ok(()));
    let before = format!("{overlay:?}");
    compositor.fails = Some(|command| matches!(command, Command::RemoveVisual));
    let operation = overlay.rebuild();
    assert_eq!(
        compositor.run(&mut overlay, operation),
        Ok(()),
        "a visual that cannot be removed is no failure"
    );
    assert_eq!(
        compositor.asked[..6],
        [
            Command::CreateVisual,
            Command::RemoveVisual,
            Command::AdoptVisual,
            Command::ClearContent,
            Command::AddVisual,
            Command::CreateSurface {
                width: 3,
                height: 1
            },
        ]
    );
    assert_eq!(
        compositor.asked[11..],
        [
            Command::SetOffsetX(single(7.0)),
            Command::SetOffsetY(single(8.0)),
            Command::Commit,
            Command::SetOpacity(single(0.5)),
            Command::Commit,
        ]
    );
    assert_eq!(format!("{overlay:?}"), before);
}

#[test]
fn a_rebuild_of_an_overlay_that_was_never_placed_makes_no_surface() {
    let mut overlay = fresh();
    let mut compositor = Compositor::new();
    let without_surface = [
        Command::CreateVisual,
        Command::RemoveVisual,
        Command::Commit,
        Command::AdoptVisual,
        Command::ClearContent,
        Command::AddVisual,
        Command::SetOffsetX(single(0.0)),
        Command::SetOffsetY(single(0.0)),
        Command::Commit,
        Command::SetOpacity(single(0.0)),
        Command::Commit,
    ];
    let operation = overlay.rebuild();
    assert_eq!(compositor.run(&mut overlay, operation), Ok(()));
    assert_eq!(extent(&overlay), (false, 0, 0), "a solid color");
    assert_eq!(compositor.asked, without_surface);
    compositor.show(&mut overlay, 30, 20);
    let operation = overlay.rebuild();
    assert_eq!(compositor.run(&mut overlay, operation), Ok(()));
    assert_eq!(extent(&overlay), (false, 0, 0), "an image");
    assert_eq!(compositor.asked, without_surface);
    assert!(!overlay.placed);
    compositor.place(&mut overlay, 1.0, 2.0, 30, 20);
    assert_eq!(extent(&overlay), (true, 30, 20), "placed at last");
    assert!(overlay.placed);
}

#[test]
fn a_rebuild_that_failed_half_way_can_be_tried_again() {
    let mut overlay = fresh();
    let mut compositor = Compositor::new();
    compositor.place(&mut overlay, 7.0, 8.0, 3, 1);
    compositor.show(&mut overlay, 3, 1);
    compositor.fails = Some(|command| matches!(command, Command::CreateSurface { .. }));
    let operation = overlay.rebuild();
    assert_eq!(
        compositor.run(&mut overlay, operation),
        Err(OverlayError::Device)
    );
    assert_eq!(extent(&overlay), (false, 0, 0));
    compositor.fails = None;
    let operation = overlay.rebuild();
    assert_eq!(compositor.run(&mut overlay, operation), Ok(()));
    assert_eq!(extent(&overlay), (true, 3, 1));
    assert_eq!(compositor.uploads.len(), 1);
}

#[test]
fn a_rebuild_that_gets_no_visual_leaves_everything() {
    let mut overlay = fresh();
    let mut compositor = Compositor::new();
    compositor.place(&mut overlay, 7.0, 8.0, 2, 1);
    let before = format!("{overlay:?}");
    compositor.fails = Some(|command| matches!(command, Command::CreateVisual));
    let operation = overlay.rebuild();
    assert_eq!(
        compositor.run(&mut overlay, operation),
        Err(OverlayError::Device)
    );
    assert_eq!(format!("{overlay:?}"), before);
    assert_eq!(compositor.asked, vec![Command::CreateVisual]);
}

#[test]
fn a_rebuild_finishes_a_fade_in_the_time_it_had_left() {
    let mut overlay = fresh();
    let mut compositor = Compositor::new();
    let operation = overlay.fade_impl(single(1.0), seconds(2.0));
    assert_eq!(compositor.run(&mut overlay, operation), Ok(()));
    compositor.now_ns = 1_000_000_000;
    let operation = overlay.rebuild();
    assert_eq!(compositor.run(&mut overlay, operation), Ok(()));
    assert_eq!(
        compositor.asked[9..12],
        [
            Command::ReadClock,
            Command::Remaining {
                duration_s: seconds(2.0),
                elapsed_ns: 1_000_000_000
            },
            Command::ReadClock,
        ]
    );
    assert!(matches!(
        overlay.motion,
        Motion::Fade { from, to, started_ns: 1_000_000_000, duration_s }
            if from == single(0.5) && to == single(1.0) && duration_s == seconds(1.0)
    ));
    compositor.now_ns = 5_000_000_000;
    let operation = overlay.rebuild();
    assert_eq!(compositor.run(&mut overlay, operation), Ok(()));
    assert!(matches!(overlay.motion, Motion::Hold(value) if value == single(1.0)));
}

#[test]
fn a_rebuild_goes_on_with_a_cycle_where_it_is() {
    let mut overlay = fresh();
    let mut compositor = Compositor::new();
    compositor.now_ns = 77;
    let operation = overlay.breathe_impl(&breath());
    assert_eq!(compositor.run(&mut overlay, operation), Ok(()));
    let before = format!("{overlay:?}");
    let up = Piece::Eased(Curve {
        from: single(0.0),
        to: single(1.0),
        start_s: seconds(0.0),
        end_s: seconds(0.5),
    });
    let flat = Piece::Flat {
        start_s: seconds(0.5),
        value: single(1.0),
    };
    let (at_s, turn_s) = (seconds(0.25), seconds(1.0));
    // A quarter of a second into the fourth turn.
    compositor.now_ns = 77 + 3_250_000_000;
    let operation = overlay.rebuild();
    assert_eq!(compositor.run(&mut overlay, operation), Ok(()));
    assert_eq!(
        compositor.asked[9..],
        [
            Command::ReadClock,
            Command::Position {
                elapsed_ns: 3_250_000_000,
                cycle_s: Some(turn_s)
            },
            Command::CreateAnimation,
            Command::AddCubicRest { piece: up, at_s },
            Command::AddCubicRest { piece: flat, at_s },
            Command::AddCubicTurn {
                piece: up,
                at_s,
                turn_s
            },
            Command::AddCubicTurn {
                piece: flat,
                at_s,
                turn_s
            },
            Command::RepeatTurn { at_s, turn_s },
            Command::AnimateOpacity,
            Command::Commit,
        ]
    );
    assert_eq!(format!("{overlay:?}"), before, "the cycle keeps its start");
    // Three quarters in, the first piece of the turn is over.
    let at_s = seconds(0.75);
    compositor.now_ns = 77 + 750_000_000;
    let operation = overlay.rebuild();
    assert_eq!(compositor.run(&mut overlay, operation), Ok(()));
    assert_eq!(
        compositor.asked[12..14],
        [
            Command::AddCubicRest { piece: flat, at_s },
            Command::AddCubicTurn {
                piece: up,
                at_s,
                turn_s
            },
        ]
    );
    assert_eq!(format!("{overlay:?}"), before);
}

#[test]
fn a_rebuild_starts_a_cycle_that_takes_no_time_again() {
    let mut overlay = fresh();
    let mut compositor = Compositor::new();
    let still = vec![OpacitySegment {
        start_s: seconds(0.0),
        end_s: seconds(0.0),
        start_value: single(0.0),
        end_value: single(0.5),
        ease: OpacityEase::Smooth,
    }];
    let operation = overlay.breathe_impl(&still);
    assert_eq!(compositor.run(&mut overlay, operation), Ok(()));
    compositor.now_ns = 4_321;
    let operation = overlay.rebuild();
    assert_eq!(compositor.run(&mut overlay, operation), Ok(()));
    assert!(
        matches!(&overlay.motion, Motion::Breathe { started_ns: 4_321, segments } if *segments == still)
    );
    let operation = overlay.fade_impl(single(1.0), seconds(1.0));
    assert_eq!(compositor.run(&mut overlay, operation), Ok(()));
    assert!(matches!(overlay.motion, Motion::Fade { from, .. } if from == single(0.5)));
}

#[test]
fn detaching_commits_only_what_was_removed() {
    let mut overlay = fresh();
    let mut compositor = Compositor::new();
    let operation = overlay.detach_visual();
    assert_eq!(compositor.run(&mut overlay, operation), Ok(()));
    assert_eq!(
        compositor.asked,
        vec![Command::RemoveVisual, Command::Commit]
    );
    compositor.fails = Some(|command| matches!(command, Command::Commit));
    let operation = overlay.detach_visual();
    assert_eq!(
        compositor.run(&mut overlay, operation),
        Ok(()),
        "a commit that fails is no failure"
    );
    assert_eq!(
        compositor.asked,
        vec![Command::RemoveVisual, Command::Commit]
    );
    compositor.fails = Some(|_| true);
    let operation = overlay.detach_visual();
    assert_eq!(compositor.run(&mut overlay, operation), Ok(()));
    assert_eq!(compositor.asked, vec![Command::RemoveVisual]);
}

#[test]
fn a_surface_no_memory_holds_is_not_drawable() {
    let mut overlay = fresh();
    assert!(overlay.is_drawable(16384, 16384));
    assert!(!overlay.is_drawable(1 << 30, 1), "a row of too many bytes");
    assert!(!overlay.is_drawable((1 << 30) - 1, u32::MAX));
    Compositor::new().show(&mut overlay, 1, 1);
    assert!(overlay.is_drawable((1 << 30) - 1, u32::MAX), "an image is held");
}
