//! The logic of a compositor overlay: a small visual under a window's
//! composition root that the system compositor places, redraws and fades
//! without the application rendering or presenting a frame.
//!
//! An overlay is presentation-only content. The application owns all policy:
//! whether to have one at all, when to show it, where to place it, what it shows
//! and which animation to run. This library decides what each request takes: it
//! keeps what the overlay remembers ([`overlay`]), turns a request into an update
//! of several steps ([`operation`]), and says what each answer of the compositor
//! makes of both. It asks for everything it cannot do itself, one command at a
//! time. What is seen of an overlay once it is asked is modelled in [`screen`].

pub mod content;
pub mod destination;
pub mod error;
pub mod laws;
pub mod motion;
pub mod motion_laws;
pub mod number;
pub mod operation;
pub mod overlay;
pub mod screen;
pub mod screen_laws;
pub mod size_laws;
