//! The core of a tiling Wayland compositor: layout, focus, shortcuts and the choice of a screen.
//!
//! Everything here decides; nothing here touches a device or a client. A program around this
//! library hands it what has happened as plain values and carries out what it answers.
pub mod app;
pub mod direction;
pub mod drm;
pub mod event_loop;
pub mod geometry;
pub mod input;
mod keys;
pub mod layout;
pub mod state;
pub mod terminal;
pub mod udev;
