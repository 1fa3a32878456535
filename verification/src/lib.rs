//! The core of a screen-sharing pipeline: a presenter captures its screen
//! at a fixed rate and broadcasts each capture as a frame; viewers connect,
//! receive the frames and hand them to their display.
//!
//! The library decides and computes; it never waits, listens or sends.
//!
//! - [`frame`] turns the pixels of a capture into a frame, with the help of
//!   [`codec`].
//! - [`wire`] writes a frame as wire text and reads it back.
//! - [`sharing`] holds the presenter's session and its capture loop,
//!   [`viewers`] the tasks that serve the presenter's viewers.
//! - [`viewing`] holds the viewer's session and its receive loop.
//! - [`notify`] names what the sessions tell the host shell.
//! - [`text`] has the helpers for characters and numerals.

pub mod codec;
pub mod frame;
pub mod notify;
pub mod sharing;
pub mod text;
pub mod viewers;
pub mod viewing;
pub mod wire;
