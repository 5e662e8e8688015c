//! Screenshot capture orchestration, multi-monitor geometry, and image
//! composition, with the coordination and pixel logic verified.
//!
//! The library is organised leaf-first:
//! - [`text`] holds byte-level text utilities (case-insensitive search,
//!   quoting, decimal parsing) that the other modules and the boundary share.
//! - [`coordinator`] models the single-flight capture lifecycle: permission
//!   probing, spawning, and outcome classification for the external capture
//!   facility.
//! - [`geometry`] normalizes per-display capture geometry into one global
//!   coordinate space and checks that displays do not overlap.
//! - [`compose`] is the pure raster pipeline: cropping with clamping, and
//!   effect rendering (background, padding, corner rounding, shadow, blur).
//! - [`namer`] derives collision-free output file names.
//! - [`raster`] frames rasters as self-describing byte containers for the
//!   boundary to persist, and checks the frames it reads back.
//! - [`encoding`] decodes base64 payloads handed in by an editor surface.
//! - [`ocr`] is the text-recognition interface point; the recognition engine
//!   itself is a platform facility that this library does not link.
//!
//! Process spawning, file I/O, clipboard, audio and window management are the
//! caller's side of the boundary: the library takes plain values (exit flags,
//! captured diagnostics, byte buffers) and returns decisions and new values.

use vstd::prelude::*;

pub mod compose;
pub mod coordinator;
pub mod encoding;
pub mod geometry;
pub mod namer;
pub mod ocr;
pub mod raster;
pub mod text;

verus! {

/// The error taxonomy of the capture and composition pipeline.
///
/// `Cancelled` is deliberately not here: a user dismissing an interactive
/// capture is a distinguished empty result, not a failure (see
/// [`coordinator::CaptureOutcome`]).
#[derive(Clone, Copy, Debug, PartialEq, Eq, Structural)]
pub enum ShotError {
    /// Another capture holds the single flight, or an external capture
    /// process is already running.
    CaptureBusy,
    /// The operating system has not granted screen-capture permission.
    PermissionDenied,
    /// The capture facility failed to spawn or exited abnormally for a
    /// reason other than permission.
    ProcessError,
    /// A crop region whose intersection with the source has zero area.
    InvalidRegion,
    /// Malformed or undecodable input data.
    DecodeError,
    /// An output encoding that cannot be produced.
    EncodeError,
    /// A filesystem failure reported by the boundary.
    IoError,
}

} // verus!
