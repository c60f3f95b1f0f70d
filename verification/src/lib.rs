//! Typed access to the operating system's last-error value, together with a
//! verified engine that renders the OS's native-encoded description of an
//! error code as valid UTF-8, escaping each undecodable byte as a `\xHH`
//! token.
//!
//! The pieces: [`Errno`] wraps the raw code; [`errno`] and [`set_errno`] read
//! and write the OS's thread-local error slot; [`engine`] holds the
//! incremental transcoding engine and the two converter-free renderings (the
//! UTF-8 fast path and the escape-everything degraded path); [`escape`] and
//! [`utf8`] hold the escape-token and UTF-8 models they are specified
//! against; [`widemsg`] holds the wide-character variant used where the OS
//! formats messages itself.

use vstd::prelude::*;

pub mod engine;
pub mod escape;
pub mod utf8;
pub mod widemsg;

verus! {

/// Wraps a platform-specific error code. Any 32-bit value is accepted;
/// equality and ordering are those of the raw integer, and the value carries
/// no other state.
#[derive(Debug, Copy, Clone, Eq, Ord, PartialEq, PartialOrd, Hash, Structural)]
pub struct Errno(pub i32);

/// Relies on errno::errno of the errno crate: reads the OS's thread-local
/// last-error slot. The value read is whatever OS state holds at the call.
#[verifier::external_body]
fn os_read_error() -> i32 {
    errno::errno().0
}

/// Relies on errno::set_errno of the errno crate: writes the OS's
/// thread-local last-error slot.
#[verifier::external_body]
fn os_write_error(e: i32) {
    errno::set_errno(errno::Errno(e));
}

/// Returns the platform-specific value of `errno`. Always succeeds; the
/// value is OS state, so nothing relates two reads.
pub fn errno() -> Errno {
    Errno(os_read_error())
}

/// Sets the platform-specific value of `errno`. Always succeeds.
pub fn set_errno(err: Errno) {
    os_write_error(err.0)
}

} // verus!
