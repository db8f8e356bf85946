//! Verified core of a backlight brightness utility.
//!
//! A backlight device exposes two integer control files, `brightness`
//! (current value, writable) and `max_brightness` (upper bound).  This
//! library holds everything that can be stated and proved about the
//! utility: the clamped update algorithm of [`backlight::Backlight`],
//! the decimal control-file format in [`parse`], and the command layer
//! (operation-prefix parsing, device autodetection, streaming) in
//! [`command`].  Reading and writing the actual files is left to an
//! unverified shell around this crate.

use vstd::prelude::*;

pub mod backlight;
pub mod command;
pub mod parse;

verus! {

/// The failure kinds of the utility.
///
/// Every kind is fatal where it is detected: nothing is retried.
#[derive(Clone, Copy, Debug, PartialEq, Eq, Structural)]
pub enum Error {
    /// Missing or malformed process input.
    Argument,
    /// No device of the given name, or no device at all on autodetection.
    DeviceNotFound,
    /// A control file could not be read or written.
    Io,
    /// A control file did not hold a non-negative decimal integer.
    Parse,
}

} // verus!
