//! Writing control sequences and text to the terminal.
//!
//! Every byte the library emits passes through here.  Whether a write
//! reaches the device is up to the operating system; nothing downstream
//! depends on it, so the wrappers promise nothing about success.

use vstd::prelude::*;

verus! {

/// The library's error: a terminal write that the system refused.
#[derive(Clone, Copy, Debug, PartialEq, Eq, Structural)]
pub enum TermError {
    WriteFailed,
}

/// Relies on `std::io::Stdout::write_all` (via `std::io::stdout`): it
/// attempts to write the whole buffer; whether it succeeds depends on the
/// device, so nothing is promised of the outcome.
#[verifier::external_body]
fn stdout_write(s: &str) -> (r: Result<(), TermError>) {
    match std::io::Write::write_all(&mut std::io::stdout(), s.as_bytes()) {
        Ok(()) => Ok(()),
        Err(_) => Err(TermError::WriteFailed),
    }
}

/// Relies on `std::io::Stdout::flush`; as with the write itself, the
/// outcome depends on the device.
#[verifier::external_body]
fn stdout_flush() -> (r: Result<(), TermError>) {
    match std::io::Write::flush(&mut std::io::stdout()) {
        Ok(()) => Ok(()),
        Err(_) => Err(TermError::WriteFailed),
    }
}

/// Write `s` to the terminal and flush it.
pub fn write_out(s: &str) -> (r: Result<(), TermError>) {
    match stdout_write(s) {
        Ok(()) => stdout_flush(),
        Err(e) => Err(e),
    }
}

} // verus!
