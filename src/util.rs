//! Small helpers shared with the message-hook side.

use vstd::prelude::*;

verus! {

/// Unwrapping of a value that the caller knows to be there.
pub trait DebugUnwrap<T>: Sized {
    /// The value is there.
    spec fn holds_value(&self) -> bool;

    /// The value, where it is there.
    spec fn value(&self) -> T;

    /// The value.
    fn dbg_unwrap(self) -> (r: T)
        requires
            self.holds_value(),
        ensures
            r == self.value(),
    ;
}

impl<T, E: std::fmt::Debug> DebugUnwrap<T> for Result<T, E> {
    open spec fn holds_value(&self) -> bool {
        self is Ok
    }

    open spec fn value(&self) -> T {
        self->Ok_0
    }

    fn dbg_unwrap(self) -> (r: T) {
        self.unwrap()
    }
}

/// The low 16 bits of a message parameter.
pub fn lo_word(wparam: usize) -> (r: u16)
    ensures
        r == wparam % 0x1_0000,
{
    (wparam % 0x1_0000) as u16
}

/// Bits 16 to 31 of a message parameter.
pub fn hi_word(wparam: usize) -> (r: u16)
    ensures
        r == (wparam / 0x1_0000) % 0x1_0000,
{
    ((wparam / 0x1_0000) % 0x1_0000) as u16
}

/// A log sink that forwards text to the debugger's output.
pub struct WinDebugWriter;

impl WinDebugWriter {
    pub fn new() -> WinDebugWriter {
        WinDebugWriter
    }
}

} // verus!
