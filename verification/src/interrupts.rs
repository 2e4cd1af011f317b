//! Interrupt vectors, and what a selector error code says.

use vstd::prelude::*;

verus! {

/// The first vector that hardware interrupts are mapped to.
pub const INTERRUPT_START: u8 = 32;

/// The hardware interrupts that the kernel handles.
#[derive(Debug, Clone, Copy, PartialEq, Eq, Structural)]
pub enum InterruptIndex {
    /// The legacy timer.
    Timer,
    /// The keyboard.
    Keyboard,
    /// The real-time clock's periodic interrupt.
    Clock,
    /// An error of the local interrupt controller.
    LapicErr,
    /// A spurious interrupt.
    Spurious,
}

impl InterruptIndex {
    /// The vector of the interrupt.
    pub open spec fn vector(self) -> u8 {
        match self {
            InterruptIndex::Timer => 32,
            InterruptIndex::Keyboard => 33,
            InterruptIndex::Clock => 40,
            InterruptIndex::LapicErr => 49,
            InterruptIndex::Spurious => 255,
        }
    }

    /// The vector of the interrupt.
    pub fn as_u8(self) -> (vector: u8)
        ensures
            vector == self.vector(),
    {
        match self {
            InterruptIndex::Timer => INTERRUPT_START,
            InterruptIndex::Keyboard => INTERRUPT_START + 1,
            InterruptIndex::Clock => INTERRUPT_START + 8,
            InterruptIndex::LapicErr => INTERRUPT_START + 17,
            InterruptIndex::Spurious => 0xff,
        }
    }
}

/// The parts of the error code that comes with a general protection fault.
#[derive(Debug, Clone, Copy, PartialEq, Eq, Structural)]
pub struct SelectorError {
    /// The index of the selector in its table.
    pub index: u64,
    /// The table that the selector refers to, from 0 to 3.
    pub table: u64,
    /// Whether the fault came from outside the processor.
    pub external: bool,
}

/// Takes a selector error code apart: bit 0 says whether the cause was
/// external, bits 1 and 2 name the table, the 14 bits from bit 3 up are the
/// index.
pub fn decode_selector_error(error_code: u64) -> (parts: SelectorError)
    ensures
        parts.index == (error_code / 8) % 16384,
        parts.table == (error_code / 2) % 4,
        parts.external == (error_code % 2 == 1),
{
    let index = (error_code >> 3) & 0x3fff;
    let table = (error_code >> 1) & 0b11;
    let external = error_code & 1 == 1;
    assert(((error_code >> 3) & 0x3fff) == (error_code / 8) % 16384) by (bit_vector);
    assert(((error_code >> 1) & 0b11) == (error_code / 2) % 4) by (bit_vector);
    assert((error_code & 1) == error_code % 2) by (bit_vector);
    SelectorError { index, table, external }
}

} // verus!
