use vstd::prelude::*;

verus! {

/// The first interrupt vector of the primary interrupt controller.
pub const PIC_1_OFFSET: u8 = 32;

/// The first interrupt vector of the secondary interrupt controller.
pub const PIC_2_OFFSET: u8 = PIC_1_OFFSET + 8;

/// The hardware interrupts the kernel handles, in the order of their lines
/// on the primary controller.
#[derive(Debug, Clone, Copy, PartialEq, Eq, Structural)]
pub enum InterruptIndex {
    Timer,
    Keyboard,
}

/// The interrupt vector of each handled interrupt: its line on the primary
/// controller after the controller's offset.
pub open spec fn vector(i: InterruptIndex) -> u8 {
    match i {
        InterruptIndex::Timer => PIC_1_OFFSET,
        InterruptIndex::Keyboard => (PIC_1_OFFSET + 1) as u8,
    }
}

impl InterruptIndex {
    /// The interrupt vector.
    pub fn as_u8(self) -> (r: u8)
        ensures
            r == vector(self),
    {
        match self {
            InterruptIndex::Timer => PIC_1_OFFSET,
            InterruptIndex::Keyboard => PIC_1_OFFSET + 1,
        }
    }

    /// The interrupt vector as an index into the interrupt descriptor table.
    pub fn as_usize(self) -> (r: usize)
        ensures
            r == vector(self),
    {
        self.as_u8() as usize
    }
}

} // verus!
