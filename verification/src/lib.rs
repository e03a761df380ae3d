use vstd::prelude::*;

pub mod allocator;
pub mod bump;
pub mod linked_list;
pub mod fixed_size_block;
pub mod vga_buffer;
pub mod interrupts;
pub mod task;

verus! {

/// The exit status the kernel reports to QEMU's exit device.
#[derive(Debug, Clone, Copy, PartialEq, Eq, Structural)]
pub enum QemuExitCode {
    Success,
    Failed,
}

impl QemuExitCode {
    /// The value written to the exit device: 0x10 for success, 0x11 for failure.
    pub fn code(self) -> (r: u32)
        ensures
            r == (match self {
                QemuExitCode::Success => 0x10u32,
                QemuExitCode::Failed => 0x11u32,
            }),
    {
        match self {
            QemuExitCode::Success => 0x10,
            QemuExitCode::Failed => 0x11,
        }
    }
}

/// A test case of the kernel's test runner.
pub trait Testable {
    /// The test has been run to its end without panicking.
    spec fn passed(&self) -> bool;

    /// Runs the test; a failing test panics, so a run that returns has passed.
    fn run(&self)
        ensures
            self.passed();
}

/// Runs every test in order; once each has been run and passed, returns
/// the exit status for success.
pub fn test_runner(tests: &[&dyn Testable]) -> (r: QemuExitCode)
    ensures
        r == QemuExitCode::Success,
        forall|k: int| 0 <= k < tests@.len() ==> (#[trigger] tests@[k]).passed(),
{
    let mut i: usize = 0;
    while i < tests.len()
        invariant
            i <= tests@.len(),
            forall|k: int| 0 <= k < i ==> (#[trigger] tests@[k]).passed(),
        decreases tests@.len() - i,
    {
        tests[i].run();
        i = i + 1;
    }
    QemuExitCode::Success
}

} // verus!
pub mod memory;
pub mod keyboard;
