use rustos::interrupts::{InterruptIndex, PIC_1_OFFSET, PIC_2_OFFSET};
use rustos::keyboard::{completed_event, KeyInput, ScancodeDecoder};
use rustos::{test_runner, QemuExitCode, Testable};
use std::cell::Cell;

#[test]
fn interrupt_vectors_follow_pic_offset() {
    assert_eq!(PIC_1_OFFSET, 32);
    assert_eq!(PIC_2_OFFSET, 40);
    assert_eq!(InterruptIndex::Timer.as_u8(), 32);
    assert_eq!(InterruptIndex::Keyboard.as_u8(), 33);
    assert_eq!(InterruptIndex::Timer.as_usize(), 32);
    assert_eq!(InterruptIndex::Keyboard.as_usize(), 33);
}

#[test]
fn qemu_exit_codes() {
    assert_eq!(QemuExitCode::Success.code(), 0x10);
    assert_eq!(QemuExitCode::Failed.code(), 0x11);
}

struct CountingTest<'a> {
    count: &'a Cell<u32>,
    order: Cell<u32>,
    done: Cell<bool>,
}

impl<'a> CountingTest<'a> {
    fn new(count: &'a Cell<u32>) -> Self {
        CountingTest { count, order: Cell::new(0), done: Cell::new(false) }
    }
}

impl<'a> Testable for CountingTest<'a> {
    fn passed(&self) -> bool {
        self.done.get()
    }

    fn run(&self) {
        self.count.set(self.count.get() + 1);
        self.order.set(self.count.get());
        self.done.set(true);
    }
}

#[test]
fn trivial_assertion() {
    assert_eq!(1, 1);
}

#[test]
fn test_runner_runs_every_test() {
    let count = Cell::new(0);
    let t1 = CountingTest::new(&count);
    let t2 = CountingTest::new(&count);
    let t3 = CountingTest::new(&count);
    assert!(!t1.passed());
    let tests: [&dyn Testable; 3] = [&t1, &t2, &t3];
    assert_eq!(test_runner(&tests), QemuExitCode::Success);
    assert_eq!(count.get(), 3);
    // each test was run once, in order, and has passed
    assert_eq!((t1.order.get(), t2.order.get(), t3.order.get()), (1, 2, 3));
    assert!(t1.passed() && t2.passed() && t3.passed());
    assert_eq!(test_runner(&[]), QemuExitCode::Success);
}

#[test]
fn keyboard_decodes_scan_codes() {
    let mut decoder = ScancodeDecoder::new();
    // 'a' pressed, then released
    match decoder.add_scancode(0x1e) {
        Some(KeyInput::Unicode(c)) => assert_eq!(c, 'a'),
        _ => panic!("expected 'a'"),
    }
    assert!(decoder.add_scancode(0x9e).is_none());
    // left shift held: 'A'
    decoder.add_scancode(0x2a);
    match decoder.add_scancode(0x1e) {
        Some(KeyInput::Unicode(c)) => assert_eq!(c, 'A'),
        _ => panic!("expected 'A'"),
    }
    // F1 has no character
    match decoder.add_scancode(0x3b) {
        Some(KeyInput::RawKey(k)) => assert_eq!(format!("{:?}", k), "F1"),
        _ => panic!("expected a raw key"),
    }
}

#[test]
fn key_release_on_fresh_decoder_yields_nothing() {
    let mut decoder = ScancodeDecoder::new();
    assert!(decoder.add_scancode(0x9e).is_none());
    assert!(decoder.add_scancode(0xe0).is_none());
    assert!(decoder.add_scancode(0xaa).is_none());
}

#[test]
fn completed_event_drops_errors() {
    assert!(completed_event(Ok(None)).is_none());
    assert!(completed_event(Err(pc_keyboard::Error::UnknownKeyCode)).is_none());
}
