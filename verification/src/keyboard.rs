use vstd::prelude::*;
use pc_keyboard::{layouts, DecodedKey, HandleControl, KeyCode, KeyEvent, KeyState, Keyboard, ScancodeSet1};

verus! {

#[verifier::external_type_specification]
#[verifier::external_body]
pub struct ExKeyEvent(KeyEvent);

#[verifier::external_type_specification]
#[verifier::external_body]
pub struct ExKeyCode(KeyCode);

#[verifier::external_type_specification]
#[verifier::external_body]
pub struct ExKeyboardError(pc_keyboard::Error);

/// A key press decoded to a character, or to a key code where the key has no
/// character.
#[derive(Debug, Clone, Copy)]
pub enum KeyInput {
    Unicode(char),
    RawKey(KeyCode),
}

/// What happened to a key.
#[derive(Debug, Clone, Copy, PartialEq, Eq, Structural)]
pub enum KeyTransition {
    /// The key was released.
    Up,
    /// The key was pressed.
    Down,
    /// The key was pressed and released at once.
    SingleShot,
}

/// A key event completed by a scan code byte, with what happened to its key.
/// Only the scan code decoder makes one, from the event itself.
#[derive(Debug)]
pub struct ScanEvent {
    event: KeyEvent,
    transition: KeyTransition,
}

impl ScanEvent {
    /// What happened to the key.
    pub closed spec fn transition(self) -> KeyTransition {
        self.transition
    }

    /// The event as `pc_keyboard` gave it.
    pub closed spec fn event(self) -> KeyEvent {
        self.event
    }
}

/// A `pc_keyboard::Keyboard` for scan code set 1 and the US 104-key layout.
/// The keyboard type is generic over traits of its crate, so it is held here
/// as an opaque field; what it has been fed is named by the functions below.
#[verifier::external_body]
pub struct Ps2Keyboard {
    keyboard: Keyboard<layouts::Us104Key, ScancodeSet1>,
}

/// The scan code bytes a keyboard has been fed through `add_byte`, in order.
pub uninterp spec fn keyboard_bytes(k: Ps2Keyboard) -> Seq<u8>;

/// The key events a keyboard has processed through `process_keyevent`, in order.
pub uninterp spec fn keyboard_events(k: Ps2Keyboard) -> Seq<KeyEvent>;

/// What `Keyboard::add_byte` returns for the last byte of `bytes` on a
/// keyboard that was fed the bytes before it. Scan code set 1 decodes each
/// byte from the bytes before it alone.
pub uninterp spec fn scan_outcome(bytes: Seq<u8>) -> Result<Option<ScanEvent>, pc_keyboard::Error>;

/// What `Keyboard::process_keyevent` yields, as a key, for the last event of
/// `events` on a keyboard that processed the events before it. The modifier
/// keys held depend on those events alone.
pub uninterp spec fn decoded_key(events: Seq<KeyEvent>) -> Option<KeyInput>;

/// `Keyboard::new` with scan code set 1, the US 104-key layout, and control
/// keys left as they are: a keyboard that has been fed nothing.
#[verifier::external_body]
fn new_keyboard() -> (r: Ps2Keyboard)
    ensures
        keyboard_bytes(r) == Seq::<u8>::empty(),
        keyboard_events(r) == Seq::<KeyEvent>::empty(),
{
    Ps2Keyboard { keyboard: Keyboard::new(ScancodeSet1::new(), layouts::Us104Key, HandleControl::Ignore) }
}

/// `Keyboard::add_byte`: feeds one scan code byte to the decoder; the
/// outcome is `scan_outcome` of all bytes fed. A byte with its top bit set
/// is a break code (or the prefix 0xE0 or 0xE1, which completes nothing): it
/// completes no key press, only a release, or fails.
#[verifier::external_body]
fn keyboard_add_byte(keyboard: &mut Ps2Keyboard, byte: u8) -> (r: Result<Option<ScanEvent>, pc_keyboard::Error>)
    ensures
        keyboard_bytes(*final(keyboard)) == keyboard_bytes(*old(keyboard)).push(byte),
        keyboard_events(*final(keyboard)) == keyboard_events(*old(keyboard)),
        r == scan_outcome(keyboard_bytes(*final(keyboard))),
        byte >= 0x80 ==> (r matches Ok(Some(e)) ==> e.transition() == KeyTransition::Up),
{
    match keyboard.keyboard.add_byte(byte) {
        Ok(Some(event)) => {
            let transition = match event.state {
                KeyState::Up => KeyTransition::Up,
                KeyState::Down => KeyTransition::Down,
                KeyState::SingleShot => KeyTransition::SingleShot,
            };
            Ok(Some(ScanEvent { event, transition }))
        },
        Ok(None) => Ok(None),
        Err(e) => Err(e),
    }
}

/// `Keyboard::process_keyevent`: the key that an event yields, which is
/// `decoded_key` of all events processed. A release yields no key.
#[verifier::external_body]
fn keyboard_process_keyevent(keyboard: &mut Ps2Keyboard, event: ScanEvent) -> (r: Option<KeyInput>)
    ensures
        keyboard_events(*final(keyboard)) == keyboard_events(*old(keyboard)).push(event.event()),
        keyboard_bytes(*final(keyboard)) == keyboard_bytes(*old(keyboard)),
        r == decoded_key(keyboard_events(*final(keyboard))),
        event.transition() == KeyTransition::Up ==> r is None,
{
    match keyboard.keyboard.process_keyevent(event.event) {
        Some(DecodedKey::Unicode(c)) => Some(KeyInput::Unicode(c)),
        Some(DecodedKey::RawKey(k)) => Some(KeyInput::RawKey(k)),
        None => None,
    }
}

/// The key event a decoded scan code byte completed, if any: decoding errors
/// are dropped.
pub open spec fn spec_completed_event(r: Result<Option<ScanEvent>, pc_keyboard::Error>) -> Option<ScanEvent> {
    match r {
        Ok(Some(ev)) => Some(ev),
        _ => None,
    }
}

/// The key event a decoded scan code byte completed, if any.
pub fn completed_event(r: Result<Option<ScanEvent>, pc_keyboard::Error>) -> (e: Option<ScanEvent>)
    ensures
        e == spec_completed_event(r),
{
    match r {
        Ok(Some(ev)) => Some(ev),
        _ => None,
    }
}

/// Turns the bytes read from the keyboard controller into key presses.
pub struct ScancodeDecoder {
    keyboard: Ps2Keyboard,
}

impl ScancodeDecoder {
    /// The scan code bytes fed so far, in order.
    pub closed spec fn bytes_fed(&self) -> Seq<u8> {
        keyboard_bytes(self.keyboard)
    }

    /// The key events completed by those bytes, in order.
    pub closed spec fn events_processed(&self) -> Seq<KeyEvent> {
        keyboard_events(self.keyboard)
    }

    /// A decoder for scan code set 1 on the US 104-key layout that has been
    /// fed nothing.
    pub fn new() -> (r: ScancodeDecoder)
        ensures
            r.bytes_fed() == Seq::<u8>::empty(),
            r.events_processed() == Seq::<KeyEvent>::empty(),
    {
        ScancodeDecoder { keyboard: new_keyboard() }
    }

    /// Feeds one scan code byte; returns the key it completes, if any: the
    /// byte goes to the scan code decoder, and a key event it completes goes
    /// on to the key decoder, whose key is the result. A break code (top bit
    /// set) yields no key.
    pub fn add_scancode(&mut self, scancode: u8) -> (r: Option<KeyInput>)
        ensures
            final(self).bytes_fed() == old(self).bytes_fed().push(scancode),
            match spec_completed_event(scan_outcome(final(self).bytes_fed())) {
                Some(e) => {
                    &&& final(self).events_processed() == old(self).events_processed().push(e.event())
                    &&& r == decoded_key(final(self).events_processed())
                },
                None => {
                    &&& final(self).events_processed() == old(self).events_processed()
                    &&& r is None
                },
            },
            scancode >= 0x80 ==> r is None,
    {
        match completed_event(keyboard_add_byte(&mut self.keyboard, scancode)) {
            Some(event) => keyboard_process_keyevent(&mut self.keyboard, event),
            None => None,
        }
    }
}

} // verus!
