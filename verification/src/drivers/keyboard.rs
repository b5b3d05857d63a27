//! PS/2 keyboard: from scancodes to key events.
//!
//! The keyboard sends a scancode for each key that goes down, and the same
//! code with bit 7 set when the key comes up again.  Only the shift keys are
//! followed in both directions; for every other key the press alone counts.

use vstd::prelude::*;

verus! {

/// Scancode of the left shift key going down.
pub const LEFT_SHIFT_DOWN: u8 = 0x2A;

/// Scancode of the right shift key going down.
pub const RIGHT_SHIFT_DOWN: u8 = 0x36;

/// Scancode of the left shift key coming up.
pub const LEFT_SHIFT_UP: u8 = 0xAA;

/// Scancode of the right shift key coming up.
pub const RIGHT_SHIFT_UP: u8 = 0xB6;

/// What a key press means to the line editor.
#[derive(Clone, Copy, Debug, PartialEq, Eq, Structural)]
pub enum KeyEvent {
    Char(char),
    Enter,
    Backspace,
    Tab,
    ArrowLeft,
    ArrowRight,
    ArrowUp,
    ArrowDown,
    Unknown,
}

/// The key event of scancode `scancode` while no shift key is held.
pub open spec fn plain_key(scancode: u8) -> Option<KeyEvent> {
    match scancode {
        0x02 => Some(KeyEvent::Char('1')),
        0x03 => Some(KeyEvent::Char('2')),
        0x04 => Some(KeyEvent::Char('3')),
        0x05 => Some(KeyEvent::Char('4')),
        0x06 => Some(KeyEvent::Char('5')),
        0x07 => Some(KeyEvent::Char('6')),
        0x08 => Some(KeyEvent::Char('7')),
        0x09 => Some(KeyEvent::Char('8')),
        0x0A => Some(KeyEvent::Char('9')),
        0x0B => Some(KeyEvent::Char('0')),
        0x0C => Some(KeyEvent::Char('-')),
        0x0D => Some(KeyEvent::Char('=')),
        0x0E => Some(KeyEvent::Backspace),
        0x0F => Some(KeyEvent::Tab),
        0x10 => Some(KeyEvent::Char('q')),
        0x11 => Some(KeyEvent::Char('w')),
        0x12 => Some(KeyEvent::Char('e')),
        0x13 => Some(KeyEvent::Char('r')),
        0x14 => Some(KeyEvent::Char('t')),
        0x15 => Some(KeyEvent::Char('y')),
        0x16 => Some(KeyEvent::Char('u')),
        0x17 => Some(KeyEvent::Char('i')),
        0x18 => Some(KeyEvent::Char('o')),
        0x19 => Some(KeyEvent::Char('p')),
        0x1A => Some(KeyEvent::Char('[')),
        0x1B => Some(KeyEvent::Char(']')),
        0x1C => Some(KeyEvent::Enter),
        0x1E => Some(KeyEvent::Char('a')),
        0x1F => Some(KeyEvent::Char('s')),
        0x20 => Some(KeyEvent::Char('d')),
        0x21 => Some(KeyEvent::Char('f')),
        0x22 => Some(KeyEvent::Char('g')),
        0x23 => Some(KeyEvent::Char('h')),
        0x24 => Some(KeyEvent::Char('j')),
        0x25 => Some(KeyEvent::Char('k')),
        0x26 => Some(KeyEvent::Char('l')),
        0x27 => Some(KeyEvent::Char(';')),
        0x28 => Some(KeyEvent::Char('\'')),
        0x29 => Some(KeyEvent::Char('`')),
        0x2B => Some(KeyEvent::Char('\\')),
        0x2C => Some(KeyEvent::Char('z')),
        0x2D => Some(KeyEvent::Char('x')),
        0x2E => Some(KeyEvent::Char('c')),
        0x2F => Some(KeyEvent::Char('v')),
        0x30 => Some(KeyEvent::Char('b')),
        0x31 => Some(KeyEvent::Char('n')),
        0x32 => Some(KeyEvent::Char('m')),
        0x33 => Some(KeyEvent::Char(',')),
        0x34 => Some(KeyEvent::Char('.')),
        0x35 => Some(KeyEvent::Char('/')),
        0x39 => Some(KeyEvent::Char(' ')),
        0x48 => Some(KeyEvent::ArrowUp),
        0x4B => Some(KeyEvent::ArrowLeft),
        0x4D => Some(KeyEvent::ArrowRight),
        0x50 => Some(KeyEvent::ArrowDown),
        _ => None,
    }
}

/// The key event of scancode `scancode` while a shift key is held.
pub open spec fn shifted_key(scancode: u8) -> Option<KeyEvent> {
    match scancode {
        0x02 => Some(KeyEvent::Char('!')),
        0x03 => Some(KeyEvent::Char('@')),
        0x04 => Some(KeyEvent::Char('#')),
        0x05 => Some(KeyEvent::Char('$')),
        0x06 => Some(KeyEvent::Char('%')),
        0x07 => Some(KeyEvent::Char('^')),
        0x08 => Some(KeyEvent::Char('&')),
        0x09 => Some(KeyEvent::Char('*')),
        0x0A => Some(KeyEvent::Char('(')),
        0x0B => Some(KeyEvent::Char(')')),
        0x0C => Some(KeyEvent::Char('_')),
        0x0D => Some(KeyEvent::Char('+')),
        0x0E => Some(KeyEvent::Backspace),
        0x10 => Some(KeyEvent::Char('Q')),
        0x11 => Some(KeyEvent::Char('W')),
        0x12 => Some(KeyEvent::Char('E')),
        0x13 => Some(KeyEvent::Char('R')),
        0x14 => Some(KeyEvent::Char('T')),
        0x15 => Some(KeyEvent::Char('Y')),
        0x16 => Some(KeyEvent::Char('U')),
        0x17 => Some(KeyEvent::Char('I')),
        0x18 => Some(KeyEvent::Char('O')),
        0x19 => Some(KeyEvent::Char('P')),
        0x1A => Some(KeyEvent::Char('{')),
        0x1B => Some(KeyEvent::Char('}')),
        0x1C => Some(KeyEvent::Enter),
        0x1E => Some(KeyEvent::Char('A')),
        0x1F => Some(KeyEvent::Char('S')),
        0x20 => Some(KeyEvent::Char('D')),
        0x21 => Some(KeyEvent::Char('F')),
        0x22 => Some(KeyEvent::Char('G')),
        0x23 => Some(KeyEvent::Char('H')),
        0x24 => Some(KeyEvent::Char('J')),
        0x25 => Some(KeyEvent::Char('K')),
        0x26 => Some(KeyEvent::Char('L')),
        0x27 => Some(KeyEvent::Char(':')),
        0x28 => Some(KeyEvent::Char('"')),
        0x29 => Some(KeyEvent::Char('~')),
        0x2B => Some(KeyEvent::Char('|')),
        0x2C => Some(KeyEvent::Char('Z')),
        0x2D => Some(KeyEvent::Char('X')),
        0x2E => Some(KeyEvent::Char('C')),
        0x2F => Some(KeyEvent::Char('V')),
        0x30 => Some(KeyEvent::Char('B')),
        0x31 => Some(KeyEvent::Char('N')),
        0x32 => Some(KeyEvent::Char('M')),
        0x33 => Some(KeyEvent::Char('<')),
        0x34 => Some(KeyEvent::Char('>')),
        0x35 => Some(KeyEvent::Char('?')),
        0x39 => Some(KeyEvent::Char(' ')),
        0x48 => Some(KeyEvent::ArrowUp),
        0x4B => Some(KeyEvent::ArrowLeft),
        0x4D => Some(KeyEvent::ArrowRight),
        0x50 => Some(KeyEvent::ArrowDown),
        _ => None,
    }
}

/// Whether a shift key is held after scancode `scancode`.
pub open spec fn shift_after(shift: bool, scancode: u8) -> bool {
    if scancode == LEFT_SHIFT_DOWN || scancode == RIGHT_SHIFT_DOWN {
        true
    } else if scancode == LEFT_SHIFT_UP || scancode == RIGHT_SHIFT_UP {
        false
    } else {
        shift
    }
}

/// The key event that scancode `scancode` stands for.  The shift keys
/// themselves stand for none.
pub open spec fn key_event(shift: bool, scancode: u8) -> Option<KeyEvent> {
    if scancode == LEFT_SHIFT_DOWN || scancode == RIGHT_SHIFT_DOWN || scancode == LEFT_SHIFT_UP || scancode
        == RIGHT_SHIFT_UP {
        None
    } else if shift {
        shifted_key(scancode)
    } else {
        plain_key(scancode)
    }
}

/// A scancode with bit 7 set, the release of a key, stands for no event.
pub proof fn lemma_release_is_silent(shift: bool, scancode: u8)
    requires
        scancode >= 0x80,
    ensures
        key_event(shift, scancode) is None,
{
}

fn lookup_plain(scancode: u8) -> (r: Option<KeyEvent>)
    ensures
        r == plain_key(scancode),
{
    match scancode {
        0x02 => Some(KeyEvent::Char('1')),
        0x03 => Some(KeyEvent::Char('2')),
        0x04 => Some(KeyEvent::Char('3')),
        0x05 => Some(KeyEvent::Char('4')),
        0x06 => Some(KeyEvent::Char('5')),
        0x07 => Some(KeyEvent::Char('6')),
        0x08 => Some(KeyEvent::Char('7')),
        0x09 => Some(KeyEvent::Char('8')),
        0x0A => Some(KeyEvent::Char('9')),
        0x0B => Some(KeyEvent::Char('0')),
        0x0C => Some(KeyEvent::Char('-')),
        0x0D => Some(KeyEvent::Char('=')),
        0x0E => Some(KeyEvent::Backspace),
        0x0F => Some(KeyEvent::Tab),
        0x10 => Some(KeyEvent::Char('q')),
        0x11 => Some(KeyEvent::Char('w')),
        0x12 => Some(KeyEvent::Char('e')),
        0x13 => Some(KeyEvent::Char('r')),
        0x14 => Some(KeyEvent::Char('t')),
        0x15 => Some(KeyEvent::Char('y')),
        0x16 => Some(KeyEvent::Char('u')),
        0x17 => Some(KeyEvent::Char('i')),
        0x18 => Some(KeyEvent::Char('o')),
        0x19 => Some(KeyEvent::Char('p')),
        0x1A => Some(KeyEvent::Char('[')),
        0x1B => Some(KeyEvent::Char(']')),
        0x1C => Some(KeyEvent::Enter),
        0x1E => Some(KeyEvent::Char('a')),
        0x1F => Some(KeyEvent::Char('s')),
        0x20 => Some(KeyEvent::Char('d')),
        0x21 => Some(KeyEvent::Char('f')),
        0x22 => Some(KeyEvent::Char('g')),
        0x23 => Some(KeyEvent::Char('h')),
        0x24 => Some(KeyEvent::Char('j')),
        0x25 => Some(KeyEvent::Char('k')),
        0x26 => Some(KeyEvent::Char('l')),
        0x27 => Some(KeyEvent::Char(';')),
        0x28 => Some(KeyEvent::Char('\'')),
        0x29 => Some(KeyEvent::Char('`')),
        0x2B => Some(KeyEvent::Char('\\')),
        0x2C => Some(KeyEvent::Char('z')),
        0x2D => Some(KeyEvent::Char('x')),
        0x2E => Some(KeyEvent::Char('c')),
        0x2F => Some(KeyEvent::Char('v')),
        0x30 => Some(KeyEvent::Char('b')),
        0x31 => Some(KeyEvent::Char('n')),
        0x32 => Some(KeyEvent::Char('m')),
        0x33 => Some(KeyEvent::Char(',')),
        0x34 => Some(KeyEvent::Char('.')),
        0x35 => Some(KeyEvent::Char('/')),
        0x39 => Some(KeyEvent::Char(' ')),
        0x48 => Some(KeyEvent::ArrowUp),
        0x4B => Some(KeyEvent::ArrowLeft),
        0x4D => Some(KeyEvent::ArrowRight),
        0x50 => Some(KeyEvent::ArrowDown),
        _ => None,
    }
}

fn lookup_shifted(scancode: u8) -> (r: Option<KeyEvent>)
    ensures
        r == shifted_key(scancode),
{
    match scancode {
        0x02 => Some(KeyEvent::Char('!')),
        0x03 => Some(KeyEvent::Char('@')),
        0x04 => Some(KeyEvent::Char('#')),
        0x05 => Some(KeyEvent::Char('$')),
        0x06 => Some(KeyEvent::Char('%')),
        0x07 => Some(KeyEvent::Char('^')),
        0x08 => Some(KeyEvent::Char('&')),
        0x09 => Some(KeyEvent::Char('*')),
        0x0A => Some(KeyEvent::Char('(')),
        0x0B => Some(KeyEvent::Char(')')),
        0x0C => Some(KeyEvent::Char('_')),
        0x0D => Some(KeyEvent::Char('+')),
        0x0E => Some(KeyEvent::Backspace),
        0x10 => Some(KeyEvent::Char('Q')),
        0x11 => Some(KeyEvent::Char('W')),
        0x12 => Some(KeyEvent::Char('E')),
        0x13 => Some(KeyEvent::Char('R')),
        0x14 => Some(KeyEvent::Char('T')),
        0x15 => Some(KeyEvent::Char('Y')),
        0x16 => Some(KeyEvent::Char('U')),
        0x17 => Some(KeyEvent::Char('I')),
        0x18 => Some(KeyEvent::Char('O')),
        0x19 => Some(KeyEvent::Char('P')),
        0x1A => Some(KeyEvent::Char('{')),
        0x1B => Some(KeyEvent::Char('}')),
        0x1C => Some(KeyEvent::Enter),
        0x1E => Some(KeyEvent::Char('A')),
        0x1F => Some(KeyEvent::Char('S')),
        0x20 => Some(KeyEvent::Char('D')),
        0x21 => Some(KeyEvent::Char('F')),
        0x22 => Some(KeyEvent::Char('G')),
        0x23 => Some(KeyEvent::Char('H')),
        0x24 => Some(KeyEvent::Char('J')),
        0x25 => Some(KeyEvent::Char('K')),
        0x26 => Some(KeyEvent::Char('L')),
        0x27 => Some(KeyEvent::Char(':')),
        0x28 => Some(KeyEvent::Char('"')),
        0x29 => Some(KeyEvent::Char('~')),
        0x2B => Some(KeyEvent::Char('|')),
        0x2C => Some(KeyEvent::Char('Z')),
        0x2D => Some(KeyEvent::Char('X')),
        0x2E => Some(KeyEvent::Char('C')),
        0x2F => Some(KeyEvent::Char('V')),
        0x30 => Some(KeyEvent::Char('B')),
        0x31 => Some(KeyEvent::Char('N')),
        0x32 => Some(KeyEvent::Char('M')),
        0x33 => Some(KeyEvent::Char('<')),
        0x34 => Some(KeyEvent::Char('>')),
        0x35 => Some(KeyEvent::Char('?')),
        0x39 => Some(KeyEvent::Char(' ')),
        0x48 => Some(KeyEvent::ArrowUp),
        0x4B => Some(KeyEvent::ArrowLeft),
        0x4D => Some(KeyEvent::ArrowRight),
        0x50 => Some(KeyEvent::ArrowDown),
        _ => None,
    }
}

/// The state of the keyboard that outlasts a scancode.
pub struct Keyboard {
    shift_pressed: bool,
}

impl Keyboard {
    /// Whether a shift key is held.
    pub closed spec fn shift(&self) -> bool {
        self.shift_pressed
    }

    /// A keyboard with no key held.
    pub fn new() -> (k: Keyboard)
        ensures
            !k.shift(),
    {
        Keyboard { shift_pressed: false }
    }

    /// Whether a shift key is held.
    pub fn shift_held(&self) -> (r: bool)
        ensures
            r == self.shift(),
    {
        self.shift_pressed
    }
}

/// Takes in one scancode and returns the key event that it stands for.
pub fn handle_scancode(kbd: &mut Keyboard, scancode: u8) -> (r: Option<KeyEvent>)
    ensures
        r == key_event(old(kbd).shift(), scancode),
        final(kbd).shift() == shift_after(old(kbd).shift(), scancode),
{
    if scancode == LEFT_SHIFT_DOWN || scancode == RIGHT_SHIFT_DOWN {
        kbd.shift_pressed = true;
        None
    } else if scancode == LEFT_SHIFT_UP || scancode == RIGHT_SHIFT_UP {
        kbd.shift_pressed = false;
        None
    } else if kbd.shift_pressed {
        lookup_shifted(scancode)
    } else {
        lookup_plain(scancode)
    }
}

/// The key event of the scancode that was read from the keyboard, if one was
/// waiting.
pub fn get_key_event(kbd: &mut Keyboard, scancode: Option<u8>) -> (r: Option<KeyEvent>)
    ensures
        match scancode {
            Some(code) => r == key_event(old(kbd).shift(), code) && final(kbd).shift() == shift_after(
                old(kbd).shift(),
                code,
            ),
            None => r is None && final(kbd).shift() == old(kbd).shift(),
        },
{
    match scancode {
        Some(code) => handle_scancode(kbd, code),
        None => None,
    }
}

/// The scancode that waits in the data port, given the status byte of the
/// controller: bit 0 of the status says whether one does.
pub fn read_scancode(status: u8, data: u8) -> (r: Option<u8>)
    ensures
        r == if status & 0x01 != 0 {
            Some(data)
        } else {
            None
        },
{
    if status & 0x01 != 0 {
        Some(data)
    } else {
        None
    }
}

} // verus!
