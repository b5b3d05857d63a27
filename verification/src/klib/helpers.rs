//! Small output helpers.

use vstd::prelude::*;
use crate::drivers::vga::DEFAULT_COLOR;
use crate::drivers::vga::Vga;
use crate::drivers::vga::putchar;

verus! {

/// The character of the hexadecimal digit `n`, in small letters; a question
/// mark for a number above fifteen.
pub open spec fn hex_char(n: u8) -> u8 {
    if n <= 9 {
        (48 + n) as u8
    } else if n <= 15 {
        (97 + n - 10) as u8
    } else {
        63
    }
}

/// The character of the hexadecimal digit `n`.
pub fn to_hex_char(n: u8) -> (r: u8)
    ensures
        r == hex_char(n),
{
    if n <= 9 {
        48 + n
    } else if n <= 15 {
        97 + (n - 10)
    } else {
        63
    }
}

/// Puts out `byte` as two hexadecimal digits and a space.
pub fn print_hex(vga: &mut Vga, byte: u8)
    requires
        old(vga).wf(),
    ensures
        final(vga).wf(),
        final(vga)@ == old(vga)@.put(hex_char(byte / 16), DEFAULT_COLOR).put(
            hex_char(byte % 16),
            DEFAULT_COLOR,
        ).put(32, DEFAULT_COLOR),
{
    proof {
        assert((byte >> 4u8) & 0x0Fu8 == byte / 16 && byte & 0x0Fu8 == byte % 16) by (bit_vector);
    }
    let high: u8 = to_hex_char((byte >> 4) & 0x0F);
    let low: u8 = to_hex_char(byte & 0x0F);
    putchar(vga, high);
    putchar(vga, low);
    putchar(vga, 32);
}

} // verus!
