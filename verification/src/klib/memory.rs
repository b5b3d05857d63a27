//! Filling memory.

use vstd::prelude::*;

verus! {

/// The byte that the value `c` is stored as: its low eight bits.
pub open spec fn fill_byte(c: i32) -> u8 {
    (c as int % 256) as u8
}

/// Sets the first `n` bytes of `s` to the low eight bits of `c`.
pub fn memset(s: &mut [u8], c: i32, n: usize)
    requires
        n <= old(s)@.len(),
    ensures
        final(s)@.len() == old(s)@.len(),
        forall|i: int| 0 <= i < n ==> final(s)@[i] == fill_byte(c),
        forall|i: int| n <= i < old(s)@.len() ==> final(s)@[i] == old(s)@[i],
{
    let b: u8 = if c >= 0 {
        (c % 256) as u8
    } else {
        let m: i32 = (-(c + 1)) % 256;
        (255 - m) as u8
    };
    let mut i: usize = 0;
    while i < n
        invariant
            i <= n <= s@.len(),
            s@.len() == old(s)@.len(),
            b == fill_byte(c),
            forall|k: int| 0 <= k < i ==> s@[k] == b,
            forall|k: int| i <= k < s@.len() ==> s@[k] == old(s)@[k],
        decreases n - i,
    {
        s[i] = b;
        i += 1;
    }
}

} // verus!
