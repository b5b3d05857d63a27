//! The line that is being typed: a fixed buffer of bytes with a cursor.

use vstd::prelude::*;

verus! {

/// Bytes in the buffer.  The line itself holds at most one byte less.
pub const BUFFER_SIZE: usize = 128;

/// A line under edit.
pub struct InputBuffer {
    /// The bytes of the line, followed by bytes that do not count.
    pub buffer: [u8; 128],
    /// Length of the line.
    pub len: usize,
    /// Position of the cursor in the line.
    pub pos: usize,
}

impl InputBuffer {
    /// The bytes of the line.
    pub open spec fn text(&self) -> Seq<u8> {
        if self.len <= BUFFER_SIZE {
            self.buffer@.subrange(0, self.len as int)
        } else {
            self.buffer@
        }
    }

    /// The cursor lies in the line, and the line leaves the last byte of the
    /// buffer free.
    pub open spec fn wf(&self) -> bool {
        self.pos <= self.len < BUFFER_SIZE
    }

    /// An empty line.
    pub fn new() -> (b: InputBuffer)
        ensures
            b.wf(),
            b.len == 0,
            b.pos == 0,
            forall|i: int| 0 <= i < BUFFER_SIZE ==> b.buffer@[i] == 0,
    {
        InputBuffer { buffer: [0u8; 128], len: 0, pos: 0 }
    }

    /// Puts `c` into the line at the cursor and moves the cursor behind it.
    /// Returns `false`, with nothing changed, when the line is full.
    pub fn insert_char(&mut self, c: u8) -> (r: bool)
        ensures
            r == (old(self).len < BUFFER_SIZE - 1 && old(self).pos < BUFFER_SIZE - 1),
            !r ==> *final(self) == *old(self),
            r ==> final(self).len == old(self).len + 1 && final(self).pos == old(self).pos + 1,
            r && old(self).pos <= old(self).len ==> final(self).text() == old(self).text().insert(
                old(self).pos as int,
                c,
            ) && final(self).wf(),
            r ==> forall|k: int|
                0 <= k < BUFFER_SIZE ==> final(self).buffer@[k] == if k == old(self).pos {
                    c
                } else if old(self).pos < k <= old(self).len {
                    old(self).buffer@[k - 1]
                } else {
                    old(self).buffer@[k]
                },
    {
        if self.len >= BUFFER_SIZE - 1 || self.pos >= BUFFER_SIZE - 1 {
            return false;
        }
        let mut i: usize = self.len;
        while i > self.pos
            invariant
                self.len == old(self).len,
                self.pos == old(self).pos,
                self.len < BUFFER_SIZE - 1,
                i <= self.len,
                self.pos <= i || i == self.len,
                forall|k: int|
                    0 <= k < BUFFER_SIZE ==> self.buffer@[k] == if i < k <= old(self).len {
                        old(self).buffer@[k - 1]
                    } else {
                        old(self).buffer@[k]
                    },
            decreases i,
        {
            let b: u8 = self.buffer[i - 1];
            self.buffer[i] = b;
            i -= 1;
        }
        let at: usize = self.pos;
        self.buffer[at] = c;
        self.pos += 1;
        self.len += 1;
        proof {
            if old(self).pos <= old(self).len {
                assert(self.text() =~= old(self).text().insert(old(self).pos as int, c));
            }
        }
        true
    }

    /// Takes the byte before the cursor out of the line and moves the cursor
    /// back by one.  Returns `false`, with nothing changed, when the cursor
    /// is at the start of the line or does not lie in the line.
    pub fn remove_char(&mut self) -> (r: bool)
        ensures
            r == (0 < old(self).pos <= old(self).len <= BUFFER_SIZE),
            !r ==> *final(self) == *old(self),
            r ==> final(self).len == old(self).len - 1 && final(self).pos == old(self).pos - 1,
            r ==> final(self).text() == old(self).text().remove(old(self).pos - 1),
            r ==> forall|k: int|
                0 <= k < BUFFER_SIZE ==> final(self).buffer@[k] == if old(self).pos - 1 <= k < old(self).len
                    - 1 {
                    old(self).buffer@[k + 1]
                } else if k == old(self).len - 1 {
                    0u8
                } else {
                    old(self).buffer@[k]
                },
    {
        if self.pos == 0 || self.len == 0 {
            return false;
        }
        if self.pos > self.len || self.pos > BUFFER_SIZE || self.len > BUFFER_SIZE {
            return false;
        }
        self.pos -= 1;
        let mut i: usize = self.pos;
        while i + 1 < self.len
            invariant
                self.len == old(self).len,
                self.pos == old(self).pos - 1,
                0 < old(self).pos <= old(self).len <= BUFFER_SIZE,
                self.pos <= i < self.len,
                forall|k: int|
                    0 <= k < BUFFER_SIZE ==> self.buffer@[k] == if self.pos <= k < i {
                        old(self).buffer@[k + 1]
                    } else {
                        old(self).buffer@[k]
                    },
            decreases self.len - i,
        {
            let b: u8 = self.buffer[i + 1];
            self.buffer[i] = b;
            i += 1;
        }
        let last: usize = self.len - 1;
        self.buffer[last] = 0;
        self.len -= 1;
        proof {
            assert(self.text() =~= old(self).text().remove(old(self).pos - 1));
        }
        true
    }

    /// Whether the cursor can move to the left.
    pub fn can_move_left(&self) -> (r: bool)
        ensures
            r == (self.pos > 0),
    {
        self.pos > 0
    }

    /// Whether the cursor can move to the right.
    pub fn can_move_right(&self) -> (r: bool)
        ensures
            r == (self.pos < self.len),
    {
        self.pos < self.len
    }

    /// Moves the cursor one byte to the left, unless it is at the start.
    pub fn move_left(&mut self)
        ensures
            final(self).buffer == old(self).buffer,
            final(self).len == old(self).len,
            final(self).pos == if old(self).pos > 0 {
                old(self).pos - 1
            } else {
                0
            },
            old(self).wf() ==> final(self).wf(),
    {
        if self.pos > 0 {
            self.pos -= 1;
        }
    }

    /// Moves the cursor one byte to the right, unless it is at the end of
    /// the line.
    pub fn move_right(&mut self)
        ensures
            final(self).buffer == old(self).buffer,
            final(self).len == old(self).len,
            final(self).pos == if old(self).pos < old(self).len {
                old(self).pos + 1
            } else {
                old(self).pos as int
            },
            old(self).wf() ==> final(self).wf(),
    {
        if self.pos < self.len {
            self.pos += 1;
        }
    }

    /// Hands out the line and empties the buffer for the next one.
    pub fn flush(&mut self) -> (r: &[u8])
        ensures
            r@ == old(self).text(),
            final(self).len == 0,
            final(self).pos == 0,
            final(self).buffer == old(self).buffer,
            final(self).wf(),
    {
        let len: usize = if self.len > BUFFER_SIZE {
            BUFFER_SIZE
        } else {
            self.len
        };
        self.len = 0;
        self.pos = 0;
        let slice: &[u8] = &self.buffer[0..len];
        proof {
            assert(self.buffer@.subrange(0, BUFFER_SIZE as int) =~= self.buffer@);
        }
        slice
    }

    /// The bytes of the line.
    pub fn get_buffer(&self) -> (r: &[u8])
        ensures
            r@ == self.text(),
    {
        let len: usize = if self.len > BUFFER_SIZE {
            BUFFER_SIZE
        } else {
            self.len
        };
        proof {
            assert(self.buffer@.subrange(0, BUFFER_SIZE as int) =~= self.buffer@);
        }
        &self.buffer[0..len]
    }

    /// Length of the line.
    pub fn get_len(&self) -> (r: usize)
        ensures
            r == self.len,
    {
        self.len
    }

    /// Position of the cursor in the line.
    pub fn get_pos(&self) -> (r: usize)
        ensures
            r == self.pos,
    {
        self.pos
    }
}

} // verus!
