//! Strings that end at a zero byte.

use vstd::prelude::*;

verus! {

/// The length of the string that starts `s`: the bytes before the first
/// zero byte among the first `n`, or all `n`.
pub open spec fn c_strlen(s: Seq<u8>, n: int) -> int
    decreases n,
{
    if n <= 0 {
        0
    } else if c_strlen(s, n - 1) < n - 1 {
        c_strlen(s, n - 1)
    } else if s[n - 1] == 0 {
        n - 1
    } else {
        n
    }
}

/// The length of the string that starts `s`: the number of bytes before the
/// first zero byte, or the length of `s` when it holds none.
pub fn strlen(s: &[u8]) -> (r: usize)
    ensures
        r == c_strlen(s@, s@.len() as int),
        r <= s@.len(),
        r < s@.len() ==> s@[r as int] == 0,
        forall|k: int| 0 <= k < r ==> s@[k] != 0,
{
    let mut len: usize = 0;
    while len < s.len() && s[len] != 0
        invariant
            len <= s@.len(),
            c_strlen(s@, len as int) == len,
            forall|k: int| 0 <= k < len ==> s@[k] != 0,
        decreases s@.len() - len,
    {
        len += 1;
    }
    proof {
        lemma_strlen_stops(s@, len as int, s@.len() as int);
    }
    len
}

/// Once a zero byte has been found, looking at more bytes changes nothing.
proof fn lemma_strlen_stops(s: Seq<u8>, len: int, n: int)
    requires
        0 <= len <= n <= s.len(),
        c_strlen(s, len) == len,
        len < s.len() ==> s[len] == 0,
    ensures
        c_strlen(s, n) == len,
    decreases n - len,
{
    if n > len {
        lemma_strlen_stops(s, len, n - 1);
    }
}

/// The byte of `s` at index `i`; the zero byte at and behind the end of
/// `s`, where the string ends at the latest.
pub open spec fn byte_at(s: Seq<u8>, i: int) -> u8 {
    if 0 <= i < s.len() {
        s[i]
    } else {
        0
    }
}

/// The index `i` as a number.
pub open spec fn idx(i: usize) -> int {
    i as int
}

/// The length of the string that starts `s`.
pub open spec fn str_len(s: Seq<u8>) -> int {
    c_strlen(s, s.len() as int)
}

/// The bytes of the string that starts `s`, without the zero byte.
pub open spec fn c_str(s: Seq<u8>) -> Seq<u8> {
    s.subrange(0, str_len(s))
}

/// What the length of a string says about its bytes.
pub proof fn lemma_str_len(s: Seq<u8>)
    ensures
        0 <= str_len(s) <= s.len(),
        byte_at(s, str_len(s)) == 0,
        forall|k: int| 0 <= k < str_len(s) ==> #[trigger] byte_at(s, k) != 0,
{
    lemma_len_upto(s, s.len() as int);
}

proof fn lemma_len_upto(s: Seq<u8>, n: int)
    requires
        0 <= n <= s.len(),
    ensures
        0 <= c_strlen(s, n) <= n,
        c_strlen(s, n) < n ==> s[c_strlen(s, n)] == 0,
        forall|k: int| 0 <= k < c_strlen(s, n) ==> s[k] != 0,
    decreases n,
{
    if n > 0 {
        lemma_len_upto(s, n - 1);
    }
}

/// The first index at or after `i` at which the strings `a` and `b` differ
/// or one of them ends.
pub open spec fn mismatch(a: Seq<u8>, b: Seq<u8>, i: int) -> int
    decreases a.len() - i,
{
    if i < 0 || i >= a.len() || byte_at(a, i) == 0 || byte_at(b, i) == 0 || byte_at(a, i) != byte_at(b, i) {
        i
    } else {
        mismatch(a, b, i + 1)
    }
}

/// The first index at or after `i` and below `n` at which the strings `a`
/// and `b` differ or one of them ends; `n` when there is none.
pub open spec fn mismatch_upto(a: Seq<u8>, b: Seq<u8>, i: int, n: int) -> int
    decreases n - i,
{
    if i >= n {
        n
    } else if byte_at(a, i) == 0 || byte_at(b, i) == 0 || byte_at(a, i) != byte_at(b, i) {
        i
    } else {
        mismatch_upto(a, b, i + 1, n)
    }
}

/// The difference of the bytes `x` and `y`, taken modulo 256.
pub open spec fn byte_diff(x: u8, y: u8) -> int {
    (x - y) % 256
}

/// The difference of the bytes `x` and `y`, taken modulo 256.
pub fn wrapped_diff(x: u8, y: u8) -> (r: i32)
    ensures
        r == byte_diff(x, y),
        0 <= r < 256,
        r == 0 <==> x == y,
{
    x.wrapping_sub(y) as i32
}

/// The byte of `s` at index `i`, or the zero byte behind the end of `s`.
pub fn get_byte(s: &[u8], i: usize) -> (r: u8)
    ensures
        r == byte_at(s@, i as int),
{
    if i < s.len() {
        s[i]
    } else {
        0
    }
}

/// Compares the strings that start `s1` and `s2`: zero when they are equal,
/// else the difference of the first bytes in which they differ, modulo 256.
pub fn strcmp(s1: &[u8], s2: &[u8]) -> (r: i32)
    ensures
        r == byte_diff(byte_at(s1@, mismatch(s1@, s2@, 0)), byte_at(s2@, mismatch(s1@, s2@, 0))),
        r == 0 <==> c_str(s1@) == c_str(s2@),
{
    let len: usize = s1.len();
    let mut i: usize = 0;
    let mut a: u8 = get_byte(s1, 0);
    let mut b: u8 = get_byte(s2, 0);
    while a != 0 && b != 0
        invariant
            len == s1@.len(),
            i <= len,
            a == byte_at(s1@, idx(i)),
            b == byte_at(s2@, idx(i)),
            mismatch(s1@, s2@, 0) == mismatch(s1@, s2@, idx(i)),
            forall|k: int| 0 <= k < idx(i) ==> byte_at(s1@, k) == byte_at(s2@, k) && byte_at(s1@, k) != 0,
        decreases len - i,
    {
        if a != b {
            proof {
                lemma_equal_strings(s1@, s2@, idx(i));
            }
            return wrapped_diff(a, b);
        }
        i += 1;
        a = get_byte(s1, i);
        b = get_byte(s2, i);
    }
    proof {
        lemma_equal_strings(s1@, s2@, idx(i));
    }
    wrapped_diff(a, b)
}

/// Two strings that agree up to index `m`, where neither has ended, are
/// equal exactly if both end at `m`.
pub proof fn lemma_equal_strings(a: Seq<u8>, b: Seq<u8>, m: int)
    requires
        0 <= m,
        forall|k: int| 0 <= k < m ==> byte_at(a, k) == byte_at(b, k) && byte_at(a, k) != 0,
        byte_at(a, m) == 0 || byte_at(b, m) == 0 || byte_at(a, m) != byte_at(b, m),
    ensures
        (byte_at(a, m) == byte_at(b, m)) <==> c_str(a) == c_str(b),
{
    lemma_str_len(a);
    lemma_str_len(b);
    let la = str_len(a);
    let lb = str_len(b);
    assert(m <= la) by {
        if la < m {
            assert(byte_at(a, la) != 0);
        }
    }
    assert(m <= lb) by {
        if lb < m {
            assert(byte_at(b, lb) == byte_at(a, lb));
            assert(byte_at(a, lb) != 0);
        }
    }
    if byte_at(a, m) == byte_at(b, m) {
        assert(la == m) by {
            if m < la {
                assert(byte_at(a, m) != 0);
            }
        }
        assert(lb == m) by {
            if m < lb {
                assert(byte_at(b, m) != 0);
            }
        }
        assert forall|k: int| 0 <= k < m implies c_str(a)[k] == c_str(b)[k] by {
            assert(byte_at(a, k) == byte_at(b, k));
        }
        assert(c_str(a) =~= c_str(b));
    } else if c_str(a) == c_str(b) {
        assert(c_str(a).len() == la);
        assert(c_str(b).len() == lb);
        assert(la == lb);
        if m < la {
            assert(c_str(a)[m] == c_str(b)[m]);
        }
    }
}

/// Compares at most the first `n` bytes of the strings that start `s1` and
/// `s2`: zero when they agree, else the difference of the first bytes in
/// which they differ, modulo 256.
pub fn strncmp(s1: &[u8], s2: &[u8], n: usize) -> (r: i32)
    ensures
        r == if mismatch_upto(s1@, s2@, 0, idx(n)) == idx(n) {
            0
        } else {
            byte_diff(
                byte_at(s1@, mismatch_upto(s1@, s2@, 0, idx(n))),
                byte_at(s2@, mismatch_upto(s1@, s2@, 0, idx(n))),
            )
        },
{
    let mut i: usize = 0;
    let mut a: u8 = get_byte(s1, 0);
    let mut b: u8 = get_byte(s2, 0);
    while i < n && a != 0 && b != 0
        invariant
            i <= n,
            a == byte_at(s1@, idx(i)),
            b == byte_at(s2@, idx(i)),
            mismatch_upto(s1@, s2@, 0, idx(n)) == mismatch_upto(s1@, s2@, idx(i), idx(n)),
        decreases n - i,
    {
        if a != b {
            return wrapped_diff(a, b);
        }
        i += 1;
        a = get_byte(s1, i);
        b = get_byte(s2, i);
    }
    if i == n {
        return 0;
    }
    wrapped_diff(a, b)
}

/// Copies the string that starts `src`, with a zero byte behind it, to the
/// start of `dest`, which must have room for it.
pub fn strcpy(dest: &mut [u8], src: &[u8])
    requires
        str_len(src@) < old(dest)@.len(),
    ensures
        final(dest)@.len() == old(dest)@.len(),
        final(dest)@.subrange(0, str_len(src@)) == c_str(src@),
        final(dest)@[str_len(src@)] == 0,
        forall|k: int| str_len(src@) < k < old(dest)@.len() ==> final(dest)@[k] == old(dest)@[k],
        c_str(final(dest)@) == c_str(src@),
{
    proof {
        lemma_str_len(src@);
    }
    let n: usize = strlen(src);
    let mut i: usize = 0;
    while i < n
        invariant
            i <= n,
            n == str_len(src@),
            n < dest@.len(),
            n <= src@.len(),
            dest@.len() == old(dest)@.len(),
            forall|k: int| 0 <= k < i ==> dest@[k] == src@[k],
            forall|k: int| i <= k < dest@.len() ==> dest@[k] == old(dest)@[k],
        decreases n - i,
    {
        dest[i] = src[i];
        i += 1;
    }
    dest[n] = 0;
    proof {
        assert(dest@.subrange(0, n as int) =~= c_str(src@));
        assert forall|k: int| 0 <= k < n implies dest@[k] != 0 by {
            assert(byte_at(src@, k) != 0);
        }
        lemma_str_len_is(dest@, n as int);
        assert(c_str(dest@) =~= c_str(src@));
    }
}

/// A string whose first zero byte is at index `n` has the length `n`.
pub proof fn lemma_str_len_is(s: Seq<u8>, n: int)
    requires
        0 <= n <= s.len(),
        byte_at(s, n) == 0,
        forall|k: int| 0 <= k < n ==> s[k] != 0,
    ensures
        str_len(s) == n,
{
    lemma_str_len(s);
    let l = str_len(s);
    if l < n {
        assert(byte_at(s, l) == 0);
        assert(s[l] != 0);
    } else if l > n {
        assert(byte_at(s, n) != 0);
    }
}

/// Copies the string that starts `src` to the start of `dest`, `n` bytes at
/// most, and fills up with zero bytes to `n` bytes.  No zero byte is written
/// where the string has `n` bytes or more.
pub fn strncpy(dest: &mut [u8], src: &[u8], n: usize)
    requires
        n <= old(dest)@.len(),
    ensures
        final(dest)@.len() == old(dest)@.len(),
        forall|k: int|
            0 <= k < n ==> final(dest)@[k] == if k < str_len(src@) {
                src@[k]
            } else {
                0u8
            },
        forall|k: int| n <= k < old(dest)@.len() ==> final(dest)@[k] == old(dest)@[k],
{
    proof {
        lemma_str_len(src@);
    }
    let len: usize = strlen(src);
    let mut i: usize = 0;
    while i < n && i < len
        invariant
            i <= n <= dest@.len(),
            i <= len,
            len == str_len(src@),
            len <= src@.len(),
            dest@.len() == old(dest)@.len(),
            forall|k: int| 0 <= k < i ==> dest@[k] == src@[k],
            forall|k: int| i <= k < dest@.len() ==> dest@[k] == old(dest)@[k],
        decreases n - i,
    {
        dest[i] = src[i];
        i += 1;
    }
    while i < n
        invariant
            i <= n <= dest@.len(),
            len == str_len(src@),
            i >= len || i == n,
            dest@.len() == old(dest)@.len(),
            forall|k: int|
                0 <= k < i ==> dest@[k] == if k < len {
                    src@[k]
                } else {
                    0u8
                },
            forall|k: int| i <= k < dest@.len() ==> dest@[k] == old(dest)@[k],
        decreases n - i,
    {
        dest[i] = 0;
        i += 1;
    }
}

/// Appends the string that starts `src` to the string that starts `dest`,
/// which must have room for both and a zero byte.
pub fn strcat(dest: &mut [u8], src: &[u8])
    requires
        str_len(old(dest)@) + str_len(src@) < old(dest)@.len(),
    ensures
        final(dest)@.len() == old(dest)@.len(),
        c_str(final(dest)@) == c_str(old(dest)@) + c_str(src@),
        forall|k: int|
            str_len(old(dest)@) + str_len(src@) < k < old(dest)@.len() ==> final(dest)@[k] == old(dest)@[k],
{
    let n: usize = strlen(src);
    append(dest, src, n);
}

/// Appends the first `n` bytes of the string that starts `src`, or all of it
/// if it is shorter, to the string that starts `dest`, which must have room
/// for both and a zero byte.
pub fn strncat(dest: &mut [u8], src: &[u8], n: usize)
    requires
        str_len(old(dest)@) + (if n < str_len(src@) { n as int } else { str_len(src@) }) < old(dest)@.len(),
    ensures
        final(dest)@.len() == old(dest)@.len(),
        c_str(final(dest)@) == c_str(old(dest)@) + src@.subrange(
            0,
            if n < str_len(src@) {
                n as int
            } else {
                str_len(src@)
            },
        ),
        forall|k: int|
            str_len(old(dest)@) + (if n < str_len(src@) { n as int } else { str_len(src@) }) < k < old(
                dest,
            )@.len() ==> final(dest)@[k] == old(dest)@[k],
{
    proof {
        lemma_str_len(src@);
    }
    let len: usize = strlen(src);
    let m: usize = if n < len {
        n
    } else {
        len
    };
    append(dest, src, m);
}

/// Appends the first `m` bytes of `src`, none of them zero, and a zero byte
/// to the string that starts `dest`.
fn append(dest: &mut [u8], src: &[u8], m: usize)
    requires
        m <= str_len(src@),
        str_len(old(dest)@) + m < old(dest)@.len(),
    ensures
        final(dest)@.len() == old(dest)@.len(),
        c_str(final(dest)@) == c_str(old(dest)@) + src@.subrange(0, m as int),
        forall|k: int| str_len(old(dest)@) + m < k < old(dest)@.len() ==> final(dest)@[k] == old(dest)@[k],
{
    proof {
        lemma_str_len(src@);
        lemma_str_len(dest@);
    }
    let start: usize = strlen(dest);
    let total: usize = dest.len();
    let mut j: usize = 0;
    while j < m
        invariant
            j <= m,
            total == dest@.len(),
            m <= str_len(src@),
            str_len(src@) <= src@.len(),
            start == str_len(old(dest)@),
            start + m < dest@.len(),
            dest@.len() == old(dest)@.len(),
            forall|k: int| 0 <= k < start ==> dest@[k] == old(dest)@[k],
            forall|k: int| 0 <= k < j ==> dest@[start + k] == src@[k],
            forall|k: int| start + j <= k < dest@.len() ==> dest@[k] == old(dest)@[k],
        decreases m - j,
    {
        dest[start + j] = src[j];
        j += 1;
    }
    dest[start + m] = 0;
    proof {
        assert forall|k: int| 0 <= k < start + m implies dest@[k] != 0 by {
            if k < start {
                assert(byte_at(old(dest)@, k) != 0);
            } else {
                assert(dest@[start + (k - start)] == src@[k - start]);
                assert(byte_at(src@, k - start) != 0);
            }
        }
        lemma_str_len_is(dest@, start + m);
        assert(c_str(dest@) =~= c_str(old(dest)@) + src@.subrange(0, m as int));
    }
}

/// The index of the first byte `c` in the string that starts `s`.  The zero
/// byte that ends the string is never found.
pub fn strchr(s: &[u8], c: u8) -> (r: Option<usize>)
    ensures
        match r {
            Some(i) => i < str_len(s@) && s@[i as int] == c && (forall|k: int| 0 <= k < i ==> s@[k] != c),
            None => forall|k: int| 0 <= k < str_len(s@) ==> s@[k] != c,
        },
{
    proof {
        lemma_str_len(s@);
    }
    let n: usize = strlen(s);
    let mut i: usize = 0;
    while i < n
        invariant
            i <= n,
            n == str_len(s@),
            n <= s@.len(),
            forall|k: int| 0 <= k < i ==> s@[k] != c,
        decreases n - i,
    {
        if s[i] == c {
            return Some(i);
        }
        i += 1;
    }
    None
}

/// The string `needle` is found in `hay` at index `i`: each of its bytes
/// stands there.
pub open spec fn found_at(hay: Seq<u8>, needle: Seq<u8>, i: int) -> bool {
    forall|k: int| 0 <= k < str_len(needle) ==> byte_at(hay, i + k) == #[trigger] byte_at(needle, k)
}

/// The part of `s` from index `i` on.
pub open spec fn tail(s: Seq<u8>, i: usize) -> Seq<u8> {
    s.subrange(i as int, s.len() as int)
}

/// Comparing the start of a string with a whole string tells whether that
/// string is found there.
pub proof fn lemma_found(hay: Seq<u8>, needle: Seq<u8>, i: int, j: int)
    requires
        0 <= i <= hay.len(),
        0 <= j <= str_len(needle),
        forall|k: int| 0 <= k < j ==> byte_at(hay, i + k) == #[trigger] byte_at(needle, k),
    ensures
        (mismatch_upto(hay.subrange(i, hay.len() as int), needle, j, str_len(needle)) == str_len(needle))
            <==> found_at(hay, needle, i),
    decreases str_len(needle) - j,
{
    lemma_str_len(needle);
    let t = hay.subrange(i, hay.len() as int);
    let n = str_len(needle);
    assert(byte_at(t, j) == byte_at(hay, i + j));
    if j < n {
        assert(byte_at(needle, j) != 0);
        if byte_at(t, j) == byte_at(needle, j) {
            lemma_found(hay, needle, i, j + 1);
        } else {
            assert(!found_at(hay, needle, i));
        }
    }
}

/// The index at which the string that starts `needle` is first found in the
/// string that starts `haystack`.  Nothing is found in an empty string.
pub fn strstr(haystack: &[u8], needle: &[u8]) -> (r: Option<usize>)
    ensures
        match r {
            Some(i) => idx(i) < str_len(haystack@) && found_at(haystack@, needle@, idx(i)) && (forall|k: int|
                0 <= k < idx(i) ==> !found_at(haystack@, needle@, k)),
            None => forall|k: int| 0 <= k < str_len(haystack@) ==> !found_at(haystack@, needle@, k),
        },
{
    proof {
        lemma_str_len(haystack@);
        lemma_str_len(needle@);
    }
    let n: usize = strlen(haystack);
    let needle_len: usize = strlen(needle);
    let mut i: usize = 0;
    while i < n
        invariant
            i <= n,
            n == str_len(haystack@),
            n <= haystack@.len(),
            needle_len == str_len(needle@),
            forall|k: int| 0 <= k < idx(i) ==> !found_at(haystack@, needle@, k),
        decreases n - i,
    {
        let rest: &[u8] = &haystack[i..haystack.len()];
        proof {
            assert(rest@ == tail(haystack@, i));
            lemma_found(haystack@, needle@, idx(i), 0);
            lemma_diff_zero(rest@, needle@, idx(needle_len));
        }
        if strncmp(rest, needle, needle_len) == 0 {
            return Some(i);
        }
        i += 1;
    }
    None
}

/// Where two strings differ before either ends, the difference of the bytes
/// is not zero.
pub proof fn lemma_diff_zero(a: Seq<u8>, b: Seq<u8>, n: int)
    requires
        n == str_len(b),
    ensures
        mismatch_upto(a, b, 0, n) < n ==> byte_diff(
            byte_at(a, mismatch_upto(a, b, 0, n)),
            byte_at(b, mismatch_upto(a, b, 0, n)),
        ) != 0,
        0 <= mismatch_upto(a, b, 0, n) <= n,
{
    lemma_str_len(b);
    lemma_mismatch(a, b, 0, n);
}

proof fn lemma_mismatch(a: Seq<u8>, b: Seq<u8>, i: int, n: int)
    requires
        0 <= i,
    ensures
        i <= mismatch_upto(a, b, i, n) || n < i,
        i <= n ==> mismatch_upto(a, b, i, n) <= n,
        mismatch_upto(a, b, i, n) < n ==> {
            let m = mismatch_upto(a, b, i, n);
            byte_at(a, m) == 0 || byte_at(b, m) == 0 || byte_at(a, m) != byte_at(b, m)
        },
    decreases n - i,
{
    if i < n && !(byte_at(a, i) == 0 || byte_at(b, i) == 0 || byte_at(a, i) != byte_at(b, i)) {
        lemma_mismatch(a, b, i + 1, n);
    }
}

} // verus!
