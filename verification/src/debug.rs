//! Byte escaping for the gateway's diagnostic output: each byte becomes
//! the short, printable form a log can carry.

use vstd::prelude::*;

verus! {

/// The escaped form of one byte: up to four bytes and their count.
pub struct EscapeDefault {
    pub data: [u8; 4],
    pub len: usize,
    pub at: usize,
}

/// The hexadecimal digit for a value below sixteen.
pub fn hexify(b: u8) -> (r: u8)
    requires
        b < 16,
    ensures
        b < 10 ==> r == 0x30 + b,
        b >= 10 ==> r == 0x61 + (b - 10),
{
    if b < 10 {
        0x30 + b
    } else {
        0x61 + (b - 10)
    }
}

/// Escape one byte: the common control characters become two-byte escapes,
/// printable bytes stand for themselves, everything else becomes a
/// four-byte hex escape.
pub fn escape_default(c: u8) -> (r: EscapeDefault)
    ensures
        r.at == 0,
        1 <= r.len <= 4,
        c == 0x09 || c == 0x0d || c == 0x0a || c == 0x5c || c == 0x27 || c == 0x22 ==> r.len
            == 2 && r.data[0] == 0x5c,
        0x20 <= c < 0x7f && c != 0x5c && c != 0x27 && c != 0x22 ==> r.len == 1 && r.data[0] == c,
        !(0x20 <= c < 0x7f) && c != 0x09 && c != 0x0d && c != 0x0a ==> r.len == 4 && r.data[0]
            == 0x5c && r.data[1] == 0x78,
{
    let (data, len): ([u8; 4], usize) = if c == 0x09 {
        ([0x5c, 0x74, 0, 0], 2)
    } else if c == 0x0d {
        ([0x5c, 0x72, 0, 0], 2)
    } else if c == 0x0a {
        ([0x5c, 0x6e, 0, 0], 2)
    } else if c == 0x5c {
        ([0x5c, 0x5c, 0, 0], 2)
    } else if c == 0x27 {
        ([0x5c, 0x27, 0, 0], 2)
    } else if c == 0x22 {
        ([0x5c, 0x22, 0, 0], 2)
    } else if 0x20 <= c && c < 0x7f {
        ([c, 0, 0, 0], 1)
    } else {
        proof {
            assert(c >> 4 < 16 && c & 0xf < 16) by (bit_vector);
        }
        ([0x5c, 0x78, hexify(c >> 4), hexify(c & 0xf)], 4)
    };
    EscapeDefault { data, len, at: 0 }
}

impl EscapeDefault {
    /// The next byte of the escaped form, front to back.
    pub fn next(&mut self) -> (r: Option<u8>)
        requires
            old(self).len <= 4,
        ensures
            old(self).at < old(self).len ==> r == Some(old(self).data@[old(self).at as int])
                && final(self).at == old(self).at + 1,
            old(self).at >= old(self).len ==> r is None && *final(self) == *old(self),
            final(self).data == old(self).data,
            final(self).len == old(self).len,
    {
        if self.at < self.len {
            let b = self.data[self.at];
            self.at = self.at + 1;
            Some(b)
        } else {
            None
        }
    }

    /// How many bytes are still to come.
    pub fn size_hint(&self) -> (r: usize)
        requires
            self.at <= self.len,
        ensures
            r == self.len - self.at,
    {
        self.len - self.at
    }
}

} // verus!
