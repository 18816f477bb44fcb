//! The UTF8String model: octets validated against the UTF-8 grammar,
//! stated directly over bytes.

use vstd::prelude::*;

verus! {

/// A UTF-8 continuation octet.
pub open spec fn utf8_cont(b: u8) -> bool {
    0x80 <= b <= 0xBF
}

/// Whether a byte string is well-formed UTF-8: the shortest-form
/// encoding ranges of RFC 3629, one scalar value at a time.
pub open spec fn valid_utf8(s: Seq<u8>) -> bool
    decreases s.len(),
{
    if s.len() == 0 {
        true
    } else {
        let b = s.first();
        if b < 0x80 {
            valid_utf8(s.skip(1))
        } else if 0xC2 <= b <= 0xDF {
            s.len() >= 2 && utf8_cont(s[1]) && valid_utf8(s.skip(2))
        } else if b == 0xE0 {
            s.len() >= 3 && 0xA0 <= s[1] <= 0xBF && utf8_cont(s[2]) && valid_utf8(s.skip(3))
        } else if 0xE1 <= b <= 0xEC || b == 0xEE || b == 0xEF {
            s.len() >= 3 && utf8_cont(s[1]) && utf8_cont(s[2]) && valid_utf8(s.skip(3))
        } else if b == 0xED {
            s.len() >= 3 && 0x80 <= s[1] <= 0x9F && utf8_cont(s[2]) && valid_utf8(s.skip(3))
        } else if b == 0xF0 {
            s.len() >= 4 && 0x90 <= s[1] <= 0xBF && utf8_cont(s[2]) && utf8_cont(s[3])
                && valid_utf8(s.skip(4))
        } else if 0xF1 <= b <= 0xF3 {
            s.len() >= 4 && utf8_cont(s[1]) && utf8_cont(s[2]) && utf8_cont(s[3]) && valid_utf8(
                s.skip(4),
            )
        } else if b == 0xF4 {
            s.len() >= 4 && 0x80 <= s[1] <= 0x8F && utf8_cont(s[2]) && utf8_cont(s[3])
                && valid_utf8(s.skip(4))
        } else {
            false
        }
    }
}

/// A string restricted to well-formed UTF-8, kept as its octets.
#[derive(Debug, Clone, PartialEq, Eq, Hash)]
pub struct Utf8String {
    bytes: Vec<u8>,
}

impl Utf8String {
    /// The octets as a mathematical sequence.
    pub closed spec fn bytesv(self) -> Seq<u8> {
        self.bytes@
    }

    /// Builds a UTF-8 string, refusing ill-formed octets.
    pub fn from_bytes(bytes: Vec<u8>) -> (r: Option<Utf8String>)
        ensures
            r is Some <==> valid_utf8(bytes@),
            r matches Some(p) ==> p.bytesv() == bytes@,
    {
        let n = bytes.len();
        let mut i: usize = 0;
        proof {
            assert(bytes@.skip(0) =~= bytes@);
        }
        while i < n
            invariant
                0 <= i <= n == bytes@.len(),
                valid_utf8(bytes@) <==> valid_utf8(bytes@.skip(i as int)),
            decreases n - i,
        {
            let ghost tail = bytes@.skip(i as int);
            let b = bytes[i];
            proof {
                assert(tail.first() == bytes@[i as int]);
            }
            let width: usize = if b < 0x80 {
                1
            } else if 0xC2 <= b && b <= 0xDF {
                if n - i < 2 || !(0x80 <= bytes[i + 1] && bytes[i + 1] <= 0xBF) {
                    return None;
                }
                2
            } else if b == 0xE0 {
                if n - i < 3 || !(0xA0 <= bytes[i + 1] && bytes[i + 1] <= 0xBF) || !(0x80
                    <= bytes[i + 2] && bytes[i + 2] <= 0xBF) {
                    return None;
                }
                3
            } else if (0xE1 <= b && b <= 0xEC) || b == 0xEE || b == 0xEF {
                if n - i < 3 || !(0x80 <= bytes[i + 1] && bytes[i + 1] <= 0xBF) || !(0x80
                    <= bytes[i + 2] && bytes[i + 2] <= 0xBF) {
                    return None;
                }
                3
            } else if b == 0xED {
                if n - i < 3 || !(0x80 <= bytes[i + 1] && bytes[i + 1] <= 0x9F) || !(0x80
                    <= bytes[i + 2] && bytes[i + 2] <= 0xBF) {
                    return None;
                }
                3
            } else if b == 0xF0 {
                if n - i < 4 || !(0x90 <= bytes[i + 1] && bytes[i + 1] <= 0xBF) || !(0x80
                    <= bytes[i + 2] && bytes[i + 2] <= 0xBF) || !(0x80 <= bytes[i + 3] && bytes[i
                    + 3] <= 0xBF) {
                    return None;
                }
                4
            } else if 0xF1 <= b && b <= 0xF3 {
                if n - i < 4 || !(0x80 <= bytes[i + 1] && bytes[i + 1] <= 0xBF) || !(0x80
                    <= bytes[i + 2] && bytes[i + 2] <= 0xBF) || !(0x80 <= bytes[i + 3] && bytes[i
                    + 3] <= 0xBF) {
                    return None;
                }
                4
            } else if b == 0xF4 {
                if n - i < 4 || !(0x80 <= bytes[i + 1] && bytes[i + 1] <= 0x8F) || !(0x80
                    <= bytes[i + 2] && bytes[i + 2] <= 0xBF) || !(0x80 <= bytes[i + 3] && bytes[i
                    + 3] <= 0xBF) {
                    return None;
                }
                4
            } else {
                return None;
            };
            proof {
                assert(forall|j: int| 0 <= j < tail.len() ==> #[trigger] tail[j] == bytes@[i + j]);
                assert(tail.skip(width as int) =~= bytes@.skip(i as int + width as int));
            }
            i = i + width;
        }
        proof {
            assert(bytes@.skip(n as int) =~= Seq::<u8>::empty());
        }
        Some(Utf8String { bytes })
    }

    /// The octets of the string.
    pub fn as_bytes(&self) -> (r: &[u8])
        ensures
            r@ == self.bytesv(),
    {
        self.bytes.as_slice()
    }
}

} // verus!
