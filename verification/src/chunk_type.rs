//! The 4-byte chunk type code and its bit-encoded properties.

use vstd::prelude::*;
use vstd::string::StrSliceExecFns;
use vstd::utf8::{decode_utf8, valid_utf8};

use crate::error::Error;

verus! {

/// True when `b` is an ASCII letter, `A`-`Z` or `a`-`z`.
pub open spec fn spec_is_alphabetic(b: u8) -> bool {
    (65 <= b && b <= 90) || (97 <= b && b <= 122)
}

/// True when the character `c` is an ASCII letter.
pub open spec fn spec_is_alphabetic_char(c: char) -> bool {
    (65 <= c as u32 && c as u32 <= 90) || (97 <= c as u32 && c as u32 <= 122)
}

fn is_alphabetic(b: u8) -> (r: bool)
    ensures
        r == spec_is_alphabetic(b),
{
    (65 <= b && b <= 90) || (97 <= b && b <= 122)
}

/// A 4-byte chunk type code. A conforming code consists of uppercase or
/// lowercase ASCII letters only; bit 5 (value 32) of each byte carries one
/// semantic flag, tested by the `is_*` methods below.
#[derive(Debug, Clone, Copy, PartialEq, Eq, Structural)]
pub struct ChunkType {
    /// First byte; bit 5 clear means the chunk is critical, set means ancillary.
    pub ancillary: u8,
    /// Second byte; bit 5 clear means the chunk type is public, set means private.
    pub private: u8,
    /// Third byte; bit 5 must be clear in a conforming code.
    pub reserved: u8,
    /// Fourth byte; bit 5 set means the chunk is safe to copy unseen.
    pub safe_to_copy: u8,
}

impl ChunkType {
    /// The four bytes of the code, in order.
    pub open spec fn spec_bytes(&self) -> Seq<u8> {
        seq![self.ancillary, self.private, self.reserved, self.safe_to_copy]
    }

    /// A well-formed code holds ASCII letters only.
    pub open spec fn wf(&self) -> bool {
        spec_is_alphabetic(self.ancillary) && spec_is_alphabetic(self.private)
            && spec_is_alphabetic(self.reserved) && spec_is_alphabetic(self.safe_to_copy)
    }

    /// Returns the underlying bytes as an array.
    pub fn bytes(&self) -> (r: [u8; 4])
        ensures
            r@ == self.spec_bytes(),
    {
        let r = [self.ancillary, self.private, self.reserved, self.safe_to_copy];
        proof {
            assert(r@ =~= self.spec_bytes());
        }
        r
    }

    /// Builds a code from four raw bytes; every byte must be an ASCII letter.
    pub fn try_from(value: [u8; 4]) -> (r: Result<ChunkType, Error>)
        ensures
            match r {
                Ok(t) => t.wf() && t.spec_bytes() == value@,
                Err(e) => {
                    &&& e == Error::InvalidChunkType
                    &&& !(spec_is_alphabetic(value@[0]) && spec_is_alphabetic(value@[1])
                        && spec_is_alphabetic(value@[2]) && spec_is_alphabetic(value@[3]))
                },
            },
    {
        if !(is_alphabetic(value[0]) && is_alphabetic(value[1]) && is_alphabetic(value[2])
            && is_alphabetic(value[3])) {
            return Err(Error::InvalidChunkType);
        }
        let t = ChunkType {
            ancillary: value[0],
            private: value[1],
            reserved: value[2],
            safe_to_copy: value[3],
        };
        proof {
            assert(t.spec_bytes() =~= value@);
        }
        Ok(t)
    }

    /// Builds a code from a 4-character ASCII-alphabetic string.
    pub fn from_str(s: &str) -> (r: Result<ChunkType, Error>)
        ensures
            match r {
                Ok(t) => {
                    &&& s@.len() == 4
                    &&& t.wf()
                    &&& t.spec_bytes() == Seq::new(4, |i: int| (s@[i] as u32) as u8)
                    &&& forall|i: int| 0 <= i < 4 ==> spec_is_alphabetic_char(#[trigger] s@[i])
                },
                Err(e) => {
                    &&& e == Error::InvalidChunkType
                    &&& !(s@.len() == 4 && forall|i: int|
                        0 <= i < 4 ==> spec_is_alphabetic_char(#[trigger] s@[i]))
                },
            },
    {
        if s.unicode_len() != 4 {
            return Err(Error::InvalidChunkType);
        }
        let c0 = s.get_char(0);
        let c1 = s.get_char(1);
        let c2 = s.get_char(2);
        let c3 = s.get_char(3);
        if !(is_alphabetic_char(c0) && is_alphabetic_char(c1) && is_alphabetic_char(c2)
            && is_alphabetic_char(c3)) {
            return Err(Error::InvalidChunkType);
        }
        let t = ChunkType {
            ancillary: (c0 as u32) as u8,
            private: (c1 as u32) as u8,
            reserved: (c2 as u32) as u8,
            safe_to_copy: (c3 as u32) as u8,
        };
        proof {
            assert(t.spec_bytes() =~= Seq::new(4, |i: int| (s@[i] as u32) as u8));
        }
        Ok(t)
    }

    /// Bit 5 of the first byte clear: the chunk is critical for display.
    pub open spec fn spec_is_critical(&self) -> bool {
        self.ancillary & 32 == 0
    }

    /// Returns `true` if the chunk is a critical chunk.
    pub fn is_critical(&self) -> (r: bool)
        ensures
            r == self.spec_is_critical(),
    {
        self.ancillary & 32 == 0
    }

    /// Bit 5 of the second byte clear: the chunk type is public.
    pub open spec fn spec_is_public(&self) -> bool {
        self.private & 32 == 0
    }

    /// Returns `true` if the chunk is a public chunk.
    pub fn is_public(&self) -> (r: bool)
        ensures
            r == self.spec_is_public(),
    {
        self.private & 32 == 0
    }

    /// Bit 5 of the third byte clear: the reserved bit is valid.
    pub open spec fn spec_is_reserved_bit_valid(&self) -> bool {
        self.reserved & 32 == 0
    }

    /// Returns `true` if the reserved bit is set to zero.
    pub fn is_reserved_bit_valid(&self) -> (r: bool)
        ensures
            r == self.spec_is_reserved_bit_valid(),
    {
        self.reserved & 32 == 0
    }

    /// Bit 5 of the fourth byte set: the chunk does not depend on the payload
    /// of other chunks and may be copied by tools that do not understand it.
    pub open spec fn spec_is_safe_to_copy(&self) -> bool {
        self.safe_to_copy & 32 == 32
    }

    /// Returns `true` if the chunk's safe-to-copy bit is 1.
    pub fn is_safe_to_copy(&self) -> (r: bool)
        ensures
            r == self.spec_is_safe_to_copy(),
    {
        self.safe_to_copy & 32 == 32
    }

    /// A valid code holds ASCII letters only and has a valid reserved bit.
    pub open spec fn spec_is_valid(&self) -> bool {
        self.wf() && self.spec_is_reserved_bit_valid()
    }

    /// Returns `true` if the code is valid: all four bytes ASCII alphabetic
    /// and the reserved bit clear.
    pub fn is_valid(&self) -> (r: bool)
        ensures
            r == self.spec_is_valid(),
    {
        is_alphabetic(self.ancillary) && is_alphabetic(self.private)
            && is_alphabetic(self.reserved) && is_alphabetic(self.safe_to_copy)
            && self.is_reserved_bit_valid()
    }

    /// The policy gate for carrying user data: the code must be valid,
    /// ancillary, private, and safe to copy.
    pub open spec fn spec_is_modifiable(&self) -> bool {
        self.spec_is_valid() && !self.spec_is_critical() && !self.spec_is_public()
            && self.spec_is_reserved_bit_valid() && self.spec_is_safe_to_copy()
    }

    /// Returns `true` if a chunk of this type is safe to be inserted or
    /// removed: it is valid, ancillary (not critical), private (not public),
    /// has a valid reserved bit, and is safe to copy.
    pub fn is_modifiable(&self) -> (r: bool)
        ensures
            r == self.spec_is_modifiable(),
    {
        self.is_valid() && !self.is_critical() && !self.is_public()
            && self.is_reserved_bit_valid() && self.is_safe_to_copy()
    }

    /// Renders the four bytes as a string. A well-formed code always
    /// renders; a code built around the alphabetic invariant is rejected
    /// when its bytes are not valid UTF-8.
    pub fn to_string(&self) -> (r: Result<String, Error>)
        ensures
            match r {
                Ok(s) => valid_utf8(self.spec_bytes()) && s@ == decode_utf8(self.spec_bytes()),
                Err(e) => e == Error::EncodingError && !valid_utf8(self.spec_bytes()),
            },
    {
        let mut v: Vec<u8> = Vec::new();
        v.push(self.ancillary);
        v.push(self.private);
        v.push(self.reserved);
        v.push(self.safe_to_copy);
        proof {
            assert(v@ =~= self.spec_bytes());
        }
        match crate::text::string_from_utf8(v) {
            Some(s) => Ok(s),
            None => Err(Error::EncodingError),
        }
    }
}

/// A well-formed code always renders as text: four ASCII letters are valid
/// UTF-8 and decode to themselves, character for character, so `to_string`
/// cannot fail on a code the constructors accepted.
pub proof fn lemma_wf_code_renders(t: ChunkType)
    requires
        t.wf(),
    ensures
        valid_utf8(t.spec_bytes()),
        decode_utf8(t.spec_bytes()) == seq![
            t.ancillary as char,
            t.private as char,
            t.reserved as char,
            t.safe_to_copy as char,
        ],
{
    let chars = seq![
        t.ancillary as char,
        t.private as char,
        t.reserved as char,
        t.safe_to_copy as char,
    ];
    assert(vstd::utf8::is_ascii_chars(chars)) by {
        assert('\0' <= t.ancillary as char <= '\u{7f}');
        assert('\0' <= t.private as char <= '\u{7f}');
        assert('\0' <= t.reserved as char <= '\u{7f}');
        assert('\0' <= t.safe_to_copy as char <= '\u{7f}');
    }
    vstd::utf8::is_ascii_chars_encode_utf8(chars);
    assert(vstd::utf8::encode_utf8(chars) =~= t.spec_bytes());
    vstd::utf8::encode_utf8_valid_utf8(chars);
    vstd::utf8::encode_utf8_decode_utf8(chars);
}

fn is_alphabetic_char(c: char) -> (r: bool)
    ensures
        r == spec_is_alphabetic_char(c),
{
    let u = c as u32;
    (65 <= u && u <= 90) || (97 <= u && u <= 122)
}

} // verus!
