//! The chunk record: one length-prefixed, type-tagged, CRC-checked binary
//! unit of the container.
//!
//! The wire layout of one record, all integers big-endian, is
//! `length:u32 | type:4 bytes | payload:length bytes | crc:u32`, where the
//! CRC-32 is computed over the type and payload bytes only.

use vstd::prelude::*;
use vstd::slice::{slice_subrange, slice_to_vec};
use vstd::utf8::{decode_utf8, valid_utf8};

use crate::bytes::{be32, lemma_be32_of_u32_be_bytes, lemma_u32_be_bytes_of_be32, u32_be_bytes,
    u32_push_be, u32_read_be};
use crate::chunk_type::{spec_is_alphabetic, ChunkType};
use crate::crc32::{crc32_checksum, crc32_of};
use crate::error::Error;

verus! {

/// True when the four bytes `t` form a well-formed type code.
pub open spec fn spec_type_ok(t: Seq<u8>) -> bool {
    t.len() == 4 && spec_is_alphabetic(t[0]) && spec_is_alphabetic(t[1])
        && spec_is_alphabetic(t[2]) && spec_is_alphabetic(t[3])
}

/// The total encoded size that the record at the front of `s` declares:
/// 4 length bytes, 4 type bytes, the declared payload, 4 CRC bytes.
pub open spec fn spec_total_len(s: Seq<u8>) -> int
    recommends
        s.len() >= 4,
{
    12 + be32(s[0], s[1], s[2], s[3])
}

/// The CRC stored in the last four bytes of the record at the front of `s`.
pub open spec fn spec_stored_crc(s: Seq<u8>) -> u32
    recommends
        s.len() >= spec_total_len(s) >= 12,
{
    let t = spec_total_len(s);
    be32(s[t - 4], s[t - 3], s[t - 2], s[t - 1])
}

/// True when `s` begins with one complete, well-formed chunk record:
/// the type bytes are letters, the declared size fits in `s`, and the
/// stored CRC equals the CRC-32 of the type and payload bytes.
pub open spec fn chunk_prefix_ok(s: Seq<u8>) -> bool {
    &&& s.len() >= 8
    &&& spec_type_ok(s.subrange(4, 8))
    &&& s.len() >= spec_total_len(s)
    &&& spec_stored_crc(s) == crc32_of(s.subrange(4, spec_total_len(s) - 4))
}

/// The failure that decoding the front of `s` reports, following the read
/// order of the fields: length, type, payload, CRC, CRC check.
pub open spec fn spec_decode_err(s: Seq<u8>) -> Error {
    if s.len() < 8 {
        Error::Truncated
    } else if !spec_type_ok(s.subrange(4, 8)) {
        Error::InvalidChunkType
    } else if s.len() < spec_total_len(s) {
        Error::Truncated
    } else {
        Error::CrcMismatch
    }
}

/// One chunk record: a type code, a payload, and the payload length and
/// CRC-32 exactly as they stand in the encoded form.
#[derive(Debug)]
pub struct Chunk {
    /// Number of payload bytes, as declared by the length field.
    pub length: u32,
    /// The 4-byte type code.
    pub chunk_type: ChunkType,
    /// The payload bytes; the type gives them their meaning, this core never
    /// interprets them except on explicit request as UTF-8 text.
    pub chunk_data: Vec<u8>,
    /// CRC-32 over the type code bytes followed by the payload bytes.
    pub crc: u32,
}

impl Chunk {
    /// A well-formed record: alphabetic type code, length field equal to the
    /// payload size, and a CRC that matches type and payload.
    pub open spec fn wf(&self) -> bool {
        &&& self.chunk_type.wf()
        &&& self.length as int == self.chunk_data@.len()
        &&& self.crc == crc32_of(self.chunk_type.spec_bytes() + self.chunk_data@)
    }

    /// The encoded form: `length | type | payload | crc`.
    pub open spec fn spec_as_bytes(&self) -> Seq<u8> {
        u32_be_bytes(self.length) + self.chunk_type.spec_bytes() + self.chunk_data@
            + u32_be_bytes(self.crc)
    }

    /// Builds a fresh record from a type code and a payload; the length is
    /// taken from the payload and the CRC is computed over type and payload.
    pub fn new(chunk_type: ChunkType, chunk_data: Vec<u8>) -> (r: Chunk)
        requires
            chunk_data@.len() <= u32::MAX,
        ensures
            r.chunk_type == chunk_type,
            r.chunk_data@ == chunk_data@,
            r.length as int == chunk_data@.len(),
            r.crc == crc32_of(chunk_type.spec_bytes() + chunk_data@),
            chunk_type.wf() ==> r.wf(),
    {
        let mut crc_input: Vec<u8> = Vec::new();
        crc_input.push(chunk_type.ancillary);
        crc_input.push(chunk_type.private);
        crc_input.push(chunk_type.reserved);
        crc_input.push(chunk_type.safe_to_copy);
        let mut payload = slice_to_vec(chunk_data.as_slice());
        crc_input.append(&mut payload);
        proof {
            assert(crc_input@ =~= chunk_type.spec_bytes() + chunk_data@);
        }
        let crc = crc32_checksum(crc_input.as_slice());
        let length = chunk_data.len() as u32;
        Chunk { length, chunk_type, chunk_data, crc }
    }

    /// Returns the number of bytes in the chunk's payload.
    pub fn length(&self) -> (r: u32)
        ensures
            r == self.length,
    {
        self.length
    }

    /// Returns the chunk's type code.
    pub fn chunk_type(&self) -> (r: &ChunkType)
        ensures
            r == self.chunk_type,
    {
        &self.chunk_type
    }

    /// Returns the chunk's payload as a slice of bytes.
    pub fn data(&self) -> (r: &[u8])
        ensures
            r@ == self.chunk_data@,
    {
        self.chunk_data.as_slice()
    }

    /// Returns the chunk's stored CRC.
    pub fn crc(&self) -> (r: u32)
        ensures
            r == self.crc,
    {
        self.crc
    }

    /// Interprets the payload as UTF-8 text; the one place payload content
    /// is read, and only on request.
    pub fn data_as_string(&self) -> (r: Result<String, Error>)
        ensures
            match r {
                Ok(s) => valid_utf8(self.chunk_data@) && s@ == decode_utf8(self.chunk_data@),
                Err(e) => e == Error::EncodingError && !valid_utf8(self.chunk_data@),
            },
    {
        match crate::text::string_from_utf8(slice_to_vec(self.chunk_data.as_slice())) {
            Some(s) => Ok(s),
            None => Err(Error::EncodingError),
        }
    }

    /// Serializes the record into the fixed wire layout.
    pub fn as_bytes(&self) -> (r: Vec<u8>)
        ensures
            r@ == self.spec_as_bytes(),
    {
        let mut bytes: Vec<u8> = Vec::new();
        u32_push_be(&mut bytes, self.length);
        bytes.push(self.chunk_type.ancillary);
        bytes.push(self.chunk_type.private);
        bytes.push(self.chunk_type.reserved);
        bytes.push(self.chunk_type.safe_to_copy);
        let mut payload = slice_to_vec(self.chunk_data.as_slice());
        bytes.append(&mut payload);
        u32_push_be(&mut bytes, self.crc);
        proof {
            assert(bytes@ =~= self.spec_as_bytes());
        }
        bytes
    }

    /// Decodes one record from `buf` starting at `off`, returning the record
    /// and the offset just past it. Any failure discards all partial state.
    pub fn decode_at(buf: &[u8], off: usize) -> (r: Result<(Chunk, usize), Error>)
        requires
            off <= buf@.len(),
        ensures
            ({
                let s = buf@.skip(off as int);
                match r {
                    Ok((c, next)) => {
                        &&& chunk_prefix_ok(s)
                        &&& c.wf()
                        &&& next == off + spec_total_len(s)
                        &&& next <= buf@.len()
                        &&& c.length == be32(s[0], s[1], s[2], s[3])
                        &&& c.chunk_type.spec_bytes() == s.subrange(4, 8)
                        &&& c.chunk_data@ == s.subrange(8, spec_total_len(s) - 4)
                        &&& c.crc == spec_stored_crc(s)
                        &&& c.spec_as_bytes() == s.subrange(0, spec_total_len(s))
                    },
                    Err(e) => !chunk_prefix_ok(s) && e == spec_decode_err(s),
                }
            }),
    {
        let ghost s = buf@.skip(off as int);
        let n = buf.len();
        if n - off < 8 {
            return Err(Error::Truncated);
        }
        let length = u32_read_be(buf[off], buf[off + 1], buf[off + 2], buf[off + 3]);
        proof {
            assert(s[0] == buf@[off as int] && s[1] == buf@[off + 1] && s[2] == buf@[off + 2]
                && s[3] == buf@[off + 3]);
        }
        let type_bytes = [buf[off + 4], buf[off + 5], buf[off + 6], buf[off + 7]];
        proof {
            assert(type_bytes@ =~= s.subrange(4, 8));
        }
        let chunk_type = match ChunkType::try_from(type_bytes) {
            Ok(t) => t,
            Err(_) => {
                return Err(Error::InvalidChunkType);
            },
        };
        let data_len = length as usize;
        if n - off - 8 < 4 || n - off - 12 < data_len {
            proof {
                assert(s.len() < spec_total_len(s));
            }
            return Err(Error::Truncated);
        }
        let data_start = off + 8;
        let data_end = data_start + data_len;
        let chunk_data = slice_to_vec(slice_subrange(buf, data_start, data_end));
        let crc_stored = u32_read_be(
            buf[data_end],
            buf[data_end + 1],
            buf[data_end + 2],
            buf[data_end + 3],
        );
        let crc_input = slice_subrange(buf, off + 4, data_end);
        let computed = crc32_checksum(crc_input);
        proof {
            assert(spec_total_len(s) == 12 + length);
            assert(crc_input@ =~= s.subrange(4, spec_total_len(s) - 4));
            assert(s[spec_total_len(s) - 4] == buf@[data_end as int]
                && s[spec_total_len(s) - 3] == buf@[data_end + 1]
                && s[spec_total_len(s) - 2] == buf@[data_end + 2]
                && s[spec_total_len(s) - 1] == buf@[data_end + 3]);
        }
        if computed != crc_stored {
            return Err(Error::CrcMismatch);
        }
        let c = Chunk { length, chunk_type, chunk_data, crc: crc_stored };
        proof {
            let t = spec_total_len(s);
            assert(c.chunk_data@ =~= s.subrange(8, t - 4));
            assert(c.chunk_type.spec_bytes() + c.chunk_data@ =~= s.subrange(4, t - 4));
            lemma_u32_be_bytes_of_be32(s[0], s[1], s[2], s[3]);
            lemma_u32_be_bytes_of_be32(s[t - 4], s[t - 3], s[t - 2], s[t - 1]);
            assert(u32_be_bytes(c.length) =~= s.subrange(0, 4));
            assert(u32_be_bytes(c.crc) =~= s.subrange(t - 4, t));
            assert(c.spec_as_bytes() =~= s.subrange(0, t));
        }
        Ok((c, data_end + 4))
    }

    /// Decodes one record from the front of `value`; bytes past the declared
    /// record are not read.
    pub fn try_from(value: &[u8]) -> (r: Result<Chunk, Error>)
        ensures
            match r {
                Ok(c) => {
                    &&& chunk_prefix_ok(value@)
                    &&& c.wf()
                    &&& c.length == be32(value@[0], value@[1], value@[2], value@[3])
                    &&& c.chunk_type.spec_bytes() == value@.subrange(4, 8)
                    &&& c.chunk_data@ == value@.subrange(8, spec_total_len(value@) - 4)
                    &&& c.crc == spec_stored_crc(value@)
                    &&& c.spec_as_bytes() == value@.subrange(0, spec_total_len(value@))
                },
                Err(e) => !chunk_prefix_ok(value@) && e == spec_decode_err(value@),
            },
    {
        proof {
            assert(value@.skip(0) =~= value@);
        }
        match Self::decode_at(value, 0) {
            Ok((c, _)) => Ok(c),
            Err(e) => Err(e),
        }
    }

    /// Renders the record as a line of text; fails, as reading the payload
    /// as text does, when the payload is not valid UTF-8.
    pub fn to_string(&self) -> (r: Result<String, Error>)
        ensures
            match r {
                Ok(_) => valid_utf8(self.chunk_data@),
                Err(e) => e == Error::EncodingError && !valid_utf8(self.chunk_data@),
            },
    {
        let data = match self.data_as_string() {
            Ok(d) => d,
            Err(e) => {
                return Err(e);
            },
        };
        let type_code = match self.chunk_type.to_string() {
            Ok(t) => t,
            Err(_) => String::new(),
        };
        Ok(crate::text::render_chunk_line(&type_code, self.length, &data, self.crc))
    }
}

/// Any well-formed record, encoded and placed at the front of a byte stream,
/// decodes back to itself: the stream declares exactly the record's size and
/// every field reads back equal.
pub proof fn lemma_chunk_encoding_decodes(c: Chunk, rest: Seq<u8>)
    requires
        c.wf(),
    ensures
        ({
            let s = c.spec_as_bytes() + rest;
            &&& chunk_prefix_ok(s)
            &&& spec_total_len(s) == c.spec_as_bytes().len()
            &&& be32(s[0], s[1], s[2], s[3]) == c.length
            &&& s.subrange(4, 8) == c.chunk_type.spec_bytes()
            &&& s.subrange(8, spec_total_len(s) - 4) == c.chunk_data@
            &&& spec_stored_crc(s) == c.crc
            &&& s.subrange(0, spec_total_len(s)) == c.spec_as_bytes()
            &&& s.skip(spec_total_len(s)) == rest
        }),
{
    let b = c.spec_as_bytes();
    let s = b + rest;
    let len = c.chunk_data@.len() as int;
    assert(b.len() == 12 + len);
    assert(s[0] == (c.length >> 24) as u8 && s[1] == (c.length >> 16) as u8 && s[2] == (c.length
        >> 8) as u8 && s[3] == c.length as u8);
    lemma_be32_of_u32_be_bytes(c.length);
    assert(be32(s[0], s[1], s[2], s[3]) == c.length);
    let t = spec_total_len(s);
    assert(t == 12 + len);
    assert(s.subrange(4, 8) =~= c.chunk_type.spec_bytes());
    assert(s.subrange(8, t - 4) =~= c.chunk_data@);
    assert(s[t - 4] == (c.crc >> 24) as u8 && s[t - 3] == (c.crc >> 16) as u8 && s[t - 2] == (
    c.crc >> 8) as u8 && s[t - 1] == c.crc as u8);
    lemma_be32_of_u32_be_bytes(c.crc);
    assert(spec_stored_crc(s) == c.crc);
    assert(s.subrange(4, t - 4) =~= c.chunk_type.spec_bytes() + c.chunk_data@);
    assert(s.subrange(0, t) =~= b);
    assert(s.skip(t) =~= rest);
}

/// The round trip on a single record: encoding a well-formed record and
/// decoding the result succeeds and recovers the record itself.
pub proof fn lemma_chunk_round_trip(c: Chunk)
    requires
        c.wf(),
    ensures
        ({
            let b = c.spec_as_bytes();
            &&& chunk_prefix_ok(b)
            &&& spec_total_len(b) == b.len()
            &&& be32(b[0], b[1], b[2], b[3]) == c.length
            &&& b.subrange(4, 8) == c.chunk_type.spec_bytes()
            &&& b.subrange(8, spec_total_len(b) - 4) == c.chunk_data@
            &&& spec_stored_crc(b) == c.crc
        }),
{
    lemma_chunk_encoding_decodes(c, Seq::<u8>::empty());
    assert(c.spec_as_bytes() + Seq::<u8>::empty() =~= c.spec_as_bytes());
}

} // verus!
