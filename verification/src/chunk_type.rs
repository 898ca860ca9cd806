//! A validated four-byte PNG chunk-type code. Each byte must be an ASCII
//! letter; the case of each byte (bit 5) encodes one boolean property of
//! the chunk.

use vstd::prelude::*;
use vstd::string::StringSliceAdditionalSpecFns;
use vstd::utf8::{
    decode_utf8, encode_utf8, encode_utf8_decode_utf8, encode_utf8_valid_utf8, is_ascii_chars,
    is_ascii_chars_encode_utf8,
};
use crate::PngError;
use crate::utils::try_decode_utf8;

verus! {

/// True of the bytes a chunk-type code may hold: ASCII uppercase or
/// lowercase letters.
pub open spec fn is_ascii_letter(b: u8) -> bool {
    (65 <= b <= 90) || (97 <= b <= 122)
}

/// A four-byte chunk-type code whose bytes are all ASCII letters.
/// Immutable once built; equality is byte-wise.
#[derive(Debug, Clone, Copy, PartialEq, Eq)]
pub struct ChunkType {
    code: [u8; 4],
}

impl ChunkType {
    /// The four code bytes.
    pub closed spec fn spec_bytes(self) -> Seq<u8> {
        self.code@
    }

    /// The code's invariant: four bytes, each an ASCII letter. Every
    /// constructor establishes it.
    pub open spec fn wf(self) -> bool {
        &&& self.spec_bytes().len() == 4
        &&& forall|i: int| 0 <= i < 4 ==> is_ascii_letter(#[trigger] self.spec_bytes()[i])
    }

    /// The code read as text, one character per byte.
    pub open spec fn spec_chars(self) -> Seq<char> {
        Seq::new(self.spec_bytes().len(), |i: int| self.spec_bytes()[i] as char)
    }

    /// Accepts exactly the four-byte sequences whose bytes are all ASCII
    /// letters; anything else is `InvalidEncoding`.
    pub fn parse(value: [u8; 4]) -> (r: Result<ChunkType, PngError>)
        ensures
            r is Ok <==> (forall|i: int| 0 <= i < 4 ==> is_ascii_letter(#[trigger] value@[i])),
            r matches Ok(t) ==> t.spec_bytes() == value@ && t.wf(),
            r is Err ==> r == Err::<ChunkType, PngError>(PngError::InvalidEncoding),
    {
        let mut i: usize = 0;
        while i < 4
            invariant
                i <= 4,
                forall|j: int| 0 <= j < i ==> is_ascii_letter(#[trigger] value@[j]),
            decreases 4 - i,
        {
            let b = value[i];
            if !((b >= 65 && b <= 90) || (b >= 97 && b <= 122)) {
                return Err(PngError::InvalidEncoding);
            }
            i = i + 1;
        }
        Ok(ChunkType { code: value })
    }

    /// Accepts exactly the strings whose encoding is four bytes, all ASCII
    /// letters. A string of another byte length is `InvalidLength`; four
    /// bytes with a non-letter among them is `InvalidEncoding`.
    pub fn parse_str(s: &str) -> (r: Result<ChunkType, PngError>)
        ensures
            r is Ok <==> (s.spec_bytes().len() == 4 && forall|i: int|
                0 <= i < 4 ==> is_ascii_letter(#[trigger] s.spec_bytes()[i])),
            r matches Ok(t) ==> t.spec_bytes() == s.spec_bytes() && t.wf(),
            s.spec_bytes().len() != 4 ==> r == Err::<ChunkType, PngError>(PngError::InvalidLength),
            r is Err ==> (r == Err::<ChunkType, PngError>(PngError::InvalidLength) || r == Err::<
                ChunkType,
                PngError,
            >(PngError::InvalidEncoding)),
    {
        let b = s.as_bytes();
        if b.len() != 4 {
            return Err(PngError::InvalidLength);
        }
        let arr: [u8; 4] = [b[0], b[1], b[2], b[3]];
        proof {
            assert(arr@ =~= s.spec_bytes());
        }
        ChunkType::parse(arr)
    }

    /// The four code bytes, as an array.
    pub fn bytes(&self) -> (r: [u8; 4])
        ensures
            r@ == self.spec_bytes(),
    {
        self.code
    }

    /// Bit 5 of the first byte is clear: the chunk is required for
    /// rendering. Set means ancillary.
    pub open spec fn spec_is_critical(self) -> bool {
        (self.spec_bytes()[0] >> 5) & 1 == 0
    }

    /// Bit 5 of the second byte is clear: the type is part of the public
    /// PNG specification. Set means private or application-specific.
    pub open spec fn spec_is_public(self) -> bool {
        (self.spec_bytes()[1] >> 5) & 1 == 0
    }

    /// Bit 5 of the third byte is clear: the reserved bit conforms to the
    /// current PNG specification.
    pub open spec fn spec_is_reserved_bit_valid(self) -> bool {
        (self.spec_bytes()[2] >> 5) & 1 == 0
    }

    /// Bit 5 of the fourth byte is set: editors may copy the chunk even
    /// without understanding it.
    pub open spec fn spec_is_safe_to_copy(self) -> bool {
        (self.spec_bytes()[3] >> 5) & 1 == 1
    }

    /// Validity of the code is exactly the reserved bit being valid; the
    /// other three flags carry meaning but do not affect validity.
    pub fn is_valid(&self) -> (r: bool)
        ensures
            r == self.spec_is_reserved_bit_valid(),
    {
        self.is_reserved_bit_valid()
    }

    pub fn is_critical(&self) -> (r: bool)
        ensures
            r == self.spec_is_critical(),
    {
        (self.code[0] >> 5) & 1 == 0
    }

    pub fn is_public(&self) -> (r: bool)
        ensures
            r == self.spec_is_public(),
    {
        (self.code[1] >> 5) & 1 == 0
    }

    pub fn is_reserved_bit_valid(&self) -> (r: bool)
        ensures
            r == self.spec_is_reserved_bit_valid(),
    {
        (self.code[2] >> 5) & 1 == 0
    }

    pub fn is_safe_to_copy(&self) -> (r: bool)
        ensures
            r == self.spec_is_safe_to_copy(),
    {
        (self.code[3] >> 5) & 1 == 1
    }

    /// The code as text: four characters, one per byte. Total on every
    /// well-formed code, since ASCII letters are valid UTF-8.
    pub fn to_string(&self) -> (r: String)
        requires
            self.wf(),
        ensures
            r@ == self.spec_chars(),
    {
        let mut v: Vec<u8> = Vec::new();
        v.push(self.code[0]);
        v.push(self.code[1]);
        v.push(self.code[2]);
        v.push(self.code[3]);
        proof {
            let cs = self.spec_chars();
            assert(v@ =~= self.spec_bytes());
            assert(is_ascii_chars(cs));
            is_ascii_chars_encode_utf8(cs);
            assert(encode_utf8(cs) =~= v@);
            encode_utf8_valid_utf8(cs);
            encode_utf8_decode_utf8(cs);
        }
        let s = try_decode_utf8(v.as_slice()).unwrap();
        proof {
            encode_utf8_decode_utf8(s@);
            assert(decode_utf8(v@) == s@);
            assert(s@ =~= self.spec_chars());
        }
        s.to_owned()
    }
}

} // verus!
