//! One PNG chunk: a length-prefixed, CRC-checked record holding a type
//! code and an opaque payload. The wire layout is
//! `length:u32 BE | type:4 bytes | payload | crc:u32 BE`.

use vstd::prelude::*;
use vstd::slice::slice_subrange;
use vstd::utf8::{decode_utf8, encode_utf8_decode_utf8, valid_utf8};
use crate::PngError;
use crate::chunk_type::{ChunkType, is_ascii_letter};
use crate::utils::{
    lemma_u32_to_from_be_bytes, push_u32_be, spec_u32_from_be_bytes, spec_u32_to_be_bytes,
    try_decode_utf8, u8_slice_to_u32,
};

verus! {

/// What `crc::Crc::<u32>::new(&CRC_32_ISO_HDLC).checksum` returns on the
/// given bytes: the CRC-32 variant PNG prescribes. It depends on the
/// bytes alone.
pub uninterp spec fn crc32_of(bytes: Seq<u8>) -> u32;

/// Relies on crc::Crc::<u32>::checksum over crc_catalog's CRC_32_ISO_HDLC
/// algorithm: a table-driven pure function of the input bytes, with no
/// failure path.
#[verifier::external_body]
fn crc32_checksum(bytes: &[u8]) -> (r: u32)
    ensures
        r == crc32_of(bytes@),
{
    crc::Crc::<u32>::new(&crc::CRC_32_ISO_HDLC).checksum(bytes)
}

/// One chunk. Immutable once built; the length and CRC fields are kept
/// consistent with the type and payload by every constructor.
#[derive(Debug)]
pub struct Chunk {
    length: u32,
    chunk_type: ChunkType,
    chunk_data: Vec<u8>,
    crc: u32,
}

/// The serialized image of a chunk with type bytes `t` and payload `p`:
/// payload length and CRC are both derived, so they determine the image.
pub open spec fn spec_chunk_wire(t: Seq<u8>, p: Seq<u8>) -> Seq<u8> {
    spec_u32_to_be_bytes(p.len() as u32) + t + p + spec_u32_to_be_bytes(crc32_of(t + p))
}

/// What decoding a chunk from the front of `b` yields: the type and
/// payload bytes on success, otherwise the first error in the order the
/// fields are read. Bytes past the chunk's `12 + length` are ignored.
pub open spec fn spec_chunk_parse(b: Seq<u8>) -> Result<(Seq<u8>, Seq<u8>), PngError> {
    if b.len() < 8 {
        Err(PngError::Truncated)
    } else {
        let len = spec_u32_from_be_bytes(b.subrange(0, 4)) as int;
        let t = b.subrange(4, 8);
        if exists|i: int| 0 <= i < 4 && !is_ascii_letter(#[trigger] t[i]) {
            Err(PngError::InvalidEncoding)
        } else if b.len() - 8 < len {
            Err(PngError::InsufficientBytes { missing: (len - (b.len() - 8)) as u32 })
        } else if b.len() - 8 - len < 4 {
            Err(PngError::Truncated)
        } else {
            let p = b.subrange(8, 8 + len);
            let stored = spec_u32_from_be_bytes(b.subrange(8 + len, 12 + len));
            let computed = crc32_of(t + p);
            if stored != computed {
                Err(PngError::CrcMismatch { computed, stored })
            } else {
                Ok((t, p))
            }
        }
    }
}

impl Chunk {
    /// The validated type code.
    pub closed spec fn spec_chunk_type(self) -> ChunkType {
        self.chunk_type
    }

    /// The payload bytes.
    pub closed spec fn spec_data(self) -> Seq<u8> {
        self.chunk_data@
    }

    /// The stored payload length.
    pub closed spec fn spec_length(self) -> u32 {
        self.length
    }

    /// The stored checksum.
    pub closed spec fn spec_crc(self) -> u32 {
        self.crc
    }

    /// The chunk's invariant: a well-formed type code, a length field
    /// that equals the payload's size, and a CRC computed over the type
    /// bytes followed by the payload.
    pub open spec fn wf(self) -> bool {
        &&& self.spec_chunk_type().wf()
        &&& self.spec_length() == self.spec_data().len()
        &&& self.spec_crc() == crc32_of(self.spec_chunk_type().spec_bytes() + self.spec_data())
    }

    /// This chunk's serialized form.
    pub open spec fn spec_serialized(self) -> Seq<u8> {
        spec_u32_to_be_bytes(self.spec_length()) + self.spec_chunk_type().spec_bytes()
            + self.spec_data() + spec_u32_to_be_bytes(self.spec_crc())
    }

    /// Builds a chunk from a type and payload, deriving the length and
    /// computing the CRC over the type bytes followed by the payload.
    pub fn new(chunk_type: ChunkType, data: Vec<u8>) -> (r: Chunk)
        requires
            data@.len() <= u32::MAX,
        ensures
            r.spec_chunk_type() == chunk_type,
            r.spec_data() == data@,
            r.spec_length() == data@.len(),
            r.spec_crc() == crc32_of(chunk_type.spec_bytes() + data@),
            chunk_type.wf() ==> r.wf(),
    {
        let length = data.len() as u32;
        let crc = Chunk::checked_bytes_crc(&chunk_type, &data);
        Chunk { length, chunk_type, chunk_data: data, crc }
    }

    /// The CRC over a type's bytes followed by a payload.
    fn checked_bytes_crc(chunk_type: &ChunkType, data: &Vec<u8>) -> (r: u32)
        ensures
            r == crc32_of(chunk_type.spec_bytes() + data@),
    {
        let tb = chunk_type.bytes();
        let mut bytes: Vec<u8> = Vec::new();
        bytes.push(tb[0]);
        bytes.push(tb[1]);
        bytes.push(tb[2]);
        bytes.push(tb[3]);
        let mut i: usize = 0;
        while i < data.len()
            invariant
                i <= data@.len(),
                bytes@ == chunk_type.spec_bytes() + data@.subrange(0, i as int),
            decreases data@.len() - i,
        {
            bytes.push(data[i]);
            proof {
                assert(bytes@ =~= chunk_type.spec_bytes() + data@.subrange(0, i + 1));
            }
            i = i + 1;
        }
        proof {
            assert(bytes@ =~= chunk_type.spec_bytes() + data@);
        }
        crc32_checksum(bytes.as_slice())
    }

    /// The CRC-32 PNG prescribes, over arbitrary bytes.
    pub fn compute_crc(bytes: &[u8]) -> (r: u32)
        ensures
            r == crc32_of(bytes@),
    {
        crc32_checksum(bytes)
    }

    pub fn crc(&self) -> (r: u32)
        ensures
            r == self.spec_crc(),
    {
        self.crc
    }

    pub fn length(&self) -> (r: u32)
        ensures
            r == self.spec_length(),
    {
        self.length
    }

    pub fn chunk_type(&self) -> (r: &ChunkType)
        ensures
            *r == self.spec_chunk_type(),
    {
        &self.chunk_type
    }

    pub fn data(&self) -> (r: &[u8])
        ensures
            r@ == self.spec_data(),
    {
        self.chunk_data.as_slice()
    }

    /// The payload narrowed to text: succeeds exactly when it is valid
    /// UTF-8, and then returns its decoding.
    pub fn data_as_string(&self) -> (r: Result<String, PngError>)
        ensures
            r is Ok <==> valid_utf8(self.spec_data()),
            r matches Ok(s) ==> s@ == decode_utf8(self.spec_data()),
            r is Err ==> r == Err::<String, PngError>(PngError::InvalidEncoding),
    {
        match try_decode_utf8(self.chunk_data.as_slice()) {
            Some(s) => {
                proof {
                    encode_utf8_decode_utf8(s@);
                }
                Ok(s.to_owned())
            },
            None => Err(PngError::InvalidEncoding),
        }
    }

    /// Serializes the chunk: big-endian length, the four type bytes, the
    /// payload, and the big-endian CRC. On a well-formed chunk this is
    /// exactly the wire image of its type and payload.
    pub fn as_bytes(&self) -> (r: Vec<u8>)
        ensures
            r@ == self.spec_serialized(),
            self.wf() ==> r@ == spec_chunk_wire(
                self.spec_chunk_type().spec_bytes(),
                self.spec_data(),
            ),
    {
        let mut v: Vec<u8> = Vec::new();
        push_u32_be(&mut v, self.length);
        let tb = self.chunk_type.bytes();
        v.push(tb[0]);
        v.push(tb[1]);
        v.push(tb[2]);
        v.push(tb[3]);
        let mut i: usize = 0;
        while i < self.chunk_data.len()
            invariant
                i <= self.spec_data().len(),
                v@ == spec_u32_to_be_bytes(self.spec_length())
                    + self.spec_chunk_type().spec_bytes() + self.spec_data().subrange(0, i as int),
            decreases self.spec_data().len() - i,
        {
            v.push(self.chunk_data[i]);
            proof {
                assert(v@ =~= spec_u32_to_be_bytes(self.spec_length())
                    + self.spec_chunk_type().spec_bytes() + self.spec_data().subrange(
                    0,
                    i + 1,
                ));
            }
            i = i + 1;
        }
        push_u32_be(&mut v, self.crc);
        proof {
            assert(self.spec_data().subrange(0, self.spec_data().len() as int) =~= self
                .spec_data());
            assert(v@ =~= self.spec_serialized());
            if self.wf() {
                assert(v@ =~= spec_chunk_wire(
                    self.spec_chunk_type().spec_bytes(),
                    self.spec_data(),
                ));
            }
        }
        v
    }

    /// Decodes one chunk from the front of `bytes`, validating the type
    /// code and the CRC; trailing bytes are ignored. Succeeds or fails
    /// exactly as [`spec_chunk_parse`] says, and never panics.
    pub fn parse(bytes: &[u8]) -> (r: Result<Chunk, PngError>)
        ensures
            (r is Ok) == (spec_chunk_parse(bytes@) is Ok),
            r matches Ok(c) ==> c.wf() && spec_chunk_parse(bytes@) == Ok::<
                (Seq<u8>, Seq<u8>),
                PngError,
            >((c.spec_chunk_type().spec_bytes(), c.spec_data())),
            r matches Err(e) ==> spec_chunk_parse(bytes@) == Err::<(Seq<u8>, Seq<u8>), PngError>(
                e,
            ),
    {
        let n = bytes.len();
        if n < 8 {
            return Err(PngError::Truncated);
        }
        let length = u8_slice_to_u32(bytes);
        let type_arr: [u8; 4] = [bytes[4], bytes[5], bytes[6], bytes[7]];
        proof {
            assert(type_arr@ =~= bytes@.subrange(4, 8));
        }
        let chunk_type = match ChunkType::parse(type_arr) {
            Ok(t) => t,
            Err(e) => {
                return Err(e);
            },
        };
        let len = length as usize;
        if n - 8 < len {
            let missing = length - ((n - 8) as u32);
            return Err(PngError::InsufficientBytes { missing });
        }
        if n - 8 - len < 4 {
            return Err(PngError::Truncated);
        }
        let mut data: Vec<u8> = Vec::new();
        let mut i: usize = 0;
        while i < len
            invariant
                i <= len,
                n == bytes@.len(),
                8 + len <= n,
                data@ == bytes@.subrange(8, 8 + i as int),
            decreases len - i,
        {
            data.push(bytes[8 + i]);
            proof {
                assert(data@ =~= bytes@.subrange(8, 8 + (i + 1)));
            }
            i = i + 1;
        }
        let computed = Chunk::checked_bytes_crc(&chunk_type, &data);
        let crc_slice = slice_subrange(bytes, 8 + len, 12 + len);
        let stored = u8_slice_to_u32(crc_slice);
        proof {
            assert(crc_slice@.subrange(0, 4) =~= bytes@.subrange(8 + len as int, 12 + len as int));
        }
        if stored != computed {
            return Err(PngError::CrcMismatch { computed, stored });
        }
        let c = Chunk { length, chunk_type, chunk_data: data, crc: computed };
        Ok(c)
    }
}

/// Round trip: the wire image of any well-formed type and any payload,
/// placed before arbitrary trailing bytes, decodes to exactly that type
/// and payload.
pub proof fn lemma_chunk_parse_prefix(t: Seq<u8>, p: Seq<u8>, rest: Seq<u8>)
    requires
        t.len() == 4,
        forall|i: int| 0 <= i < 4 ==> is_ascii_letter(#[trigger] t[i]),
        p.len() <= u32::MAX,
    ensures
        spec_chunk_parse(spec_chunk_wire(t, p) + rest) == Ok::<(Seq<u8>, Seq<u8>), PngError>(
            (t, p),
        ),
{
    let w = spec_chunk_wire(t, p) + rest;
    lemma_u32_to_from_be_bytes(p.len() as u32);
    lemma_u32_to_from_be_bytes(crc32_of(t + p));
    assert(w.subrange(0, 4) =~= spec_u32_to_be_bytes(p.len() as u32));
    assert(w.subrange(4, 8) =~= t);
    assert(w.subrange(8, 8 + p.len() as int) =~= p);
    assert(w.subrange(8 + p.len() as int, 12 + p.len() as int) =~= spec_u32_to_be_bytes(crc32_of(t + p)));
}

/// Round trip on a chunk alone: serializing a well-formed type with any
/// payload and decoding the result reproduces the type, the payload, and
/// with them the derived length and CRC.
pub proof fn lemma_chunk_round_trip(t: Seq<u8>, p: Seq<u8>)
    requires
        t.len() == 4,
        forall|i: int| 0 <= i < 4 ==> is_ascii_letter(#[trigger] t[i]),
        p.len() <= u32::MAX,
    ensures
        spec_chunk_parse(spec_chunk_wire(t, p)) == Ok::<(Seq<u8>, Seq<u8>), PngError>((t, p)),
{
    lemma_chunk_parse_prefix(t, p, Seq::empty());
    assert(spec_chunk_wire(t, p) + Seq::<u8>::empty() =~= spec_chunk_wire(t, p));
}

/// CRC sensitivity, stored side: a serialized chunk whose CRC field holds
/// anything but the checksum of its type and payload is rejected with
/// `CrcMismatch`. In particular flipping any bit of the CRC field does so.
pub proof fn lemma_crc_mismatch_rejected(t: Seq<u8>, p: Seq<u8>, stored: u32)
    requires
        t.len() == 4,
        forall|i: int| 0 <= i < 4 ==> is_ascii_letter(#[trigger] t[i]),
        p.len() <= u32::MAX,
        stored != crc32_of(t + p),
    ensures
        spec_chunk_parse(
            spec_u32_to_be_bytes(p.len() as u32) + t + p + spec_u32_to_be_bytes(stored),
        ) == Err::<(Seq<u8>, Seq<u8>), PngError>(
            PngError::CrcMismatch { computed: crc32_of(t + p), stored },
        ),
{
    let w = spec_u32_to_be_bytes(p.len() as u32) + t + p + spec_u32_to_be_bytes(stored);
    lemma_u32_to_from_be_bytes(p.len() as u32);
    lemma_u32_to_from_be_bytes(stored);
    assert(w.subrange(0, 4) =~= spec_u32_to_be_bytes(p.len() as u32));
    assert(w.subrange(4, 8) =~= t);
    assert(w.subrange(8, 8 + p.len() as int) =~= p);
    assert(w.subrange(8 + p.len() as int, 12 + p.len() as int) =~= spec_u32_to_be_bytes(stored));
}

/// CRC sensitivity, payload side: corrupting the payload of a serialized
/// chunk while its stored CRC stays that of the intact payload is
/// rejected with `CrcMismatch`, whenever the corruption changes the
/// checksum.
pub proof fn lemma_corrupted_payload_rejected(t: Seq<u8>, p: Seq<u8>, bad: Seq<u8>)
    requires
        t.len() == 4,
        forall|i: int| 0 <= i < 4 ==> is_ascii_letter(#[trigger] t[i]),
        p.len() <= u32::MAX,
        bad.len() == p.len(),
        crc32_of(t + bad) != crc32_of(t + p),
    ensures
        spec_chunk_parse(
            spec_u32_to_be_bytes(p.len() as u32) + t + bad + spec_u32_to_be_bytes(crc32_of(t + p)),
        ) == Err::<(Seq<u8>, Seq<u8>), PngError>(
            PngError::CrcMismatch { computed: crc32_of(t + bad), stored: crc32_of(t + p) },
        ),
{
    lemma_crc_mismatch_rejected(t, bad, crc32_of(t + p));
}

} // verus!
