//! The PNG container: a fixed eight-byte signature followed by an
//! ordered sequence of chunks, decoded one after another until the
//! buffer is exhausted.

use vstd::prelude::*;
use vstd::slice::slice_subrange;
use vstd::string::StringSliceAdditionalSpecFns;
use crate::PngError;
use crate::chunk::{Chunk, lemma_chunk_parse_prefix, spec_chunk_parse, spec_chunk_wire};

verus! {

/// The fixed eight-byte PNG magic.
pub open spec fn spec_signature() -> Seq<u8> {
    seq![0x89u8, 0x50u8, 0x4eu8, 0x47u8, 0x0du8, 0x0au8, 0x1au8, 0x0au8]
}

/// The eight magic bytes, as an array.
fn signature() -> (r: [u8; 8])
    ensures
        r@ == spec_signature(),
{
    let r: [u8; 8] = [0x89, 0x50, 0x4e, 0x47, 0x0d, 0x0a, 0x1a, 0x0a];
    proof {
        assert(r@ =~= spec_signature());
    }
    r
}

/// Each chunk reduced to what determines its serialized form: its type
/// bytes and its payload.
pub open spec fn spec_models_of(cs: Seq<Chunk>) -> Seq<(Seq<u8>, Seq<u8>)> {
    cs.map_values(|c: Chunk| (c.spec_chunk_type().spec_bytes(), c.spec_data()))
}

/// The concatenation of the chunks' serialized forms, in order.
pub open spec fn spec_serialized_chunks(cs: Seq<Chunk>) -> Seq<u8>
    decreases cs.len(),
{
    if cs.len() == 0 {
        Seq::empty()
    } else {
        cs[0].spec_serialized() + spec_serialized_chunks(cs.drop_first())
    }
}

/// Decoding chunk after chunk until the bytes run out: the sequence of
/// their types and payloads, or the first chunk's error. Each chunk
/// advances by its serialized size, `12 + length`.
pub open spec fn spec_parse_chunks(b: Seq<u8>) -> Result<Seq<(Seq<u8>, Seq<u8>)>, PngError>
    decreases b.len(),
{
    if b.len() == 0 {
        Ok(Seq::empty())
    } else {
        match spec_chunk_parse(b) {
            Ok((t, p)) => {
                // a successfully parsed chunk always lies within the buffer
                if 12 + p.len() <= b.len() {
                    match spec_parse_chunks(b.skip(12 + p.len() as int)) {
                        Ok(rest) => Ok(seq![(t, p)] + rest),
                        Err(e) => Err(e),
                    }
                } else {
                    Err(PngError::Truncated)
                }
            },
            Err(e) => Err(e),
        }
    }
}

/// What decoding a whole container yields: `InvalidSignature` unless the
/// buffer starts with the magic, then the chunks of the remainder.
pub open spec fn spec_png_parse(b: Seq<u8>) -> Result<Seq<(Seq<u8>, Seq<u8>)>, PngError> {
    if b.len() < 8 || b.subrange(0, 8) != spec_signature() {
        Err(PngError::InvalidSignature)
    } else {
        spec_parse_chunks(b.skip(8))
    }
}

/// True when the chunk's type code is spelled by the bytes `t`.
pub open spec fn spec_type_matches(c: Chunk, t: Seq<u8>) -> bool {
    c.spec_chunk_type().spec_bytes() == t
}

/// True when index `i` holds the first chunk whose type is spelled by
/// `t`.
pub open spec fn spec_first_match_at(cs: Seq<Chunk>, t: Seq<u8>, i: int) -> bool {
    &&& 0 <= i < cs.len()
    &&& spec_type_matches(cs[i], t)
    &&& forall|j: int| 0 <= j < i ==> !spec_type_matches(#[trigger] cs[j], t)
}

/// The container. It exclusively owns its chunks; insertion order is
/// kept and meaningful.
#[derive(Debug)]
pub struct Png {
    chunks: Vec<Chunk>,
}

impl Png {
    /// The owned chunks, in order.
    pub closed spec fn spec_chunks(self) -> Seq<Chunk> {
        self.chunks@
    }

    /// Every owned chunk is well formed. Constructors establish it and
    /// every method preserves it.
    pub open spec fn wf(self) -> bool {
        forall|i: int|
            0 <= i < self.spec_chunks().len() ==> #[trigger] self.spec_chunks()[i].wf()
    }

    /// The chunks reduced to their types and payloads.
    pub open spec fn spec_models(self) -> Seq<(Seq<u8>, Seq<u8>)> {
        spec_models_of(self.spec_chunks())
    }

    /// An empty container: the signature and no chunks yet.
    pub fn new() -> (r: Png)
        ensures
            r.wf(),
            r.spec_chunks() == Seq::<Chunk>::empty(),
    {
        Png { chunks: Vec::new() }
    }

    /// Appends a chunk at the end of the sequence. No ordering rule is
    /// enforced; that is the caller's responsibility.
    pub fn append_chunk(&mut self, chunk: Chunk)
        ensures
            final(self).spec_chunks() == old(self).spec_chunks().push(chunk),
            old(self).wf() && chunk.wf() ==> final(self).wf(),
    {
        self.chunks.push(chunk);
        proof {
            if old(self).wf() && chunk.wf() {
                assert forall|i: int|
                    0 <= i < self.spec_chunks().len() implies #[trigger] self.spec_chunks()[i]
                    .wf() by {
                    if i < old(self).spec_chunks().len() {
                        assert(self.spec_chunks()[i] == old(self).spec_chunks()[i]);
                    }
                }
            }
        }
    }

    /// Decodes a container: the signature must match exactly, then
    /// chunks are decoded back to back until the buffer ends. Any chunk
    /// error aborts the whole operation; no partial container is
    /// returned. Succeeds or fails exactly as [`spec_png_parse`] says.
    pub fn parse(bytes: &[u8]) -> (r: Result<Png, PngError>)
        ensures
            (r is Ok) == (spec_png_parse(bytes@) is Ok),
            r matches Ok(png) ==> png.wf() && spec_png_parse(bytes@) == Ok::<
                Seq<(Seq<u8>, Seq<u8>)>,
                PngError,
            >(png.spec_models()),
            r matches Err(e) ==> spec_png_parse(bytes@) == Err::<Seq<(Seq<u8>, Seq<u8>)>, PngError>(
                e,
            ),
    {
        let n = bytes.len();
        if n < 8 {
            return Err(PngError::InvalidSignature);
        }
        let sig = signature();
        let mut k: usize = 0;
        while k < 8
            invariant
                k <= 8,
                n == bytes@.len(),
                n >= 8,
                sig@ == spec_signature(),
                forall|j: int| 0 <= j < k ==> bytes@[j] == spec_signature()[j],
            decreases 8 - k,
        {
            if bytes[k] != sig[k] {
                proof {
                    assert(bytes@.subrange(0, 8)[k as int] != spec_signature()[k as int]);
                }
                return Err(PngError::InvalidSignature);
            }
            k = k + 1;
        }
        proof {
            assert(bytes@.subrange(0, 8) =~= spec_signature());
        }
        let mut chunks: Vec<Chunk> = Vec::new();
        let mut offset: usize = 8;
        while offset < n
            invariant
                8 <= offset <= n,
                n == bytes@.len(),
                bytes@.subrange(0, 8) == spec_signature(),
                forall|i: int| 0 <= i < chunks@.len() ==> #[trigger] chunks@[i].wf(),
                match spec_parse_chunks(bytes@.skip(offset as int)) {
                    Ok(rest) => spec_parse_chunks(bytes@.skip(8)) == Ok::<
                        Seq<(Seq<u8>, Seq<u8>)>,
                        PngError,
                    >(spec_models_of(chunks@) + rest),
                    Err(e) => spec_parse_chunks(bytes@.skip(8)) == Err::<
                        Seq<(Seq<u8>, Seq<u8>)>,
                        PngError,
                    >(e),
                },
            decreases n - offset,
        {
            let remaining = slice_subrange(bytes, offset, n);
            let ghost rem = bytes@.skip(offset as int);
            proof {
                assert(remaining@ =~= rem);
            }
            match Chunk::parse(remaining) {
                Err(e) => {
                    return Err(e);
                },
                Ok(c) => {
                    let dlen = c.length() as usize;
                    let ghost prev_models = spec_models_of(chunks@);
                    let ghost t = c.spec_chunk_type().spec_bytes();
                    let ghost p = c.spec_data();
                    chunks.push(c);
                    offset = offset + 12 + dlen;
                    proof {
                        assert(spec_chunk_parse(rem) == Ok::<(Seq<u8>, Seq<u8>), PngError>(
                            (t, p),
                        ));
                        assert(rem.len() >= 12 + p.len());
                        assert(rem.skip(12 + p.len() as int) =~= bytes@.skip(offset as int));
                        assert(spec_models_of(chunks@) =~= prev_models + seq![(t, p)]);
                        match spec_parse_chunks(bytes@.skip(offset as int)) {
                            Ok(rest2) => {
                                assert(spec_parse_chunks(rem) == Ok::<
                                    Seq<(Seq<u8>, Seq<u8>)>,
                                    PngError,
                                >(seq![(t, p)] + rest2));
                                assert(prev_models + (seq![(t, p)] + rest2) =~= (prev_models
                                    + seq![(t, p)]) + rest2);
                            },
                            Err(e) => {
                                assert(spec_parse_chunks(rem) == Err::<
                                    Seq<(Seq<u8>, Seq<u8>)>,
                                    PngError,
                                >(e));
                            },
                        }
                    }
                },
            }
        }
        proof {
            assert(bytes@.skip(offset as int) =~= Seq::<u8>::empty());
            assert(spec_models_of(chunks@) + Seq::<(Seq<u8>, Seq<u8>)>::empty() =~= spec_models_of(
                chunks@,
            ));
        }
        Ok(Png { chunks })
    }

    /// Serializes the container: the signature followed by each chunk's
    /// serialized form, in order.
    pub fn as_bytes(&self) -> (r: Vec<u8>)
        ensures
            r@ == spec_signature() + spec_serialized_chunks(self.spec_chunks()),
    {
        let mut v: Vec<u8> = Vec::new();
        let sig = signature();
        let mut k: usize = 0;
        while k < 8
            invariant
                k <= 8,
                sig@ == spec_signature(),
                v@ == spec_signature().subrange(0, k as int),
            decreases 8 - k,
        {
            v.push(sig[k]);
            proof {
                assert(v@ =~= spec_signature().subrange(0, k + 1));
            }
            k = k + 1;
        }
        proof {
            assert(spec_signature().subrange(0, 8) =~= spec_signature());
        }
        let mut i: usize = 0;
        while i < self.chunks.len()
            invariant
                i <= self.spec_chunks().len(),
                v@ == spec_signature() + spec_serialized_chunks(self.spec_chunks().take(i as int)),
            decreases self.spec_chunks().len() - i,
        {
            let cb = self.chunks[i].as_bytes();
            let mut j: usize = 0;
            let ghost base = v@;
            while j < cb.len()
                invariant
                    j <= cb@.len(),
                    v@ == base + cb@.subrange(0, j as int),
                decreases cb@.len() - j,
            {
                v.push(cb[j]);
                proof {
                    assert(v@ =~= base + cb@.subrange(0, j + 1));
                }
                j = j + 1;
            }
            proof {
                assert(cb@.subrange(0, cb@.len() as int) =~= cb@);
                lemma_serialized_chunks_push(
                    self.spec_chunks().take(i as int),
                    self.spec_chunks()[i as int],
                );
                assert(self.spec_chunks().take(i + 1) =~= self.spec_chunks().take(
                    i as int,
                ).push(self.spec_chunks()[i as int]));
                assert(v@ =~= spec_signature() + spec_serialized_chunks(
                    self.spec_chunks().take(i + 1),
                ));
            }
            i = i + 1;
        }
        proof {
            assert(self.spec_chunks().take(self.spec_chunks().len() as int) =~= self.spec_chunks());
        }
        v
    }

    /// The first chunk whose type is spelled by the query string's
    /// bytes, if any; the container is not changed.
    pub fn chunk_by_type(&self, chunk_type: &str) -> (r: Option<&Chunk>)
        ensures
            r is Some <==> exists|i: int|
                0 <= i < self.spec_chunks().len() && spec_type_matches(
                    #[trigger] self.spec_chunks()[i],
                    chunk_type.spec_bytes(),
                ),
            r matches Some(c) ==> exists|i: int|
                #[trigger] spec_first_match_at(self.spec_chunks(), chunk_type.spec_bytes(), i)
                    && *c == self.spec_chunks()[i],
    {
        let tb = chunk_type.as_bytes();
        let mut i: usize = 0;
        while i < self.chunks.len()
            invariant
                i <= self.spec_chunks().len(),
                tb@ == chunk_type.spec_bytes(),
                forall|j: int|
                    0 <= j < i ==> !spec_type_matches(
                        #[trigger] self.spec_chunks()[j],
                        tb@,
                    ),
            decreases self.spec_chunks().len() - i,
        {
            if type_eq(&self.chunks[i], tb) {
                proof {
                    assert(spec_first_match_at(self.spec_chunks(), tb@, i as int));
                }
                return Some(&self.chunks[i]);
            }
            i = i + 1;
        }
        None
    }

    /// Removes and returns the first chunk whose type is spelled by the
    /// query string's bytes; `NotFound` leaves the container unchanged.
    /// Only the first match is removed.
    pub fn remove_chunk(&mut self, chunk_type: &str) -> (r: Result<Chunk, PngError>)
        ensures
            r matches Ok(c) ==> exists|i: int|
                #[trigger] spec_first_match_at(
                    old(self).spec_chunks(),
                    chunk_type.spec_bytes(),
                    i,
                ) && c == old(self).spec_chunks()[i] && final(self).spec_chunks() == old(
                    self,
                ).spec_chunks().remove(i),
            r is Err ==> {
                &&& r == Err::<Chunk, PngError>(PngError::NotFound)
                &&& *final(self) == *old(self)
                &&& forall|i: int|
                    0 <= i < old(self).spec_chunks().len() ==> !spec_type_matches(
                        #[trigger] old(self).spec_chunks()[i],
                        chunk_type.spec_bytes(),
                    )
            },
            old(self).wf() ==> final(self).wf(),
    {
        let tb = chunk_type.as_bytes();
        let mut i: usize = 0;
        while i < self.chunks.len()
            invariant
                i <= self.spec_chunks().len(),
                tb@ == chunk_type.spec_bytes(),
                *self == *old(self),
                forall|j: int|
                    0 <= j < i ==> !spec_type_matches(
                        #[trigger] self.spec_chunks()[j],
                        tb@,
                    ),
            decreases self.spec_chunks().len() - i,
        {
            if type_eq(&self.chunks[i], tb) {
                proof {
                    assert(spec_first_match_at(self.spec_chunks(), tb@, i as int));
                }
                let c = self.chunks.remove(i);
                return Ok(c);
            }
            i = i + 1;
        }
        Err(PngError::NotFound)
    }
}

/// Whether a chunk's four type bytes equal the byte slice `t`.
fn type_eq(c: &Chunk, t: &[u8]) -> (r: bool)
    ensures
        r == spec_type_matches(*c, t@),
{
    let cb = c.chunk_type().bytes();
    if t.len() != 4 {
        return false;
    }
    let r = cb[0] == t[0] && cb[1] == t[1] && cb[2] == t[2] && cb[3] == t[3];
    proof {
        if r {
            assert(cb@ =~= t@);
        }
    }
    r
}

/// Serializing one more chunk appends its serialized form.
proof fn lemma_serialized_chunks_push(cs: Seq<Chunk>, c: Chunk)
    ensures
        spec_serialized_chunks(cs.push(c)) == spec_serialized_chunks(cs) + c.spec_serialized(),
    decreases cs.len(),
{
    if cs.len() == 0 {
        assert(cs.push(c).drop_first() =~= cs);
        assert(cs.push(c)[0] == c);
        assert(spec_serialized_chunks(cs) == Seq::<u8>::empty());
        assert(c.spec_serialized() + Seq::<u8>::empty() =~= Seq::<u8>::empty()
            + c.spec_serialized());
    } else {
        lemma_serialized_chunks_push(cs.drop_first(), c);
        assert(cs.push(c).drop_first() =~= cs.drop_first().push(c));
        assert(cs.push(c)[0] == cs[0]);
        assert(cs[0].spec_serialized() + (spec_serialized_chunks(cs.drop_first())
            + c.spec_serialized()) =~= (cs[0].spec_serialized() + spec_serialized_chunks(
            cs.drop_first(),
        )) + c.spec_serialized());
    }
}

/// Container round trip: the serialized form of any sequence of
/// well-formed chunks decodes back to exactly their types and payloads.
#[verifier::rlimit(100)]
pub proof fn lemma_parse_serialized_chunks(cs: Seq<Chunk>)
    requires
        forall|i: int| 0 <= i < cs.len() ==> #[trigger] cs[i].wf(),
    ensures
        spec_parse_chunks(spec_serialized_chunks(cs)) == Ok::<Seq<(Seq<u8>, Seq<u8>)>, PngError>(
            spec_models_of(cs),
        ),
    decreases cs.len(),
{
    if cs.len() == 0 {
        assert(spec_models_of(cs) =~= Seq::<(Seq<u8>, Seq<u8>)>::empty());
    } else {
        let c = cs[0];
        let t = c.spec_chunk_type().spec_bytes();
        let p = c.spec_data();
        let rest = spec_serialized_chunks(cs.drop_first());
        let w = spec_serialized_chunks(cs);
        assert(c.wf());
        assert(c.spec_serialized() =~= spec_chunk_wire(t, p));
        assert(w =~= spec_chunk_wire(t, p) + rest);
        lemma_chunk_parse_prefix(t, p, rest);
        assert(spec_chunk_parse(w) == Ok::<(Seq<u8>, Seq<u8>), PngError>((t, p)));
        assert(w.len() == 12 + p.len() + rest.len());
        assert(w.skip(12 + p.len() as int) =~= rest);
        lemma_parse_serialized_chunks(cs.drop_first());
        assert(spec_parse_chunks(w) == Ok::<Seq<(Seq<u8>, Seq<u8>)>, PngError>(
            seq![(t, p)] + spec_models_of(cs.drop_first()),
        ));
        assert(spec_models_of(cs) =~= seq![(t, p)] + spec_models_of(cs.drop_first()));
    }
}

/// Container round trip at the container level: decoding the serialized
/// form of any well-formed container reproduces an equivalent chunk
/// sequence, type and payload for type and payload.
pub proof fn lemma_png_round_trip(png: Png)
    requires
        png.wf(),
    ensures
        spec_png_parse(spec_signature() + spec_serialized_chunks(png.spec_chunks())) == Ok::<
            Seq<(Seq<u8>, Seq<u8>)>,
            PngError,
        >(png.spec_models()),
{
    let b = spec_signature() + spec_serialized_chunks(png.spec_chunks());
    assert(b.subrange(0, 8) =~= spec_signature());
    assert(b.skip(8) =~= spec_serialized_chunks(png.spec_chunks()));
    lemma_parse_serialized_chunks(png.spec_chunks());
}

} // verus!
