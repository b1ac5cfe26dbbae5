//! The whole-file container: the fixed 8-byte signature followed by an
//! ordered sequence of chunk records, with parse, append, lookup, removal,
//! and byte-identical re-serialization.

use crate::chunk::{
    lemma_chunk_parse_exact, lemma_chunk_parse_prefix, spec_parse_chunk, Chunk, ChunkError,
    ChunkModel,
};
use crate::chunk_type::spec_valid_code;
use crate::wire::spec_u32_to_be_bytes;
use vstd::prelude::*;
use vstd::string::StringSliceAdditionalSpecFns;

verus! {

broadcast use crate::chunk_type::lemma_code_len;

/// Why a byte buffer was rejected as a whole file, or a removal failed.
#[derive(Debug, Clone, Copy, PartialEq, Eq, Structural)]
pub enum PngError {
    /// The buffer does not begin with the fixed 8-byte signature.
    SignatureMismatch,
    /// A record failed to decode; parsing stops at the first bad chunk.
    InvalidChunk(ChunkError),
    /// No chunk with the requested type code exists (removal only).
    ChunkNotFound,
}

/// The fixed signature that opens every file of this format.
pub open spec fn spec_signature() -> Seq<u8> {
    seq![137u8, 80u8, 78u8, 71u8, 13u8, 10u8, 26u8, 10u8]
}

/// The signature as executable bytes.
pub fn signature() -> (r: [u8; 8])
    ensures
        r@ == spec_signature(),
{
    let r: [u8; 8] = [137, 80, 78, 71, 13, 10, 26, 10];
    proof {
        assert(r@ =~= spec_signature());
    }
    r
}

/// The models of a sequence of records.
pub open spec fn spec_models(chunks: Seq<Chunk>) -> Seq<ChunkModel> {
    Seq::new(chunks.len(), |i: int| chunks[i]@)
}

/// The chunk sequence a byte stream decodes to when records are parsed
/// greedily, back to back, until the stream is exhausted; or the error of
/// the first record that fails.
pub open spec fn spec_parse_chunks(b: Seq<u8>) -> Result<Seq<ChunkModel>, ChunkError>
    decreases b.len(),
    via spec_parse_chunks_decreases
{
    if b.len() == 0 {
        Ok(Seq::empty())
    } else {
        match spec_parse_chunk(b) {
            Err(e) => Err(e),
            Ok(m) => match spec_parse_chunks(b.skip(12 + m.data.len() as int)) {
                Err(e) => Err(e),
                Ok(rest) => Ok(seq![m] + rest),
            },
        }
    }
}

#[via_fn]
proof fn spec_parse_chunks_decreases(b: Seq<u8>) {
    if b.len() != 0 {
        if let Ok(m) = spec_parse_chunk(b) {
            lemma_chunk_parse_exact(b, m);
        }
    }
}

/// The back-to-back encodings of a sequence of records.
pub open spec fn spec_chunks_encoding(chunks: Seq<ChunkModel>) -> Seq<u8>
    decreases chunks.len(),
{
    if chunks.len() == 0 {
        Seq::empty()
    } else {
        chunks[0].encoding() + spec_chunks_encoding(chunks.drop_first())
    }
}

/// The encoding of a whole file: signature, then every record in order.
pub open spec fn spec_png_encoding(chunks: Seq<ChunkModel>) -> Seq<u8> {
    spec_signature() + spec_chunks_encoding(chunks)
}

/// The chunk sequence a whole file decodes to: the signature checked and
/// stripped, then the records parsed until exhaustion, all or nothing.
pub open spec fn spec_parse_png(b: Seq<u8>) -> Result<Seq<ChunkModel>, PngError> {
    if b.len() < 8 || b.subrange(0, 8) != spec_signature() {
        Err(PngError::SignatureMismatch)
    } else {
        match spec_parse_chunks(b.skip(8)) {
            Err(e) => Err(PngError::InvalidChunk(e)),
            Ok(s) => Ok(s),
        }
    }
}

/// The index of the first chunk whose code is `code`, or `chunks.len()`
/// if none matches.
pub open spec fn spec_find_idx(chunks: Seq<ChunkModel>, code: Seq<u8>) -> int
    decreases chunks.len(),
{
    if chunks.len() == 0 {
        0
    } else if chunks[0].code == code {
        0
    } else {
        1 + spec_find_idx(chunks.drop_first(), code)
    }
}

/// The first chunk whose code is `code`, if any.
pub open spec fn spec_find_chunk(chunks: Seq<ChunkModel>, code: Seq<u8>) -> Option<ChunkModel> {
    if spec_find_idx(chunks, code) < chunks.len() {
        Some(chunks[spec_find_idx(chunks, code)])
    } else {
        None
    }
}

/// What `spec_find_idx` finds: an index within bounds exactly when a match
/// exists, pointing at a match, with nothing matching before it.
pub proof fn lemma_find_idx_props(chunks: Seq<ChunkModel>, code: Seq<u8>)
    ensures
        0 <= spec_find_idx(chunks, code) <= chunks.len(),
        forall|j: int|
            0 <= j < spec_find_idx(chunks, code) ==> (#[trigger] chunks[j]).code != code,
        spec_find_idx(chunks, code) < chunks.len() ==> chunks[spec_find_idx(
            chunks,
            code,
        )].code == code,
    decreases chunks.len(),
{
    if chunks.len() != 0 && chunks[0].code != code {
        lemma_find_idx_props(chunks.drop_first(), code);
        assert forall|j: int|
            0 <= j < spec_find_idx(chunks, code) implies (#[trigger] chunks[j]).code != code by {
            if j > 0 {
                assert(chunks.drop_first()[j - 1] == chunks[j]);
            }
        }
    }
}

/// A container: the fixed signature plus an ordered sequence of records.
/// Its view is the sequence of record models, in order.
#[derive(Debug)]
pub struct Png {
    chunks: Vec<Chunk>,
}

impl View for Png {
    type V = Seq<ChunkModel>;

    closed spec fn view(&self) -> Seq<ChunkModel> {
        spec_models(self.chunks@)
    }
}

impl Png {
    /// Every record fits the wire format's length field.
    pub open spec fn wf(&self) -> bool {
        forall|i: int| 0 <= i < self@.len() ==> (#[trigger] self@[i]).wf()
    }

    /// Builds a fresh container around the given records, in the given
    /// order, under the standard signature. Always succeeds.
    pub fn from_chunks(chunks: Vec<Chunk>) -> (r: Png)
        ensures
            r@ == spec_models(chunks@),
    {
        Png { chunks }
    }

    /// Decodes a whole file: checks the signature, then parses records
    /// until the buffer is exhausted. All or nothing: the error of the
    /// first bad record is the container's error.
    pub fn parse(value: &[u8]) -> (r: Result<Png, PngError>)
        ensures
            (match r {
                Ok(p) => spec_parse_png(value@) == Ok::<Seq<ChunkModel>, PngError>(p@) && p.wf()
                    && spec_all_wf(p@),
                Err(e) => spec_parse_png(value@) == Err::<Seq<ChunkModel>, PngError>(e),
            }),
    {
        if value.len() < 8 {
            return Err(PngError::SignatureMismatch);
        }
        let sig = signature();
        let mut i: usize = 0;
        while i < 8
            invariant
                0 <= i <= 8,
                value@.len() >= 8,
                sig@ == spec_signature(),
                forall|j: int| 0 <= j < i ==> value@[j] == spec_signature()[j],
            decreases 8 - i,
        {
            if value[i] != sig[i] {
                proof {
                    assert(value@.subrange(0, 8)[i as int] != spec_signature()[i as int]);
                }
                return Err(PngError::SignatureMismatch);
            }
            i = i + 1;
        }
        proof {
            assert(value@.subrange(0, 8) =~= spec_signature());
        }
        let ghost tail = value@.skip(8);
        let mut chunks: Vec<Chunk> = Vec::new();
        let mut pos: usize = 8;
        while pos < value.len()
            invariant
                8 <= pos <= value@.len(),
                value@.subrange(0, 8) == spec_signature(),
                tail == value@.skip(8),
                forall|k: int| 0 <= k < chunks@.len() ==> (#[trigger] chunks@[k]@).wf(),
                spec_parse_chunks(tail) == (match spec_parse_chunks(value@.skip(pos as int)) {
                    Err(e) => Err::<Seq<ChunkModel>, ChunkError>(e),
                    Ok(s) => Ok::<Seq<ChunkModel>, ChunkError>(spec_models(chunks@) + s),
                }),
            decreases value@.len() - pos,
        {
            let rest = vstd::slice::slice_subrange(value, pos, value.len());
            proof {
                assert(rest@ =~= value@.skip(pos as int));
            }
            match Chunk::parse(rest) {
                Err(e) => {
                    return Err(PngError::InvalidChunk(e));
                },
                Ok(c) => {
                    let n = c.length() as usize;
                    proof {
                        lemma_chunk_parse_exact(value@.skip(pos as int), c@);
                        assert(value@.skip(pos as int).skip(12 + n as int) =~= value@.skip(
                            pos + 12 + n,
                        ));
                        if let Ok(s) = spec_parse_chunks(value@.skip(pos + 12 + n)) {
                            assert(spec_models(chunks@) + (seq![c@] + s) =~= spec_models(
                                chunks@.push(c),
                            ) + s);
                        }
                    }
                    chunks.push(c);
                    pos = pos + 12 + n;
                },
            }
        }
        proof {
            assert(value@.skip(pos as int).len() == 0);
            assert(spec_parse_chunks(value@.skip(pos as int)) == Ok::<
                Seq<ChunkModel>,
                ChunkError,
            >(Seq::empty()));
            assert(spec_models(chunks@) + Seq::<ChunkModel>::empty() =~= spec_models(chunks@));
        }
        let r = Png { chunks };
        proof {
            assert(spec_parse_png(value@) == Ok::<Seq<ChunkModel>, PngError>(r@));
            lemma_png_parse_exact(value@, r@);
        }
        Ok(r)
    }

    /// Appends a record at the end of the sequence. Duplicate type codes
    /// are permitted, as the format itself permits them.
    pub fn append_chunk(&mut self, chunk: Chunk)
        ensures
            final(self)@ == old(self)@.push(chunk@),
    {
        proof {
            assert(spec_models(self.chunks@.push(chunk)) =~= spec_models(self.chunks@).push(
                chunk@,
            ));
        }
        self.chunks.push(chunk);
    }

    /// The records, in order, as a read-only slice.
    pub fn chunks(&self) -> (r: &[Chunk])
        ensures
            r@.len() == self@.len(),
            forall|i: int| 0 <= i < r@.len() ==> (#[trigger] r@[i])@ == self@[i],
    {
        self.chunks.as_slice()
    }

    /// The first record whose type code's text is `type_str`, if any.
    pub fn chunk_by_type(&self, type_str: &str) -> (r: Option<&Chunk>)
        ensures
            (match r {
                Some(c) => spec_find_chunk(self@, type_str.spec_bytes()) == Some(c@),
                None => spec_find_chunk(self@, type_str.spec_bytes()) is None,
            }),
    {
        let key = type_str.as_bytes();
        let idx = self.find_index(key);
        if idx < self.chunks.len() {
            Some(&self.chunks[idx])
        } else {
            None
        }
    }

    /// Removes the first record whose type code's text is `type_str` and
    /// hands it back; the relative order of the rest is unchanged. Fails
    /// with `ChunkNotFound` when nothing matches, leaving the container
    /// untouched.
    pub fn remove_chunk(&mut self, type_str: &str) -> (r: Result<Chunk, PngError>)
        ensures
            ({
                let idx = spec_find_idx(old(self)@, type_str.spec_bytes());
                if idx < old(self)@.len() {
                    &&& r matches Ok(c)
                    &&& c@ == old(self)@[idx]
                    &&& final(self)@ == old(self)@.remove(idx)
                } else {
                    &&& r == Err::<Chunk, PngError>(PngError::ChunkNotFound)
                    &&& final(self)@ == old(self)@
                }
            }),
    {
        let key = type_str.as_bytes();
        let idx = self.find_index(key);
        if idx < self.chunks.len() {
            let c = self.chunks.remove(idx);
            proof {
                assert(spec_models(old(self).chunks@.remove(idx as int)) =~= spec_models(
                    old(self).chunks@,
                ).remove(idx as int));
            }
            Ok(c)
        } else {
            Err(PngError::ChunkNotFound)
        }
    }

    /// The index of the first record whose code equals `key`, or the
    /// number of records when none matches.
    fn find_index(&self, key: &[u8]) -> (idx: usize)
        ensures
            idx == spec_find_idx(self@, key@),
    {
        let ghost code = key@;
        let n = self.chunks.len();
        let mut i: usize = 0;
        while i < n
            invariant
                0 <= i <= n,
                n == self@.len(),
                code == key@,
                forall|j: int| 0 <= j < i ==> (#[trigger] self@[j]).code != code,
            decreases n - i,
        {
            if self.matches_at(i, key) {
                proof {
                    lemma_find_idx_props(self@, code);
                    assert(self@[i as int].code == code);
                }
                return i;
            }
            i = i + 1;
        }
        proof {
            lemma_find_idx_props(self@, code);
        }
        n
    }

    /// True iff the record at `i` has exactly the code `key`.
    fn matches_at(&self, i: usize, key: &[u8]) -> (r: bool)
        requires
            i < self@.len(),
        ensures
            r == (self@[i as int].code == key@),
    {
        let cb = self.chunks[i].chunk_type().bytes();
        if key.len() != 4 {
            proof {
                assert(self@[i as int].code.len() == 4);
            }
            return false;
        }
        let r = cb[0] == key[0] && cb[1] == key[1] && cb[2] == key[2] && cb[3] == key[3];
        proof {
            if r {
                assert(self@[i as int].code =~= key@);
            } else {
                assert(self@[i as int].code != key@);
            }
        }
        r
    }

    /// The whole file in its exact byte layout: the signature, then every
    /// record's encoding, in order.
    pub fn as_bytes(&self) -> (r: Vec<u8>)
        requires
            self.wf(),
        ensures
            r@ == spec_png_encoding(self@),
    {
        let sig = signature();
        let mut out: Vec<u8> = Vec::new();
        out.push(sig[0]);
        out.push(sig[1]);
        out.push(sig[2]);
        out.push(sig[3]);
        out.push(sig[4]);
        out.push(sig[5]);
        out.push(sig[6]);
        out.push(sig[7]);
        proof {
            assert(out@ =~= spec_signature());
            assert(self@.take(0) =~= Seq::<ChunkModel>::empty());
        }
        let n = self.chunks.len();
        let mut i: usize = 0;
        while i < n
            invariant
                0 <= i <= n,
                n == self@.len(),
                self.wf(),
                out@ == spec_signature() + spec_chunks_encoding(self@.take(i as int)),
            decreases n - i,
        {
            proof {
                assert(self.chunks@[i as int]@ == self@[i as int]);
                assert(self@[i as int].wf());
            }
            let mut cb = self.chunks[i].as_bytes();
            proof {
                lemma_chunks_encoding_push(self@.take(i as int), self@[i as int]);
                assert(self@.take(i + 1) =~= self@.take(i as int).push(self@[i as int]));
            }
            out.append(&mut cb);
            i = i + 1;
        }
        proof {
            assert(self@.take(n as int) =~= self@);
        }
        out
    }
}

/// Appending one record to a sequence appends its encoding to the bytes.
pub proof fn lemma_chunks_encoding_push(chunks: Seq<ChunkModel>, m: ChunkModel)
    ensures
        spec_chunks_encoding(chunks.push(m)) == spec_chunks_encoding(chunks) + m.encoding(),
    decreases chunks.len(),
{
    if chunks.len() == 0 {
        assert(chunks.push(m)[0] == m);
        assert(chunks.push(m).drop_first() =~= Seq::<ChunkModel>::empty());
        assert(spec_chunks_encoding(Seq::<ChunkModel>::empty()) == Seq::<u8>::empty());
        assert(spec_chunks_encoding(chunks.push(m)) == m.encoding() + Seq::<u8>::empty());
        assert(m.encoding() + Seq::<u8>::empty() =~= Seq::<u8>::empty() + m.encoding());
    } else {
        assert(chunks.push(m)[0] == chunks[0]);
        assert(chunks.push(m).drop_first() =~= chunks.drop_first().push(m));
        lemma_chunks_encoding_push(chunks.drop_first(), m);
        assert(spec_chunks_encoding(chunks.push(m)) == chunks[0].encoding() + (
        spec_chunks_encoding(chunks.drop_first()) + m.encoding()));
        assert(chunks[0].encoding() + (spec_chunks_encoding(chunks.drop_first()) + m.encoding())
            =~= (chunks[0].encoding() + spec_chunks_encoding(chunks.drop_first())) + m.encoding());
    }
}

/// Every record of the sequence is well formed: a conformant type code and
/// a payload that fits the length field.
pub open spec fn spec_all_wf(chunks: Seq<ChunkModel>) -> bool {
    forall|i: int|
        0 <= i < chunks.len() ==> (#[trigger] chunks[i]).wf() && spec_valid_code(chunks[i].code)
}

/// Round trip for a record stream: back-to-back encodings of well-formed
/// records parse back to exactly those records.
#[verifier::rlimit(100)]
#[verifier::spinoff_prover]
pub proof fn lemma_chunks_round_trip(chunks: Seq<ChunkModel>)
    requires
        spec_all_wf(chunks),
    ensures
        spec_parse_chunks(spec_chunks_encoding(chunks)) == Ok::<Seq<ChunkModel>, ChunkError>(
            chunks,
        ),
    decreases chunks.len(),
{
    if chunks.len() == 0 {
        assert(chunks =~= Seq::<ChunkModel>::empty());
    } else {
        let m = chunks[0];
        let rest = chunks.drop_first();
        let b = spec_chunks_encoding(chunks);
        let enc_rest = spec_chunks_encoding(rest);
        assert(b == m.encoding() + enc_rest);
        assert(m.encoding().len() == 12 + m.data.len()) by {
            assert(m.encoding() == spec_u32_to_be_bytes(m.data.len() as u32) + m.code + m.data
                + spec_u32_to_be_bytes(m.crc()));
        }
        assert(spec_parse_chunk(b) == Ok::<ChunkModel, ChunkError>(m)) by {
            lemma_chunk_parse_prefix(m, enc_rest);
        }
        assert(b.skip(12 + m.data.len() as int) =~= enc_rest);
        assert(spec_all_wf(rest)) by {
            assert forall|i: int|
                0 <= i < rest.len() implies (#[trigger] rest[i]).wf() && spec_valid_code(
                rest[i].code,
            ) by {
                assert(rest[i] == chunks[i + 1]);
            }
        }
        lemma_chunks_round_trip(rest);
        assert(spec_parse_chunks(b) == Ok::<Seq<ChunkModel>, ChunkError>(seq![m] + rest));
        assert(seq![m] + rest =~= chunks);
    }
}

/// Container round trip: a file built as the fixed signature followed by
/// the encodings of well-formed records parses back to those records.
pub proof fn lemma_png_round_trip(chunks: Seq<ChunkModel>)
    requires
        spec_all_wf(chunks),
    ensures
        spec_parse_png(spec_png_encoding(chunks)) == Ok::<Seq<ChunkModel>, PngError>(chunks),
{
    let b = spec_png_encoding(chunks);
    assert(b.subrange(0, 8) =~= spec_signature());
    assert(b.skip(8) =~= spec_chunks_encoding(chunks));
    lemma_chunks_round_trip(chunks);
}

/// A successful parse of a record stream pins the bytes down: re-encoding
/// the parsed records reproduces the input exactly.
#[verifier::rlimit(100)]
#[verifier::spinoff_prover]
pub proof fn lemma_chunks_parse_exact(b: Seq<u8>, chunks: Seq<ChunkModel>)
    requires
        spec_parse_chunks(b) == Ok::<Seq<ChunkModel>, ChunkError>(chunks),
    ensures
        spec_chunks_encoding(chunks) == b,
        spec_all_wf(chunks),
    decreases b.len(),
{
    if b.len() == 0 {
        assert(chunks =~= Seq::<ChunkModel>::empty());
        assert(spec_chunks_encoding(chunks) =~= b);
    } else {
        if let Ok(m) = spec_parse_chunk(b) {
            lemma_chunk_parse_exact(b, m);
            let n = m.data.len() as int;
            let rest_b = b.skip(12 + n);
            if let Ok(rest) = spec_parse_chunks(rest_b) {
                lemma_chunks_parse_exact(rest_b, rest);
                assert(chunks == seq![m] + rest);
                assert(chunks[0] == m);
                assert(chunks.drop_first() =~= rest);
                assert(spec_chunks_encoding(chunks) == m.encoding() + spec_chunks_encoding(rest));
                assert(m.encoding() + rest_b =~= b);
                assert forall|i: int|
                    0 <= i < chunks.len() implies (#[trigger] chunks[i]).wf() && spec_valid_code(
                    chunks[i].code,
                ) by {
                    if i > 0 {
                        assert(chunks[i] == rest[i - 1]);
                    }
                }
            }
        }
    }
}

/// A successful parse of a whole file pins the bytes down: the parsed
/// container re-serializes to the input exactly.
pub proof fn lemma_png_parse_exact(b: Seq<u8>, chunks: Seq<ChunkModel>)
    requires
        spec_parse_png(b) == Ok::<Seq<ChunkModel>, PngError>(chunks),
    ensures
        spec_png_encoding(chunks) == b,
        spec_all_wf(chunks),
{
    lemma_chunks_parse_exact(b.skip(8), chunks);
    assert(spec_png_encoding(chunks) =~= b.subrange(0, 8) + b.skip(8));
    assert(b.subrange(0, 8) + b.skip(8) =~= b);
}

/// Appending a record whose type code no present chunk carries and then
/// looking that code up finds exactly the appended record.
pub proof fn lemma_append_then_find(chunks: Seq<ChunkModel>, m: ChunkModel)
    requires
        forall|i: int| 0 <= i < chunks.len() ==> (#[trigger] chunks[i]).code != m.code,
    ensures
        spec_find_chunk(chunks.push(m), m.code) == Some(m),
{
    let s = chunks.push(m);
    lemma_find_idx_props(s, m.code);
    let idx = spec_find_idx(s, m.code);
    assert(s[chunks.len() as int] == m);
    if idx < chunks.len() {
        assert(s[idx] == chunks[idx]);
        assert(false);
    }
    if idx == s.len() {
        assert(s[chunks.len() as int].code != m.code);
        assert(false);
    }
}

} // verus!
