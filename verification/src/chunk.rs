//! A single chunk record: a type code, a payload, and the CRC that guards
//! both. A record converts to and from its exact wire layout: 4-byte
//! big-endian length, 4-byte type code, payload, 4-byte big-endian CRC.

use crate::chunk_type::{spec_is_alphabetic, spec_valid_code, ChunkType};
use crate::wire::{
    crc32_checksum, crc32_of, lemma_u32_be_bytes_injective, lemma_u32_be_bytes_round_trip,
    push_u32_be_bytes, read_u32_be_bytes, spec_u32_from_be_bytes, spec_u32_to_be_bytes,
};
use crate::text::{
    dec_bytes, lemma_ascii_bytes_valid_utf8, lemma_ascii_str_bytes, lemma_dec_digits_ascii,
    push_str_bytes, spec_dec_digits, utf8_to_string,
};
use vstd::prelude::*;
use vstd::slice::{slice_subrange, slice_to_vec};
use vstd::string::StringSliceAdditionalSpecFns;

verus! {

broadcast use crate::chunk_type::lemma_code_len;

/// Why a byte buffer was rejected as a chunk record.
#[derive(Debug, Clone, Copy, PartialEq, Eq, Structural)]
pub enum ChunkError {
    /// Fewer than the 12 bytes a record needs for its three fixed fields.
    SmallInput,
    /// The type code failed the validity rule.
    InvalidChunkType,
    /// The declared payload length exceeds the bytes available.
    TruncatedData,
    /// The stored CRC differs from the one recomputed over type and payload.
    InvalidCrc,
}

/// The payload did not decode as UTF-8 text.
#[derive(Debug, Clone, Copy, PartialEq, Eq, Structural)]
pub struct Utf8Error;

/// Mathematical model of a chunk record: its type code bytes and payload.
#[verifier::ext_equal]
pub struct ChunkModel {
    pub code: Seq<u8>,
    pub data: Seq<u8>,
}

impl ChunkModel {
    /// The payload must fit the 32-bit length field of the wire layout.
    pub open spec fn wf(&self) -> bool {
        self.code.len() == 4 && self.data.len() <= u32::MAX
    }

    /// The checksum of a record covers its type code followed by its payload.
    pub open spec fn crc(&self) -> u32 {
        crc32_of(self.code + self.data)
    }

    /// The exact wire layout: big-endian length, type code, payload,
    /// big-endian CRC.
    pub open spec fn encoding(&self) -> Seq<u8> {
        spec_u32_to_be_bytes(self.data.len() as u32) + self.code + self.data
            + spec_u32_to_be_bytes(self.crc())
    }
}

/// The UTF-8 bytes of a record's multi-line, human-readable rendering:
/// its length, type code, payload size and CRC, one line each, in braces.
pub open spec fn spec_render_chunk(m: ChunkModel) -> Seq<u8> {
    "Chunk {\n  Length: ".spec_bytes() + spec_dec_digits(m.data.len()) + "\n  Type: ".spec_bytes()
        + m.code + "\n  Data: ".spec_bytes() + spec_dec_digits(m.data.len())
        + " \n  Crc: ".spec_bytes() + spec_dec_digits(m.crc() as nat) + "\n}\n".spec_bytes()
}

/// The record a prefix of `b` decodes to, or the error that rejects it.
/// Bytes past the record's own `12 + length` are left for the caller.
pub open spec fn spec_parse_chunk(b: Seq<u8>) -> Result<ChunkModel, ChunkError> {
    if b.len() < 12 {
        Err(ChunkError::SmallInput)
    } else {
        let n = spec_u32_from_be_bytes(b.subrange(0, 4)) as int;
        let code = b.subrange(4, 8);
        if !spec_valid_code(code) {
            Err(ChunkError::InvalidChunkType)
        } else if b.len() < 12 + n {
            Err(ChunkError::TruncatedData)
        } else {
            let data = b.subrange(8, 8 + n);
            let stored = spec_u32_from_be_bytes(b.subrange(8 + n, 12 + n));
            if stored != crc32_of(code + data) {
                Err(ChunkError::InvalidCrc)
            } else {
                Ok(ChunkModel { code, data })
            }
        }
    }
}

/// A chunk record. Owns its type code and payload; the CRC is recomputed
/// on demand, so it is always consistent with the current contents.
#[derive(Debug)]
pub struct Chunk {
    chunk_type: ChunkType,
    chunk_data: Vec<u8>,
}

impl View for Chunk {
    type V = ChunkModel;

    closed spec fn view(&self) -> ChunkModel {
        ChunkModel { code: self.chunk_type.spec_code(), data: self.chunk_data@ }
    }
}

impl Chunk {
    /// Builds a fresh record from a type code and payload. The code's
    /// validity is not rechecked here: it was settled where the code was
    /// constructed.
    pub fn new(chunk_type: ChunkType, data: Vec<u8>) -> (r: Chunk)
        requires
            data@.len() <= u32::MAX,
        ensures
            r@ == (ChunkModel { code: chunk_type.spec_code(), data: data@ }),
            r@.wf(),
    {
        let r = Chunk { chunk_type, chunk_data: data };
        proof {
            assert(r@ =~= ChunkModel { code: chunk_type.spec_code(), data: data@ });
        }
        r
    }

    /// The length of the payload, as the wire length field holds it.
    pub fn length(&self) -> (r: u32)
        requires
            self@.wf(),
        ensures
            r == self@.data.len(),
    {
        self.chunk_data.len() as u32
    }

    /// The type code of this record.
    pub fn chunk_type(&self) -> (r: &ChunkType)
        ensures
            r.spec_code() == self@.code,
    {
        &self.chunk_type
    }

    /// The raw payload bytes.
    pub fn data(&self) -> (r: &[u8])
        ensures
            r@ == self@.data,
    {
        self.chunk_data.as_slice()
    }

    /// The payload as text. Fails exactly when the payload is not valid
    /// UTF-8; nothing is mutated or cached.
    pub fn data_as_string(&self) -> (r: Result<String, Utf8Error>)
        ensures
            r is Ok <==> vstd::utf8::valid_utf8(self@.data),
            (r matches Ok(s) ==> s@ == vstd::utf8::decode_utf8(self@.data)),
    {
        let v = slice_to_vec(self.chunk_data.as_slice());
        match crate::text::utf8_to_string(v) {
            Some(s) => Ok(s),
            None => Err(Utf8Error),
        }
    }

    /// The CRC of this record, recomputed over type code and payload.
    pub fn crc(&self) -> (r: u32)
        ensures
            r == self@.crc(),
    {
        let code = self.chunk_type.bytes();
        let mut buf: Vec<u8> = Vec::new();
        buf.push(code[0]);
        buf.push(code[1]);
        buf.push(code[2]);
        buf.push(code[3]);
        assert(buf@ =~= self@.code);
        let mut i: usize = 0;
        while i < self.chunk_data.len()
            invariant
                0 <= i <= self.chunk_data@.len(),
                buf@ == self@.code + self.chunk_data@.take(i as int),
            decreases self.chunk_data@.len() - i,
        {
            buf.push(self.chunk_data[i]);
            i = i + 1;
            assert(buf@ =~= self@.code + self.chunk_data@.take(i as int));
        }
        assert(buf@ =~= self@.code + self@.data);
        crc32_checksum(buf.as_slice())
    }

    /// The record in its exact wire layout: length, type code, payload, CRC,
    /// each multi-byte field big-endian.
    pub fn as_bytes(&self) -> (r: Vec<u8>)
        requires
            self@.wf(),
        ensures
            r@ == self@.encoding(),
    {
        let mut out: Vec<u8> = Vec::new();
        push_u32_be_bytes(&mut out, self.length());
        let code = self.chunk_type.bytes();
        out.push(code[0]);
        out.push(code[1]);
        out.push(code[2]);
        out.push(code[3]);
        let mut i: usize = 0;
        while i < self.chunk_data.len()
            invariant
                0 <= i <= self.chunk_data@.len(),
                out@ == spec_u32_to_be_bytes(self@.data.len() as u32) + self@.code
                    + self.chunk_data@.take(i as int),
            decreases self.chunk_data@.len() - i,
        {
            out.push(self.chunk_data[i]);
            i = i + 1;
            assert(out@ =~= spec_u32_to_be_bytes(self@.data.len() as u32) + self@.code
                + self.chunk_data@.take(i as int));
        }
        let crc = self.crc();
        push_u32_be_bytes(&mut out, crc);
        assert(out@ =~= self@.encoding());
        out
    }

    /// The record's multi-line, human-readable rendering: length, type,
    /// payload size and CRC, one line each.
    pub fn to_display_string(&self) -> (r: String)
        requires
            self@.wf(),
            forall|i: int| 0 <= i < 4 ==> spec_is_alphabetic(#[trigger] self@.code[i]),
        ensures
            vstd::utf8::encode_utf8(r@) == spec_render_chunk(self@),
    {
        let mut out: Vec<u8> = Vec::new();
        push_str_bytes(&mut out, "Chunk {\n  Length: ");
        proof {
            reveal_strlit("Chunk {\n  Length: ");
            lemma_ascii_str_bytes("Chunk {\n  Length: ");
            assert(forall|k: int| 0 <= k < out@.len() ==> #[trigger] out@[k] < 128);
        }
        let mut digits = dec_bytes(self.length());
        proof {
            lemma_dec_digits_ascii(self@.data.len());
            assert(digits@ == spec_dec_digits(self@.data.len()));
        }
        out.append(&mut digits);
        proof {
            assert(forall|k: int| 0 <= k < out@.len() ==> #[trigger] out@[k] < 128);
        }
        push_str_bytes(&mut out, "\n  Type: ");
        proof {
            reveal_strlit("\n  Type: ");
            lemma_ascii_str_bytes("\n  Type: ");
            assert(forall|k: int| 0 <= k < out@.len() ==> #[trigger] out@[k] < 128);
        }
        let code = self.chunk_type.bytes();
        out.push(code[0]);
        out.push(code[1]);
        out.push(code[2]);
        out.push(code[3]);
        proof {
            assert(forall|k: int| 0 <= k < out@.len() ==> #[trigger] out@[k] < 128);
        }
        push_str_bytes(&mut out, "\n  Data: ");
        proof {
            reveal_strlit("\n  Data: ");
            lemma_ascii_str_bytes("\n  Data: ");
            assert(forall|k: int| 0 <= k < out@.len() ==> #[trigger] out@[k] < 128);
        }
        let mut digits = dec_bytes(self.length());
        out.append(&mut digits);
        proof {
            assert(forall|k: int| 0 <= k < out@.len() ==> #[trigger] out@[k] < 128);
        }
        push_str_bytes(&mut out, " \n  Crc: ");
        proof {
            reveal_strlit(" \n  Crc: ");
            lemma_ascii_str_bytes(" \n  Crc: ");
            assert(forall|k: int| 0 <= k < out@.len() ==> #[trigger] out@[k] < 128);
        }
        let crc = self.crc();
        let mut digits = dec_bytes(crc);
        proof {
            lemma_dec_digits_ascii(self@.crc() as nat);
        }
        out.append(&mut digits);
        proof {
            assert(forall|k: int| 0 <= k < out@.len() ==> #[trigger] out@[k] < 128);
        }
        push_str_bytes(&mut out, "\n}\n");
        proof {
            reveal_strlit("\n}\n");
            lemma_ascii_str_bytes("\n}\n");
            assert(forall|k: int| 0 <= k < out@.len() ==> #[trigger] out@[k] < 128);
            assert(out@ =~= spec_render_chunk(self@));
            lemma_ascii_bytes_valid_utf8(out@);
            vstd::utf8::decode_utf8_encode_utf8(out@);
        }
        let ghost ob = out@;
        match utf8_to_string(out) {
            Some(s) => s,
            None => {
                proof {
                    assert(vstd::utf8::valid_utf8(ob));
                    assert(false);
                }
                String::new()
            },
        }
    }

    /// Decodes one record from the front of `value`, verifying the CRC.
    /// Trailing bytes beyond the record are ignored; the caller advances
    /// by `12 + length` on success.
    pub fn parse(value: &[u8]) -> (r: Result<Chunk, ChunkError>)
        ensures
            (match r {
                Ok(c) => spec_parse_chunk(value@) == Ok::<ChunkModel, ChunkError>(c@) && c@.wf(),
                Err(e) => spec_parse_chunk(value@) == Err::<ChunkModel, ChunkError>(e),
            }),
    {
        if value.len() < 12 {
            return Err(ChunkError::SmallInput);
        }
        let n32 = read_u32_be_bytes(value, 0);
        let n = n32 as usize;
        let code_bytes = [value[4], value[5], value[6], value[7]];
        let chunk_type = ChunkType::from_bytes(code_bytes);
        proof {
            assert(chunk_type.spec_code() =~= value@.subrange(4, 8));
        }
        if !chunk_type.is_valid() {
            return Err(ChunkError::InvalidChunkType);
        }
        if value.len() - 12 < n {
            return Err(ChunkError::TruncatedData);
        }
        let chunk_data = slice_to_vec(slice_subrange(value, 8, 8 + n));
        let stored = read_u32_be_bytes(value, 8 + n);
        let chunk = Chunk { chunk_type, chunk_data };
        let computed = chunk.crc();
        if stored != computed {
            return Err(ChunkError::InvalidCrc);
        }
        proof {
            assert(spec_parse_chunk(value@) == Ok::<ChunkModel, ChunkError>(chunk@));
        }
        Ok(chunk)
    }
}

/// A record's encoding decodes back to that record wherever it stands:
/// whatever bytes follow it, the parse reads exactly the record's own
/// `12 + length` bytes and reproduces it.
pub proof fn lemma_chunk_parse_prefix(m: ChunkModel, tail: Seq<u8>)
    requires
        m.wf(),
        spec_valid_code(m.code),
    ensures
        spec_parse_chunk(m.encoding() + tail) == Ok::<ChunkModel, ChunkError>(m),
{
    let b = m.encoding() + tail;
    let n = m.data.len() as int;
    lemma_u32_be_bytes_round_trip(m.data.len() as u32);
    lemma_u32_be_bytes_round_trip(m.crc());
    assert(b.len() == 12 + n + tail.len());
    assert(b.subrange(0, 4) =~= spec_u32_to_be_bytes(m.data.len() as u32));
    assert(b.subrange(4, 8) =~= m.code);
    assert(b.subrange(8, 8 + n) =~= m.data);
    assert(b.subrange(8 + n, 12 + n) =~= spec_u32_to_be_bytes(m.crc()));
    assert(spec_parse_chunk(b) matches Ok(p) && p =~= m);
}

/// Round trip: a record built from any conformant type code and any payload
/// that fits the length field parses back from its own encoding unchanged.
pub proof fn lemma_chunk_round_trip(m: ChunkModel)
    requires
        m.wf(),
        spec_valid_code(m.code),
    ensures
        spec_parse_chunk(m.encoding()) == Ok::<ChunkModel, ChunkError>(m),
{
    lemma_chunk_parse_prefix(m, Seq::empty());
    assert(m.encoding() + Seq::<u8>::empty() =~= m.encoding());
}

/// A successful parse pins the input down: the parsed record's encoding is
/// exactly the bytes consumed, so re-serializing reproduces them.
pub proof fn lemma_chunk_parse_exact(b: Seq<u8>, m: ChunkModel)
    requires
        spec_parse_chunk(b) == Ok::<ChunkModel, ChunkError>(m),
    ensures
        m.wf(),
        spec_valid_code(m.code),
        12 + m.data.len() <= b.len(),
        m.encoding() == b.subrange(0, 12 + m.data.len() as int),
{
    let n = spec_u32_from_be_bytes(b.subrange(0, 4)) as int;
    assert(m.data == b.subrange(8, 8 + n));
    assert(m.data.len() == n);
    lemma_u32_be_bytes_injective(b.subrange(0, 4));
    assert(m.data.len() as u32 == spec_u32_from_be_bytes(b.subrange(0, 4)));
    assert(spec_u32_to_be_bytes(m.data.len() as u32) == b.subrange(0, 4));
    lemma_u32_be_bytes_injective(b.subrange(8 + n, 12 + n));
    assert(spec_u32_from_be_bytes(b.subrange(8 + n, 12 + n)) == m.crc());
    assert(spec_u32_to_be_bytes(m.crc()) == b.subrange(8 + n, 12 + n));
    assert(m.encoding() =~= b.subrange(0, 12 + n));
}

/// Tampering with the checksum field of a well-formed record never goes
/// unnoticed: any other four CRC bytes make the parse fail with
/// `InvalidCrc`.
pub proof fn lemma_crc_tamper_detected(m: ChunkModel, crc_bytes: Seq<u8>)
    requires
        m.wf(),
        spec_valid_code(m.code),
        crc_bytes.len() == 4,
        crc_bytes != spec_u32_to_be_bytes(m.crc()),
    ensures
        spec_parse_chunk(
            spec_u32_to_be_bytes(m.data.len() as u32) + m.code + m.data + crc_bytes,
        ) == Err::<ChunkModel, ChunkError>(ChunkError::InvalidCrc),
{
    let b = spec_u32_to_be_bytes(m.data.len() as u32) + m.code + m.data + crc_bytes;
    let n = m.data.len() as int;
    lemma_u32_be_bytes_round_trip(m.data.len() as u32);
    assert(b.len() == 12 + n);
    assert(b.subrange(0, 4) =~= spec_u32_to_be_bytes(m.data.len() as u32));
    assert(b.subrange(4, 8) =~= m.code);
    assert(b.subrange(8, 8 + n) =~= m.data);
    assert(b.subrange(8 + n, 12 + n) =~= crc_bytes);
    let stored = spec_u32_from_be_bytes(crc_bytes);
    assert(stored != m.crc()) by {
        if stored == m.crc() {
            lemma_u32_be_bytes_injective(crc_bytes);
        }
    }
}

} // verus!
