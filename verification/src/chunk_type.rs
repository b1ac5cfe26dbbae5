//! Validated 4-byte chunk type codes.
//!
//! A type code is four bytes; a spec-conformant code consists of ASCII
//! alphabetic bytes with the reserved bit (bit `0x20` of the third byte)
//! clear. The remaining `0x20` bits are descriptive properties only.

use vstd::prelude::*;
use vstd::string::StringSliceAdditionalSpecFns;

verus! {

/// True iff `b` is an ASCII alphabetic byte (`A`-`Z` or `a`-`z`).
pub open spec fn spec_is_alphabetic(b: u8) -> bool {
    (65 <= b <= 90) || (97 <= b <= 122)
}

/// True iff bit `0x20` of `b` is set (the lowercase bit of an ASCII letter).
pub open spec fn spec_fifth_bit_set(b: u8) -> bool {
    b & 0x20 == 0x20
}

/// True iff `code` is a spec-conformant type code: four ASCII alphabetic
/// bytes, with the reserved bit of the third byte clear.
pub open spec fn spec_valid_code(code: Seq<u8>) -> bool {
    &&& code.len() == 4
    &&& forall|i: int| 0 <= i < 4 ==> spec_is_alphabetic(#[trigger] code[i])
    &&& !spec_fifth_bit_set(code[2])
}

/// Why a textual type code was rejected.
#[derive(Debug, Clone, Copy, PartialEq, Eq, Structural)]
pub enum ChunkTypeError {
    /// The input was not exactly 4 bytes long; carries the length found.
    LengthError(usize),
    /// The input held a byte that is not ASCII alphabetic.
    IllegalCharacter,
}

/// A type code always holds exactly four bytes.
pub broadcast proof fn lemma_code_len(ct: ChunkType)
    ensures
        (#[trigger] ct.spec_code()).len() == 4,
{
}

/// A 4-byte chunk type code.
///
/// Construction from raw bytes always succeeds structurally, so that wire
/// data with a bad code is still representable and can be rejected with a
/// specific error; `is_valid` reports conformance.
#[derive(Debug, Clone, PartialEq, Eq)]
pub struct ChunkType {
    code: [u8; 4],
}

impl ChunkType {
    /// The four bytes of this code, as a specification-level sequence.
    pub closed spec fn spec_code(&self) -> Seq<u8> {
        self.code@
    }

    /// Builds a type code from raw bytes; never fails, even when the bytes
    /// do not form a conformant code.
    pub fn from_bytes(bytes: [u8; 4]) -> (r: ChunkType)
        ensures
            r.spec_code() == bytes@,
    {
        ChunkType { code: bytes }
    }

    /// Builds a type code from text, rejecting input that is not exactly
    /// four ASCII alphabetic bytes. The reserved bit is not checked here.
    pub fn from_str(s: &str) -> (r: Result<ChunkType, ChunkTypeError>)
        ensures
            s.spec_bytes().len() != 4 ==> r == Err::<ChunkType, ChunkTypeError>(
                ChunkTypeError::LengthError(s.spec_bytes().len() as usize),
            ),
            s.spec_bytes().len() == 4 && (exists|i: int|
                0 <= i < 4 && !spec_is_alphabetic(#[trigger] s.spec_bytes()[i])) ==> r == Err::<
                ChunkType,
                ChunkTypeError,
            >(ChunkTypeError::IllegalCharacter),
            (s.spec_bytes().len() == 4 && forall|i: int|
                0 <= i < 4 ==> spec_is_alphabetic(#[trigger] s.spec_bytes()[i])) ==> (r matches Ok(
                c,
            ) && c.spec_code() == s.spec_bytes()),
    {
        let bytes = s.as_bytes();
        if bytes.len() != 4 {
            return Err(ChunkTypeError::LengthError(bytes.len()));
        }
        let mut i: usize = 0;
        while i < 4
            invariant
                0 <= i <= 4,
                bytes@.len() == 4,
                bytes@ == s.spec_bytes(),
                forall|j: int| 0 <= j < i ==> spec_is_alphabetic(#[trigger] bytes@[j]),
            decreases 4 - i,
        {
            if !Self::is_valid_byte(bytes[i]) {
                assert(!spec_is_alphabetic(s.spec_bytes()[i as int]));
                return Err(ChunkTypeError::IllegalCharacter);
            }
            i = i + 1;
        }
        let code = [bytes[0], bytes[1], bytes[2], bytes[3]];
        let r = ChunkType { code };
        assert(r.spec_code() =~= s.spec_bytes());
        Ok(r)
    }

    /// The raw bytes of this code.
    pub fn bytes(&self) -> (r: [u8; 4])
        ensures
            r@ == self.spec_code(),
    {
        self.code
    }

    /// True iff `byte` may appear in a type code: ASCII `A`-`Z` or `a`-`z`.
    pub fn is_valid_byte(byte: u8) -> (r: bool)
        ensures
            r == spec_is_alphabetic(byte),
    {
        (65 <= byte && byte <= 90) || (97 <= byte && byte <= 122)
    }

    /// True iff this code is spec-conformant: all four bytes alphabetic and
    /// the reserved bit of the third byte clear.
    pub fn is_valid(&self) -> (r: bool)
        ensures
            r == spec_valid_code(self.spec_code()),
    {
        let r = self.is_reserved_bit_valid() && Self::is_valid_byte(self.code[0])
            && Self::is_valid_byte(self.code[1]) && Self::is_valid_byte(self.code[2])
            && Self::is_valid_byte(self.code[3]);
        assert(r == spec_valid_code(self.spec_code())) by {
            assert(self.spec_code().len() == 4);
        }
        r
    }

    /// True iff the chunk is critical to the image (bit `0x20` of the first
    /// byte clear). Descriptive only; does not affect validity.
    pub fn is_critical(&self) -> (r: bool)
        ensures
            r == !spec_fifth_bit_set(self.spec_code()[0]),
    {
        (self.code[0] & 0x20) != 0x20
    }

    /// True iff the chunk is public (bit `0x20` of the second byte clear).
    /// Descriptive only; does not affect validity.
    pub fn is_public(&self) -> (r: bool)
        ensures
            r == !spec_fifth_bit_set(self.spec_code()[1]),
    {
        (self.code[1] & 0x20) != 0x20
    }

    /// True iff the reserved bit (bit `0x20` of the third byte) is clear,
    /// as a conformant code must have it.
    pub fn is_reserved_bit_valid(&self) -> (r: bool)
        ensures
            r == !spec_fifth_bit_set(self.spec_code()[2]),
    {
        (self.code[2] & 0x20) != 0x20
    }

    /// True iff the chunk is safe to copy by editors (bit `0x20` of the
    /// fourth byte set). Descriptive only; does not affect validity.
    pub fn is_safe_to_copy(&self) -> (r: bool)
        ensures
            r == spec_fifth_bit_set(self.spec_code()[3]),
    {
        (self.code[3] & 0x20) == 0x20
    }

    /// The code as text, one character per byte. Defined for codes of
    /// alphabetic bytes, as every code read from validated wire data or
    /// accepted from text has.
    pub fn to_display_string(&self) -> (r: String)
        requires
            forall|i: int| 0 <= i < 4 ==> spec_is_alphabetic(#[trigger] self.spec_code()[i]),
        ensures
            r@ == vstd::utf8::decode_utf8(self.spec_code()),
            vstd::utf8::encode_utf8(r@) == self.spec_code(),
    {
        let b = self.bytes();
        let mut v: Vec<u8> = Vec::new();
        v.push(b[0]);
        v.push(b[1]);
        v.push(b[2]);
        v.push(b[3]);
        proof {
            assert(v@ =~= self.spec_code());
            assert forall|i: int| 0 <= i < v@.len() implies #[trigger] v@[i] < 128 by {
                assert(spec_is_alphabetic(self.spec_code()[i]));
            }
            crate::text::lemma_ascii_bytes_valid_utf8(v@);
            vstd::utf8::decode_utf8_encode_utf8(v@);
        }
        let ghost vb = v@;
        match crate::text::utf8_to_string(v) {
            Some(s) => s,
            None => {
                proof {
                    assert(vstd::utf8::valid_utf8(vb));
                    assert(false);
                }
                String::new()
            },
        }
    }
}

} // verus!
