//! Turning verified byte sequences into `String`s: the UTF-8 boundary and
//! a fact about ASCII bytes that the type-code renderer needs.

use vstd::prelude::*;
use vstd::string::StringSliceAdditionalSpecFns;
use vstd::utf8::{
    decode_utf8, is_leading_byte_width_1, length_of_first_scalar, pop_first_scalar,
    valid_first_scalar, valid_utf8,
};

verus! {

/// Relies on `String::from_utf8`: by its documentation it succeeds exactly
/// when the bytes are valid UTF-8, and then holds the characters those
/// bytes encode; the failure case is folded to `None`.
#[verifier::external_body]
pub(crate) fn utf8_to_string(bytes: Vec<u8>) -> (r: Option<String>)
    ensures
        r is Some <==> valid_utf8(bytes@),
        (r matches Some(s) ==> s@ == decode_utf8(bytes@)),
{
    match String::from_utf8(bytes) {
        Ok(s) => Some(s),
        Err(_) => None,
    }
}

/// The ASCII digits of `x` in base ten, most significant first, with no
/// leading zeros (a single `0` for zero itself).
pub open spec fn spec_dec_digits(x: nat) -> Seq<u8>
    decreases x,
{
    if x < 10 {
        seq![(x + 48) as u8]
    } else {
        spec_dec_digits(x / 10).push(((x % 10) + 48) as u8)
    }
}

/// Decimal digits are the ASCII bytes `'0'` through `'9'`, and at least
/// one is always produced.
pub proof fn lemma_dec_digits_ascii(x: nat)
    ensures
        spec_dec_digits(x).len() >= 1,
        forall|i: int|
            0 <= i < spec_dec_digits(x).len() ==> 48 <= #[trigger] spec_dec_digits(x)[i] <= 57,
    decreases x,
{
    if x >= 10 {
        lemma_dec_digits_ascii(x / 10);
    }
}

/// Renders `x` in decimal, most significant digit first.
pub fn dec_bytes(x: u32) -> (r: Vec<u8>)
    ensures
        r@ == spec_dec_digits(x as nat),
    decreases x,
{
    if x < 10 {
        let mut v: Vec<u8> = Vec::new();
        v.push((x as u8) + 48);
        proof {
            assert(v@ =~= spec_dec_digits(x as nat));
        }
        v
    } else {
        let mut v = dec_bytes(x / 10);
        v.push(((x % 10) as u8) + 48);
        proof {
            assert((x / 10) as nat == (x as nat) / 10);
            assert((x % 10) as nat == (x as nat) % 10);
            assert(v@ =~= spec_dec_digits(x as nat));
        }
        v
    }
}

/// Appends the UTF-8 bytes of `s` to `out`.
pub fn push_str_bytes(out: &mut Vec<u8>, s: &str)
    ensures
        final(out)@ == old(out)@ + s.spec_bytes(),
{
    let b = s.as_bytes();
    let mut i: usize = 0;
    while i < b.len()
        invariant
            0 <= i <= b@.len(),
            b@ == s.spec_bytes(),
            out@ == old(out)@ + b@.take(i as int),
        decreases b@.len() - i,
    {
        out.push(b[i]);
        i = i + 1;
        assert(out@ =~= old(out)@ + b@.take(i as int));
    }
    assert(out@ =~= old(out)@ + s.spec_bytes());
}

/// The UTF-8 bytes of a string of ASCII characters are those characters'
/// codes, one byte each, every one below 128.
pub proof fn lemma_ascii_str_bytes(s: &str)
    requires
        vstd::utf8::is_ascii_chars(s@),
    ensures
        s.spec_bytes().len() == s@.len(),
        forall|i: int| 0 <= i < s.spec_bytes().len() ==> #[trigger] s.spec_bytes()[i] < 128,
{
    vstd::string::is_ascii_spec_bytes(s);
}

/// A sequence of ASCII bytes (each below 128) is valid UTF-8: every byte
/// stands alone as a one-byte scalar encoding.
pub proof fn lemma_ascii_bytes_valid_utf8(bytes: Seq<u8>)
    requires
        forall|i: int| 0 <= i < bytes.len() ==> #[trigger] bytes[i] < 128,
    ensures
        valid_utf8(bytes),
    decreases bytes.len(),
{
    if bytes.len() != 0 {
        let b0 = bytes[0];
        assert(b0 < 128);
        assert(is_leading_byte_width_1(b0));
        assert(b0 & 0x7F == b0) by (bit_vector)
            requires
                b0 < 128,
        ;
        assert(valid_first_scalar(bytes));
        assert(length_of_first_scalar(bytes) == 1);
        let rest = pop_first_scalar(bytes);
        assert(rest =~= bytes.drop_first());
        assert forall|i: int| 0 <= i < rest.len() implies #[trigger] rest[i] < 128 by {
            assert(rest[i] == bytes[i + 1]);
        }
        lemma_ascii_bytes_valid_utf8(rest);
    }
}

} // verus!
