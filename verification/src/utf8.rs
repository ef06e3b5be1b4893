//! Text as UTF-8 bytes.
use vstd::prelude::*;
use vstd::string::StringSliceAdditionalSpecFns;
use vstd::utf8::{
    decode_utf8, encode_utf8, is_leading_byte_width_1, pop_first_scalar, valid_utf8,
};

verus! {

broadcast use {vstd::utf8::encode_utf8_decode_utf8, vstd::utf8::decode_utf8_encode_utf8};

/// Calls `std::str::from_utf8`, which, as its documentation says, returns the
/// string slice when the bytes are valid UTF-8 and an error otherwise. The
/// contract claims exactly that: `Some` if and only if the bytes are valid
/// UTF-8, and then a string whose UTF-8 encoding is the bytes.
#[verifier::external_body]
fn str_from_utf8(v: &[u8]) -> (r: Option<&str>)
    ensures
        r is Some <==> valid_utf8(v@),
        r matches Some(s) ==> s.spec_bytes() == v@,
{
    std::str::from_utf8(v).ok()
}

/// The text that the bytes `v` encode, if they are valid UTF-8.
pub fn bytes_to_string(v: &[u8]) -> (r: Option<String>)
    ensures
        r is Some <==> valid_utf8(v@),
        r matches Some(s) ==> s@ == decode_utf8(v@),
{
    match str_from_utf8(v) {
        Some(s) => {
            let owned = s.to_owned();
            proof {
                assert(decode_utf8(encode_utf8(s@)) == s@);
            }
            Some(owned)
        },
        None => None,
    }
}

/// The UTF-8 bytes of a string, as a new vector.
pub fn string_bytes(s: &String) -> (r: Vec<u8>)
    ensures
        r@ == encode_utf8(s@),
{
    let b = s.as_str().as_bytes();
    let mut r: Vec<u8> = Vec::new();
    let mut i: usize = 0;
    while i < b.len()
        invariant
            i <= b@.len(),
            r@ == b@.take(i as int),
        decreases b.len() - i,
    {
        r.push(b[i]);
        i = i + 1;
        assert(r@ =~= b@.take(i as int));
    }
    assert(b@.take(i as int) =~= b@);
    r
}

/// Bytes below 0x80 are valid UTF-8.
pub proof fn lemma_ascii_valid_utf8(bytes: Seq<u8>)
    requires
        forall|i: int| 0 <= i < bytes.len() ==> #[trigger] bytes[i] < 0x80,
    ensures
        valid_utf8(bytes),
    decreases bytes.len(),
{
    if bytes.len() > 0 {
        let b = bytes[0];
        assert(b < 0x80);
        assert(is_leading_byte_width_1(b));
        assert((b & 0x7f) as u32 <= 0x7f) by (bit_vector);
        assert(pop_first_scalar(bytes) =~= bytes.drop_first());
        assert forall|i: int| 0 <= i < bytes.drop_first().len() implies #[trigger] bytes.drop_first()[i]
            < 0x80 by {
            assert(bytes.drop_first()[i] == bytes[i + 1]);
        }
        lemma_ascii_valid_utf8(bytes.drop_first());
    }
}

} // verus!
