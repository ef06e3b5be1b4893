//! Unique ids, which commands carry as base64 text.
use vstd::prelude::*;

verus! {

/// What `base64::decode` gives for `text`: the bytes that it encodes, or
/// nothing where it is not standard base64.
pub uninterp spec fn base64_decoded(text: Seq<u8>) -> Option<Seq<u8>>;

/// What `base64::encode` gives for `bytes`.
pub uninterp spec fn base64_encoded(bytes: Seq<u8>) -> Seq<u8>;

/// Calls `base64::decode`, which reads standard base64 (padded) and fails on
/// any other text. The contract only names the result: the bytes when it
/// succeeds, and when it fails, nothing.
#[verifier::external_body]
fn decode_base64(text: &[u8]) -> (r: Option<Vec<u8>>)
    ensures
        match r {
            Some(v) => base64_decoded(text@) == Some(v@),
            None => base64_decoded(text@) is None,
        },
{
    base64::decode(text).ok()
}

/// Calls `base64::encode`. Beside naming the result, the contract states what
/// the crate's source shows: the text is made of ASCII characters (its
/// alphabet and `=`), and `base64::decode` reads it back as the bytes.
#[verifier::external_body]
fn encode_base64(bytes: &[u8]) -> (r: Vec<u8>)
    ensures
        r@ == base64_encoded(bytes@),
        forall|i: int| 0 <= i < r@.len() ==> #[trigger] r@[i] < 0x80,
        base64_decoded(r@) == Some(bytes@),
{
    base64::encode(bytes).into_bytes()
}

/// The bytes of a unique id written as `text`: the bytes that the base64
/// text encodes, or, where the text is not base64, its own bytes.
pub open spec fn uid_bytes(text: Seq<u8>) -> Seq<u8> {
    match base64_decoded(text) {
        Some(d) => d,
        None => text,
    }
}

/// A copy of `s`.
pub fn copy_bytes(s: &[u8]) -> (r: Vec<u8>)
    ensures
        r@ == s@,
{
    let mut r: Vec<u8> = Vec::new();
    let mut i: usize = 0;
    while i < s.len()
        invariant
            i <= s.len(),
            r@ == s@.take(i as int),
        decreases s.len() - i,
    {
        r.push(s[i]);
        i = i + 1;
        assert(r@ =~= s@.take(i as int));
    }
    assert(s@.take(i as int) =~= s@);
    r
}

/// Reads the unique id written as `text`.
pub fn uid_from_text(text: &[u8]) -> (r: Vec<u8>)
    ensures
        r@ == uid_bytes(text@),
{
    match decode_base64(text) {
        Some(v) => v,
        None => copy_bytes(text),
    }
}

/// Writes the unique id `bytes` as base64 text.
pub fn uid_to_text(bytes: &[u8]) -> (r: Vec<u8>)
    ensures
        r@ == base64_encoded(bytes@),
        forall|i: int| 0 <= i < r@.len() ==> #[trigger] r@[i] < 0x80,
        uid_bytes(r@) == bytes@,
{
    encode_base64(bytes)
}

} // verus!
