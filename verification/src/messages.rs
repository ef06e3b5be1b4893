//! The messages of the stream feature, in both directions, and the helpers
//! that turn their typed parts into argument slots and back.
use vstd::prelude::*;
use crate::fields::{Value, ValueV, opt_view};
use crate::ids::{ClientId, IconId};
use crate::uid::copy_bytes;
use vstd::string::StringSliceAdditionalSpecFns;
use vstd::utf8::is_ascii_chars;

pub mod c2s;
pub mod s2c;

verus! {

pub open spec fn cid_slot(c: ClientId) -> Option<ValueV> {
    Some(ValueV::ClientId(c.0))
}

pub open spec fn str_slot(s: String) -> Option<ValueV> {
    Some(ValueV::Str(s@))
}

pub open spec fn u32_slot(n: u32) -> Option<ValueV> {
    Some(ValueV::U32(n))
}

pub open spec fn bool_slot(b: bool) -> Option<ValueV> {
    Some(ValueV::Bool(b))
}

pub open spec fn opt_cid_slot(o: Option<ClientId>) -> Option<ValueV> {
    match o {
        Some(c) => cid_slot(c),
        None => None,
    }
}

pub open spec fn opt_str_slot(o: Option<String>) -> Option<ValueV> {
    match o {
        Some(s) => str_slot(s),
        None => None,
    }
}

pub open spec fn opt_u32_slot(o: Option<u32>) -> Option<ValueV> {
    match o {
        Some(n) => u32_slot(n),
        None => None,
    }
}

pub open spec fn opt_bool_slot(o: Option<bool>) -> Option<ValueV> {
    match o {
        Some(b) => bool_slot(b),
        None => None,
    }
}

pub(crate) fn take_cid(s: &Option<Value>) -> (r: ClientId)
    requires
        opt_view(*s) matches Some(ValueV::ClientId(_)),
    ensures
        cid_slot(r) == opt_view(*s),
{
    match s {
        Some(Value::ClientId(c)) => *c,
        _ => ClientId(0),
    }
}

pub(crate) fn take_str(s: &Option<Value>) -> (r: String)
    requires
        opt_view(*s) matches Some(ValueV::Str(_)),
    ensures
        str_slot(r) == opt_view(*s),
{
    match s {
        Some(Value::Str(t)) => t.clone(),
        _ => String::new(),
    }
}

pub(crate) fn take_u32(s: &Option<Value>) -> (r: u32)
    requires
        opt_view(*s) matches Some(ValueV::U32(_)),
    ensures
        u32_slot(r) == opt_view(*s),
{
    match s {
        Some(Value::U32(n)) => *n,
        _ => 0,
    }
}

pub(crate) fn take_bool(s: &Option<Value>) -> (r: bool)
    requires
        opt_view(*s) matches Some(ValueV::Bool(_)),
    ensures
        bool_slot(r) == opt_view(*s),
{
    match s {
        Some(Value::Bool(b)) => *b,
        _ => false,
    }
}

pub(crate) fn take_opt_cid(s: &Option<Value>) -> (r: Option<ClientId>)
    requires
        opt_view(*s) matches Some(v) ==> v is ClientId,
    ensures
        opt_cid_slot(r) == opt_view(*s),
{
    match s {
        Some(Value::ClientId(c)) => Some(*c),
        _ => None,
    }
}

pub(crate) fn take_opt_str(s: &Option<Value>) -> (r: Option<String>)
    requires
        opt_view(*s) matches Some(v) ==> v is Str,
    ensures
        opt_str_slot(r) == opt_view(*s),
{
    match s {
        Some(Value::Str(t)) => Some(t.clone()),
        _ => None,
    }
}

pub(crate) fn take_opt_u32(s: &Option<Value>) -> (r: Option<u32>)
    requires
        opt_view(*s) matches Some(v) ==> v is U32,
    ensures
        opt_u32_slot(r) == opt_view(*s),
{
    match s {
        Some(Value::U32(n)) => Some(*n),
        _ => None,
    }
}

pub(crate) fn take_opt_bool(s: &Option<Value>) -> (r: Option<bool>)
    requires
        opt_view(*s) matches Some(v) ==> v is Bool,
    ensures
        opt_bool_slot(r) == opt_view(*s),
{
    match s {
        Some(Value::Bool(b)) => Some(*b),
        _ => None,
    }
}

pub(crate) fn put_cid(c: ClientId) -> (r: Option<Value>)
    ensures
        opt_view(r) == cid_slot(c),
{
    Some(Value::ClientId(c))
}

pub(crate) fn put_str(s: &String) -> (r: Option<Value>)
    ensures
        opt_view(r) == str_slot(*s),
{
    Some(Value::Str(s.clone()))
}

pub(crate) fn put_u32(n: u32) -> (r: Option<Value>)
    ensures
        opt_view(r) == u32_slot(n),
{
    Some(Value::U32(n))
}

pub(crate) fn put_bool(b: bool) -> (r: Option<Value>)
    ensures
        opt_view(r) == bool_slot(b),
{
    Some(Value::Bool(b))
}

pub(crate) fn put_opt_cid(o: Option<ClientId>) -> (r: Option<Value>)
    ensures
        opt_view(r) == opt_cid_slot(o),
{
    match o {
        Some(c) => Some(Value::ClientId(c)),
        None => None,
    }
}

pub(crate) fn put_opt_str(o: &Option<String>) -> (r: Option<Value>)
    ensures
        opt_view(r) == opt_str_slot(*o),
{
    match o {
        Some(s) => Some(Value::Str(s.clone())),
        None => None,
    }
}

pub(crate) fn put_opt_u32(o: Option<u32>) -> (r: Option<Value>)
    ensures
        opt_view(r) == opt_u32_slot(o),
{
    match o {
        Some(n) => Some(Value::U32(n)),
        None => None,
    }
}

pub(crate) fn put_opt_bool(o: Option<bool>) -> (r: Option<Value>)
    ensures
        opt_view(r) == opt_bool_slot(o),
{
    match o {
        Some(b) => Some(Value::Bool(b)),
        None => None,
    }
}

pub open spec fn u16_slot(n: u16) -> Option<ValueV> {
    Some(ValueV::U16(n))
}

pub open spec fn opt_u16_slot(o: Option<u16>) -> Option<ValueV> {
    match o {
        Some(n) => u16_slot(n),
        None => None,
    }
}

pub(crate) fn take_u16(s: &Option<Value>) -> (r: u16)
    requires
        opt_view(*s) matches Some(ValueV::U16(_)),
    ensures
        u16_slot(r) == opt_view(*s),
{
    match s {
        Some(Value::U16(n)) => *n,
        _ => 0,
    }
}

pub(crate) fn take_opt_u16(s: &Option<Value>) -> (r: Option<u16>)
    requires
        opt_view(*s) matches Some(v) ==> v is U16,
    ensures
        opt_u16_slot(r) == opt_view(*s),
{
    match s {
        Some(Value::U16(n)) => Some(*n),
        _ => None,
    }
}

pub open spec fn u64_slot(n: u64) -> Option<ValueV> {
    Some(ValueV::U64(n))
}

pub open spec fn opt_u64_slot(o: Option<u64>) -> Option<ValueV> {
    match o {
        Some(n) => u64_slot(n),
        None => None,
    }
}

pub(crate) fn take_u64(s: &Option<Value>) -> (r: u64)
    requires
        opt_view(*s) matches Some(ValueV::U64(_)),
    ensures
        u64_slot(r) == opt_view(*s),
{
    match s {
        Some(Value::U64(n)) => *n,
        _ => 0,
    }
}

pub(crate) fn take_opt_u64(s: &Option<Value>) -> (r: Option<u64>)
    requires
        opt_view(*s) matches Some(v) ==> v is U64,
    ensures
        opt_u64_slot(r) == opt_view(*s),
{
    match s {
        Some(Value::U64(n)) => Some(*n),
        _ => None,
    }
}

pub open spec fn i32_slot(n: i32) -> Option<ValueV> {
    Some(ValueV::I32(n))
}

pub open spec fn opt_i32_slot(o: Option<i32>) -> Option<ValueV> {
    match o {
        Some(n) => i32_slot(n),
        None => None,
    }
}

pub(crate) fn take_i32(s: &Option<Value>) -> (r: i32)
    requires
        opt_view(*s) matches Some(ValueV::I32(_)),
    ensures
        i32_slot(r) == opt_view(*s),
{
    match s {
        Some(Value::I32(n)) => *n,
        _ => 0,
    }
}

pub(crate) fn take_opt_i32(s: &Option<Value>) -> (r: Option<i32>)
    requires
        opt_view(*s) matches Some(v) ==> v is I32,
    ensures
        opt_i32_slot(r) == opt_view(*s),
{
    match s {
        Some(Value::I32(n)) => Some(*n),
        _ => None,
    }
}

pub open spec fn i64_slot(n: i64) -> Option<ValueV> {
    Some(ValueV::I64(n))
}

pub open spec fn opt_i64_slot(o: Option<i64>) -> Option<ValueV> {
    match o {
        Some(n) => i64_slot(n),
        None => None,
    }
}

pub(crate) fn take_i64(s: &Option<Value>) -> (r: i64)
    requires
        opt_view(*s) matches Some(ValueV::I64(_)),
    ensures
        i64_slot(r) == opt_view(*s),
{
    match s {
        Some(Value::I64(n)) => *n,
        _ => 0,
    }
}

pub(crate) fn take_opt_i64(s: &Option<Value>) -> (r: Option<i64>)
    requires
        opt_view(*s) matches Some(v) ==> v is I64,
    ensures
        opt_i64_slot(r) == opt_view(*s),
{
    match s {
        Some(Value::I64(n)) => Some(*n),
        _ => None,
    }
}

/// An icon id sits in its slot as its number.
pub open spec fn icon_slot(i: IconId) -> Option<ValueV> {
    Some(ValueV::U32(i.0))
}

pub open spec fn opt_icon_slot(o: Option<IconId>) -> Option<ValueV> {
    match o {
        Some(i) => icon_slot(i),
        None => None,
    }
}

pub(crate) fn take_icon(s: &Option<Value>) -> (r: IconId)
    requires
        opt_view(*s) matches Some(ValueV::U32(_)),
    ensures
        icon_slot(r) == opt_view(*s),
{
    match s {
        Some(Value::U32(n)) => IconId(*n),
        _ => IconId(0),
    }
}

pub(crate) fn take_opt_icon(s: &Option<Value>) -> (r: Option<IconId>)
    requires
        opt_view(*s) matches Some(v) ==> v is U32,
    ensures
        opt_icon_slot(r) == opt_view(*s),
{
    match s {
        Some(Value::U32(n)) => Some(IconId(*n)),
        _ => None,
    }
}

/// A unique id sits in its slot as its bytes.
pub open spec fn bytes_slot(b: Vec<u8>) -> Option<ValueV> {
    Some(ValueV::Bytes(b@))
}

pub open spec fn opt_bytes_slot(o: Option<Vec<u8>>) -> Option<ValueV> {
    match o {
        Some(b) => bytes_slot(b),
        None => None,
    }
}

pub(crate) fn take_opt_bytes(s: &Option<Value>) -> (r: Option<Vec<u8>>)
    requires
        opt_view(*s) matches Some(v) ==> v is Bytes,
    ensures
        opt_bytes_slot(r) == opt_view(*s),
{
    match s {
        Some(Value::Bytes(b)) => Some(copy_bytes(b.as_slice())),
        _ => None,
    }
}

/// The text of an optional string.
pub open spec fn opt_text(o: Option<String>) -> Option<Seq<char>> {
    match o {
        Some(s) => Some(s@),
        None => None,
    }
}

/// The bytes of a text made of lowercase letters and underscores: one per
/// character, each a lowercase letter or an underscore.
pub proof fn lemma_ascii_str(s: &str)
    requires
        forall|i: int| 0 <= i < s@.len() ==> ('a' <= #[trigger] s@[i] <= 'z') || s@[i] == '_',
    ensures
        s.spec_bytes().len() == s@.len(),
        forall|i: int|
            0 <= i < s@.len() ==> (0x61u8 <= #[trigger] s.spec_bytes()[i] <= 0x7au8)
                || s.spec_bytes()[i] == 0x5fu8,
{
    assert(is_ascii_chars(s@));
    vstd::utf8::is_ascii_chars_encode_utf8(s@);
    assert forall|i: int| 0 <= i < s@.len() implies (0x61u8 <= #[trigger] s.spec_bytes()[i] <= 0x7au8)
        || s.spec_bytes()[i] == 0x5fu8 by {
        assert(s.spec_bytes()[i] == s@[i] as u8);
    }
}

/// The bytes of a text made of lowercase letters are lowercase letters.
pub proof fn lemma_lowercase_str(s: &str)
    requires
        forall|i: int| 0 <= i < s@.len() ==> 'a' <= #[trigger] s@[i] <= 'z',
    ensures
        s.spec_bytes().len() == s@.len(),
        forall|i: int| 0 <= i < s@.len() ==> 0x61u8 <= #[trigger] s.spec_bytes()[i] <= 0x7au8,
{
    assert(is_ascii_chars(s@));
    vstd::utf8::is_ascii_chars_encode_utf8(s@);
    assert forall|i: int| 0 <= i < s@.len() implies 0x61u8 <= #[trigger] s.spec_bytes()[i]
        <= 0x7au8 by {
        assert(s.spec_bytes()[i] == s@[i] as u8);
    }
}

/// Texts that differ have different bytes.
pub proof fn lemma_str_bytes_differ(s: &str, t: &str)
    requires
        s@ != t@,
    ensures
        s.spec_bytes() != t.spec_bytes(),
{
    vstd::utf8::encode_utf8_decode_utf8(s@);
    vstd::utf8::encode_utf8_decode_utf8(t@);
}

} // verus!
