//! The typed values that message arguments carry, and how one argument value
//! is read and written.
use vstd::prelude::*;
use vstd::string::StringSliceAdditionalSpecFns;
use vstd::utf8::{decode_utf8, encode_utf8, valid_utf8};
use crate::ids::ClientId;
use crate::ids::{IconId, icon_id_spec};
use crate::numbers::{
    decimal, float_syntax, format_decimal, format_signed, is_digit, is_float_text, lemma_decimal_digits, parse_signed, parse_signed_spec, parse_unsigned,
    parse_unsigned_spec, signed_decimal,
};
use crate::packets::{Direction, PacketType};
use crate::uid::{base64_encoded, copy_bytes, uid_bytes, uid_from_text, uid_to_text};
use crate::utf8::{bytes_to_string, lemma_ascii_valid_utf8, string_bytes};

verus! {

/// What type an argument of a message has.
#[derive(Clone, Copy, Debug, PartialEq, Eq, Structural)]
pub enum FieldKind {
    /// Text.
    Str,
    /// A `u32` in decimal.
    U32,
    /// A client id: a `u16` in decimal.
    ClientId,
    /// `0` or `1`.
    Bool,
    /// A `u16` in decimal.
    U16,
    /// A `u64` in decimal.
    U64,
    /// An `i32` in decimal.
    I32,
    /// An `i64` in decimal; also a point in time, as seconds since 1970.
    I64,
    /// A span of whole seconds, an `i64` whose count of milliseconds fits an
    /// `i64` too.
    Duration,
    /// A variant of an enumeration, by its number: a `u32` no larger than the
    /// number of the last variant.
    Enum(u32),
    /// An icon id, read as `IconId::parse` reads it.
    Icon,
    /// A floating-point number, kept as its text once it reads as one.
    Float,
    /// A unique id, base64 text that stands for bytes.
    Uid,
}

/// One argument that a message declares: its name on the wire, the name that
/// errors give it, its type, and whether a part may lack it.
#[derive(Clone, Copy, Debug)]
pub struct Field {
    pub name: &'static str,
    pub pretty: &'static str,
    pub kind: FieldKind,
    pub optional: bool,
}

/// The bytes of a field's name.
pub open spec fn field_name(f: Field) -> Seq<u8> {
    f.name.spec_bytes()
}

/// The value of one argument.
#[derive(Debug)]
pub enum Value {
    Str(String),
    U32(u32),
    ClientId(ClientId),
    Bool(bool),
    U16(u16),
    U64(u64),
    I32(i32),
    I64(i64),
    Bytes(Vec<u8>),
}

/// What a `Value` holds.
pub enum ValueV {
    Str(Seq<char>),
    U32(u32),
    ClientId(u16),
    Bool(bool),
    U16(u16),
    U64(u64),
    I32(i32),
    I64(i64),
    Bytes(Seq<u8>),
}

impl View for Value {
    type V = ValueV;

    open spec fn view(&self) -> ValueV {
        match self {
            Value::Str(s) => ValueV::Str(s@),
            Value::U32(n) => ValueV::U32(*n),
            Value::ClientId(c) => ValueV::ClientId(c.0),
            Value::Bool(b) => ValueV::Bool(*b),
            Value::U16(n) => ValueV::U16(*n),
            Value::U64(n) => ValueV::U64(*n),
            Value::I32(n) => ValueV::I32(*n),
            Value::I64(n) => ValueV::I64(*n),
            Value::Bytes(b) => ValueV::Bytes(b@),
        }
    }
}

/// Whether `n` seconds, counted in milliseconds, still fit an `i64`.
pub open spec fn millis_fit(n: int) -> bool {
    -0x8000_0000_0000_0000 <= n * 1000 <= 0x7fff_ffff_ffff_ffff
}

/// Whether `v` is a value that an argument of kind `k` can hold.
pub open spec fn value_fits(k: FieldKind, v: ValueV) -> bool {
    match k {
        FieldKind::Str => v is Str,
        FieldKind::U32 => v is U32,
        FieldKind::ClientId => v is ClientId,
        FieldKind::Bool => v is Bool,
        FieldKind::U16 => v is U16,
        FieldKind::U64 => v is U64,
        FieldKind::I32 => v is I32,
        FieldKind::I64 => v is I64,
        FieldKind::Duration => v matches ValueV::I64(n) && millis_fit(n as int),
        FieldKind::Enum(max) => v matches ValueV::U32(n) && n <= max,
        FieldKind::Icon => v is U32,
        FieldKind::Float => v matches ValueV::Str(t) && float_syntax(encode_utf8(t)),
        FieldKind::Uid => v is Bytes,
    }
}

pub open spec fn opt_view(o: Option<Value>) -> Option<ValueV> {
    match o {
        Some(v) => Some(v@),
        None => None,
    }
}

/// The views of a list of argument slots.
pub open spec fn slots_view(s: Seq<Option<Value>>) -> Seq<Option<ValueV>> {
    s.map_values(|o: Option<Value>| opt_view(o))
}

/// Why a message could not be read.
#[derive(Debug)]
pub enum ParseError {
    /// A part lacks an argument that it must have, and the first part does not
    /// supply it either.
    ParameterNotFound { arg: &'static str, name: &'static str },
    /// No message has this command name.
    UnknownCommand(String),
    /// A value, or the command name, is not valid UTF-8.
    InvalidUtf8,
    /// A value of an integer argument is not a number in range.
    ParseInt { arg: &'static str, value: String },
    /// A value of a boolean argument is neither `0` nor `1`.
    ParseBool { arg: &'static str, value: String },
    /// A value of a floating-point argument is not a number.
    ParseFloat { arg: &'static str, value: String },
    /// A value is a number, but not one that the argument can take.
    InvalidValue { arg: &'static str, value: String },
    /// The packet is not of the type that the message travels in.
    WrongPacketType(PacketType),
    /// The packet travels in the direction that the message never takes.
    WrongDirection(Direction),
}

/// What a `ParseError` holds.
pub enum ParseErrorV {
    ParameterNotFound { arg: &'static str, name: &'static str },
    UnknownCommand(Seq<char>),
    InvalidUtf8,
    ParseInt { arg: &'static str, value: Seq<char> },
    ParseBool { arg: &'static str, value: Seq<char> },
    ParseFloat { arg: &'static str, value: Seq<char> },
    InvalidValue { arg: &'static str, value: Seq<char> },
    WrongPacketType(PacketType),
    WrongDirection(Direction),
}

impl View for ParseError {
    type V = ParseErrorV;

    open spec fn view(&self) -> ParseErrorV {
        match self {
            ParseError::ParameterNotFound { arg, name } => ParseErrorV::ParameterNotFound {
                arg: *arg,
                name: *name,
            },
            ParseError::UnknownCommand(s) => ParseErrorV::UnknownCommand(s@),
            ParseError::InvalidUtf8 => ParseErrorV::InvalidUtf8,
            ParseError::ParseInt { arg, value } => ParseErrorV::ParseInt { arg: *arg, value: value@ },
            ParseError::ParseBool { arg, value } => ParseErrorV::ParseBool {
                arg: *arg,
                value: value@,
            },
            ParseError::ParseFloat { arg, value } => ParseErrorV::ParseFloat {
                arg: *arg,
                value: value@,
            },
            ParseError::InvalidValue { arg, value } => ParseErrorV::InvalidValue {
                arg: *arg,
                value: value@,
            },
            ParseError::WrongPacketType(t) => ParseErrorV::WrongPacketType(*t),
            ParseError::WrongDirection(d) => ParseErrorV::WrongDirection(*d),
        }
    }
}

/// How the value `bytes` of the argument `f` reads: first as UTF-8 text, then
/// as the field's type.
pub open spec fn decode_value_spec(f: Field, bytes: Seq<u8>) -> Result<ValueV, ParseErrorV> {
    if !valid_utf8(bytes) {
        Err(ParseErrorV::InvalidUtf8)
    } else {
        let text = decode_utf8(bytes);
        match f.kind {
            FieldKind::Str => Ok(ValueV::Str(text)),
            FieldKind::U32 => match parse_unsigned_spec(bytes, 0xffff_ffff) {
                Some(n) => Ok(ValueV::U32(n as u32)),
                None => Err(ParseErrorV::ParseInt { arg: f.pretty, value: text }),
            },
            FieldKind::ClientId => match parse_unsigned_spec(bytes, 0xffff) {
                Some(n) => Ok(ValueV::ClientId(n as u16)),
                None => Err(ParseErrorV::ParseInt { arg: f.pretty, value: text }),
            },
            FieldKind::Bool => if bytes == seq![0x30u8] {
                Ok(ValueV::Bool(false))
            } else if bytes == seq![0x31u8] {
                Ok(ValueV::Bool(true))
            } else {
                Err(ParseErrorV::ParseBool { arg: f.pretty, value: text })
            },
            FieldKind::U16 => match parse_unsigned_spec(bytes, 0xffff) {
                Some(n) => Ok(ValueV::U16(n as u16)),
                None => Err(ParseErrorV::ParseInt { arg: f.pretty, value: text }),
            },
            FieldKind::U64 => match parse_unsigned_spec(bytes, 0xffff_ffff_ffff_ffff) {
                Some(n) => Ok(ValueV::U64(n as u64)),
                None => Err(ParseErrorV::ParseInt { arg: f.pretty, value: text }),
            },
            FieldKind::I32 => match parse_signed_spec(bytes, 0x8000_0000, 0x7fff_ffff) {
                Some(n) => Ok(ValueV::I32(n as i32)),
                None => Err(ParseErrorV::ParseInt { arg: f.pretty, value: text }),
            },
            FieldKind::I64 => match parse_signed_spec(
                bytes,
                0x8000_0000_0000_0000,
                0x7fff_ffff_ffff_ffff,
            ) {
                Some(n) => Ok(ValueV::I64(n as i64)),
                None => Err(ParseErrorV::ParseInt { arg: f.pretty, value: text }),
            },
            FieldKind::Duration => match parse_signed_spec(
                bytes,
                0x8000_0000_0000_0000,
                0x7fff_ffff_ffff_ffff,
            ) {
                Some(n) => if millis_fit(n) {
                    Ok(ValueV::I64(n as i64))
                } else {
                    Err(
                        ParseErrorV::InvalidValue {
                            arg: f.pretty,
                            value: decode_utf8(signed_decimal(n)),
                        },
                    )
                },
                None => Err(ParseErrorV::ParseInt { arg: f.pretty, value: text }),
            },
            FieldKind::Enum(max) => match parse_unsigned_spec(bytes, 0xffff_ffff) {
                Some(n) => if n <= max {
                    Ok(ValueV::U32(n as u32))
                } else {
                    Err(ParseErrorV::InvalidValue { arg: f.pretty, value: text })
                },
                None => Err(ParseErrorV::ParseInt { arg: f.pretty, value: text }),
            },
            FieldKind::Icon => match icon_id_spec(bytes) {
                Some(n) => Ok(ValueV::U32(n)),
                None => Err(ParseErrorV::ParseInt { arg: f.pretty, value: text }),
            },
            FieldKind::Float => if float_syntax(bytes) {
                Ok(ValueV::Str(text))
            } else {
                Err(ParseErrorV::ParseFloat { arg: f.pretty, value: text })
            },
            FieldKind::Uid => Ok(ValueV::Bytes(uid_bytes(bytes))),
        }
    }
}

/// The bytes that stand for the value `v` on the wire.
pub open spec fn encode_value_spec(v: ValueV) -> Seq<u8> {
    match v {
        ValueV::Str(t) => encode_utf8(t),
        ValueV::U32(n) => decimal(n as nat),
        ValueV::ClientId(n) => decimal(n as nat),
        ValueV::Bool(b) => if b {
            seq![0x31u8]
        } else {
            seq![0x30u8]
        },
        ValueV::U16(n) => decimal(n as nat),
        ValueV::U64(n) => decimal(n as nat),
        ValueV::I32(n) => signed_decimal(n as int),
        ValueV::I64(n) => signed_decimal(n as int),
        ValueV::Bytes(b) => base64_encoded(b),
    }
}

/// Reads the value `bytes` of the argument `f`.
pub fn decode_value(f: &Field, bytes: &[u8]) -> (r: Result<Value, ParseError>)
    ensures
        match r {
            Ok(v) => decode_value_spec(*f, bytes@) == Ok::<ValueV, ParseErrorV>(v@),
            Err(e) => decode_value_spec(*f, bytes@) == Err::<ValueV, ParseErrorV>(e@),
        },
{
    let text = match bytes_to_string(bytes) {
        Some(t) => t,
        None => {
            return Err(ParseError::InvalidUtf8);
        },
    };
    match f.kind {
        FieldKind::Str => Ok(Value::Str(text)),
        FieldKind::U32 => match parse_unsigned(bytes, 0xffff_ffffu64) {
            Some(n) => Ok(Value::U32(n as u32)),
            None => Err(ParseError::ParseInt { arg: f.pretty, value: text }),
        },
        FieldKind::ClientId => match parse_unsigned(bytes, 0xffffu64) {
            Some(n) => Ok(Value::ClientId(ClientId(n as u16))),
            None => Err(ParseError::ParseInt { arg: f.pretty, value: text }),
        },
        FieldKind::Bool => {
            if bytes.len() == 1 && bytes[0] == 0x30u8 {
                assert(bytes@ =~= seq![0x30u8]);
                Ok(Value::Bool(false))
            } else if bytes.len() == 1 && bytes[0] == 0x31u8 {
                assert(bytes@ =~= seq![0x31u8]);
                Ok(Value::Bool(true))
            } else {
                assert(bytes@ != seq![0x30u8] && bytes@ != seq![0x31u8]) by {
                    if bytes@ == seq![0x30u8] || bytes@ == seq![0x31u8] {
                        assert(bytes@.len() == 1);
                    }
                }
                Err(ParseError::ParseBool { arg: f.pretty, value: text })
            }
        },
        FieldKind::U16 => match parse_unsigned(bytes, 0xffffu64) {
            Some(n) => Ok(Value::U16(n as u16)),
            None => Err(ParseError::ParseInt { arg: f.pretty, value: text }),
        },
        FieldKind::U64 => match parse_unsigned(bytes, 0xffff_ffff_ffff_ffffu64) {
            Some(n) => Ok(Value::U64(n)),
            None => Err(ParseError::ParseInt { arg: f.pretty, value: text }),
        },
        FieldKind::I32 => match parse_signed(bytes, 0x8000_0000u64, 0x7fff_ffffu64) {
            Some(n) => Ok(Value::I32(n as i32)),
            None => Err(ParseError::ParseInt { arg: f.pretty, value: text }),
        },
        FieldKind::I64 => match parse_signed(
            bytes,
            0x8000_0000_0000_0000u64,
            0x7fff_ffff_ffff_ffffu64,
        ) {
            Some(n) => Ok(Value::I64(n)),
            None => Err(ParseError::ParseInt { arg: f.pretty, value: text }),
        },
        FieldKind::Duration => match parse_signed(
            bytes,
            0x8000_0000_0000_0000u64,
            0x7fff_ffff_ffff_ffffu64,
        ) {
            Some(n) => match n.checked_mul(1000) {
                Some(_) => Ok(Value::I64(n)),
                None => Err(ParseError::InvalidValue { arg: f.pretty, value: signed_text(n) }),
            },
            None => Err(ParseError::ParseInt { arg: f.pretty, value: text }),
        },
        FieldKind::Enum(max) => match parse_unsigned(bytes, 0xffff_ffffu64) {
            Some(n) => if n <= max as u64 {
                Ok(Value::U32(n as u32))
            } else {
                Err(ParseError::InvalidValue { arg: f.pretty, value: text })
            },
            None => Err(ParseError::ParseInt { arg: f.pretty, value: text }),
        },
        FieldKind::Icon => match IconId::parse(bytes) {
            Some(id) => Ok(Value::U32(id.0)),
            None => Err(ParseError::ParseInt { arg: f.pretty, value: text }),
        },
        FieldKind::Float => if is_float_text(bytes) {
            Ok(Value::Str(text))
        } else {
            Err(ParseError::ParseFloat { arg: f.pretty, value: text })
        },
        FieldKind::Uid => Ok(Value::Bytes(uid_from_text(bytes))),
    }
}

/// The text of `n` in decimal.
fn signed_text(n: i64) -> (r: String)
    ensures
        r@ == decode_utf8(signed_decimal(n as int)),
{
    let bytes = format_signed(n);
    proof {
        lemma_signed_decimal_ascii(n as int);
    }
    match bytes_to_string(&bytes) {
        Some(t) => t,
        None => String::new(),
    }
}

/// The digits of a number, and its sign, are ASCII.
pub proof fn lemma_signed_decimal_ascii(n: int)
    ensures
        valid_utf8(signed_decimal(n)),
        forall|i: int| 0 <= i < signed_decimal(n).len() ==> #[trigger] signed_decimal(n)[i] < 0x80,
{
    let m: nat = if n < 0 { (-n) as nat } else { n as nat };
    lemma_decimal_digits(m);
    let d = decimal(m);
    let s = signed_decimal(n);
    assert forall|i: int| 0 <= i < s.len() implies #[trigger] s[i] < 0x80 by {
        if n < 0 {
            if i > 0 {
                assert(s[i] == d[i - 1]);
                assert(is_digit(d[i - 1]));
            }
        } else {
            assert(is_digit(d[i]));
        }
    }
    lemma_ascii_valid_utf8(s);
}

/// Writes the value `v` as the bytes that stand for it on the wire.
pub fn encode_value(v: &Value) -> (r: Vec<u8>)
    ensures
        r@ == encode_value_spec(v@),
{
    match v {
        Value::Str(s) => string_bytes(s),
        Value::U32(n) => format_decimal(*n as u64),
        Value::ClientId(c) => format_decimal(c.0 as u64),
        Value::Bool(b) => {
            let mut r: Vec<u8> = Vec::new();
            if *b {
                r.push(0x31u8);
            } else {
                r.push(0x30u8);
            }
            assert(r@ =~= encode_value_spec(v@));
            r
        },
        Value::U16(n) => format_decimal(*n as u64),
        Value::U64(n) => format_decimal(*n),
        Value::I32(n) => format_signed(*n as i64),
        Value::I64(n) => format_signed(*n),
        Value::Bytes(b) => uid_to_text(b.as_slice()),
    }
}

/// A copy of a value.
pub fn copy_value(v: &Value) -> (r: Value)
    ensures
        r@ == v@,
{
    match v {
        Value::Str(s) => Value::Str(s.clone()),
        Value::U32(n) => Value::U32(*n),
        Value::ClientId(c) => Value::ClientId(*c),
        Value::Bool(b) => Value::Bool(*b),
        Value::U16(n) => Value::U16(*n),
        Value::U64(n) => Value::U64(*n),
        Value::I32(n) => Value::I32(*n),
        Value::I64(n) => Value::I64(*n),
        Value::Bytes(b) => Value::Bytes(copy_bytes(b.as_slice())),
    }
}

} // verus!
