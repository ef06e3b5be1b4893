//! Identifiers carried by commands.
use vstd::prelude::*;
use crate::numbers::{parse_digits, parse_i32_spec, parse_unsigned, parse_unsigned_spec};

verus! {

/// The id of a client on a server.
#[derive(Clone, Copy, Debug, PartialEq, Eq, Structural)]
pub struct ClientId(pub u16);

/// The id of an icon.
#[derive(Clone, Copy, Debug, PartialEq, Eq, Structural)]
pub struct IconId(pub u32);

/// How an icon id value reads: with a leading `-` as an `i32`, else as a
/// `u64`; either way the number taken modulo 2^32.
pub open spec fn icon_id_spec(s: Seq<u8>) -> Option<u32> {
    if s.len() > 0 && s[0] == 0x2du8 {
        match parse_i32_spec(s) {
            Some(i) => Some((i % 0x1_0000_0000) as u32),
            None => None,
        }
    } else {
        match parse_unsigned_spec(s, 0xffff_ffff_ffff_ffff) {
            Some(v) => Some((v % 0x1_0000_0000) as u32),
            None => None,
        }
    }
}

impl IconId {
    /// Reads an icon id value. Servers send ids above `i32::MAX` both as
    /// negative numbers and as numbers beyond 32 bits; both fold onto the same
    /// 32-bit id.
    pub fn parse(value: &[u8]) -> (r: Option<IconId>)
        ensures
            match r {
                Some(id) => icon_id_spec(value@) == Some(id.0),
                None => icon_id_spec(value@) is None,
            },
    {
        if value.len() > 0 && value[0] == 0x2du8 {
            proof {
                assert(value@.skip(1) =~= value@.drop_first());
            }
            match parse_digits(value, 1, 0x8000_0000) {
                Some(v) => {
                    let id: u32 = if v == 0 {
                        0
                    } else {
                        (0x1_0000_0000u64 - v) as u32
                    };
                    proof {
                        let i = -(v as int);
                        if v == 0 {
                            assert(i % 0x1_0000_0000 == 0);
                        } else {
                            assert(i % 0x1_0000_0000 == 0x1_0000_0000 - v) by (nonlinear_arith)
                                requires
                                    i == -(v as int),
                                    0 < v <= 0x8000_0000,
                            ;
                        }
                    }
                    Some(IconId(id))
                },
                None => None,
            }
        } else {
            match parse_unsigned(value, 0xffff_ffff_ffff_ffffu64) {
                Some(v) => Some(IconId((v % 0x1_0000_0000u64) as u32)),
                None => None,
            }
        }
    }
}

} // verus!
