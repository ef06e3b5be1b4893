//! The escaping that command values use on the wire.
use vstd::prelude::*;

verus! {

/// The bytes that stand for `c` inside an escaped value.
pub open spec fn escape_byte(c: u8) -> Seq<u8> {
    if c == 0x0bu8 {
        seq![0x5cu8, 0x76u8]  // \v
    } else if c == 0x0cu8 {
        seq![0x5cu8, 0x66u8]  // \f
    } else if c == 0x5cu8 {
        seq![0x5cu8, 0x5cu8]  // \\
    } else if c == 0x09u8 {
        seq![0x5cu8, 0x74u8]  // \t
    } else if c == 0x0du8 {
        seq![0x5cu8, 0x72u8]  // \r
    } else if c == 0x0au8 {
        seq![0x5cu8, 0x6eu8]  // \n
    } else if c == 0x7cu8 {
        seq![0x5cu8, 0x70u8]  // \p
    } else if c == 0x20u8 {
        seq![0x5cu8, 0x73u8]  // \s
    } else if c == 0x2fu8 {
        seq![0x5cu8, 0x2fu8]  // \/
    } else {
        seq![c]
    }
}

/// A value with every byte replaced by its escape.
pub open spec fn escape(s: Seq<u8>) -> Seq<u8>
    decreases s.len(),
{
    if s.len() == 0 {
        Seq::empty()
    } else {
        escape_byte(s[0]) + escape(s.drop_first())
    }
}

/// The byte that the escape sequence `\c` stands for.
pub open spec fn unescape_byte(c: u8) -> u8 {
    if c == 0x76u8 {
        0x0bu8
    } else if c == 0x66u8 {
        0x0cu8
    } else if c == 0x74u8 {
        0x09u8
    } else if c == 0x72u8 {
        0x0du8
    } else if c == 0x6eu8 {
        0x0au8
    } else if c == 0x70u8 {
        0x7cu8
    } else if c == 0x73u8 {
        0x20u8
    } else {
        c
    }
}

/// A raw value with its escape sequences resolved. A backslash at the very end
/// ends the value.
pub open spec fn unescape(s: Seq<u8>) -> Seq<u8>
    decreases s.len(),
{
    if s.len() == 0 {
        Seq::empty()
    } else if s[0] == 0x5cu8 {
        if s.len() == 1 {
            Seq::empty()
        } else {
            seq![unescape_byte(s[1])] + unescape(s.skip(2))
        }
    } else {
        seq![s[0]] + unescape(s.drop_first())
    }
}

/// Resolving the escapes of an escaped value gives back the value.
pub proof fn lemma_unescape_escape(s: Seq<u8>)
    ensures
        unescape(escape(s)) == s,
    decreases s.len(),
{
    if s.len() > 0 {
        let e = escape(s);
        let rest = escape(s.drop_first());
        lemma_unescape_escape(s.drop_first());
        let head = escape_byte(s[0]);
        assert(e == head + rest);
        if head.len() == 2 {
            assert(e.skip(2) =~= rest);
        } else {
            assert(e.drop_first() =~= rest);
        }
        assert(unescape(e) =~= s);
    }
}

/// The bytes that escaping replaces: tab, line feed, vertical tab, form
/// feed, carriage return, space, `/`, the backslash and `|`.
pub open spec fn is_special(c: u8) -> bool {
    c == 0x09u8 || c == 0x0au8 || c == 0x0bu8 || c == 0x0cu8 || c == 0x0du8 || c == 0x20u8 || c
        == 0x2fu8 || c == 0x5cu8 || c == 0x7cu8
}

/// The bytes that may not stand in an escaped value: those that end a value
/// (space and `|`) and the control bytes that are escaped.
pub open spec fn is_separator(c: u8) -> bool {
    c == 0x09u8 || c == 0x0au8 || c == 0x0bu8 || c == 0x0cu8 || c == 0x0du8 || c == 0x20u8 || c
        == 0x7cu8
}

/// Escaping a byte: a byte that is not special stays as it is; a special
/// byte becomes a backslash followed by a byte that is no separator.
pub proof fn lemma_escape_byte(c: u8)
    ensures
        !is_special(c) ==> escape_byte(c) == seq![c],
        is_special(c) ==> escape_byte(c).len() == 2 && escape_byte(c)[0] == 0x5cu8
            && !is_separator(escape_byte(c)[1]),
{
}

/// A value without special bytes is written as it is: escaping changes only
/// the special bytes.
pub proof fn lemma_escape_plain(s: Seq<u8>)
    requires
        forall|i: int| 0 <= i < s.len() ==> !is_special(#[trigger] s[i]),
    ensures
        escape(s) == s,
    decreases s.len(),
{
    if s.len() > 0 {
        lemma_escape_byte(s[0]);
        assert forall|i: int| 0 <= i < s.drop_first().len() implies !is_special(
            #[trigger] s.drop_first()[i],
        ) by {
            assert(s.drop_first()[i] == s[i + 1]);
        }
        lemma_escape_plain(s.drop_first());
        assert(escape(s) =~= s);
    }
}

/// An escaped value holds no separator, so it always reads back as one
/// value.
pub proof fn lemma_escape_no_separator(s: Seq<u8>)
    ensures
        forall|i: int| 0 <= i < escape(s).len() ==> !is_separator(#[trigger] escape(s)[i]),
    decreases s.len(),
{
    if s.len() > 0 {
        lemma_escape_byte(s[0]);
        lemma_escape_no_separator(s.drop_first());
        let h = escape_byte(s[0]);
        let r = escape(s.drop_first());
        assert forall|i: int| 0 <= i < escape(s).len() implies !is_separator(
            #[trigger] escape(s)[i],
        ) by {
            assert(escape(s) == h + r);
            if i >= h.len() {
                assert(escape(s)[i] == r[i - h.len()]);
            }
        }
    }
}

/// The length of an escaped value: one more byte for each special byte.
pub open spec fn special_count(s: Seq<u8>) -> nat
    decreases s.len(),
{
    if s.len() == 0 {
        0
    } else {
        (if is_special(s[0]) {
            1nat
        } else {
            0nat
        }) + special_count(s.drop_first())
    }
}

/// Escaping lengthens a value by exactly one byte per special byte.
pub proof fn lemma_escape_len(s: Seq<u8>)
    ensures
        escape(s).len() == s.len() + special_count(s),
    decreases s.len(),
{
    if s.len() > 0 {
        lemma_escape_byte(s[0]);
        lemma_escape_len(s.drop_first());
    }
}

/// Appends the escaped form of `value` to `out`.
pub fn escape_into(out: &mut Vec<u8>, value: &[u8])
    ensures
        final(out)@ == old(out)@ + escape(value@),
{
    let mut i: usize = 0;
    proof {
        assert(value@.skip(0) =~= value@);
    }
    while i < value.len()
        invariant
            i <= value.len(),
            out@ + escape(value@.skip(i as int)) == old(out)@ + escape(value@),
        decreases value.len() - i,
    {
        let c = value[i];
        proof {
            assert(value@.skip(i as int).drop_first() =~= value@.skip(i + 1));
        }
        if c == 0x0bu8 {
            out.push(0x5cu8);
            out.push(0x76u8);
        } else if c == 0x0cu8 {
            out.push(0x5cu8);
            out.push(0x66u8);
        } else if c == 0x5cu8 {
            out.push(0x5cu8);
            out.push(0x5cu8);
        } else if c == 0x09u8 {
            out.push(0x5cu8);
            out.push(0x74u8);
        } else if c == 0x0du8 {
            out.push(0x5cu8);
            out.push(0x72u8);
        } else if c == 0x0au8 {
            out.push(0x5cu8);
            out.push(0x6eu8);
        } else if c == 0x7cu8 {
            out.push(0x5cu8);
            out.push(0x70u8);
        } else if c == 0x20u8 {
            out.push(0x5cu8);
            out.push(0x73u8);
        } else if c == 0x2fu8 {
            out.push(0x5cu8);
            out.push(0x2fu8);
        } else {
            out.push(c);
        }
        i = i + 1;
    }
    proof {
        assert(value@.skip(i as int) =~= Seq::<u8>::empty());
    }
}

/// Resolves the escape sequences of a raw value.
pub fn unescape_value(raw: &[u8]) -> (res: Vec<u8>)
    ensures
        res@ == unescape(raw@),
{
    let mut res: Vec<u8> = Vec::new();
    let mut i: usize = 0;
    proof {
        assert(raw@.skip(0) =~= raw@);
    }
    while i < raw.len()
        invariant
            i <= raw.len(),
            res@ + unescape(raw@.skip(i as int)) == unescape(raw@),
        decreases raw.len() - i,
    {
        let c = raw[i];
        if c == 0x5cu8 {
            if i + 1 == raw.len() {
                proof {
                    assert(unescape(raw@.skip(i as int)) =~= Seq::<u8>::empty());
                    assert(res@ + Seq::<u8>::empty() =~= res@);
                }
                return res;
            }
            let d = raw[i + 1];
            let b = if d == 0x76u8 {
                0x0bu8
            } else if d == 0x66u8 {
                0x0cu8
            } else if d == 0x74u8 {
                0x09u8
            } else if d == 0x72u8 {
                0x0du8
            } else if d == 0x6eu8 {
                0x0au8
            } else if d == 0x70u8 {
                0x7cu8
            } else if d == 0x73u8 {
                0x20u8
            } else {
                d
            };
            proof {
                assert(raw@.skip(i as int).skip(2) =~= raw@.skip(i + 2));
                assert(res@.push(b) + unescape(raw@.skip(i + 2)) =~= res@ + unescape(
                    raw@.skip(i as int),
                ));
            }
            res.push(b);
            i = i + 2;
        } else {
            proof {
                assert(raw@.skip(i as int).drop_first() =~= raw@.skip(i + 1));
                assert(res@.push(c) + unescape(raw@.skip(i + 1)) =~= res@ + unescape(
                    raw@.skip(i as int),
                ));
            }
            res.push(c);
            i = i + 1;
        }
    }
    proof {
        assert(raw@.skip(i as int) =~= Seq::<u8>::empty());
        assert(res@ + Seq::<u8>::empty() =~= res@);
    }
    res
}

} // verus!
