//! The text form of a command: a name followed by `name=value` arguments,
//! with `|` starting the next part of the command.
use vstd::prelude::*;
use crate::escape::{escape, unescape, unescape_value};

verus! {

/// The text of one argument: the bare name when the value is empty, else
/// `name=value` with the value escaped.
pub open spec fn arg_text(name: Seq<u8>, value: Seq<u8>) -> Seq<u8> {
    if value.len() == 0 {
        name
    } else {
        name + seq![0x3du8] + escape(value)
    }
}

/// The command text after appending one argument: a space separates it from
/// what precedes it, unless the text is empty or ends with a pipe.
pub open spec fn append_arg(content: Seq<u8>, name: Seq<u8>, value: Seq<u8>) -> Seq<u8> {
    if content.len() > 0 && content.last() != 0x7cu8 {
        content + seq![0x20u8] + arg_text(name, value)
    } else {
        content + arg_text(name, value)
    }
}

/// Bytes that separate arguments.
pub open spec fn is_space(c: u8) -> bool {
    c == 0x0bu8 || c == 0x0cu8 || c == 0x09u8 || c == 0x0du8 || c == 0x0au8 || c == 0x20u8
}

/// Bytes that end a raw value: the separators and the pipe.
pub open spec fn ends_value(c: u8) -> bool {
    is_space(c) || c == 0x7cu8
}

/// Bytes that end an argument name: space, `=` and the pipe.
pub open spec fn ends_name(c: u8) -> bool {
    c == 0x20u8 || c == 0x3du8 || c == 0x7cu8
}

/// ASCII letters and digits.
pub open spec fn is_alnum(c: u8) -> bool {
    (0x30u8 <= c && c <= 0x39u8) || (0x41u8 <= c && c <= 0x5au8) || (0x61u8 <= c && c <= 0x7au8)
}

/// The number of separator bytes at the start of `s`.
pub open spec fn leading_spaces(s: Seq<u8>) -> nat
    decreases s.len(),
{
    if s.len() > 0 && is_space(s[0]) {
        1 + leading_spaces(s.drop_first())
    } else {
        0
    }
}

/// The length of the argument name at the start of `s`.
pub open spec fn arg_name_len(s: Seq<u8>) -> nat
    decreases s.len(),
{
    if s.len() > 0 && !ends_name(s[0]) {
        1 + arg_name_len(s.drop_first())
    } else {
        0
    }
}

/// The length of the raw (still escaped) value at the start of `s`. A
/// backslash takes the byte after it into the value, unless that byte ends
/// the value.
pub open spec fn raw_value_len(s: Seq<u8>) -> nat
    decreases s.len(),
{
    if s.len() == 0 || ends_value(s[0]) {
        0
    } else if s[0] == 0x5cu8 {
        if s.len() == 1 || ends_value(s[1]) {
            1
        } else {
            2 + raw_value_len(s.skip(2))
        }
    } else {
        1 + raw_value_len(s.drop_first())
    }
}

/// The length of the run of ASCII letters and digits at the start of `s`.
pub open spec fn alnum_len(s: Seq<u8>) -> nat
    decreases s.len(),
{
    if s.len() > 0 && is_alnum(s[0]) {
        1 + alnum_len(s.drop_first())
    } else {
        0
    }
}

/// The leading separators are separators, and what follows them is not one.
pub proof fn lemma_leading_spaces(s: Seq<u8>)
    ensures
        leading_spaces(s) <= s.len(),
        leading_spaces(s) < s.len() ==> !is_space(s[leading_spaces(s) as int]),
        forall|i: int| 0 <= i < leading_spaces(s) ==> is_space(#[trigger] s[i]),
    decreases s.len(),
{
    if s.len() > 0 && is_space(s[0]) {
        lemma_leading_spaces(s.drop_first());
        assert forall|i: int| 0 <= i < leading_spaces(s) implies is_space(#[trigger] s[i]) by {
            if i > 0 {
                assert(s[i] == s.drop_first()[i - 1]);
            }
        }
    }
}

/// An argument name holds no byte that ends a name, and one follows it unless
/// the text ends.
pub proof fn lemma_arg_name_len(s: Seq<u8>)
    ensures
        arg_name_len(s) <= s.len(),
        arg_name_len(s) < s.len() ==> ends_name(s[arg_name_len(s) as int]),
        forall|i: int| 0 <= i < arg_name_len(s) ==> !ends_name(#[trigger] s[i]),
    decreases s.len(),
{
    if s.len() > 0 && !ends_name(s[0]) {
        lemma_arg_name_len(s.drop_first());
        assert forall|i: int| 0 <= i < arg_name_len(s) implies !ends_name(#[trigger] s[i]) by {
            if i > 0 {
                assert(s[i] == s.drop_first()[i - 1]);
            }
        }
    }
}

/// A raw value is no longer than the text it starts.
pub proof fn lemma_raw_value_len(s: Seq<u8>)
    ensures
        raw_value_len(s) <= s.len(),
    decreases s.len(),
{
    if s.len() > 0 && !ends_value(s[0]) {
        if s[0] == 0x5cu8 {
            if !(s.len() == 1 || ends_value(s[1])) {
                lemma_raw_value_len(s.skip(2));
            }
        } else {
            lemma_raw_value_len(s.drop_first());
        }
    }
}

/// The leading run of letters and digits, and the byte after it.
pub proof fn lemma_alnum_len(s: Seq<u8>)
    ensures
        alnum_len(s) <= s.len(),
        alnum_len(s) < s.len() ==> !is_alnum(s[alnum_len(s) as int]),
        forall|i: int| 0 <= i < alnum_len(s) ==> is_alnum(#[trigger] s[i]),
    decreases s.len(),
{
    if s.len() > 0 && is_alnum(s[0]) {
        lemma_alnum_len(s.drop_first());
        assert forall|i: int| 0 <= i < alnum_len(s) implies is_alnum(#[trigger] s[i]) by {
            if i > 0 {
                assert(s[i] == s.drop_first()[i - 1]);
            }
        }
    }
}

/// One item of a command, as the parser sees it.
pub enum Item {
    /// An argument with its name and its value, escapes resolved.
    Arg(Seq<u8>, Seq<u8>),
    /// A pipe: the start of the next part.
    Next,
}

/// The items of the argument text `s`.
pub open spec fn items(s: Seq<u8>) -> Seq<Item>
    decreases s.len(),
{
    let sp = leading_spaces(s);
    let s1 = s.skip(sp as int);
    if sp >= s.len() {
        Seq::empty()
    } else if s1[0] == 0x7cu8 {
        proof {
            lemma_leading_spaces(s);
        }
        seq![Item::Next] + items(s1.skip(1))
    } else {
        proof {
            lemma_leading_spaces(s);
            lemma_arg_name_len(s1);
        }
        let n = arg_name_len(s1);
        if n == s1.len() || s1[n as int] != 0x3du8 {
            seq![Item::Arg(s1.take(n as int), Seq::empty())] + items(s1.skip(n as int))
        } else {
            let rest = s1.skip(n + 1 as int);
            proof {
                lemma_raw_value_len(rest);
            }
            let v = raw_value_len(rest);
            seq![Item::Arg(s1.take(n as int), unescape(rest.take(v as int)))] + items(
                rest.skip(v as int),
            )
        }
    }
}

/// Where the command name of `data` ends: after the leading run of letters
/// and digits if a space or the end follows it, else at 0 (no name).
pub open spec fn command_name_len(data: Seq<u8>) -> nat {
    let k = alnum_len(data);
    if k == data.len() || data[k as int] == 0x20u8 {
        k
    } else {
        0
    }
}

/// The name and the items of a command.
pub open spec fn parse_spec(data: Seq<u8>) -> (Seq<u8>, Seq<Item>) {
    let k = command_name_len(data);
    (data.take(k as int), items(data.skip(k as int)))
}

/// An argument name that the parser reads back whole: not empty, and free of
/// separators, `=` and pipes.
pub open spec fn valid_arg_name(n: Seq<u8>) -> bool {
    &&& n.len() > 0
    &&& forall|i: int| 0 <= i < n.len() ==> !is_space(#[trigger] n[i]) && !ends_name(n[i])
}

/// A command name that the parser reads back whole: letters and digits.
pub open spec fn valid_command_name(n: Seq<u8>) -> bool {
    &&& n.len() > 0
    &&& forall|i: int| 0 <= i < n.len() ==> is_alnum(#[trigger] n[i])
}

/// Every argument of every part has a valid name.
pub open spec fn valid_arg_names(parts: Seq<Seq<(Seq<u8>, Seq<u8>)>>) -> bool {
    forall|p: int, a: int|
        0 <= p < parts.len() && 0 <= a < parts[p].len() ==> valid_arg_name(
            #[trigger] parts[p][a].0,
        )
}

/// The command text after appending the arguments `args` in order.
pub open spec fn append_args(c: Seq<u8>, args: Seq<(Seq<u8>, Seq<u8>)>) -> Seq<u8>
    decreases args.len(),
{
    if args.len() == 0 {
        c
    } else {
        append_arg(append_args(c, args.drop_last()), args.last().0, args.last().1)
    }
}

/// The command text after writing the parts `parts`, a pipe before each part
/// but the first.
pub open spec fn append_parts(c: Seq<u8>, parts: Seq<Seq<(Seq<u8>, Seq<u8>)>>) -> Seq<u8>
    decreases parts.len(),
{
    if parts.len() == 0 {
        c
    } else if parts.len() == 1 {
        append_args(c, parts[0])
    } else {
        append_args(append_parts(c, parts.drop_last()).push(0x7cu8), parts.last())
    }
}

/// The items that stand for the arguments `args`.
pub open spec fn arg_items(args: Seq<(Seq<u8>, Seq<u8>)>) -> Seq<Item> {
    args.map_values(|a: (Seq<u8>, Seq<u8>)| Item::Arg(a.0, a.1))
}

/// The items that stand for the parts `parts`, separated by `Next`.
pub open spec fn parts_items(parts: Seq<Seq<(Seq<u8>, Seq<u8>)>>) -> Seq<Item>
    decreases parts.len(),
{
    if parts.len() == 0 {
        Seq::empty()
    } else if parts.len() == 1 {
        arg_items(parts[0])
    } else {
        parts_items(parts.drop_last()) + seq![Item::Next] + arg_items(parts.last())
    }
}

/// The text of one part: each argument after a space, except the first when
/// `lead` is false.
spec fn part_body(args: Seq<(Seq<u8>, Seq<u8>)>, lead: bool) -> Seq<u8>
    decreases args.len(),
{
    if args.len() == 0 {
        Seq::empty()
    } else if args.len() == 1 && !lead {
        arg_text(args[0].0, args[0].1)
    } else {
        part_body(args.drop_last(), lead) + seq![0x20u8] + arg_text(args.last().0, args.last().1)
    }
}

spec fn parts_body(parts: Seq<Seq<(Seq<u8>, Seq<u8>)>>) -> Seq<u8>
    decreases parts.len(),
{
    if parts.len() == 0 {
        Seq::empty()
    } else if parts.len() == 1 {
        part_body(parts[0], true)
    } else {
        parts_body(parts.drop_last()) + seq![0x7cu8] + part_body(parts.last(), false)
    }
}

/// An escaped value holds no separator and no pipe, so that it reads back
/// as one value; it is at least as long as the value.
pub proof fn lemma_escape_bytes(v: Seq<u8>)
    ensures
        forall|i: int| 0 <= i < escape(v).len() ==> !ends_value(#[trigger] escape(v)[i]),
        escape(v).len() >= v.len(),
    decreases v.len(),
{
    if v.len() > 0 {
        lemma_escape_bytes(v.drop_first());
        let h = crate::escape::escape_byte(v[0]);
        let t = escape(v.drop_first());
        assert(escape(v) == h + t);
        assert forall|i: int| 0 <= i < escape(v).len() implies !ends_value(
            #[trigger] escape(v)[i],
        ) by {
            if i >= h.len() {
                assert(escape(v)[i] == t[i - h.len()]);
            }
        }
    }
}

proof fn lemma_raw_value_len_escape(v: Seq<u8>, r: Seq<u8>)
    requires
        r.len() == 0 || ends_value(r[0]),
    ensures
        raw_value_len(escape(v) + r) == escape(v).len(),
    decreases v.len(),
{
    if v.len() == 0 {
        assert(escape(v) + r =~= r);
    } else {
        let h = crate::escape::escape_byte(v[0]);
        let t = escape(v.drop_first());
        lemma_raw_value_len_escape(v.drop_first(), r);
        assert(escape(v) + r =~= h + (t + r));
        if h.len() == 2 {
            assert((h + (t + r)).skip(2) =~= t + r);
        } else {
            assert((h + (t + r)).drop_first() =~= t + r);
        }
    }
}

proof fn lemma_arg_name_len_prefix(n: Seq<u8>, y: Seq<u8>)
    requires
        forall|i: int| 0 <= i < n.len() ==> !ends_name(#[trigger] n[i]),
    ensures
        arg_name_len(n + y) == n.len() + arg_name_len(y),
    decreases n.len(),
{
    if n.len() == 0 {
        assert(n + y =~= y);
    } else {
        assert((n + y).drop_first() =~= n.drop_first() + y);
        lemma_arg_name_len_prefix(n.drop_first(), y);
    }
}

proof fn lemma_alnum_len_prefix(n: Seq<u8>, y: Seq<u8>)
    requires
        forall|i: int| 0 <= i < n.len() ==> is_alnum(#[trigger] n[i]),
    ensures
        alnum_len(n + y) == n.len() + alnum_len(y),
    decreases n.len(),
{
    if n.len() == 0 {
        assert(n + y =~= y);
    } else {
        assert((n + y).drop_first() =~= n.drop_first() + y);
        lemma_alnum_len_prefix(n.drop_first(), y);
    }
}

/// Reading one argument written with `sep` (empty or a space) before it.
proof fn lemma_items_arg(sep: Seq<u8>, n: Seq<u8>, v: Seq<u8>, r: Seq<u8>)
    requires
        sep == Seq::<u8>::empty() || sep == seq![0x20u8],
        valid_arg_name(n),
        r.len() == 0 || r[0] == 0x20u8 || r[0] == 0x7cu8,
    ensures
        items(sep + arg_text(n, v) + r) == seq![Item::Arg(n, v)] + items(r),
{
    let s = sep + arg_text(n, v) + r;
    let s1 = arg_text(n, v) + r;
    assert(s1[0] == n[0]);
    assert(!ends_name(n[0]) && !is_space(n[0]));
    assert(leading_spaces(s1) == 0);
    if sep.len() == 1 {
        assert(s.drop_first() =~= s1);
    } else {
        assert(s =~= s1);
    }
    assert(leading_spaces(s) == sep.len());
    assert(s.skip(sep.len() as int) =~= s1);
    if v.len() == 0 {
        assert(v =~= Seq::<u8>::empty());
        lemma_arg_name_len_prefix(n, r);
        assert(s1 =~= n + r);
        assert(arg_name_len(r) == 0);
        assert(s1.take(n.len() as int) =~= n);
        assert(s1.skip(n.len() as int) =~= r);
        if r.len() > 0 {
            assert(s1[n.len() as int] == r[0]);
        }
        assert(items(s) == seq![Item::Arg(s1.take(n.len() as int), Seq::empty())] + items(
            s1.skip(n.len() as int),
        ));
    } else {
        let e = escape(v);
        let y = seq![0x3du8] + e + r;
        assert(s1 =~= n + y);
        lemma_arg_name_len_prefix(n, y);
        assert(arg_name_len(y) == 0);
        assert(s1[n.len() as int] == 0x3du8);
        let rest = s1.skip(n.len() + 1 as int);
        assert(rest =~= e + r);
        lemma_raw_value_len_escape(v, r);
        crate::escape::lemma_unescape_escape(v);
        assert(rest.take(e.len() as int) =~= e);
        assert(rest.skip(e.len() as int) =~= r);
        assert(s1.take(n.len() as int) =~= n);
        assert(items(s) == seq![Item::Arg(s1.take(n.len() as int), unescape(rest.take(e.len() as int)))] + items(
            rest.skip(e.len() as int),
        ));
    }
}

proof fn lemma_items_pipe(x: Seq<u8>)
    ensures
        items(seq![0x7cu8] + x) == seq![Item::Next] + items(x),
{
    let s = seq![0x7cu8] + x;
    assert(leading_spaces(s) == 0);
    assert(s.skip(0) =~= s);
    assert(s.skip(1) =~= x);
}

/// The last byte of an argument's text is never a pipe.
proof fn lemma_arg_text_end(n: Seq<u8>, v: Seq<u8>)
    requires
        valid_arg_name(n),
    ensures
        arg_text(n, v).len() > 0,
        arg_text(n, v).last() != 0x7cu8,
{
    if v.len() > 0 {
        lemma_escape_bytes(v);
        let e = escape(v);
        assert(arg_text(n, v).last() == e[e.len() - 1]);
    } else {
        assert(!ends_name(n[n.len() - 1]));
    }
}

proof fn lemma_part_body_items(args: Seq<(Seq<u8>, Seq<u8>)>, lead: bool, r: Seq<u8>)
    requires
        forall|a: int| 0 <= a < args.len() ==> valid_arg_name(#[trigger] args[a].0),
        r.len() == 0 || r[0] == 0x20u8 || r[0] == 0x7cu8,
    ensures
        items(part_body(args, lead) + r) == arg_items(args) + items(r),
    decreases args.len(),
{
    if args.len() == 0 {
        assert(part_body(args, lead) + r =~= r);
        assert(arg_items(args) + items(r) =~= items(r));
    } else if args.len() == 1 && !lead {
        assert(valid_arg_name(args[0].0));
        assert(Seq::<u8>::empty() + arg_text(args[0].0, args[0].1) + r =~= part_body(args, lead)
            + r);
        lemma_items_arg(Seq::<u8>::empty(), args[0].0, args[0].1, r);
        assert(arg_items(args) =~= seq![Item::Arg(args[0].0, args[0].1)]);
    } else {
        let init = args.drop_last();
        let a = args.last();
        assert(valid_arg_name(args[args.len() - 1].0));
        let seg = seq![0x20u8] + arg_text(a.0, a.1) + r;
        lemma_items_arg(seq![0x20u8], a.0, a.1, r);
        assert forall|i: int| 0 <= i < init.len() implies valid_arg_name(#[trigger] init[i].0) by {
            assert(init[i] == args[i]);
        }
        lemma_part_body_items(init, lead, seg);
        assert(part_body(args, lead) + r =~= part_body(init, lead) + seg);
        assert(arg_items(args) =~= arg_items(init) + seq![Item::Arg(a.0, a.1)]);
    }
}

proof fn lemma_parts_body_items(parts: Seq<Seq<(Seq<u8>, Seq<u8>)>>, r: Seq<u8>)
    requires
        valid_arg_names(parts),
        r.len() == 0 || r[0] == 0x7cu8,
    ensures
        items(parts_body(parts) + r) == parts_items(parts) + items(r),
    decreases parts.len(),
{
    if parts.len() == 0 {
        assert(parts_body(parts) + r =~= r);
        assert(parts_items(parts) + items(r) =~= items(r));
    } else if parts.len() == 1 {
        assert forall|a: int| 0 <= a < parts[0].len() implies valid_arg_name(
            #[trigger] parts[0][a].0,
        ) by {}
        lemma_part_body_items(parts[0], true, r);
    } else {
        let init = parts.drop_last();
        let last = parts.last();
        assert forall|a: int| 0 <= a < last.len() implies valid_arg_name(
            #[trigger] last[a].0,
        ) by {
            assert(last == parts[parts.len() - 1]);
        }
        lemma_part_body_items(last, false, r);
        lemma_items_pipe(part_body(last, false) + r);
        let tail = seq![0x7cu8] + part_body(last, false) + r;
        assert(tail =~= seq![0x7cu8] + (part_body(last, false) + r));
        assert forall|p: int, a: int| 0 <= p < init.len() && 0 <= a < init[p].len() implies valid_arg_name(
            #[trigger] init[p][a].0,
        ) by {
            assert(init[p] == parts[p]);
        }
        lemma_parts_body_items(init, tail);
        assert(parts_body(parts) + r =~= parts_body(init) + tail);
        assert(parts_items(parts) + items(r) =~= parts_items(init) + (seq![Item::Next] + (arg_items(
            last,
        ) + items(r))));
    }
}

/// Appending arguments is appending the text of the part.
proof fn lemma_append_args(c: Seq<u8>, args: Seq<(Seq<u8>, Seq<u8>)>)
    requires
        forall|a: int| 0 <= a < args.len() ==> valid_arg_name(#[trigger] args[a].0),
    ensures
        append_args(c, args) == c + part_body(args, c.len() > 0 && c.last() != 0x7cu8),
        args.len() > 0 ==> append_args(c, args).len() > 0 && append_args(c, args).last() != 0x7cu8,
    decreases args.len(),
{
    let lead = c.len() > 0 && c.last() != 0x7cu8;
    if args.len() == 0 {
        assert(c + part_body(args, lead) =~= c);
    } else {
        let init = args.drop_last();
        let a = args.last();
        assert(valid_arg_name(args[args.len() - 1].0));
        assert forall|i: int| 0 <= i < init.len() implies valid_arg_name(#[trigger] init[i].0) by {
            assert(init[i] == args[i]);
        }
        lemma_append_args(c, init);
        lemma_arg_text_end(a.0, a.1);
        let prev = append_args(c, init);
        if init.len() > 0 {
            assert(prev.len() > 0 && prev.last() != 0x7cu8);
            assert(append_args(c, args) =~= c + part_body(args, lead));
        } else {
            assert(prev =~= c);
            if lead {
                assert(part_body(args, lead) =~= Seq::<u8>::empty() + seq![0x20u8] + arg_text(
                    a.0,
                    a.1,
                ));
            }
            assert(append_args(c, args) =~= c + part_body(args, lead));
        }
        let res = append_args(c, args);
        assert(res.last() == arg_text(a.0, a.1).last());
    }
}

proof fn lemma_append_parts(name: Seq<u8>, parts: Seq<Seq<(Seq<u8>, Seq<u8>)>>)
    requires
        valid_command_name(name),
        valid_arg_names(parts),
    ensures
        append_parts(name, parts) == name + parts_body(parts),
    decreases parts.len(),
{
    assert(is_alnum(name[name.len() - 1]));
    if parts.len() == 0 {
        assert(name + parts_body(parts) =~= name);
    } else if parts.len() == 1 {
        assert forall|a: int| 0 <= a < parts[0].len() implies valid_arg_name(
            #[trigger] parts[0][a].0,
        ) by {}
        lemma_append_args(name, parts[0]);
    } else {
        let init = parts.drop_last();
        let last = parts.last();
        assert forall|p: int, a: int| 0 <= p < init.len() && 0 <= a < init[p].len() implies valid_arg_name(
            #[trigger] init[p][a].0,
        ) by {
            assert(init[p] == parts[p]);
        }
        lemma_append_parts(name, init);
        assert forall|a: int| 0 <= a < last.len() implies valid_arg_name(#[trigger] last[a].0) by {
            assert(last == parts[parts.len() - 1]);
        }
        let c = append_parts(name, init).push(0x7cu8);
        lemma_append_args(c, last);
        assert(append_parts(name, parts) =~= name + parts_body(parts));
    }
}

/// Reading back a written command gives its name, and its arguments in the
/// order they were written, each part after the first preceded by `Next`.
/// The first part must not be empty when another part follows it, since the
/// pipe would then stand right after the name.
pub proof fn lemma_parse_written(name: Seq<u8>, parts: Seq<Seq<(Seq<u8>, Seq<u8>)>>)
    requires
        valid_command_name(name),
        valid_arg_names(parts),
        parts.len() <= 1 || parts[0].len() > 0,
    ensures
        parse_spec(append_parts(name, parts)) == (name, parts_items(parts)),
{
    lemma_append_parts(name, parts);
    let body = parts_body(parts);
    let data = name + body;
    lemma_parts_body_items(parts, Seq::empty());
    assert(body + Seq::<u8>::empty() =~= body);
    assert(parts_items(parts) + items(Seq::<u8>::empty()) =~= parts_items(parts));
    lemma_alnum_len_prefix(name, body);
    if body.len() > 0 {
        assert(parts.len() >= 1);
        assert(parts[0].len() > 0);
        assert(body[0] == 0x20u8) by {
            if parts.len() == 1 {
                lemma_part_body_first(parts[0]);
            } else {
                lemma_parts_body_first(parts);
            }
        }
        assert(alnum_len(body) == 0);
        assert(data[name.len() as int] == 0x20u8);
    } else {
        assert(alnum_len(body) == 0);
    }
    assert(data.take(name.len() as int) =~= name);
    assert(data.skip(name.len() as int) =~= body);
}

proof fn lemma_part_body_first(args: Seq<(Seq<u8>, Seq<u8>)>)
    requires
        args.len() > 0,
    ensures
        part_body(args, true).len() > 0,
        part_body(args, true)[0] == 0x20u8,
    decreases args.len(),
{
    let tail = seq![0x20u8] + arg_text(args.last().0, args.last().1);
    if args.len() > 1 {
        lemma_part_body_first(args.drop_last());
        let h = part_body(args.drop_last(), true);
        assert(part_body(args, true) == h + tail);
        assert((h + tail)[0] == h[0]);
    } else {
        assert(part_body(args, true) == part_body(args.drop_last(), true) + tail);
        assert(part_body(args.drop_last(), true) =~= Seq::<u8>::empty());
        assert((Seq::<u8>::empty() + tail)[0] == 0x20u8);
    }
}

proof fn lemma_parts_body_first(parts: Seq<Seq<(Seq<u8>, Seq<u8>)>>)
    requires
        parts.len() >= 1,
        parts[0].len() > 0,
    ensures
        parts_body(parts).len() > 0,
        parts_body(parts)[0] == 0x20u8,
    decreases parts.len(),
{
    if parts.len() == 1 {
        lemma_part_body_first(parts[0]);
    } else {
        lemma_parts_body_first(parts.drop_last());
    }
}

fn exec_is_space(c: u8) -> (r: bool)
    ensures
        r == is_space(c),
{
    c == 0x0bu8 || c == 0x0cu8 || c == 0x09u8 || c == 0x0du8 || c == 0x0au8 || c == 0x20u8
}

fn exec_is_alnum(c: u8) -> (r: bool)
    ensures
        r == is_alnum(c),
{
    (0x30u8 <= c && c <= 0x39u8) || (0x41u8 <= c && c <= 0x5au8) || (0x61u8 <= c && c <= 0x7au8)
}

/// The index after the separators that start at `i`.
fn skip_spaces(data: &[u8], i: usize) -> (r: usize)
    requires
        i <= data.len(),
    ensures
        r == i + leading_spaces(data@.skip(i as int)),
        r <= data.len(),
{
    let mut j = i;
    while j < data.len() && exec_is_space(data[j as usize])
        invariant
            i <= j <= data.len(),
            leading_spaces(data@.skip(i as int)) == (j - i) + leading_spaces(data@.skip(j as int)),
        decreases data.len() - j,
    {
        assert(data@.skip(j as int).drop_first() =~= data@.skip(j + 1));
        j = j + 1;
    }
    proof {
        lemma_leading_spaces(data@.skip(j as int));
    }
    j
}

/// The index where the argument name that starts at `i` ends.
fn skip_arg_name(data: &[u8], i: usize) -> (r: usize)
    requires
        i <= data.len(),
    ensures
        r == i + arg_name_len(data@.skip(i as int)),
        r <= data.len(),
{
    let mut j = i;
    while j < data.len() && !(data[j] == 0x20u8 || data[j] == 0x3du8 || data[j] == 0x7cu8)
        invariant
            i <= j <= data.len(),
            arg_name_len(data@.skip(i as int)) == (j - i) + arg_name_len(data@.skip(j as int)),
        decreases data.len() - j,
    {
        assert(data@.skip(j as int).drop_first() =~= data@.skip(j + 1));
        j = j + 1;
    }
    proof {
        lemma_arg_name_len(data@.skip(j as int));
    }
    j
}

/// The index where the raw value that starts at `i` ends.
fn skip_raw_value(data: &[u8], i: usize) -> (r: usize)
    requires
        i <= data.len(),
    ensures
        r == i + raw_value_len(data@.skip(i as int)),
        r <= data.len(),
{
    let mut j = i;
    loop
        invariant
            i <= j <= data.len(),
            raw_value_len(data@.skip(i as int)) == (j - i) + raw_value_len(data@.skip(j as int)),
        decreases data.len() - j,
    {
        proof {
            lemma_raw_value_len(data@.skip(j as int));
        }
        if j == data.len() {
            assert(data@.skip(j as int) =~= Seq::<u8>::empty());
            return j;
        }
        let c = data[j];
        assert(data@.skip(j as int)[0] == c);
        if exec_is_space(c) || c == 0x7cu8 {
            return j;
        }
        if c == 0x5cu8 {
            if j + 1 == data.len() || exec_is_space(data[j + 1]) || data[j + 1] == 0x7cu8 {
                proof {
                    if j + 1 < data.len() {
                        assert(data@.skip(j as int)[1] == data[j + 1]);
                    }
                }
                return j + 1;
            }
            assert(data@.skip(j as int).skip(2) =~= data@.skip(j + 2));
            j = j + 2;
        } else {
            assert(data@.skip(j as int).drop_first() =~= data@.skip(j + 1));
            j = j + 1;
        }
    }
}

/// A copy of `data[a..b]`.
fn copy_range(data: &[u8], a: usize, b: usize) -> (r: Vec<u8>)
    requires
        a <= b <= data.len(),
    ensures
        r@ == data@.subrange(a as int, b as int),
{
    let mut r: Vec<u8> = Vec::new();
    let mut j = a;
    while j < b
        invariant
            a <= j <= b <= data.len(),
            r@ == data@.subrange(a as int, j as int),
        decreases b - j,
    {
        r.push(data[j]);
        j = j + 1;
        assert(r@ =~= data@.subrange(a as int, j as int));
    }
    r
}

/// One item of a parsed command.
pub enum CommandItem {
    /// An argument with its name and its value, escapes resolved.
    Argument { name: Vec<u8>, value: Vec<u8> },
    /// A pipe: the start of the next part.
    NextCommand,
}

impl View for CommandItem {
    type V = Item;

    open spec fn view(&self) -> Item {
        match self {
            CommandItem::Argument { name, value } => Item::Arg(name@, value@),
            CommandItem::NextCommand => Item::Next,
        }
    }
}

/// The views of a list of items.
pub open spec fn items_view(v: Seq<CommandItem>) -> Seq<Item> {
    v.map_values(|i: CommandItem| i@)
}

/// A command split into its name and its items.
pub struct ParsedCommand {
    pub name: Vec<u8>,
    pub items: Vec<CommandItem>,
}

/// The items of `data` from index `start` on.
fn parse_items(data: &[u8], start: usize) -> (res: Vec<CommandItem>)
    requires
        start <= data.len(),
    ensures
        items_view(res@) == items(data@.skip(start as int)),
{
    let mut res: Vec<CommandItem> = Vec::new();
    let mut i = start;
    while i < data.len()
        invariant
            start <= i <= data.len(),
            items_view(res@) + items(data@.skip(i as int)) == items(data@.skip(start as int)),
        decreases data.len() - i,
    {
        let ghost s = data@.skip(i as int);
        let q = skip_spaces(data, i);
        proof {
            lemma_leading_spaces(s);
            assert(s.skip(leading_spaces(s) as int) =~= data@.skip(q as int));
        }
        if q == data.len() {
            i = q;
            proof {
                assert(items(s) =~= Seq::<Item>::empty());
                assert(items_view(res@) + Seq::<Item>::empty() =~= items_view(res@));
                assert(data@.skip(i as int) =~= Seq::<u8>::empty());
            }
            continue;
        }
        let ghost s1 = data@.skip(q as int);
        if data[q] == 0x7cu8 {
            proof {
                assert(s1.skip(1) =~= data@.skip(q + 1));
                assert(items(s) == seq![Item::Next] + items(data@.skip(q + 1)));
                assert(items_view(res@.push(CommandItem::NextCommand)) =~= items_view(res@).push(
                    Item::Next,
                ));
            }
            res.push(CommandItem::NextCommand);
            i = q + 1;
        } else {
            let ne = skip_arg_name(data, q);
            proof {
                lemma_arg_name_len(s1);
                assert(s1.take(ne - q) =~= data@.subrange(q as int, ne as int));
            }
            let name = copy_range(data, q, ne);
            if ne == data.len() || data[ne] != 0x3du8 {
                proof {
                    assert(s1.skip(ne - q) =~= data@.skip(ne as int));
                    assert(items(s) == seq![Item::Arg(name@, Seq::empty())] + items(
                        data@.skip(ne as int),
                    ));
                }
                let arg = CommandItem::Argument { name, value: Vec::new() };
                proof {
                    assert(items_view(res@.push(arg)) =~= items_view(res@).push(arg@));
                }
                res.push(arg);
                i = ne;
            } else {
                let vs = ne + 1;
                let ve = skip_raw_value(data, vs);
                let raw = copy_range(data, vs, ve);
                let value = unescape_value(raw.as_slice());
                proof {
                    let rest = s1.skip((ne - q) + 1);
                    assert(rest =~= data@.skip(vs as int));
                    assert(rest.take(ve - vs) =~= raw@);
                    assert(rest.skip(ve - vs) =~= data@.skip(ve as int));
                    assert(items(s) == seq![Item::Arg(name@, value@)] + items(
                        data@.skip(ve as int),
                    ));
                }
                let arg = CommandItem::Argument { name, value };
                proof {
                    assert(items_view(res@.push(arg)) =~= items_view(res@).push(arg@));
                }
                res.push(arg);
                i = ve;
            }
        }
    }
    proof {
        if i == data.len() {
            assert(data@.skip(i as int) =~= Seq::<u8>::empty());
            assert(items(data@.skip(i as int)) =~= Seq::<Item>::empty());
        }
        assert(items_view(res@) + Seq::<Item>::empty() =~= items_view(res@));
    }
    res
}

/// Splits a command into its name and its items.
pub fn parse(data: &[u8]) -> (res: ParsedCommand)
    ensures
        (res.name@, items_view(res.items@)) == parse_spec(data@),
{
    let mut k: usize = 0;
    proof {
        assert(data@.skip(0) =~= data@);
    }
    while k < data.len() && exec_is_alnum(data[k])
        invariant
            k <= data.len(),
            alnum_len(data@) == k + alnum_len(data@.skip(k as int)),
        decreases data.len() - k,
    {
        assert(data@.skip(k as int).drop_first() =~= data@.skip(k + 1));
        k = k + 1;
    }
    proof {
        assert(data@.skip(0) =~= data@);
        lemma_alnum_len(data@.skip(k as int));
    }
    let name_len = if k == data.len() || data[k] == 0x20u8 {
        k
    } else {
        0
    };
    let name = copy_range(data, 0, name_len);
    let items = parse_items(data, name_len);
    proof {
        assert(data@.take(name_len as int) =~= data@.subrange(0, name_len as int));
    }
    ParsedCommand { name, items }
}

/// The value that the first part gives the argument `name`: that of its last
/// occurrence before the first `Next`, going from `acc` when there is none.
pub open spec fn first_part_value_from(items: Seq<Item>, name: Seq<u8>, acc: Option<Seq<u8>>) -> Option<
    Seq<u8>,
>
    decreases items.len(),
{
    if items.len() == 0 {
        acc
    } else {
        match items[0] {
            Item::Next => acc,
            Item::Arg(n, v) => if n == name {
                first_part_value_from(items.drop_first(), name, Some(v))
            } else {
                first_part_value_from(items.drop_first(), name, acc)
            },
        }
    }
}

impl ParsedCommand {
    /// The value of the argument `name` in the first part of the command; when
    /// it occurs more than once, the last occurrence counts.
    pub fn first_part_value(&self, name: &[u8]) -> (r: Option<Vec<u8>>)
        ensures
            match r {
                Some(v) => first_part_value_from(items_view(self.items@), name@, None) == Some(v@),
                None => first_part_value_from(items_view(self.items@), name@, None) is None,
            },
    {
        let ghost all = items_view(self.items@);
        let mut acc: Option<Vec<u8>> = None;
        let mut i: usize = 0;
        proof {
            assert(all.skip(0) =~= all);
        }
        while i < self.items.len()
            invariant
                i <= self.items.len(),
                all == items_view(self.items@),
                first_part_value_from(all, name@, None) == first_part_value_from(
                    all.skip(i as int),
                    name@,
                    match acc {
                        Some(v) => Some(v@),
                        None => None,
                    },
                ),
            decreases self.items.len() - i,
        {
            let ghost rest = all.skip(i as int);
            proof {
                assert(rest[0] == self.items@[i as int]@);
                assert(rest.drop_first() =~= all.skip(i + 1));
            }
            match &self.items[i] {
                CommandItem::NextCommand => {
                    return acc;
                },
                CommandItem::Argument { name: n, value } => {
                    if bytes_equal(n.as_slice(), name) {
                        acc = Some(copy_range(value.as_slice(), 0, value.len()));
                        proof {
                            assert(value@.subrange(0, value@.len() as int) =~= value@);
                        }
                    }
                },
            }
            i = i + 1;
        }
        proof {
            assert(all.skip(i as int) =~= Seq::<Item>::empty());
        }
        acc
    }
}

/// Whether two byte strings are equal.
pub fn bytes_equal(a: &[u8], b: &[u8]) -> (r: bool)
    ensures
        r == (a@ == b@),
{
    if a.len() != b.len() {
        return false;
    }
    let mut i: usize = 0;
    while i < a.len()
        invariant
            a.len() == b.len(),
            i <= a.len(),
            forall|k: int| 0 <= k < i ==> a@[k] == b@[k],
        decreases a.len() - i,
    {
        if a[i] != b[i] {
            return false;
        }
        i = i + 1;
    }
    assert(a@ =~= b@);
    true
}

} // verus!
