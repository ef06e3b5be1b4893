//! Reading and writing the parts of a message, driven by the list of fields
//! that the message declares.
use vstd::prelude::*;
use vstd::string::StringSliceAdditionalSpecFns;
use vstd::utf8::valid_utf8;
use crate::commands::{
    CommandItem, Item, append_args, append_parts, arg_items, bytes_equal, items_view, valid_arg_name,
};
use crate::fields::{
    Field, FieldKind, ParseError, ParseErrorV, Value, ValueV, copy_value, decode_value,
    decode_value_spec, encode_value, encode_value_spec, field_name, lemma_signed_decimal_ascii, opt_view, slots_view, value_fits,
};
use crate::numbers::{lemma_decimal_digits, lemma_parse_decimal, lemma_parse_signed_decimal};
use crate::packets::OutCommand;
use crate::utf8::lemma_ascii_valid_utf8;

verus! {

/// The index of the first field from `k` on whose name is `name`.
pub open spec fn find_field_from(fields: Seq<Field>, name: Seq<u8>, k: int) -> Option<int>
    decreases fields.len() - k,
{
    if k < 0 || k >= fields.len() {
        None
    } else if field_name(fields[k]) == name {
        Some(k)
    } else {
        find_field_from(fields, name, k + 1)
    }
}

/// The index of the field whose name is `name`, if the message has one.
pub open spec fn find_field(fields: Seq<Field>, name: Seq<u8>) -> Option<int> {
    find_field_from(fields, name, 0)
}

/// `n` empty slots.
pub open spec fn none_slots(n: nat) -> Seq<Option<ValueV>> {
    Seq::new(n, |j: int| None)
}

/// A finished part: the values that it gave, and for the others those of the
/// first part, if there is one.
pub open spec fn finish_part(
    cur: Seq<Option<ValueV>>,
    parts: Seq<Seq<Option<ValueV>>>,
) -> Seq<Option<ValueV>> {
    Seq::new(
        cur.len(),
        |j: int|
            if cur[j] is Some {
                cur[j]
            } else if parts.len() > 0 {
                parts[0][j]
            } else {
                None
            },
    )
}

/// The first field from `k` on that a part must have and `part` lacks.
pub open spec fn missing_from(fields: Seq<Field>, part: Seq<Option<ValueV>>, k: int) -> Option<int>
    decreases fields.len() - k,
{
    if k < 0 || k >= fields.len() {
        None
    } else if !fields[k].optional && part[k] is None {
        Some(k)
    } else {
        missing_from(fields, part, k + 1)
    }
}

/// Ends the current part: fills it from the first part and checks that it has
/// every field that it must have.
pub open spec fn close_part(
    fields: Seq<Field>,
    msg: &'static str,
    cur: Seq<Option<ValueV>>,
    parts: Seq<Seq<Option<ValueV>>>,
) -> Result<Seq<Seq<Option<ValueV>>>, ParseErrorV> {
    let p = finish_part(cur, parts);
    match missing_from(fields, p, 0) {
        Some(j) => Err(ParseErrorV::ParameterNotFound { arg: fields[j].pretty, name: msg }),
        None => Ok(parts.push(p)),
    }
}

/// Reads `items` into parts, going from the state `cur` (the values of the
/// part being read) and `parts` (the parts already read). Arguments that the
/// message does not declare are passed over; a later argument of the same name
/// replaces an earlier one; the end of the items closes the last part.
pub open spec fn decode_items(
    fields: Seq<Field>,
    msg: &'static str,
    items: Seq<Item>,
    cur: Seq<Option<ValueV>>,
    parts: Seq<Seq<Option<ValueV>>>,
) -> Result<Seq<Seq<Option<ValueV>>>, ParseErrorV>
    decreases items.len(),
{
    if items.len() == 0 {
        close_part(fields, msg, cur, parts)
    } else {
        match items[0] {
            Item::Next => match close_part(fields, msg, cur, parts) {
                Ok(ps) => decode_items(
                    fields,
                    msg,
                    items.drop_first(),
                    none_slots(fields.len()),
                    ps,
                ),
                Err(e) => Err(e),
            },
            Item::Arg(n, v) => match find_field(fields, n) {
                None => decode_items(fields, msg, items.drop_first(), cur, parts),
                Some(j) => match decode_value_spec(fields[j], v) {
                    Ok(x) => decode_items(
                        fields,
                        msg,
                        items.drop_first(),
                        cur.update(j, Some(x)),
                        parts,
                    ),
                    Err(e) => Err(e),
                },
            },
        }
    }
}

/// The parts of the message `msg`, with fields `fields`, that `items` hold.
pub open spec fn decode_parts_spec(fields: Seq<Field>, msg: &'static str, items: Seq<Item>) -> Result<
    Seq<Seq<Option<ValueV>>>,
    ParseErrorV,
> {
    decode_items(fields, msg, items, none_slots(fields.len()), Seq::empty())
}

/// The views of a list of parts.
pub open spec fn parts_view(ps: Seq<Vec<Option<Value>>>) -> Seq<Seq<Option<ValueV>>> {
    ps.map_values(|p: Vec<Option<Value>>| slots_view(p@))
}

/// A slot holds a value of its field's type, and only an optional field may
/// be empty.
pub open spec fn slot_fits(f: Field, s: Option<ValueV>) -> bool {
    match s {
        Some(v) => value_fits(f.kind, v),
        None => f.optional,
    }
}

/// A part has one slot per field and each slot fits its field.
pub open spec fn part_fits(fields: Seq<Field>, p: Seq<Option<ValueV>>) -> bool {
    &&& p.len() == fields.len()
    &&& forall|j: int| 0 <= j < fields.len() ==> slot_fits(fields[j], #[trigger] p[j])
}

fn find_field_exec(fields: &Vec<Field>, name: &[u8]) -> (r: Option<usize>)
    ensures
        match r {
            Some(j) => find_field(fields@, name@) == Some(j as int) && j < fields.len(),
            None => find_field(fields@, name@) is None,
        },
{
    let mut k: usize = 0;
    while k < fields.len()
        invariant
            k <= fields.len(),
            find_field(fields@, name@) == find_field_from(fields@, name@, k as int),
        decreases fields.len() - k,
    {
        if bytes_equal(fields[k].name.as_bytes(), name) {
            return Some(k);
        }
        k = k + 1;
    }
    None
}

fn copy_slot(s: &Option<Value>) -> (r: Option<Value>)
    ensures
        opt_view(r) == opt_view(*s),
{
    match s {
        Some(v) => Some(copy_value(v)),
        None => None,
    }
}

fn empty_slots(n: usize) -> (r: Vec<Option<Value>>)
    ensures
        slots_view(r@) == none_slots(n as nat),
{
    let mut r: Vec<Option<Value>> = Vec::new();
    let mut i: usize = 0;
    while i < n
        invariant
            i <= n,
            r@.len() == i,
            forall|k: int| 0 <= k < i ==> #[trigger] r@[k] is None,
        decreases n - i,
    {
        r.push(None);
        i = i + 1;
    }
    assert(slots_view(r@) =~= none_slots(i as nat));
    r
}

/// Closes the current part; on success pushes it to `parts`.
fn close_part_exec(
    fields: &Vec<Field>,
    msg: &'static str,
    cur: &Vec<Option<Value>>,
    parts: &mut Vec<Vec<Option<Value>>>,
) -> (r: Result<(), ParseError>)
    requires
        cur.len() == fields.len(),
        forall|i: int| 0 <= i < old(parts)@.len() ==> #[trigger] old(parts)@[i].len() == fields.len(),
    ensures
        match r {
            Ok(()) => close_part(fields@, msg, slots_view(cur@), parts_view(old(parts)@)) == Ok::<
                Seq<Seq<Option<ValueV>>>,
                ParseErrorV,
            >(parts_view(final(parts)@)),
            Err(e) => close_part(fields@, msg, slots_view(cur@), parts_view(old(parts)@)) == Err::<
                Seq<Seq<Option<ValueV>>>,
                ParseErrorV,
            >(e@),
        },
        forall|i: int| 0 <= i < final(parts)@.len() ==> #[trigger] final(parts)@[i].len() == fields.len(),
{
    let ghost pv = parts_view(parts@);
    let ghost cv = slots_view(cur@);
    let ghost fin = finish_part(cv, pv);
    let mut p: Vec<Option<Value>> = Vec::new();
    let mut j: usize = 0;
    while j < cur.len()
        invariant
            j <= cur.len(),
            cur.len() == fields.len(),
            pv == parts_view(parts@),
            cv == slots_view(cur@),
            fin == finish_part(cv, pv),
            parts@ == old(parts)@,
            forall|i: int| 0 <= i < parts@.len() ==> #[trigger] parts@[i].len() == fields.len(),
            p@.len() == j,
            slots_view(p@) == fin.take(j as int),
        decreases cur.len() - j,
    {
        let s = match &cur[j] {
            Some(v) => Some(copy_value(v)),
            None => {
                if parts.len() > 0 {
                    assert(parts@[0].len() == fields.len());
                    copy_slot(&parts[0][j])
                } else {
                    None
                }
            },
        };
        proof {
            assert(cv[j as int] == opt_view(cur@[j as int]));
            if parts@.len() > 0 {
                assert(parts@[0].len() == fields.len());
                assert(pv[0] == slots_view(parts@[0]@));
                assert(pv[0][j as int] == opt_view(parts@[0]@[j as int]));
            }
            assert(opt_view(s) == fin[j as int]);
        }
        let ghost before = slots_view(p@);
        p.push(s);
        j = j + 1;
        proof {
            assert(slots_view(p@) =~= before.push(opt_view(s)));
            assert(fin.take(j as int) =~= fin.take(j - 1).push(fin[j - 1]));
        }
    }
    assert(fin.take(j as int) =~= fin);
    let mut k: usize = 0;
    while k < fields.len()
        invariant
            k <= fields.len(),
            p.len() == fields.len(),
            slots_view(p@) == fin,
            pv == parts_view(parts@),
            cv == slots_view(cur@),
            fin == finish_part(cv, pv),
            parts@ == old(parts)@,
            forall|i: int| 0 <= i < parts@.len() ==> #[trigger] parts@[i].len() == fields.len(),
            missing_from(fields@, fin, 0) == missing_from(fields@, fin, k as int),
        decreases fields.len() - k,
    {
        if !fields[k].optional && p[k].is_none() {
            assert(fin[k as int] == opt_view(p@[k as int]));
            return Err(ParseError::ParameterNotFound { arg: fields[k].pretty, name: msg });
        }
        assert(fin[k as int] == opt_view(p@[k as int]));
        k = k + 1;
    }
    let ghost old_parts = parts@;
    parts.push(p);
    proof {
        assert(parts_view(parts@) =~= pv.push(fin));
    }
    Ok(())
}

/// Reads the parts of the message `msg`, with fields `fields`, from `items`.
pub fn decode_parts(fields: &Vec<Field>, msg: &'static str, items: &Vec<CommandItem>) -> (r: Result<
    Vec<Vec<Option<Value>>>,
    ParseError,
>)
    ensures
        match r {
            Ok(ps) => decode_parts_spec(fields@, msg, items_view(items@)) == Ok::<
                Seq<Seq<Option<ValueV>>>,
                ParseErrorV,
            >(parts_view(ps@)),
            Err(e) => decode_parts_spec(fields@, msg, items_view(items@)) == Err::<
                Seq<Seq<Option<ValueV>>>,
                ParseErrorV,
            >(e@),
        },
{
    let ghost all = items_view(items@);
    let mut cur = empty_slots(fields.len());
    let mut parts: Vec<Vec<Option<Value>>> = Vec::new();
    let mut i: usize = 0;
    proof {
        assert(all.skip(0) =~= all);
        assert(parts_view(parts@) =~= Seq::<Seq<Option<ValueV>>>::empty());
    }
    while i < items.len()
        invariant
            i <= items.len(),
            all == items_view(items@),
            cur.len() == fields.len(),
            forall|k: int| 0 <= k < parts@.len() ==> #[trigger] parts@[k].len() == fields.len(),
            decode_parts_spec(fields@, msg, all) == decode_items(
                fields@,
                msg,
                all.skip(i as int),
                slots_view(cur@),
                parts_view(parts@),
            ),
        decreases items.len() - i,
    {
        let ghost rest = all.skip(i as int);
        proof {
            assert(rest[0] == items@[i as int]@);
            assert(rest.drop_first() =~= all.skip(i + 1));
        }
        match &items[i] {
            CommandItem::NextCommand => {
                match close_part_exec(fields, msg, &cur, &mut parts) {
                    Ok(()) => {},
                    Err(e) => {
                        return Err(e);
                    },
                }
                cur = empty_slots(fields.len());
            },
            CommandItem::Argument { name, value } => {
                match find_field_exec(fields, name.as_slice()) {
                    None => {},
                    Some(j) => {
                        match decode_value(&fields[j], value.as_slice()) {
                            Ok(x) => {
                                let ghost xv = x@;
                                let ghost before = slots_view(cur@);
                                cur.set(j, Some(x));
                                proof {
                                    assert(slots_view(cur@) =~= before.update(j as int, Some(xv)));
                                }
                            },
                            Err(e) => {
                                return Err(e);
                            },
                        }
                    },
                }
            },
        }
        i = i + 1;
    }
    proof {
        assert(all.skip(i as int) =~= Seq::<Item>::empty());
    }
    match close_part_exec(fields, msg, &cur, &mut parts) {
        Ok(()) => Ok(parts),
        Err(e) => Err(e),
    }
}

proof fn lemma_find_field_from(fields: Seq<Field>, name: Seq<u8>, k: int)
    ensures
        find_field_from(fields, name, k) matches Some(j) ==> k <= j < fields.len() && field_name(
            fields[j],
        ) == name,
        forall|j: int|
            0 <= k <= j < fields.len() && field_name(fields[j]) == name ==> find_field_from(
                fields,
                name,
                k,
            ) is Some,
    decreases fields.len() - k,
{
    if 0 <= k < fields.len() && field_name(fields[k]) != name {
        lemma_find_field_from(fields, name, k + 1);
    }
}

proof fn lemma_missing_from(fields: Seq<Field>, part: Seq<Option<ValueV>>, k: int)
    requires
        0 <= k,
    ensures
        missing_from(fields, part, k) is None ==> forall|j: int|
            k <= j < fields.len() ==> fields[j].optional || part[j] is Some,
        missing_from(fields, part, k) matches Some(j) ==> k <= j < fields.len(),
    decreases fields.len() - k,
{
    if k < fields.len() {
        lemma_missing_from(fields, part, k + 1);
    }
}

proof fn lemma_decode_value_kind(f: Field, bytes: Seq<u8>)
    ensures
        decode_value_spec(f, bytes) matches Ok(x) ==> value_fits(f.kind, x),
{
    if valid_utf8(bytes) {
        vstd::utf8::decode_utf8_encode_utf8(bytes);
    }
}

/// The slots of the part being read hold values of their fields' types.
pub open spec fn slots_typed(fields: Seq<Field>, cur: Seq<Option<ValueV>>) -> bool {
    &&& cur.len() == fields.len()
    &&& forall|j: int|
        0 <= j < fields.len() ==> (#[trigger] cur[j] matches Some(v) ==> value_fits(
            fields[j].kind,
            v,
        ))
}

proof fn lemma_close_part_fits(
    fields: Seq<Field>,
    msg: &'static str,
    cur: Seq<Option<ValueV>>,
    parts: Seq<Seq<Option<ValueV>>>,
)
    requires
        slots_typed(fields, cur),
        forall|i: int| 0 <= i < parts.len() ==> part_fits(fields, #[trigger] parts[i]),
    ensures
        close_part(fields, msg, cur, parts) matches Ok(ps) ==> ps.len() == parts.len() + 1 && (
        forall|i: int| 0 <= i < ps.len() ==> part_fits(fields, #[trigger] ps[i])),
{
    let p = finish_part(cur, parts);
    lemma_missing_from(fields, p, 0);
    if missing_from(fields, p, 0) is None {
        assert(part_fits(fields, p)) by {
            assert forall|j: int| 0 <= j < fields.len() implies slot_fits(fields[j], #[trigger] p[j]) by {
                if cur[j] is None && parts.len() > 0 {
                    assert(part_fits(fields, parts[0]));
                    assert(slot_fits(fields[j], parts[0][j]));
                }
            }
        }
        let ps = parts.push(p);
        assert forall|i: int| 0 <= i < ps.len() implies part_fits(fields, #[trigger] ps[i]) by {
            if i < parts.len() {
                assert(ps[i] == parts[i]);
            }
        }
    }
}

/// Whatever the items, the parts read from them all fit the fields, and there
/// is at least one.
pub proof fn lemma_decode_items_fits(
    fields: Seq<Field>,
    msg: &'static str,
    items: Seq<Item>,
    cur: Seq<Option<ValueV>>,
    parts: Seq<Seq<Option<ValueV>>>,
)
    requires
        slots_typed(fields, cur),
        forall|i: int| 0 <= i < parts.len() ==> part_fits(fields, #[trigger] parts[i]),
    ensures
        decode_items(fields, msg, items, cur, parts) matches Ok(ps) ==> ps.len() > 0 && (forall|
            i: int,
        | 0 <= i < ps.len() ==> part_fits(fields, #[trigger] ps[i])),
    decreases items.len(),
{
    lemma_close_part_fits(fields, msg, cur, parts);
    if items.len() > 0 {
        match items[0] {
            Item::Next => {
                if let Ok(ps) = close_part(fields, msg, cur, parts) {
                    let e = none_slots(fields.len());
                    assert(slots_typed(fields, e));
                    lemma_decode_items_fits(fields, msg, items.drop_first(), e, ps);
                }
            },
            Item::Arg(n, v) => {
                lemma_find_field_from(fields, n, 0);
                match find_field(fields, n) {
                    None => {
                        lemma_decode_items_fits(fields, msg, items.drop_first(), cur, parts);
                    },
                    Some(j) => {
                        lemma_decode_value_kind(fields[j], v);
                        if let Ok(x) = decode_value_spec(fields[j], v) {
                            let c2 = cur.update(j, Some(x));
                            assert(slots_typed(fields, c2)) by {
                                assert forall|k: int| 0 <= k < fields.len() implies (
                                #[trigger] c2[k] matches Some(w) ==> value_fits(fields[k].kind, w)) by {
                                    if k != j {
                                        assert(c2[k] == cur[k]);
                                    }
                                }
                            }
                            lemma_decode_items_fits(fields, msg, items.drop_first(), c2, parts);
                        }
                    },
                }
            },
        }
    }
}

/// Every message read has at least one part, and every part has each field
/// that it must have, with a value of the field's type.
pub proof fn lemma_decode_parts_fits(fields: Seq<Field>, msg: &'static str, items: Seq<Item>)
    ensures
        decode_parts_spec(fields, msg, items) matches Ok(ps) ==> ps.len() > 0 && (forall|i: int|
            0 <= i < ps.len() ==> part_fits(fields, #[trigger] ps[i])),
{
    let e = none_slots(fields.len());
    assert(slots_typed(fields, e));
    lemma_decode_items_fits(fields, msg, items, e, Seq::empty());
}

/// The items after the first `Next` of `items`: the parts after the first.
pub open spec fn after_next(items: Seq<Item>) -> Seq<Item>
    decreases items.len(),
{
    if items.len() == 0 {
        Seq::empty()
    } else if items[0] is Next {
        items.drop_first()
    } else {
        after_next(items.drop_first())
    }
}

/// The items from the start of part `i` on.
pub open spec fn part_start(items: Seq<Item>, i: nat) -> Seq<Item>
    decreases i,
{
    if i == 0 {
        items
    } else {
        part_start(after_next(items), (i - 1) as nat)
    }
}

/// The value of the last argument of the first part of `items` that the
/// message reads into field `j`, going from `acc` when there is none.
pub open spec fn last_value_for(fields: Seq<Field>, items: Seq<Item>, j: int, acc: Option<Seq<u8>>) -> Option<
    Seq<u8>,
>
    decreases items.len(),
{
    if items.len() == 0 {
        acc
    } else {
        match items[0] {
            Item::Next => acc,
            Item::Arg(n, v) => if find_field(fields, n) == Some(j) {
                last_value_for(fields, items.drop_first(), j, Some(v))
            } else {
                last_value_for(fields, items.drop_first(), j, acc)
            },
        }
    }
}

/// What slot `j` of part `i` holds, given that of the first part `first`: the
/// value of the last argument for it in the part, else that of the first part,
/// and nothing in the first part itself.
pub open spec fn expected_slot(
    fields: Seq<Field>,
    items: Seq<Item>,
    i: nat,
    j: int,
    first: Option<ValueV>,
) -> Option<ValueV> {
    match last_value_for(fields, part_start(items, i), j, None) {
        Some(v) => match decode_value_spec(fields[j], v) {
            Ok(x) => Some(x),
            Err(_) => None,
        },
        None => if i == 0 {
            None
        } else {
            first
        },
    }
}

proof fn lemma_last_value_acc(fields: Seq<Field>, items: Seq<Item>, j: int, acc: Option<Seq<u8>>)
    ensures
        last_value_for(fields, items, j, acc) == match last_value_for(fields, items, j, None) {
            Some(w) => Some(w),
            None => acc,
        },
    decreases items.len(),
{
    if items.len() > 0 {
        if let Item::Arg(n, v) = items[0] {
            lemma_last_value_acc(fields, items.drop_first(), j, acc);
            lemma_last_value_acc(fields, items.drop_first(), j, Some(v));
            lemma_last_value_acc(fields, items.drop_first(), j, None);
        }
    }
}

proof fn lemma_part_start_arg(items: Seq<Item>, i: nat)
    requires
        items.len() > 0,
        items[0] is Arg,
        i > 0,
    ensures
        part_start(items, i) == part_start(items.drop_first(), i),
{
    assert(after_next(items) == after_next(items.drop_first()));
}

/// The parts that `decode_items` reads from state `cur`, `parts`, slot by
/// slot.
proof fn lemma_decode_items_values(
    fields: Seq<Field>,
    msg: &'static str,
    items: Seq<Item>,
    cur: Seq<Option<ValueV>>,
    parts: Seq<Seq<Option<ValueV>>>,
)
    requires
        cur.len() == fields.len(),
        decode_items(fields, msg, items, cur, parts) is Ok,
    ensures
        ({
            let ps = decode_items(fields, msg, items, cur, parts)->Ok_0;
            let n = parts.len();
            &&& ps.len() > n
            &&& ps.take(n as int) == parts
            &&& forall|j: int|
                0 <= j < fields.len() ==> #[trigger] ps[n as int][j] == match last_value_for(
                    fields,
                    items,
                    j,
                    None,
                ) {
                    Some(v) => match decode_value_spec(fields[j], v) {
                        Ok(x) => Some(x),
                        Err(_) => None,
                    },
                    None => finish_part(cur, parts)[j],
                }
            &&& forall|j: int|
                0 <= j < fields.len() ==> (#[trigger] last_value_for(fields, items, j, None) matches Some(
                    v,
                ) ==> decode_value_spec(fields[j], v) is Ok)
            &&& forall|k: int, j: int|
                n < k < ps.len() && 0 <= j < fields.len() ==> #[trigger] ps[k][j] == expected_slot(
                    fields,
                    items,
                    (k - n) as nat,
                    j,
                    ps[0][j],
                )
            &&& forall|k: int, j: int|
                n < k < ps.len() && 0 <= j < fields.len() ==> (#[trigger] last_value_for(
                    fields,
                    part_start(items, (k - n) as nat),
                    j,
                    None,
                ) matches Some(v) ==> decode_value_spec(fields[j], v) is Ok)
        }),
    decreases items.len(),
{
    let n = parts.len();
    if items.len() == 0 {
        let p = finish_part(cur, parts);
        lemma_missing_from(fields, p, 0);
        assert(parts.push(p).take(n as int) =~= parts);
    } else {
        match items[0] {
            Item::Next => {
                let p = finish_part(cur, parts);
                lemma_missing_from(fields, p, 0);
                let ps1 = parts.push(p);
                let rest = items.drop_first();
                let e = none_slots(fields.len());
                lemma_decode_items_values(fields, msg, rest, e, ps1);
                let ps = decode_items(fields, msg, rest, e, ps1)->Ok_0;
                assert(close_part(fields, msg, cur, parts) == Ok::<
                    Seq<Seq<Option<ValueV>>>,
                    ParseErrorV,
                >(ps1));
                assert(decode_items(fields, msg, items, cur, parts) == decode_items(
                    fields,
                    msg,
                    rest,
                    e,
                    ps1,
                ));
                assert(ps.take(n as int) =~= parts) by {
                    assert(ps.take(n + 1int) == ps1);
                    assert forall|q: int| 0 <= q < n implies ps[q] == parts[q] by {
                        assert(ps.take(n + 1int)[q] == ps1[q]);
                    }
                }
                assert(ps[n as int] == p) by {
                    assert(ps.take(n + 1int)[n as int] == ps1[n as int]);
                }
                assert(ps[0] == ps1[0]) by {
                    assert(ps.take(n + 1int)[0] == ps1[0]);
                }
                assert(after_next(items) == rest);
                assert forall|k: int, j: int|
                    n < k < ps.len() && 0 <= j < fields.len() implies #[trigger] ps[k][j]
                    == expected_slot(fields, items, (k - n) as nat, j, ps[0][j]) by {
                    let m = (k - n - 1) as nat;
                    assert(part_start(items, (k - n) as nat) == part_start(rest, m));
                    if k == n + 1 {
                        assert(part_start(rest, m) == rest);
                        assert(e[j] is None);
                        assert(finish_part(e, ps1)[j] == ps1[0][j]);
                        let _ = last_value_for(fields, rest, j, None);
                    } else {
                        assert(m == (k - ps1.len()) as nat);
                        let _ = last_value_for(fields, part_start(rest, (k - ps1.len()) as nat), j, None);
                    }
                }
                assert forall|k: int, j: int|
                    n < k < ps.len() && 0 <= j < fields.len() implies (#[trigger] last_value_for(
                    fields,
                    part_start(items, (k - n) as nat),
                    j,
                    None,
                ) matches Some(w) ==> decode_value_spec(fields[j], w) is Ok) by {
                    let m = (k - n - 1) as nat;
                    assert(part_start(items, (k - n) as nat) == part_start(rest, m));
                    if k == n + 1 {
                        assert(part_start(rest, m) == rest);
                        let _ = last_value_for(fields, rest, j, None);
                    } else {
                        assert(m == (k - ps1.len()) as nat);
                        let _ = last_value_for(fields, part_start(rest, (k - ps1.len()) as nat), j, None);
                    }
                }
            },
            Item::Arg(nm, v) => {
                let rest = items.drop_first();
                lemma_find_field_from(fields, nm, 0);
                let c2 = match find_field(fields, nm) {
                    None => cur,
                    Some(jj) => cur.update(jj, Some(decode_value_spec(fields[jj], v)->Ok_0)),
                };
                lemma_decode_items_values(fields, msg, rest, c2, parts);
                let ps = decode_items(fields, msg, rest, c2, parts)->Ok_0;
                assert(decode_items(fields, msg, items, cur, parts) == decode_items(
                    fields,
                    msg,
                    rest,
                    c2,
                    parts,
                ));
                assert forall|j: int| 0 <= j < fields.len() implies #[trigger] last_value_for(
                    fields,
                    items,
                    j,
                    None,
                ) == if find_field(fields, nm) == Some(j) {
                    last_value_for(fields, rest, j, Some(v))
                } else {
                    last_value_for(fields, rest, j, None)
                } by {
                    lemma_last_value_acc(fields, rest, j, Some(v));
                }
                assert forall|j: int| 0 <= j < fields.len() implies #[trigger] ps[n as int][j]
                    == match last_value_for(fields, items, j, None) {
                    Some(w) => match decode_value_spec(fields[j], w) {
                        Ok(x) => Some(x),
                        Err(_) => None,
                    },
                    None => finish_part(cur, parts)[j],
                } by {
                    if find_field(fields, nm) == Some(j) {
                        lemma_last_value_acc(fields, rest, j, Some(v));
                    }
                }
                assert forall|j: int| 0 <= j < fields.len() implies (#[trigger] last_value_for(
                    fields,
                    items,
                    j,
                    None,
                ) matches Some(w) ==> decode_value_spec(fields[j], w) is Ok) by {
                    lemma_last_value_acc(fields, rest, j, Some(v));
                }
                assert forall|k: int, j: int|
                    n < k < ps.len() && 0 <= j < fields.len() implies #[trigger] last_value_for(
                    fields,
                    part_start(items, (k - n) as nat),
                    j,
                    None,
                ) == last_value_for(fields, part_start(rest, (k - n) as nat), j, None) by {
                    lemma_part_start_arg(items, (k - n) as nat);
                }
                assert forall|k: int, j: int|
                    n < k < ps.len() && 0 <= j < fields.len() implies #[trigger] ps[k][j]
                    == expected_slot(fields, items, (k - n) as nat, j, ps[0][j]) by {
                    lemma_part_start_arg(items, (k - n) as nat);
                }
            },
        }
    }
}

/// The law of how a message's parts are read: the slot of field `j` in part
/// `i` holds the value of the last argument for that field in part `i`; when
/// the part has none, a later part takes the value of the first part, and the
/// first part holds nothing. Every such argument's value reads as the field's
/// type.
pub proof fn lemma_part_values(fields: Seq<Field>, msg: &'static str, items: Seq<Item>, i: int, j: int)
    requires
        decode_parts_spec(fields, msg, items) is Ok,
        0 <= i < decode_parts_spec(fields, msg, items)->Ok_0.len(),
        0 <= j < fields.len(),
    ensures
        ({
            let ps = decode_parts_spec(fields, msg, items)->Ok_0;
            &&& ps[i][j] == expected_slot(fields, items, i as nat, j, ps[0][j])
            &&& last_value_for(fields, part_start(items, i as nat), j, None) matches Some(v)
                ==> decode_value_spec(fields[j], v) is Ok
        }),
{
    let e = none_slots(fields.len());
    lemma_decode_items_values(fields, msg, items, e, Seq::empty());
    let ps = decode_parts_spec(fields, msg, items)->Ok_0;
    if i == 0 {
        assert(ps[0][j] == expected_slot(fields, items, 0, j, ps[0][j]));
    } else {
        assert(ps[i][j] == expected_slot(fields, items, i as nat, j, ps[0][j]));
    }
}

/// A bare argument, `name` or `name=`, of a text field reads as the empty
/// text.
pub proof fn lemma_bare_text(f: Field)
    ensures
        f.kind == FieldKind::Str ==> decode_value_spec(f, Seq::empty()) == Ok::<ValueV, ParseErrorV>(
            ValueV::Str(Seq::empty()),
        ),
{
    lemma_ascii_valid_utf8(Seq::<u8>::empty());
    vstd::utf8::encode_utf8_decode_utf8(Seq::<char>::empty());
    assert(vstd::utf8::encode_utf8(Seq::<char>::empty()) =~= Seq::<u8>::empty());
}

/// What the slot of field `f` in part `i` of `items` holds, given that of the
/// first part `first`: the value of the last argument under the field's own
/// name in that part, read as the field's type; else, in a later part, that of
/// the first part, and in the first part nothing.
pub open spec fn named_slot(items: Seq<Item>, i: nat, f: Field, first: Option<ValueV>) -> Option<ValueV> {
    match crate::commands::first_part_value_from(part_start(items, i), field_name(f), None) {
        Some(v) => match decode_value_spec(f, v) {
            Ok(x) => Some(x),
            Err(_) => None,
        },
        None => if i == 0 {
            None
        } else {
            first
        },
    }
}

/// No field but `j` has the name of field `j`.
pub open spec fn unique_name(fields: Seq<Field>, j: int) -> bool {
    forall|b: int|
        0 <= b < fields.len() && b != j ==> field_name(#[trigger] fields[b]) != field_name(fields[j])
}

/// The slot of field `j` of part `i` of a message read from `items`, when no
/// other field shares its name: the value under its name.
pub proof fn lemma_slot_by_name(fields: Seq<Field>, msg: &'static str, items: Seq<Item>, i: int, j: int)
    requires
        decode_parts_spec(fields, msg, items) is Ok,
        0 <= i < decode_parts_spec(fields, msg, items)->Ok_0.len(),
        0 <= j < fields.len(),
        find_field(fields, field_name(fields[j])) == Some(j),
    ensures
        ({
            let ps = decode_parts_spec(fields, msg, items)->Ok_0;
            ps[i][j] == named_slot(items, i as nat, fields[j], ps[0][j])
        }),
{
    lemma_part_values(fields, msg, items, i, j);
    lemma_last_value_found(fields, part_start(items, i as nat), j, None);
}

/// A field that no other field shares its name with is the one found under
/// its name.
pub proof fn lemma_unique_found(fields: Seq<Field>, j: int)
    requires
        unique_name(fields, j),
        0 <= j < fields.len(),
    ensures
        find_field(fields, field_name(fields[j])) == Some(j),
{
    lemma_find_field_from(fields, field_name(fields[j]), 0);
}

/// Where field `j` is the one found under its name, the argument for it is
/// the one under its name.
pub proof fn lemma_last_value_found(fields: Seq<Field>, items: Seq<Item>, j: int, acc: Option<Seq<u8>>)
    requires
        find_field(fields, field_name(fields[j])) == Some(j),
        0 <= j < fields.len(),
    ensures
        last_value_for(fields, items, j, acc) == crate::commands::first_part_value_from(
            items,
            field_name(fields[j]),
            acc,
        ),
    decreases items.len(),
{
    if items.len() > 0 {
        if let Item::Arg(n, v) = items[0] {
            lemma_find_field_from(fields, n, 0);
            lemma_last_value_found(fields, items.drop_first(), j, Some(v));
            lemma_last_value_found(fields, items.drop_first(), j, acc);
        }
    }
}

/// The argument written for a slot holding `v` under `name`: none for an
/// empty slot.
pub open spec fn arg_if(name: Seq<u8>, v: Option<ValueV>) -> Seq<(Seq<u8>, Seq<u8>)> {
    match v {
        Some(x) => seq![(name, encode_value_spec(x))],
        None => Seq::empty(),
    }
}

/// The arguments written for the slots `0..hi`: those for `0..hi - 1`, then
/// the one for slot `hi - 1`.
pub proof fn lemma_encode_args_step(fields: Seq<Field>, slots: Seq<Option<ValueV>>, hi: int)
    requires
        0 < hi,
    ensures
        encode_args_range(fields, slots, 0, hi) == encode_args_range(fields, slots, 0, hi - 1)
            + arg_if(field_name(fields[hi - 1]), slots[hi - 1]),
{
    let prev = encode_args_range(fields, slots, 0, hi - 1);
    match slots[hi - 1] {
        Some(v) => {
            assert(prev.push((field_name(fields[hi - 1]), encode_value_spec(v))) =~= prev + arg_if(
                field_name(fields[hi - 1]),
                slots[hi - 1],
            ));
        },
        None => {
            assert(prev =~= prev + arg_if(field_name(fields[hi - 1]), slots[hi - 1]));
        },
    }
}

/// No two fields share a name.
pub open spec fn names_distinct(fields: Seq<Field>) -> bool {
    forall|a: int, b: int|
        0 <= a < fields.len() && 0 <= b < fields.len() && a != b ==> field_name(#[trigger] fields[a])
            != field_name(#[trigger] fields[b])
}

/// Where no two fields share a name, the argument for field `j` is the one
/// under the field's own name.
pub proof fn lemma_last_value_by_name(fields: Seq<Field>, items: Seq<Item>, j: int, acc: Option<Seq<u8>>)
    requires
        names_distinct(fields),
        0 <= j < fields.len(),
    ensures
        last_value_for(fields, items, j, acc) == crate::commands::first_part_value_from(
            items,
            field_name(fields[j]),
            acc,
        ),
    decreases items.len(),
{
    if items.len() > 0 {
        if let Item::Arg(n, v) = items[0] {
            lemma_find_field_from(fields, n, 0);
            lemma_last_value_by_name(fields, items.drop_first(), j, Some(v));
            lemma_last_value_by_name(fields, items.drop_first(), j, acc);
        }
    }
}

/// The arguments written for the slots `lo..hi` of a part: each present value
/// under its field's name, in the order of the fields.
pub open spec fn encode_args_range(
    fields: Seq<Field>,
    slots: Seq<Option<ValueV>>,
    lo: int,
    hi: int,
) -> Seq<(Seq<u8>, Seq<u8>)>
    decreases hi - lo,
{
    if hi <= lo {
        Seq::empty()
    } else {
        let prev = encode_args_range(fields, slots, lo, hi - 1);
        match slots[hi - 1] {
            Some(v) => prev.push((field_name(fields[hi - 1]), encode_value_spec(v))),
            None => prev,
        }
    }
}

/// The arguments written for a part.
pub open spec fn encode_args(fields: Seq<Field>, slots: Seq<Option<ValueV>>) -> Seq<
    (Seq<u8>, Seq<u8>),
> {
    encode_args_range(fields, slots, 0, fields.len() as int)
}

/// The arguments written for each part.
pub open spec fn encode_parts(fields: Seq<Field>, parts: Seq<Seq<Option<ValueV>>>) -> Seq<
    Seq<(Seq<u8>, Seq<u8>)>,
> {
    parts.map_values(|p: Seq<Option<ValueV>>| encode_args(fields, p))
}

/// Writes the present values of a part as arguments.
pub fn write_part(cmd: &mut OutCommand, fields: &Vec<Field>, slots: &Vec<Option<Value>>)
    requires
        slots.len() == fields.len(),
    ensures
        final(cmd).0.content@ == append_args(
            old(cmd).0.content@,
            encode_args(fields@, slots_view(slots@)),
        ),
        final(cmd).0.direction == old(cmd).0.direction,
        final(cmd).0.flags == old(cmd).0.flags,
        final(cmd).0.packet_type == old(cmd).0.packet_type,
{
    let ghost c0 = cmd.0.content@;
    let ghost sv = slots_view(slots@);
    let mut j: usize = 0;
    while j < fields.len()
        invariant
            j <= fields.len(),
            slots.len() == fields.len(),
            sv == slots_view(slots@),
            cmd.0.content@ == append_args(c0, encode_args_range(fields@, sv, 0, j as int)),
            cmd.0.direction == old(cmd).0.direction,
            cmd.0.flags == old(cmd).0.flags,
            cmd.0.packet_type == old(cmd).0.packet_type,
        decreases fields.len() - j,
    {
        let ghost prev = encode_args_range(fields@, sv, 0, j as int);
        assert(sv[j as int] == opt_view(slots@[j as int]));
        match &slots[j] {
            Some(v) => {
                let bytes = encode_value(v);
                cmd.write_arg(fields[j].name, bytes.as_slice());
                proof {
                    let a = (field_name(fields@[j as int]), encode_value_spec(v@));
                    assert(encode_args_range(fields@, sv, 0, j + 1) == prev.push(a));
                    assert(prev.push(a).drop_last() =~= prev);
                }
            },
            None => {},
        }
        j = j + 1;
    }
    ()
}

/// Writes the parts one after the other, a pipe before each but the first.
pub fn write_parts(cmd: &mut OutCommand, fields: &Vec<Field>, parts: &Vec<Vec<Option<Value>>>)
    requires
        forall|i: int| 0 <= i < parts@.len() ==> #[trigger] parts@[i].len() == fields.len(),
    ensures
        final(cmd).0.content@ == append_parts(
            old(cmd).0.content@,
            encode_parts(fields@, parts_view(parts@)),
        ),
        final(cmd).0.direction == old(cmd).0.direction,
        final(cmd).0.flags == old(cmd).0.flags,
        final(cmd).0.packet_type == old(cmd).0.packet_type,
{
    let ghost c0 = cmd.0.content@;
    let ghost all = encode_parts(fields@, parts_view(parts@));
    let mut k: usize = 0;
    while k < parts.len()
        invariant
            k <= parts.len(),
            all == encode_parts(fields@, parts_view(parts@)),
            forall|i: int| 0 <= i < parts@.len() ==> #[trigger] parts@[i].len() == fields.len(),
            cmd.0.content@ == append_parts(c0, all.take(k as int)),
            cmd.0.direction == old(cmd).0.direction,
            cmd.0.flags == old(cmd).0.flags,
            cmd.0.packet_type == old(cmd).0.packet_type,
        decreases parts.len() - k,
    {
        let ghost before = cmd.0.content@;
        assert(parts@[k as int].len() == fields.len());
        assert(all[k as int] == encode_args(fields@, slots_view(parts@[k as int]@)));
        if k > 0 {
            cmd.start_new_part();
        }
        write_part(cmd, fields, &parts[k]);
        proof {
            let t = all.take(k + 1);
            assert(t.drop_last() =~= all.take(k as int));
            assert(t.last() == all[k as int]);
            if k == 0 {
                assert(all.take(0) =~= Seq::<Seq<(Seq<u8>, Seq<u8>)>>::empty());
                assert(t.len() == 1);
                assert(t[0] == all[0]);
            }
        }
        k = k + 1;
    }
    assert(all.take(k as int) =~= all);
}

/// Every field name reads back whole, no two fields share a name, and no
/// field is a unique id (for one, reading back what was written is not
/// proved).
pub open spec fn valid_fields(fields: Seq<Field>) -> bool {
    &&& forall|j: int| 0 <= j < fields.len() ==> (#[trigger] fields[j]).kind != FieldKind::Uid
    &&& forall|j: int| 0 <= j < fields.len() ==> valid_arg_name(field_name(#[trigger] fields[j]))
    &&& forall|i: int, j: int|
        0 <= i < fields.len() && 0 <= j < fields.len() && i != j ==> field_name(#[trigger] fields[i])
            != field_name(#[trigger] fields[j])
}

proof fn lemma_encode_args_range_first(
    fields: Seq<Field>,
    slots: Seq<Option<ValueV>>,
    lo: int,
    hi: int,
)
    requires
        lo < hi,
    ensures
        encode_args_range(fields, slots, lo, hi) == (match slots[lo] {
            Some(v) => seq![(field_name(fields[lo]), encode_value_spec(v))],
            None => Seq::empty(),
        }) + encode_args_range(fields, slots, lo + 1, hi),
    decreases hi - lo,
{
    let head = match slots[lo] {
        Some(v) => seq![(field_name(fields[lo]), encode_value_spec(v))],
        None => Seq::<(Seq<u8>, Seq<u8>)>::empty(),
    };
    if hi - 1 == lo {
        assert(encode_args_range(fields, slots, lo, lo) =~= Seq::<(Seq<u8>, Seq<u8>)>::empty());
        assert(encode_args_range(fields, slots, lo + 1, hi) =~= Seq::<(Seq<u8>, Seq<u8>)>::empty());
        assert(encode_args_range(fields, slots, lo, hi) =~= head + encode_args_range(
            fields,
            slots,
            lo + 1,
            hi,
        ));
    } else {
        lemma_encode_args_range_first(fields, slots, lo, hi - 1);
        match slots[hi - 1] {
            Some(v) => {
                let a = (field_name(fields[hi - 1]), encode_value_spec(v));
                assert(encode_args_range(fields, slots, lo, hi) =~= head
                    + encode_args_range(fields, slots, lo + 1, hi - 1).push(a));
                assert(encode_args_range(fields, slots, lo, hi) =~= head + encode_args_range(
                    fields,
                    slots,
                    lo + 1,
                    hi,
                ));
            },
            None => {},
        }
    }
}

/// Writing a value and reading it back as the same field gives the value.
pub proof fn lemma_value_roundtrip(f: Field, v: ValueV)
    requires
        value_fits(f.kind, v),
        f.kind != FieldKind::Uid,
    ensures
        decode_value_spec(f, encode_value_spec(v)) == Ok::<ValueV, ParseErrorV>(v),
{
    match v {
        ValueV::Str(t) => {
            vstd::utf8::encode_utf8_valid_utf8(t);
            vstd::utf8::encode_utf8_decode_utf8(t);
        },
        ValueV::U32(n) => {
            lemma_decimal_digits(n as nat);
            lemma_parse_decimal(n as nat, 0xffff_ffff);
            lemma_parse_decimal(n as nat, 0xffff_ffff_ffff_ffff);
            let d = crate::numbers::decimal(n as nat);
            assert forall|i: int| 0 <= i < d.len() implies #[trigger] d[i] < 0x80 by {
                assert(crate::numbers::is_digit(d[i]));
            }
            lemma_ascii_valid_utf8(d);
        },
        ValueV::ClientId(n) => {
            lemma_decimal_digits(n as nat);
            lemma_parse_decimal(n as nat, 0xffff);
            let d = crate::numbers::decimal(n as nat);
            assert forall|i: int| 0 <= i < d.len() implies #[trigger] d[i] < 0x80 by {
                assert(crate::numbers::is_digit(d[i]));
            }
            lemma_ascii_valid_utf8(d);
        },
        ValueV::Bool(b) => {
            let d = encode_value_spec(v);
            assert forall|i: int| 0 <= i < d.len() implies #[trigger] d[i] < 0x80 by {}
            lemma_ascii_valid_utf8(d);
        },
        ValueV::U16(n) => {
            lemma_decimal_digits(n as nat);
            lemma_parse_decimal(n as nat, 0xffff);
            lemma_signed_decimal_ascii(n as int);
        },
        ValueV::U64(n) => {
            lemma_decimal_digits(n as nat);
            lemma_parse_decimal(n as nat, 0xffff_ffff_ffff_ffff);
            lemma_signed_decimal_ascii(n as int);
        },
        ValueV::I32(n) => {
            lemma_parse_signed_decimal(n as int, 0x8000_0000, 0x7fff_ffff);
            lemma_signed_decimal_ascii(n as int);
        },
        ValueV::I64(n) => {
            lemma_parse_signed_decimal(n as int, 0x8000_0000_0000_0000, 0x7fff_ffff_ffff_ffff);
            lemma_signed_decimal_ascii(n as int);
        },
        ValueV::Bytes(b) => {},
    }
}

proof fn lemma_missing_none(fields: Seq<Field>, part: Seq<Option<ValueV>>, k: int)
    requires
        0 <= k,
        forall|j: int| k <= j < fields.len() ==> fields[j].optional || #[trigger] part[j] is Some,
    ensures
        missing_from(fields, part, k) is None,
    decreases fields.len() - k,
{
    if k < fields.len() {
        lemma_missing_none(fields, part, k + 1);
    }
}

/// The slots of `p` before `k`, the rest empty.
spec fn prefix_slots(p: Seq<Option<ValueV>>, k: int) -> Seq<Option<ValueV>> {
    Seq::new(p.len(), |j: int| if j < k { p[j] } else { None })
}

proof fn lemma_decode_encoded_from(
    fields: Seq<Field>,
    msg: &'static str,
    p: Seq<Option<ValueV>>,
    k: int,
    rest: Seq<Item>,
    parts: Seq<Seq<Option<ValueV>>>,
)
    requires
        valid_fields(fields),
        part_fits(fields, p),
        0 <= k <= fields.len(),
    ensures
        decode_items(
            fields,
            msg,
            arg_items(encode_args_range(fields, p, k, fields.len() as int)) + rest,
            prefix_slots(p, k),
            parts,
        ) == decode_items(fields, msg, rest, p, parts),
    decreases fields.len() - k,
{
    let n = fields.len() as int;
    if k == n {
        assert(arg_items(encode_args_range(fields, p, k, n)) + rest =~= rest);
        assert(prefix_slots(p, k) =~= p);
    } else {
        lemma_encode_args_range_first(fields, p, k, n);
        lemma_decode_encoded_from(fields, msg, p, k + 1, rest, parts);
        let tail = encode_args_range(fields, p, k + 1, n);
        assert(slot_fits(fields[k], p[k]));
        match p[k] {
            None => {
                assert(encode_args_range(fields, p, k, n) =~= tail);
                assert(prefix_slots(p, k) =~= prefix_slots(p, k + 1));
            },
            Some(v) => {
                let name = field_name(fields[k]);
                let a = (name, encode_value_spec(v));
                let its = arg_items(encode_args_range(fields, p, k, n)) + rest;
                assert(encode_args_range(fields, p, k, n) =~= seq![a] + tail);
                assert(its[0] == Item::Arg(name, encode_value_spec(v)));
                assert(its.drop_first() =~= arg_items(tail) + rest);
                lemma_find_field_from(fields, name, 0);
                let j = find_field(fields, name).unwrap();
                assert(j == k) by {
                    if j != k {
                        assert(field_name(fields[j]) != field_name(fields[k]));
                    }
                }
                lemma_value_roundtrip(fields[k], v);
                assert(prefix_slots(p, k).update(k, Some(v)) =~= prefix_slots(p, k + 1));
            },
        }
    }
}

/// A later part read with the values that it lacks taken from the first part.
pub open spec fn inherit(p: Seq<Option<ValueV>>, first: Seq<Option<ValueV>>) -> Seq<Option<ValueV>> {
    Seq::new(p.len(), |j: int| if p[j] is Some { p[j] } else { first[j] })
}

proof fn lemma_close_fitting(
    fields: Seq<Field>,
    msg: &'static str,
    p: Seq<Option<ValueV>>,
    done: Seq<Seq<Option<ValueV>>>,
)
    requires
        part_fits(fields, p),
        done.len() > 0 ==> done[0].len() == p.len(),
    ensures
        close_part(fields, msg, p, done) == Ok::<Seq<Seq<Option<ValueV>>>, ParseErrorV>(
            done.push(inherit(p, if done.len() > 0 { done[0] } else { p })),
        ),
{
    let first = if done.len() > 0 { done[0] } else { p };
    let fin = finish_part(p, done);
    assert(fin =~= inherit(p, first));
    assert forall|j: int| 0 <= j < fields.len() implies fields[j].optional
        || #[trigger] fin[j] is Some by {
        assert(slot_fits(fields[j], p[j]));
    }
    lemma_missing_none(fields, fin, 0);
}

/// Reading back the arguments written for one part gives that part alone.
pub proof fn lemma_decode_encoded_part(fields: Seq<Field>, msg: &'static str, p: Seq<Option<ValueV>>)
    requires
        valid_fields(fields),
        part_fits(fields, p),
    ensures
        decode_parts_spec(fields, msg, arg_items(encode_args(fields, p))) == Ok::<
            Seq<Seq<Option<ValueV>>>,
            ParseErrorV,
        >(seq![p]),
{
    lemma_decode_encoded_from(fields, msg, p, 0, Seq::empty(), Seq::empty());
    assert(arg_items(encode_args(fields, p)) + Seq::<Item>::empty() =~= arg_items(
        encode_args(fields, p),
    ));
    assert(prefix_slots(p, 0) =~= none_slots(fields.len()));
    lemma_close_fitting(fields, msg, p, Seq::empty());
    assert(inherit(p, p) =~= p);
    assert(Seq::<Seq<Option<ValueV>>>::empty().push(p) =~= seq![p]);
}

/// The items of the parts after the first: each after a `Next`.
spec fn tail_items(qs: Seq<Seq<(Seq<u8>, Seq<u8>)>>) -> Seq<Item>
    decreases qs.len(),
{
    if qs.len() == 0 {
        Seq::empty()
    } else {
        seq![Item::Next] + arg_items(qs[0]) + tail_items(qs.drop_first())
    }
}

proof fn lemma_tail_items_push(qs: Seq<Seq<(Seq<u8>, Seq<u8>)>>, q: Seq<(Seq<u8>, Seq<u8>)>)
    ensures
        tail_items(qs.push(q)) == tail_items(qs) + seq![Item::Next] + arg_items(q),
    decreases qs.len(),
{
    if qs.len() == 0 {
        let e = Seq::<Seq<(Seq<u8>, Seq<u8>)>>::empty();
        assert(qs.push(q).drop_first() =~= e);
        assert(qs.push(q)[0] == q);
        assert(tail_items(e) =~= Seq::<Item>::empty());
        assert(tail_items(qs) =~= Seq::<Item>::empty());
        assert(tail_items(qs.push(q)) == seq![Item::Next] + arg_items(q) + tail_items(e));
        assert(tail_items(qs.push(q)) =~= tail_items(qs) + seq![Item::Next] + arg_items(q));
    } else {
        lemma_tail_items_push(qs.drop_first(), q);
        assert(qs.push(q).drop_first() =~= qs.drop_first().push(q));
        assert(qs.push(q)[0] == qs[0]);
        assert(tail_items(qs.push(q)) =~= tail_items(qs) + seq![Item::Next] + arg_items(q));
    }
}

proof fn lemma_parts_items_split(ps: Seq<Seq<(Seq<u8>, Seq<u8>)>>)
    requires
        ps.len() > 0,
    ensures
        crate::commands::parts_items(ps) == arg_items(ps[0]) + tail_items(ps.drop_first()),
    decreases ps.len(),
{
    if ps.len() == 1 {
        assert(ps.drop_first() =~= Seq::<Seq<(Seq<u8>, Seq<u8>)>>::empty());
        assert(arg_items(ps[0]) + Seq::<Item>::empty() =~= arg_items(ps[0]));
    } else {
        let init = ps.drop_last();
        lemma_parts_items_split(init);
        lemma_tail_items_push(init.drop_first(), ps.last());
        assert(init.drop_first().push(ps.last()) =~= ps.drop_first());
        assert(init[0] == ps[0]);
        assert(crate::commands::parts_items(ps) =~= arg_items(ps[0]) + tail_items(
            ps.drop_first(),
        ));
    }
}

proof fn lemma_decode_tail(
    fields: Seq<Field>,
    msg: &'static str,
    ps: Seq<Seq<Option<ValueV>>>,
    i: int,
)
    requires
        valid_fields(fields),
        1 <= i <= ps.len(),
        forall|q: int| 0 <= q < ps.len() ==> part_fits(fields, #[trigger] ps[q]),
    ensures
        decode_items(
            fields,
            msg,
            tail_items(encode_parts(fields, ps).skip(i)),
            ps[i - 1],
            ps.map_values(|p: Seq<Option<ValueV>>| inherit(p, ps[0])).take(i - 1),
        ) == Ok::<Seq<Seq<Option<ValueV>>>, ParseErrorV>(
            ps.map_values(|p: Seq<Option<ValueV>>| inherit(p, ps[0])),
        ),
    decreases ps.len() - i,
{
    let expected = ps.map_values(|p: Seq<Option<ValueV>>| inherit(p, ps[0]));
    let done = expected.take(i - 1);
    let cur = ps[i - 1];
    assert(part_fits(fields, cur));
    assert(part_fits(fields, ps[0]));
    if i - 1 > 0 {
        assert(done[0] == inherit(ps[0], ps[0]));
        assert(inherit(ps[0], ps[0]) =~= ps[0]);
    }
    lemma_close_fitting(fields, msg, cur, done);
    let first = if done.len() > 0 { done[0] } else { cur };
    assert(first == ps[0]);
    assert(done.push(inherit(cur, first)) =~= expected.take(i)) by {
        if i - 1 == 0 {
            assert(inherit(cur, cur) =~= cur);
            assert(expected[0] =~= cur);
        }
    }
    let es = encode_parts(fields, ps);
    if i == ps.len() {
        assert(es.skip(i) =~= Seq::<Seq<(Seq<u8>, Seq<u8>)>>::empty());
        assert(expected.take(i) =~= expected);
    } else {
        let tl = es.skip(i);
        assert(tl[0] == encode_args(fields, ps[i]));
        assert(tl.drop_first() =~= es.skip(i + 1));
        let items = tail_items(tl);
        let rest = tail_items(es.skip(i + 1));
        assert(items =~= seq![Item::Next] + (arg_items(encode_args(fields, ps[i])) + rest));
        assert(items[0] == Item::Next);
        assert(items.drop_first() =~= arg_items(encode_args(fields, ps[i])) + rest);
        assert(part_fits(fields, ps[i]));
        lemma_decode_encoded_from(fields, msg, ps[i], 0, rest, expected.take(i));
        assert(prefix_slots(ps[i], 0) =~= none_slots(fields.len()));
        lemma_decode_tail(fields, msg, ps, i + 1);
    }
}

/// Reading back the arguments written for several parts gives the parts,
/// each later part with the values that it lacks taken from the first.
pub proof fn lemma_decode_encoded_parts(fields: Seq<Field>, msg: &'static str, ps: Seq<Seq<Option<ValueV>>>)
    requires
        valid_fields(fields),
        ps.len() > 0,
        forall|q: int| 0 <= q < ps.len() ==> part_fits(fields, #[trigger] ps[q]),
    ensures
        decode_parts_spec(fields, msg, crate::commands::parts_items(encode_parts(fields, ps)))
            == Ok::<Seq<Seq<Option<ValueV>>>, ParseErrorV>(
            ps.map_values(|p: Seq<Option<ValueV>>| inherit(p, ps[0])),
        ),
{
    let es = encode_parts(fields, ps);
    lemma_parts_items_split(es);
    assert(es[0] == encode_args(fields, ps[0]));
    assert(es.drop_first() =~= es.skip(1));
    assert(part_fits(fields, ps[0]));
    lemma_decode_encoded_from(fields, msg, ps[0], 0, tail_items(es.skip(1)), Seq::empty());
    assert(prefix_slots(ps[0], 0) =~= none_slots(fields.len()));
    lemma_decode_tail(fields, msg, ps, 1);
    let expected = ps.map_values(|p: Seq<Option<ValueV>>| inherit(p, ps[0]));
    assert(expected.take(0) =~= Seq::<Seq<Option<ValueV>>>::empty());
}

/// Every argument written for a part carries the name of one of the fields.
pub proof fn lemma_encode_args_names(fields: Seq<Field>, slots: Seq<Option<ValueV>>, hi: int)
    requires
        forall|j: int| 0 <= j < fields.len() ==> valid_arg_name(field_name(#[trigger] fields[j])),
        hi <= fields.len(),
    ensures
        forall|a: int|
            0 <= a < encode_args_range(fields, slots, 0, hi).len() ==> valid_arg_name(
                #[trigger] encode_args_range(fields, slots, 0, hi)[a].0,
            ),
    decreases hi,
{
    if hi > 0 {
        lemma_encode_args_names(fields, slots, hi - 1);
        let prev = encode_args_range(fields, slots, 0, hi - 1);
        assert(valid_arg_name(field_name(fields[hi - 1])));
        match slots[hi - 1] {
            Some(v) => {
                let cur = encode_args_range(fields, slots, 0, hi);
                assert forall|a: int| 0 <= a < cur.len() implies valid_arg_name(
                    #[trigger] cur[a].0,
                ) by {
                    if a < prev.len() {
                        assert(cur[a] == prev[a]);
                    }
                }
            },
            None => {},
        }
    }
}

/// A part with a value present writes at least one argument.
pub proof fn lemma_encode_args_nonempty(fields: Seq<Field>, slots: Seq<Option<ValueV>>, hi: int, j: int)
    requires
        0 <= j < hi <= fields.len(),
        slots[j] is Some,
    ensures
        encode_args_range(fields, slots, 0, hi).len() > 0,
    decreases hi,
{
    if j < hi - 1 {
        lemma_encode_args_nonempty(fields, slots, hi - 1, j);
    }
}

} // verus!
