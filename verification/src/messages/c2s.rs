//! Messages that a client sends to a server.
use vstd::prelude::*;
use vstd::string::StringSliceAdditionalSpecFns;
use vstd::utf8::{decode_utf8, valid_utf8};
use crate::commands::{bytes_equal, parse, parse_spec};
use crate::commands::{
    append_args, append_parts, arg_items, ends_name, is_alnum, is_space, lemma_parse_written,
    parts_items, valid_arg_name, valid_arg_names, valid_command_name,
};
use crate::message::{
    encode_args, encode_parts, inherit, lemma_decode_encoded_part, lemma_decode_encoded_parts,
    lemma_encode_args_names, lemma_encode_args_nonempty, valid_fields, write_part, write_parts,
};
use crate::fields::field_name;
use crate::fields::{Field, FieldKind, ParseError, ParseErrorV, Value, ValueV, opt_view, slots_view};
use crate::ids::ClientId;
use crate::message::{
    decode_parts, decode_parts_spec, lemma_decode_parts_fits, part_fits, parts_view, slot_fits,
};
use crate::message::{lemma_slot_by_name, lemma_unique_found, named_slot, unique_name};
use crate::message::{arg_if, encode_args_range, lemma_encode_args_step};
use crate::messages::opt_text;
use crate::messages::{
    bool_slot, cid_slot, opt_bool_slot, opt_str_slot, opt_u32_slot, str_slot, take_bool, take_cid,
    take_opt_bool, take_opt_str, take_opt_u32, take_str, take_u32, u32_slot,
    lemma_ascii_str, lemma_lowercase_str, lemma_str_bytes_differ, put_bool, put_cid, put_opt_bool,
    put_opt_str, put_opt_u32, put_str, put_u32,
};
use crate::packets::{Direction, Flags, InHeader, OutCommand, PacketType};
use crate::utf8::bytes_to_string;

verus! {

/// Which message a command is.
#[derive(Clone, Copy, Debug, PartialEq, Eq, Structural)]
pub enum MessageKind {
    JoinStreamRequest,
    RequestStreamInfo,
    StreamSignaling,
    SetupStream,
    UpdateStream,
    StopStream,
    RespondJoinStreamRequest,
    RemoveClientFromStream,
}

/// The command name of each message.
pub open spec fn notify_name(k: MessageKind) -> &'static str {
    match k {
        MessageKind::JoinStreamRequest => "joinstreamrequest",
        MessageKind::RequestStreamInfo => "requeststreaminfo",
        MessageKind::StreamSignaling => "streamsignaling",
        MessageKind::SetupStream => "setupstream",
        MessageKind::UpdateStream => "updatestream",
        MessageKind::StopStream => "stopstream",
        MessageKind::RespondJoinStreamRequest => "respondjoinstreamrequest",
        MessageKind::RemoveClientFromStream => "removeclientfromstream",
    }
}

/// The name of each message, as errors report it.
pub open spec fn message_name(k: MessageKind) -> &'static str {
    match k {
        MessageKind::JoinStreamRequest => "JoinStreamRequest",
        MessageKind::RequestStreamInfo => "RequestStreamInfo",
        MessageKind::StreamSignaling => "StreamSignaling",
        MessageKind::SetupStream => "SetupStream",
        MessageKind::UpdateStream => "UpdateStream",
        MessageKind::StopStream => "StopStream",
        MessageKind::RespondJoinStreamRequest => "RespondJoinStreamRequest",
        MessageKind::RemoveClientFromStream => "RemoveClientFromStream",
    }
}

/// The fields that each message declares, in the order they are written.
pub open spec fn fields_of(k: MessageKind) -> Seq<Field> {
    match k {
        MessageKind::JoinStreamRequest => seq![
            Field { name: "id", pretty: "StreamId", kind: FieldKind::Str, optional: false },
            Field { name: "clid", pretty: "ClientId", kind: FieldKind::ClientId, optional: false },
            Field { name: "is_remove", pretty: "IsRemove", kind: FieldKind::Bool, optional: false },
            Field { name: "msg", pretty: "Message", kind: FieldKind::Str, optional: false },
        ],
        MessageKind::RequestStreamInfo => seq![
            Field { name: "clid", pretty: "ClientId", kind: FieldKind::ClientId, optional: false },
            Field { name: "id", pretty: "StreamId", kind: FieldKind::Str, optional: true },
        ],
        MessageKind::StreamSignaling => seq![
            Field { name: "clid", pretty: "ClientId", kind: FieldKind::ClientId, optional: false },
            Field { name: "id", pretty: "StreamId", kind: FieldKind::Str, optional: false },
            Field { name: "json", pretty: "Json", kind: FieldKind::Str, optional: false },
        ],
        MessageKind::SetupStream => seq![
            Field { name: "name", pretty: "Name", kind: FieldKind::Str, optional: true },
            Field { name: "type", pretty: "StreamType", kind: FieldKind::U32, optional: true },
            Field { name: "mode", pretty: "Mode", kind: FieldKind::U32, optional: true },
            Field { name: "bitrate", pretty: "Bitrate", kind: FieldKind::U32, optional: true },
            Field { name: "viewer_limit", pretty: "ViewerLimit", kind: FieldKind::U32, optional: true },
            Field { name: "audio", pretty: "Audio", kind: FieldKind::Bool, optional: true },
            Field { name: "accessibility", pretty: "Accessibility", kind: FieldKind::U32, optional: false },
        ],
        MessageKind::UpdateStream => seq![
            Field { name: "id", pretty: "StreamId", kind: FieldKind::Str, optional: false },
            Field { name: "name", pretty: "Name", kind: FieldKind::Str, optional: true },
            Field { name: "type", pretty: "StreamType", kind: FieldKind::U32, optional: true },
            Field { name: "mode", pretty: "Mode", kind: FieldKind::U32, optional: true },
            Field { name: "bitrate", pretty: "Bitrate", kind: FieldKind::U32, optional: true },
            Field { name: "viewer_limit", pretty: "ViewerLimit", kind: FieldKind::U32, optional: true },
            Field { name: "audio", pretty: "Audio", kind: FieldKind::Bool, optional: true },
            Field { name: "accessibility", pretty: "Accessibility", kind: FieldKind::U32, optional: true },
        ],
        MessageKind::StopStream => seq![
            Field { name: "id", pretty: "StreamId", kind: FieldKind::Str, optional: false },
            Field { name: "reason", pretty: "Reason", kind: FieldKind::U32, optional: false },
        ],
        MessageKind::RespondJoinStreamRequest => seq![
            Field { name: "clid", pretty: "ClientId", kind: FieldKind::ClientId, optional: false },
            Field { name: "id", pretty: "StreamId", kind: FieldKind::Str, optional: false },
            Field { name: "decision", pretty: "Decision", kind: FieldKind::U32, optional: false },
            Field { name: "msg", pretty: "Message", kind: FieldKind::Str, optional: false },
            Field { name: "offer", pretty: "Offer", kind: FieldKind::Str, optional: false },
        ],
        MessageKind::RemoveClientFromStream => seq![
            Field { name: "clid", pretty: "ClientId", kind: FieldKind::ClientId, optional: false },
            Field { name: "id", pretty: "StreamId", kind: FieldKind::Str, optional: false },
            Field { name: "reason", pretty: "Reason", kind: FieldKind::U32, optional: false },
        ],
    }
}

/// The message whose command name is `name`, if any.
pub open spec fn kind_of_name(name: Seq<u8>) -> Option<MessageKind> {
    if name == "joinstreamrequest".spec_bytes() {
        Some(MessageKind::JoinStreamRequest)
    } else if name == "requeststreaminfo".spec_bytes() {
        Some(MessageKind::RequestStreamInfo)
    } else if name == "streamsignaling".spec_bytes() {
        Some(MessageKind::StreamSignaling)
    } else if name == "setupstream".spec_bytes() {
        Some(MessageKind::SetupStream)
    } else if name == "updatestream".spec_bytes() {
        Some(MessageKind::UpdateStream)
    } else if name == "stopstream".spec_bytes() {
        Some(MessageKind::StopStream)
    } else if name == "respondjoinstreamrequest".spec_bytes() {
        Some(MessageKind::RespondJoinStreamRequest)
    } else if name == "removeclientfromstream".spec_bytes() {
        Some(MessageKind::RemoveClientFromStream)
    } else {
        None
    }
}

/// A message read from a command: which message, and the argument slots of
/// each part.
pub type Decoded = (MessageKind, Seq<Seq<Option<ValueV>>>);

/// How a command arriving under `header` reads: its name picks the message;
/// the packet must be a command packet that does not travel the way the
/// message never does; then the parts are read by the message's fields.
pub open spec fn decode_spec(header: InHeader, cmd: Seq<u8>) -> Result<Decoded, ParseErrorV> {
    let (name, items) = parse_spec(cmd);
    match kind_of_name(name) {
        None => if valid_utf8(name) {
            Err(ParseErrorV::UnknownCommand(decode_utf8(name)))
        } else {
            Err(ParseErrorV::InvalidUtf8)
        },
        Some(k) => if header.packet_type != PacketType::Command {
            Err(ParseErrorV::WrongPacketType(header.packet_type))
        } else if header.direction == Direction::S2C {
            Err(ParseErrorV::WrongDirection(Direction::S2C))
        } else {
            match decode_parts_spec(fields_of(k), message_name(k), items) {
                Ok(ps) => Ok((k, ps)),
                Err(e) => Err(e),
            }
        },
    }
}

/// The content of the command that carries the part with slots `p`.
pub open spec fn written(k: MessageKind, p: Seq<Option<ValueV>>) -> Seq<u8> {
    append_args(notify_name(k).spec_bytes(), encode_args(fields_of(k), p))
}

/// The content of the command that carries the parts with slots `ps`.
pub open spec fn written_parts(k: MessageKind, ps: Seq<Seq<Option<ValueV>>>) -> Seq<u8> {
    append_parts(notify_name(k).spec_bytes(), encode_parts(fields_of(k), ps))
}

fn notify_name_exec(k: MessageKind) -> (r: &'static str)
    ensures
        r == notify_name(k),
{
    match k {
        MessageKind::JoinStreamRequest => "joinstreamrequest",
        MessageKind::RequestStreamInfo => "requeststreaminfo",
        MessageKind::StreamSignaling => "streamsignaling",
        MessageKind::SetupStream => "setupstream",
        MessageKind::UpdateStream => "updatestream",
        MessageKind::StopStream => "stopstream",
        MessageKind::RespondJoinStreamRequest => "respondjoinstreamrequest",
        MessageKind::RemoveClientFromStream => "removeclientfromstream",
    }
}

fn message_name_exec(k: MessageKind) -> (r: &'static str)
    ensures
        r == message_name(k),
{
    match k {
        MessageKind::JoinStreamRequest => "JoinStreamRequest",
        MessageKind::RequestStreamInfo => "RequestStreamInfo",
        MessageKind::StreamSignaling => "StreamSignaling",
        MessageKind::SetupStream => "SetupStream",
        MessageKind::UpdateStream => "UpdateStream",
        MessageKind::StopStream => "StopStream",
        MessageKind::RespondJoinStreamRequest => "RespondJoinStreamRequest",
        MessageKind::RemoveClientFromStream => "RemoveClientFromStream",
    }
}

fn fields_exec_join_stream_request() -> (r: Vec<Field>)
    ensures
        r@ == fields_of(MessageKind::JoinStreamRequest),
{
    let mut v: Vec<Field> = Vec::new();
    v.push(Field { name: "id", pretty: "StreamId", kind: FieldKind::Str, optional: false });
    v.push(Field { name: "clid", pretty: "ClientId", kind: FieldKind::ClientId, optional: false });
    v.push(Field { name: "is_remove", pretty: "IsRemove", kind: FieldKind::Bool, optional: false });
    v.push(Field { name: "msg", pretty: "Message", kind: FieldKind::Str, optional: false });
    assert(v@ =~= fields_of(MessageKind::JoinStreamRequest));
    v
}

fn fields_exec_request_stream_info() -> (r: Vec<Field>)
    ensures
        r@ == fields_of(MessageKind::RequestStreamInfo),
{
    let mut v: Vec<Field> = Vec::new();
    v.push(Field { name: "clid", pretty: "ClientId", kind: FieldKind::ClientId, optional: false });
    v.push(Field { name: "id", pretty: "StreamId", kind: FieldKind::Str, optional: true });
    assert(v@ =~= fields_of(MessageKind::RequestStreamInfo));
    v
}

fn fields_exec_stream_signaling() -> (r: Vec<Field>)
    ensures
        r@ == fields_of(MessageKind::StreamSignaling),
{
    let mut v: Vec<Field> = Vec::new();
    v.push(Field { name: "clid", pretty: "ClientId", kind: FieldKind::ClientId, optional: false });
    v.push(Field { name: "id", pretty: "StreamId", kind: FieldKind::Str, optional: false });
    v.push(Field { name: "json", pretty: "Json", kind: FieldKind::Str, optional: false });
    assert(v@ =~= fields_of(MessageKind::StreamSignaling));
    v
}

fn fields_exec_setup_stream() -> (r: Vec<Field>)
    ensures
        r@ == fields_of(MessageKind::SetupStream),
{
    let mut v: Vec<Field> = Vec::new();
    v.push(Field { name: "name", pretty: "Name", kind: FieldKind::Str, optional: true });
    v.push(Field { name: "type", pretty: "StreamType", kind: FieldKind::U32, optional: true });
    v.push(Field { name: "mode", pretty: "Mode", kind: FieldKind::U32, optional: true });
    v.push(Field { name: "bitrate", pretty: "Bitrate", kind: FieldKind::U32, optional: true });
    v.push(Field { name: "viewer_limit", pretty: "ViewerLimit", kind: FieldKind::U32, optional: true });
    v.push(Field { name: "audio", pretty: "Audio", kind: FieldKind::Bool, optional: true });
    v.push(Field { name: "accessibility", pretty: "Accessibility", kind: FieldKind::U32, optional: false });
    assert(v@ =~= fields_of(MessageKind::SetupStream));
    v
}

fn fields_exec_update_stream() -> (r: Vec<Field>)
    ensures
        r@ == fields_of(MessageKind::UpdateStream),
{
    let mut v: Vec<Field> = Vec::new();
    v.push(Field { name: "id", pretty: "StreamId", kind: FieldKind::Str, optional: false });
    v.push(Field { name: "name", pretty: "Name", kind: FieldKind::Str, optional: true });
    v.push(Field { name: "type", pretty: "StreamType", kind: FieldKind::U32, optional: true });
    v.push(Field { name: "mode", pretty: "Mode", kind: FieldKind::U32, optional: true });
    v.push(Field { name: "bitrate", pretty: "Bitrate", kind: FieldKind::U32, optional: true });
    v.push(Field { name: "viewer_limit", pretty: "ViewerLimit", kind: FieldKind::U32, optional: true });
    v.push(Field { name: "audio", pretty: "Audio", kind: FieldKind::Bool, optional: true });
    v.push(Field { name: "accessibility", pretty: "Accessibility", kind: FieldKind::U32, optional: true });
    assert(v@ =~= fields_of(MessageKind::UpdateStream));
    v
}

fn fields_exec_stop_stream() -> (r: Vec<Field>)
    ensures
        r@ == fields_of(MessageKind::StopStream),
{
    let mut v: Vec<Field> = Vec::new();
    v.push(Field { name: "id", pretty: "StreamId", kind: FieldKind::Str, optional: false });
    v.push(Field { name: "reason", pretty: "Reason", kind: FieldKind::U32, optional: false });
    assert(v@ =~= fields_of(MessageKind::StopStream));
    v
}

fn fields_exec_respond_join_stream_request() -> (r: Vec<Field>)
    ensures
        r@ == fields_of(MessageKind::RespondJoinStreamRequest),
{
    let mut v: Vec<Field> = Vec::new();
    v.push(Field { name: "clid", pretty: "ClientId", kind: FieldKind::ClientId, optional: false });
    v.push(Field { name: "id", pretty: "StreamId", kind: FieldKind::Str, optional: false });
    v.push(Field { name: "decision", pretty: "Decision", kind: FieldKind::U32, optional: false });
    v.push(Field { name: "msg", pretty: "Message", kind: FieldKind::Str, optional: false });
    v.push(Field { name: "offer", pretty: "Offer", kind: FieldKind::Str, optional: false });
    assert(v@ =~= fields_of(MessageKind::RespondJoinStreamRequest));
    v
}

fn fields_exec_remove_client_from_stream() -> (r: Vec<Field>)
    ensures
        r@ == fields_of(MessageKind::RemoveClientFromStream),
{
    let mut v: Vec<Field> = Vec::new();
    v.push(Field { name: "clid", pretty: "ClientId", kind: FieldKind::ClientId, optional: false });
    v.push(Field { name: "id", pretty: "StreamId", kind: FieldKind::Str, optional: false });
    v.push(Field { name: "reason", pretty: "Reason", kind: FieldKind::U32, optional: false });
    assert(v@ =~= fields_of(MessageKind::RemoveClientFromStream));
    v
}

fn fields_exec(k: MessageKind) -> (r: Vec<Field>)
    ensures
        r@ == fields_of(k),
{
    match k {
        MessageKind::JoinStreamRequest => fields_exec_join_stream_request(),
        MessageKind::RequestStreamInfo => fields_exec_request_stream_info(),
        MessageKind::StreamSignaling => fields_exec_stream_signaling(),
        MessageKind::SetupStream => fields_exec_setup_stream(),
        MessageKind::UpdateStream => fields_exec_update_stream(),
        MessageKind::StopStream => fields_exec_stop_stream(),
        MessageKind::RespondJoinStreamRequest => fields_exec_respond_join_stream_request(),
        MessageKind::RemoveClientFromStream => fields_exec_remove_client_from_stream(),
    }
}

fn kind_of_name_exec(name: &[u8]) -> (r: Option<MessageKind>)
    ensures
        r == kind_of_name(name@),
{
    if bytes_equal(name, "joinstreamrequest".as_bytes()) {
        Some(MessageKind::JoinStreamRequest)
    } else if bytes_equal(name, "requeststreaminfo".as_bytes()) {
        Some(MessageKind::RequestStreamInfo)
    } else if bytes_equal(name, "streamsignaling".as_bytes()) {
        Some(MessageKind::StreamSignaling)
    } else if bytes_equal(name, "setupstream".as_bytes()) {
        Some(MessageKind::SetupStream)
    } else if bytes_equal(name, "updatestream".as_bytes()) {
        Some(MessageKind::UpdateStream)
    } else if bytes_equal(name, "stopstream".as_bytes()) {
        Some(MessageKind::StopStream)
    } else if bytes_equal(name, "respondjoinstreamrequest".as_bytes()) {
        Some(MessageKind::RespondJoinStreamRequest)
    } else if bytes_equal(name, "removeclientfromstream".as_bytes()) {
        Some(MessageKind::RemoveClientFromStream)
    } else {
        None
    }
}

/// One part of `joinstreamrequest`: ask to join, or to leave, a stream.
#[derive(Clone, Debug)]
pub struct InJoinStreamRequestPart {
    /// `id` on the wire.
    pub stream_id: String,
    /// `clid` on the wire.
    pub client_id: ClientId,
    pub is_remove: bool,
    /// `msg` on the wire.
    pub message: String,
}

impl InJoinStreamRequestPart {
    /// The argument slots of this part, one per field.
    pub open spec fn slots(&self) -> Seq<Option<ValueV>> {
        seq![
            str_slot(self.stream_id),
            cid_slot(self.client_id),
            bool_slot(self.is_remove),
            str_slot(self.message),
        ]
    }

    fn from_slots(s: &Vec<Option<Value>>) -> (r: InJoinStreamRequestPart)
        requires
            part_fits(fields_of(MessageKind::JoinStreamRequest), slots_view(s@)),
        ensures
            r.slots() == slots_view(s@),
    {
        proof {
            let fs = fields_of(MessageKind::JoinStreamRequest);
            let sv = slots_view(s@);
            assert(slot_fits(fs[0], sv[0]));
            assert(sv[0] == opt_view(s@[0]));
            assert(slot_fits(fs[1], sv[1]));
            assert(sv[1] == opt_view(s@[1]));
            assert(slot_fits(fs[2], sv[2]));
            assert(sv[2] == opt_view(s@[2]));
            assert(slot_fits(fs[3], sv[3]));
            assert(sv[3] == opt_view(s@[3]));
        }
        let r = InJoinStreamRequestPart {
            stream_id: take_str(&s[0]),
            client_id: take_cid(&s[1]),
            is_remove: take_bool(&s[2]),
            message: take_str(&s[3]),
        };
        assert(r.slots() =~= slots_view(s@));
        r
    }
}

/// One part of `joinstreamrequest`: ask to join, or to leave, a stream.
#[derive(Clone, Debug)]
pub struct OutJoinStreamRequestPart {
    /// `id` on the wire.
    pub stream_id: String,
    /// `clid` on the wire.
    pub client_id: ClientId,
    pub is_remove: bool,
    /// `msg` on the wire.
    pub message: String,
}

impl OutJoinStreamRequestPart {
    /// The argument slots of this part, one per field.
    pub open spec fn slots(&self) -> Seq<Option<ValueV>> {
        seq![
            str_slot(self.stream_id),
            cid_slot(self.client_id),
            bool_slot(self.is_remove),
            str_slot(self.message),
        ]
    }

    fn to_slots(&self) -> (r: Vec<Option<Value>>)
        ensures
            slots_view(r@) == self.slots(),
            r@.len() == fields_of(MessageKind::JoinStreamRequest).len(),
    {
        let mut v: Vec<Option<Value>> = Vec::new();
        v.push(put_str(&self.stream_id));
        v.push(put_cid(self.client_id));
        v.push(put_bool(self.is_remove));
        v.push(put_str(&self.message));
        assert(slots_view(v@) =~= self.slots());
        v
    }

    /// A command packet that carries this part alone.
    pub fn to_packet(self) -> (r: OutCommand)
        ensures
            r.0.direction == Direction::C2S,
            r.0.flags.bits == 0,
            r.0.packet_type == PacketType::Command,
            r.0.content@ == written(MessageKind::JoinStreamRequest, self.slots()),
            r.0.content@ == append_args(
                "joinstreamrequest".spec_bytes(),
                arg_if("id".spec_bytes(), str_slot(self.stream_id))
                    + arg_if("clid".spec_bytes(), cid_slot(self.client_id))
                    + arg_if("is_remove".spec_bytes(), bool_slot(self.is_remove))
                    + arg_if("msg".spec_bytes(), str_slot(self.message)),
            ),
    {
        proof {
            self.lemma_written_by_name();
        }
        let mut cmd = OutCommand::new(
            Direction::C2S,
            Flags::empty(),
            PacketType::Command,
            "joinstreamrequest",
        );
        let fields = fields_exec(MessageKind::JoinStreamRequest);
        let slots = self.to_slots();
        write_part(&mut cmd, &fields, &slots);
        cmd
    }
}

/// Writes `joinstreamrequest` commands.
pub struct OutJoinStreamRequestMessage;

impl OutJoinStreamRequestMessage {
    /// The argument slots of each of `parts`.
    pub open spec fn slots_of(parts: Seq<OutJoinStreamRequestPart>) -> Seq<Seq<Option<ValueV>>> {
        parts.map_values(|p: OutJoinStreamRequestPart| p.slots())
    }

    /// A command packet that carries the parts in order.
    pub fn new(parts: &Vec<OutJoinStreamRequestPart>) -> (r: OutCommand)
        ensures
            r.0.direction == Direction::C2S,
            r.0.flags.bits == 0,
            r.0.packet_type == PacketType::Command,
            r.0.content@ == written_parts(MessageKind::JoinStreamRequest, Self::slots_of(parts@)),
    {
        let mut cmd = OutCommand::new(
            Direction::C2S,
            Flags::empty(),
            PacketType::Command,
            "joinstreamrequest",
        );
        let fields = fields_exec(MessageKind::JoinStreamRequest);
        let mut all: Vec<Vec<Option<Value>>> = Vec::new();
        let mut i: usize = 0;
        while i < parts.len()
            invariant
                i <= parts.len(),
                fields@ == fields_of(MessageKind::JoinStreamRequest),
                parts_view(all@) == Self::slots_of(parts@.take(i as int)),
                forall|k: int| 0 <= k < all@.len() ==> #[trigger] all@[k].len() == fields.len(),
            decreases parts.len() - i,
        {
            let s = parts[i].to_slots();
            let ghost before = parts_view(all@);
            all.push(s);
            proof {
                let t = parts@.take(i + 1);
                assert(t.drop_last() =~= parts@.take(i as int));
                assert(Self::slots_of(t) =~= Self::slots_of(t.drop_last()).push(t.last().slots()));
                assert(parts_view(all@) =~= before.push(slots_view(s@)));
            }
            i = i + 1;
        }
        assert(parts@.take(i as int) =~= parts@);
        write_parts(&mut cmd, &fields, &all);
        cmd
    }
}

/// The `joinstreamrequest` message: ask to join, or to leave, a stream.
#[derive(Debug)]
pub struct InJoinStreamRequest {
    list: Vec<InJoinStreamRequestPart>,
}

impl InJoinStreamRequest {
    /// A message always has at least one part.
    #[verifier::type_invariant]
    spec fn has_parts(&self) -> bool {
        self.list.len() > 0
    }

    pub closed spec fn spec_parts(&self) -> Seq<InJoinStreamRequestPart> {
        self.list@
    }

    /// The argument slots of each of `parts`.
    pub open spec fn slots_of(parts: Seq<InJoinStreamRequestPart>) -> Seq<Seq<Option<ValueV>>> {
        parts.map_values(|p: InJoinStreamRequestPart| p.slots())
    }

    /// The argument slots of each part.
    pub open spec fn parts_slots(&self) -> Seq<Seq<Option<ValueV>>> {
        Self::slots_of(self.spec_parts())
    }

    /// The parts, in the order they came.
    pub fn parts(&self) -> (r: &Vec<InJoinStreamRequestPart>)
        ensures
            r@ == self.spec_parts(),
            r@.len() > 0,
    {
        proof {
            use_type_invariant(self);
        }
        &self.list
    }

    /// The first part.
    pub fn first(&self) -> (r: &InJoinStreamRequestPart)
        ensures
            self.spec_parts().len() > 0,
            *r == self.spec_parts()[0],
    {
        proof {
            use_type_invariant(self);
        }
        &self.list[0]
    }

    fn from_parts(ps: &Vec<Vec<Option<Value>>>) -> (r: InJoinStreamRequest)
        requires
            ps@.len() > 0,
            forall|i: int|
                0 <= i < ps@.len() ==> part_fits(
                    fields_of(MessageKind::JoinStreamRequest),
                    #[trigger] parts_view(ps@)[i],
                ),
        ensures
            r.parts_slots() == parts_view(ps@),
    {
        let mut list: Vec<InJoinStreamRequestPart> = Vec::new();
        let mut i: usize = 0;
        while i < ps.len()
            invariant
                i <= ps@.len(),
                forall|k: int|
                    0 <= k < ps@.len() ==> part_fits(
                        fields_of(MessageKind::JoinStreamRequest),
                        #[trigger] parts_view(ps@)[k],
                    ),
                Self::slots_of(list@) == parts_view(ps@).take(i as int),
            decreases ps.len() - i,
        {
            assert(parts_view(ps@)[i as int] == slots_view(ps@[i as int]@));
            let p = InJoinStreamRequestPart::from_slots(&ps[i]);
            let ghost before = Self::slots_of(list@);
            list.push(p);
            i = i + 1;
            proof {
                assert(Self::slots_of(list@) =~= before.push(p.slots()));
                let pv = parts_view(ps@);
                assert(pv.take(i as int) =~= pv.take(i - 1).push(pv[i - 1]));
            }
        }
        assert(parts_view(ps@).take(i as int) =~= parts_view(ps@));
        let r = InJoinStreamRequest { list };
        assert(r.parts_slots() =~= parts_view(ps@));
        r
    }
}

/// One part of `requeststreaminfo`: ask for the state of the streams of a client.
#[derive(Clone, Debug)]
pub struct InRequestStreamInfoPart {
    /// `clid` on the wire.
    pub client_id: ClientId,
    /// `id` on the wire.
    pub stream_id: Option<String>,
}

impl InRequestStreamInfoPart {
    /// The argument slots of this part, one per field.
    pub open spec fn slots(&self) -> Seq<Option<ValueV>> {
        seq![
            cid_slot(self.client_id),
            opt_str_slot(self.stream_id),
        ]
    }

    fn from_slots(s: &Vec<Option<Value>>) -> (r: InRequestStreamInfoPart)
        requires
            part_fits(fields_of(MessageKind::RequestStreamInfo), slots_view(s@)),
        ensures
            r.slots() == slots_view(s@),
    {
        proof {
            let fs = fields_of(MessageKind::RequestStreamInfo);
            let sv = slots_view(s@);
            assert(slot_fits(fs[0], sv[0]));
            assert(sv[0] == opt_view(s@[0]));
            assert(slot_fits(fs[1], sv[1]));
            assert(sv[1] == opt_view(s@[1]));
        }
        let r = InRequestStreamInfoPart {
            client_id: take_cid(&s[0]),
            stream_id: take_opt_str(&s[1]),
        };
        assert(r.slots() =~= slots_view(s@));
        r
    }
}

/// One part of `requeststreaminfo`: ask for the state of the streams of a client.
#[derive(Clone, Debug)]
pub struct OutRequestStreamInfoPart {
    /// `clid` on the wire.
    pub client_id: ClientId,
    /// `id` on the wire.
    pub stream_id: Option<String>,
}

impl OutRequestStreamInfoPart {
    /// The argument slots of this part, one per field.
    pub open spec fn slots(&self) -> Seq<Option<ValueV>> {
        seq![
            cid_slot(self.client_id),
            opt_str_slot(self.stream_id),
        ]
    }

    fn to_slots(&self) -> (r: Vec<Option<Value>>)
        ensures
            slots_view(r@) == self.slots(),
            r@.len() == fields_of(MessageKind::RequestStreamInfo).len(),
    {
        let mut v: Vec<Option<Value>> = Vec::new();
        v.push(put_cid(self.client_id));
        v.push(put_opt_str(&self.stream_id));
        assert(slots_view(v@) =~= self.slots());
        v
    }

    /// A command packet that carries this part alone.
    pub fn to_packet(self) -> (r: OutCommand)
        ensures
            r.0.direction == Direction::C2S,
            r.0.flags.bits == 0,
            r.0.packet_type == PacketType::Command,
            r.0.content@ == written(MessageKind::RequestStreamInfo, self.slots()),
            r.0.content@ == append_args(
                "requeststreaminfo".spec_bytes(),
                arg_if("clid".spec_bytes(), cid_slot(self.client_id))
                    + arg_if("id".spec_bytes(), opt_str_slot(self.stream_id)),
            ),
    {
        proof {
            self.lemma_written_by_name();
        }
        let mut cmd = OutCommand::new(
            Direction::C2S,
            Flags::empty(),
            PacketType::Command,
            "requeststreaminfo",
        );
        let fields = fields_exec(MessageKind::RequestStreamInfo);
        let slots = self.to_slots();
        write_part(&mut cmd, &fields, &slots);
        cmd
    }
}

/// Writes `requeststreaminfo` commands.
pub struct OutRequestStreamInfoMessage;

impl OutRequestStreamInfoMessage {
    /// The argument slots of each of `parts`.
    pub open spec fn slots_of(parts: Seq<OutRequestStreamInfoPart>) -> Seq<Seq<Option<ValueV>>> {
        parts.map_values(|p: OutRequestStreamInfoPart| p.slots())
    }

    /// A command packet that carries the parts in order.
    pub fn new(parts: &Vec<OutRequestStreamInfoPart>) -> (r: OutCommand)
        ensures
            r.0.direction == Direction::C2S,
            r.0.flags.bits == 0,
            r.0.packet_type == PacketType::Command,
            r.0.content@ == written_parts(MessageKind::RequestStreamInfo, Self::slots_of(parts@)),
    {
        let mut cmd = OutCommand::new(
            Direction::C2S,
            Flags::empty(),
            PacketType::Command,
            "requeststreaminfo",
        );
        let fields = fields_exec(MessageKind::RequestStreamInfo);
        let mut all: Vec<Vec<Option<Value>>> = Vec::new();
        let mut i: usize = 0;
        while i < parts.len()
            invariant
                i <= parts.len(),
                fields@ == fields_of(MessageKind::RequestStreamInfo),
                parts_view(all@) == Self::slots_of(parts@.take(i as int)),
                forall|k: int| 0 <= k < all@.len() ==> #[trigger] all@[k].len() == fields.len(),
            decreases parts.len() - i,
        {
            let s = parts[i].to_slots();
            let ghost before = parts_view(all@);
            all.push(s);
            proof {
                let t = parts@.take(i + 1);
                assert(t.drop_last() =~= parts@.take(i as int));
                assert(Self::slots_of(t) =~= Self::slots_of(t.drop_last()).push(t.last().slots()));
                assert(parts_view(all@) =~= before.push(slots_view(s@)));
            }
            i = i + 1;
        }
        assert(parts@.take(i as int) =~= parts@);
        write_parts(&mut cmd, &fields, &all);
        cmd
    }
}

/// The `requeststreaminfo` message: ask for the state of the streams of a client.
#[derive(Debug)]
pub struct InRequestStreamInfo {
    list: Vec<InRequestStreamInfoPart>,
}

impl InRequestStreamInfo {
    /// A message always has at least one part.
    #[verifier::type_invariant]
    spec fn has_parts(&self) -> bool {
        self.list.len() > 0
    }

    pub closed spec fn spec_parts(&self) -> Seq<InRequestStreamInfoPart> {
        self.list@
    }

    /// The argument slots of each of `parts`.
    pub open spec fn slots_of(parts: Seq<InRequestStreamInfoPart>) -> Seq<Seq<Option<ValueV>>> {
        parts.map_values(|p: InRequestStreamInfoPart| p.slots())
    }

    /// The argument slots of each part.
    pub open spec fn parts_slots(&self) -> Seq<Seq<Option<ValueV>>> {
        Self::slots_of(self.spec_parts())
    }

    /// The parts, in the order they came.
    pub fn parts(&self) -> (r: &Vec<InRequestStreamInfoPart>)
        ensures
            r@ == self.spec_parts(),
            r@.len() > 0,
    {
        proof {
            use_type_invariant(self);
        }
        &self.list
    }

    /// The first part.
    pub fn first(&self) -> (r: &InRequestStreamInfoPart)
        ensures
            self.spec_parts().len() > 0,
            *r == self.spec_parts()[0],
    {
        proof {
            use_type_invariant(self);
        }
        &self.list[0]
    }

    fn from_parts(ps: &Vec<Vec<Option<Value>>>) -> (r: InRequestStreamInfo)
        requires
            ps@.len() > 0,
            forall|i: int|
                0 <= i < ps@.len() ==> part_fits(
                    fields_of(MessageKind::RequestStreamInfo),
                    #[trigger] parts_view(ps@)[i],
                ),
        ensures
            r.parts_slots() == parts_view(ps@),
    {
        let mut list: Vec<InRequestStreamInfoPart> = Vec::new();
        let mut i: usize = 0;
        while i < ps.len()
            invariant
                i <= ps@.len(),
                forall|k: int|
                    0 <= k < ps@.len() ==> part_fits(
                        fields_of(MessageKind::RequestStreamInfo),
                        #[trigger] parts_view(ps@)[k],
                    ),
                Self::slots_of(list@) == parts_view(ps@).take(i as int),
            decreases ps.len() - i,
        {
            assert(parts_view(ps@)[i as int] == slots_view(ps@[i as int]@));
            let p = InRequestStreamInfoPart::from_slots(&ps[i]);
            let ghost before = Self::slots_of(list@);
            list.push(p);
            i = i + 1;
            proof {
                assert(Self::slots_of(list@) =~= before.push(p.slots()));
                let pv = parts_view(ps@);
                assert(pv.take(i as int) =~= pv.take(i - 1).push(pv[i - 1]));
            }
        }
        assert(parts_view(ps@).take(i as int) =~= parts_view(ps@));
        let r = InRequestStreamInfo { list };
        assert(r.parts_slots() =~= parts_view(ps@));
        r
    }
}

/// One part of `streamsignaling`: send signaling data for a stream.
#[derive(Clone, Debug)]
pub struct InStreamSignalingPart {
    /// `clid` on the wire.
    pub client_id: ClientId,
    /// `id` on the wire.
    pub stream_id: String,
    pub json: String,
}

impl InStreamSignalingPart {
    /// The argument slots of this part, one per field.
    pub open spec fn slots(&self) -> Seq<Option<ValueV>> {
        seq![
            cid_slot(self.client_id),
            str_slot(self.stream_id),
            str_slot(self.json),
        ]
    }

    fn from_slots(s: &Vec<Option<Value>>) -> (r: InStreamSignalingPart)
        requires
            part_fits(fields_of(MessageKind::StreamSignaling), slots_view(s@)),
        ensures
            r.slots() == slots_view(s@),
    {
        proof {
            let fs = fields_of(MessageKind::StreamSignaling);
            let sv = slots_view(s@);
            assert(slot_fits(fs[0], sv[0]));
            assert(sv[0] == opt_view(s@[0]));
            assert(slot_fits(fs[1], sv[1]));
            assert(sv[1] == opt_view(s@[1]));
            assert(slot_fits(fs[2], sv[2]));
            assert(sv[2] == opt_view(s@[2]));
        }
        let r = InStreamSignalingPart {
            client_id: take_cid(&s[0]),
            stream_id: take_str(&s[1]),
            json: take_str(&s[2]),
        };
        assert(r.slots() =~= slots_view(s@));
        r
    }
}

/// One part of `streamsignaling`: send signaling data for a stream.
#[derive(Clone, Debug)]
pub struct OutStreamSignalingPart {
    /// `clid` on the wire.
    pub client_id: ClientId,
    /// `id` on the wire.
    pub stream_id: String,
    pub json: String,
}

impl OutStreamSignalingPart {
    /// The argument slots of this part, one per field.
    pub open spec fn slots(&self) -> Seq<Option<ValueV>> {
        seq![
            cid_slot(self.client_id),
            str_slot(self.stream_id),
            str_slot(self.json),
        ]
    }

    fn to_slots(&self) -> (r: Vec<Option<Value>>)
        ensures
            slots_view(r@) == self.slots(),
            r@.len() == fields_of(MessageKind::StreamSignaling).len(),
    {
        let mut v: Vec<Option<Value>> = Vec::new();
        v.push(put_cid(self.client_id));
        v.push(put_str(&self.stream_id));
        v.push(put_str(&self.json));
        assert(slots_view(v@) =~= self.slots());
        v
    }

    /// A command packet that carries this part alone.
    pub fn to_packet(self) -> (r: OutCommand)
        ensures
            r.0.direction == Direction::C2S,
            r.0.flags.bits == 0,
            r.0.packet_type == PacketType::Command,
            r.0.content@ == written(MessageKind::StreamSignaling, self.slots()),
            r.0.content@ == append_args(
                "streamsignaling".spec_bytes(),
                arg_if("clid".spec_bytes(), cid_slot(self.client_id))
                    + arg_if("id".spec_bytes(), str_slot(self.stream_id))
                    + arg_if("json".spec_bytes(), str_slot(self.json)),
            ),
    {
        proof {
            self.lemma_written_by_name();
        }
        let mut cmd = OutCommand::new(
            Direction::C2S,
            Flags::empty(),
            PacketType::Command,
            "streamsignaling",
        );
        let fields = fields_exec(MessageKind::StreamSignaling);
        let slots = self.to_slots();
        write_part(&mut cmd, &fields, &slots);
        cmd
    }
}

/// Writes `streamsignaling` commands.
pub struct OutStreamSignalingMessage;

impl OutStreamSignalingMessage {
    /// The argument slots of each of `parts`.
    pub open spec fn slots_of(parts: Seq<OutStreamSignalingPart>) -> Seq<Seq<Option<ValueV>>> {
        parts.map_values(|p: OutStreamSignalingPart| p.slots())
    }

    /// A command packet that carries the parts in order.
    pub fn new(parts: &Vec<OutStreamSignalingPart>) -> (r: OutCommand)
        ensures
            r.0.direction == Direction::C2S,
            r.0.flags.bits == 0,
            r.0.packet_type == PacketType::Command,
            r.0.content@ == written_parts(MessageKind::StreamSignaling, Self::slots_of(parts@)),
    {
        let mut cmd = OutCommand::new(
            Direction::C2S,
            Flags::empty(),
            PacketType::Command,
            "streamsignaling",
        );
        let fields = fields_exec(MessageKind::StreamSignaling);
        let mut all: Vec<Vec<Option<Value>>> = Vec::new();
        let mut i: usize = 0;
        while i < parts.len()
            invariant
                i <= parts.len(),
                fields@ == fields_of(MessageKind::StreamSignaling),
                parts_view(all@) == Self::slots_of(parts@.take(i as int)),
                forall|k: int| 0 <= k < all@.len() ==> #[trigger] all@[k].len() == fields.len(),
            decreases parts.len() - i,
        {
            let s = parts[i].to_slots();
            let ghost before = parts_view(all@);
            all.push(s);
            proof {
                let t = parts@.take(i + 1);
                assert(t.drop_last() =~= parts@.take(i as int));
                assert(Self::slots_of(t) =~= Self::slots_of(t.drop_last()).push(t.last().slots()));
                assert(parts_view(all@) =~= before.push(slots_view(s@)));
            }
            i = i + 1;
        }
        assert(parts@.take(i as int) =~= parts@);
        write_parts(&mut cmd, &fields, &all);
        cmd
    }
}

/// The `streamsignaling` message: send signaling data for a stream.
#[derive(Debug)]
pub struct InStreamSignaling {
    list: Vec<InStreamSignalingPart>,
}

impl InStreamSignaling {
    /// A message always has at least one part.
    #[verifier::type_invariant]
    spec fn has_parts(&self) -> bool {
        self.list.len() > 0
    }

    pub closed spec fn spec_parts(&self) -> Seq<InStreamSignalingPart> {
        self.list@
    }

    /// The argument slots of each of `parts`.
    pub open spec fn slots_of(parts: Seq<InStreamSignalingPart>) -> Seq<Seq<Option<ValueV>>> {
        parts.map_values(|p: InStreamSignalingPart| p.slots())
    }

    /// The argument slots of each part.
    pub open spec fn parts_slots(&self) -> Seq<Seq<Option<ValueV>>> {
        Self::slots_of(self.spec_parts())
    }

    /// The parts, in the order they came.
    pub fn parts(&self) -> (r: &Vec<InStreamSignalingPart>)
        ensures
            r@ == self.spec_parts(),
            r@.len() > 0,
    {
        proof {
            use_type_invariant(self);
        }
        &self.list
    }

    /// The first part.
    pub fn first(&self) -> (r: &InStreamSignalingPart)
        ensures
            self.spec_parts().len() > 0,
            *r == self.spec_parts()[0],
    {
        proof {
            use_type_invariant(self);
        }
        &self.list[0]
    }

    fn from_parts(ps: &Vec<Vec<Option<Value>>>) -> (r: InStreamSignaling)
        requires
            ps@.len() > 0,
            forall|i: int|
                0 <= i < ps@.len() ==> part_fits(
                    fields_of(MessageKind::StreamSignaling),
                    #[trigger] parts_view(ps@)[i],
                ),
        ensures
            r.parts_slots() == parts_view(ps@),
    {
        let mut list: Vec<InStreamSignalingPart> = Vec::new();
        let mut i: usize = 0;
        while i < ps.len()
            invariant
                i <= ps@.len(),
                forall|k: int|
                    0 <= k < ps@.len() ==> part_fits(
                        fields_of(MessageKind::StreamSignaling),
                        #[trigger] parts_view(ps@)[k],
                    ),
                Self::slots_of(list@) == parts_view(ps@).take(i as int),
            decreases ps.len() - i,
        {
            assert(parts_view(ps@)[i as int] == slots_view(ps@[i as int]@));
            let p = InStreamSignalingPart::from_slots(&ps[i]);
            let ghost before = Self::slots_of(list@);
            list.push(p);
            i = i + 1;
            proof {
                assert(Self::slots_of(list@) =~= before.push(p.slots()));
                let pv = parts_view(ps@);
                assert(pv.take(i as int) =~= pv.take(i - 1).push(pv[i - 1]));
            }
        }
        assert(parts_view(ps@).take(i as int) =~= parts_view(ps@));
        let r = InStreamSignaling { list };
        assert(r.parts_slots() =~= parts_view(ps@));
        r
    }
}

/// One part of `setupstream`: start a stream.
#[derive(Clone, Debug)]
pub struct InSetupStreamPart {
    pub name: Option<String>,
    /// `type` on the wire.
    pub stream_type: Option<u32>,
    pub mode: Option<u32>,
    pub bitrate: Option<u32>,
    pub viewer_limit: Option<u32>,
    pub audio: Option<bool>,
    pub accessibility: u32,
}

impl InSetupStreamPart {
    /// The argument slots of this part, one per field.
    pub open spec fn slots(&self) -> Seq<Option<ValueV>> {
        seq![
            opt_str_slot(self.name),
            opt_u32_slot(self.stream_type),
            opt_u32_slot(self.mode),
            opt_u32_slot(self.bitrate),
            opt_u32_slot(self.viewer_limit),
            opt_bool_slot(self.audio),
            u32_slot(self.accessibility),
        ]
    }

    fn from_slots(s: &Vec<Option<Value>>) -> (r: InSetupStreamPart)
        requires
            part_fits(fields_of(MessageKind::SetupStream), slots_view(s@)),
        ensures
            r.slots() == slots_view(s@),
    {
        proof {
            let fs = fields_of(MessageKind::SetupStream);
            let sv = slots_view(s@);
            assert(slot_fits(fs[0], sv[0]));
            assert(sv[0] == opt_view(s@[0]));
            assert(slot_fits(fs[1], sv[1]));
            assert(sv[1] == opt_view(s@[1]));
            assert(slot_fits(fs[2], sv[2]));
            assert(sv[2] == opt_view(s@[2]));
            assert(slot_fits(fs[3], sv[3]));
            assert(sv[3] == opt_view(s@[3]));
            assert(slot_fits(fs[4], sv[4]));
            assert(sv[4] == opt_view(s@[4]));
            assert(slot_fits(fs[5], sv[5]));
            assert(sv[5] == opt_view(s@[5]));
            assert(slot_fits(fs[6], sv[6]));
            assert(sv[6] == opt_view(s@[6]));
        }
        let r = InSetupStreamPart {
            name: take_opt_str(&s[0]),
            stream_type: take_opt_u32(&s[1]),
            mode: take_opt_u32(&s[2]),
            bitrate: take_opt_u32(&s[3]),
            viewer_limit: take_opt_u32(&s[4]),
            audio: take_opt_bool(&s[5]),
            accessibility: take_u32(&s[6]),
        };
        assert(r.slots() =~= slots_view(s@));
        r
    }
}

/// One part of `setupstream`: start a stream.
#[derive(Clone, Debug)]
pub struct OutSetupStreamPart {
    pub name: Option<String>,
    /// `type` on the wire.
    pub stream_type: Option<u32>,
    pub mode: Option<u32>,
    pub bitrate: Option<u32>,
    pub viewer_limit: Option<u32>,
    pub audio: Option<bool>,
    pub accessibility: u32,
}

impl OutSetupStreamPart {
    /// The argument slots of this part, one per field.
    pub open spec fn slots(&self) -> Seq<Option<ValueV>> {
        seq![
            opt_str_slot(self.name),
            opt_u32_slot(self.stream_type),
            opt_u32_slot(self.mode),
            opt_u32_slot(self.bitrate),
            opt_u32_slot(self.viewer_limit),
            opt_bool_slot(self.audio),
            u32_slot(self.accessibility),
        ]
    }

    fn to_slots(&self) -> (r: Vec<Option<Value>>)
        ensures
            slots_view(r@) == self.slots(),
            r@.len() == fields_of(MessageKind::SetupStream).len(),
    {
        let mut v: Vec<Option<Value>> = Vec::new();
        v.push(put_opt_str(&self.name));
        v.push(put_opt_u32(self.stream_type));
        v.push(put_opt_u32(self.mode));
        v.push(put_opt_u32(self.bitrate));
        v.push(put_opt_u32(self.viewer_limit));
        v.push(put_opt_bool(self.audio));
        v.push(put_u32(self.accessibility));
        assert(slots_view(v@) =~= self.slots());
        v
    }

    /// A command packet that carries this part alone.
    pub fn to_packet(self) -> (r: OutCommand)
        ensures
            r.0.direction == Direction::C2S,
            r.0.flags.bits == 0,
            r.0.packet_type == PacketType::Command,
            r.0.content@ == written(MessageKind::SetupStream, self.slots()),
            r.0.content@ == append_args(
                "setupstream".spec_bytes(),
                arg_if("name".spec_bytes(), opt_str_slot(self.name))
                    + arg_if("type".spec_bytes(), opt_u32_slot(self.stream_type))
                    + arg_if("mode".spec_bytes(), opt_u32_slot(self.mode))
                    + arg_if("bitrate".spec_bytes(), opt_u32_slot(self.bitrate))
                    + arg_if("viewer_limit".spec_bytes(), opt_u32_slot(self.viewer_limit))
                    + arg_if("audio".spec_bytes(), opt_bool_slot(self.audio))
                    + arg_if("accessibility".spec_bytes(), u32_slot(self.accessibility)),
            ),
    {
        proof {
            self.lemma_written_by_name();
        }
        let mut cmd = OutCommand::new(
            Direction::C2S,
            Flags::empty(),
            PacketType::Command,
            "setupstream",
        );
        let fields = fields_exec(MessageKind::SetupStream);
        let slots = self.to_slots();
        write_part(&mut cmd, &fields, &slots);
        cmd
    }
}

/// Writes `setupstream` commands.
pub struct OutSetupStreamMessage;

impl OutSetupStreamMessage {
    /// The argument slots of each of `parts`.
    pub open spec fn slots_of(parts: Seq<OutSetupStreamPart>) -> Seq<Seq<Option<ValueV>>> {
        parts.map_values(|p: OutSetupStreamPart| p.slots())
    }

    /// A command packet that carries the parts in order.
    pub fn new(parts: &Vec<OutSetupStreamPart>) -> (r: OutCommand)
        ensures
            r.0.direction == Direction::C2S,
            r.0.flags.bits == 0,
            r.0.packet_type == PacketType::Command,
            r.0.content@ == written_parts(MessageKind::SetupStream, Self::slots_of(parts@)),
    {
        let mut cmd = OutCommand::new(
            Direction::C2S,
            Flags::empty(),
            PacketType::Command,
            "setupstream",
        );
        let fields = fields_exec(MessageKind::SetupStream);
        let mut all: Vec<Vec<Option<Value>>> = Vec::new();
        let mut i: usize = 0;
        while i < parts.len()
            invariant
                i <= parts.len(),
                fields@ == fields_of(MessageKind::SetupStream),
                parts_view(all@) == Self::slots_of(parts@.take(i as int)),
                forall|k: int| 0 <= k < all@.len() ==> #[trigger] all@[k].len() == fields.len(),
            decreases parts.len() - i,
        {
            let s = parts[i].to_slots();
            let ghost before = parts_view(all@);
            all.push(s);
            proof {
                let t = parts@.take(i + 1);
                assert(t.drop_last() =~= parts@.take(i as int));
                assert(Self::slots_of(t) =~= Self::slots_of(t.drop_last()).push(t.last().slots()));
                assert(parts_view(all@) =~= before.push(slots_view(s@)));
            }
            i = i + 1;
        }
        assert(parts@.take(i as int) =~= parts@);
        write_parts(&mut cmd, &fields, &all);
        cmd
    }
}

/// The `setupstream` message: start a stream.
#[derive(Debug)]
pub struct InSetupStream {
    list: Vec<InSetupStreamPart>,
}

impl InSetupStream {
    /// A message always has at least one part.
    #[verifier::type_invariant]
    spec fn has_parts(&self) -> bool {
        self.list.len() > 0
    }

    pub closed spec fn spec_parts(&self) -> Seq<InSetupStreamPart> {
        self.list@
    }

    /// The argument slots of each of `parts`.
    pub open spec fn slots_of(parts: Seq<InSetupStreamPart>) -> Seq<Seq<Option<ValueV>>> {
        parts.map_values(|p: InSetupStreamPart| p.slots())
    }

    /// The argument slots of each part.
    pub open spec fn parts_slots(&self) -> Seq<Seq<Option<ValueV>>> {
        Self::slots_of(self.spec_parts())
    }

    /// The parts, in the order they came.
    pub fn parts(&self) -> (r: &Vec<InSetupStreamPart>)
        ensures
            r@ == self.spec_parts(),
            r@.len() > 0,
    {
        proof {
            use_type_invariant(self);
        }
        &self.list
    }

    /// The first part.
    pub fn first(&self) -> (r: &InSetupStreamPart)
        ensures
            self.spec_parts().len() > 0,
            *r == self.spec_parts()[0],
    {
        proof {
            use_type_invariant(self);
        }
        &self.list[0]
    }

    fn from_parts(ps: &Vec<Vec<Option<Value>>>) -> (r: InSetupStream)
        requires
            ps@.len() > 0,
            forall|i: int|
                0 <= i < ps@.len() ==> part_fits(
                    fields_of(MessageKind::SetupStream),
                    #[trigger] parts_view(ps@)[i],
                ),
        ensures
            r.parts_slots() == parts_view(ps@),
    {
        let mut list: Vec<InSetupStreamPart> = Vec::new();
        let mut i: usize = 0;
        while i < ps.len()
            invariant
                i <= ps@.len(),
                forall|k: int|
                    0 <= k < ps@.len() ==> part_fits(
                        fields_of(MessageKind::SetupStream),
                        #[trigger] parts_view(ps@)[k],
                    ),
                Self::slots_of(list@) == parts_view(ps@).take(i as int),
            decreases ps.len() - i,
        {
            assert(parts_view(ps@)[i as int] == slots_view(ps@[i as int]@));
            let p = InSetupStreamPart::from_slots(&ps[i]);
            let ghost before = Self::slots_of(list@);
            list.push(p);
            i = i + 1;
            proof {
                assert(Self::slots_of(list@) =~= before.push(p.slots()));
                let pv = parts_view(ps@);
                assert(pv.take(i as int) =~= pv.take(i - 1).push(pv[i - 1]));
            }
        }
        assert(parts_view(ps@).take(i as int) =~= parts_view(ps@));
        let r = InSetupStream { list };
        assert(r.parts_slots() =~= parts_view(ps@));
        r
    }
}

/// One part of `updatestream`: change the settings of a stream.
#[derive(Clone, Debug)]
pub struct InUpdateStreamPart {
    /// `id` on the wire.
    pub stream_id: String,
    pub name: Option<String>,
    /// `type` on the wire.
    pub stream_type: Option<u32>,
    pub mode: Option<u32>,
    pub bitrate: Option<u32>,
    pub viewer_limit: Option<u32>,
    pub audio: Option<bool>,
    pub accessibility: Option<u32>,
}

impl InUpdateStreamPart {
    /// The argument slots of this part, one per field.
    pub open spec fn slots(&self) -> Seq<Option<ValueV>> {
        seq![
            str_slot(self.stream_id),
            opt_str_slot(self.name),
            opt_u32_slot(self.stream_type),
            opt_u32_slot(self.mode),
            opt_u32_slot(self.bitrate),
            opt_u32_slot(self.viewer_limit),
            opt_bool_slot(self.audio),
            opt_u32_slot(self.accessibility),
        ]
    }

    fn from_slots(s: &Vec<Option<Value>>) -> (r: InUpdateStreamPart)
        requires
            part_fits(fields_of(MessageKind::UpdateStream), slots_view(s@)),
        ensures
            r.slots() == slots_view(s@),
    {
        proof {
            let fs = fields_of(MessageKind::UpdateStream);
            let sv = slots_view(s@);
            assert(slot_fits(fs[0], sv[0]));
            assert(sv[0] == opt_view(s@[0]));
            assert(slot_fits(fs[1], sv[1]));
            assert(sv[1] == opt_view(s@[1]));
            assert(slot_fits(fs[2], sv[2]));
            assert(sv[2] == opt_view(s@[2]));
            assert(slot_fits(fs[3], sv[3]));
            assert(sv[3] == opt_view(s@[3]));
            assert(slot_fits(fs[4], sv[4]));
            assert(sv[4] == opt_view(s@[4]));
            assert(slot_fits(fs[5], sv[5]));
            assert(sv[5] == opt_view(s@[5]));
            assert(slot_fits(fs[6], sv[6]));
            assert(sv[6] == opt_view(s@[6]));
            assert(slot_fits(fs[7], sv[7]));
            assert(sv[7] == opt_view(s@[7]));
        }
        let r = InUpdateStreamPart {
            stream_id: take_str(&s[0]),
            name: take_opt_str(&s[1]),
            stream_type: take_opt_u32(&s[2]),
            mode: take_opt_u32(&s[3]),
            bitrate: take_opt_u32(&s[4]),
            viewer_limit: take_opt_u32(&s[5]),
            audio: take_opt_bool(&s[6]),
            accessibility: take_opt_u32(&s[7]),
        };
        assert(r.slots() =~= slots_view(s@));
        r
    }
}

/// One part of `updatestream`: change the settings of a stream.
#[derive(Clone, Debug)]
pub struct OutUpdateStreamPart {
    /// `id` on the wire.
    pub stream_id: String,
    pub name: Option<String>,
    /// `type` on the wire.
    pub stream_type: Option<u32>,
    pub mode: Option<u32>,
    pub bitrate: Option<u32>,
    pub viewer_limit: Option<u32>,
    pub audio: Option<bool>,
    pub accessibility: Option<u32>,
}

impl OutUpdateStreamPart {
    /// The argument slots of this part, one per field.
    pub open spec fn slots(&self) -> Seq<Option<ValueV>> {
        seq![
            str_slot(self.stream_id),
            opt_str_slot(self.name),
            opt_u32_slot(self.stream_type),
            opt_u32_slot(self.mode),
            opt_u32_slot(self.bitrate),
            opt_u32_slot(self.viewer_limit),
            opt_bool_slot(self.audio),
            opt_u32_slot(self.accessibility),
        ]
    }

    fn to_slots(&self) -> (r: Vec<Option<Value>>)
        ensures
            slots_view(r@) == self.slots(),
            r@.len() == fields_of(MessageKind::UpdateStream).len(),
    {
        let mut v: Vec<Option<Value>> = Vec::new();
        v.push(put_str(&self.stream_id));
        v.push(put_opt_str(&self.name));
        v.push(put_opt_u32(self.stream_type));
        v.push(put_opt_u32(self.mode));
        v.push(put_opt_u32(self.bitrate));
        v.push(put_opt_u32(self.viewer_limit));
        v.push(put_opt_bool(self.audio));
        v.push(put_opt_u32(self.accessibility));
        assert(slots_view(v@) =~= self.slots());
        v
    }

    /// A command packet that carries this part alone.
    pub fn to_packet(self) -> (r: OutCommand)
        ensures
            r.0.direction == Direction::C2S,
            r.0.flags.bits == 0,
            r.0.packet_type == PacketType::Command,
            r.0.content@ == written(MessageKind::UpdateStream, self.slots()),
            r.0.content@ == append_args(
                "updatestream".spec_bytes(),
                arg_if("id".spec_bytes(), str_slot(self.stream_id))
                    + arg_if("name".spec_bytes(), opt_str_slot(self.name))
                    + arg_if("type".spec_bytes(), opt_u32_slot(self.stream_type))
                    + arg_if("mode".spec_bytes(), opt_u32_slot(self.mode))
                    + arg_if("bitrate".spec_bytes(), opt_u32_slot(self.bitrate))
                    + arg_if("viewer_limit".spec_bytes(), opt_u32_slot(self.viewer_limit))
                    + arg_if("audio".spec_bytes(), opt_bool_slot(self.audio))
                    + arg_if("accessibility".spec_bytes(), opt_u32_slot(self.accessibility)),
            ),
    {
        proof {
            self.lemma_written_by_name();
        }
        let mut cmd = OutCommand::new(
            Direction::C2S,
            Flags::empty(),
            PacketType::Command,
            "updatestream",
        );
        let fields = fields_exec(MessageKind::UpdateStream);
        let slots = self.to_slots();
        write_part(&mut cmd, &fields, &slots);
        cmd
    }
}

/// Writes `updatestream` commands.
pub struct OutUpdateStreamMessage;

impl OutUpdateStreamMessage {
    /// The argument slots of each of `parts`.
    pub open spec fn slots_of(parts: Seq<OutUpdateStreamPart>) -> Seq<Seq<Option<ValueV>>> {
        parts.map_values(|p: OutUpdateStreamPart| p.slots())
    }

    /// A command packet that carries the parts in order.
    pub fn new(parts: &Vec<OutUpdateStreamPart>) -> (r: OutCommand)
        ensures
            r.0.direction == Direction::C2S,
            r.0.flags.bits == 0,
            r.0.packet_type == PacketType::Command,
            r.0.content@ == written_parts(MessageKind::UpdateStream, Self::slots_of(parts@)),
    {
        let mut cmd = OutCommand::new(
            Direction::C2S,
            Flags::empty(),
            PacketType::Command,
            "updatestream",
        );
        let fields = fields_exec(MessageKind::UpdateStream);
        let mut all: Vec<Vec<Option<Value>>> = Vec::new();
        let mut i: usize = 0;
        while i < parts.len()
            invariant
                i <= parts.len(),
                fields@ == fields_of(MessageKind::UpdateStream),
                parts_view(all@) == Self::slots_of(parts@.take(i as int)),
                forall|k: int| 0 <= k < all@.len() ==> #[trigger] all@[k].len() == fields.len(),
            decreases parts.len() - i,
        {
            let s = parts[i].to_slots();
            let ghost before = parts_view(all@);
            all.push(s);
            proof {
                let t = parts@.take(i + 1);
                assert(t.drop_last() =~= parts@.take(i as int));
                assert(Self::slots_of(t) =~= Self::slots_of(t.drop_last()).push(t.last().slots()));
                assert(parts_view(all@) =~= before.push(slots_view(s@)));
            }
            i = i + 1;
        }
        assert(parts@.take(i as int) =~= parts@);
        write_parts(&mut cmd, &fields, &all);
        cmd
    }
}

/// The `updatestream` message: change the settings of a stream.
#[derive(Debug)]
pub struct InUpdateStream {
    list: Vec<InUpdateStreamPart>,
}

impl InUpdateStream {
    /// A message always has at least one part.
    #[verifier::type_invariant]
    spec fn has_parts(&self) -> bool {
        self.list.len() > 0
    }

    pub closed spec fn spec_parts(&self) -> Seq<InUpdateStreamPart> {
        self.list@
    }

    /// The argument slots of each of `parts`.
    pub open spec fn slots_of(parts: Seq<InUpdateStreamPart>) -> Seq<Seq<Option<ValueV>>> {
        parts.map_values(|p: InUpdateStreamPart| p.slots())
    }

    /// The argument slots of each part.
    pub open spec fn parts_slots(&self) -> Seq<Seq<Option<ValueV>>> {
        Self::slots_of(self.spec_parts())
    }

    /// The parts, in the order they came.
    pub fn parts(&self) -> (r: &Vec<InUpdateStreamPart>)
        ensures
            r@ == self.spec_parts(),
            r@.len() > 0,
    {
        proof {
            use_type_invariant(self);
        }
        &self.list
    }

    /// The first part.
    pub fn first(&self) -> (r: &InUpdateStreamPart)
        ensures
            self.spec_parts().len() > 0,
            *r == self.spec_parts()[0],
    {
        proof {
            use_type_invariant(self);
        }
        &self.list[0]
    }

    fn from_parts(ps: &Vec<Vec<Option<Value>>>) -> (r: InUpdateStream)
        requires
            ps@.len() > 0,
            forall|i: int|
                0 <= i < ps@.len() ==> part_fits(
                    fields_of(MessageKind::UpdateStream),
                    #[trigger] parts_view(ps@)[i],
                ),
        ensures
            r.parts_slots() == parts_view(ps@),
    {
        let mut list: Vec<InUpdateStreamPart> = Vec::new();
        let mut i: usize = 0;
        while i < ps.len()
            invariant
                i <= ps@.len(),
                forall|k: int|
                    0 <= k < ps@.len() ==> part_fits(
                        fields_of(MessageKind::UpdateStream),
                        #[trigger] parts_view(ps@)[k],
                    ),
                Self::slots_of(list@) == parts_view(ps@).take(i as int),
            decreases ps.len() - i,
        {
            assert(parts_view(ps@)[i as int] == slots_view(ps@[i as int]@));
            let p = InUpdateStreamPart::from_slots(&ps[i]);
            let ghost before = Self::slots_of(list@);
            list.push(p);
            i = i + 1;
            proof {
                assert(Self::slots_of(list@) =~= before.push(p.slots()));
                let pv = parts_view(ps@);
                assert(pv.take(i as int) =~= pv.take(i - 1).push(pv[i - 1]));
            }
        }
        assert(parts_view(ps@).take(i as int) =~= parts_view(ps@));
        let r = InUpdateStream { list };
        assert(r.parts_slots() =~= parts_view(ps@));
        r
    }
}

/// One part of `stopstream`: end a stream.
#[derive(Clone, Debug)]
pub struct InStopStreamPart {
    /// `id` on the wire.
    pub stream_id: String,
    pub reason: u32,
}

impl InStopStreamPart {
    /// The argument slots of this part, one per field.
    pub open spec fn slots(&self) -> Seq<Option<ValueV>> {
        seq![
            str_slot(self.stream_id),
            u32_slot(self.reason),
        ]
    }

    fn from_slots(s: &Vec<Option<Value>>) -> (r: InStopStreamPart)
        requires
            part_fits(fields_of(MessageKind::StopStream), slots_view(s@)),
        ensures
            r.slots() == slots_view(s@),
    {
        proof {
            let fs = fields_of(MessageKind::StopStream);
            let sv = slots_view(s@);
            assert(slot_fits(fs[0], sv[0]));
            assert(sv[0] == opt_view(s@[0]));
            assert(slot_fits(fs[1], sv[1]));
            assert(sv[1] == opt_view(s@[1]));
        }
        let r = InStopStreamPart {
            stream_id: take_str(&s[0]),
            reason: take_u32(&s[1]),
        };
        assert(r.slots() =~= slots_view(s@));
        r
    }
}

/// One part of `stopstream`: end a stream.
#[derive(Clone, Debug)]
pub struct OutStopStreamPart {
    /// `id` on the wire.
    pub stream_id: String,
    pub reason: u32,
}

impl OutStopStreamPart {
    /// The argument slots of this part, one per field.
    pub open spec fn slots(&self) -> Seq<Option<ValueV>> {
        seq![
            str_slot(self.stream_id),
            u32_slot(self.reason),
        ]
    }

    fn to_slots(&self) -> (r: Vec<Option<Value>>)
        ensures
            slots_view(r@) == self.slots(),
            r@.len() == fields_of(MessageKind::StopStream).len(),
    {
        let mut v: Vec<Option<Value>> = Vec::new();
        v.push(put_str(&self.stream_id));
        v.push(put_u32(self.reason));
        assert(slots_view(v@) =~= self.slots());
        v
    }

    /// A command packet that carries this part alone.
    pub fn to_packet(self) -> (r: OutCommand)
        ensures
            r.0.direction == Direction::C2S,
            r.0.flags.bits == 0,
            r.0.packet_type == PacketType::Command,
            r.0.content@ == written(MessageKind::StopStream, self.slots()),
            r.0.content@ == append_args(
                "stopstream".spec_bytes(),
                arg_if("id".spec_bytes(), str_slot(self.stream_id))
                    + arg_if("reason".spec_bytes(), u32_slot(self.reason)),
            ),
    {
        proof {
            self.lemma_written_by_name();
        }
        let mut cmd = OutCommand::new(
            Direction::C2S,
            Flags::empty(),
            PacketType::Command,
            "stopstream",
        );
        let fields = fields_exec(MessageKind::StopStream);
        let slots = self.to_slots();
        write_part(&mut cmd, &fields, &slots);
        cmd
    }
}

/// Writes `stopstream` commands.
pub struct OutStopStreamMessage;

impl OutStopStreamMessage {
    /// The argument slots of each of `parts`.
    pub open spec fn slots_of(parts: Seq<OutStopStreamPart>) -> Seq<Seq<Option<ValueV>>> {
        parts.map_values(|p: OutStopStreamPart| p.slots())
    }

    /// A command packet that carries the parts in order.
    pub fn new(parts: &Vec<OutStopStreamPart>) -> (r: OutCommand)
        ensures
            r.0.direction == Direction::C2S,
            r.0.flags.bits == 0,
            r.0.packet_type == PacketType::Command,
            r.0.content@ == written_parts(MessageKind::StopStream, Self::slots_of(parts@)),
    {
        let mut cmd = OutCommand::new(
            Direction::C2S,
            Flags::empty(),
            PacketType::Command,
            "stopstream",
        );
        let fields = fields_exec(MessageKind::StopStream);
        let mut all: Vec<Vec<Option<Value>>> = Vec::new();
        let mut i: usize = 0;
        while i < parts.len()
            invariant
                i <= parts.len(),
                fields@ == fields_of(MessageKind::StopStream),
                parts_view(all@) == Self::slots_of(parts@.take(i as int)),
                forall|k: int| 0 <= k < all@.len() ==> #[trigger] all@[k].len() == fields.len(),
            decreases parts.len() - i,
        {
            let s = parts[i].to_slots();
            let ghost before = parts_view(all@);
            all.push(s);
            proof {
                let t = parts@.take(i + 1);
                assert(t.drop_last() =~= parts@.take(i as int));
                assert(Self::slots_of(t) =~= Self::slots_of(t.drop_last()).push(t.last().slots()));
                assert(parts_view(all@) =~= before.push(slots_view(s@)));
            }
            i = i + 1;
        }
        assert(parts@.take(i as int) =~= parts@);
        write_parts(&mut cmd, &fields, &all);
        cmd
    }
}

/// The `stopstream` message: end a stream.
#[derive(Debug)]
pub struct InStopStream {
    list: Vec<InStopStreamPart>,
}

impl InStopStream {
    /// A message always has at least one part.
    #[verifier::type_invariant]
    spec fn has_parts(&self) -> bool {
        self.list.len() > 0
    }

    pub closed spec fn spec_parts(&self) -> Seq<InStopStreamPart> {
        self.list@
    }

    /// The argument slots of each of `parts`.
    pub open spec fn slots_of(parts: Seq<InStopStreamPart>) -> Seq<Seq<Option<ValueV>>> {
        parts.map_values(|p: InStopStreamPart| p.slots())
    }

    /// The argument slots of each part.
    pub open spec fn parts_slots(&self) -> Seq<Seq<Option<ValueV>>> {
        Self::slots_of(self.spec_parts())
    }

    /// The parts, in the order they came.
    pub fn parts(&self) -> (r: &Vec<InStopStreamPart>)
        ensures
            r@ == self.spec_parts(),
            r@.len() > 0,
    {
        proof {
            use_type_invariant(self);
        }
        &self.list
    }

    /// The first part.
    pub fn first(&self) -> (r: &InStopStreamPart)
        ensures
            self.spec_parts().len() > 0,
            *r == self.spec_parts()[0],
    {
        proof {
            use_type_invariant(self);
        }
        &self.list[0]
    }

    fn from_parts(ps: &Vec<Vec<Option<Value>>>) -> (r: InStopStream)
        requires
            ps@.len() > 0,
            forall|i: int|
                0 <= i < ps@.len() ==> part_fits(
                    fields_of(MessageKind::StopStream),
                    #[trigger] parts_view(ps@)[i],
                ),
        ensures
            r.parts_slots() == parts_view(ps@),
    {
        let mut list: Vec<InStopStreamPart> = Vec::new();
        let mut i: usize = 0;
        while i < ps.len()
            invariant
                i <= ps@.len(),
                forall|k: int|
                    0 <= k < ps@.len() ==> part_fits(
                        fields_of(MessageKind::StopStream),
                        #[trigger] parts_view(ps@)[k],
                    ),
                Self::slots_of(list@) == parts_view(ps@).take(i as int),
            decreases ps.len() - i,
        {
            assert(parts_view(ps@)[i as int] == slots_view(ps@[i as int]@));
            let p = InStopStreamPart::from_slots(&ps[i]);
            let ghost before = Self::slots_of(list@);
            list.push(p);
            i = i + 1;
            proof {
                assert(Self::slots_of(list@) =~= before.push(p.slots()));
                let pv = parts_view(ps@);
                assert(pv.take(i as int) =~= pv.take(i - 1).push(pv[i - 1]));
            }
        }
        assert(parts_view(ps@).take(i as int) =~= parts_view(ps@));
        let r = InStopStream { list };
        assert(r.parts_slots() =~= parts_view(ps@));
        r
    }
}

/// One part of `respondjoinstreamrequest`: answer a request to join.
#[derive(Clone, Debug)]
pub struct InRespondJoinStreamRequestPart {
    /// `clid` on the wire.
    pub client_id: ClientId,
    /// `id` on the wire.
    pub stream_id: String,
    pub decision: u32,
    /// `msg` on the wire.
    pub message: String,
    pub offer: String,
}

impl InRespondJoinStreamRequestPart {
    /// The argument slots of this part, one per field.
    pub open spec fn slots(&self) -> Seq<Option<ValueV>> {
        seq![
            cid_slot(self.client_id),
            str_slot(self.stream_id),
            u32_slot(self.decision),
            str_slot(self.message),
            str_slot(self.offer),
        ]
    }

    fn from_slots(s: &Vec<Option<Value>>) -> (r: InRespondJoinStreamRequestPart)
        requires
            part_fits(fields_of(MessageKind::RespondJoinStreamRequest), slots_view(s@)),
        ensures
            r.slots() == slots_view(s@),
    {
        proof {
            let fs = fields_of(MessageKind::RespondJoinStreamRequest);
            let sv = slots_view(s@);
            assert(slot_fits(fs[0], sv[0]));
            assert(sv[0] == opt_view(s@[0]));
            assert(slot_fits(fs[1], sv[1]));
            assert(sv[1] == opt_view(s@[1]));
            assert(slot_fits(fs[2], sv[2]));
            assert(sv[2] == opt_view(s@[2]));
            assert(slot_fits(fs[3], sv[3]));
            assert(sv[3] == opt_view(s@[3]));
            assert(slot_fits(fs[4], sv[4]));
            assert(sv[4] == opt_view(s@[4]));
        }
        let r = InRespondJoinStreamRequestPart {
            client_id: take_cid(&s[0]),
            stream_id: take_str(&s[1]),
            decision: take_u32(&s[2]),
            message: take_str(&s[3]),
            offer: take_str(&s[4]),
        };
        assert(r.slots() =~= slots_view(s@));
        r
    }
}

/// One part of `respondjoinstreamrequest`: answer a request to join.
#[derive(Clone, Debug)]
pub struct OutRespondJoinStreamRequestPart {
    /// `clid` on the wire.
    pub client_id: ClientId,
    /// `id` on the wire.
    pub stream_id: String,
    pub decision: u32,
    /// `msg` on the wire.
    pub message: String,
    pub offer: String,
}

impl OutRespondJoinStreamRequestPart {
    /// The argument slots of this part, one per field.
    pub open spec fn slots(&self) -> Seq<Option<ValueV>> {
        seq![
            cid_slot(self.client_id),
            str_slot(self.stream_id),
            u32_slot(self.decision),
            str_slot(self.message),
            str_slot(self.offer),
        ]
    }

    fn to_slots(&self) -> (r: Vec<Option<Value>>)
        ensures
            slots_view(r@) == self.slots(),
            r@.len() == fields_of(MessageKind::RespondJoinStreamRequest).len(),
    {
        let mut v: Vec<Option<Value>> = Vec::new();
        v.push(put_cid(self.client_id));
        v.push(put_str(&self.stream_id));
        v.push(put_u32(self.decision));
        v.push(put_str(&self.message));
        v.push(put_str(&self.offer));
        assert(slots_view(v@) =~= self.slots());
        v
    }

    /// A command packet that carries this part alone.
    pub fn to_packet(self) -> (r: OutCommand)
        ensures
            r.0.direction == Direction::C2S,
            r.0.flags.bits == 0,
            r.0.packet_type == PacketType::Command,
            r.0.content@ == written(MessageKind::RespondJoinStreamRequest, self.slots()),
            r.0.content@ == append_args(
                "respondjoinstreamrequest".spec_bytes(),
                arg_if("clid".spec_bytes(), cid_slot(self.client_id))
                    + arg_if("id".spec_bytes(), str_slot(self.stream_id))
                    + arg_if("decision".spec_bytes(), u32_slot(self.decision))
                    + arg_if("msg".spec_bytes(), str_slot(self.message))
                    + arg_if("offer".spec_bytes(), str_slot(self.offer)),
            ),
    {
        proof {
            self.lemma_written_by_name();
        }
        let mut cmd = OutCommand::new(
            Direction::C2S,
            Flags::empty(),
            PacketType::Command,
            "respondjoinstreamrequest",
        );
        let fields = fields_exec(MessageKind::RespondJoinStreamRequest);
        let slots = self.to_slots();
        write_part(&mut cmd, &fields, &slots);
        cmd
    }
}

/// Writes `respondjoinstreamrequest` commands.
pub struct OutRespondJoinStreamRequestMessage;

impl OutRespondJoinStreamRequestMessage {
    /// The argument slots of each of `parts`.
    pub open spec fn slots_of(parts: Seq<OutRespondJoinStreamRequestPart>) -> Seq<Seq<Option<ValueV>>> {
        parts.map_values(|p: OutRespondJoinStreamRequestPart| p.slots())
    }

    /// A command packet that carries the parts in order.
    pub fn new(parts: &Vec<OutRespondJoinStreamRequestPart>) -> (r: OutCommand)
        ensures
            r.0.direction == Direction::C2S,
            r.0.flags.bits == 0,
            r.0.packet_type == PacketType::Command,
            r.0.content@ == written_parts(MessageKind::RespondJoinStreamRequest, Self::slots_of(parts@)),
    {
        let mut cmd = OutCommand::new(
            Direction::C2S,
            Flags::empty(),
            PacketType::Command,
            "respondjoinstreamrequest",
        );
        let fields = fields_exec(MessageKind::RespondJoinStreamRequest);
        let mut all: Vec<Vec<Option<Value>>> = Vec::new();
        let mut i: usize = 0;
        while i < parts.len()
            invariant
                i <= parts.len(),
                fields@ == fields_of(MessageKind::RespondJoinStreamRequest),
                parts_view(all@) == Self::slots_of(parts@.take(i as int)),
                forall|k: int| 0 <= k < all@.len() ==> #[trigger] all@[k].len() == fields.len(),
            decreases parts.len() - i,
        {
            let s = parts[i].to_slots();
            let ghost before = parts_view(all@);
            all.push(s);
            proof {
                let t = parts@.take(i + 1);
                assert(t.drop_last() =~= parts@.take(i as int));
                assert(Self::slots_of(t) =~= Self::slots_of(t.drop_last()).push(t.last().slots()));
                assert(parts_view(all@) =~= before.push(slots_view(s@)));
            }
            i = i + 1;
        }
        assert(parts@.take(i as int) =~= parts@);
        write_parts(&mut cmd, &fields, &all);
        cmd
    }
}

/// The `respondjoinstreamrequest` message: answer a request to join.
#[derive(Debug)]
pub struct InRespondJoinStreamRequest {
    list: Vec<InRespondJoinStreamRequestPart>,
}

impl InRespondJoinStreamRequest {
    /// A message always has at least one part.
    #[verifier::type_invariant]
    spec fn has_parts(&self) -> bool {
        self.list.len() > 0
    }

    pub closed spec fn spec_parts(&self) -> Seq<InRespondJoinStreamRequestPart> {
        self.list@
    }

    /// The argument slots of each of `parts`.
    pub open spec fn slots_of(parts: Seq<InRespondJoinStreamRequestPart>) -> Seq<Seq<Option<ValueV>>> {
        parts.map_values(|p: InRespondJoinStreamRequestPart| p.slots())
    }

    /// The argument slots of each part.
    pub open spec fn parts_slots(&self) -> Seq<Seq<Option<ValueV>>> {
        Self::slots_of(self.spec_parts())
    }

    /// The parts, in the order they came.
    pub fn parts(&self) -> (r: &Vec<InRespondJoinStreamRequestPart>)
        ensures
            r@ == self.spec_parts(),
            r@.len() > 0,
    {
        proof {
            use_type_invariant(self);
        }
        &self.list
    }

    /// The first part.
    pub fn first(&self) -> (r: &InRespondJoinStreamRequestPart)
        ensures
            self.spec_parts().len() > 0,
            *r == self.spec_parts()[0],
    {
        proof {
            use_type_invariant(self);
        }
        &self.list[0]
    }

    fn from_parts(ps: &Vec<Vec<Option<Value>>>) -> (r: InRespondJoinStreamRequest)
        requires
            ps@.len() > 0,
            forall|i: int|
                0 <= i < ps@.len() ==> part_fits(
                    fields_of(MessageKind::RespondJoinStreamRequest),
                    #[trigger] parts_view(ps@)[i],
                ),
        ensures
            r.parts_slots() == parts_view(ps@),
    {
        let mut list: Vec<InRespondJoinStreamRequestPart> = Vec::new();
        let mut i: usize = 0;
        while i < ps.len()
            invariant
                i <= ps@.len(),
                forall|k: int|
                    0 <= k < ps@.len() ==> part_fits(
                        fields_of(MessageKind::RespondJoinStreamRequest),
                        #[trigger] parts_view(ps@)[k],
                    ),
                Self::slots_of(list@) == parts_view(ps@).take(i as int),
            decreases ps.len() - i,
        {
            assert(parts_view(ps@)[i as int] == slots_view(ps@[i as int]@));
            let p = InRespondJoinStreamRequestPart::from_slots(&ps[i]);
            let ghost before = Self::slots_of(list@);
            list.push(p);
            i = i + 1;
            proof {
                assert(Self::slots_of(list@) =~= before.push(p.slots()));
                let pv = parts_view(ps@);
                assert(pv.take(i as int) =~= pv.take(i - 1).push(pv[i - 1]));
            }
        }
        assert(parts_view(ps@).take(i as int) =~= parts_view(ps@));
        let r = InRespondJoinStreamRequest { list };
        assert(r.parts_slots() =~= parts_view(ps@));
        r
    }
}

/// One part of `removeclientfromstream`: remove a viewer from a stream.
#[derive(Clone, Debug)]
pub struct InRemoveClientFromStreamPart {
    /// `clid` on the wire.
    pub client_id: ClientId,
    /// `id` on the wire.
    pub stream_id: String,
    pub reason: u32,
}

impl InRemoveClientFromStreamPart {
    /// The argument slots of this part, one per field.
    pub open spec fn slots(&self) -> Seq<Option<ValueV>> {
        seq![
            cid_slot(self.client_id),
            str_slot(self.stream_id),
            u32_slot(self.reason),
        ]
    }

    fn from_slots(s: &Vec<Option<Value>>) -> (r: InRemoveClientFromStreamPart)
        requires
            part_fits(fields_of(MessageKind::RemoveClientFromStream), slots_view(s@)),
        ensures
            r.slots() == slots_view(s@),
    {
        proof {
            let fs = fields_of(MessageKind::RemoveClientFromStream);
            let sv = slots_view(s@);
            assert(slot_fits(fs[0], sv[0]));
            assert(sv[0] == opt_view(s@[0]));
            assert(slot_fits(fs[1], sv[1]));
            assert(sv[1] == opt_view(s@[1]));
            assert(slot_fits(fs[2], sv[2]));
            assert(sv[2] == opt_view(s@[2]));
        }
        let r = InRemoveClientFromStreamPart {
            client_id: take_cid(&s[0]),
            stream_id: take_str(&s[1]),
            reason: take_u32(&s[2]),
        };
        assert(r.slots() =~= slots_view(s@));
        r
    }
}

/// One part of `removeclientfromstream`: remove a viewer from a stream.
#[derive(Clone, Debug)]
pub struct OutRemoveClientFromStreamPart {
    /// `clid` on the wire.
    pub client_id: ClientId,
    /// `id` on the wire.
    pub stream_id: String,
    pub reason: u32,
}

impl OutRemoveClientFromStreamPart {
    /// The argument slots of this part, one per field.
    pub open spec fn slots(&self) -> Seq<Option<ValueV>> {
        seq![
            cid_slot(self.client_id),
            str_slot(self.stream_id),
            u32_slot(self.reason),
        ]
    }

    fn to_slots(&self) -> (r: Vec<Option<Value>>)
        ensures
            slots_view(r@) == self.slots(),
            r@.len() == fields_of(MessageKind::RemoveClientFromStream).len(),
    {
        let mut v: Vec<Option<Value>> = Vec::new();
        v.push(put_cid(self.client_id));
        v.push(put_str(&self.stream_id));
        v.push(put_u32(self.reason));
        assert(slots_view(v@) =~= self.slots());
        v
    }

    /// A command packet that carries this part alone.
    pub fn to_packet(self) -> (r: OutCommand)
        ensures
            r.0.direction == Direction::C2S,
            r.0.flags.bits == 0,
            r.0.packet_type == PacketType::Command,
            r.0.content@ == written(MessageKind::RemoveClientFromStream, self.slots()),
            r.0.content@ == append_args(
                "removeclientfromstream".spec_bytes(),
                arg_if("clid".spec_bytes(), cid_slot(self.client_id))
                    + arg_if("id".spec_bytes(), str_slot(self.stream_id))
                    + arg_if("reason".spec_bytes(), u32_slot(self.reason)),
            ),
    {
        proof {
            self.lemma_written_by_name();
        }
        let mut cmd = OutCommand::new(
            Direction::C2S,
            Flags::empty(),
            PacketType::Command,
            "removeclientfromstream",
        );
        let fields = fields_exec(MessageKind::RemoveClientFromStream);
        let slots = self.to_slots();
        write_part(&mut cmd, &fields, &slots);
        cmd
    }
}

/// Writes `removeclientfromstream` commands.
pub struct OutRemoveClientFromStreamMessage;

impl OutRemoveClientFromStreamMessage {
    /// The argument slots of each of `parts`.
    pub open spec fn slots_of(parts: Seq<OutRemoveClientFromStreamPart>) -> Seq<Seq<Option<ValueV>>> {
        parts.map_values(|p: OutRemoveClientFromStreamPart| p.slots())
    }

    /// A command packet that carries the parts in order.
    pub fn new(parts: &Vec<OutRemoveClientFromStreamPart>) -> (r: OutCommand)
        ensures
            r.0.direction == Direction::C2S,
            r.0.flags.bits == 0,
            r.0.packet_type == PacketType::Command,
            r.0.content@ == written_parts(MessageKind::RemoveClientFromStream, Self::slots_of(parts@)),
    {
        let mut cmd = OutCommand::new(
            Direction::C2S,
            Flags::empty(),
            PacketType::Command,
            "removeclientfromstream",
        );
        let fields = fields_exec(MessageKind::RemoveClientFromStream);
        let mut all: Vec<Vec<Option<Value>>> = Vec::new();
        let mut i: usize = 0;
        while i < parts.len()
            invariant
                i <= parts.len(),
                fields@ == fields_of(MessageKind::RemoveClientFromStream),
                parts_view(all@) == Self::slots_of(parts@.take(i as int)),
                forall|k: int| 0 <= k < all@.len() ==> #[trigger] all@[k].len() == fields.len(),
            decreases parts.len() - i,
        {
            let s = parts[i].to_slots();
            let ghost before = parts_view(all@);
            all.push(s);
            proof {
                let t = parts@.take(i + 1);
                assert(t.drop_last() =~= parts@.take(i as int));
                assert(Self::slots_of(t) =~= Self::slots_of(t.drop_last()).push(t.last().slots()));
                assert(parts_view(all@) =~= before.push(slots_view(s@)));
            }
            i = i + 1;
        }
        assert(parts@.take(i as int) =~= parts@);
        write_parts(&mut cmd, &fields, &all);
        cmd
    }
}

/// The `removeclientfromstream` message: remove a viewer from a stream.
#[derive(Debug)]
pub struct InRemoveClientFromStream {
    list: Vec<InRemoveClientFromStreamPart>,
}

impl InRemoveClientFromStream {
    /// A message always has at least one part.
    #[verifier::type_invariant]
    spec fn has_parts(&self) -> bool {
        self.list.len() > 0
    }

    pub closed spec fn spec_parts(&self) -> Seq<InRemoveClientFromStreamPart> {
        self.list@
    }

    /// The argument slots of each of `parts`.
    pub open spec fn slots_of(parts: Seq<InRemoveClientFromStreamPart>) -> Seq<Seq<Option<ValueV>>> {
        parts.map_values(|p: InRemoveClientFromStreamPart| p.slots())
    }

    /// The argument slots of each part.
    pub open spec fn parts_slots(&self) -> Seq<Seq<Option<ValueV>>> {
        Self::slots_of(self.spec_parts())
    }

    /// The parts, in the order they came.
    pub fn parts(&self) -> (r: &Vec<InRemoveClientFromStreamPart>)
        ensures
            r@ == self.spec_parts(),
            r@.len() > 0,
    {
        proof {
            use_type_invariant(self);
        }
        &self.list
    }

    /// The first part.
    pub fn first(&self) -> (r: &InRemoveClientFromStreamPart)
        ensures
            self.spec_parts().len() > 0,
            *r == self.spec_parts()[0],
    {
        proof {
            use_type_invariant(self);
        }
        &self.list[0]
    }

    fn from_parts(ps: &Vec<Vec<Option<Value>>>) -> (r: InRemoveClientFromStream)
        requires
            ps@.len() > 0,
            forall|i: int|
                0 <= i < ps@.len() ==> part_fits(
                    fields_of(MessageKind::RemoveClientFromStream),
                    #[trigger] parts_view(ps@)[i],
                ),
        ensures
            r.parts_slots() == parts_view(ps@),
    {
        let mut list: Vec<InRemoveClientFromStreamPart> = Vec::new();
        let mut i: usize = 0;
        while i < ps.len()
            invariant
                i <= ps@.len(),
                forall|k: int|
                    0 <= k < ps@.len() ==> part_fits(
                        fields_of(MessageKind::RemoveClientFromStream),
                        #[trigger] parts_view(ps@)[k],
                    ),
                Self::slots_of(list@) == parts_view(ps@).take(i as int),
            decreases ps.len() - i,
        {
            assert(parts_view(ps@)[i as int] == slots_view(ps@[i as int]@));
            let p = InRemoveClientFromStreamPart::from_slots(&ps[i]);
            let ghost before = Self::slots_of(list@);
            list.push(p);
            i = i + 1;
            proof {
                assert(Self::slots_of(list@) =~= before.push(p.slots()));
                let pv = parts_view(ps@);
                assert(pv.take(i as int) =~= pv.take(i - 1).push(pv[i - 1]));
            }
        }
        assert(parts_view(ps@).take(i as int) =~= parts_view(ps@));
        let r = InRemoveClientFromStream { list };
        assert(r.parts_slots() =~= parts_view(ps@));
        r
    }
}

/// A message read from a command.
#[derive(Debug)]
pub enum InMessage {
    JoinStreamRequest(InJoinStreamRequest),
    RequestStreamInfo(InRequestStreamInfo),
    StreamSignaling(InStreamSignaling),
    SetupStream(InSetupStream),
    UpdateStream(InUpdateStream),
    StopStream(InStopStream),
    RespondJoinStreamRequest(InRespondJoinStreamRequest),
    RemoveClientFromStream(InRemoveClientFromStream),
}

impl InMessage {
    pub open spec fn kind(&self) -> MessageKind {
        match self {
            InMessage::JoinStreamRequest(_) => MessageKind::JoinStreamRequest,
            InMessage::RequestStreamInfo(_) => MessageKind::RequestStreamInfo,
            InMessage::StreamSignaling(_) => MessageKind::StreamSignaling,
            InMessage::SetupStream(_) => MessageKind::SetupStream,
            InMessage::UpdateStream(_) => MessageKind::UpdateStream,
            InMessage::StopStream(_) => MessageKind::StopStream,
            InMessage::RespondJoinStreamRequest(_) => MessageKind::RespondJoinStreamRequest,
            InMessage::RemoveClientFromStream(_) => MessageKind::RemoveClientFromStream,
        }
    }

    /// The argument slots of each part of the message.
    pub open spec fn parts_slots(&self) -> Seq<Seq<Option<ValueV>>> {
        match self {
            InMessage::JoinStreamRequest(m) => m.parts_slots(),
            InMessage::RequestStreamInfo(m) => m.parts_slots(),
            InMessage::StreamSignaling(m) => m.parts_slots(),
            InMessage::SetupStream(m) => m.parts_slots(),
            InMessage::UpdateStream(m) => m.parts_slots(),
            InMessage::StopStream(m) => m.parts_slots(),
            InMessage::RespondJoinStreamRequest(m) => m.parts_slots(),
            InMessage::RemoveClientFromStream(m) => m.parts_slots(),
        }
    }

    /// The command name of the message.
    pub fn get_command_name(&self) -> (r: &'static str)
        ensures
            r == notify_name(self.kind()),
    {
        match self {
            InMessage::JoinStreamRequest(_) => "joinstreamrequest",
            InMessage::RequestStreamInfo(_) => "requeststreaminfo",
            InMessage::StreamSignaling(_) => "streamsignaling",
            InMessage::SetupStream(_) => "setupstream",
            InMessage::UpdateStream(_) => "updatestream",
            InMessage::StopStream(_) => "stopstream",
            InMessage::RespondJoinStreamRequest(_) => "respondjoinstreamrequest",
            InMessage::RemoveClientFromStream(_) => "removeclientfromstream",
        }
    }

    /// Reads the command `cmd` that arrived in a packet with header `header`.
    pub fn new(header: &InHeader, cmd: &[u8]) -> (r: Result<InMessage, ParseError>)
        ensures
            match r {
                Ok(m) => decode_spec(*header, cmd@) == Ok::<Decoded, ParseErrorV>(
                    (m.kind(), m.parts_slots()),
                ),
                Err(e) => decode_spec(*header, cmd@) == Err::<Decoded, ParseErrorV>(e@),
            },
    {
        let parsed = parse(cmd);
        let kind = match kind_of_name_exec(parsed.name.as_slice()) {
            Some(k) => k,
            None => {
                return match bytes_to_string(parsed.name.as_slice()) {
                    Some(s) => Err(ParseError::UnknownCommand(s)),
                    None => Err(ParseError::InvalidUtf8),
                };
            },
        };
        if header.packet_type != PacketType::Command {
            return Err(ParseError::WrongPacketType(header.packet_type));
        }
        if header.direction == Direction::S2C {
            return Err(ParseError::WrongDirection(Direction::S2C));
        }
        let fields = fields_exec(kind);
        let ps = match decode_parts(&fields, message_name_exec(kind), &parsed.items) {
            Ok(ps) => ps,
            Err(e) => {
                return Err(e);
            },
        };
        proof {
            lemma_decode_parts_fits(fields@, message_name(kind), crate::commands::items_view(parsed.items@));
        }
        match kind {
            MessageKind::JoinStreamRequest => {
                let m = InJoinStreamRequest::from_parts(&ps);
                Ok(InMessage::JoinStreamRequest(m))
            },
            MessageKind::RequestStreamInfo => {
                let m = InRequestStreamInfo::from_parts(&ps);
                Ok(InMessage::RequestStreamInfo(m))
            },
            MessageKind::StreamSignaling => {
                let m = InStreamSignaling::from_parts(&ps);
                Ok(InMessage::StreamSignaling(m))
            },
            MessageKind::SetupStream => {
                let m = InSetupStream::from_parts(&ps);
                Ok(InMessage::SetupStream(m))
            },
            MessageKind::UpdateStream => {
                let m = InUpdateStream::from_parts(&ps);
                Ok(InMessage::UpdateStream(m))
            },
            MessageKind::StopStream => {
                let m = InStopStream::from_parts(&ps);
                Ok(InMessage::StopStream(m))
            },
            MessageKind::RespondJoinStreamRequest => {
                let m = InRespondJoinStreamRequest::from_parts(&ps);
                Ok(InMessage::RespondJoinStreamRequest(m))
            },
            MessageKind::RemoveClientFromStream => {
                let m = InRemoveClientFromStream::from_parts(&ps);
                Ok(InMessage::RemoveClientFromStream(m))
            },
        }
    }
}

/// The header that `to_packet` gives a client command.
pub open spec fn command_header() -> InHeader {
    InHeader { direction: Direction::C2S, flags: Flags { bits: 0 }, packet_type: PacketType::Command }
}

proof fn lemma_command_names_differ()
    ensures
        "joinstreamrequest".spec_bytes() != "requeststreaminfo".spec_bytes(),
        "joinstreamrequest".spec_bytes() != "streamsignaling".spec_bytes(),
        "joinstreamrequest".spec_bytes() != "setupstream".spec_bytes(),
        "joinstreamrequest".spec_bytes() != "updatestream".spec_bytes(),
        "joinstreamrequest".spec_bytes() != "stopstream".spec_bytes(),
        "joinstreamrequest".spec_bytes() != "respondjoinstreamrequest".spec_bytes(),
        "joinstreamrequest".spec_bytes() != "removeclientfromstream".spec_bytes(),
        "requeststreaminfo".spec_bytes() != "streamsignaling".spec_bytes(),
        "requeststreaminfo".spec_bytes() != "setupstream".spec_bytes(),
        "requeststreaminfo".spec_bytes() != "updatestream".spec_bytes(),
        "requeststreaminfo".spec_bytes() != "stopstream".spec_bytes(),
        "requeststreaminfo".spec_bytes() != "respondjoinstreamrequest".spec_bytes(),
        "requeststreaminfo".spec_bytes() != "removeclientfromstream".spec_bytes(),
        "streamsignaling".spec_bytes() != "setupstream".spec_bytes(),
        "streamsignaling".spec_bytes() != "updatestream".spec_bytes(),
        "streamsignaling".spec_bytes() != "stopstream".spec_bytes(),
        "streamsignaling".spec_bytes() != "respondjoinstreamrequest".spec_bytes(),
        "streamsignaling".spec_bytes() != "removeclientfromstream".spec_bytes(),
        "setupstream".spec_bytes() != "updatestream".spec_bytes(),
        "setupstream".spec_bytes() != "stopstream".spec_bytes(),
        "setupstream".spec_bytes() != "respondjoinstreamrequest".spec_bytes(),
        "setupstream".spec_bytes() != "removeclientfromstream".spec_bytes(),
        "updatestream".spec_bytes() != "stopstream".spec_bytes(),
        "updatestream".spec_bytes() != "respondjoinstreamrequest".spec_bytes(),
        "updatestream".spec_bytes() != "removeclientfromstream".spec_bytes(),
        "stopstream".spec_bytes() != "respondjoinstreamrequest".spec_bytes(),
        "stopstream".spec_bytes() != "removeclientfromstream".spec_bytes(),
        "respondjoinstreamrequest".spec_bytes() != "removeclientfromstream".spec_bytes(),
{
    reveal_strlit("joinstreamrequest");
    reveal_strlit("requeststreaminfo");
    reveal_strlit("streamsignaling");
    reveal_strlit("setupstream");
    reveal_strlit("updatestream");
    reveal_strlit("stopstream");
    reveal_strlit("respondjoinstreamrequest");
    reveal_strlit("removeclientfromstream");
    assert("joinstreamrequest"@[0] != "requeststreaminfo"@[0]);
    lemma_str_bytes_differ("joinstreamrequest", "requeststreaminfo");
    lemma_str_bytes_differ("joinstreamrequest", "streamsignaling");
    lemma_str_bytes_differ("joinstreamrequest", "setupstream");
    lemma_str_bytes_differ("joinstreamrequest", "updatestream");
    lemma_str_bytes_differ("joinstreamrequest", "stopstream");
    lemma_str_bytes_differ("joinstreamrequest", "respondjoinstreamrequest");
    lemma_str_bytes_differ("joinstreamrequest", "removeclientfromstream");
    lemma_str_bytes_differ("requeststreaminfo", "streamsignaling");
    lemma_str_bytes_differ("requeststreaminfo", "setupstream");
    lemma_str_bytes_differ("requeststreaminfo", "updatestream");
    lemma_str_bytes_differ("requeststreaminfo", "stopstream");
    lemma_str_bytes_differ("requeststreaminfo", "respondjoinstreamrequest");
    lemma_str_bytes_differ("requeststreaminfo", "removeclientfromstream");
    lemma_str_bytes_differ("streamsignaling", "setupstream");
    lemma_str_bytes_differ("streamsignaling", "updatestream");
    lemma_str_bytes_differ("streamsignaling", "stopstream");
    lemma_str_bytes_differ("streamsignaling", "respondjoinstreamrequest");
    lemma_str_bytes_differ("streamsignaling", "removeclientfromstream");
    lemma_str_bytes_differ("setupstream", "updatestream");
    lemma_str_bytes_differ("setupstream", "stopstream");
    lemma_str_bytes_differ("setupstream", "respondjoinstreamrequest");
    lemma_str_bytes_differ("setupstream", "removeclientfromstream");
    lemma_str_bytes_differ("updatestream", "stopstream");
    lemma_str_bytes_differ("updatestream", "respondjoinstreamrequest");
    lemma_str_bytes_differ("updatestream", "removeclientfromstream");
    lemma_str_bytes_differ("stopstream", "respondjoinstreamrequest");
    lemma_str_bytes_differ("stopstream", "removeclientfromstream");
    lemma_str_bytes_differ("respondjoinstreamrequest", "removeclientfromstream");
}

proof fn lemma_names_join_stream_request()
    ensures
        valid_command_name(notify_name(MessageKind::JoinStreamRequest).spec_bytes()),
        valid_fields(fields_of(MessageKind::JoinStreamRequest)),
        kind_of_name(notify_name(MessageKind::JoinStreamRequest).spec_bytes())
            == Some(MessageKind::JoinStreamRequest),
{
    reveal_strlit("joinstreamrequest");
    lemma_lowercase_str("joinstreamrequest");
    reveal_strlit("clid");
    lemma_ascii_str("clid");
    reveal_strlit("id");
    lemma_ascii_str("id");
    reveal_strlit("is_remove");
    lemma_ascii_str("is_remove");
    reveal_strlit("msg");
    lemma_ascii_str("msg");
    lemma_str_bytes_differ("id", "clid");
    lemma_str_bytes_differ("id", "is_remove");
    lemma_str_bytes_differ("id", "msg");
    lemma_str_bytes_differ("clid", "is_remove");
    lemma_str_bytes_differ("clid", "msg");
    lemma_str_bytes_differ("is_remove", "msg");
    lemma_command_names_differ();
    let fs = fields_of(MessageKind::JoinStreamRequest);
    assert forall|j: int| 0 <= j < fs.len() implies valid_arg_name(field_name(#[trigger] fs[j])) by {
        let b = field_name(fs[j]);
        assert forall|i: int| 0 <= i < b.len() implies !is_space(#[trigger] b[i]) && !ends_name(b[i]) by {
        }
    }
    let c = notify_name(MessageKind::JoinStreamRequest).spec_bytes();
    assert forall|i: int| 0 <= i < c.len() implies is_alnum(#[trigger] c[i]) by {}
}

proof fn lemma_names_request_stream_info()
    ensures
        valid_command_name(notify_name(MessageKind::RequestStreamInfo).spec_bytes()),
        valid_fields(fields_of(MessageKind::RequestStreamInfo)),
        kind_of_name(notify_name(MessageKind::RequestStreamInfo).spec_bytes())
            == Some(MessageKind::RequestStreamInfo),
{
    reveal_strlit("requeststreaminfo");
    lemma_lowercase_str("requeststreaminfo");
    reveal_strlit("clid");
    lemma_ascii_str("clid");
    reveal_strlit("id");
    lemma_ascii_str("id");
    lemma_str_bytes_differ("clid", "id");
    lemma_command_names_differ();
    let fs = fields_of(MessageKind::RequestStreamInfo);
    assert forall|j: int| 0 <= j < fs.len() implies valid_arg_name(field_name(#[trigger] fs[j])) by {
        let b = field_name(fs[j]);
        assert forall|i: int| 0 <= i < b.len() implies !is_space(#[trigger] b[i]) && !ends_name(b[i]) by {
        }
    }
    let c = notify_name(MessageKind::RequestStreamInfo).spec_bytes();
    assert forall|i: int| 0 <= i < c.len() implies is_alnum(#[trigger] c[i]) by {}
}

proof fn lemma_names_stream_signaling()
    ensures
        valid_command_name(notify_name(MessageKind::StreamSignaling).spec_bytes()),
        valid_fields(fields_of(MessageKind::StreamSignaling)),
        kind_of_name(notify_name(MessageKind::StreamSignaling).spec_bytes())
            == Some(MessageKind::StreamSignaling),
{
    reveal_strlit("streamsignaling");
    lemma_lowercase_str("streamsignaling");
    reveal_strlit("clid");
    lemma_ascii_str("clid");
    reveal_strlit("id");
    lemma_ascii_str("id");
    reveal_strlit("json");
    lemma_ascii_str("json");
    lemma_str_bytes_differ("clid", "id");
    assert("clid"@[0] != "json"@[0]);
    lemma_str_bytes_differ("clid", "json");
    lemma_str_bytes_differ("id", "json");
    lemma_command_names_differ();
    let fs = fields_of(MessageKind::StreamSignaling);
    assert forall|j: int| 0 <= j < fs.len() implies valid_arg_name(field_name(#[trigger] fs[j])) by {
        let b = field_name(fs[j]);
        assert forall|i: int| 0 <= i < b.len() implies !is_space(#[trigger] b[i]) && !ends_name(b[i]) by {
        }
    }
    let c = notify_name(MessageKind::StreamSignaling).spec_bytes();
    assert forall|i: int| 0 <= i < c.len() implies is_alnum(#[trigger] c[i]) by {}
}

proof fn lemma_names_setup_stream()
    ensures
        valid_command_name(notify_name(MessageKind::SetupStream).spec_bytes()),
        valid_fields(fields_of(MessageKind::SetupStream)),
        kind_of_name(notify_name(MessageKind::SetupStream).spec_bytes())
            == Some(MessageKind::SetupStream),
{
    reveal_strlit("setupstream");
    lemma_lowercase_str("setupstream");
    reveal_strlit("accessibility");
    lemma_ascii_str("accessibility");
    reveal_strlit("audio");
    lemma_ascii_str("audio");
    reveal_strlit("bitrate");
    lemma_ascii_str("bitrate");
    reveal_strlit("mode");
    lemma_ascii_str("mode");
    reveal_strlit("name");
    lemma_ascii_str("name");
    reveal_strlit("type");
    lemma_ascii_str("type");
    reveal_strlit("viewer_limit");
    lemma_ascii_str("viewer_limit");
    assert("name"@[0] != "type"@[0]);
    lemma_str_bytes_differ("name", "type");
    assert("name"@[0] != "mode"@[0]);
    lemma_str_bytes_differ("name", "mode");
    lemma_str_bytes_differ("name", "bitrate");
    lemma_str_bytes_differ("name", "viewer_limit");
    lemma_str_bytes_differ("name", "audio");
    lemma_str_bytes_differ("name", "accessibility");
    assert("type"@[0] != "mode"@[0]);
    lemma_str_bytes_differ("type", "mode");
    lemma_str_bytes_differ("type", "bitrate");
    lemma_str_bytes_differ("type", "viewer_limit");
    lemma_str_bytes_differ("type", "audio");
    lemma_str_bytes_differ("type", "accessibility");
    lemma_str_bytes_differ("mode", "bitrate");
    lemma_str_bytes_differ("mode", "viewer_limit");
    lemma_str_bytes_differ("mode", "audio");
    lemma_str_bytes_differ("mode", "accessibility");
    lemma_str_bytes_differ("bitrate", "viewer_limit");
    lemma_str_bytes_differ("bitrate", "audio");
    lemma_str_bytes_differ("bitrate", "accessibility");
    lemma_str_bytes_differ("viewer_limit", "audio");
    lemma_str_bytes_differ("viewer_limit", "accessibility");
    lemma_str_bytes_differ("audio", "accessibility");
    lemma_command_names_differ();
    let fs = fields_of(MessageKind::SetupStream);
    assert forall|j: int| 0 <= j < fs.len() implies valid_arg_name(field_name(#[trigger] fs[j])) by {
        let b = field_name(fs[j]);
        assert forall|i: int| 0 <= i < b.len() implies !is_space(#[trigger] b[i]) && !ends_name(b[i]) by {
        }
    }
    let c = notify_name(MessageKind::SetupStream).spec_bytes();
    assert forall|i: int| 0 <= i < c.len() implies is_alnum(#[trigger] c[i]) by {}
}

proof fn lemma_names_update_stream()
    ensures
        valid_command_name(notify_name(MessageKind::UpdateStream).spec_bytes()),
        valid_fields(fields_of(MessageKind::UpdateStream)),
        kind_of_name(notify_name(MessageKind::UpdateStream).spec_bytes())
            == Some(MessageKind::UpdateStream),
{
    reveal_strlit("updatestream");
    lemma_lowercase_str("updatestream");
    reveal_strlit("accessibility");
    lemma_ascii_str("accessibility");
    reveal_strlit("audio");
    lemma_ascii_str("audio");
    reveal_strlit("bitrate");
    lemma_ascii_str("bitrate");
    reveal_strlit("id");
    lemma_ascii_str("id");
    reveal_strlit("mode");
    lemma_ascii_str("mode");
    reveal_strlit("name");
    lemma_ascii_str("name");
    reveal_strlit("type");
    lemma_ascii_str("type");
    reveal_strlit("viewer_limit");
    lemma_ascii_str("viewer_limit");
    lemma_str_bytes_differ("id", "name");
    lemma_str_bytes_differ("id", "type");
    lemma_str_bytes_differ("id", "mode");
    lemma_str_bytes_differ("id", "bitrate");
    lemma_str_bytes_differ("id", "viewer_limit");
    lemma_str_bytes_differ("id", "audio");
    lemma_str_bytes_differ("id", "accessibility");
    assert("name"@[0] != "type"@[0]);
    lemma_str_bytes_differ("name", "type");
    assert("name"@[0] != "mode"@[0]);
    lemma_str_bytes_differ("name", "mode");
    lemma_str_bytes_differ("name", "bitrate");
    lemma_str_bytes_differ("name", "viewer_limit");
    lemma_str_bytes_differ("name", "audio");
    lemma_str_bytes_differ("name", "accessibility");
    assert("type"@[0] != "mode"@[0]);
    lemma_str_bytes_differ("type", "mode");
    lemma_str_bytes_differ("type", "bitrate");
    lemma_str_bytes_differ("type", "viewer_limit");
    lemma_str_bytes_differ("type", "audio");
    lemma_str_bytes_differ("type", "accessibility");
    lemma_str_bytes_differ("mode", "bitrate");
    lemma_str_bytes_differ("mode", "viewer_limit");
    lemma_str_bytes_differ("mode", "audio");
    lemma_str_bytes_differ("mode", "accessibility");
    lemma_str_bytes_differ("bitrate", "viewer_limit");
    lemma_str_bytes_differ("bitrate", "audio");
    lemma_str_bytes_differ("bitrate", "accessibility");
    lemma_str_bytes_differ("viewer_limit", "audio");
    lemma_str_bytes_differ("viewer_limit", "accessibility");
    lemma_str_bytes_differ("audio", "accessibility");
    lemma_command_names_differ();
    let fs = fields_of(MessageKind::UpdateStream);
    assert forall|j: int| 0 <= j < fs.len() implies valid_arg_name(field_name(#[trigger] fs[j])) by {
        let b = field_name(fs[j]);
        assert forall|i: int| 0 <= i < b.len() implies !is_space(#[trigger] b[i]) && !ends_name(b[i]) by {
        }
    }
    let c = notify_name(MessageKind::UpdateStream).spec_bytes();
    assert forall|i: int| 0 <= i < c.len() implies is_alnum(#[trigger] c[i]) by {}
}

proof fn lemma_names_stop_stream()
    ensures
        valid_command_name(notify_name(MessageKind::StopStream).spec_bytes()),
        valid_fields(fields_of(MessageKind::StopStream)),
        kind_of_name(notify_name(MessageKind::StopStream).spec_bytes())
            == Some(MessageKind::StopStream),
{
    reveal_strlit("stopstream");
    lemma_lowercase_str("stopstream");
    reveal_strlit("id");
    lemma_ascii_str("id");
    reveal_strlit("reason");
    lemma_ascii_str("reason");
    lemma_str_bytes_differ("id", "reason");
    lemma_command_names_differ();
    let fs = fields_of(MessageKind::StopStream);
    assert forall|j: int| 0 <= j < fs.len() implies valid_arg_name(field_name(#[trigger] fs[j])) by {
        let b = field_name(fs[j]);
        assert forall|i: int| 0 <= i < b.len() implies !is_space(#[trigger] b[i]) && !ends_name(b[i]) by {
        }
    }
    let c = notify_name(MessageKind::StopStream).spec_bytes();
    assert forall|i: int| 0 <= i < c.len() implies is_alnum(#[trigger] c[i]) by {}
}

proof fn lemma_names_respond_join_stream_request()
    ensures
        valid_command_name(notify_name(MessageKind::RespondJoinStreamRequest).spec_bytes()),
        valid_fields(fields_of(MessageKind::RespondJoinStreamRequest)),
        kind_of_name(notify_name(MessageKind::RespondJoinStreamRequest).spec_bytes())
            == Some(MessageKind::RespondJoinStreamRequest),
{
    reveal_strlit("respondjoinstreamrequest");
    lemma_lowercase_str("respondjoinstreamrequest");
    reveal_strlit("clid");
    lemma_ascii_str("clid");
    reveal_strlit("decision");
    lemma_ascii_str("decision");
    reveal_strlit("id");
    lemma_ascii_str("id");
    reveal_strlit("msg");
    lemma_ascii_str("msg");
    reveal_strlit("offer");
    lemma_ascii_str("offer");
    lemma_str_bytes_differ("clid", "id");
    lemma_str_bytes_differ("clid", "decision");
    lemma_str_bytes_differ("clid", "msg");
    lemma_str_bytes_differ("clid", "offer");
    lemma_str_bytes_differ("id", "decision");
    lemma_str_bytes_differ("id", "msg");
    lemma_str_bytes_differ("id", "offer");
    lemma_str_bytes_differ("decision", "msg");
    lemma_str_bytes_differ("decision", "offer");
    lemma_str_bytes_differ("msg", "offer");
    lemma_command_names_differ();
    let fs = fields_of(MessageKind::RespondJoinStreamRequest);
    assert forall|j: int| 0 <= j < fs.len() implies valid_arg_name(field_name(#[trigger] fs[j])) by {
        let b = field_name(fs[j]);
        assert forall|i: int| 0 <= i < b.len() implies !is_space(#[trigger] b[i]) && !ends_name(b[i]) by {
        }
    }
    let c = notify_name(MessageKind::RespondJoinStreamRequest).spec_bytes();
    assert forall|i: int| 0 <= i < c.len() implies is_alnum(#[trigger] c[i]) by {}
}

proof fn lemma_names_remove_client_from_stream()
    ensures
        valid_command_name(notify_name(MessageKind::RemoveClientFromStream).spec_bytes()),
        valid_fields(fields_of(MessageKind::RemoveClientFromStream)),
        kind_of_name(notify_name(MessageKind::RemoveClientFromStream).spec_bytes())
            == Some(MessageKind::RemoveClientFromStream),
{
    reveal_strlit("removeclientfromstream");
    lemma_lowercase_str("removeclientfromstream");
    reveal_strlit("clid");
    lemma_ascii_str("clid");
    reveal_strlit("id");
    lemma_ascii_str("id");
    reveal_strlit("reason");
    lemma_ascii_str("reason");
    lemma_str_bytes_differ("clid", "id");
    lemma_str_bytes_differ("clid", "reason");
    lemma_str_bytes_differ("id", "reason");
    lemma_command_names_differ();
    let fs = fields_of(MessageKind::RemoveClientFromStream);
    assert forall|j: int| 0 <= j < fs.len() implies valid_arg_name(field_name(#[trigger] fs[j])) by {
        let b = field_name(fs[j]);
        assert forall|i: int| 0 <= i < b.len() implies !is_space(#[trigger] b[i]) && !ends_name(b[i]) by {
        }
    }
    let c = notify_name(MessageKind::RemoveClientFromStream).spec_bytes();
    assert forall|i: int| 0 <= i < c.len() implies is_alnum(#[trigger] c[i]) by {}
}

/// Reading back the command that a part was written into gives the same
/// message with that part alone.
pub proof fn lemma_read_written(k: MessageKind, p: Seq<Option<ValueV>>)
    requires
        part_fits(fields_of(k), p),
    ensures
        decode_spec(command_header(), written(k, p)) == Ok::<Decoded, ParseErrorV>((k, seq![p])),
{
    match k {
        MessageKind::JoinStreamRequest => lemma_names_join_stream_request(),
        MessageKind::RequestStreamInfo => lemma_names_request_stream_info(),
        MessageKind::StreamSignaling => lemma_names_stream_signaling(),
        MessageKind::SetupStream => lemma_names_setup_stream(),
        MessageKind::UpdateStream => lemma_names_update_stream(),
        MessageKind::StopStream => lemma_names_stop_stream(),
        MessageKind::RespondJoinStreamRequest => lemma_names_respond_join_stream_request(),
        MessageKind::RemoveClientFromStream => lemma_names_remove_client_from_stream(),
    }
    let fs = fields_of(k);
    let name = notify_name(k).spec_bytes();
    let args = encode_args(fs, p);
    assert(written(k, p) == append_args(name, args));
    lemma_encode_args_names(fs, p, fs.len() as int);
    let parts = seq![args];
    assert(valid_arg_names(parts)) by {
        assert forall|q: int, a: int| 0 <= q < parts.len() && 0 <= a < parts[q].len()
            implies valid_arg_name(#[trigger] parts[q][a].0) by {
            assert(parts[q] == args);
        }
    }
    lemma_parse_written(name, parts);
    assert(append_parts(name, parts) == append_args(name, args));
    assert(parts_items(parts) == arg_items(args));
    lemma_decode_encoded_part(fs, message_name(k), p);
}

/// Reading back the command that several parts were written into gives the
/// same message with those parts, each later part with the values that it
/// lacks taken from the first.
#[verifier::spinoff_prover]
#[verifier::rlimit(40)]
pub proof fn lemma_read_written_parts(k: MessageKind, ps: Seq<Seq<Option<ValueV>>>)
    requires
        ps.len() > 0,
        forall|q: int| 0 <= q < ps.len() ==> part_fits(fields_of(k), #[trigger] ps[q]),
    ensures
        decode_spec(command_header(), written_parts(k, ps)) == Ok::<Decoded, ParseErrorV>(
            (k, ps.map_values(|p: Seq<Option<ValueV>>| inherit(p, ps[0]))),
        ),
{
    match k {
        MessageKind::JoinStreamRequest => lemma_names_join_stream_request(),
        MessageKind::RequestStreamInfo => lemma_names_request_stream_info(),
        MessageKind::StreamSignaling => lemma_names_stream_signaling(),
        MessageKind::SetupStream => lemma_names_setup_stream(),
        MessageKind::UpdateStream => lemma_names_update_stream(),
        MessageKind::StopStream => lemma_names_stop_stream(),
        MessageKind::RespondJoinStreamRequest => lemma_names_respond_join_stream_request(),
        MessageKind::RemoveClientFromStream => lemma_names_remove_client_from_stream(),
    }
    let fs = fields_of(k);
    let name = notify_name(k).spec_bytes();
    let es = encode_parts(fs, ps);
    assert(written_parts(k, ps) == append_parts(name, es));
    assert(valid_arg_names(es)) by {
        assert forall|q: int, a: int| 0 <= q < es.len() && 0 <= a < es[q].len()
            implies valid_arg_name(#[trigger] es[q][a].0) by {
            assert(es[q] == encode_args(fs, ps[q]));
            lemma_encode_args_names(fs, ps[q], fs.len() as int);
        }
    }
    assert(part_fits(fs, ps[0]));
    let j: int = match k {
        MessageKind::JoinStreamRequest => 0,
        MessageKind::RequestStreamInfo => 0,
        MessageKind::StreamSignaling => 0,
        MessageKind::SetupStream => 6,
        MessageKind::UpdateStream => 0,
        MessageKind::StopStream => 0,
        MessageKind::RespondJoinStreamRequest => 0,
        MessageKind::RemoveClientFromStream => 0,
    };
    assert(slot_fits(fs[j], ps[0][j]));
    lemma_encode_args_nonempty(fs, ps[0], fs.len() as int, j);
    assert(es[0] == encode_args(fs, ps[0]));
    lemma_parse_written(name, es);
    lemma_decode_encoded_parts(fs, message_name(k), ps);
}

impl OutJoinStreamRequestMessage {
    /// Reading back the command that `new` writes for `parts` gives the
    /// message with those parts, each later part with the values that it
    /// lacks taken from the first.
    pub proof fn lemma_read_back(parts: Seq<OutJoinStreamRequestPart>)
        requires
            parts.len() > 0,
        ensures
            ({
                let ps = Self::slots_of(parts);
                decode_spec(command_header(), written_parts(MessageKind::JoinStreamRequest, ps)) == Ok::<
                    Decoded,
                    ParseErrorV,
                >((MessageKind::JoinStreamRequest, ps.map_values(|p: Seq<Option<ValueV>>| inherit(p, ps[0]))))
            }),
    {
        let fs = fields_of(MessageKind::JoinStreamRequest);
        let ps = Self::slots_of(parts);
        assert forall|q: int| 0 <= q < ps.len() implies part_fits(fs, #[trigger] ps[q]) by {
            let s = ps[q];
            assert forall|j: int| 0 <= j < fs.len() implies slot_fits(fs[j], #[trigger] s[j]) by {}
        }
        lemma_read_written_parts(MessageKind::JoinStreamRequest, ps);
    }
}

impl OutRequestStreamInfoMessage {
    /// Reading back the command that `new` writes for `parts` gives the
    /// message with those parts, each later part with the values that it
    /// lacks taken from the first.
    pub proof fn lemma_read_back(parts: Seq<OutRequestStreamInfoPart>)
        requires
            parts.len() > 0,
        ensures
            ({
                let ps = Self::slots_of(parts);
                decode_spec(command_header(), written_parts(MessageKind::RequestStreamInfo, ps)) == Ok::<
                    Decoded,
                    ParseErrorV,
                >((MessageKind::RequestStreamInfo, ps.map_values(|p: Seq<Option<ValueV>>| inherit(p, ps[0]))))
            }),
    {
        let fs = fields_of(MessageKind::RequestStreamInfo);
        let ps = Self::slots_of(parts);
        assert forall|q: int| 0 <= q < ps.len() implies part_fits(fs, #[trigger] ps[q]) by {
            let s = ps[q];
            assert forall|j: int| 0 <= j < fs.len() implies slot_fits(fs[j], #[trigger] s[j]) by {}
        }
        lemma_read_written_parts(MessageKind::RequestStreamInfo, ps);
    }
}

impl OutStreamSignalingMessage {
    /// Reading back the command that `new` writes for `parts` gives the
    /// message with those parts, each later part with the values that it
    /// lacks taken from the first.
    pub proof fn lemma_read_back(parts: Seq<OutStreamSignalingPart>)
        requires
            parts.len() > 0,
        ensures
            ({
                let ps = Self::slots_of(parts);
                decode_spec(command_header(), written_parts(MessageKind::StreamSignaling, ps)) == Ok::<
                    Decoded,
                    ParseErrorV,
                >((MessageKind::StreamSignaling, ps.map_values(|p: Seq<Option<ValueV>>| inherit(p, ps[0]))))
            }),
    {
        let fs = fields_of(MessageKind::StreamSignaling);
        let ps = Self::slots_of(parts);
        assert forall|q: int| 0 <= q < ps.len() implies part_fits(fs, #[trigger] ps[q]) by {
            let s = ps[q];
            assert forall|j: int| 0 <= j < fs.len() implies slot_fits(fs[j], #[trigger] s[j]) by {}
        }
        lemma_read_written_parts(MessageKind::StreamSignaling, ps);
    }
}

impl OutSetupStreamMessage {
    /// Reading back the command that `new` writes for `parts` gives the
    /// message with those parts, each later part with the values that it
    /// lacks taken from the first.
    pub proof fn lemma_read_back(parts: Seq<OutSetupStreamPart>)
        requires
            parts.len() > 0,
        ensures
            ({
                let ps = Self::slots_of(parts);
                decode_spec(command_header(), written_parts(MessageKind::SetupStream, ps)) == Ok::<
                    Decoded,
                    ParseErrorV,
                >((MessageKind::SetupStream, ps.map_values(|p: Seq<Option<ValueV>>| inherit(p, ps[0]))))
            }),
    {
        let fs = fields_of(MessageKind::SetupStream);
        let ps = Self::slots_of(parts);
        assert forall|q: int| 0 <= q < ps.len() implies part_fits(fs, #[trigger] ps[q]) by {
            let s = ps[q];
            assert forall|j: int| 0 <= j < fs.len() implies slot_fits(fs[j], #[trigger] s[j]) by {}
        }
        lemma_read_written_parts(MessageKind::SetupStream, ps);
    }
}

impl OutUpdateStreamMessage {
    /// Reading back the command that `new` writes for `parts` gives the
    /// message with those parts, each later part with the values that it
    /// lacks taken from the first.
    pub proof fn lemma_read_back(parts: Seq<OutUpdateStreamPart>)
        requires
            parts.len() > 0,
        ensures
            ({
                let ps = Self::slots_of(parts);
                decode_spec(command_header(), written_parts(MessageKind::UpdateStream, ps)) == Ok::<
                    Decoded,
                    ParseErrorV,
                >((MessageKind::UpdateStream, ps.map_values(|p: Seq<Option<ValueV>>| inherit(p, ps[0]))))
            }),
    {
        let fs = fields_of(MessageKind::UpdateStream);
        let ps = Self::slots_of(parts);
        assert forall|q: int| 0 <= q < ps.len() implies part_fits(fs, #[trigger] ps[q]) by {
            let s = ps[q];
            assert forall|j: int| 0 <= j < fs.len() implies slot_fits(fs[j], #[trigger] s[j]) by {}
        }
        lemma_read_written_parts(MessageKind::UpdateStream, ps);
    }
}

impl OutStopStreamMessage {
    /// Reading back the command that `new` writes for `parts` gives the
    /// message with those parts, each later part with the values that it
    /// lacks taken from the first.
    pub proof fn lemma_read_back(parts: Seq<OutStopStreamPart>)
        requires
            parts.len() > 0,
        ensures
            ({
                let ps = Self::slots_of(parts);
                decode_spec(command_header(), written_parts(MessageKind::StopStream, ps)) == Ok::<
                    Decoded,
                    ParseErrorV,
                >((MessageKind::StopStream, ps.map_values(|p: Seq<Option<ValueV>>| inherit(p, ps[0]))))
            }),
    {
        let fs = fields_of(MessageKind::StopStream);
        let ps = Self::slots_of(parts);
        assert forall|q: int| 0 <= q < ps.len() implies part_fits(fs, #[trigger] ps[q]) by {
            let s = ps[q];
            assert forall|j: int| 0 <= j < fs.len() implies slot_fits(fs[j], #[trigger] s[j]) by {}
        }
        lemma_read_written_parts(MessageKind::StopStream, ps);
    }
}

impl OutRespondJoinStreamRequestMessage {
    /// Reading back the command that `new` writes for `parts` gives the
    /// message with those parts, each later part with the values that it
    /// lacks taken from the first.
    pub proof fn lemma_read_back(parts: Seq<OutRespondJoinStreamRequestPart>)
        requires
            parts.len() > 0,
        ensures
            ({
                let ps = Self::slots_of(parts);
                decode_spec(command_header(), written_parts(MessageKind::RespondJoinStreamRequest, ps)) == Ok::<
                    Decoded,
                    ParseErrorV,
                >((MessageKind::RespondJoinStreamRequest, ps.map_values(|p: Seq<Option<ValueV>>| inherit(p, ps[0]))))
            }),
    {
        let fs = fields_of(MessageKind::RespondJoinStreamRequest);
        let ps = Self::slots_of(parts);
        assert forall|q: int| 0 <= q < ps.len() implies part_fits(fs, #[trigger] ps[q]) by {
            let s = ps[q];
            assert forall|j: int| 0 <= j < fs.len() implies slot_fits(fs[j], #[trigger] s[j]) by {}
        }
        lemma_read_written_parts(MessageKind::RespondJoinStreamRequest, ps);
    }
}

impl OutRemoveClientFromStreamMessage {
    /// Reading back the command that `new` writes for `parts` gives the
    /// message with those parts, each later part with the values that it
    /// lacks taken from the first.
    pub proof fn lemma_read_back(parts: Seq<OutRemoveClientFromStreamPart>)
        requires
            parts.len() > 0,
        ensures
            ({
                let ps = Self::slots_of(parts);
                decode_spec(command_header(), written_parts(MessageKind::RemoveClientFromStream, ps)) == Ok::<
                    Decoded,
                    ParseErrorV,
                >((MessageKind::RemoveClientFromStream, ps.map_values(|p: Seq<Option<ValueV>>| inherit(p, ps[0]))))
            }),
    {
        let fs = fields_of(MessageKind::RemoveClientFromStream);
        let ps = Self::slots_of(parts);
        assert forall|q: int| 0 <= q < ps.len() implies part_fits(fs, #[trigger] ps[q]) by {
            let s = ps[q];
            assert forall|j: int| 0 <= j < fs.len() implies slot_fits(fs[j], #[trigger] s[j]) by {}
        }
        lemma_read_written_parts(MessageKind::RemoveClientFromStream, ps);
    }
}

impl OutJoinStreamRequestPart {
    /// Reading back the command that `to_packet` writes gives the message
    /// with this part alone.
    pub proof fn lemma_read_back(&self)
        ensures
            decode_spec(command_header(), written(MessageKind::JoinStreamRequest, self.slots())) == Ok::<
                Decoded,
                ParseErrorV,
            >((MessageKind::JoinStreamRequest, seq![self.slots()])),
    {
        let fs = fields_of(MessageKind::JoinStreamRequest);
        let s = self.slots();
        assert forall|j: int| 0 <= j < fs.len() implies slot_fits(fs[j], #[trigger] s[j]) by {}
        lemma_read_written(MessageKind::JoinStreamRequest, s);
    }
}

impl OutRequestStreamInfoPart {
    /// Reading back the command that `to_packet` writes gives the message
    /// with this part alone.
    pub proof fn lemma_read_back(&self)
        ensures
            decode_spec(command_header(), written(MessageKind::RequestStreamInfo, self.slots())) == Ok::<
                Decoded,
                ParseErrorV,
            >((MessageKind::RequestStreamInfo, seq![self.slots()])),
    {
        let fs = fields_of(MessageKind::RequestStreamInfo);
        let s = self.slots();
        assert forall|j: int| 0 <= j < fs.len() implies slot_fits(fs[j], #[trigger] s[j]) by {}
        lemma_read_written(MessageKind::RequestStreamInfo, s);
    }
}

impl OutStreamSignalingPart {
    /// Reading back the command that `to_packet` writes gives the message
    /// with this part alone.
    pub proof fn lemma_read_back(&self)
        ensures
            decode_spec(command_header(), written(MessageKind::StreamSignaling, self.slots())) == Ok::<
                Decoded,
                ParseErrorV,
            >((MessageKind::StreamSignaling, seq![self.slots()])),
    {
        let fs = fields_of(MessageKind::StreamSignaling);
        let s = self.slots();
        assert forall|j: int| 0 <= j < fs.len() implies slot_fits(fs[j], #[trigger] s[j]) by {}
        lemma_read_written(MessageKind::StreamSignaling, s);
    }
}

impl OutSetupStreamPart {
    /// Reading back the command that `to_packet` writes gives the message
    /// with this part alone.
    pub proof fn lemma_read_back(&self)
        ensures
            decode_spec(command_header(), written(MessageKind::SetupStream, self.slots())) == Ok::<
                Decoded,
                ParseErrorV,
            >((MessageKind::SetupStream, seq![self.slots()])),
    {
        let fs = fields_of(MessageKind::SetupStream);
        let s = self.slots();
        assert forall|j: int| 0 <= j < fs.len() implies slot_fits(fs[j], #[trigger] s[j]) by {}
        lemma_read_written(MessageKind::SetupStream, s);
    }
}

impl OutUpdateStreamPart {
    /// Reading back the command that `to_packet` writes gives the message
    /// with this part alone.
    pub proof fn lemma_read_back(&self)
        ensures
            decode_spec(command_header(), written(MessageKind::UpdateStream, self.slots())) == Ok::<
                Decoded,
                ParseErrorV,
            >((MessageKind::UpdateStream, seq![self.slots()])),
    {
        let fs = fields_of(MessageKind::UpdateStream);
        let s = self.slots();
        assert forall|j: int| 0 <= j < fs.len() implies slot_fits(fs[j], #[trigger] s[j]) by {}
        lemma_read_written(MessageKind::UpdateStream, s);
    }
}

impl OutStopStreamPart {
    /// Reading back the command that `to_packet` writes gives the message
    /// with this part alone.
    pub proof fn lemma_read_back(&self)
        ensures
            decode_spec(command_header(), written(MessageKind::StopStream, self.slots())) == Ok::<
                Decoded,
                ParseErrorV,
            >((MessageKind::StopStream, seq![self.slots()])),
    {
        let fs = fields_of(MessageKind::StopStream);
        let s = self.slots();
        assert forall|j: int| 0 <= j < fs.len() implies slot_fits(fs[j], #[trigger] s[j]) by {}
        lemma_read_written(MessageKind::StopStream, s);
    }
}

impl OutRespondJoinStreamRequestPart {
    /// Reading back the command that `to_packet` writes gives the message
    /// with this part alone.
    pub proof fn lemma_read_back(&self)
        ensures
            decode_spec(command_header(), written(MessageKind::RespondJoinStreamRequest, self.slots())) == Ok::<
                Decoded,
                ParseErrorV,
            >((MessageKind::RespondJoinStreamRequest, seq![self.slots()])),
    {
        let fs = fields_of(MessageKind::RespondJoinStreamRequest);
        let s = self.slots();
        assert forall|j: int| 0 <= j < fs.len() implies slot_fits(fs[j], #[trigger] s[j]) by {}
        lemma_read_written(MessageKind::RespondJoinStreamRequest, s);
    }
}

impl OutRemoveClientFromStreamPart {
    /// Reading back the command that `to_packet` writes gives the message
    /// with this part alone.
    pub proof fn lemma_read_back(&self)
        ensures
            decode_spec(command_header(), written(MessageKind::RemoveClientFromStream, self.slots())) == Ok::<
                Decoded,
                ParseErrorV,
            >((MessageKind::RemoveClientFromStream, seq![self.slots()])),
    {
        let fs = fields_of(MessageKind::RemoveClientFromStream);
        let s = self.slots();
        assert forall|j: int| 0 <= j < fs.len() implies slot_fits(fs[j], #[trigger] s[j]) by {}
        lemma_read_written(MessageKind::RemoveClientFromStream, s);
    }
}

impl InJoinStreamRequest {
    /// How the parts of a `joinstreamrequest` command read: each field of part `i`
    /// holds the value of the last argument under the field's own name in that
    /// part, read as the field's type; where the part has none, a later part
    /// has the value of the first part, and the first part has none.
    pub proof fn lemma_fields_by_name(header: InHeader, cmd: Seq<u8>, m: InJoinStreamRequest, i: int)
        requires
            decode_spec(header, cmd) == Ok::<Decoded, ParseErrorV>((MessageKind::JoinStreamRequest, m.parts_slots())),
            0 <= i < m.spec_parts().len(),
        ensures
            ({
                let items = parse_spec(cmd).1;
                let p = m.spec_parts()[i];
                let first = m.spec_parts()[0];
                &&& str_slot(p.stream_id) == named_slot(
                    items,
                    i as nat,
                    Field { name: "id", pretty: "StreamId", kind: FieldKind::Str, optional: false },
                    str_slot(first.stream_id),
                )
                &&& cid_slot(p.client_id) == named_slot(
                    items,
                    i as nat,
                    Field { name: "clid", pretty: "ClientId", kind: FieldKind::ClientId, optional: false },
                    cid_slot(first.client_id),
                )
                &&& bool_slot(p.is_remove) == named_slot(
                    items,
                    i as nat,
                    Field { name: "is_remove", pretty: "IsRemove", kind: FieldKind::Bool, optional: false },
                    bool_slot(first.is_remove),
                )
                &&& str_slot(p.message) == named_slot(
                    items,
                    i as nat,
                    Field { name: "msg", pretty: "Message", kind: FieldKind::Str, optional: false },
                    str_slot(first.message),
                )
            }),
    {
        let items = parse_spec(cmd).1;
        let fs = fields_of(MessageKind::JoinStreamRequest);
        let msg = message_name(MessageKind::JoinStreamRequest);
        let ps = m.parts_slots();
        assert(decode_parts_spec(fs, msg, items) == Ok::<Seq<Seq<Option<ValueV>>>, ParseErrorV>(ps));
        assert(ps[i] == m.spec_parts()[i].slots());
        assert(ps[0] == m.spec_parts()[0].slots());
        lemma_names_join_stream_request();
        assert(unique_name(fs, 0));
        lemma_unique_found(fs, 0);
        lemma_slot_by_name(fs, msg, items, i, 0);
        assert(unique_name(fs, 1));
        lemma_unique_found(fs, 1);
        lemma_slot_by_name(fs, msg, items, i, 1);
        assert(unique_name(fs, 2));
        lemma_unique_found(fs, 2);
        lemma_slot_by_name(fs, msg, items, i, 2);
        assert(unique_name(fs, 3));
        lemma_unique_found(fs, 3);
        lemma_slot_by_name(fs, msg, items, i, 3);
    }

}

impl InRequestStreamInfo {
    /// How the parts of a `requeststreaminfo` command read: each field of part `i`
    /// holds the value of the last argument under the field's own name in that
    /// part, read as the field's type; where the part has none, a later part
    /// has the value of the first part, and the first part has none.
    pub proof fn lemma_fields_by_name(header: InHeader, cmd: Seq<u8>, m: InRequestStreamInfo, i: int)
        requires
            decode_spec(header, cmd) == Ok::<Decoded, ParseErrorV>((MessageKind::RequestStreamInfo, m.parts_slots())),
            0 <= i < m.spec_parts().len(),
        ensures
            ({
                let items = parse_spec(cmd).1;
                let p = m.spec_parts()[i];
                let first = m.spec_parts()[0];
                &&& cid_slot(p.client_id) == named_slot(
                    items,
                    i as nat,
                    Field { name: "clid", pretty: "ClientId", kind: FieldKind::ClientId, optional: false },
                    cid_slot(first.client_id),
                )
                &&& opt_str_slot(p.stream_id) == named_slot(
                    items,
                    i as nat,
                    Field { name: "id", pretty: "StreamId", kind: FieldKind::Str, optional: true },
                    opt_str_slot(first.stream_id),
                )
            }),
    {
        let items = parse_spec(cmd).1;
        let fs = fields_of(MessageKind::RequestStreamInfo);
        let msg = message_name(MessageKind::RequestStreamInfo);
        let ps = m.parts_slots();
        assert(decode_parts_spec(fs, msg, items) == Ok::<Seq<Seq<Option<ValueV>>>, ParseErrorV>(ps));
        assert(ps[i] == m.spec_parts()[i].slots());
        assert(ps[0] == m.spec_parts()[0].slots());
        lemma_names_request_stream_info();
        assert(unique_name(fs, 0));
        lemma_unique_found(fs, 0);
        lemma_slot_by_name(fs, msg, items, i, 0);
        assert(unique_name(fs, 1));
        lemma_unique_found(fs, 1);
        lemma_slot_by_name(fs, msg, items, i, 1);
    }

}

impl InStreamSignaling {
    /// How the parts of a `streamsignaling` command read: each field of part `i`
    /// holds the value of the last argument under the field's own name in that
    /// part, read as the field's type; where the part has none, a later part
    /// has the value of the first part, and the first part has none.
    pub proof fn lemma_fields_by_name(header: InHeader, cmd: Seq<u8>, m: InStreamSignaling, i: int)
        requires
            decode_spec(header, cmd) == Ok::<Decoded, ParseErrorV>((MessageKind::StreamSignaling, m.parts_slots())),
            0 <= i < m.spec_parts().len(),
        ensures
            ({
                let items = parse_spec(cmd).1;
                let p = m.spec_parts()[i];
                let first = m.spec_parts()[0];
                &&& cid_slot(p.client_id) == named_slot(
                    items,
                    i as nat,
                    Field { name: "clid", pretty: "ClientId", kind: FieldKind::ClientId, optional: false },
                    cid_slot(first.client_id),
                )
                &&& str_slot(p.stream_id) == named_slot(
                    items,
                    i as nat,
                    Field { name: "id", pretty: "StreamId", kind: FieldKind::Str, optional: false },
                    str_slot(first.stream_id),
                )
                &&& str_slot(p.json) == named_slot(
                    items,
                    i as nat,
                    Field { name: "json", pretty: "Json", kind: FieldKind::Str, optional: false },
                    str_slot(first.json),
                )
            }),
    {
        let items = parse_spec(cmd).1;
        let fs = fields_of(MessageKind::StreamSignaling);
        let msg = message_name(MessageKind::StreamSignaling);
        let ps = m.parts_slots();
        assert(decode_parts_spec(fs, msg, items) == Ok::<Seq<Seq<Option<ValueV>>>, ParseErrorV>(ps));
        assert(ps[i] == m.spec_parts()[i].slots());
        assert(ps[0] == m.spec_parts()[0].slots());
        lemma_names_stream_signaling();
        assert(unique_name(fs, 0));
        lemma_unique_found(fs, 0);
        lemma_slot_by_name(fs, msg, items, i, 0);
        assert(unique_name(fs, 1));
        lemma_unique_found(fs, 1);
        lemma_slot_by_name(fs, msg, items, i, 1);
        assert(unique_name(fs, 2));
        lemma_unique_found(fs, 2);
        lemma_slot_by_name(fs, msg, items, i, 2);
    }

}

impl InSetupStream {
    /// How the parts of a `setupstream` command read: each field of part `i`
    /// holds the value of the last argument under the field's own name in that
    /// part, read as the field's type; where the part has none, a later part
    /// has the value of the first part, and the first part has none.
    pub proof fn lemma_fields_by_name(header: InHeader, cmd: Seq<u8>, m: InSetupStream, i: int)
        requires
            decode_spec(header, cmd) == Ok::<Decoded, ParseErrorV>((MessageKind::SetupStream, m.parts_slots())),
            0 <= i < m.spec_parts().len(),
        ensures
            ({
                let items = parse_spec(cmd).1;
                let p = m.spec_parts()[i];
                let first = m.spec_parts()[0];
                &&& opt_str_slot(p.name) == named_slot(
                    items,
                    i as nat,
                    Field { name: "name", pretty: "Name", kind: FieldKind::Str, optional: true },
                    opt_str_slot(first.name),
                )
                &&& opt_u32_slot(p.stream_type) == named_slot(
                    items,
                    i as nat,
                    Field { name: "type", pretty: "StreamType", kind: FieldKind::U32, optional: true },
                    opt_u32_slot(first.stream_type),
                )
                &&& opt_u32_slot(p.mode) == named_slot(
                    items,
                    i as nat,
                    Field { name: "mode", pretty: "Mode", kind: FieldKind::U32, optional: true },
                    opt_u32_slot(first.mode),
                )
                &&& opt_u32_slot(p.bitrate) == named_slot(
                    items,
                    i as nat,
                    Field { name: "bitrate", pretty: "Bitrate", kind: FieldKind::U32, optional: true },
                    opt_u32_slot(first.bitrate),
                )
                &&& opt_u32_slot(p.viewer_limit) == named_slot(
                    items,
                    i as nat,
                    Field { name: "viewer_limit", pretty: "ViewerLimit", kind: FieldKind::U32, optional: true },
                    opt_u32_slot(first.viewer_limit),
                )
                &&& opt_bool_slot(p.audio) == named_slot(
                    items,
                    i as nat,
                    Field { name: "audio", pretty: "Audio", kind: FieldKind::Bool, optional: true },
                    opt_bool_slot(first.audio),
                )
                &&& u32_slot(p.accessibility) == named_slot(
                    items,
                    i as nat,
                    Field { name: "accessibility", pretty: "Accessibility", kind: FieldKind::U32, optional: false },
                    u32_slot(first.accessibility),
                )
            }),
    {
        let items = parse_spec(cmd).1;
        let fs = fields_of(MessageKind::SetupStream);
        let msg = message_name(MessageKind::SetupStream);
        let ps = m.parts_slots();
        assert(decode_parts_spec(fs, msg, items) == Ok::<Seq<Seq<Option<ValueV>>>, ParseErrorV>(ps));
        assert(ps[i] == m.spec_parts()[i].slots());
        assert(ps[0] == m.spec_parts()[0].slots());
        lemma_names_setup_stream();
        assert(unique_name(fs, 0));
        lemma_unique_found(fs, 0);
        lemma_slot_by_name(fs, msg, items, i, 0);
        assert(unique_name(fs, 1));
        lemma_unique_found(fs, 1);
        lemma_slot_by_name(fs, msg, items, i, 1);
        assert(unique_name(fs, 2));
        lemma_unique_found(fs, 2);
        lemma_slot_by_name(fs, msg, items, i, 2);
        assert(unique_name(fs, 3));
        lemma_unique_found(fs, 3);
        lemma_slot_by_name(fs, msg, items, i, 3);
        assert(unique_name(fs, 4));
        lemma_unique_found(fs, 4);
        lemma_slot_by_name(fs, msg, items, i, 4);
        assert(unique_name(fs, 5));
        lemma_unique_found(fs, 5);
        lemma_slot_by_name(fs, msg, items, i, 5);
        assert(unique_name(fs, 6));
        lemma_unique_found(fs, 6);
        lemma_slot_by_name(fs, msg, items, i, 6);
    }

}

impl InUpdateStream {
    /// How the parts of a `updatestream` command read: each field of part `i`
    /// holds the value of the last argument under the field's own name in that
    /// part, read as the field's type; where the part has none, a later part
    /// has the value of the first part, and the first part has none.
    pub proof fn lemma_fields_by_name(header: InHeader, cmd: Seq<u8>, m: InUpdateStream, i: int)
        requires
            decode_spec(header, cmd) == Ok::<Decoded, ParseErrorV>((MessageKind::UpdateStream, m.parts_slots())),
            0 <= i < m.spec_parts().len(),
        ensures
            ({
                let items = parse_spec(cmd).1;
                let p = m.spec_parts()[i];
                let first = m.spec_parts()[0];
                &&& str_slot(p.stream_id) == named_slot(
                    items,
                    i as nat,
                    Field { name: "id", pretty: "StreamId", kind: FieldKind::Str, optional: false },
                    str_slot(first.stream_id),
                )
                &&& opt_str_slot(p.name) == named_slot(
                    items,
                    i as nat,
                    Field { name: "name", pretty: "Name", kind: FieldKind::Str, optional: true },
                    opt_str_slot(first.name),
                )
                &&& opt_u32_slot(p.stream_type) == named_slot(
                    items,
                    i as nat,
                    Field { name: "type", pretty: "StreamType", kind: FieldKind::U32, optional: true },
                    opt_u32_slot(first.stream_type),
                )
                &&& opt_u32_slot(p.mode) == named_slot(
                    items,
                    i as nat,
                    Field { name: "mode", pretty: "Mode", kind: FieldKind::U32, optional: true },
                    opt_u32_slot(first.mode),
                )
                &&& opt_u32_slot(p.bitrate) == named_slot(
                    items,
                    i as nat,
                    Field { name: "bitrate", pretty: "Bitrate", kind: FieldKind::U32, optional: true },
                    opt_u32_slot(first.bitrate),
                )
                &&& opt_u32_slot(p.viewer_limit) == named_slot(
                    items,
                    i as nat,
                    Field { name: "viewer_limit", pretty: "ViewerLimit", kind: FieldKind::U32, optional: true },
                    opt_u32_slot(first.viewer_limit),
                )
                &&& opt_bool_slot(p.audio) == named_slot(
                    items,
                    i as nat,
                    Field { name: "audio", pretty: "Audio", kind: FieldKind::Bool, optional: true },
                    opt_bool_slot(first.audio),
                )
                &&& opt_u32_slot(p.accessibility) == named_slot(
                    items,
                    i as nat,
                    Field { name: "accessibility", pretty: "Accessibility", kind: FieldKind::U32, optional: true },
                    opt_u32_slot(first.accessibility),
                )
            }),
    {
        let items = parse_spec(cmd).1;
        let fs = fields_of(MessageKind::UpdateStream);
        let msg = message_name(MessageKind::UpdateStream);
        let ps = m.parts_slots();
        assert(decode_parts_spec(fs, msg, items) == Ok::<Seq<Seq<Option<ValueV>>>, ParseErrorV>(ps));
        assert(ps[i] == m.spec_parts()[i].slots());
        assert(ps[0] == m.spec_parts()[0].slots());
        lemma_names_update_stream();
        assert(unique_name(fs, 0));
        lemma_unique_found(fs, 0);
        lemma_slot_by_name(fs, msg, items, i, 0);
        assert(unique_name(fs, 1));
        lemma_unique_found(fs, 1);
        lemma_slot_by_name(fs, msg, items, i, 1);
        assert(unique_name(fs, 2));
        lemma_unique_found(fs, 2);
        lemma_slot_by_name(fs, msg, items, i, 2);
        assert(unique_name(fs, 3));
        lemma_unique_found(fs, 3);
        lemma_slot_by_name(fs, msg, items, i, 3);
        assert(unique_name(fs, 4));
        lemma_unique_found(fs, 4);
        lemma_slot_by_name(fs, msg, items, i, 4);
        assert(unique_name(fs, 5));
        lemma_unique_found(fs, 5);
        lemma_slot_by_name(fs, msg, items, i, 5);
        assert(unique_name(fs, 6));
        lemma_unique_found(fs, 6);
        lemma_slot_by_name(fs, msg, items, i, 6);
        assert(unique_name(fs, 7));
        lemma_unique_found(fs, 7);
        lemma_slot_by_name(fs, msg, items, i, 7);
    }

}

impl InStopStream {
    /// How the parts of a `stopstream` command read: each field of part `i`
    /// holds the value of the last argument under the field's own name in that
    /// part, read as the field's type; where the part has none, a later part
    /// has the value of the first part, and the first part has none.
    pub proof fn lemma_fields_by_name(header: InHeader, cmd: Seq<u8>, m: InStopStream, i: int)
        requires
            decode_spec(header, cmd) == Ok::<Decoded, ParseErrorV>((MessageKind::StopStream, m.parts_slots())),
            0 <= i < m.spec_parts().len(),
        ensures
            ({
                let items = parse_spec(cmd).1;
                let p = m.spec_parts()[i];
                let first = m.spec_parts()[0];
                &&& str_slot(p.stream_id) == named_slot(
                    items,
                    i as nat,
                    Field { name: "id", pretty: "StreamId", kind: FieldKind::Str, optional: false },
                    str_slot(first.stream_id),
                )
                &&& u32_slot(p.reason) == named_slot(
                    items,
                    i as nat,
                    Field { name: "reason", pretty: "Reason", kind: FieldKind::U32, optional: false },
                    u32_slot(first.reason),
                )
            }),
    {
        let items = parse_spec(cmd).1;
        let fs = fields_of(MessageKind::StopStream);
        let msg = message_name(MessageKind::StopStream);
        let ps = m.parts_slots();
        assert(decode_parts_spec(fs, msg, items) == Ok::<Seq<Seq<Option<ValueV>>>, ParseErrorV>(ps));
        assert(ps[i] == m.spec_parts()[i].slots());
        assert(ps[0] == m.spec_parts()[0].slots());
        lemma_names_stop_stream();
        assert(unique_name(fs, 0));
        lemma_unique_found(fs, 0);
        lemma_slot_by_name(fs, msg, items, i, 0);
        assert(unique_name(fs, 1));
        lemma_unique_found(fs, 1);
        lemma_slot_by_name(fs, msg, items, i, 1);
    }

}

impl InRespondJoinStreamRequest {
    /// How the parts of a `respondjoinstreamrequest` command read: each field of part `i`
    /// holds the value of the last argument under the field's own name in that
    /// part, read as the field's type; where the part has none, a later part
    /// has the value of the first part, and the first part has none.
    pub proof fn lemma_fields_by_name(header: InHeader, cmd: Seq<u8>, m: InRespondJoinStreamRequest, i: int)
        requires
            decode_spec(header, cmd) == Ok::<Decoded, ParseErrorV>((MessageKind::RespondJoinStreamRequest, m.parts_slots())),
            0 <= i < m.spec_parts().len(),
        ensures
            ({
                let items = parse_spec(cmd).1;
                let p = m.spec_parts()[i];
                let first = m.spec_parts()[0];
                &&& cid_slot(p.client_id) == named_slot(
                    items,
                    i as nat,
                    Field { name: "clid", pretty: "ClientId", kind: FieldKind::ClientId, optional: false },
                    cid_slot(first.client_id),
                )
                &&& str_slot(p.stream_id) == named_slot(
                    items,
                    i as nat,
                    Field { name: "id", pretty: "StreamId", kind: FieldKind::Str, optional: false },
                    str_slot(first.stream_id),
                )
                &&& u32_slot(p.decision) == named_slot(
                    items,
                    i as nat,
                    Field { name: "decision", pretty: "Decision", kind: FieldKind::U32, optional: false },
                    u32_slot(first.decision),
                )
                &&& str_slot(p.message) == named_slot(
                    items,
                    i as nat,
                    Field { name: "msg", pretty: "Message", kind: FieldKind::Str, optional: false },
                    str_slot(first.message),
                )
                &&& str_slot(p.offer) == named_slot(
                    items,
                    i as nat,
                    Field { name: "offer", pretty: "Offer", kind: FieldKind::Str, optional: false },
                    str_slot(first.offer),
                )
            }),
    {
        let items = parse_spec(cmd).1;
        let fs = fields_of(MessageKind::RespondJoinStreamRequest);
        let msg = message_name(MessageKind::RespondJoinStreamRequest);
        let ps = m.parts_slots();
        assert(decode_parts_spec(fs, msg, items) == Ok::<Seq<Seq<Option<ValueV>>>, ParseErrorV>(ps));
        assert(ps[i] == m.spec_parts()[i].slots());
        assert(ps[0] == m.spec_parts()[0].slots());
        lemma_names_respond_join_stream_request();
        assert(unique_name(fs, 0));
        lemma_unique_found(fs, 0);
        lemma_slot_by_name(fs, msg, items, i, 0);
        assert(unique_name(fs, 1));
        lemma_unique_found(fs, 1);
        lemma_slot_by_name(fs, msg, items, i, 1);
        assert(unique_name(fs, 2));
        lemma_unique_found(fs, 2);
        lemma_slot_by_name(fs, msg, items, i, 2);
        assert(unique_name(fs, 3));
        lemma_unique_found(fs, 3);
        lemma_slot_by_name(fs, msg, items, i, 3);
        assert(unique_name(fs, 4));
        lemma_unique_found(fs, 4);
        lemma_slot_by_name(fs, msg, items, i, 4);
    }

}

impl InRemoveClientFromStream {
    /// How the parts of a `removeclientfromstream` command read: each field of part `i`
    /// holds the value of the last argument under the field's own name in that
    /// part, read as the field's type; where the part has none, a later part
    /// has the value of the first part, and the first part has none.
    pub proof fn lemma_fields_by_name(header: InHeader, cmd: Seq<u8>, m: InRemoveClientFromStream, i: int)
        requires
            decode_spec(header, cmd) == Ok::<Decoded, ParseErrorV>((MessageKind::RemoveClientFromStream, m.parts_slots())),
            0 <= i < m.spec_parts().len(),
        ensures
            ({
                let items = parse_spec(cmd).1;
                let p = m.spec_parts()[i];
                let first = m.spec_parts()[0];
                &&& cid_slot(p.client_id) == named_slot(
                    items,
                    i as nat,
                    Field { name: "clid", pretty: "ClientId", kind: FieldKind::ClientId, optional: false },
                    cid_slot(first.client_id),
                )
                &&& str_slot(p.stream_id) == named_slot(
                    items,
                    i as nat,
                    Field { name: "id", pretty: "StreamId", kind: FieldKind::Str, optional: false },
                    str_slot(first.stream_id),
                )
                &&& u32_slot(p.reason) == named_slot(
                    items,
                    i as nat,
                    Field { name: "reason", pretty: "Reason", kind: FieldKind::U32, optional: false },
                    u32_slot(first.reason),
                )
            }),
    {
        let items = parse_spec(cmd).1;
        let fs = fields_of(MessageKind::RemoveClientFromStream);
        let msg = message_name(MessageKind::RemoveClientFromStream);
        let ps = m.parts_slots();
        assert(decode_parts_spec(fs, msg, items) == Ok::<Seq<Seq<Option<ValueV>>>, ParseErrorV>(ps));
        assert(ps[i] == m.spec_parts()[i].slots());
        assert(ps[0] == m.spec_parts()[0].slots());
        lemma_names_remove_client_from_stream();
        assert(unique_name(fs, 0));
        lemma_unique_found(fs, 0);
        lemma_slot_by_name(fs, msg, items, i, 0);
        assert(unique_name(fs, 1));
        lemma_unique_found(fs, 1);
        lemma_slot_by_name(fs, msg, items, i, 1);
        assert(unique_name(fs, 2));
        lemma_unique_found(fs, 2);
        lemma_slot_by_name(fs, msg, items, i, 2);
    }

}

impl OutJoinStreamRequestPart {
    /// What `to_packet` writes for this part: `joinstreamrequest`, then each field that
    /// has a value, in order, under its own name with the value written as
    /// its type writes it.
    pub proof fn lemma_written_by_name(&self)
        ensures
            written(MessageKind::JoinStreamRequest, self.slots()) == append_args(
                "joinstreamrequest".spec_bytes(),
                arg_if("id".spec_bytes(), str_slot(self.stream_id))
                    + arg_if("clid".spec_bytes(), cid_slot(self.client_id))
                    + arg_if("is_remove".spec_bytes(), bool_slot(self.is_remove))
                    + arg_if("msg".spec_bytes(), str_slot(self.message)),
            ),
    {
        let fs = fields_of(MessageKind::JoinStreamRequest);
        let s = self.slots();
        lemma_encode_args_step(fs, s, 1);
        lemma_encode_args_step(fs, s, 2);
        lemma_encode_args_step(fs, s, 3);
        lemma_encode_args_step(fs, s, 4);
        assert(encode_args_range(fs, s, 0, 0) =~= Seq::<(Seq<u8>, Seq<u8>)>::empty());
        assert(encode_args(fs, s) =~= arg_if("id".spec_bytes(), str_slot(self.stream_id)) + arg_if("clid".spec_bytes(), cid_slot(self.client_id)) + arg_if("is_remove".spec_bytes(), bool_slot(self.is_remove)) + arg_if("msg".spec_bytes(), str_slot(self.message)));
    }

    /// Reading back what `to_packet` writes gives one part with the same
    /// fields.
    pub proof fn lemma_read_back_fields(&self, m: InJoinStreamRequest)
        requires
            decode_spec(command_header(), written(MessageKind::JoinStreamRequest, self.slots())) == Ok::<
                Decoded,
                ParseErrorV,
            >((MessageKind::JoinStreamRequest, m.parts_slots())),
        ensures
            m.spec_parts().len() == 1,
            m.spec_parts()[0].stream_id@ == self.stream_id@,
            m.spec_parts()[0].client_id == self.client_id,
            m.spec_parts()[0].is_remove == self.is_remove,
            m.spec_parts()[0].message@ == self.message@,
    {
        self.lemma_read_back();
        assert(m.parts_slots() == seq![self.slots()]);
        assert(m.parts_slots().len() == 1);
        assert(m.parts_slots().len() == m.spec_parts().len());
        assert(m.parts_slots()[0] == m.spec_parts()[0].slots());
        let q = m.spec_parts()[0].slots();
        assert(q[0] == self.slots()[0]);
        assert(q[1] == self.slots()[1]);
        assert(q[2] == self.slots()[2]);
        assert(q[3] == self.slots()[3]);
    }
}

impl OutRequestStreamInfoPart {
    /// What `to_packet` writes for this part: `requeststreaminfo`, then each field that
    /// has a value, in order, under its own name with the value written as
    /// its type writes it.
    pub proof fn lemma_written_by_name(&self)
        ensures
            written(MessageKind::RequestStreamInfo, self.slots()) == append_args(
                "requeststreaminfo".spec_bytes(),
                arg_if("clid".spec_bytes(), cid_slot(self.client_id))
                    + arg_if("id".spec_bytes(), opt_str_slot(self.stream_id)),
            ),
    {
        let fs = fields_of(MessageKind::RequestStreamInfo);
        let s = self.slots();
        lemma_encode_args_step(fs, s, 1);
        lemma_encode_args_step(fs, s, 2);
        assert(encode_args_range(fs, s, 0, 0) =~= Seq::<(Seq<u8>, Seq<u8>)>::empty());
        assert(encode_args(fs, s) =~= arg_if("clid".spec_bytes(), cid_slot(self.client_id)) + arg_if("id".spec_bytes(), opt_str_slot(self.stream_id)));
    }

    /// Reading back what `to_packet` writes gives one part with the same
    /// fields.
    pub proof fn lemma_read_back_fields(&self, m: InRequestStreamInfo)
        requires
            decode_spec(command_header(), written(MessageKind::RequestStreamInfo, self.slots())) == Ok::<
                Decoded,
                ParseErrorV,
            >((MessageKind::RequestStreamInfo, m.parts_slots())),
        ensures
            m.spec_parts().len() == 1,
            m.spec_parts()[0].client_id == self.client_id,
            opt_text(m.spec_parts()[0].stream_id) == opt_text(self.stream_id),
    {
        self.lemma_read_back();
        assert(m.parts_slots() == seq![self.slots()]);
        assert(m.parts_slots().len() == 1);
        assert(m.parts_slots().len() == m.spec_parts().len());
        assert(m.parts_slots()[0] == m.spec_parts()[0].slots());
        let q = m.spec_parts()[0].slots();
        assert(q[0] == self.slots()[0]);
        assert(q[1] == self.slots()[1]);
    }
}

impl OutStreamSignalingPart {
    /// What `to_packet` writes for this part: `streamsignaling`, then each field that
    /// has a value, in order, under its own name with the value written as
    /// its type writes it.
    pub proof fn lemma_written_by_name(&self)
        ensures
            written(MessageKind::StreamSignaling, self.slots()) == append_args(
                "streamsignaling".spec_bytes(),
                arg_if("clid".spec_bytes(), cid_slot(self.client_id))
                    + arg_if("id".spec_bytes(), str_slot(self.stream_id))
                    + arg_if("json".spec_bytes(), str_slot(self.json)),
            ),
    {
        let fs = fields_of(MessageKind::StreamSignaling);
        let s = self.slots();
        lemma_encode_args_step(fs, s, 1);
        lemma_encode_args_step(fs, s, 2);
        lemma_encode_args_step(fs, s, 3);
        assert(encode_args_range(fs, s, 0, 0) =~= Seq::<(Seq<u8>, Seq<u8>)>::empty());
        assert(encode_args(fs, s) =~= arg_if("clid".spec_bytes(), cid_slot(self.client_id)) + arg_if("id".spec_bytes(), str_slot(self.stream_id)) + arg_if("json".spec_bytes(), str_slot(self.json)));
    }

    /// Reading back what `to_packet` writes gives one part with the same
    /// fields.
    pub proof fn lemma_read_back_fields(&self, m: InStreamSignaling)
        requires
            decode_spec(command_header(), written(MessageKind::StreamSignaling, self.slots())) == Ok::<
                Decoded,
                ParseErrorV,
            >((MessageKind::StreamSignaling, m.parts_slots())),
        ensures
            m.spec_parts().len() == 1,
            m.spec_parts()[0].client_id == self.client_id,
            m.spec_parts()[0].stream_id@ == self.stream_id@,
            m.spec_parts()[0].json@ == self.json@,
    {
        self.lemma_read_back();
        assert(m.parts_slots() == seq![self.slots()]);
        assert(m.parts_slots().len() == 1);
        assert(m.parts_slots().len() == m.spec_parts().len());
        assert(m.parts_slots()[0] == m.spec_parts()[0].slots());
        let q = m.spec_parts()[0].slots();
        assert(q[0] == self.slots()[0]);
        assert(q[1] == self.slots()[1]);
        assert(q[2] == self.slots()[2]);
    }
}

impl OutSetupStreamPart {
    /// What `to_packet` writes for this part: `setupstream`, then each field that
    /// has a value, in order, under its own name with the value written as
    /// its type writes it.
    pub proof fn lemma_written_by_name(&self)
        ensures
            written(MessageKind::SetupStream, self.slots()) == append_args(
                "setupstream".spec_bytes(),
                arg_if("name".spec_bytes(), opt_str_slot(self.name))
                    + arg_if("type".spec_bytes(), opt_u32_slot(self.stream_type))
                    + arg_if("mode".spec_bytes(), opt_u32_slot(self.mode))
                    + arg_if("bitrate".spec_bytes(), opt_u32_slot(self.bitrate))
                    + arg_if("viewer_limit".spec_bytes(), opt_u32_slot(self.viewer_limit))
                    + arg_if("audio".spec_bytes(), opt_bool_slot(self.audio))
                    + arg_if("accessibility".spec_bytes(), u32_slot(self.accessibility)),
            ),
    {
        let fs = fields_of(MessageKind::SetupStream);
        let s = self.slots();
        lemma_encode_args_step(fs, s, 1);
        lemma_encode_args_step(fs, s, 2);
        lemma_encode_args_step(fs, s, 3);
        lemma_encode_args_step(fs, s, 4);
        lemma_encode_args_step(fs, s, 5);
        lemma_encode_args_step(fs, s, 6);
        lemma_encode_args_step(fs, s, 7);
        assert(encode_args_range(fs, s, 0, 0) =~= Seq::<(Seq<u8>, Seq<u8>)>::empty());
        assert(encode_args(fs, s) =~= arg_if("name".spec_bytes(), opt_str_slot(self.name)) + arg_if("type".spec_bytes(), opt_u32_slot(self.stream_type)) + arg_if("mode".spec_bytes(), opt_u32_slot(self.mode)) + arg_if("bitrate".spec_bytes(), opt_u32_slot(self.bitrate)) + arg_if("viewer_limit".spec_bytes(), opt_u32_slot(self.viewer_limit)) + arg_if("audio".spec_bytes(), opt_bool_slot(self.audio)) + arg_if("accessibility".spec_bytes(), u32_slot(self.accessibility)));
    }

    /// Reading back what `to_packet` writes gives one part with the same
    /// fields.
    pub proof fn lemma_read_back_fields(&self, m: InSetupStream)
        requires
            decode_spec(command_header(), written(MessageKind::SetupStream, self.slots())) == Ok::<
                Decoded,
                ParseErrorV,
            >((MessageKind::SetupStream, m.parts_slots())),
        ensures
            m.spec_parts().len() == 1,
            opt_text(m.spec_parts()[0].name) == opt_text(self.name),
            m.spec_parts()[0].stream_type == self.stream_type,
            m.spec_parts()[0].mode == self.mode,
            m.spec_parts()[0].bitrate == self.bitrate,
            m.spec_parts()[0].viewer_limit == self.viewer_limit,
            m.spec_parts()[0].audio == self.audio,
            m.spec_parts()[0].accessibility == self.accessibility,
    {
        self.lemma_read_back();
        assert(m.parts_slots() == seq![self.slots()]);
        assert(m.parts_slots().len() == 1);
        assert(m.parts_slots().len() == m.spec_parts().len());
        assert(m.parts_slots()[0] == m.spec_parts()[0].slots());
        let q = m.spec_parts()[0].slots();
        assert(q[0] == self.slots()[0]);
        assert(q[1] == self.slots()[1]);
        assert(q[2] == self.slots()[2]);
        assert(q[3] == self.slots()[3]);
        assert(q[4] == self.slots()[4]);
        assert(q[5] == self.slots()[5]);
        assert(q[6] == self.slots()[6]);
    }
}

impl OutUpdateStreamPart {
    /// What `to_packet` writes for this part: `updatestream`, then each field that
    /// has a value, in order, under its own name with the value written as
    /// its type writes it.
    pub proof fn lemma_written_by_name(&self)
        ensures
            written(MessageKind::UpdateStream, self.slots()) == append_args(
                "updatestream".spec_bytes(),
                arg_if("id".spec_bytes(), str_slot(self.stream_id))
                    + arg_if("name".spec_bytes(), opt_str_slot(self.name))
                    + arg_if("type".spec_bytes(), opt_u32_slot(self.stream_type))
                    + arg_if("mode".spec_bytes(), opt_u32_slot(self.mode))
                    + arg_if("bitrate".spec_bytes(), opt_u32_slot(self.bitrate))
                    + arg_if("viewer_limit".spec_bytes(), opt_u32_slot(self.viewer_limit))
                    + arg_if("audio".spec_bytes(), opt_bool_slot(self.audio))
                    + arg_if("accessibility".spec_bytes(), opt_u32_slot(self.accessibility)),
            ),
    {
        let fs = fields_of(MessageKind::UpdateStream);
        let s = self.slots();
        lemma_encode_args_step(fs, s, 1);
        lemma_encode_args_step(fs, s, 2);
        lemma_encode_args_step(fs, s, 3);
        lemma_encode_args_step(fs, s, 4);
        lemma_encode_args_step(fs, s, 5);
        lemma_encode_args_step(fs, s, 6);
        lemma_encode_args_step(fs, s, 7);
        lemma_encode_args_step(fs, s, 8);
        assert(encode_args_range(fs, s, 0, 0) =~= Seq::<(Seq<u8>, Seq<u8>)>::empty());
        assert(encode_args(fs, s) =~= arg_if("id".spec_bytes(), str_slot(self.stream_id)) + arg_if("name".spec_bytes(), opt_str_slot(self.name)) + arg_if("type".spec_bytes(), opt_u32_slot(self.stream_type)) + arg_if("mode".spec_bytes(), opt_u32_slot(self.mode)) + arg_if("bitrate".spec_bytes(), opt_u32_slot(self.bitrate)) + arg_if("viewer_limit".spec_bytes(), opt_u32_slot(self.viewer_limit)) + arg_if("audio".spec_bytes(), opt_bool_slot(self.audio)) + arg_if("accessibility".spec_bytes(), opt_u32_slot(self.accessibility)));
    }

    /// Reading back what `to_packet` writes gives one part with the same
    /// fields.
    pub proof fn lemma_read_back_fields(&self, m: InUpdateStream)
        requires
            decode_spec(command_header(), written(MessageKind::UpdateStream, self.slots())) == Ok::<
                Decoded,
                ParseErrorV,
            >((MessageKind::UpdateStream, m.parts_slots())),
        ensures
            m.spec_parts().len() == 1,
            m.spec_parts()[0].stream_id@ == self.stream_id@,
            opt_text(m.spec_parts()[0].name) == opt_text(self.name),
            m.spec_parts()[0].stream_type == self.stream_type,
            m.spec_parts()[0].mode == self.mode,
            m.spec_parts()[0].bitrate == self.bitrate,
            m.spec_parts()[0].viewer_limit == self.viewer_limit,
            m.spec_parts()[0].audio == self.audio,
            m.spec_parts()[0].accessibility == self.accessibility,
    {
        self.lemma_read_back();
        assert(m.parts_slots() == seq![self.slots()]);
        assert(m.parts_slots().len() == 1);
        assert(m.parts_slots().len() == m.spec_parts().len());
        assert(m.parts_slots()[0] == m.spec_parts()[0].slots());
        let q = m.spec_parts()[0].slots();
        assert(q[0] == self.slots()[0]);
        assert(q[1] == self.slots()[1]);
        assert(q[2] == self.slots()[2]);
        assert(q[3] == self.slots()[3]);
        assert(q[4] == self.slots()[4]);
        assert(q[5] == self.slots()[5]);
        assert(q[6] == self.slots()[6]);
        assert(q[7] == self.slots()[7]);
    }
}

impl OutStopStreamPart {
    /// What `to_packet` writes for this part: `stopstream`, then each field that
    /// has a value, in order, under its own name with the value written as
    /// its type writes it.
    pub proof fn lemma_written_by_name(&self)
        ensures
            written(MessageKind::StopStream, self.slots()) == append_args(
                "stopstream".spec_bytes(),
                arg_if("id".spec_bytes(), str_slot(self.stream_id))
                    + arg_if("reason".spec_bytes(), u32_slot(self.reason)),
            ),
    {
        let fs = fields_of(MessageKind::StopStream);
        let s = self.slots();
        lemma_encode_args_step(fs, s, 1);
        lemma_encode_args_step(fs, s, 2);
        assert(encode_args_range(fs, s, 0, 0) =~= Seq::<(Seq<u8>, Seq<u8>)>::empty());
        assert(encode_args(fs, s) =~= arg_if("id".spec_bytes(), str_slot(self.stream_id)) + arg_if("reason".spec_bytes(), u32_slot(self.reason)));
    }

    /// Reading back what `to_packet` writes gives one part with the same
    /// fields.
    pub proof fn lemma_read_back_fields(&self, m: InStopStream)
        requires
            decode_spec(command_header(), written(MessageKind::StopStream, self.slots())) == Ok::<
                Decoded,
                ParseErrorV,
            >((MessageKind::StopStream, m.parts_slots())),
        ensures
            m.spec_parts().len() == 1,
            m.spec_parts()[0].stream_id@ == self.stream_id@,
            m.spec_parts()[0].reason == self.reason,
    {
        self.lemma_read_back();
        assert(m.parts_slots() == seq![self.slots()]);
        assert(m.parts_slots().len() == 1);
        assert(m.parts_slots().len() == m.spec_parts().len());
        assert(m.parts_slots()[0] == m.spec_parts()[0].slots());
        let q = m.spec_parts()[0].slots();
        assert(q[0] == self.slots()[0]);
        assert(q[1] == self.slots()[1]);
    }
}

impl OutRespondJoinStreamRequestPart {
    /// What `to_packet` writes for this part: `respondjoinstreamrequest`, then each field that
    /// has a value, in order, under its own name with the value written as
    /// its type writes it.
    pub proof fn lemma_written_by_name(&self)
        ensures
            written(MessageKind::RespondJoinStreamRequest, self.slots()) == append_args(
                "respondjoinstreamrequest".spec_bytes(),
                arg_if("clid".spec_bytes(), cid_slot(self.client_id))
                    + arg_if("id".spec_bytes(), str_slot(self.stream_id))
                    + arg_if("decision".spec_bytes(), u32_slot(self.decision))
                    + arg_if("msg".spec_bytes(), str_slot(self.message))
                    + arg_if("offer".spec_bytes(), str_slot(self.offer)),
            ),
    {
        let fs = fields_of(MessageKind::RespondJoinStreamRequest);
        let s = self.slots();
        lemma_encode_args_step(fs, s, 1);
        lemma_encode_args_step(fs, s, 2);
        lemma_encode_args_step(fs, s, 3);
        lemma_encode_args_step(fs, s, 4);
        lemma_encode_args_step(fs, s, 5);
        assert(encode_args_range(fs, s, 0, 0) =~= Seq::<(Seq<u8>, Seq<u8>)>::empty());
        assert(encode_args(fs, s) =~= arg_if("clid".spec_bytes(), cid_slot(self.client_id)) + arg_if("id".spec_bytes(), str_slot(self.stream_id)) + arg_if("decision".spec_bytes(), u32_slot(self.decision)) + arg_if("msg".spec_bytes(), str_slot(self.message)) + arg_if("offer".spec_bytes(), str_slot(self.offer)));
    }

    /// Reading back what `to_packet` writes gives one part with the same
    /// fields.
    pub proof fn lemma_read_back_fields(&self, m: InRespondJoinStreamRequest)
        requires
            decode_spec(command_header(), written(MessageKind::RespondJoinStreamRequest, self.slots())) == Ok::<
                Decoded,
                ParseErrorV,
            >((MessageKind::RespondJoinStreamRequest, m.parts_slots())),
        ensures
            m.spec_parts().len() == 1,
            m.spec_parts()[0].client_id == self.client_id,
            m.spec_parts()[0].stream_id@ == self.stream_id@,
            m.spec_parts()[0].decision == self.decision,
            m.spec_parts()[0].message@ == self.message@,
            m.spec_parts()[0].offer@ == self.offer@,
    {
        self.lemma_read_back();
        assert(m.parts_slots() == seq![self.slots()]);
        assert(m.parts_slots().len() == 1);
        assert(m.parts_slots().len() == m.spec_parts().len());
        assert(m.parts_slots()[0] == m.spec_parts()[0].slots());
        let q = m.spec_parts()[0].slots();
        assert(q[0] == self.slots()[0]);
        assert(q[1] == self.slots()[1]);
        assert(q[2] == self.slots()[2]);
        assert(q[3] == self.slots()[3]);
        assert(q[4] == self.slots()[4]);
    }
}

impl OutRemoveClientFromStreamPart {
    /// What `to_packet` writes for this part: `removeclientfromstream`, then each field that
    /// has a value, in order, under its own name with the value written as
    /// its type writes it.
    pub proof fn lemma_written_by_name(&self)
        ensures
            written(MessageKind::RemoveClientFromStream, self.slots()) == append_args(
                "removeclientfromstream".spec_bytes(),
                arg_if("clid".spec_bytes(), cid_slot(self.client_id))
                    + arg_if("id".spec_bytes(), str_slot(self.stream_id))
                    + arg_if("reason".spec_bytes(), u32_slot(self.reason)),
            ),
    {
        let fs = fields_of(MessageKind::RemoveClientFromStream);
        let s = self.slots();
        lemma_encode_args_step(fs, s, 1);
        lemma_encode_args_step(fs, s, 2);
        lemma_encode_args_step(fs, s, 3);
        assert(encode_args_range(fs, s, 0, 0) =~= Seq::<(Seq<u8>, Seq<u8>)>::empty());
        assert(encode_args(fs, s) =~= arg_if("clid".spec_bytes(), cid_slot(self.client_id)) + arg_if("id".spec_bytes(), str_slot(self.stream_id)) + arg_if("reason".spec_bytes(), u32_slot(self.reason)));
    }

    /// Reading back what `to_packet` writes gives one part with the same
    /// fields.
    pub proof fn lemma_read_back_fields(&self, m: InRemoveClientFromStream)
        requires
            decode_spec(command_header(), written(MessageKind::RemoveClientFromStream, self.slots())) == Ok::<
                Decoded,
                ParseErrorV,
            >((MessageKind::RemoveClientFromStream, m.parts_slots())),
        ensures
            m.spec_parts().len() == 1,
            m.spec_parts()[0].client_id == self.client_id,
            m.spec_parts()[0].stream_id@ == self.stream_id@,
            m.spec_parts()[0].reason == self.reason,
    {
        self.lemma_read_back();
        assert(m.parts_slots() == seq![self.slots()]);
        assert(m.parts_slots().len() == 1);
        assert(m.parts_slots().len() == m.spec_parts().len());
        assert(m.parts_slots()[0] == m.spec_parts()[0].slots());
        let q = m.spec_parts()[0].slots();
        assert(q[0] == self.slots()[0]);
        assert(q[1] == self.slots()[1]);
        assert(q[2] == self.slots()[2]);
    }
}

} // verus!
