//! Messages that a server sends to a client.
use vstd::prelude::*;
use vstd::string::StringSliceAdditionalSpecFns;
use vstd::utf8::{decode_utf8, valid_utf8};
use crate::commands::{bytes_equal, parse, parse_spec};
use crate::fields::{Field, FieldKind, ParseError, ParseErrorV, Value, ValueV, opt_view, slots_view};
use crate::ids::{ClientId, IconId};
use crate::message::{
    decode_parts, decode_parts_spec, lemma_decode_parts_fits, part_fits, parts_view, slot_fits,
};
use crate::message::{lemma_slot_by_name, lemma_unique_found, named_slot, unique_name};
use crate::commands::first_part_value_from;
use crate::fields::{decode_value_spec, field_name};
use crate::message::{
    expected_slot, last_value_for, lemma_bare_text, lemma_last_value_by_name, lemma_part_values,
    names_distinct, part_start,
};
use crate::messages::lemma_str_bytes_differ;
use crate::messages::{
    bool_slot, cid_slot, opt_bool_slot, opt_str_slot, opt_u32_slot, str_slot, take_bool, take_cid,
    take_opt_bool, take_opt_str, take_opt_u32, take_str, take_u32, u32_slot,
    i32_slot, i64_slot, icon_slot, opt_u64_slot, take_i32, take_i64, take_icon, take_opt_u64,
    take_u16, take_u64, u16_slot, u64_slot, opt_bytes_slot, take_opt_bytes,
};
use crate::packets::{Direction, InHeader, PacketType};
use crate::utf8::bytes_to_string;

verus! {

/// Which message a command is.
#[derive(Clone, Copy, Debug, PartialEq, Eq, Structural)]
pub enum MessageKind {
    StreamStarted,
    StreamInfo,
    StreamUpdated,
    StreamClientJoined,
    StreamStopped,
    StreamClientLeft,
    RespondJoinStreamRequest,
    StreamSignaling,
    JoinStreamRequest,
    InitServer,
}

/// The command name of each message.
pub open spec fn notify_name(k: MessageKind) -> &'static str {
    match k {
        MessageKind::StreamStarted => "notifystreamstarted",
        MessageKind::StreamInfo => "notifystreaminfo",
        MessageKind::StreamUpdated => "notifystreamupdated",
        MessageKind::StreamClientJoined => "notifystreamclientjoined",
        MessageKind::StreamStopped => "notifystreamstopped",
        MessageKind::StreamClientLeft => "notifystreamclientleft",
        MessageKind::RespondJoinStreamRequest => "notifyrespondjoinstreamrequest",
        MessageKind::StreamSignaling => "notifystreamsignaling",
        MessageKind::JoinStreamRequest => "notifyjoinstreamrequest",
        MessageKind::InitServer => "initserver",
    }
}

/// The name of each message, as errors report it.
pub open spec fn message_name(k: MessageKind) -> &'static str {
    match k {
        MessageKind::StreamStarted => "StreamStarted",
        MessageKind::StreamInfo => "StreamInfo",
        MessageKind::StreamUpdated => "StreamUpdated",
        MessageKind::StreamClientJoined => "StreamClientJoined",
        MessageKind::StreamStopped => "StreamStopped",
        MessageKind::StreamClientLeft => "StreamClientLeft",
        MessageKind::RespondJoinStreamRequest => "RespondJoinStreamRequest",
        MessageKind::StreamSignaling => "StreamSignaling",
        MessageKind::JoinStreamRequest => "JoinStreamRequest",
        MessageKind::InitServer => "InitServer",
    }
}

/// The fields that each message declares, in the order they are written.
pub open spec fn fields_of(k: MessageKind) -> Seq<Field> {
    match k {
        MessageKind::StreamStarted => seq![
            Field { name: "clid", pretty: "ClientId", kind: FieldKind::ClientId, optional: false },
            Field { name: "id", pretty: "StreamId", kind: FieldKind::Str, optional: false },
            Field { name: "name", pretty: "Name", kind: FieldKind::Str, optional: true },
            Field { name: "type", pretty: "StreamType", kind: FieldKind::U32, optional: true },
            Field { name: "access", pretty: "Access", kind: FieldKind::U32, optional: true },
            Field { name: "mode", pretty: "Mode", kind: FieldKind::U32, optional: true },
            Field { name: "bitrate", pretty: "Bitrate", kind: FieldKind::U32, optional: true },
            Field { name: "viewer_limit", pretty: "ViewerLimit", kind: FieldKind::U32, optional: true },
            Field { name: "audio", pretty: "Audio", kind: FieldKind::Bool, optional: true },
            Field { name: "return_code", pretty: "ReturnCode", kind: FieldKind::Str, optional: true },
        ],
        MessageKind::StreamInfo => seq![
            Field { name: "clid", pretty: "ClientId", kind: FieldKind::ClientId, optional: false },
            Field { name: "id", pretty: "StreamId", kind: FieldKind::Str, optional: false },
            Field { name: "name", pretty: "Name", kind: FieldKind::Str, optional: true },
            Field { name: "type", pretty: "StreamType", kind: FieldKind::U32, optional: true },
            Field { name: "accessibility", pretty: "Accessibility", kind: FieldKind::U32, optional: true },
            Field { name: "mode", pretty: "Mode", kind: FieldKind::U32, optional: true },
            Field { name: "viewer", pretty: "ViewerCount", kind: FieldKind::U32, optional: true },
            Field { name: "bitrate", pretty: "Bitrate", kind: FieldKind::U32, optional: true },
            Field { name: "viewer_limit", pretty: "ViewerLimit", kind: FieldKind::U32, optional: true },
            Field { name: "audio", pretty: "Audio", kind: FieldKind::Bool, optional: true },
            Field { name: "return_code", pretty: "ReturnCode", kind: FieldKind::Str, optional: true },
        ],
        MessageKind::StreamUpdated => seq![
            Field { name: "clid", pretty: "ClientId", kind: FieldKind::ClientId, optional: false },
            Field { name: "id", pretty: "StreamId", kind: FieldKind::Str, optional: false },
            Field { name: "name", pretty: "Name", kind: FieldKind::Str, optional: true },
            Field { name: "type", pretty: "StreamType", kind: FieldKind::U32, optional: true },
            Field { name: "access", pretty: "Access", kind: FieldKind::U32, optional: true },
            Field { name: "accessibility", pretty: "Accessibility", kind: FieldKind::U32, optional: true },
            Field { name: "mode", pretty: "Mode", kind: FieldKind::U32, optional: true },
            Field { name: "viewer", pretty: "ViewerCount", kind: FieldKind::U32, optional: true },
            Field { name: "bitrate", pretty: "Bitrate", kind: FieldKind::U32, optional: true },
            Field { name: "viewer_limit", pretty: "ViewerLimit", kind: FieldKind::U32, optional: true },
            Field { name: "audio", pretty: "Audio", kind: FieldKind::Bool, optional: true },
            Field { name: "return_code", pretty: "ReturnCode", kind: FieldKind::Str, optional: true },
        ],
        MessageKind::StreamClientJoined => seq![
            Field { name: "clid", pretty: "ClientId", kind: FieldKind::ClientId, optional: false },
            Field { name: "id", pretty: "StreamId", kind: FieldKind::Str, optional: false },
        ],
        MessageKind::StreamStopped => seq![
            Field { name: "clid", pretty: "ClientId", kind: FieldKind::ClientId, optional: false },
            Field { name: "id", pretty: "StreamId", kind: FieldKind::Str, optional: false },
            Field { name: "reason", pretty: "Reason", kind: FieldKind::U32, optional: true },
        ],
        MessageKind::StreamClientLeft => seq![
            Field { name: "clid", pretty: "ClientId", kind: FieldKind::ClientId, optional: false },
            Field { name: "id", pretty: "StreamId", kind: FieldKind::Str, optional: false },
            Field { name: "reason", pretty: "Reason", kind: FieldKind::U32, optional: true },
        ],
        MessageKind::RespondJoinStreamRequest => seq![
            Field { name: "clid", pretty: "ClientId", kind: FieldKind::ClientId, optional: false },
            Field { name: "id", pretty: "StreamId", kind: FieldKind::Str, optional: false },
            Field { name: "msg", pretty: "Message", kind: FieldKind::Str, optional: true },
            Field { name: "decision", pretty: "Decision", kind: FieldKind::U32, optional: false },
            Field { name: "offer", pretty: "Offer", kind: FieldKind::Str, optional: true },
        ],
        MessageKind::StreamSignaling => seq![
            Field { name: "clid", pretty: "ClientId", kind: FieldKind::ClientId, optional: false },
            Field { name: "id", pretty: "StreamId", kind: FieldKind::Str, optional: false },
            Field { name: "json", pretty: "Json", kind: FieldKind::Str, optional: false },
        ],
        MessageKind::JoinStreamRequest => seq![
            Field { name: "clid", pretty: "ClientId", kind: FieldKind::ClientId, optional: false },
            Field { name: "id", pretty: "StreamId", kind: FieldKind::Str, optional: false },
            Field { name: "msg", pretty: "Message", kind: FieldKind::Str, optional: true },
            Field { name: "is_remove", pretty: "IsRemove", kind: FieldKind::Bool, optional: false },
        ],
        MessageKind::InitServer => seq![
            Field { name: "virtualserver_name", pretty: "Name", kind: FieldKind::Str, optional: false },
            Field { name: "virtualserver_welcomemessage", pretty: "WelcomeMessage", kind: FieldKind::Str, optional: false },
            Field { name: "virtualserver_platform", pretty: "Platform", kind: FieldKind::Str, optional: false },
            Field { name: "virtualserver_version", pretty: "Version", kind: FieldKind::Str, optional: false },
            Field { name: "virtualserver_maxclients", pretty: "MaxClients", kind: FieldKind::U16, optional: false },
            Field { name: "virtualserver_created", pretty: "Created", kind: FieldKind::I64, optional: false },
            Field { name: "virtualserver_codec_encryption_mode", pretty: "CodecEncryptionMode", kind: FieldKind::Enum(2), optional: false },
            Field { name: "virtualserver_hostmessage", pretty: "Hostmessage", kind: FieldKind::Str, optional: false },
            Field { name: "virtualserver_hostmessage_mode", pretty: "HostmessageMode", kind: FieldKind::Enum(3), optional: false },
            Field { name: "virtualserver_default_server_group", pretty: "DefaultServerGroup", kind: FieldKind::U64, optional: false },
            Field { name: "virtualserver_default_channel_group", pretty: "DefaultChannelGroup", kind: FieldKind::U64, optional: false },
            Field { name: "virtualserver_id", pretty: "VirtualServerId", kind: FieldKind::U64, optional: false },
            Field { name: "virtualserver_ip", pretty: "Ips", kind: FieldKind::Str, optional: true },
            Field { name: "virtualserver_ask_for_privilegekey", pretty: "AskForPrivilegekey", kind: FieldKind::Bool, optional: false },
            Field { name: "lt", pretty: "LicenseType", kind: FieldKind::Enum(10), optional: true },
            Field { name: "virtualserver_hostbanner_url", pretty: "HostbannerUrl", kind: FieldKind::Str, optional: false },
            Field { name: "virtualserver_hostbanner_gfx_url", pretty: "HostbannerGfxUrl", kind: FieldKind::Str, optional: false },
            Field { name: "virtualserver_hostbanner_gfx_interval", pretty: "HostbannerGfxInterval", kind: FieldKind::Duration, optional: false },
            Field { name: "virtualserver_priority_speaker_dimm_modificator", pretty: "PrioritySpeakerDimmModificator", kind: FieldKind::Float, optional: false },
            Field { name: "virtualserver_hostbutton_tooltip", pretty: "HostbuttonTooltip", kind: FieldKind::Str, optional: false },
            Field { name: "virtualserver_hostbutton_url", pretty: "HostbuttonUrl", kind: FieldKind::Str, optional: false },
            Field { name: "virtualserver_hostbutton_gfx_url", pretty: "HostbuttonGfxUrl", kind: FieldKind::Str, optional: false },
            Field { name: "virtualserver_name_phonetic", pretty: "PhoneticName", kind: FieldKind::Str, optional: false },
            Field { name: "virtualserver_icon_id", pretty: "Icon", kind: FieldKind::Icon, optional: false },
            Field { name: "virtualserver_hostbanner_mode", pretty: "HostbannerMode", kind: FieldKind::Enum(2), optional: false },
            Field { name: "virtualserver_channel_temp_delete_delay_default", pretty: "TempChannelDefaultDeleteDelay", kind: FieldKind::Duration, optional: false },
            Field { name: "virtualserver_nickname", pretty: "Nickname", kind: FieldKind::Str, optional: true },
            Field { name: "virtualserver_unique_identifier", pretty: "VirtualServerUid", kind: FieldKind::Uid, optional: true },
            Field { name: "virtualserver_default_music_group", pretty: "DefaultMusicGroup", kind: FieldKind::U64, optional: true },
            Field { name: "virtualserver_default_channel_admin_group", pretty: "DefaultChannelAdminGroup", kind: FieldKind::U64, optional: true },
            Field { name: "virtualserver_weblist_enabled", pretty: "WeblistEnabled", kind: FieldKind::Bool, optional: true },
            Field { name: "virtualserver_country_code", pretty: "CountryCode", kind: FieldKind::Str, optional: true },
            Field { name: "virtualserver_capability_extensions", pretty: "CapabilityExtensions", kind: FieldKind::Str, optional: true },
            Field { name: "client_nickname", pretty: "ClientName", kind: FieldKind::Str, optional: true },
            Field { name: "client_version", pretty: "ClientVersion", kind: FieldKind::Str, optional: true },
            Field { name: "client_platform", pretty: "ClientPlatform", kind: FieldKind::Str, optional: true },
            Field { name: "client_input_muted", pretty: "InputMuted", kind: FieldKind::Bool, optional: true },
            Field { name: "client_output_muted", pretty: "OutputMuted", kind: FieldKind::Bool, optional: true },
            Field { name: "client_outputonly_muted", pretty: "OutputOnlyMuted", kind: FieldKind::Bool, optional: true },
            Field { name: "client_input_hardware", pretty: "InputHardwareEnabled", kind: FieldKind::Bool, optional: true },
            Field { name: "client_output_hardware", pretty: "OutputHardwareEnabled", kind: FieldKind::Bool, optional: true },
            Field { name: "client_default_channel", pretty: "DefaultChannel", kind: FieldKind::Str, optional: true },
            Field { name: "client_default_channel_password", pretty: "DefaultChannelPassword", kind: FieldKind::Str, optional: true },
            Field { name: "client_server_password", pretty: "Password", kind: FieldKind::Str, optional: true },
            Field { name: "client_meta_data", pretty: "Metadata", kind: FieldKind::Str, optional: true },
            Field { name: "client_version_sign", pretty: "ClientVersionSign", kind: FieldKind::Str, optional: true },
            Field { name: "client_security_hash", pretty: "SecurityHash", kind: FieldKind::Str, optional: true },
            Field { name: "client_key_offset", pretty: "ClientKeyOffset", kind: FieldKind::U64, optional: true },
            Field { name: "client_away", pretty: "IsAway", kind: FieldKind::Bool, optional: true },
            Field { name: "client_away_message", pretty: "AwayMessage", kind: FieldKind::Str, optional: true },
            Field { name: "client_nickname_phonetic", pretty: "ClientPhoneticName", kind: FieldKind::Str, optional: true },
            Field { name: "client_default_token", pretty: "DefaultToken", kind: FieldKind::Str, optional: true },
            Field { name: "client_badges", pretty: "Badges", kind: FieldKind::Str, optional: true },
            Field { name: "client_myteamspeak_id", pretty: "MyTeamSpeakId", kind: FieldKind::Str, optional: true },
            Field { name: "client_integrations", pretty: "Integrations", kind: FieldKind::Str, optional: true },
            Field { name: "client_active_integrations_info", pretty: "ActiveIntegrationsInfo", kind: FieldKind::Str, optional: true },
            Field { name: "client_myteamspeak_avatar", pretty: "MyTeamSpeakAvatar", kind: FieldKind::Str, optional: true },
            Field { name: "client_signed_badges", pretty: "SignedBadges", kind: FieldKind::Str, optional: true },
            Field { name: "acn", pretty: "AcceptedClientName", kind: FieldKind::Str, optional: false },
            Field { name: "aclid", pretty: "ClientId", kind: FieldKind::ClientId, optional: false },
            Field { name: "pv", pretty: "ProtocolVersion", kind: FieldKind::U16, optional: false },
            Field { name: "client_talk_power", pretty: "TalkPower", kind: FieldKind::I32, optional: false },
            Field { name: "client_needed_serverquery_view_power", pretty: "NeededServerqueryViewPower", kind: FieldKind::I32, optional: false },
        ],
    }
}

/// The message whose command name is `name`, if any.
pub open spec fn kind_of_name(name: Seq<u8>) -> Option<MessageKind> {
    if name == "notifystreamstarted".spec_bytes() {
        Some(MessageKind::StreamStarted)
    } else if name == "notifystreaminfo".spec_bytes() {
        Some(MessageKind::StreamInfo)
    } else if name == "notifystreamupdated".spec_bytes() {
        Some(MessageKind::StreamUpdated)
    } else if name == "notifystreamclientjoined".spec_bytes() {
        Some(MessageKind::StreamClientJoined)
    } else if name == "notifystreamstopped".spec_bytes() {
        Some(MessageKind::StreamStopped)
    } else if name == "notifystreamclientleft".spec_bytes() {
        Some(MessageKind::StreamClientLeft)
    } else if name == "notifyrespondjoinstreamrequest".spec_bytes() {
        Some(MessageKind::RespondJoinStreamRequest)
    } else if name == "notifystreamsignaling".spec_bytes() {
        Some(MessageKind::StreamSignaling)
    } else if name == "notifyjoinstreamrequest".spec_bytes() {
        Some(MessageKind::JoinStreamRequest)
    } else if name == "initserver".spec_bytes() {
        Some(MessageKind::InitServer)
    } else {
        None
    }
}

/// A message read from a command: which message, and the argument slots of
/// each part.
pub type Decoded = (MessageKind, Seq<Seq<Option<ValueV>>>);

/// How a command arriving under `header` reads: its name picks the message;
/// the packet must be a command packet that does not travel the way the
/// message never does; then the parts are read by the message's fields.
pub open spec fn decode_spec(header: InHeader, cmd: Seq<u8>) -> Result<Decoded, ParseErrorV> {
    let (name, items) = parse_spec(cmd);
    match kind_of_name(name) {
        None => if valid_utf8(name) {
            Err(ParseErrorV::UnknownCommand(decode_utf8(name)))
        } else {
            Err(ParseErrorV::InvalidUtf8)
        },
        Some(k) => if header.packet_type != PacketType::Command {
            Err(ParseErrorV::WrongPacketType(header.packet_type))
        } else if header.direction == Direction::C2S {
            Err(ParseErrorV::WrongDirection(Direction::C2S))
        } else {
            match decode_parts_spec(fields_of(k), message_name(k), items) {
                Ok(ps) => Ok((k, ps)),
                Err(e) => Err(e),
            }
        },
    }
}

fn notify_name_exec(k: MessageKind) -> (r: &'static str)
    ensures
        r == notify_name(k),
{
    match k {
        MessageKind::StreamStarted => "notifystreamstarted",
        MessageKind::StreamInfo => "notifystreaminfo",
        MessageKind::StreamUpdated => "notifystreamupdated",
        MessageKind::StreamClientJoined => "notifystreamclientjoined",
        MessageKind::StreamStopped => "notifystreamstopped",
        MessageKind::StreamClientLeft => "notifystreamclientleft",
        MessageKind::RespondJoinStreamRequest => "notifyrespondjoinstreamrequest",
        MessageKind::StreamSignaling => "notifystreamsignaling",
        MessageKind::JoinStreamRequest => "notifyjoinstreamrequest",
        MessageKind::InitServer => "initserver",
    }
}

fn message_name_exec(k: MessageKind) -> (r: &'static str)
    ensures
        r == message_name(k),
{
    match k {
        MessageKind::StreamStarted => "StreamStarted",
        MessageKind::StreamInfo => "StreamInfo",
        MessageKind::StreamUpdated => "StreamUpdated",
        MessageKind::StreamClientJoined => "StreamClientJoined",
        MessageKind::StreamStopped => "StreamStopped",
        MessageKind::StreamClientLeft => "StreamClientLeft",
        MessageKind::RespondJoinStreamRequest => "RespondJoinStreamRequest",
        MessageKind::StreamSignaling => "StreamSignaling",
        MessageKind::JoinStreamRequest => "JoinStreamRequest",
        MessageKind::InitServer => "InitServer",
    }
}

fn fields_exec_stream_started() -> (r: Vec<Field>)
    ensures
        r@ == fields_of(MessageKind::StreamStarted),
{
    let mut v: Vec<Field> = Vec::new();
    v.push(Field { name: "clid", pretty: "ClientId", kind: FieldKind::ClientId, optional: false });
    v.push(Field { name: "id", pretty: "StreamId", kind: FieldKind::Str, optional: false });
    v.push(Field { name: "name", pretty: "Name", kind: FieldKind::Str, optional: true });
    v.push(Field { name: "type", pretty: "StreamType", kind: FieldKind::U32, optional: true });
    v.push(Field { name: "access", pretty: "Access", kind: FieldKind::U32, optional: true });
    v.push(Field { name: "mode", pretty: "Mode", kind: FieldKind::U32, optional: true });
    v.push(Field { name: "bitrate", pretty: "Bitrate", kind: FieldKind::U32, optional: true });
    v.push(Field { name: "viewer_limit", pretty: "ViewerLimit", kind: FieldKind::U32, optional: true });
    v.push(Field { name: "audio", pretty: "Audio", kind: FieldKind::Bool, optional: true });
    v.push(Field { name: "return_code", pretty: "ReturnCode", kind: FieldKind::Str, optional: true });
    assert(v@ =~= fields_of(MessageKind::StreamStarted));
    v
}

fn fields_exec_stream_info() -> (r: Vec<Field>)
    ensures
        r@ == fields_of(MessageKind::StreamInfo),
{
    let mut v: Vec<Field> = Vec::new();
    v.push(Field { name: "clid", pretty: "ClientId", kind: FieldKind::ClientId, optional: false });
    v.push(Field { name: "id", pretty: "StreamId", kind: FieldKind::Str, optional: false });
    v.push(Field { name: "name", pretty: "Name", kind: FieldKind::Str, optional: true });
    v.push(Field { name: "type", pretty: "StreamType", kind: FieldKind::U32, optional: true });
    v.push(Field { name: "accessibility", pretty: "Accessibility", kind: FieldKind::U32, optional: true });
    v.push(Field { name: "mode", pretty: "Mode", kind: FieldKind::U32, optional: true });
    v.push(Field { name: "viewer", pretty: "ViewerCount", kind: FieldKind::U32, optional: true });
    v.push(Field { name: "bitrate", pretty: "Bitrate", kind: FieldKind::U32, optional: true });
    v.push(Field { name: "viewer_limit", pretty: "ViewerLimit", kind: FieldKind::U32, optional: true });
    v.push(Field { name: "audio", pretty: "Audio", kind: FieldKind::Bool, optional: true });
    v.push(Field { name: "return_code", pretty: "ReturnCode", kind: FieldKind::Str, optional: true });
    assert(v@ =~= fields_of(MessageKind::StreamInfo));
    v
}

fn fields_exec_stream_updated() -> (r: Vec<Field>)
    ensures
        r@ == fields_of(MessageKind::StreamUpdated),
{
    let mut v: Vec<Field> = Vec::new();
    v.push(Field { name: "clid", pretty: "ClientId", kind: FieldKind::ClientId, optional: false });
    v.push(Field { name: "id", pretty: "StreamId", kind: FieldKind::Str, optional: false });
    v.push(Field { name: "name", pretty: "Name", kind: FieldKind::Str, optional: true });
    v.push(Field { name: "type", pretty: "StreamType", kind: FieldKind::U32, optional: true });
    v.push(Field { name: "access", pretty: "Access", kind: FieldKind::U32, optional: true });
    v.push(Field { name: "accessibility", pretty: "Accessibility", kind: FieldKind::U32, optional: true });
    v.push(Field { name: "mode", pretty: "Mode", kind: FieldKind::U32, optional: true });
    v.push(Field { name: "viewer", pretty: "ViewerCount", kind: FieldKind::U32, optional: true });
    v.push(Field { name: "bitrate", pretty: "Bitrate", kind: FieldKind::U32, optional: true });
    v.push(Field { name: "viewer_limit", pretty: "ViewerLimit", kind: FieldKind::U32, optional: true });
    v.push(Field { name: "audio", pretty: "Audio", kind: FieldKind::Bool, optional: true });
    v.push(Field { name: "return_code", pretty: "ReturnCode", kind: FieldKind::Str, optional: true });
    assert(v@ =~= fields_of(MessageKind::StreamUpdated));
    v
}

fn fields_exec_stream_client_joined() -> (r: Vec<Field>)
    ensures
        r@ == fields_of(MessageKind::StreamClientJoined),
{
    let mut v: Vec<Field> = Vec::new();
    v.push(Field { name: "clid", pretty: "ClientId", kind: FieldKind::ClientId, optional: false });
    v.push(Field { name: "id", pretty: "StreamId", kind: FieldKind::Str, optional: false });
    assert(v@ =~= fields_of(MessageKind::StreamClientJoined));
    v
}

fn fields_exec_stream_stopped() -> (r: Vec<Field>)
    ensures
        r@ == fields_of(MessageKind::StreamStopped),
{
    let mut v: Vec<Field> = Vec::new();
    v.push(Field { name: "clid", pretty: "ClientId", kind: FieldKind::ClientId, optional: false });
    v.push(Field { name: "id", pretty: "StreamId", kind: FieldKind::Str, optional: false });
    v.push(Field { name: "reason", pretty: "Reason", kind: FieldKind::U32, optional: true });
    assert(v@ =~= fields_of(MessageKind::StreamStopped));
    v
}

fn fields_exec_stream_client_left() -> (r: Vec<Field>)
    ensures
        r@ == fields_of(MessageKind::StreamClientLeft),
{
    let mut v: Vec<Field> = Vec::new();
    v.push(Field { name: "clid", pretty: "ClientId", kind: FieldKind::ClientId, optional: false });
    v.push(Field { name: "id", pretty: "StreamId", kind: FieldKind::Str, optional: false });
    v.push(Field { name: "reason", pretty: "Reason", kind: FieldKind::U32, optional: true });
    assert(v@ =~= fields_of(MessageKind::StreamClientLeft));
    v
}

fn fields_exec_respond_join_stream_request() -> (r: Vec<Field>)
    ensures
        r@ == fields_of(MessageKind::RespondJoinStreamRequest),
{
    let mut v: Vec<Field> = Vec::new();
    v.push(Field { name: "clid", pretty: "ClientId", kind: FieldKind::ClientId, optional: false });
    v.push(Field { name: "id", pretty: "StreamId", kind: FieldKind::Str, optional: false });
    v.push(Field { name: "msg", pretty: "Message", kind: FieldKind::Str, optional: true });
    v.push(Field { name: "decision", pretty: "Decision", kind: FieldKind::U32, optional: false });
    v.push(Field { name: "offer", pretty: "Offer", kind: FieldKind::Str, optional: true });
    assert(v@ =~= fields_of(MessageKind::RespondJoinStreamRequest));
    v
}

fn fields_exec_stream_signaling() -> (r: Vec<Field>)
    ensures
        r@ == fields_of(MessageKind::StreamSignaling),
{
    let mut v: Vec<Field> = Vec::new();
    v.push(Field { name: "clid", pretty: "ClientId", kind: FieldKind::ClientId, optional: false });
    v.push(Field { name: "id", pretty: "StreamId", kind: FieldKind::Str, optional: false });
    v.push(Field { name: "json", pretty: "Json", kind: FieldKind::Str, optional: false });
    assert(v@ =~= fields_of(MessageKind::StreamSignaling));
    v
}

fn fields_exec_join_stream_request() -> (r: Vec<Field>)
    ensures
        r@ == fields_of(MessageKind::JoinStreamRequest),
{
    let mut v: Vec<Field> = Vec::new();
    v.push(Field { name: "clid", pretty: "ClientId", kind: FieldKind::ClientId, optional: false });
    v.push(Field { name: "id", pretty: "StreamId", kind: FieldKind::Str, optional: false });
    v.push(Field { name: "msg", pretty: "Message", kind: FieldKind::Str, optional: true });
    v.push(Field { name: "is_remove", pretty: "IsRemove", kind: FieldKind::Bool, optional: false });
    assert(v@ =~= fields_of(MessageKind::JoinStreamRequest));
    v
}

#[verifier::rlimit(60)]
fn fields_exec_init_server() -> (r: Vec<Field>)
    ensures
        r@ == fields_of(MessageKind::InitServer),
{
    let mut v: Vec<Field> = Vec::new();
    v.push(Field { name: "virtualserver_name", pretty: "Name", kind: FieldKind::Str, optional: false });
    v.push(Field { name: "virtualserver_welcomemessage", pretty: "WelcomeMessage", kind: FieldKind::Str, optional: false });
    v.push(Field { name: "virtualserver_platform", pretty: "Platform", kind: FieldKind::Str, optional: false });
    v.push(Field { name: "virtualserver_version", pretty: "Version", kind: FieldKind::Str, optional: false });
    v.push(Field { name: "virtualserver_maxclients", pretty: "MaxClients", kind: FieldKind::U16, optional: false });
    v.push(Field { name: "virtualserver_created", pretty: "Created", kind: FieldKind::I64, optional: false });
    v.push(Field { name: "virtualserver_codec_encryption_mode", pretty: "CodecEncryptionMode", kind: FieldKind::Enum(2), optional: false });
    v.push(Field { name: "virtualserver_hostmessage", pretty: "Hostmessage", kind: FieldKind::Str, optional: false });
    v.push(Field { name: "virtualserver_hostmessage_mode", pretty: "HostmessageMode", kind: FieldKind::Enum(3), optional: false });
    v.push(Field { name: "virtualserver_default_server_group", pretty: "DefaultServerGroup", kind: FieldKind::U64, optional: false });
    v.push(Field { name: "virtualserver_default_channel_group", pretty: "DefaultChannelGroup", kind: FieldKind::U64, optional: false });
    v.push(Field { name: "virtualserver_id", pretty: "VirtualServerId", kind: FieldKind::U64, optional: false });
    v.push(Field { name: "virtualserver_ip", pretty: "Ips", kind: FieldKind::Str, optional: true });
    v.push(Field { name: "virtualserver_ask_for_privilegekey", pretty: "AskForPrivilegekey", kind: FieldKind::Bool, optional: false });
    v.push(Field { name: "lt", pretty: "LicenseType", kind: FieldKind::Enum(10), optional: true });
    v.push(Field { name: "virtualserver_hostbanner_url", pretty: "HostbannerUrl", kind: FieldKind::Str, optional: false });
    v.push(Field { name: "virtualserver_hostbanner_gfx_url", pretty: "HostbannerGfxUrl", kind: FieldKind::Str, optional: false });
    v.push(Field { name: "virtualserver_hostbanner_gfx_interval", pretty: "HostbannerGfxInterval", kind: FieldKind::Duration, optional: false });
    v.push(Field { name: "virtualserver_priority_speaker_dimm_modificator", pretty: "PrioritySpeakerDimmModificator", kind: FieldKind::Float, optional: false });
    v.push(Field { name: "virtualserver_hostbutton_tooltip", pretty: "HostbuttonTooltip", kind: FieldKind::Str, optional: false });
    v.push(Field { name: "virtualserver_hostbutton_url", pretty: "HostbuttonUrl", kind: FieldKind::Str, optional: false });
    v.push(Field { name: "virtualserver_hostbutton_gfx_url", pretty: "HostbuttonGfxUrl", kind: FieldKind::Str, optional: false });
    v.push(Field { name: "virtualserver_name_phonetic", pretty: "PhoneticName", kind: FieldKind::Str, optional: false });
    v.push(Field { name: "virtualserver_icon_id", pretty: "Icon", kind: FieldKind::Icon, optional: false });
    v.push(Field { name: "virtualserver_hostbanner_mode", pretty: "HostbannerMode", kind: FieldKind::Enum(2), optional: false });
    v.push(Field { name: "virtualserver_channel_temp_delete_delay_default", pretty: "TempChannelDefaultDeleteDelay", kind: FieldKind::Duration, optional: false });
    v.push(Field { name: "virtualserver_nickname", pretty: "Nickname", kind: FieldKind::Str, optional: true });
    v.push(Field { name: "virtualserver_unique_identifier", pretty: "VirtualServerUid", kind: FieldKind::Uid, optional: true });
    v.push(Field { name: "virtualserver_default_music_group", pretty: "DefaultMusicGroup", kind: FieldKind::U64, optional: true });
    v.push(Field { name: "virtualserver_default_channel_admin_group", pretty: "DefaultChannelAdminGroup", kind: FieldKind::U64, optional: true });
    v.push(Field { name: "virtualserver_weblist_enabled", pretty: "WeblistEnabled", kind: FieldKind::Bool, optional: true });
    v.push(Field { name: "virtualserver_country_code", pretty: "CountryCode", kind: FieldKind::Str, optional: true });
    v.push(Field { name: "virtualserver_capability_extensions", pretty: "CapabilityExtensions", kind: FieldKind::Str, optional: true });
    v.push(Field { name: "client_nickname", pretty: "ClientName", kind: FieldKind::Str, optional: true });
    v.push(Field { name: "client_version", pretty: "ClientVersion", kind: FieldKind::Str, optional: true });
    v.push(Field { name: "client_platform", pretty: "ClientPlatform", kind: FieldKind::Str, optional: true });
    v.push(Field { name: "client_input_muted", pretty: "InputMuted", kind: FieldKind::Bool, optional: true });
    v.push(Field { name: "client_output_muted", pretty: "OutputMuted", kind: FieldKind::Bool, optional: true });
    v.push(Field { name: "client_outputonly_muted", pretty: "OutputOnlyMuted", kind: FieldKind::Bool, optional: true });
    v.push(Field { name: "client_input_hardware", pretty: "InputHardwareEnabled", kind: FieldKind::Bool, optional: true });
    v.push(Field { name: "client_output_hardware", pretty: "OutputHardwareEnabled", kind: FieldKind::Bool, optional: true });
    v.push(Field { name: "client_default_channel", pretty: "DefaultChannel", kind: FieldKind::Str, optional: true });
    v.push(Field { name: "client_default_channel_password", pretty: "DefaultChannelPassword", kind: FieldKind::Str, optional: true });
    v.push(Field { name: "client_server_password", pretty: "Password", kind: FieldKind::Str, optional: true });
    v.push(Field { name: "client_meta_data", pretty: "Metadata", kind: FieldKind::Str, optional: true });
    v.push(Field { name: "client_version_sign", pretty: "ClientVersionSign", kind: FieldKind::Str, optional: true });
    v.push(Field { name: "client_security_hash", pretty: "SecurityHash", kind: FieldKind::Str, optional: true });
    v.push(Field { name: "client_key_offset", pretty: "ClientKeyOffset", kind: FieldKind::U64, optional: true });
    v.push(Field { name: "client_away", pretty: "IsAway", kind: FieldKind::Bool, optional: true });
    v.push(Field { name: "client_away_message", pretty: "AwayMessage", kind: FieldKind::Str, optional: true });
    v.push(Field { name: "client_nickname_phonetic", pretty: "ClientPhoneticName", kind: FieldKind::Str, optional: true });
    v.push(Field { name: "client_default_token", pretty: "DefaultToken", kind: FieldKind::Str, optional: true });
    v.push(Field { name: "client_badges", pretty: "Badges", kind: FieldKind::Str, optional: true });
    v.push(Field { name: "client_myteamspeak_id", pretty: "MyTeamSpeakId", kind: FieldKind::Str, optional: true });
    v.push(Field { name: "client_integrations", pretty: "Integrations", kind: FieldKind::Str, optional: true });
    v.push(Field { name: "client_active_integrations_info", pretty: "ActiveIntegrationsInfo", kind: FieldKind::Str, optional: true });
    v.push(Field { name: "client_myteamspeak_avatar", pretty: "MyTeamSpeakAvatar", kind: FieldKind::Str, optional: true });
    v.push(Field { name: "client_signed_badges", pretty: "SignedBadges", kind: FieldKind::Str, optional: true });
    v.push(Field { name: "acn", pretty: "AcceptedClientName", kind: FieldKind::Str, optional: false });
    v.push(Field { name: "aclid", pretty: "ClientId", kind: FieldKind::ClientId, optional: false });
    v.push(Field { name: "pv", pretty: "ProtocolVersion", kind: FieldKind::U16, optional: false });
    v.push(Field { name: "client_talk_power", pretty: "TalkPower", kind: FieldKind::I32, optional: false });
    v.push(Field { name: "client_needed_serverquery_view_power", pretty: "NeededServerqueryViewPower", kind: FieldKind::I32, optional: false });
    assert(v@ =~= fields_of(MessageKind::InitServer));
    v
}

fn fields_exec(k: MessageKind) -> (r: Vec<Field>)
    ensures
        r@ == fields_of(k),
{
    match k {
        MessageKind::StreamStarted => fields_exec_stream_started(),
        MessageKind::StreamInfo => fields_exec_stream_info(),
        MessageKind::StreamUpdated => fields_exec_stream_updated(),
        MessageKind::StreamClientJoined => fields_exec_stream_client_joined(),
        MessageKind::StreamStopped => fields_exec_stream_stopped(),
        MessageKind::StreamClientLeft => fields_exec_stream_client_left(),
        MessageKind::RespondJoinStreamRequest => fields_exec_respond_join_stream_request(),
        MessageKind::StreamSignaling => fields_exec_stream_signaling(),
        MessageKind::JoinStreamRequest => fields_exec_join_stream_request(),
        MessageKind::InitServer => fields_exec_init_server(),
    }
}

fn kind_of_name_exec(name: &[u8]) -> (r: Option<MessageKind>)
    ensures
        r == kind_of_name(name@),
{
    if bytes_equal(name, "notifystreamstarted".as_bytes()) {
        Some(MessageKind::StreamStarted)
    } else if bytes_equal(name, "notifystreaminfo".as_bytes()) {
        Some(MessageKind::StreamInfo)
    } else if bytes_equal(name, "notifystreamupdated".as_bytes()) {
        Some(MessageKind::StreamUpdated)
    } else if bytes_equal(name, "notifystreamclientjoined".as_bytes()) {
        Some(MessageKind::StreamClientJoined)
    } else if bytes_equal(name, "notifystreamstopped".as_bytes()) {
        Some(MessageKind::StreamStopped)
    } else if bytes_equal(name, "notifystreamclientleft".as_bytes()) {
        Some(MessageKind::StreamClientLeft)
    } else if bytes_equal(name, "notifyrespondjoinstreamrequest".as_bytes()) {
        Some(MessageKind::RespondJoinStreamRequest)
    } else if bytes_equal(name, "notifystreamsignaling".as_bytes()) {
        Some(MessageKind::StreamSignaling)
    } else if bytes_equal(name, "notifyjoinstreamrequest".as_bytes()) {
        Some(MessageKind::JoinStreamRequest)
    } else if bytes_equal(name, "initserver".as_bytes()) {
        Some(MessageKind::InitServer)
    } else {
        None
    }
}

/// One part of `notifystreamstarted`: a broadcaster started a stream.
#[derive(Clone, Debug)]
pub struct InStreamStartedPart {
    /// `clid` on the wire.
    pub client_id: ClientId,
    /// `id` on the wire.
    pub stream_id: String,
    pub name: Option<String>,
    /// `type` on the wire.
    pub stream_type: Option<u32>,
    pub access: Option<u32>,
    pub mode: Option<u32>,
    pub bitrate: Option<u32>,
    pub viewer_limit: Option<u32>,
    pub audio: Option<bool>,
    pub return_code: Option<String>,
}

impl InStreamStartedPart {
    /// The argument slots of this part, one per field.
    pub open spec fn slots(&self) -> Seq<Option<ValueV>> {
        seq![
            cid_slot(self.client_id),
            str_slot(self.stream_id),
            opt_str_slot(self.name),
            opt_u32_slot(self.stream_type),
            opt_u32_slot(self.access),
            opt_u32_slot(self.mode),
            opt_u32_slot(self.bitrate),
            opt_u32_slot(self.viewer_limit),
            opt_bool_slot(self.audio),
            opt_str_slot(self.return_code),
        ]
    }

    fn from_slots(s: &Vec<Option<Value>>) -> (r: InStreamStartedPart)
        requires
            part_fits(fields_of(MessageKind::StreamStarted), slots_view(s@)),
        ensures
            r.slots() == slots_view(s@),
    {
        proof {
            let fs = fields_of(MessageKind::StreamStarted);
            let sv = slots_view(s@);
            assert(slot_fits(fs[0], sv[0]));
            assert(sv[0] == opt_view(s@[0]));
            assert(slot_fits(fs[1], sv[1]));
            assert(sv[1] == opt_view(s@[1]));
            assert(slot_fits(fs[2], sv[2]));
            assert(sv[2] == opt_view(s@[2]));
            assert(slot_fits(fs[3], sv[3]));
            assert(sv[3] == opt_view(s@[3]));
            assert(slot_fits(fs[4], sv[4]));
            assert(sv[4] == opt_view(s@[4]));
            assert(slot_fits(fs[5], sv[5]));
            assert(sv[5] == opt_view(s@[5]));
            assert(slot_fits(fs[6], sv[6]));
            assert(sv[6] == opt_view(s@[6]));
            assert(slot_fits(fs[7], sv[7]));
            assert(sv[7] == opt_view(s@[7]));
            assert(slot_fits(fs[8], sv[8]));
            assert(sv[8] == opt_view(s@[8]));
            assert(slot_fits(fs[9], sv[9]));
            assert(sv[9] == opt_view(s@[9]));
        }
        let r = InStreamStartedPart {
            client_id: take_cid(&s[0]),
            stream_id: take_str(&s[1]),
            name: take_opt_str(&s[2]),
            stream_type: take_opt_u32(&s[3]),
            access: take_opt_u32(&s[4]),
            mode: take_opt_u32(&s[5]),
            bitrate: take_opt_u32(&s[6]),
            viewer_limit: take_opt_u32(&s[7]),
            audio: take_opt_bool(&s[8]),
            return_code: take_opt_str(&s[9]),
        };
        assert(r.slots() =~= slots_view(s@));
        r
    }
}

/// The `notifystreamstarted` message: a broadcaster started a stream.
#[derive(Debug)]
pub struct InStreamStarted {
    list: Vec<InStreamStartedPart>,
}

impl InStreamStarted {
    /// A message always has at least one part.
    #[verifier::type_invariant]
    spec fn has_parts(&self) -> bool {
        self.list.len() > 0
    }

    pub closed spec fn spec_parts(&self) -> Seq<InStreamStartedPart> {
        self.list@
    }

    /// The argument slots of each of `parts`.
    pub open spec fn slots_of(parts: Seq<InStreamStartedPart>) -> Seq<Seq<Option<ValueV>>> {
        parts.map_values(|p: InStreamStartedPart| p.slots())
    }

    /// The argument slots of each part.
    pub open spec fn parts_slots(&self) -> Seq<Seq<Option<ValueV>>> {
        Self::slots_of(self.spec_parts())
    }

    /// The parts, in the order they came.
    pub fn parts(&self) -> (r: &Vec<InStreamStartedPart>)
        ensures
            r@ == self.spec_parts(),
            r@.len() > 0,
    {
        proof {
            use_type_invariant(self);
        }
        &self.list
    }

    /// The first part.
    pub fn first(&self) -> (r: &InStreamStartedPart)
        ensures
            self.spec_parts().len() > 0,
            *r == self.spec_parts()[0],
    {
        proof {
            use_type_invariant(self);
        }
        &self.list[0]
    }

    fn from_parts(ps: &Vec<Vec<Option<Value>>>) -> (r: InStreamStarted)
        requires
            ps@.len() > 0,
            forall|i: int|
                0 <= i < ps@.len() ==> part_fits(
                    fields_of(MessageKind::StreamStarted),
                    #[trigger] parts_view(ps@)[i],
                ),
        ensures
            r.parts_slots() == parts_view(ps@),
    {
        let mut list: Vec<InStreamStartedPart> = Vec::new();
        let mut i: usize = 0;
        while i < ps.len()
            invariant
                i <= ps@.len(),
                forall|k: int|
                    0 <= k < ps@.len() ==> part_fits(
                        fields_of(MessageKind::StreamStarted),
                        #[trigger] parts_view(ps@)[k],
                    ),
                Self::slots_of(list@) == parts_view(ps@).take(i as int),
            decreases ps.len() - i,
        {
            assert(parts_view(ps@)[i as int] == slots_view(ps@[i as int]@));
            let p = InStreamStartedPart::from_slots(&ps[i]);
            let ghost before = Self::slots_of(list@);
            list.push(p);
            i = i + 1;
            proof {
                assert(Self::slots_of(list@) =~= before.push(p.slots()));
                let pv = parts_view(ps@);
                assert(pv.take(i as int) =~= pv.take(i - 1).push(pv[i - 1]));
            }
        }
        assert(parts_view(ps@).take(i as int) =~= parts_view(ps@));
        let r = InStreamStarted { list };
        assert(r.parts_slots() =~= parts_view(ps@));
        r
    }
}

/// One part of `notifystreaminfo`: the state of streams, in answer to a request.
#[derive(Clone, Debug)]
pub struct InStreamInfoPart {
    /// `clid` on the wire.
    pub client_id: ClientId,
    /// `id` on the wire.
    pub stream_id: String,
    pub name: Option<String>,
    /// `type` on the wire.
    pub stream_type: Option<u32>,
    pub accessibility: Option<u32>,
    pub mode: Option<u32>,
    /// `viewer` on the wire.
    pub viewer_count: Option<u32>,
    pub bitrate: Option<u32>,
    pub viewer_limit: Option<u32>,
    pub audio: Option<bool>,
    pub return_code: Option<String>,
}

impl InStreamInfoPart {
    /// The argument slots of this part, one per field.
    pub open spec fn slots(&self) -> Seq<Option<ValueV>> {
        seq![
            cid_slot(self.client_id),
            str_slot(self.stream_id),
            opt_str_slot(self.name),
            opt_u32_slot(self.stream_type),
            opt_u32_slot(self.accessibility),
            opt_u32_slot(self.mode),
            opt_u32_slot(self.viewer_count),
            opt_u32_slot(self.bitrate),
            opt_u32_slot(self.viewer_limit),
            opt_bool_slot(self.audio),
            opt_str_slot(self.return_code),
        ]
    }

    fn from_slots(s: &Vec<Option<Value>>) -> (r: InStreamInfoPart)
        requires
            part_fits(fields_of(MessageKind::StreamInfo), slots_view(s@)),
        ensures
            r.slots() == slots_view(s@),
    {
        proof {
            let fs = fields_of(MessageKind::StreamInfo);
            let sv = slots_view(s@);
            assert(slot_fits(fs[0], sv[0]));
            assert(sv[0] == opt_view(s@[0]));
            assert(slot_fits(fs[1], sv[1]));
            assert(sv[1] == opt_view(s@[1]));
            assert(slot_fits(fs[2], sv[2]));
            assert(sv[2] == opt_view(s@[2]));
            assert(slot_fits(fs[3], sv[3]));
            assert(sv[3] == opt_view(s@[3]));
            assert(slot_fits(fs[4], sv[4]));
            assert(sv[4] == opt_view(s@[4]));
            assert(slot_fits(fs[5], sv[5]));
            assert(sv[5] == opt_view(s@[5]));
            assert(slot_fits(fs[6], sv[6]));
            assert(sv[6] == opt_view(s@[6]));
            assert(slot_fits(fs[7], sv[7]));
            assert(sv[7] == opt_view(s@[7]));
            assert(slot_fits(fs[8], sv[8]));
            assert(sv[8] == opt_view(s@[8]));
            assert(slot_fits(fs[9], sv[9]));
            assert(sv[9] == opt_view(s@[9]));
            assert(slot_fits(fs[10], sv[10]));
            assert(sv[10] == opt_view(s@[10]));
        }
        let r = InStreamInfoPart {
            client_id: take_cid(&s[0]),
            stream_id: take_str(&s[1]),
            name: take_opt_str(&s[2]),
            stream_type: take_opt_u32(&s[3]),
            accessibility: take_opt_u32(&s[4]),
            mode: take_opt_u32(&s[5]),
            viewer_count: take_opt_u32(&s[6]),
            bitrate: take_opt_u32(&s[7]),
            viewer_limit: take_opt_u32(&s[8]),
            audio: take_opt_bool(&s[9]),
            return_code: take_opt_str(&s[10]),
        };
        assert(r.slots() =~= slots_view(s@));
        r
    }
}

/// The `notifystreaminfo` message: the state of streams, in answer to a request.
#[derive(Debug)]
pub struct InStreamInfo {
    list: Vec<InStreamInfoPart>,
}

impl InStreamInfo {
    /// A message always has at least one part.
    #[verifier::type_invariant]
    spec fn has_parts(&self) -> bool {
        self.list.len() > 0
    }

    pub closed spec fn spec_parts(&self) -> Seq<InStreamInfoPart> {
        self.list@
    }

    /// The argument slots of each of `parts`.
    pub open spec fn slots_of(parts: Seq<InStreamInfoPart>) -> Seq<Seq<Option<ValueV>>> {
        parts.map_values(|p: InStreamInfoPart| p.slots())
    }

    /// The argument slots of each part.
    pub open spec fn parts_slots(&self) -> Seq<Seq<Option<ValueV>>> {
        Self::slots_of(self.spec_parts())
    }

    /// The parts, in the order they came.
    pub fn parts(&self) -> (r: &Vec<InStreamInfoPart>)
        ensures
            r@ == self.spec_parts(),
            r@.len() > 0,
    {
        proof {
            use_type_invariant(self);
        }
        &self.list
    }

    /// The first part.
    pub fn first(&self) -> (r: &InStreamInfoPart)
        ensures
            self.spec_parts().len() > 0,
            *r == self.spec_parts()[0],
    {
        proof {
            use_type_invariant(self);
        }
        &self.list[0]
    }

    fn from_parts(ps: &Vec<Vec<Option<Value>>>) -> (r: InStreamInfo)
        requires
            ps@.len() > 0,
            forall|i: int|
                0 <= i < ps@.len() ==> part_fits(
                    fields_of(MessageKind::StreamInfo),
                    #[trigger] parts_view(ps@)[i],
                ),
        ensures
            r.parts_slots() == parts_view(ps@),
    {
        let mut list: Vec<InStreamInfoPart> = Vec::new();
        let mut i: usize = 0;
        while i < ps.len()
            invariant
                i <= ps@.len(),
                forall|k: int|
                    0 <= k < ps@.len() ==> part_fits(
                        fields_of(MessageKind::StreamInfo),
                        #[trigger] parts_view(ps@)[k],
                    ),
                Self::slots_of(list@) == parts_view(ps@).take(i as int),
            decreases ps.len() - i,
        {
            assert(parts_view(ps@)[i as int] == slots_view(ps@[i as int]@));
            let p = InStreamInfoPart::from_slots(&ps[i]);
            let ghost before = Self::slots_of(list@);
            list.push(p);
            i = i + 1;
            proof {
                assert(Self::slots_of(list@) =~= before.push(p.slots()));
                let pv = parts_view(ps@);
                assert(pv.take(i as int) =~= pv.take(i - 1).push(pv[i - 1]));
            }
        }
        assert(parts_view(ps@).take(i as int) =~= parts_view(ps@));
        let r = InStreamInfo { list };
        assert(r.parts_slots() =~= parts_view(ps@));
        r
    }
}

/// One part of `notifystreamupdated`: settings of a stream changed; absent fields did not change.
#[derive(Clone, Debug)]
pub struct InStreamUpdatedPart {
    /// `clid` on the wire.
    pub client_id: ClientId,
    /// `id` on the wire.
    pub stream_id: String,
    pub name: Option<String>,
    /// `type` on the wire.
    pub stream_type: Option<u32>,
    pub access: Option<u32>,
    pub accessibility: Option<u32>,
    pub mode: Option<u32>,
    /// `viewer` on the wire.
    pub viewer_count: Option<u32>,
    pub bitrate: Option<u32>,
    pub viewer_limit: Option<u32>,
    pub audio: Option<bool>,
    pub return_code: Option<String>,
}

impl InStreamUpdatedPart {
    /// The argument slots of this part, one per field.
    pub open spec fn slots(&self) -> Seq<Option<ValueV>> {
        seq![
            cid_slot(self.client_id),
            str_slot(self.stream_id),
            opt_str_slot(self.name),
            opt_u32_slot(self.stream_type),
            opt_u32_slot(self.access),
            opt_u32_slot(self.accessibility),
            opt_u32_slot(self.mode),
            opt_u32_slot(self.viewer_count),
            opt_u32_slot(self.bitrate),
            opt_u32_slot(self.viewer_limit),
            opt_bool_slot(self.audio),
            opt_str_slot(self.return_code),
        ]
    }

    fn from_slots(s: &Vec<Option<Value>>) -> (r: InStreamUpdatedPart)
        requires
            part_fits(fields_of(MessageKind::StreamUpdated), slots_view(s@)),
        ensures
            r.slots() == slots_view(s@),
    {
        proof {
            let fs = fields_of(MessageKind::StreamUpdated);
            let sv = slots_view(s@);
            assert(slot_fits(fs[0], sv[0]));
            assert(sv[0] == opt_view(s@[0]));
            assert(slot_fits(fs[1], sv[1]));
            assert(sv[1] == opt_view(s@[1]));
            assert(slot_fits(fs[2], sv[2]));
            assert(sv[2] == opt_view(s@[2]));
            assert(slot_fits(fs[3], sv[3]));
            assert(sv[3] == opt_view(s@[3]));
            assert(slot_fits(fs[4], sv[4]));
            assert(sv[4] == opt_view(s@[4]));
            assert(slot_fits(fs[5], sv[5]));
            assert(sv[5] == opt_view(s@[5]));
            assert(slot_fits(fs[6], sv[6]));
            assert(sv[6] == opt_view(s@[6]));
            assert(slot_fits(fs[7], sv[7]));
            assert(sv[7] == opt_view(s@[7]));
            assert(slot_fits(fs[8], sv[8]));
            assert(sv[8] == opt_view(s@[8]));
            assert(slot_fits(fs[9], sv[9]));
            assert(sv[9] == opt_view(s@[9]));
            assert(slot_fits(fs[10], sv[10]));
            assert(sv[10] == opt_view(s@[10]));
            assert(slot_fits(fs[11], sv[11]));
            assert(sv[11] == opt_view(s@[11]));
        }
        let r = InStreamUpdatedPart {
            client_id: take_cid(&s[0]),
            stream_id: take_str(&s[1]),
            name: take_opt_str(&s[2]),
            stream_type: take_opt_u32(&s[3]),
            access: take_opt_u32(&s[4]),
            accessibility: take_opt_u32(&s[5]),
            mode: take_opt_u32(&s[6]),
            viewer_count: take_opt_u32(&s[7]),
            bitrate: take_opt_u32(&s[8]),
            viewer_limit: take_opt_u32(&s[9]),
            audio: take_opt_bool(&s[10]),
            return_code: take_opt_str(&s[11]),
        };
        assert(r.slots() =~= slots_view(s@));
        r
    }
}

/// The `notifystreamupdated` message: settings of a stream changed; absent fields did not change.
#[derive(Debug)]
pub struct InStreamUpdated {
    list: Vec<InStreamUpdatedPart>,
}

impl InStreamUpdated {
    /// A message always has at least one part.
    #[verifier::type_invariant]
    spec fn has_parts(&self) -> bool {
        self.list.len() > 0
    }

    pub closed spec fn spec_parts(&self) -> Seq<InStreamUpdatedPart> {
        self.list@
    }

    /// The argument slots of each of `parts`.
    pub open spec fn slots_of(parts: Seq<InStreamUpdatedPart>) -> Seq<Seq<Option<ValueV>>> {
        parts.map_values(|p: InStreamUpdatedPart| p.slots())
    }

    /// The argument slots of each part.
    pub open spec fn parts_slots(&self) -> Seq<Seq<Option<ValueV>>> {
        Self::slots_of(self.spec_parts())
    }

    /// The parts, in the order they came.
    pub fn parts(&self) -> (r: &Vec<InStreamUpdatedPart>)
        ensures
            r@ == self.spec_parts(),
            r@.len() > 0,
    {
        proof {
            use_type_invariant(self);
        }
        &self.list
    }

    /// The first part.
    pub fn first(&self) -> (r: &InStreamUpdatedPart)
        ensures
            self.spec_parts().len() > 0,
            *r == self.spec_parts()[0],
    {
        proof {
            use_type_invariant(self);
        }
        &self.list[0]
    }

    fn from_parts(ps: &Vec<Vec<Option<Value>>>) -> (r: InStreamUpdated)
        requires
            ps@.len() > 0,
            forall|i: int|
                0 <= i < ps@.len() ==> part_fits(
                    fields_of(MessageKind::StreamUpdated),
                    #[trigger] parts_view(ps@)[i],
                ),
        ensures
            r.parts_slots() == parts_view(ps@),
    {
        let mut list: Vec<InStreamUpdatedPart> = Vec::new();
        let mut i: usize = 0;
        while i < ps.len()
            invariant
                i <= ps@.len(),
                forall|k: int|
                    0 <= k < ps@.len() ==> part_fits(
                        fields_of(MessageKind::StreamUpdated),
                        #[trigger] parts_view(ps@)[k],
                    ),
                Self::slots_of(list@) == parts_view(ps@).take(i as int),
            decreases ps.len() - i,
        {
            assert(parts_view(ps@)[i as int] == slots_view(ps@[i as int]@));
            let p = InStreamUpdatedPart::from_slots(&ps[i]);
            let ghost before = Self::slots_of(list@);
            list.push(p);
            i = i + 1;
            proof {
                assert(Self::slots_of(list@) =~= before.push(p.slots()));
                let pv = parts_view(ps@);
                assert(pv.take(i as int) =~= pv.take(i - 1).push(pv[i - 1]));
            }
        }
        assert(parts_view(ps@).take(i as int) =~= parts_view(ps@));
        let r = InStreamUpdated { list };
        assert(r.parts_slots() =~= parts_view(ps@));
        r
    }
}

/// One part of `notifystreamclientjoined`: a viewer joined a stream.
#[derive(Clone, Debug)]
pub struct InStreamClientJoinedPart {
    /// `clid` on the wire.
    pub client_id: ClientId,
    /// `id` on the wire.
    pub stream_id: String,
}

impl InStreamClientJoinedPart {
    /// The argument slots of this part, one per field.
    pub open spec fn slots(&self) -> Seq<Option<ValueV>> {
        seq![
            cid_slot(self.client_id),
            str_slot(self.stream_id),
        ]
    }

    fn from_slots(s: &Vec<Option<Value>>) -> (r: InStreamClientJoinedPart)
        requires
            part_fits(fields_of(MessageKind::StreamClientJoined), slots_view(s@)),
        ensures
            r.slots() == slots_view(s@),
    {
        proof {
            let fs = fields_of(MessageKind::StreamClientJoined);
            let sv = slots_view(s@);
            assert(slot_fits(fs[0], sv[0]));
            assert(sv[0] == opt_view(s@[0]));
            assert(slot_fits(fs[1], sv[1]));
            assert(sv[1] == opt_view(s@[1]));
        }
        let r = InStreamClientJoinedPart {
            client_id: take_cid(&s[0]),
            stream_id: take_str(&s[1]),
        };
        assert(r.slots() =~= slots_view(s@));
        r
    }
}

/// The `notifystreamclientjoined` message: a viewer joined a stream.
#[derive(Debug)]
pub struct InStreamClientJoined {
    list: Vec<InStreamClientJoinedPart>,
}

impl InStreamClientJoined {
    /// A message always has at least one part.
    #[verifier::type_invariant]
    spec fn has_parts(&self) -> bool {
        self.list.len() > 0
    }

    pub closed spec fn spec_parts(&self) -> Seq<InStreamClientJoinedPart> {
        self.list@
    }

    /// The argument slots of each of `parts`.
    pub open spec fn slots_of(parts: Seq<InStreamClientJoinedPart>) -> Seq<Seq<Option<ValueV>>> {
        parts.map_values(|p: InStreamClientJoinedPart| p.slots())
    }

    /// The argument slots of each part.
    pub open spec fn parts_slots(&self) -> Seq<Seq<Option<ValueV>>> {
        Self::slots_of(self.spec_parts())
    }

    /// The parts, in the order they came.
    pub fn parts(&self) -> (r: &Vec<InStreamClientJoinedPart>)
        ensures
            r@ == self.spec_parts(),
            r@.len() > 0,
    {
        proof {
            use_type_invariant(self);
        }
        &self.list
    }

    /// The first part.
    pub fn first(&self) -> (r: &InStreamClientJoinedPart)
        ensures
            self.spec_parts().len() > 0,
            *r == self.spec_parts()[0],
    {
        proof {
            use_type_invariant(self);
        }
        &self.list[0]
    }

    fn from_parts(ps: &Vec<Vec<Option<Value>>>) -> (r: InStreamClientJoined)
        requires
            ps@.len() > 0,
            forall|i: int|
                0 <= i < ps@.len() ==> part_fits(
                    fields_of(MessageKind::StreamClientJoined),
                    #[trigger] parts_view(ps@)[i],
                ),
        ensures
            r.parts_slots() == parts_view(ps@),
    {
        let mut list: Vec<InStreamClientJoinedPart> = Vec::new();
        let mut i: usize = 0;
        while i < ps.len()
            invariant
                i <= ps@.len(),
                forall|k: int|
                    0 <= k < ps@.len() ==> part_fits(
                        fields_of(MessageKind::StreamClientJoined),
                        #[trigger] parts_view(ps@)[k],
                    ),
                Self::slots_of(list@) == parts_view(ps@).take(i as int),
            decreases ps.len() - i,
        {
            assert(parts_view(ps@)[i as int] == slots_view(ps@[i as int]@));
            let p = InStreamClientJoinedPart::from_slots(&ps[i]);
            let ghost before = Self::slots_of(list@);
            list.push(p);
            i = i + 1;
            proof {
                assert(Self::slots_of(list@) =~= before.push(p.slots()));
                let pv = parts_view(ps@);
                assert(pv.take(i as int) =~= pv.take(i - 1).push(pv[i - 1]));
            }
        }
        assert(parts_view(ps@).take(i as int) =~= parts_view(ps@));
        let r = InStreamClientJoined { list };
        assert(r.parts_slots() =~= parts_view(ps@));
        r
    }
}

/// One part of `notifystreamstopped`: a stream ended.
#[derive(Clone, Debug)]
pub struct InStreamStoppedPart {
    /// `clid` on the wire.
    pub client_id: ClientId,
    /// `id` on the wire.
    pub stream_id: String,
    pub reason: Option<u32>,
}

impl InStreamStoppedPart {
    /// The argument slots of this part, one per field.
    pub open spec fn slots(&self) -> Seq<Option<ValueV>> {
        seq![
            cid_slot(self.client_id),
            str_slot(self.stream_id),
            opt_u32_slot(self.reason),
        ]
    }

    fn from_slots(s: &Vec<Option<Value>>) -> (r: InStreamStoppedPart)
        requires
            part_fits(fields_of(MessageKind::StreamStopped), slots_view(s@)),
        ensures
            r.slots() == slots_view(s@),
    {
        proof {
            let fs = fields_of(MessageKind::StreamStopped);
            let sv = slots_view(s@);
            assert(slot_fits(fs[0], sv[0]));
            assert(sv[0] == opt_view(s@[0]));
            assert(slot_fits(fs[1], sv[1]));
            assert(sv[1] == opt_view(s@[1]));
            assert(slot_fits(fs[2], sv[2]));
            assert(sv[2] == opt_view(s@[2]));
        }
        let r = InStreamStoppedPart {
            client_id: take_cid(&s[0]),
            stream_id: take_str(&s[1]),
            reason: take_opt_u32(&s[2]),
        };
        assert(r.slots() =~= slots_view(s@));
        r
    }
}

/// The `notifystreamstopped` message: a stream ended.
#[derive(Debug)]
pub struct InStreamStopped {
    list: Vec<InStreamStoppedPart>,
}

impl InStreamStopped {
    /// A message always has at least one part.
    #[verifier::type_invariant]
    spec fn has_parts(&self) -> bool {
        self.list.len() > 0
    }

    pub closed spec fn spec_parts(&self) -> Seq<InStreamStoppedPart> {
        self.list@
    }

    /// The argument slots of each of `parts`.
    pub open spec fn slots_of(parts: Seq<InStreamStoppedPart>) -> Seq<Seq<Option<ValueV>>> {
        parts.map_values(|p: InStreamStoppedPart| p.slots())
    }

    /// The argument slots of each part.
    pub open spec fn parts_slots(&self) -> Seq<Seq<Option<ValueV>>> {
        Self::slots_of(self.spec_parts())
    }

    /// The parts, in the order they came.
    pub fn parts(&self) -> (r: &Vec<InStreamStoppedPart>)
        ensures
            r@ == self.spec_parts(),
            r@.len() > 0,
    {
        proof {
            use_type_invariant(self);
        }
        &self.list
    }

    /// The first part.
    pub fn first(&self) -> (r: &InStreamStoppedPart)
        ensures
            self.spec_parts().len() > 0,
            *r == self.spec_parts()[0],
    {
        proof {
            use_type_invariant(self);
        }
        &self.list[0]
    }

    fn from_parts(ps: &Vec<Vec<Option<Value>>>) -> (r: InStreamStopped)
        requires
            ps@.len() > 0,
            forall|i: int|
                0 <= i < ps@.len() ==> part_fits(
                    fields_of(MessageKind::StreamStopped),
                    #[trigger] parts_view(ps@)[i],
                ),
        ensures
            r.parts_slots() == parts_view(ps@),
    {
        let mut list: Vec<InStreamStoppedPart> = Vec::new();
        let mut i: usize = 0;
        while i < ps.len()
            invariant
                i <= ps@.len(),
                forall|k: int|
                    0 <= k < ps@.len() ==> part_fits(
                        fields_of(MessageKind::StreamStopped),
                        #[trigger] parts_view(ps@)[k],
                    ),
                Self::slots_of(list@) == parts_view(ps@).take(i as int),
            decreases ps.len() - i,
        {
            assert(parts_view(ps@)[i as int] == slots_view(ps@[i as int]@));
            let p = InStreamStoppedPart::from_slots(&ps[i]);
            let ghost before = Self::slots_of(list@);
            list.push(p);
            i = i + 1;
            proof {
                assert(Self::slots_of(list@) =~= before.push(p.slots()));
                let pv = parts_view(ps@);
                assert(pv.take(i as int) =~= pv.take(i - 1).push(pv[i - 1]));
            }
        }
        assert(parts_view(ps@).take(i as int) =~= parts_view(ps@));
        let r = InStreamStopped { list };
        assert(r.parts_slots() =~= parts_view(ps@));
        r
    }
}

/// One part of `notifystreamclientleft`: a viewer left a stream.
#[derive(Clone, Debug)]
pub struct InStreamClientLeftPart {
    /// `clid` on the wire.
    pub client_id: ClientId,
    /// `id` on the wire.
    pub stream_id: String,
    pub reason: Option<u32>,
}

impl InStreamClientLeftPart {
    /// The argument slots of this part, one per field.
    pub open spec fn slots(&self) -> Seq<Option<ValueV>> {
        seq![
            cid_slot(self.client_id),
            str_slot(self.stream_id),
            opt_u32_slot(self.reason),
        ]
    }

    fn from_slots(s: &Vec<Option<Value>>) -> (r: InStreamClientLeftPart)
        requires
            part_fits(fields_of(MessageKind::StreamClientLeft), slots_view(s@)),
        ensures
            r.slots() == slots_view(s@),
    {
        proof {
            let fs = fields_of(MessageKind::StreamClientLeft);
            let sv = slots_view(s@);
            assert(slot_fits(fs[0], sv[0]));
            assert(sv[0] == opt_view(s@[0]));
            assert(slot_fits(fs[1], sv[1]));
            assert(sv[1] == opt_view(s@[1]));
            assert(slot_fits(fs[2], sv[2]));
            assert(sv[2] == opt_view(s@[2]));
        }
        let r = InStreamClientLeftPart {
            client_id: take_cid(&s[0]),
            stream_id: take_str(&s[1]),
            reason: take_opt_u32(&s[2]),
        };
        assert(r.slots() =~= slots_view(s@));
        r
    }
}

/// The `notifystreamclientleft` message: a viewer left a stream.
#[derive(Debug)]
pub struct InStreamClientLeft {
    list: Vec<InStreamClientLeftPart>,
}

impl InStreamClientLeft {
    /// A message always has at least one part.
    #[verifier::type_invariant]
    spec fn has_parts(&self) -> bool {
        self.list.len() > 0
    }

    pub closed spec fn spec_parts(&self) -> Seq<InStreamClientLeftPart> {
        self.list@
    }

    /// The argument slots of each of `parts`.
    pub open spec fn slots_of(parts: Seq<InStreamClientLeftPart>) -> Seq<Seq<Option<ValueV>>> {
        parts.map_values(|p: InStreamClientLeftPart| p.slots())
    }

    /// The argument slots of each part.
    pub open spec fn parts_slots(&self) -> Seq<Seq<Option<ValueV>>> {
        Self::slots_of(self.spec_parts())
    }

    /// The parts, in the order they came.
    pub fn parts(&self) -> (r: &Vec<InStreamClientLeftPart>)
        ensures
            r@ == self.spec_parts(),
            r@.len() > 0,
    {
        proof {
            use_type_invariant(self);
        }
        &self.list
    }

    /// The first part.
    pub fn first(&self) -> (r: &InStreamClientLeftPart)
        ensures
            self.spec_parts().len() > 0,
            *r == self.spec_parts()[0],
    {
        proof {
            use_type_invariant(self);
        }
        &self.list[0]
    }

    fn from_parts(ps: &Vec<Vec<Option<Value>>>) -> (r: InStreamClientLeft)
        requires
            ps@.len() > 0,
            forall|i: int|
                0 <= i < ps@.len() ==> part_fits(
                    fields_of(MessageKind::StreamClientLeft),
                    #[trigger] parts_view(ps@)[i],
                ),
        ensures
            r.parts_slots() == parts_view(ps@),
    {
        let mut list: Vec<InStreamClientLeftPart> = Vec::new();
        let mut i: usize = 0;
        while i < ps.len()
            invariant
                i <= ps@.len(),
                forall|k: int|
                    0 <= k < ps@.len() ==> part_fits(
                        fields_of(MessageKind::StreamClientLeft),
                        #[trigger] parts_view(ps@)[k],
                    ),
                Self::slots_of(list@) == parts_view(ps@).take(i as int),
            decreases ps.len() - i,
        {
            assert(parts_view(ps@)[i as int] == slots_view(ps@[i as int]@));
            let p = InStreamClientLeftPart::from_slots(&ps[i]);
            let ghost before = Self::slots_of(list@);
            list.push(p);
            i = i + 1;
            proof {
                assert(Self::slots_of(list@) =~= before.push(p.slots()));
                let pv = parts_view(ps@);
                assert(pv.take(i as int) =~= pv.take(i - 1).push(pv[i - 1]));
            }
        }
        assert(parts_view(ps@).take(i as int) =~= parts_view(ps@));
        let r = InStreamClientLeft { list };
        assert(r.parts_slots() =~= parts_view(ps@));
        r
    }
}

/// One part of `notifyrespondjoinstreamrequest`: the broadcaster answered a request to join.
#[derive(Clone, Debug)]
pub struct InRespondJoinStreamRequestPart {
    /// `clid` on the wire.
    pub client_id: ClientId,
    /// `id` on the wire.
    pub stream_id: String,
    /// `msg` on the wire.
    pub message: Option<String>,
    pub decision: u32,
    pub offer: Option<String>,
}

impl InRespondJoinStreamRequestPart {
    /// The argument slots of this part, one per field.
    pub open spec fn slots(&self) -> Seq<Option<ValueV>> {
        seq![
            cid_slot(self.client_id),
            str_slot(self.stream_id),
            opt_str_slot(self.message),
            u32_slot(self.decision),
            opt_str_slot(self.offer),
        ]
    }

    fn from_slots(s: &Vec<Option<Value>>) -> (r: InRespondJoinStreamRequestPart)
        requires
            part_fits(fields_of(MessageKind::RespondJoinStreamRequest), slots_view(s@)),
        ensures
            r.slots() == slots_view(s@),
    {
        proof {
            let fs = fields_of(MessageKind::RespondJoinStreamRequest);
            let sv = slots_view(s@);
            assert(slot_fits(fs[0], sv[0]));
            assert(sv[0] == opt_view(s@[0]));
            assert(slot_fits(fs[1], sv[1]));
            assert(sv[1] == opt_view(s@[1]));
            assert(slot_fits(fs[2], sv[2]));
            assert(sv[2] == opt_view(s@[2]));
            assert(slot_fits(fs[3], sv[3]));
            assert(sv[3] == opt_view(s@[3]));
            assert(slot_fits(fs[4], sv[4]));
            assert(sv[4] == opt_view(s@[4]));
        }
        let r = InRespondJoinStreamRequestPart {
            client_id: take_cid(&s[0]),
            stream_id: take_str(&s[1]),
            message: take_opt_str(&s[2]),
            decision: take_u32(&s[3]),
            offer: take_opt_str(&s[4]),
        };
        assert(r.slots() =~= slots_view(s@));
        r
    }
}

/// The `notifyrespondjoinstreamrequest` message: the broadcaster answered a request to join.
#[derive(Debug)]
pub struct InRespondJoinStreamRequest {
    list: Vec<InRespondJoinStreamRequestPart>,
}

impl InRespondJoinStreamRequest {
    /// A message always has at least one part.
    #[verifier::type_invariant]
    spec fn has_parts(&self) -> bool {
        self.list.len() > 0
    }

    pub closed spec fn spec_parts(&self) -> Seq<InRespondJoinStreamRequestPart> {
        self.list@
    }

    /// The argument slots of each of `parts`.
    pub open spec fn slots_of(parts: Seq<InRespondJoinStreamRequestPart>) -> Seq<Seq<Option<ValueV>>> {
        parts.map_values(|p: InRespondJoinStreamRequestPart| p.slots())
    }

    /// The argument slots of each part.
    pub open spec fn parts_slots(&self) -> Seq<Seq<Option<ValueV>>> {
        Self::slots_of(self.spec_parts())
    }

    /// The parts, in the order they came.
    pub fn parts(&self) -> (r: &Vec<InRespondJoinStreamRequestPart>)
        ensures
            r@ == self.spec_parts(),
            r@.len() > 0,
    {
        proof {
            use_type_invariant(self);
        }
        &self.list
    }

    /// The first part.
    pub fn first(&self) -> (r: &InRespondJoinStreamRequestPart)
        ensures
            self.spec_parts().len() > 0,
            *r == self.spec_parts()[0],
    {
        proof {
            use_type_invariant(self);
        }
        &self.list[0]
    }

    fn from_parts(ps: &Vec<Vec<Option<Value>>>) -> (r: InRespondJoinStreamRequest)
        requires
            ps@.len() > 0,
            forall|i: int|
                0 <= i < ps@.len() ==> part_fits(
                    fields_of(MessageKind::RespondJoinStreamRequest),
                    #[trigger] parts_view(ps@)[i],
                ),
        ensures
            r.parts_slots() == parts_view(ps@),
    {
        let mut list: Vec<InRespondJoinStreamRequestPart> = Vec::new();
        let mut i: usize = 0;
        while i < ps.len()
            invariant
                i <= ps@.len(),
                forall|k: int|
                    0 <= k < ps@.len() ==> part_fits(
                        fields_of(MessageKind::RespondJoinStreamRequest),
                        #[trigger] parts_view(ps@)[k],
                    ),
                Self::slots_of(list@) == parts_view(ps@).take(i as int),
            decreases ps.len() - i,
        {
            assert(parts_view(ps@)[i as int] == slots_view(ps@[i as int]@));
            let p = InRespondJoinStreamRequestPart::from_slots(&ps[i]);
            let ghost before = Self::slots_of(list@);
            list.push(p);
            i = i + 1;
            proof {
                assert(Self::slots_of(list@) =~= before.push(p.slots()));
                let pv = parts_view(ps@);
                assert(pv.take(i as int) =~= pv.take(i - 1).push(pv[i - 1]));
            }
        }
        assert(parts_view(ps@).take(i as int) =~= parts_view(ps@));
        let r = InRespondJoinStreamRequest { list };
        assert(r.parts_slots() =~= parts_view(ps@));
        r
    }
}

/// One part of `notifystreamsignaling`: signaling data for a stream, as opaque text.
#[derive(Clone, Debug)]
pub struct InStreamSignalingPart {
    /// `clid` on the wire.
    pub client_id: ClientId,
    /// `id` on the wire.
    pub stream_id: String,
    pub json: String,
}

impl InStreamSignalingPart {
    /// The argument slots of this part, one per field.
    pub open spec fn slots(&self) -> Seq<Option<ValueV>> {
        seq![
            cid_slot(self.client_id),
            str_slot(self.stream_id),
            str_slot(self.json),
        ]
    }

    fn from_slots(s: &Vec<Option<Value>>) -> (r: InStreamSignalingPart)
        requires
            part_fits(fields_of(MessageKind::StreamSignaling), slots_view(s@)),
        ensures
            r.slots() == slots_view(s@),
    {
        proof {
            let fs = fields_of(MessageKind::StreamSignaling);
            let sv = slots_view(s@);
            assert(slot_fits(fs[0], sv[0]));
            assert(sv[0] == opt_view(s@[0]));
            assert(slot_fits(fs[1], sv[1]));
            assert(sv[1] == opt_view(s@[1]));
            assert(slot_fits(fs[2], sv[2]));
            assert(sv[2] == opt_view(s@[2]));
        }
        let r = InStreamSignalingPart {
            client_id: take_cid(&s[0]),
            stream_id: take_str(&s[1]),
            json: take_str(&s[2]),
        };
        assert(r.slots() =~= slots_view(s@));
        r
    }
}

/// The `notifystreamsignaling` message: signaling data for a stream, as opaque text.
#[derive(Debug)]
pub struct InStreamSignaling {
    list: Vec<InStreamSignalingPart>,
}

impl InStreamSignaling {
    /// A message always has at least one part.
    #[verifier::type_invariant]
    spec fn has_parts(&self) -> bool {
        self.list.len() > 0
    }

    pub closed spec fn spec_parts(&self) -> Seq<InStreamSignalingPart> {
        self.list@
    }

    /// The argument slots of each of `parts`.
    pub open spec fn slots_of(parts: Seq<InStreamSignalingPart>) -> Seq<Seq<Option<ValueV>>> {
        parts.map_values(|p: InStreamSignalingPart| p.slots())
    }

    /// The argument slots of each part.
    pub open spec fn parts_slots(&self) -> Seq<Seq<Option<ValueV>>> {
        Self::slots_of(self.spec_parts())
    }

    /// The parts, in the order they came.
    pub fn parts(&self) -> (r: &Vec<InStreamSignalingPart>)
        ensures
            r@ == self.spec_parts(),
            r@.len() > 0,
    {
        proof {
            use_type_invariant(self);
        }
        &self.list
    }

    /// The first part.
    pub fn first(&self) -> (r: &InStreamSignalingPart)
        ensures
            self.spec_parts().len() > 0,
            *r == self.spec_parts()[0],
    {
        proof {
            use_type_invariant(self);
        }
        &self.list[0]
    }

    fn from_parts(ps: &Vec<Vec<Option<Value>>>) -> (r: InStreamSignaling)
        requires
            ps@.len() > 0,
            forall|i: int|
                0 <= i < ps@.len() ==> part_fits(
                    fields_of(MessageKind::StreamSignaling),
                    #[trigger] parts_view(ps@)[i],
                ),
        ensures
            r.parts_slots() == parts_view(ps@),
    {
        let mut list: Vec<InStreamSignalingPart> = Vec::new();
        let mut i: usize = 0;
        while i < ps.len()
            invariant
                i <= ps@.len(),
                forall|k: int|
                    0 <= k < ps@.len() ==> part_fits(
                        fields_of(MessageKind::StreamSignaling),
                        #[trigger] parts_view(ps@)[k],
                    ),
                Self::slots_of(list@) == parts_view(ps@).take(i as int),
            decreases ps.len() - i,
        {
            assert(parts_view(ps@)[i as int] == slots_view(ps@[i as int]@));
            let p = InStreamSignalingPart::from_slots(&ps[i]);
            let ghost before = Self::slots_of(list@);
            list.push(p);
            i = i + 1;
            proof {
                assert(Self::slots_of(list@) =~= before.push(p.slots()));
                let pv = parts_view(ps@);
                assert(pv.take(i as int) =~= pv.take(i - 1).push(pv[i - 1]));
            }
        }
        assert(parts_view(ps@).take(i as int) =~= parts_view(ps@));
        let r = InStreamSignaling { list };
        assert(r.parts_slots() =~= parts_view(ps@));
        r
    }
}

/// One part of `notifyjoinstreamrequest`: a viewer asks to join, or to leave, a stream.
#[derive(Clone, Debug)]
pub struct InJoinStreamRequestPart {
    /// `clid` on the wire.
    pub client_id: ClientId,
    /// `id` on the wire.
    pub stream_id: String,
    /// `msg` on the wire.
    pub message: Option<String>,
    pub is_remove: bool,
}

impl InJoinStreamRequestPart {
    /// The argument slots of this part, one per field.
    pub open spec fn slots(&self) -> Seq<Option<ValueV>> {
        seq![
            cid_slot(self.client_id),
            str_slot(self.stream_id),
            opt_str_slot(self.message),
            bool_slot(self.is_remove),
        ]
    }

    fn from_slots(s: &Vec<Option<Value>>) -> (r: InJoinStreamRequestPart)
        requires
            part_fits(fields_of(MessageKind::JoinStreamRequest), slots_view(s@)),
        ensures
            r.slots() == slots_view(s@),
    {
        proof {
            let fs = fields_of(MessageKind::JoinStreamRequest);
            let sv = slots_view(s@);
            assert(slot_fits(fs[0], sv[0]));
            assert(sv[0] == opt_view(s@[0]));
            assert(slot_fits(fs[1], sv[1]));
            assert(sv[1] == opt_view(s@[1]));
            assert(slot_fits(fs[2], sv[2]));
            assert(sv[2] == opt_view(s@[2]));
            assert(slot_fits(fs[3], sv[3]));
            assert(sv[3] == opt_view(s@[3]));
        }
        let r = InJoinStreamRequestPart {
            client_id: take_cid(&s[0]),
            stream_id: take_str(&s[1]),
            message: take_opt_str(&s[2]),
            is_remove: take_bool(&s[3]),
        };
        assert(r.slots() =~= slots_view(s@));
        r
    }
}

/// The `notifyjoinstreamrequest` message: a viewer asks to join, or to leave, a stream.
#[derive(Debug)]
pub struct InJoinStreamRequest {
    list: Vec<InJoinStreamRequestPart>,
}

impl InJoinStreamRequest {
    /// A message always has at least one part.
    #[verifier::type_invariant]
    spec fn has_parts(&self) -> bool {
        self.list.len() > 0
    }

    pub closed spec fn spec_parts(&self) -> Seq<InJoinStreamRequestPart> {
        self.list@
    }

    /// The argument slots of each of `parts`.
    pub open spec fn slots_of(parts: Seq<InJoinStreamRequestPart>) -> Seq<Seq<Option<ValueV>>> {
        parts.map_values(|p: InJoinStreamRequestPart| p.slots())
    }

    /// The argument slots of each part.
    pub open spec fn parts_slots(&self) -> Seq<Seq<Option<ValueV>>> {
        Self::slots_of(self.spec_parts())
    }

    /// The parts, in the order they came.
    pub fn parts(&self) -> (r: &Vec<InJoinStreamRequestPart>)
        ensures
            r@ == self.spec_parts(),
            r@.len() > 0,
    {
        proof {
            use_type_invariant(self);
        }
        &self.list
    }

    /// The first part.
    pub fn first(&self) -> (r: &InJoinStreamRequestPart)
        ensures
            self.spec_parts().len() > 0,
            *r == self.spec_parts()[0],
    {
        proof {
            use_type_invariant(self);
        }
        &self.list[0]
    }

    fn from_parts(ps: &Vec<Vec<Option<Value>>>) -> (r: InJoinStreamRequest)
        requires
            ps@.len() > 0,
            forall|i: int|
                0 <= i < ps@.len() ==> part_fits(
                    fields_of(MessageKind::JoinStreamRequest),
                    #[trigger] parts_view(ps@)[i],
                ),
        ensures
            r.parts_slots() == parts_view(ps@),
    {
        let mut list: Vec<InJoinStreamRequestPart> = Vec::new();
        let mut i: usize = 0;
        while i < ps.len()
            invariant
                i <= ps@.len(),
                forall|k: int|
                    0 <= k < ps@.len() ==> part_fits(
                        fields_of(MessageKind::JoinStreamRequest),
                        #[trigger] parts_view(ps@)[k],
                    ),
                Self::slots_of(list@) == parts_view(ps@).take(i as int),
            decreases ps.len() - i,
        {
            assert(parts_view(ps@)[i as int] == slots_view(ps@[i as int]@));
            let p = InJoinStreamRequestPart::from_slots(&ps[i]);
            let ghost before = Self::slots_of(list@);
            list.push(p);
            i = i + 1;
            proof {
                assert(Self::slots_of(list@) =~= before.push(p.slots()));
                let pv = parts_view(ps@);
                assert(pv.take(i as int) =~= pv.take(i - 1).push(pv[i - 1]));
            }
        }
        assert(parts_view(ps@).take(i as int) =~= parts_view(ps@));
        let r = InJoinStreamRequest { list };
        assert(r.parts_slots() =~= parts_view(ps@));
        r
    }
}

/// One part of `initserver`: the server accepted the connection and describes itself and the client.
#[derive(Clone, Debug)]
pub struct InInitServerPart {
    /// `virtualserver_name` on the wire.
    pub name: String,
    /// `virtualserver_welcomemessage` on the wire.
    pub welcome_message: String,
    /// `virtualserver_platform` on the wire.
    pub platform: String,
    /// `virtualserver_version` on the wire.
    pub version: String,
    /// `virtualserver_maxclients` on the wire.
    pub max_clients: u16,
    /// `virtualserver_created` on the wire.
    ///
    /// A point in time, as seconds since 1970.
    pub created: i64,
    /// `virtualserver_codec_encryption_mode` on the wire.
    ///
    /// The number of a variant of the codec encryption mode (`0..=2`).
    pub codec_encryption_mode: u32,
    /// `virtualserver_hostmessage` on the wire.
    pub hostmessage: String,
    /// `virtualserver_hostmessage_mode` on the wire.
    ///
    /// The number of a variant of the host message mode (`0..=3`).
    pub hostmessage_mode: u32,
    /// `virtualserver_default_server_group` on the wire.
    pub default_server_group: u64,
    /// `virtualserver_default_channel_group` on the wire.
    pub default_channel_group: u64,
    /// `virtualserver_id` on the wire.
    pub virtual_server_id: u64,
    /// `virtualserver_ip` on the wire.
    ///
    /// The addresses of the server, as the text that lists them.
    pub ips: Option<String>,
    /// `virtualserver_ask_for_privilegekey` on the wire.
    pub ask_for_privilegekey: bool,
    /// `lt` on the wire.
    ///
    /// The number of a variant of the license type (`0..=10`).
    pub license_type: Option<u32>,
    /// `virtualserver_hostbanner_url` on the wire.
    pub hostbanner_url: String,
    /// `virtualserver_hostbanner_gfx_url` on the wire.
    pub hostbanner_gfx_url: String,
    /// `virtualserver_hostbanner_gfx_interval` on the wire.
    ///
    /// In seconds.
    pub hostbanner_gfx_interval: i64,
    /// `virtualserver_priority_speaker_dimm_modificator` on the wire.
    ///
    /// A floating-point number, as its text.
    pub priority_speaker_dimm_modificator: String,
    /// `virtualserver_hostbutton_tooltip` on the wire.
    pub hostbutton_tooltip: String,
    /// `virtualserver_hostbutton_url` on the wire.
    pub hostbutton_url: String,
    /// `virtualserver_hostbutton_gfx_url` on the wire.
    pub hostbutton_gfx_url: String,
    /// `virtualserver_name_phonetic` on the wire.
    pub phonetic_name: String,
    /// `virtualserver_icon_id` on the wire.
    pub icon: IconId,
    /// `virtualserver_hostbanner_mode` on the wire.
    ///
    /// The number of a variant of the host banner mode (`0..=2`).
    pub hostbanner_mode: u32,
    /// `virtualserver_channel_temp_delete_delay_default` on the wire.
    ///
    /// In seconds.
    pub temp_channel_default_delete_delay: i64,
    /// `virtualserver_nickname` on the wire.
    pub nickname: Option<String>,
    /// `virtualserver_unique_identifier` on the wire.
    ///
    /// The unique id of the server: the bytes that its base64 text stands for, or the text itself where it is not base64.
    pub virtual_server_uid: Option<Vec<u8>>,
    /// `virtualserver_default_music_group` on the wire.
    pub default_music_group: Option<u64>,
    /// `virtualserver_default_channel_admin_group` on the wire.
    pub default_channel_admin_group: Option<u64>,
    /// `virtualserver_weblist_enabled` on the wire.
    pub weblist_enabled: Option<bool>,
    /// `virtualserver_country_code` on the wire.
    pub country_code: Option<String>,
    /// `virtualserver_capability_extensions` on the wire.
    pub capability_extensions: Option<String>,
    /// `client_nickname` on the wire.
    pub client_name: Option<String>,
    pub client_version: Option<String>,
    pub client_platform: Option<String>,
    /// `client_input_muted` on the wire.
    pub input_muted: Option<bool>,
    /// `client_output_muted` on the wire.
    pub output_muted: Option<bool>,
    /// `client_outputonly_muted` on the wire.
    pub output_only_muted: Option<bool>,
    /// `client_input_hardware` on the wire.
    pub input_hardware_enabled: Option<bool>,
    /// `client_output_hardware` on the wire.
    pub output_hardware_enabled: Option<bool>,
    /// `client_default_channel` on the wire.
    pub default_channel: Option<String>,
    /// `client_default_channel_password` on the wire.
    pub default_channel_password: Option<String>,
    /// `client_server_password` on the wire.
    pub password: Option<String>,
    /// `client_meta_data` on the wire.
    pub metadata: Option<String>,
    pub client_version_sign: Option<String>,
    /// `client_security_hash` on the wire.
    pub security_hash: Option<String>,
    pub client_key_offset: Option<u64>,
    /// `client_away` on the wire.
    pub is_away: Option<bool>,
    /// `client_away_message` on the wire.
    pub away_message: Option<String>,
    /// `client_nickname_phonetic` on the wire.
    pub client_phonetic_name: Option<String>,
    /// `client_default_token` on the wire.
    pub default_token: Option<String>,
    /// `client_badges` on the wire.
    pub badges: Option<String>,
    /// `client_myteamspeak_id` on the wire.
    pub my_team_speak_id: Option<String>,
    /// `client_integrations` on the wire.
    pub integrations: Option<String>,
    /// `client_active_integrations_info` on the wire.
    pub active_integrations_info: Option<String>,
    /// `client_myteamspeak_avatar` on the wire.
    pub my_team_speak_avatar: Option<String>,
    /// `client_signed_badges` on the wire.
    pub signed_badges: Option<String>,
    /// `acn` on the wire.
    pub accepted_client_name: String,
    /// `aclid` on the wire.
    pub client_id: ClientId,
    /// `pv` on the wire.
    pub protocol_version: u16,
    /// `client_talk_power` on the wire.
    pub talk_power: i32,
    /// `client_needed_serverquery_view_power` on the wire.
    pub needed_serverquery_view_power: i32,
}

impl InInitServerPart {
    /// The argument slots of this part, one per field.
    pub open spec fn slots(&self) -> Seq<Option<ValueV>> {
        seq![
            str_slot(self.name),
            str_slot(self.welcome_message),
            str_slot(self.platform),
            str_slot(self.version),
            u16_slot(self.max_clients),
            i64_slot(self.created),
            u32_slot(self.codec_encryption_mode),
            str_slot(self.hostmessage),
            u32_slot(self.hostmessage_mode),
            u64_slot(self.default_server_group),
            u64_slot(self.default_channel_group),
            u64_slot(self.virtual_server_id),
            opt_str_slot(self.ips),
            bool_slot(self.ask_for_privilegekey),
            opt_u32_slot(self.license_type),
            str_slot(self.hostbanner_url),
            str_slot(self.hostbanner_gfx_url),
            i64_slot(self.hostbanner_gfx_interval),
            str_slot(self.priority_speaker_dimm_modificator),
            str_slot(self.hostbutton_tooltip),
            str_slot(self.hostbutton_url),
            str_slot(self.hostbutton_gfx_url),
            str_slot(self.phonetic_name),
            icon_slot(self.icon),
            u32_slot(self.hostbanner_mode),
            i64_slot(self.temp_channel_default_delete_delay),
            opt_str_slot(self.nickname),
            opt_bytes_slot(self.virtual_server_uid),
            opt_u64_slot(self.default_music_group),
            opt_u64_slot(self.default_channel_admin_group),
            opt_bool_slot(self.weblist_enabled),
            opt_str_slot(self.country_code),
            opt_str_slot(self.capability_extensions),
            opt_str_slot(self.client_name),
            opt_str_slot(self.client_version),
            opt_str_slot(self.client_platform),
            opt_bool_slot(self.input_muted),
            opt_bool_slot(self.output_muted),
            opt_bool_slot(self.output_only_muted),
            opt_bool_slot(self.input_hardware_enabled),
            opt_bool_slot(self.output_hardware_enabled),
            opt_str_slot(self.default_channel),
            opt_str_slot(self.default_channel_password),
            opt_str_slot(self.password),
            opt_str_slot(self.metadata),
            opt_str_slot(self.client_version_sign),
            opt_str_slot(self.security_hash),
            opt_u64_slot(self.client_key_offset),
            opt_bool_slot(self.is_away),
            opt_str_slot(self.away_message),
            opt_str_slot(self.client_phonetic_name),
            opt_str_slot(self.default_token),
            opt_str_slot(self.badges),
            opt_str_slot(self.my_team_speak_id),
            opt_str_slot(self.integrations),
            opt_str_slot(self.active_integrations_info),
            opt_str_slot(self.my_team_speak_avatar),
            opt_str_slot(self.signed_badges),
            str_slot(self.accepted_client_name),
            cid_slot(self.client_id),
            u16_slot(self.protocol_version),
            i32_slot(self.talk_power),
            i32_slot(self.needed_serverquery_view_power),
        ]
    }

    fn from_slots(s: &Vec<Option<Value>>) -> (r: InInitServerPart)
        requires
            part_fits(fields_of(MessageKind::InitServer), slots_view(s@)),
        ensures
            r.slots() == slots_view(s@),
    {
        proof {
            let fs = fields_of(MessageKind::InitServer);
            let sv = slots_view(s@);
            assert(slot_fits(fs[0], sv[0]));
            assert(sv[0] == opt_view(s@[0]));
            assert(slot_fits(fs[1], sv[1]));
            assert(sv[1] == opt_view(s@[1]));
            assert(slot_fits(fs[2], sv[2]));
            assert(sv[2] == opt_view(s@[2]));
            assert(slot_fits(fs[3], sv[3]));
            assert(sv[3] == opt_view(s@[3]));
            assert(slot_fits(fs[4], sv[4]));
            assert(sv[4] == opt_view(s@[4]));
            assert(slot_fits(fs[5], sv[5]));
            assert(sv[5] == opt_view(s@[5]));
            assert(slot_fits(fs[6], sv[6]));
            assert(sv[6] == opt_view(s@[6]));
            assert(slot_fits(fs[7], sv[7]));
            assert(sv[7] == opt_view(s@[7]));
            assert(slot_fits(fs[8], sv[8]));
            assert(sv[8] == opt_view(s@[8]));
            assert(slot_fits(fs[9], sv[9]));
            assert(sv[9] == opt_view(s@[9]));
            assert(slot_fits(fs[10], sv[10]));
            assert(sv[10] == opt_view(s@[10]));
            assert(slot_fits(fs[11], sv[11]));
            assert(sv[11] == opt_view(s@[11]));
            assert(slot_fits(fs[12], sv[12]));
            assert(sv[12] == opt_view(s@[12]));
            assert(slot_fits(fs[13], sv[13]));
            assert(sv[13] == opt_view(s@[13]));
            assert(slot_fits(fs[14], sv[14]));
            assert(sv[14] == opt_view(s@[14]));
            assert(slot_fits(fs[15], sv[15]));
            assert(sv[15] == opt_view(s@[15]));
            assert(slot_fits(fs[16], sv[16]));
            assert(sv[16] == opt_view(s@[16]));
            assert(slot_fits(fs[17], sv[17]));
            assert(sv[17] == opt_view(s@[17]));
            assert(slot_fits(fs[18], sv[18]));
            assert(sv[18] == opt_view(s@[18]));
            assert(slot_fits(fs[19], sv[19]));
            assert(sv[19] == opt_view(s@[19]));
            assert(slot_fits(fs[20], sv[20]));
            assert(sv[20] == opt_view(s@[20]));
            assert(slot_fits(fs[21], sv[21]));
            assert(sv[21] == opt_view(s@[21]));
            assert(slot_fits(fs[22], sv[22]));
            assert(sv[22] == opt_view(s@[22]));
            assert(slot_fits(fs[23], sv[23]));
            assert(sv[23] == opt_view(s@[23]));
            assert(slot_fits(fs[24], sv[24]));
            assert(sv[24] == opt_view(s@[24]));
            assert(slot_fits(fs[25], sv[25]));
            assert(sv[25] == opt_view(s@[25]));
            assert(slot_fits(fs[26], sv[26]));
            assert(sv[26] == opt_view(s@[26]));
            assert(slot_fits(fs[27], sv[27]));
            assert(sv[27] == opt_view(s@[27]));
            assert(slot_fits(fs[28], sv[28]));
            assert(sv[28] == opt_view(s@[28]));
            assert(slot_fits(fs[29], sv[29]));
            assert(sv[29] == opt_view(s@[29]));
            assert(slot_fits(fs[30], sv[30]));
            assert(sv[30] == opt_view(s@[30]));
            assert(slot_fits(fs[31], sv[31]));
            assert(sv[31] == opt_view(s@[31]));
            assert(slot_fits(fs[32], sv[32]));
            assert(sv[32] == opt_view(s@[32]));
            assert(slot_fits(fs[33], sv[33]));
            assert(sv[33] == opt_view(s@[33]));
            assert(slot_fits(fs[34], sv[34]));
            assert(sv[34] == opt_view(s@[34]));
            assert(slot_fits(fs[35], sv[35]));
            assert(sv[35] == opt_view(s@[35]));
            assert(slot_fits(fs[36], sv[36]));
            assert(sv[36] == opt_view(s@[36]));
            assert(slot_fits(fs[37], sv[37]));
            assert(sv[37] == opt_view(s@[37]));
            assert(slot_fits(fs[38], sv[38]));
            assert(sv[38] == opt_view(s@[38]));
            assert(slot_fits(fs[39], sv[39]));
            assert(sv[39] == opt_view(s@[39]));
            assert(slot_fits(fs[40], sv[40]));
            assert(sv[40] == opt_view(s@[40]));
            assert(slot_fits(fs[41], sv[41]));
            assert(sv[41] == opt_view(s@[41]));
            assert(slot_fits(fs[42], sv[42]));
            assert(sv[42] == opt_view(s@[42]));
            assert(slot_fits(fs[43], sv[43]));
            assert(sv[43] == opt_view(s@[43]));
            assert(slot_fits(fs[44], sv[44]));
            assert(sv[44] == opt_view(s@[44]));
            assert(slot_fits(fs[45], sv[45]));
            assert(sv[45] == opt_view(s@[45]));
            assert(slot_fits(fs[46], sv[46]));
            assert(sv[46] == opt_view(s@[46]));
            assert(slot_fits(fs[47], sv[47]));
            assert(sv[47] == opt_view(s@[47]));
            assert(slot_fits(fs[48], sv[48]));
            assert(sv[48] == opt_view(s@[48]));
            assert(slot_fits(fs[49], sv[49]));
            assert(sv[49] == opt_view(s@[49]));
            assert(slot_fits(fs[50], sv[50]));
            assert(sv[50] == opt_view(s@[50]));
            assert(slot_fits(fs[51], sv[51]));
            assert(sv[51] == opt_view(s@[51]));
            assert(slot_fits(fs[52], sv[52]));
            assert(sv[52] == opt_view(s@[52]));
            assert(slot_fits(fs[53], sv[53]));
            assert(sv[53] == opt_view(s@[53]));
            assert(slot_fits(fs[54], sv[54]));
            assert(sv[54] == opt_view(s@[54]));
            assert(slot_fits(fs[55], sv[55]));
            assert(sv[55] == opt_view(s@[55]));
            assert(slot_fits(fs[56], sv[56]));
            assert(sv[56] == opt_view(s@[56]));
            assert(slot_fits(fs[57], sv[57]));
            assert(sv[57] == opt_view(s@[57]));
            assert(slot_fits(fs[58], sv[58]));
            assert(sv[58] == opt_view(s@[58]));
            assert(slot_fits(fs[59], sv[59]));
            assert(sv[59] == opt_view(s@[59]));
            assert(slot_fits(fs[60], sv[60]));
            assert(sv[60] == opt_view(s@[60]));
            assert(slot_fits(fs[61], sv[61]));
            assert(sv[61] == opt_view(s@[61]));
            assert(slot_fits(fs[62], sv[62]));
            assert(sv[62] == opt_view(s@[62]));
        }
        let r = InInitServerPart {
            name: take_str(&s[0]),
            welcome_message: take_str(&s[1]),
            platform: take_str(&s[2]),
            version: take_str(&s[3]),
            max_clients: take_u16(&s[4]),
            created: take_i64(&s[5]),
            codec_encryption_mode: take_u32(&s[6]),
            hostmessage: take_str(&s[7]),
            hostmessage_mode: take_u32(&s[8]),
            default_server_group: take_u64(&s[9]),
            default_channel_group: take_u64(&s[10]),
            virtual_server_id: take_u64(&s[11]),
            ips: take_opt_str(&s[12]),
            ask_for_privilegekey: take_bool(&s[13]),
            license_type: take_opt_u32(&s[14]),
            hostbanner_url: take_str(&s[15]),
            hostbanner_gfx_url: take_str(&s[16]),
            hostbanner_gfx_interval: take_i64(&s[17]),
            priority_speaker_dimm_modificator: take_str(&s[18]),
            hostbutton_tooltip: take_str(&s[19]),
            hostbutton_url: take_str(&s[20]),
            hostbutton_gfx_url: take_str(&s[21]),
            phonetic_name: take_str(&s[22]),
            icon: take_icon(&s[23]),
            hostbanner_mode: take_u32(&s[24]),
            temp_channel_default_delete_delay: take_i64(&s[25]),
            nickname: take_opt_str(&s[26]),
            virtual_server_uid: take_opt_bytes(&s[27]),
            default_music_group: take_opt_u64(&s[28]),
            default_channel_admin_group: take_opt_u64(&s[29]),
            weblist_enabled: take_opt_bool(&s[30]),
            country_code: take_opt_str(&s[31]),
            capability_extensions: take_opt_str(&s[32]),
            client_name: take_opt_str(&s[33]),
            client_version: take_opt_str(&s[34]),
            client_platform: take_opt_str(&s[35]),
            input_muted: take_opt_bool(&s[36]),
            output_muted: take_opt_bool(&s[37]),
            output_only_muted: take_opt_bool(&s[38]),
            input_hardware_enabled: take_opt_bool(&s[39]),
            output_hardware_enabled: take_opt_bool(&s[40]),
            default_channel: take_opt_str(&s[41]),
            default_channel_password: take_opt_str(&s[42]),
            password: take_opt_str(&s[43]),
            metadata: take_opt_str(&s[44]),
            client_version_sign: take_opt_str(&s[45]),
            security_hash: take_opt_str(&s[46]),
            client_key_offset: take_opt_u64(&s[47]),
            is_away: take_opt_bool(&s[48]),
            away_message: take_opt_str(&s[49]),
            client_phonetic_name: take_opt_str(&s[50]),
            default_token: take_opt_str(&s[51]),
            badges: take_opt_str(&s[52]),
            my_team_speak_id: take_opt_str(&s[53]),
            integrations: take_opt_str(&s[54]),
            active_integrations_info: take_opt_str(&s[55]),
            my_team_speak_avatar: take_opt_str(&s[56]),
            signed_badges: take_opt_str(&s[57]),
            accepted_client_name: take_str(&s[58]),
            client_id: take_cid(&s[59]),
            protocol_version: take_u16(&s[60]),
            talk_power: take_i32(&s[61]),
            needed_serverquery_view_power: take_i32(&s[62]),
        };
        assert(r.slots() =~= slots_view(s@));
        r
    }
}

/// The `initserver` message: the server accepted the connection and describes itself and the client.
#[derive(Debug)]
pub struct InInitServer {
    list: Vec<InInitServerPart>,
}

impl InInitServer {
    /// A message always has at least one part.
    #[verifier::type_invariant]
    spec fn has_parts(&self) -> bool {
        self.list.len() > 0
    }

    pub closed spec fn spec_parts(&self) -> Seq<InInitServerPart> {
        self.list@
    }

    /// The argument slots of each of `parts`.
    pub open spec fn slots_of(parts: Seq<InInitServerPart>) -> Seq<Seq<Option<ValueV>>> {
        parts.map_values(|p: InInitServerPart| p.slots())
    }

    /// The argument slots of each part.
    pub open spec fn parts_slots(&self) -> Seq<Seq<Option<ValueV>>> {
        Self::slots_of(self.spec_parts())
    }

    /// The parts, in the order they came.
    pub fn parts(&self) -> (r: &Vec<InInitServerPart>)
        ensures
            r@ == self.spec_parts(),
            r@.len() > 0,
    {
        proof {
            use_type_invariant(self);
        }
        &self.list
    }

    /// The first part.
    pub fn first(&self) -> (r: &InInitServerPart)
        ensures
            self.spec_parts().len() > 0,
            *r == self.spec_parts()[0],
    {
        proof {
            use_type_invariant(self);
        }
        &self.list[0]
    }

    fn from_parts(ps: &Vec<Vec<Option<Value>>>) -> (r: InInitServer)
        requires
            ps@.len() > 0,
            forall|i: int|
                0 <= i < ps@.len() ==> part_fits(
                    fields_of(MessageKind::InitServer),
                    #[trigger] parts_view(ps@)[i],
                ),
        ensures
            r.parts_slots() == parts_view(ps@),
    {
        let mut list: Vec<InInitServerPart> = Vec::new();
        let mut i: usize = 0;
        while i < ps.len()
            invariant
                i <= ps@.len(),
                forall|k: int|
                    0 <= k < ps@.len() ==> part_fits(
                        fields_of(MessageKind::InitServer),
                        #[trigger] parts_view(ps@)[k],
                    ),
                Self::slots_of(list@) == parts_view(ps@).take(i as int),
            decreases ps.len() - i,
        {
            assert(parts_view(ps@)[i as int] == slots_view(ps@[i as int]@));
            let p = InInitServerPart::from_slots(&ps[i]);
            let ghost before = Self::slots_of(list@);
            list.push(p);
            i = i + 1;
            proof {
                assert(Self::slots_of(list@) =~= before.push(p.slots()));
                let pv = parts_view(ps@);
                assert(pv.take(i as int) =~= pv.take(i - 1).push(pv[i - 1]));
            }
        }
        assert(parts_view(ps@).take(i as int) =~= parts_view(ps@));
        let r = InInitServer { list };
        assert(r.parts_slots() =~= parts_view(ps@));
        r
    }
}

/// A message read from a command.
#[derive(Debug)]
pub enum InMessage {
    StreamStarted(InStreamStarted),
    StreamInfo(InStreamInfo),
    StreamUpdated(InStreamUpdated),
    StreamClientJoined(InStreamClientJoined),
    StreamStopped(InStreamStopped),
    StreamClientLeft(InStreamClientLeft),
    RespondJoinStreamRequest(InRespondJoinStreamRequest),
    StreamSignaling(InStreamSignaling),
    JoinStreamRequest(InJoinStreamRequest),
    InitServer(InInitServer),
}

impl InMessage {
    pub open spec fn kind(&self) -> MessageKind {
        match self {
            InMessage::StreamStarted(_) => MessageKind::StreamStarted,
            InMessage::StreamInfo(_) => MessageKind::StreamInfo,
            InMessage::StreamUpdated(_) => MessageKind::StreamUpdated,
            InMessage::StreamClientJoined(_) => MessageKind::StreamClientJoined,
            InMessage::StreamStopped(_) => MessageKind::StreamStopped,
            InMessage::StreamClientLeft(_) => MessageKind::StreamClientLeft,
            InMessage::RespondJoinStreamRequest(_) => MessageKind::RespondJoinStreamRequest,
            InMessage::StreamSignaling(_) => MessageKind::StreamSignaling,
            InMessage::JoinStreamRequest(_) => MessageKind::JoinStreamRequest,
            InMessage::InitServer(_) => MessageKind::InitServer,
        }
    }

    /// The argument slots of each part of the message.
    pub open spec fn parts_slots(&self) -> Seq<Seq<Option<ValueV>>> {
        match self {
            InMessage::StreamStarted(m) => m.parts_slots(),
            InMessage::StreamInfo(m) => m.parts_slots(),
            InMessage::StreamUpdated(m) => m.parts_slots(),
            InMessage::StreamClientJoined(m) => m.parts_slots(),
            InMessage::StreamStopped(m) => m.parts_slots(),
            InMessage::StreamClientLeft(m) => m.parts_slots(),
            InMessage::RespondJoinStreamRequest(m) => m.parts_slots(),
            InMessage::StreamSignaling(m) => m.parts_slots(),
            InMessage::JoinStreamRequest(m) => m.parts_slots(),
            InMessage::InitServer(m) => m.parts_slots(),
        }
    }

    /// The command name of the message.
    pub fn get_command_name(&self) -> (r: &'static str)
        ensures
            r == notify_name(self.kind()),
    {
        match self {
            InMessage::StreamStarted(_) => "notifystreamstarted",
            InMessage::StreamInfo(_) => "notifystreaminfo",
            InMessage::StreamUpdated(_) => "notifystreamupdated",
            InMessage::StreamClientJoined(_) => "notifystreamclientjoined",
            InMessage::StreamStopped(_) => "notifystreamstopped",
            InMessage::StreamClientLeft(_) => "notifystreamclientleft",
            InMessage::RespondJoinStreamRequest(_) => "notifyrespondjoinstreamrequest",
            InMessage::StreamSignaling(_) => "notifystreamsignaling",
            InMessage::JoinStreamRequest(_) => "notifyjoinstreamrequest",
            InMessage::InitServer(_) => "initserver",
        }
    }

    /// Reads the command `cmd` that arrived in a packet with header `header`.
    pub fn new(header: &InHeader, cmd: &[u8]) -> (r: Result<InMessage, ParseError>)
        ensures
            match r {
                Ok(m) => decode_spec(*header, cmd@) == Ok::<Decoded, ParseErrorV>(
                    (m.kind(), m.parts_slots()),
                ),
                Err(e) => decode_spec(*header, cmd@) == Err::<Decoded, ParseErrorV>(e@),
            },
    {
        let parsed = parse(cmd);
        let kind = match kind_of_name_exec(parsed.name.as_slice()) {
            Some(k) => k,
            None => {
                return match bytes_to_string(parsed.name.as_slice()) {
                    Some(s) => Err(ParseError::UnknownCommand(s)),
                    None => Err(ParseError::InvalidUtf8),
                };
            },
        };
        if header.packet_type != PacketType::Command {
            return Err(ParseError::WrongPacketType(header.packet_type));
        }
        if header.direction == Direction::C2S {
            return Err(ParseError::WrongDirection(Direction::C2S));
        }
        let fields = fields_exec(kind);
        let ps = match decode_parts(&fields, message_name_exec(kind), &parsed.items) {
            Ok(ps) => ps,
            Err(e) => {
                return Err(e);
            },
        };
        proof {
            lemma_decode_parts_fits(fields@, message_name(kind), crate::commands::items_view(parsed.items@));
        }
        match kind {
            MessageKind::StreamStarted => {
                let m = InStreamStarted::from_parts(&ps);
                Ok(InMessage::StreamStarted(m))
            },
            MessageKind::StreamInfo => {
                let m = InStreamInfo::from_parts(&ps);
                Ok(InMessage::StreamInfo(m))
            },
            MessageKind::StreamUpdated => {
                let m = InStreamUpdated::from_parts(&ps);
                Ok(InMessage::StreamUpdated(m))
            },
            MessageKind::StreamClientJoined => {
                let m = InStreamClientJoined::from_parts(&ps);
                Ok(InMessage::StreamClientJoined(m))
            },
            MessageKind::StreamStopped => {
                let m = InStreamStopped::from_parts(&ps);
                Ok(InMessage::StreamStopped(m))
            },
            MessageKind::StreamClientLeft => {
                let m = InStreamClientLeft::from_parts(&ps);
                Ok(InMessage::StreamClientLeft(m))
            },
            MessageKind::RespondJoinStreamRequest => {
                let m = InRespondJoinStreamRequest::from_parts(&ps);
                Ok(InMessage::RespondJoinStreamRequest(m))
            },
            MessageKind::StreamSignaling => {
                let m = InStreamSignaling::from_parts(&ps);
                Ok(InMessage::StreamSignaling(m))
            },
            MessageKind::JoinStreamRequest => {
                let m = InJoinStreamRequest::from_parts(&ps);
                Ok(InMessage::JoinStreamRequest(m))
            },
            MessageKind::InitServer => {
                let m = InInitServer::from_parts(&ps);
                Ok(InMessage::InitServer(m))
            },
        }
    }
}

proof fn lemma_distinct_stream_started()
    ensures
        names_distinct(fields_of(MessageKind::StreamStarted)),
{
    reveal_strlit("access");
    reveal_strlit("audio");
    reveal_strlit("bitrate");
    reveal_strlit("clid");
    reveal_strlit("id");
    reveal_strlit("mode");
    reveal_strlit("name");
    reveal_strlit("return_code");
    reveal_strlit("type");
    reveal_strlit("viewer_limit");
    lemma_str_bytes_differ("clid", "id");
    assert("clid"@[0] != "name"@[0]);
    lemma_str_bytes_differ("clid", "name");
    assert("clid"@[0] != "type"@[0]);
    lemma_str_bytes_differ("clid", "type");
    lemma_str_bytes_differ("clid", "access");
    assert("clid"@[0] != "mode"@[0]);
    lemma_str_bytes_differ("clid", "mode");
    lemma_str_bytes_differ("clid", "bitrate");
    lemma_str_bytes_differ("clid", "viewer_limit");
    lemma_str_bytes_differ("clid", "audio");
    lemma_str_bytes_differ("clid", "return_code");
    lemma_str_bytes_differ("id", "name");
    lemma_str_bytes_differ("id", "type");
    lemma_str_bytes_differ("id", "access");
    lemma_str_bytes_differ("id", "mode");
    lemma_str_bytes_differ("id", "bitrate");
    lemma_str_bytes_differ("id", "viewer_limit");
    lemma_str_bytes_differ("id", "audio");
    lemma_str_bytes_differ("id", "return_code");
    assert("name"@[0] != "type"@[0]);
    lemma_str_bytes_differ("name", "type");
    lemma_str_bytes_differ("name", "access");
    assert("name"@[0] != "mode"@[0]);
    lemma_str_bytes_differ("name", "mode");
    lemma_str_bytes_differ("name", "bitrate");
    lemma_str_bytes_differ("name", "viewer_limit");
    lemma_str_bytes_differ("name", "audio");
    lemma_str_bytes_differ("name", "return_code");
    lemma_str_bytes_differ("type", "access");
    assert("type"@[0] != "mode"@[0]);
    lemma_str_bytes_differ("type", "mode");
    lemma_str_bytes_differ("type", "bitrate");
    lemma_str_bytes_differ("type", "viewer_limit");
    lemma_str_bytes_differ("type", "audio");
    lemma_str_bytes_differ("type", "return_code");
    lemma_str_bytes_differ("access", "mode");
    lemma_str_bytes_differ("access", "bitrate");
    lemma_str_bytes_differ("access", "viewer_limit");
    lemma_str_bytes_differ("access", "audio");
    lemma_str_bytes_differ("access", "return_code");
    lemma_str_bytes_differ("mode", "bitrate");
    lemma_str_bytes_differ("mode", "viewer_limit");
    lemma_str_bytes_differ("mode", "audio");
    lemma_str_bytes_differ("mode", "return_code");
    lemma_str_bytes_differ("bitrate", "viewer_limit");
    lemma_str_bytes_differ("bitrate", "audio");
    lemma_str_bytes_differ("bitrate", "return_code");
    lemma_str_bytes_differ("viewer_limit", "audio");
    lemma_str_bytes_differ("viewer_limit", "return_code");
    lemma_str_bytes_differ("audio", "return_code");
}

proof fn lemma_distinct_stream_info()
    ensures
        names_distinct(fields_of(MessageKind::StreamInfo)),
{
    reveal_strlit("accessibility");
    reveal_strlit("audio");
    reveal_strlit("bitrate");
    reveal_strlit("clid");
    reveal_strlit("id");
    reveal_strlit("mode");
    reveal_strlit("name");
    reveal_strlit("return_code");
    reveal_strlit("type");
    reveal_strlit("viewer");
    reveal_strlit("viewer_limit");
    lemma_str_bytes_differ("clid", "id");
    assert("clid"@[0] != "name"@[0]);
    lemma_str_bytes_differ("clid", "name");
    assert("clid"@[0] != "type"@[0]);
    lemma_str_bytes_differ("clid", "type");
    lemma_str_bytes_differ("clid", "accessibility");
    assert("clid"@[0] != "mode"@[0]);
    lemma_str_bytes_differ("clid", "mode");
    lemma_str_bytes_differ("clid", "viewer");
    lemma_str_bytes_differ("clid", "bitrate");
    lemma_str_bytes_differ("clid", "viewer_limit");
    lemma_str_bytes_differ("clid", "audio");
    lemma_str_bytes_differ("clid", "return_code");
    lemma_str_bytes_differ("id", "name");
    lemma_str_bytes_differ("id", "type");
    lemma_str_bytes_differ("id", "accessibility");
    lemma_str_bytes_differ("id", "mode");
    lemma_str_bytes_differ("id", "viewer");
    lemma_str_bytes_differ("id", "bitrate");
    lemma_str_bytes_differ("id", "viewer_limit");
    lemma_str_bytes_differ("id", "audio");
    lemma_str_bytes_differ("id", "return_code");
    assert("name"@[0] != "type"@[0]);
    lemma_str_bytes_differ("name", "type");
    lemma_str_bytes_differ("name", "accessibility");
    assert("name"@[0] != "mode"@[0]);
    lemma_str_bytes_differ("name", "mode");
    lemma_str_bytes_differ("name", "viewer");
    lemma_str_bytes_differ("name", "bitrate");
    lemma_str_bytes_differ("name", "viewer_limit");
    lemma_str_bytes_differ("name", "audio");
    lemma_str_bytes_differ("name", "return_code");
    lemma_str_bytes_differ("type", "accessibility");
    assert("type"@[0] != "mode"@[0]);
    lemma_str_bytes_differ("type", "mode");
    lemma_str_bytes_differ("type", "viewer");
    lemma_str_bytes_differ("type", "bitrate");
    lemma_str_bytes_differ("type", "viewer_limit");
    lemma_str_bytes_differ("type", "audio");
    lemma_str_bytes_differ("type", "return_code");
    lemma_str_bytes_differ("accessibility", "mode");
    lemma_str_bytes_differ("accessibility", "viewer");
    lemma_str_bytes_differ("accessibility", "bitrate");
    lemma_str_bytes_differ("accessibility", "viewer_limit");
    lemma_str_bytes_differ("accessibility", "audio");
    lemma_str_bytes_differ("accessibility", "return_code");
    lemma_str_bytes_differ("mode", "viewer");
    lemma_str_bytes_differ("mode", "bitrate");
    lemma_str_bytes_differ("mode", "viewer_limit");
    lemma_str_bytes_differ("mode", "audio");
    lemma_str_bytes_differ("mode", "return_code");
    lemma_str_bytes_differ("viewer", "bitrate");
    lemma_str_bytes_differ("viewer", "viewer_limit");
    lemma_str_bytes_differ("viewer", "audio");
    lemma_str_bytes_differ("viewer", "return_code");
    lemma_str_bytes_differ("bitrate", "viewer_limit");
    lemma_str_bytes_differ("bitrate", "audio");
    lemma_str_bytes_differ("bitrate", "return_code");
    lemma_str_bytes_differ("viewer_limit", "audio");
    lemma_str_bytes_differ("viewer_limit", "return_code");
    lemma_str_bytes_differ("audio", "return_code");
}

proof fn lemma_distinct_stream_updated()
    ensures
        names_distinct(fields_of(MessageKind::StreamUpdated)),
{
    reveal_strlit("access");
    reveal_strlit("accessibility");
    reveal_strlit("audio");
    reveal_strlit("bitrate");
    reveal_strlit("clid");
    reveal_strlit("id");
    reveal_strlit("mode");
    reveal_strlit("name");
    reveal_strlit("return_code");
    reveal_strlit("type");
    reveal_strlit("viewer");
    reveal_strlit("viewer_limit");
    lemma_str_bytes_differ("clid", "id");
    assert("clid"@[0] != "name"@[0]);
    lemma_str_bytes_differ("clid", "name");
    assert("clid"@[0] != "type"@[0]);
    lemma_str_bytes_differ("clid", "type");
    lemma_str_bytes_differ("clid", "access");
    lemma_str_bytes_differ("clid", "accessibility");
    assert("clid"@[0] != "mode"@[0]);
    lemma_str_bytes_differ("clid", "mode");
    lemma_str_bytes_differ("clid", "viewer");
    lemma_str_bytes_differ("clid", "bitrate");
    lemma_str_bytes_differ("clid", "viewer_limit");
    lemma_str_bytes_differ("clid", "audio");
    lemma_str_bytes_differ("clid", "return_code");
    lemma_str_bytes_differ("id", "name");
    lemma_str_bytes_differ("id", "type");
    lemma_str_bytes_differ("id", "access");
    lemma_str_bytes_differ("id", "accessibility");
    lemma_str_bytes_differ("id", "mode");
    lemma_str_bytes_differ("id", "viewer");
    lemma_str_bytes_differ("id", "bitrate");
    lemma_str_bytes_differ("id", "viewer_limit");
    lemma_str_bytes_differ("id", "audio");
    lemma_str_bytes_differ("id", "return_code");
    assert("name"@[0] != "type"@[0]);
    lemma_str_bytes_differ("name", "type");
    lemma_str_bytes_differ("name", "access");
    lemma_str_bytes_differ("name", "accessibility");
    assert("name"@[0] != "mode"@[0]);
    lemma_str_bytes_differ("name", "mode");
    lemma_str_bytes_differ("name", "viewer");
    lemma_str_bytes_differ("name", "bitrate");
    lemma_str_bytes_differ("name", "viewer_limit");
    lemma_str_bytes_differ("name", "audio");
    lemma_str_bytes_differ("name", "return_code");
    lemma_str_bytes_differ("type", "access");
    lemma_str_bytes_differ("type", "accessibility");
    assert("type"@[0] != "mode"@[0]);
    lemma_str_bytes_differ("type", "mode");
    lemma_str_bytes_differ("type", "viewer");
    lemma_str_bytes_differ("type", "bitrate");
    lemma_str_bytes_differ("type", "viewer_limit");
    lemma_str_bytes_differ("type", "audio");
    lemma_str_bytes_differ("type", "return_code");
    lemma_str_bytes_differ("access", "accessibility");
    lemma_str_bytes_differ("access", "mode");
    assert("access"@[0] != "viewer"@[0]);
    lemma_str_bytes_differ("access", "viewer");
    lemma_str_bytes_differ("access", "bitrate");
    lemma_str_bytes_differ("access", "viewer_limit");
    lemma_str_bytes_differ("access", "audio");
    lemma_str_bytes_differ("access", "return_code");
    lemma_str_bytes_differ("accessibility", "mode");
    lemma_str_bytes_differ("accessibility", "viewer");
    lemma_str_bytes_differ("accessibility", "bitrate");
    lemma_str_bytes_differ("accessibility", "viewer_limit");
    lemma_str_bytes_differ("accessibility", "audio");
    lemma_str_bytes_differ("accessibility", "return_code");
    lemma_str_bytes_differ("mode", "viewer");
    lemma_str_bytes_differ("mode", "bitrate");
    lemma_str_bytes_differ("mode", "viewer_limit");
    lemma_str_bytes_differ("mode", "audio");
    lemma_str_bytes_differ("mode", "return_code");
    lemma_str_bytes_differ("viewer", "bitrate");
    lemma_str_bytes_differ("viewer", "viewer_limit");
    lemma_str_bytes_differ("viewer", "audio");
    lemma_str_bytes_differ("viewer", "return_code");
    lemma_str_bytes_differ("bitrate", "viewer_limit");
    lemma_str_bytes_differ("bitrate", "audio");
    lemma_str_bytes_differ("bitrate", "return_code");
    lemma_str_bytes_differ("viewer_limit", "audio");
    lemma_str_bytes_differ("viewer_limit", "return_code");
    lemma_str_bytes_differ("audio", "return_code");
}

proof fn lemma_distinct_stream_client_joined()
    ensures
        names_distinct(fields_of(MessageKind::StreamClientJoined)),
{
    reveal_strlit("clid");
    reveal_strlit("id");
    lemma_str_bytes_differ("clid", "id");
}

proof fn lemma_distinct_stream_stopped()
    ensures
        names_distinct(fields_of(MessageKind::StreamStopped)),
{
    reveal_strlit("clid");
    reveal_strlit("id");
    reveal_strlit("reason");
    lemma_str_bytes_differ("clid", "id");
    lemma_str_bytes_differ("clid", "reason");
    lemma_str_bytes_differ("id", "reason");
}

proof fn lemma_distinct_stream_client_left()
    ensures
        names_distinct(fields_of(MessageKind::StreamClientLeft)),
{
    reveal_strlit("clid");
    reveal_strlit("id");
    reveal_strlit("reason");
    lemma_str_bytes_differ("clid", "id");
    lemma_str_bytes_differ("clid", "reason");
    lemma_str_bytes_differ("id", "reason");
}

proof fn lemma_distinct_respond_join_stream_request()
    ensures
        names_distinct(fields_of(MessageKind::RespondJoinStreamRequest)),
{
    reveal_strlit("clid");
    reveal_strlit("decision");
    reveal_strlit("id");
    reveal_strlit("msg");
    reveal_strlit("offer");
    lemma_str_bytes_differ("clid", "id");
    lemma_str_bytes_differ("clid", "msg");
    lemma_str_bytes_differ("clid", "decision");
    lemma_str_bytes_differ("clid", "offer");
    lemma_str_bytes_differ("id", "msg");
    lemma_str_bytes_differ("id", "decision");
    lemma_str_bytes_differ("id", "offer");
    lemma_str_bytes_differ("msg", "decision");
    lemma_str_bytes_differ("msg", "offer");
    lemma_str_bytes_differ("decision", "offer");
}

proof fn lemma_distinct_stream_signaling()
    ensures
        names_distinct(fields_of(MessageKind::StreamSignaling)),
{
    reveal_strlit("clid");
    reveal_strlit("id");
    reveal_strlit("json");
    lemma_str_bytes_differ("clid", "id");
    assert("clid"@[0] != "json"@[0]);
    lemma_str_bytes_differ("clid", "json");
    lemma_str_bytes_differ("id", "json");
}

proof fn lemma_distinct_join_stream_request()
    ensures
        names_distinct(fields_of(MessageKind::JoinStreamRequest)),
{
    reveal_strlit("clid");
    reveal_strlit("id");
    reveal_strlit("is_remove");
    reveal_strlit("msg");
    lemma_str_bytes_differ("clid", "id");
    lemma_str_bytes_differ("clid", "msg");
    lemma_str_bytes_differ("clid", "is_remove");
    lemma_str_bytes_differ("id", "msg");
    lemma_str_bytes_differ("id", "is_remove");
    lemma_str_bytes_differ("msg", "is_remove");
}

/// How each part of a message read from a command reads: the slot of
/// field `j` in part `i` holds the value of the last argument for the field
/// in that part (a bare `name` or `name=` of a text field is the empty
/// text); a later part that lacks it has the value of the first part, and
/// the first part has none. For the stream messages, the argument for a
/// field is the one under the field's name.
pub proof fn lemma_read_part_values(header: InHeader, cmd: Seq<u8>, i: int, j: int)
    requires
        decode_spec(header, cmd) is Ok,
        0 <= i < decode_spec(header, cmd)->Ok_0.1.len(),
        0 <= j < fields_of(decode_spec(header, cmd)->Ok_0.0).len(),
    ensures
        ({
            let k = decode_spec(header, cmd)->Ok_0.0;
            let ps = decode_spec(header, cmd)->Ok_0.1;
            let fs = fields_of(k);
            let part = part_start(parse_spec(cmd).1, i as nat);
            &&& ps[i][j] == expected_slot(fs, parse_spec(cmd).1, i as nat, j, ps[0][j])
            &&& last_value_for(fs, part, j, None) matches Some(v) ==> decode_value_spec(fs[j], v) is Ok
            &&& (fs[j].kind == FieldKind::Str && last_value_for(fs, part, j, None) == Some(Seq::<u8>::empty())
                ==> ps[i][j] == Some(ValueV::Str(Seq::empty())))
            &&& k != MessageKind::InitServer ==> last_value_for(fs, part, j, None)
                == first_part_value_from(part, field_name(fs[j]), None)
        }),
{
    let k = decode_spec(header, cmd)->Ok_0.0;
    let fs = fields_of(k);
    let items = parse_spec(cmd).1;
    lemma_part_values(fs, message_name(k), items, i, j);
    lemma_bare_text(fs[j]);
    match k {
        MessageKind::StreamStarted => {
            lemma_distinct_stream_started();
            lemma_last_value_by_name(fs, part_start(items, i as nat), j, None);
        },
        MessageKind::StreamInfo => {
            lemma_distinct_stream_info();
            lemma_last_value_by_name(fs, part_start(items, i as nat), j, None);
        },
        MessageKind::StreamUpdated => {
            lemma_distinct_stream_updated();
            lemma_last_value_by_name(fs, part_start(items, i as nat), j, None);
        },
        MessageKind::StreamClientJoined => {
            lemma_distinct_stream_client_joined();
            lemma_last_value_by_name(fs, part_start(items, i as nat), j, None);
        },
        MessageKind::StreamStopped => {
            lemma_distinct_stream_stopped();
            lemma_last_value_by_name(fs, part_start(items, i as nat), j, None);
        },
        MessageKind::StreamClientLeft => {
            lemma_distinct_stream_client_left();
            lemma_last_value_by_name(fs, part_start(items, i as nat), j, None);
        },
        MessageKind::RespondJoinStreamRequest => {
            lemma_distinct_respond_join_stream_request();
            lemma_last_value_by_name(fs, part_start(items, i as nat), j, None);
        },
        MessageKind::StreamSignaling => {
            lemma_distinct_stream_signaling();
            lemma_last_value_by_name(fs, part_start(items, i as nat), j, None);
        },
        MessageKind::JoinStreamRequest => {
            lemma_distinct_join_stream_request();
            lemma_last_value_by_name(fs, part_start(items, i as nat), j, None);
        },
        MessageKind::InitServer => {},
    }
}

impl InStreamStarted {
    /// How the parts of a `notifystreamstarted` command read: each field of part `i`
    /// holds the value of the last argument under the field's own name in that
    /// part, read as the field's type; where the part has none, a later part
    /// has the value of the first part, and the first part has none.
    pub proof fn lemma_fields_by_name(header: InHeader, cmd: Seq<u8>, m: InStreamStarted, i: int)
        requires
            decode_spec(header, cmd) == Ok::<Decoded, ParseErrorV>((MessageKind::StreamStarted, m.parts_slots())),
            0 <= i < m.spec_parts().len(),
        ensures
            ({
                let items = parse_spec(cmd).1;
                let p = m.spec_parts()[i];
                let first = m.spec_parts()[0];
                &&& cid_slot(p.client_id) == named_slot(
                    items,
                    i as nat,
                    Field { name: "clid", pretty: "ClientId", kind: FieldKind::ClientId, optional: false },
                    cid_slot(first.client_id),
                )
                &&& str_slot(p.stream_id) == named_slot(
                    items,
                    i as nat,
                    Field { name: "id", pretty: "StreamId", kind: FieldKind::Str, optional: false },
                    str_slot(first.stream_id),
                )
                &&& opt_str_slot(p.name) == named_slot(
                    items,
                    i as nat,
                    Field { name: "name", pretty: "Name", kind: FieldKind::Str, optional: true },
                    opt_str_slot(first.name),
                )
                &&& opt_u32_slot(p.stream_type) == named_slot(
                    items,
                    i as nat,
                    Field { name: "type", pretty: "StreamType", kind: FieldKind::U32, optional: true },
                    opt_u32_slot(first.stream_type),
                )
                &&& opt_u32_slot(p.access) == named_slot(
                    items,
                    i as nat,
                    Field { name: "access", pretty: "Access", kind: FieldKind::U32, optional: true },
                    opt_u32_slot(first.access),
                )
                &&& opt_u32_slot(p.mode) == named_slot(
                    items,
                    i as nat,
                    Field { name: "mode", pretty: "Mode", kind: FieldKind::U32, optional: true },
                    opt_u32_slot(first.mode),
                )
                &&& opt_u32_slot(p.bitrate) == named_slot(
                    items,
                    i as nat,
                    Field { name: "bitrate", pretty: "Bitrate", kind: FieldKind::U32, optional: true },
                    opt_u32_slot(first.bitrate),
                )
                &&& opt_u32_slot(p.viewer_limit) == named_slot(
                    items,
                    i as nat,
                    Field { name: "viewer_limit", pretty: "ViewerLimit", kind: FieldKind::U32, optional: true },
                    opt_u32_slot(first.viewer_limit),
                )
                &&& opt_bool_slot(p.audio) == named_slot(
                    items,
                    i as nat,
                    Field { name: "audio", pretty: "Audio", kind: FieldKind::Bool, optional: true },
                    opt_bool_slot(first.audio),
                )
                &&& opt_str_slot(p.return_code) == named_slot(
                    items,
                    i as nat,
                    Field { name: "return_code", pretty: "ReturnCode", kind: FieldKind::Str, optional: true },
                    opt_str_slot(first.return_code),
                )
            }),
    {
        let items = parse_spec(cmd).1;
        let fs = fields_of(MessageKind::StreamStarted);
        let msg = message_name(MessageKind::StreamStarted);
        let ps = m.parts_slots();
        assert(decode_parts_spec(fs, msg, items) == Ok::<Seq<Seq<Option<ValueV>>>, ParseErrorV>(ps));
        assert(ps[i] == m.spec_parts()[i].slots());
        assert(ps[0] == m.spec_parts()[0].slots());
        lemma_distinct_stream_started();
        assert(unique_name(fs, 0));
        lemma_unique_found(fs, 0);
        lemma_slot_by_name(fs, msg, items, i, 0);
        assert(unique_name(fs, 1));
        lemma_unique_found(fs, 1);
        lemma_slot_by_name(fs, msg, items, i, 1);
        assert(unique_name(fs, 2));
        lemma_unique_found(fs, 2);
        lemma_slot_by_name(fs, msg, items, i, 2);
        assert(unique_name(fs, 3));
        lemma_unique_found(fs, 3);
        lemma_slot_by_name(fs, msg, items, i, 3);
        assert(unique_name(fs, 4));
        lemma_unique_found(fs, 4);
        lemma_slot_by_name(fs, msg, items, i, 4);
        assert(unique_name(fs, 5));
        lemma_unique_found(fs, 5);
        lemma_slot_by_name(fs, msg, items, i, 5);
        assert(unique_name(fs, 6));
        lemma_unique_found(fs, 6);
        lemma_slot_by_name(fs, msg, items, i, 6);
        assert(unique_name(fs, 7));
        lemma_unique_found(fs, 7);
        lemma_slot_by_name(fs, msg, items, i, 7);
        assert(unique_name(fs, 8));
        lemma_unique_found(fs, 8);
        lemma_slot_by_name(fs, msg, items, i, 8);
        assert(unique_name(fs, 9));
        lemma_unique_found(fs, 9);
        lemma_slot_by_name(fs, msg, items, i, 9);
    }

}

impl InStreamInfo {
    /// How the parts of a `notifystreaminfo` command read: each field of part `i`
    /// holds the value of the last argument under the field's own name in that
    /// part, read as the field's type; where the part has none, a later part
    /// has the value of the first part, and the first part has none.
    pub proof fn lemma_fields_by_name(header: InHeader, cmd: Seq<u8>, m: InStreamInfo, i: int)
        requires
            decode_spec(header, cmd) == Ok::<Decoded, ParseErrorV>((MessageKind::StreamInfo, m.parts_slots())),
            0 <= i < m.spec_parts().len(),
        ensures
            ({
                let items = parse_spec(cmd).1;
                let p = m.spec_parts()[i];
                let first = m.spec_parts()[0];
                &&& cid_slot(p.client_id) == named_slot(
                    items,
                    i as nat,
                    Field { name: "clid", pretty: "ClientId", kind: FieldKind::ClientId, optional: false },
                    cid_slot(first.client_id),
                )
                &&& str_slot(p.stream_id) == named_slot(
                    items,
                    i as nat,
                    Field { name: "id", pretty: "StreamId", kind: FieldKind::Str, optional: false },
                    str_slot(first.stream_id),
                )
                &&& opt_str_slot(p.name) == named_slot(
                    items,
                    i as nat,
                    Field { name: "name", pretty: "Name", kind: FieldKind::Str, optional: true },
                    opt_str_slot(first.name),
                )
                &&& opt_u32_slot(p.stream_type) == named_slot(
                    items,
                    i as nat,
                    Field { name: "type", pretty: "StreamType", kind: FieldKind::U32, optional: true },
                    opt_u32_slot(first.stream_type),
                )
                &&& opt_u32_slot(p.accessibility) == named_slot(
                    items,
                    i as nat,
                    Field { name: "accessibility", pretty: "Accessibility", kind: FieldKind::U32, optional: true },
                    opt_u32_slot(first.accessibility),
                )
                &&& opt_u32_slot(p.mode) == named_slot(
                    items,
                    i as nat,
                    Field { name: "mode", pretty: "Mode", kind: FieldKind::U32, optional: true },
                    opt_u32_slot(first.mode),
                )
                &&& opt_u32_slot(p.viewer_count) == named_slot(
                    items,
                    i as nat,
                    Field { name: "viewer", pretty: "ViewerCount", kind: FieldKind::U32, optional: true },
                    opt_u32_slot(first.viewer_count),
                )
                &&& opt_u32_slot(p.bitrate) == named_slot(
                    items,
                    i as nat,
                    Field { name: "bitrate", pretty: "Bitrate", kind: FieldKind::U32, optional: true },
                    opt_u32_slot(first.bitrate),
                )
                &&& opt_u32_slot(p.viewer_limit) == named_slot(
                    items,
                    i as nat,
                    Field { name: "viewer_limit", pretty: "ViewerLimit", kind: FieldKind::U32, optional: true },
                    opt_u32_slot(first.viewer_limit),
                )
                &&& opt_bool_slot(p.audio) == named_slot(
                    items,
                    i as nat,
                    Field { name: "audio", pretty: "Audio", kind: FieldKind::Bool, optional: true },
                    opt_bool_slot(first.audio),
                )
                &&& opt_str_slot(p.return_code) == named_slot(
                    items,
                    i as nat,
                    Field { name: "return_code", pretty: "ReturnCode", kind: FieldKind::Str, optional: true },
                    opt_str_slot(first.return_code),
                )
            }),
    {
        let items = parse_spec(cmd).1;
        let fs = fields_of(MessageKind::StreamInfo);
        let msg = message_name(MessageKind::StreamInfo);
        let ps = m.parts_slots();
        assert(decode_parts_spec(fs, msg, items) == Ok::<Seq<Seq<Option<ValueV>>>, ParseErrorV>(ps));
        assert(ps[i] == m.spec_parts()[i].slots());
        assert(ps[0] == m.spec_parts()[0].slots());
        lemma_distinct_stream_info();
        assert(unique_name(fs, 0));
        lemma_unique_found(fs, 0);
        lemma_slot_by_name(fs, msg, items, i, 0);
        assert(unique_name(fs, 1));
        lemma_unique_found(fs, 1);
        lemma_slot_by_name(fs, msg, items, i, 1);
        assert(unique_name(fs, 2));
        lemma_unique_found(fs, 2);
        lemma_slot_by_name(fs, msg, items, i, 2);
        assert(unique_name(fs, 3));
        lemma_unique_found(fs, 3);
        lemma_slot_by_name(fs, msg, items, i, 3);
        assert(unique_name(fs, 4));
        lemma_unique_found(fs, 4);
        lemma_slot_by_name(fs, msg, items, i, 4);
        assert(unique_name(fs, 5));
        lemma_unique_found(fs, 5);
        lemma_slot_by_name(fs, msg, items, i, 5);
        assert(unique_name(fs, 6));
        lemma_unique_found(fs, 6);
        lemma_slot_by_name(fs, msg, items, i, 6);
        assert(unique_name(fs, 7));
        lemma_unique_found(fs, 7);
        lemma_slot_by_name(fs, msg, items, i, 7);
        assert(unique_name(fs, 8));
        lemma_unique_found(fs, 8);
        lemma_slot_by_name(fs, msg, items, i, 8);
        assert(unique_name(fs, 9));
        lemma_unique_found(fs, 9);
        lemma_slot_by_name(fs, msg, items, i, 9);
        assert(unique_name(fs, 10));
        lemma_unique_found(fs, 10);
        lemma_slot_by_name(fs, msg, items, i, 10);
    }

}

impl InStreamUpdated {
    /// How the parts of a `notifystreamupdated` command read: each field of part `i`
    /// holds the value of the last argument under the field's own name in that
    /// part, read as the field's type; where the part has none, a later part
    /// has the value of the first part, and the first part has none.
    pub proof fn lemma_fields_by_name(header: InHeader, cmd: Seq<u8>, m: InStreamUpdated, i: int)
        requires
            decode_spec(header, cmd) == Ok::<Decoded, ParseErrorV>((MessageKind::StreamUpdated, m.parts_slots())),
            0 <= i < m.spec_parts().len(),
        ensures
            ({
                let items = parse_spec(cmd).1;
                let p = m.spec_parts()[i];
                let first = m.spec_parts()[0];
                &&& cid_slot(p.client_id) == named_slot(
                    items,
                    i as nat,
                    Field { name: "clid", pretty: "ClientId", kind: FieldKind::ClientId, optional: false },
                    cid_slot(first.client_id),
                )
                &&& str_slot(p.stream_id) == named_slot(
                    items,
                    i as nat,
                    Field { name: "id", pretty: "StreamId", kind: FieldKind::Str, optional: false },
                    str_slot(first.stream_id),
                )
                &&& opt_str_slot(p.name) == named_slot(
                    items,
                    i as nat,
                    Field { name: "name", pretty: "Name", kind: FieldKind::Str, optional: true },
                    opt_str_slot(first.name),
                )
                &&& opt_u32_slot(p.stream_type) == named_slot(
                    items,
                    i as nat,
                    Field { name: "type", pretty: "StreamType", kind: FieldKind::U32, optional: true },
                    opt_u32_slot(first.stream_type),
                )
                &&& opt_u32_slot(p.access) == named_slot(
                    items,
                    i as nat,
                    Field { name: "access", pretty: "Access", kind: FieldKind::U32, optional: true },
                    opt_u32_slot(first.access),
                )
                &&& opt_u32_slot(p.accessibility) == named_slot(
                    items,
                    i as nat,
                    Field { name: "accessibility", pretty: "Accessibility", kind: FieldKind::U32, optional: true },
                    opt_u32_slot(first.accessibility),
                )
                &&& opt_u32_slot(p.mode) == named_slot(
                    items,
                    i as nat,
                    Field { name: "mode", pretty: "Mode", kind: FieldKind::U32, optional: true },
                    opt_u32_slot(first.mode),
                )
                &&& opt_u32_slot(p.viewer_count) == named_slot(
                    items,
                    i as nat,
                    Field { name: "viewer", pretty: "ViewerCount", kind: FieldKind::U32, optional: true },
                    opt_u32_slot(first.viewer_count),
                )
                &&& opt_u32_slot(p.bitrate) == named_slot(
                    items,
                    i as nat,
                    Field { name: "bitrate", pretty: "Bitrate", kind: FieldKind::U32, optional: true },
                    opt_u32_slot(first.bitrate),
                )
                &&& opt_u32_slot(p.viewer_limit) == named_slot(
                    items,
                    i as nat,
                    Field { name: "viewer_limit", pretty: "ViewerLimit", kind: FieldKind::U32, optional: true },
                    opt_u32_slot(first.viewer_limit),
                )
                &&& opt_bool_slot(p.audio) == named_slot(
                    items,
                    i as nat,
                    Field { name: "audio", pretty: "Audio", kind: FieldKind::Bool, optional: true },
                    opt_bool_slot(first.audio),
                )
                &&& opt_str_slot(p.return_code) == named_slot(
                    items,
                    i as nat,
                    Field { name: "return_code", pretty: "ReturnCode", kind: FieldKind::Str, optional: true },
                    opt_str_slot(first.return_code),
                )
            }),
    {
        let items = parse_spec(cmd).1;
        let fs = fields_of(MessageKind::StreamUpdated);
        let msg = message_name(MessageKind::StreamUpdated);
        let ps = m.parts_slots();
        assert(decode_parts_spec(fs, msg, items) == Ok::<Seq<Seq<Option<ValueV>>>, ParseErrorV>(ps));
        assert(ps[i] == m.spec_parts()[i].slots());
        assert(ps[0] == m.spec_parts()[0].slots());
        lemma_distinct_stream_updated();
        assert(unique_name(fs, 0));
        lemma_unique_found(fs, 0);
        lemma_slot_by_name(fs, msg, items, i, 0);
        assert(unique_name(fs, 1));
        lemma_unique_found(fs, 1);
        lemma_slot_by_name(fs, msg, items, i, 1);
        assert(unique_name(fs, 2));
        lemma_unique_found(fs, 2);
        lemma_slot_by_name(fs, msg, items, i, 2);
        assert(unique_name(fs, 3));
        lemma_unique_found(fs, 3);
        lemma_slot_by_name(fs, msg, items, i, 3);
        assert(unique_name(fs, 4));
        lemma_unique_found(fs, 4);
        lemma_slot_by_name(fs, msg, items, i, 4);
        assert(unique_name(fs, 5));
        lemma_unique_found(fs, 5);
        lemma_slot_by_name(fs, msg, items, i, 5);
        assert(unique_name(fs, 6));
        lemma_unique_found(fs, 6);
        lemma_slot_by_name(fs, msg, items, i, 6);
        assert(unique_name(fs, 7));
        lemma_unique_found(fs, 7);
        lemma_slot_by_name(fs, msg, items, i, 7);
        assert(unique_name(fs, 8));
        lemma_unique_found(fs, 8);
        lemma_slot_by_name(fs, msg, items, i, 8);
        assert(unique_name(fs, 9));
        lemma_unique_found(fs, 9);
        lemma_slot_by_name(fs, msg, items, i, 9);
        assert(unique_name(fs, 10));
        lemma_unique_found(fs, 10);
        lemma_slot_by_name(fs, msg, items, i, 10);
        assert(unique_name(fs, 11));
        lemma_unique_found(fs, 11);
        lemma_slot_by_name(fs, msg, items, i, 11);
    }

}

impl InStreamClientJoined {
    /// How the parts of a `notifystreamclientjoined` command read: each field of part `i`
    /// holds the value of the last argument under the field's own name in that
    /// part, read as the field's type; where the part has none, a later part
    /// has the value of the first part, and the first part has none.
    pub proof fn lemma_fields_by_name(header: InHeader, cmd: Seq<u8>, m: InStreamClientJoined, i: int)
        requires
            decode_spec(header, cmd) == Ok::<Decoded, ParseErrorV>((MessageKind::StreamClientJoined, m.parts_slots())),
            0 <= i < m.spec_parts().len(),
        ensures
            ({
                let items = parse_spec(cmd).1;
                let p = m.spec_parts()[i];
                let first = m.spec_parts()[0];
                &&& cid_slot(p.client_id) == named_slot(
                    items,
                    i as nat,
                    Field { name: "clid", pretty: "ClientId", kind: FieldKind::ClientId, optional: false },
                    cid_slot(first.client_id),
                )
                &&& str_slot(p.stream_id) == named_slot(
                    items,
                    i as nat,
                    Field { name: "id", pretty: "StreamId", kind: FieldKind::Str, optional: false },
                    str_slot(first.stream_id),
                )
            }),
    {
        let items = parse_spec(cmd).1;
        let fs = fields_of(MessageKind::StreamClientJoined);
        let msg = message_name(MessageKind::StreamClientJoined);
        let ps = m.parts_slots();
        assert(decode_parts_spec(fs, msg, items) == Ok::<Seq<Seq<Option<ValueV>>>, ParseErrorV>(ps));
        assert(ps[i] == m.spec_parts()[i].slots());
        assert(ps[0] == m.spec_parts()[0].slots());
        lemma_distinct_stream_client_joined();
        assert(unique_name(fs, 0));
        lemma_unique_found(fs, 0);
        lemma_slot_by_name(fs, msg, items, i, 0);
        assert(unique_name(fs, 1));
        lemma_unique_found(fs, 1);
        lemma_slot_by_name(fs, msg, items, i, 1);
    }

}

impl InStreamStopped {
    /// How the parts of a `notifystreamstopped` command read: each field of part `i`
    /// holds the value of the last argument under the field's own name in that
    /// part, read as the field's type; where the part has none, a later part
    /// has the value of the first part, and the first part has none.
    pub proof fn lemma_fields_by_name(header: InHeader, cmd: Seq<u8>, m: InStreamStopped, i: int)
        requires
            decode_spec(header, cmd) == Ok::<Decoded, ParseErrorV>((MessageKind::StreamStopped, m.parts_slots())),
            0 <= i < m.spec_parts().len(),
        ensures
            ({
                let items = parse_spec(cmd).1;
                let p = m.spec_parts()[i];
                let first = m.spec_parts()[0];
                &&& cid_slot(p.client_id) == named_slot(
                    items,
                    i as nat,
                    Field { name: "clid", pretty: "ClientId", kind: FieldKind::ClientId, optional: false },
                    cid_slot(first.client_id),
                )
                &&& str_slot(p.stream_id) == named_slot(
                    items,
                    i as nat,
                    Field { name: "id", pretty: "StreamId", kind: FieldKind::Str, optional: false },
                    str_slot(first.stream_id),
                )
                &&& opt_u32_slot(p.reason) == named_slot(
                    items,
                    i as nat,
                    Field { name: "reason", pretty: "Reason", kind: FieldKind::U32, optional: true },
                    opt_u32_slot(first.reason),
                )
            }),
    {
        let items = parse_spec(cmd).1;
        let fs = fields_of(MessageKind::StreamStopped);
        let msg = message_name(MessageKind::StreamStopped);
        let ps = m.parts_slots();
        assert(decode_parts_spec(fs, msg, items) == Ok::<Seq<Seq<Option<ValueV>>>, ParseErrorV>(ps));
        assert(ps[i] == m.spec_parts()[i].slots());
        assert(ps[0] == m.spec_parts()[0].slots());
        lemma_distinct_stream_stopped();
        assert(unique_name(fs, 0));
        lemma_unique_found(fs, 0);
        lemma_slot_by_name(fs, msg, items, i, 0);
        assert(unique_name(fs, 1));
        lemma_unique_found(fs, 1);
        lemma_slot_by_name(fs, msg, items, i, 1);
        assert(unique_name(fs, 2));
        lemma_unique_found(fs, 2);
        lemma_slot_by_name(fs, msg, items, i, 2);
    }

}

impl InStreamClientLeft {
    /// How the parts of a `notifystreamclientleft` command read: each field of part `i`
    /// holds the value of the last argument under the field's own name in that
    /// part, read as the field's type; where the part has none, a later part
    /// has the value of the first part, and the first part has none.
    pub proof fn lemma_fields_by_name(header: InHeader, cmd: Seq<u8>, m: InStreamClientLeft, i: int)
        requires
            decode_spec(header, cmd) == Ok::<Decoded, ParseErrorV>((MessageKind::StreamClientLeft, m.parts_slots())),
            0 <= i < m.spec_parts().len(),
        ensures
            ({
                let items = parse_spec(cmd).1;
                let p = m.spec_parts()[i];
                let first = m.spec_parts()[0];
                &&& cid_slot(p.client_id) == named_slot(
                    items,
                    i as nat,
                    Field { name: "clid", pretty: "ClientId", kind: FieldKind::ClientId, optional: false },
                    cid_slot(first.client_id),
                )
                &&& str_slot(p.stream_id) == named_slot(
                    items,
                    i as nat,
                    Field { name: "id", pretty: "StreamId", kind: FieldKind::Str, optional: false },
                    str_slot(first.stream_id),
                )
                &&& opt_u32_slot(p.reason) == named_slot(
                    items,
                    i as nat,
                    Field { name: "reason", pretty: "Reason", kind: FieldKind::U32, optional: true },
                    opt_u32_slot(first.reason),
                )
            }),
    {
        let items = parse_spec(cmd).1;
        let fs = fields_of(MessageKind::StreamClientLeft);
        let msg = message_name(MessageKind::StreamClientLeft);
        let ps = m.parts_slots();
        assert(decode_parts_spec(fs, msg, items) == Ok::<Seq<Seq<Option<ValueV>>>, ParseErrorV>(ps));
        assert(ps[i] == m.spec_parts()[i].slots());
        assert(ps[0] == m.spec_parts()[0].slots());
        lemma_distinct_stream_client_left();
        assert(unique_name(fs, 0));
        lemma_unique_found(fs, 0);
        lemma_slot_by_name(fs, msg, items, i, 0);
        assert(unique_name(fs, 1));
        lemma_unique_found(fs, 1);
        lemma_slot_by_name(fs, msg, items, i, 1);
        assert(unique_name(fs, 2));
        lemma_unique_found(fs, 2);
        lemma_slot_by_name(fs, msg, items, i, 2);
    }

}

impl InRespondJoinStreamRequest {
    /// How the parts of a `notifyrespondjoinstreamrequest` command read: each field of part `i`
    /// holds the value of the last argument under the field's own name in that
    /// part, read as the field's type; where the part has none, a later part
    /// has the value of the first part, and the first part has none.
    pub proof fn lemma_fields_by_name(header: InHeader, cmd: Seq<u8>, m: InRespondJoinStreamRequest, i: int)
        requires
            decode_spec(header, cmd) == Ok::<Decoded, ParseErrorV>((MessageKind::RespondJoinStreamRequest, m.parts_slots())),
            0 <= i < m.spec_parts().len(),
        ensures
            ({
                let items = parse_spec(cmd).1;
                let p = m.spec_parts()[i];
                let first = m.spec_parts()[0];
                &&& cid_slot(p.client_id) == named_slot(
                    items,
                    i as nat,
                    Field { name: "clid", pretty: "ClientId", kind: FieldKind::ClientId, optional: false },
                    cid_slot(first.client_id),
                )
                &&& str_slot(p.stream_id) == named_slot(
                    items,
                    i as nat,
                    Field { name: "id", pretty: "StreamId", kind: FieldKind::Str, optional: false },
                    str_slot(first.stream_id),
                )
                &&& opt_str_slot(p.message) == named_slot(
                    items,
                    i as nat,
                    Field { name: "msg", pretty: "Message", kind: FieldKind::Str, optional: true },
                    opt_str_slot(first.message),
                )
                &&& u32_slot(p.decision) == named_slot(
                    items,
                    i as nat,
                    Field { name: "decision", pretty: "Decision", kind: FieldKind::U32, optional: false },
                    u32_slot(first.decision),
                )
                &&& opt_str_slot(p.offer) == named_slot(
                    items,
                    i as nat,
                    Field { name: "offer", pretty: "Offer", kind: FieldKind::Str, optional: true },
                    opt_str_slot(first.offer),
                )
            }),
    {
        let items = parse_spec(cmd).1;
        let fs = fields_of(MessageKind::RespondJoinStreamRequest);
        let msg = message_name(MessageKind::RespondJoinStreamRequest);
        let ps = m.parts_slots();
        assert(decode_parts_spec(fs, msg, items) == Ok::<Seq<Seq<Option<ValueV>>>, ParseErrorV>(ps));
        assert(ps[i] == m.spec_parts()[i].slots());
        assert(ps[0] == m.spec_parts()[0].slots());
        lemma_distinct_respond_join_stream_request();
        assert(unique_name(fs, 0));
        lemma_unique_found(fs, 0);
        lemma_slot_by_name(fs, msg, items, i, 0);
        assert(unique_name(fs, 1));
        lemma_unique_found(fs, 1);
        lemma_slot_by_name(fs, msg, items, i, 1);
        assert(unique_name(fs, 2));
        lemma_unique_found(fs, 2);
        lemma_slot_by_name(fs, msg, items, i, 2);
        assert(unique_name(fs, 3));
        lemma_unique_found(fs, 3);
        lemma_slot_by_name(fs, msg, items, i, 3);
        assert(unique_name(fs, 4));
        lemma_unique_found(fs, 4);
        lemma_slot_by_name(fs, msg, items, i, 4);
    }

}

impl InStreamSignaling {
    /// How the parts of a `notifystreamsignaling` command read: each field of part `i`
    /// holds the value of the last argument under the field's own name in that
    /// part, read as the field's type; where the part has none, a later part
    /// has the value of the first part, and the first part has none.
    pub proof fn lemma_fields_by_name(header: InHeader, cmd: Seq<u8>, m: InStreamSignaling, i: int)
        requires
            decode_spec(header, cmd) == Ok::<Decoded, ParseErrorV>((MessageKind::StreamSignaling, m.parts_slots())),
            0 <= i < m.spec_parts().len(),
        ensures
            ({
                let items = parse_spec(cmd).1;
                let p = m.spec_parts()[i];
                let first = m.spec_parts()[0];
                &&& cid_slot(p.client_id) == named_slot(
                    items,
                    i as nat,
                    Field { name: "clid", pretty: "ClientId", kind: FieldKind::ClientId, optional: false },
                    cid_slot(first.client_id),
                )
                &&& str_slot(p.stream_id) == named_slot(
                    items,
                    i as nat,
                    Field { name: "id", pretty: "StreamId", kind: FieldKind::Str, optional: false },
                    str_slot(first.stream_id),
                )
                &&& str_slot(p.json) == named_slot(
                    items,
                    i as nat,
                    Field { name: "json", pretty: "Json", kind: FieldKind::Str, optional: false },
                    str_slot(first.json),
                )
            }),
    {
        let items = parse_spec(cmd).1;
        let fs = fields_of(MessageKind::StreamSignaling);
        let msg = message_name(MessageKind::StreamSignaling);
        let ps = m.parts_slots();
        assert(decode_parts_spec(fs, msg, items) == Ok::<Seq<Seq<Option<ValueV>>>, ParseErrorV>(ps));
        assert(ps[i] == m.spec_parts()[i].slots());
        assert(ps[0] == m.spec_parts()[0].slots());
        lemma_distinct_stream_signaling();
        assert(unique_name(fs, 0));
        lemma_unique_found(fs, 0);
        lemma_slot_by_name(fs, msg, items, i, 0);
        assert(unique_name(fs, 1));
        lemma_unique_found(fs, 1);
        lemma_slot_by_name(fs, msg, items, i, 1);
        assert(unique_name(fs, 2));
        lemma_unique_found(fs, 2);
        lemma_slot_by_name(fs, msg, items, i, 2);
    }

}

impl InJoinStreamRequest {
    /// How the parts of a `notifyjoinstreamrequest` command read: each field of part `i`
    /// holds the value of the last argument under the field's own name in that
    /// part, read as the field's type; where the part has none, a later part
    /// has the value of the first part, and the first part has none.
    pub proof fn lemma_fields_by_name(header: InHeader, cmd: Seq<u8>, m: InJoinStreamRequest, i: int)
        requires
            decode_spec(header, cmd) == Ok::<Decoded, ParseErrorV>((MessageKind::JoinStreamRequest, m.parts_slots())),
            0 <= i < m.spec_parts().len(),
        ensures
            ({
                let items = parse_spec(cmd).1;
                let p = m.spec_parts()[i];
                let first = m.spec_parts()[0];
                &&& cid_slot(p.client_id) == named_slot(
                    items,
                    i as nat,
                    Field { name: "clid", pretty: "ClientId", kind: FieldKind::ClientId, optional: false },
                    cid_slot(first.client_id),
                )
                &&& str_slot(p.stream_id) == named_slot(
                    items,
                    i as nat,
                    Field { name: "id", pretty: "StreamId", kind: FieldKind::Str, optional: false },
                    str_slot(first.stream_id),
                )
                &&& opt_str_slot(p.message) == named_slot(
                    items,
                    i as nat,
                    Field { name: "msg", pretty: "Message", kind: FieldKind::Str, optional: true },
                    opt_str_slot(first.message),
                )
                &&& bool_slot(p.is_remove) == named_slot(
                    items,
                    i as nat,
                    Field { name: "is_remove", pretty: "IsRemove", kind: FieldKind::Bool, optional: false },
                    bool_slot(first.is_remove),
                )
            }),
    {
        let items = parse_spec(cmd).1;
        let fs = fields_of(MessageKind::JoinStreamRequest);
        let msg = message_name(MessageKind::JoinStreamRequest);
        let ps = m.parts_slots();
        assert(decode_parts_spec(fs, msg, items) == Ok::<Seq<Seq<Option<ValueV>>>, ParseErrorV>(ps));
        assert(ps[i] == m.spec_parts()[i].slots());
        assert(ps[0] == m.spec_parts()[0].slots());
        lemma_distinct_join_stream_request();
        assert(unique_name(fs, 0));
        lemma_unique_found(fs, 0);
        lemma_slot_by_name(fs, msg, items, i, 0);
        assert(unique_name(fs, 1));
        lemma_unique_found(fs, 1);
        lemma_slot_by_name(fs, msg, items, i, 1);
        assert(unique_name(fs, 2));
        lemma_unique_found(fs, 2);
        lemma_slot_by_name(fs, msg, items, i, 2);
        assert(unique_name(fs, 3));
        lemma_unique_found(fs, 3);
        lemma_slot_by_name(fs, msg, items, i, 3);
    }

}

impl InInitServer {
    /// How the parts of a `initserver` command read, for the fields from `name`
    /// to `hostmessage_mode`: the message declares each field under its wire name, and
    /// each field of part `i` holds the value of the last argument read into
    /// that field in the part, read as the field's type; where the part has
    /// none, a later part has the value of the first part, and the first part
    /// has none.
    #[verifier::spinoff_prover]
    #[verifier::rlimit(60)]
    pub proof fn lemma_fields_by_name_1(header: InHeader, cmd: Seq<u8>, m: InInitServer, i: int)
        requires
            decode_spec(header, cmd) == Ok::<Decoded, ParseErrorV>((MessageKind::InitServer, m.parts_slots())),
            0 <= i < m.spec_parts().len(),
        ensures
            ({
                let items = parse_spec(cmd).1;
                let p = m.spec_parts()[i];
                let first = m.spec_parts()[0];
                let fs = fields_of(MessageKind::InitServer);
                &&& fs[0] == Field { name: "virtualserver_name", pretty: "Name", kind: FieldKind::Str, optional: false }
                &&& str_slot(p.name) == expected_slot(fs, items, i as nat, 0, str_slot(first.name))
                &&& fs[1] == Field { name: "virtualserver_welcomemessage", pretty: "WelcomeMessage", kind: FieldKind::Str, optional: false }
                &&& str_slot(p.welcome_message) == expected_slot(fs, items, i as nat, 1, str_slot(first.welcome_message))
                &&& fs[2] == Field { name: "virtualserver_platform", pretty: "Platform", kind: FieldKind::Str, optional: false }
                &&& str_slot(p.platform) == expected_slot(fs, items, i as nat, 2, str_slot(first.platform))
                &&& fs[3] == Field { name: "virtualserver_version", pretty: "Version", kind: FieldKind::Str, optional: false }
                &&& str_slot(p.version) == expected_slot(fs, items, i as nat, 3, str_slot(first.version))
                &&& fs[4] == Field { name: "virtualserver_maxclients", pretty: "MaxClients", kind: FieldKind::U16, optional: false }
                &&& u16_slot(p.max_clients) == expected_slot(fs, items, i as nat, 4, u16_slot(first.max_clients))
                &&& fs[5] == Field { name: "virtualserver_created", pretty: "Created", kind: FieldKind::I64, optional: false }
                &&& i64_slot(p.created) == expected_slot(fs, items, i as nat, 5, i64_slot(first.created))
                &&& fs[6] == Field { name: "virtualserver_codec_encryption_mode", pretty: "CodecEncryptionMode", kind: FieldKind::Enum(2), optional: false }
                &&& u32_slot(p.codec_encryption_mode) == expected_slot(fs, items, i as nat, 6, u32_slot(first.codec_encryption_mode))
                &&& fs[7] == Field { name: "virtualserver_hostmessage", pretty: "Hostmessage", kind: FieldKind::Str, optional: false }
                &&& str_slot(p.hostmessage) == expected_slot(fs, items, i as nat, 7, str_slot(first.hostmessage))
                &&& fs[8] == Field { name: "virtualserver_hostmessage_mode", pretty: "HostmessageMode", kind: FieldKind::Enum(3), optional: false }
                &&& u32_slot(p.hostmessage_mode) == expected_slot(fs, items, i as nat, 8, u32_slot(first.hostmessage_mode))
            }),
    {
        let items = parse_spec(cmd).1;
        let fs = fields_of(MessageKind::InitServer);
        let msg = message_name(MessageKind::InitServer);
        let ps = m.parts_slots();
        assert(decode_parts_spec(fs, msg, items) == Ok::<Seq<Seq<Option<ValueV>>>, ParseErrorV>(ps));
        assert(ps[i] == m.spec_parts()[i].slots());
        assert(ps[0] == m.spec_parts()[0].slots());
        lemma_part_values(fs, msg, items, i, 0);
        lemma_part_values(fs, msg, items, i, 1);
        lemma_part_values(fs, msg, items, i, 2);
        lemma_part_values(fs, msg, items, i, 3);
        lemma_part_values(fs, msg, items, i, 4);
        lemma_part_values(fs, msg, items, i, 5);
        lemma_part_values(fs, msg, items, i, 6);
        lemma_part_values(fs, msg, items, i, 7);
        lemma_part_values(fs, msg, items, i, 8);
    }

    /// How the parts of a `initserver` command read, for the fields from `default_server_group`
    /// to `hostbanner_gfx_interval`: the message declares each field under its wire name, and
    /// each field of part `i` holds the value of the last argument read into
    /// that field in the part, read as the field's type; where the part has
    /// none, a later part has the value of the first part, and the first part
    /// has none.
    #[verifier::spinoff_prover]
    #[verifier::rlimit(60)]
    pub proof fn lemma_fields_by_name_2(header: InHeader, cmd: Seq<u8>, m: InInitServer, i: int)
        requires
            decode_spec(header, cmd) == Ok::<Decoded, ParseErrorV>((MessageKind::InitServer, m.parts_slots())),
            0 <= i < m.spec_parts().len(),
        ensures
            ({
                let items = parse_spec(cmd).1;
                let p = m.spec_parts()[i];
                let first = m.spec_parts()[0];
                let fs = fields_of(MessageKind::InitServer);
                &&& fs[9] == Field { name: "virtualserver_default_server_group", pretty: "DefaultServerGroup", kind: FieldKind::U64, optional: false }
                &&& u64_slot(p.default_server_group) == expected_slot(fs, items, i as nat, 9, u64_slot(first.default_server_group))
                &&& fs[10] == Field { name: "virtualserver_default_channel_group", pretty: "DefaultChannelGroup", kind: FieldKind::U64, optional: false }
                &&& u64_slot(p.default_channel_group) == expected_slot(fs, items, i as nat, 10, u64_slot(first.default_channel_group))
                &&& fs[11] == Field { name: "virtualserver_id", pretty: "VirtualServerId", kind: FieldKind::U64, optional: false }
                &&& u64_slot(p.virtual_server_id) == expected_slot(fs, items, i as nat, 11, u64_slot(first.virtual_server_id))
                &&& fs[12] == Field { name: "virtualserver_ip", pretty: "Ips", kind: FieldKind::Str, optional: true }
                &&& opt_str_slot(p.ips) == expected_slot(fs, items, i as nat, 12, opt_str_slot(first.ips))
                &&& fs[13] == Field { name: "virtualserver_ask_for_privilegekey", pretty: "AskForPrivilegekey", kind: FieldKind::Bool, optional: false }
                &&& bool_slot(p.ask_for_privilegekey) == expected_slot(fs, items, i as nat, 13, bool_slot(first.ask_for_privilegekey))
                &&& fs[14] == Field { name: "lt", pretty: "LicenseType", kind: FieldKind::Enum(10), optional: true }
                &&& opt_u32_slot(p.license_type) == expected_slot(fs, items, i as nat, 14, opt_u32_slot(first.license_type))
                &&& fs[15] == Field { name: "virtualserver_hostbanner_url", pretty: "HostbannerUrl", kind: FieldKind::Str, optional: false }
                &&& str_slot(p.hostbanner_url) == expected_slot(fs, items, i as nat, 15, str_slot(first.hostbanner_url))
                &&& fs[16] == Field { name: "virtualserver_hostbanner_gfx_url", pretty: "HostbannerGfxUrl", kind: FieldKind::Str, optional: false }
                &&& str_slot(p.hostbanner_gfx_url) == expected_slot(fs, items, i as nat, 16, str_slot(first.hostbanner_gfx_url))
                &&& fs[17] == Field { name: "virtualserver_hostbanner_gfx_interval", pretty: "HostbannerGfxInterval", kind: FieldKind::Duration, optional: false }
                &&& i64_slot(p.hostbanner_gfx_interval) == expected_slot(fs, items, i as nat, 17, i64_slot(first.hostbanner_gfx_interval))
            }),
    {
        let items = parse_spec(cmd).1;
        let fs = fields_of(MessageKind::InitServer);
        let msg = message_name(MessageKind::InitServer);
        let ps = m.parts_slots();
        assert(decode_parts_spec(fs, msg, items) == Ok::<Seq<Seq<Option<ValueV>>>, ParseErrorV>(ps));
        assert(ps[i] == m.spec_parts()[i].slots());
        assert(ps[0] == m.spec_parts()[0].slots());
        lemma_part_values(fs, msg, items, i, 9);
        lemma_part_values(fs, msg, items, i, 10);
        lemma_part_values(fs, msg, items, i, 11);
        lemma_part_values(fs, msg, items, i, 12);
        lemma_part_values(fs, msg, items, i, 13);
        lemma_part_values(fs, msg, items, i, 14);
        lemma_part_values(fs, msg, items, i, 15);
        lemma_part_values(fs, msg, items, i, 16);
        lemma_part_values(fs, msg, items, i, 17);
    }

    /// How the parts of a `initserver` command read, for the fields from `priority_speaker_dimm_modificator`
    /// to `nickname`: the message declares each field under its wire name, and
    /// each field of part `i` holds the value of the last argument read into
    /// that field in the part, read as the field's type; where the part has
    /// none, a later part has the value of the first part, and the first part
    /// has none.
    #[verifier::spinoff_prover]
    #[verifier::rlimit(60)]
    pub proof fn lemma_fields_by_name_3(header: InHeader, cmd: Seq<u8>, m: InInitServer, i: int)
        requires
            decode_spec(header, cmd) == Ok::<Decoded, ParseErrorV>((MessageKind::InitServer, m.parts_slots())),
            0 <= i < m.spec_parts().len(),
        ensures
            ({
                let items = parse_spec(cmd).1;
                let p = m.spec_parts()[i];
                let first = m.spec_parts()[0];
                let fs = fields_of(MessageKind::InitServer);
                &&& fs[18] == Field { name: "virtualserver_priority_speaker_dimm_modificator", pretty: "PrioritySpeakerDimmModificator", kind: FieldKind::Float, optional: false }
                &&& str_slot(p.priority_speaker_dimm_modificator) == expected_slot(fs, items, i as nat, 18, str_slot(first.priority_speaker_dimm_modificator))
                &&& fs[19] == Field { name: "virtualserver_hostbutton_tooltip", pretty: "HostbuttonTooltip", kind: FieldKind::Str, optional: false }
                &&& str_slot(p.hostbutton_tooltip) == expected_slot(fs, items, i as nat, 19, str_slot(first.hostbutton_tooltip))
                &&& fs[20] == Field { name: "virtualserver_hostbutton_url", pretty: "HostbuttonUrl", kind: FieldKind::Str, optional: false }
                &&& str_slot(p.hostbutton_url) == expected_slot(fs, items, i as nat, 20, str_slot(first.hostbutton_url))
                &&& fs[21] == Field { name: "virtualserver_hostbutton_gfx_url", pretty: "HostbuttonGfxUrl", kind: FieldKind::Str, optional: false }
                &&& str_slot(p.hostbutton_gfx_url) == expected_slot(fs, items, i as nat, 21, str_slot(first.hostbutton_gfx_url))
                &&& fs[22] == Field { name: "virtualserver_name_phonetic", pretty: "PhoneticName", kind: FieldKind::Str, optional: false }
                &&& str_slot(p.phonetic_name) == expected_slot(fs, items, i as nat, 22, str_slot(first.phonetic_name))
                &&& fs[23] == Field { name: "virtualserver_icon_id", pretty: "Icon", kind: FieldKind::Icon, optional: false }
                &&& icon_slot(p.icon) == expected_slot(fs, items, i as nat, 23, icon_slot(first.icon))
                &&& fs[24] == Field { name: "virtualserver_hostbanner_mode", pretty: "HostbannerMode", kind: FieldKind::Enum(2), optional: false }
                &&& u32_slot(p.hostbanner_mode) == expected_slot(fs, items, i as nat, 24, u32_slot(first.hostbanner_mode))
                &&& fs[25] == Field { name: "virtualserver_channel_temp_delete_delay_default", pretty: "TempChannelDefaultDeleteDelay", kind: FieldKind::Duration, optional: false }
                &&& i64_slot(p.temp_channel_default_delete_delay) == expected_slot(fs, items, i as nat, 25, i64_slot(first.temp_channel_default_delete_delay))
                &&& fs[26] == Field { name: "virtualserver_nickname", pretty: "Nickname", kind: FieldKind::Str, optional: true }
                &&& opt_str_slot(p.nickname) == expected_slot(fs, items, i as nat, 26, opt_str_slot(first.nickname))
            }),
    {
        let items = parse_spec(cmd).1;
        let fs = fields_of(MessageKind::InitServer);
        let msg = message_name(MessageKind::InitServer);
        let ps = m.parts_slots();
        assert(decode_parts_spec(fs, msg, items) == Ok::<Seq<Seq<Option<ValueV>>>, ParseErrorV>(ps));
        assert(ps[i] == m.spec_parts()[i].slots());
        assert(ps[0] == m.spec_parts()[0].slots());
        lemma_part_values(fs, msg, items, i, 18);
        lemma_part_values(fs, msg, items, i, 19);
        lemma_part_values(fs, msg, items, i, 20);
        lemma_part_values(fs, msg, items, i, 21);
        lemma_part_values(fs, msg, items, i, 22);
        lemma_part_values(fs, msg, items, i, 23);
        lemma_part_values(fs, msg, items, i, 24);
        lemma_part_values(fs, msg, items, i, 25);
        lemma_part_values(fs, msg, items, i, 26);
    }

    /// How the parts of a `initserver` command read, for the fields from `virtual_server_uid`
    /// to `client_platform`: the message declares each field under its wire name, and
    /// each field of part `i` holds the value of the last argument read into
    /// that field in the part, read as the field's type; where the part has
    /// none, a later part has the value of the first part, and the first part
    /// has none.
    #[verifier::spinoff_prover]
    #[verifier::rlimit(60)]
    pub proof fn lemma_fields_by_name_4(header: InHeader, cmd: Seq<u8>, m: InInitServer, i: int)
        requires
            decode_spec(header, cmd) == Ok::<Decoded, ParseErrorV>((MessageKind::InitServer, m.parts_slots())),
            0 <= i < m.spec_parts().len(),
        ensures
            ({
                let items = parse_spec(cmd).1;
                let p = m.spec_parts()[i];
                let first = m.spec_parts()[0];
                let fs = fields_of(MessageKind::InitServer);
                &&& fs[27] == Field { name: "virtualserver_unique_identifier", pretty: "VirtualServerUid", kind: FieldKind::Uid, optional: true }
                &&& opt_bytes_slot(p.virtual_server_uid) == expected_slot(fs, items, i as nat, 27, opt_bytes_slot(first.virtual_server_uid))
                &&& fs[28] == Field { name: "virtualserver_default_music_group", pretty: "DefaultMusicGroup", kind: FieldKind::U64, optional: true }
                &&& opt_u64_slot(p.default_music_group) == expected_slot(fs, items, i as nat, 28, opt_u64_slot(first.default_music_group))
                &&& fs[29] == Field { name: "virtualserver_default_channel_admin_group", pretty: "DefaultChannelAdminGroup", kind: FieldKind::U64, optional: true }
                &&& opt_u64_slot(p.default_channel_admin_group) == expected_slot(fs, items, i as nat, 29, opt_u64_slot(first.default_channel_admin_group))
                &&& fs[30] == Field { name: "virtualserver_weblist_enabled", pretty: "WeblistEnabled", kind: FieldKind::Bool, optional: true }
                &&& opt_bool_slot(p.weblist_enabled) == expected_slot(fs, items, i as nat, 30, opt_bool_slot(first.weblist_enabled))
                &&& fs[31] == Field { name: "virtualserver_country_code", pretty: "CountryCode", kind: FieldKind::Str, optional: true }
                &&& opt_str_slot(p.country_code) == expected_slot(fs, items, i as nat, 31, opt_str_slot(first.country_code))
                &&& fs[32] == Field { name: "virtualserver_capability_extensions", pretty: "CapabilityExtensions", kind: FieldKind::Str, optional: true }
                &&& opt_str_slot(p.capability_extensions) == expected_slot(fs, items, i as nat, 32, opt_str_slot(first.capability_extensions))
                &&& fs[33] == Field { name: "client_nickname", pretty: "ClientName", kind: FieldKind::Str, optional: true }
                &&& opt_str_slot(p.client_name) == expected_slot(fs, items, i as nat, 33, opt_str_slot(first.client_name))
                &&& fs[34] == Field { name: "client_version", pretty: "ClientVersion", kind: FieldKind::Str, optional: true }
                &&& opt_str_slot(p.client_version) == expected_slot(fs, items, i as nat, 34, opt_str_slot(first.client_version))
                &&& fs[35] == Field { name: "client_platform", pretty: "ClientPlatform", kind: FieldKind::Str, optional: true }
                &&& opt_str_slot(p.client_platform) == expected_slot(fs, items, i as nat, 35, opt_str_slot(first.client_platform))
            }),
    {
        let items = parse_spec(cmd).1;
        let fs = fields_of(MessageKind::InitServer);
        let msg = message_name(MessageKind::InitServer);
        let ps = m.parts_slots();
        assert(decode_parts_spec(fs, msg, items) == Ok::<Seq<Seq<Option<ValueV>>>, ParseErrorV>(ps));
        assert(ps[i] == m.spec_parts()[i].slots());
        assert(ps[0] == m.spec_parts()[0].slots());
        lemma_part_values(fs, msg, items, i, 27);
        lemma_part_values(fs, msg, items, i, 28);
        lemma_part_values(fs, msg, items, i, 29);
        lemma_part_values(fs, msg, items, i, 30);
        lemma_part_values(fs, msg, items, i, 31);
        lemma_part_values(fs, msg, items, i, 32);
        lemma_part_values(fs, msg, items, i, 33);
        lemma_part_values(fs, msg, items, i, 34);
        lemma_part_values(fs, msg, items, i, 35);
    }

    /// How the parts of a `initserver` command read, for the fields from `input_muted`
    /// to `metadata`: the message declares each field under its wire name, and
    /// each field of part `i` holds the value of the last argument read into
    /// that field in the part, read as the field's type; where the part has
    /// none, a later part has the value of the first part, and the first part
    /// has none.
    #[verifier::spinoff_prover]
    #[verifier::rlimit(60)]
    pub proof fn lemma_fields_by_name_5(header: InHeader, cmd: Seq<u8>, m: InInitServer, i: int)
        requires
            decode_spec(header, cmd) == Ok::<Decoded, ParseErrorV>((MessageKind::InitServer, m.parts_slots())),
            0 <= i < m.spec_parts().len(),
        ensures
            ({
                let items = parse_spec(cmd).1;
                let p = m.spec_parts()[i];
                let first = m.spec_parts()[0];
                let fs = fields_of(MessageKind::InitServer);
                &&& fs[36] == Field { name: "client_input_muted", pretty: "InputMuted", kind: FieldKind::Bool, optional: true }
                &&& opt_bool_slot(p.input_muted) == expected_slot(fs, items, i as nat, 36, opt_bool_slot(first.input_muted))
                &&& fs[37] == Field { name: "client_output_muted", pretty: "OutputMuted", kind: FieldKind::Bool, optional: true }
                &&& opt_bool_slot(p.output_muted) == expected_slot(fs, items, i as nat, 37, opt_bool_slot(first.output_muted))
                &&& fs[38] == Field { name: "client_outputonly_muted", pretty: "OutputOnlyMuted", kind: FieldKind::Bool, optional: true }
                &&& opt_bool_slot(p.output_only_muted) == expected_slot(fs, items, i as nat, 38, opt_bool_slot(first.output_only_muted))
                &&& fs[39] == Field { name: "client_input_hardware", pretty: "InputHardwareEnabled", kind: FieldKind::Bool, optional: true }
                &&& opt_bool_slot(p.input_hardware_enabled) == expected_slot(fs, items, i as nat, 39, opt_bool_slot(first.input_hardware_enabled))
                &&& fs[40] == Field { name: "client_output_hardware", pretty: "OutputHardwareEnabled", kind: FieldKind::Bool, optional: true }
                &&& opt_bool_slot(p.output_hardware_enabled) == expected_slot(fs, items, i as nat, 40, opt_bool_slot(first.output_hardware_enabled))
                &&& fs[41] == Field { name: "client_default_channel", pretty: "DefaultChannel", kind: FieldKind::Str, optional: true }
                &&& opt_str_slot(p.default_channel) == expected_slot(fs, items, i as nat, 41, opt_str_slot(first.default_channel))
                &&& fs[42] == Field { name: "client_default_channel_password", pretty: "DefaultChannelPassword", kind: FieldKind::Str, optional: true }
                &&& opt_str_slot(p.default_channel_password) == expected_slot(fs, items, i as nat, 42, opt_str_slot(first.default_channel_password))
                &&& fs[43] == Field { name: "client_server_password", pretty: "Password", kind: FieldKind::Str, optional: true }
                &&& opt_str_slot(p.password) == expected_slot(fs, items, i as nat, 43, opt_str_slot(first.password))
                &&& fs[44] == Field { name: "client_meta_data", pretty: "Metadata", kind: FieldKind::Str, optional: true }
                &&& opt_str_slot(p.metadata) == expected_slot(fs, items, i as nat, 44, opt_str_slot(first.metadata))
            }),
    {
        let items = parse_spec(cmd).1;
        let fs = fields_of(MessageKind::InitServer);
        let msg = message_name(MessageKind::InitServer);
        let ps = m.parts_slots();
        assert(decode_parts_spec(fs, msg, items) == Ok::<Seq<Seq<Option<ValueV>>>, ParseErrorV>(ps));
        assert(ps[i] == m.spec_parts()[i].slots());
        assert(ps[0] == m.spec_parts()[0].slots());
        lemma_part_values(fs, msg, items, i, 36);
        lemma_part_values(fs, msg, items, i, 37);
        lemma_part_values(fs, msg, items, i, 38);
        lemma_part_values(fs, msg, items, i, 39);
        lemma_part_values(fs, msg, items, i, 40);
        lemma_part_values(fs, msg, items, i, 41);
        lemma_part_values(fs, msg, items, i, 42);
        lemma_part_values(fs, msg, items, i, 43);
        lemma_part_values(fs, msg, items, i, 44);
    }

    /// How the parts of a `initserver` command read, for the fields from `client_version_sign`
    /// to `my_team_speak_id`: the message declares each field under its wire name, and
    /// each field of part `i` holds the value of the last argument read into
    /// that field in the part, read as the field's type; where the part has
    /// none, a later part has the value of the first part, and the first part
    /// has none.
    #[verifier::spinoff_prover]
    #[verifier::rlimit(60)]
    pub proof fn lemma_fields_by_name_6(header: InHeader, cmd: Seq<u8>, m: InInitServer, i: int)
        requires
            decode_spec(header, cmd) == Ok::<Decoded, ParseErrorV>((MessageKind::InitServer, m.parts_slots())),
            0 <= i < m.spec_parts().len(),
        ensures
            ({
                let items = parse_spec(cmd).1;
                let p = m.spec_parts()[i];
                let first = m.spec_parts()[0];
                let fs = fields_of(MessageKind::InitServer);
                &&& fs[45] == Field { name: "client_version_sign", pretty: "ClientVersionSign", kind: FieldKind::Str, optional: true }
                &&& opt_str_slot(p.client_version_sign) == expected_slot(fs, items, i as nat, 45, opt_str_slot(first.client_version_sign))
                &&& fs[46] == Field { name: "client_security_hash", pretty: "SecurityHash", kind: FieldKind::Str, optional: true }
                &&& opt_str_slot(p.security_hash) == expected_slot(fs, items, i as nat, 46, opt_str_slot(first.security_hash))
                &&& fs[47] == Field { name: "client_key_offset", pretty: "ClientKeyOffset", kind: FieldKind::U64, optional: true }
                &&& opt_u64_slot(p.client_key_offset) == expected_slot(fs, items, i as nat, 47, opt_u64_slot(first.client_key_offset))
                &&& fs[48] == Field { name: "client_away", pretty: "IsAway", kind: FieldKind::Bool, optional: true }
                &&& opt_bool_slot(p.is_away) == expected_slot(fs, items, i as nat, 48, opt_bool_slot(first.is_away))
                &&& fs[49] == Field { name: "client_away_message", pretty: "AwayMessage", kind: FieldKind::Str, optional: true }
                &&& opt_str_slot(p.away_message) == expected_slot(fs, items, i as nat, 49, opt_str_slot(first.away_message))
                &&& fs[50] == Field { name: "client_nickname_phonetic", pretty: "ClientPhoneticName", kind: FieldKind::Str, optional: true }
                &&& opt_str_slot(p.client_phonetic_name) == expected_slot(fs, items, i as nat, 50, opt_str_slot(first.client_phonetic_name))
                &&& fs[51] == Field { name: "client_default_token", pretty: "DefaultToken", kind: FieldKind::Str, optional: true }
                &&& opt_str_slot(p.default_token) == expected_slot(fs, items, i as nat, 51, opt_str_slot(first.default_token))
                &&& fs[52] == Field { name: "client_badges", pretty: "Badges", kind: FieldKind::Str, optional: true }
                &&& opt_str_slot(p.badges) == expected_slot(fs, items, i as nat, 52, opt_str_slot(first.badges))
                &&& fs[53] == Field { name: "client_myteamspeak_id", pretty: "MyTeamSpeakId", kind: FieldKind::Str, optional: true }
                &&& opt_str_slot(p.my_team_speak_id) == expected_slot(fs, items, i as nat, 53, opt_str_slot(first.my_team_speak_id))
            }),
    {
        let items = parse_spec(cmd).1;
        let fs = fields_of(MessageKind::InitServer);
        let msg = message_name(MessageKind::InitServer);
        let ps = m.parts_slots();
        assert(decode_parts_spec(fs, msg, items) == Ok::<Seq<Seq<Option<ValueV>>>, ParseErrorV>(ps));
        assert(ps[i] == m.spec_parts()[i].slots());
        assert(ps[0] == m.spec_parts()[0].slots());
        lemma_part_values(fs, msg, items, i, 45);
        lemma_part_values(fs, msg, items, i, 46);
        lemma_part_values(fs, msg, items, i, 47);
        lemma_part_values(fs, msg, items, i, 48);
        lemma_part_values(fs, msg, items, i, 49);
        lemma_part_values(fs, msg, items, i, 50);
        lemma_part_values(fs, msg, items, i, 51);
        lemma_part_values(fs, msg, items, i, 52);
        lemma_part_values(fs, msg, items, i, 53);
    }

    /// How the parts of a `initserver` command read, for the fields from `integrations`
    /// to `needed_serverquery_view_power`: the message declares each field under its wire name, and
    /// each field of part `i` holds the value of the last argument read into
    /// that field in the part, read as the field's type; where the part has
    /// none, a later part has the value of the first part, and the first part
    /// has none.
    #[verifier::spinoff_prover]
    #[verifier::rlimit(60)]
    pub proof fn lemma_fields_by_name_7(header: InHeader, cmd: Seq<u8>, m: InInitServer, i: int)
        requires
            decode_spec(header, cmd) == Ok::<Decoded, ParseErrorV>((MessageKind::InitServer, m.parts_slots())),
            0 <= i < m.spec_parts().len(),
        ensures
            ({
                let items = parse_spec(cmd).1;
                let p = m.spec_parts()[i];
                let first = m.spec_parts()[0];
                let fs = fields_of(MessageKind::InitServer);
                &&& fs[54] == Field { name: "client_integrations", pretty: "Integrations", kind: FieldKind::Str, optional: true }
                &&& opt_str_slot(p.integrations) == expected_slot(fs, items, i as nat, 54, opt_str_slot(first.integrations))
                &&& fs[55] == Field { name: "client_active_integrations_info", pretty: "ActiveIntegrationsInfo", kind: FieldKind::Str, optional: true }
                &&& opt_str_slot(p.active_integrations_info) == expected_slot(fs, items, i as nat, 55, opt_str_slot(first.active_integrations_info))
                &&& fs[56] == Field { name: "client_myteamspeak_avatar", pretty: "MyTeamSpeakAvatar", kind: FieldKind::Str, optional: true }
                &&& opt_str_slot(p.my_team_speak_avatar) == expected_slot(fs, items, i as nat, 56, opt_str_slot(first.my_team_speak_avatar))
                &&& fs[57] == Field { name: "client_signed_badges", pretty: "SignedBadges", kind: FieldKind::Str, optional: true }
                &&& opt_str_slot(p.signed_badges) == expected_slot(fs, items, i as nat, 57, opt_str_slot(first.signed_badges))
                &&& fs[58] == Field { name: "acn", pretty: "AcceptedClientName", kind: FieldKind::Str, optional: false }
                &&& str_slot(p.accepted_client_name) == expected_slot(fs, items, i as nat, 58, str_slot(first.accepted_client_name))
                &&& fs[59] == Field { name: "aclid", pretty: "ClientId", kind: FieldKind::ClientId, optional: false }
                &&& cid_slot(p.client_id) == expected_slot(fs, items, i as nat, 59, cid_slot(first.client_id))
                &&& fs[60] == Field { name: "pv", pretty: "ProtocolVersion", kind: FieldKind::U16, optional: false }
                &&& u16_slot(p.protocol_version) == expected_slot(fs, items, i as nat, 60, u16_slot(first.protocol_version))
                &&& fs[61] == Field { name: "client_talk_power", pretty: "TalkPower", kind: FieldKind::I32, optional: false }
                &&& i32_slot(p.talk_power) == expected_slot(fs, items, i as nat, 61, i32_slot(first.talk_power))
                &&& fs[62] == Field { name: "client_needed_serverquery_view_power", pretty: "NeededServerqueryViewPower", kind: FieldKind::I32, optional: false }
                &&& i32_slot(p.needed_serverquery_view_power) == expected_slot(fs, items, i as nat, 62, i32_slot(first.needed_serverquery_view_power))
            }),
    {
        let items = parse_spec(cmd).1;
        let fs = fields_of(MessageKind::InitServer);
        let msg = message_name(MessageKind::InitServer);
        let ps = m.parts_slots();
        assert(decode_parts_spec(fs, msg, items) == Ok::<Seq<Seq<Option<ValueV>>>, ParseErrorV>(ps));
        assert(ps[i] == m.spec_parts()[i].slots());
        assert(ps[0] == m.spec_parts()[0].slots());
        lemma_part_values(fs, msg, items, i, 54);
        lemma_part_values(fs, msg, items, i, 55);
        lemma_part_values(fs, msg, items, i, 56);
        lemma_part_values(fs, msg, items, i, 57);
        lemma_part_values(fs, msg, items, i, 58);
        lemma_part_values(fs, msg, items, i, 59);
        lemma_part_values(fs, msg, items, i, 60);
        lemma_part_values(fs, msg, items, i, 61);
        lemma_part_values(fs, msg, items, i, 62);
    }

}

} // verus!
