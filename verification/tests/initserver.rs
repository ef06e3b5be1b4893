use tsclientlib::messages::s2c::InMessage;
use tsclientlib::packets::{Direction, Flags, OutPacket, PacketType};
use tsclientlib::{ClientId, IconId, ParseError};

const INIT: &str = r#"initserver virtualserver_name=TeamSpeak\s]I[\sServer virtualserver_welcomemessage=Welcome\sto\sTeamSpeak,\scheck\s[URL]www.teamspeak.com[\/URL]\sfor\slatest\sinformation virtualserver_platform=Linux virtualserver_version=3.11.0\s[Build:\s1578903157] virtualserver_maxclients=32 virtualserver_created=1571572631 virtualserver_codec_encryption_mode=2 virtualserver_hostmessage virtualserver_hostmessage_mode=0 virtualserver_default_server_group=8 virtualserver_default_channel_group=8 virtualserver_hostbanner_url virtualserver_hostbanner_gfx_url virtualserver_hostbanner_gfx_interval=0 virtualserver_priority_speaker_dimm_modificator=-18.0000 virtualserver_id=1 virtualserver_hostbutton_tooltip virtualserver_hostbutton_url virtualserver_hostbutton_gfx_url virtualserver_name_phonetic virtualserver_ip=0.0.0.0,\s:: virtualserver_ask_for_privilegekey=0 virtualserver_hostbanner_mode=0 virtualserver_channel_temp_delete_delay_default=0 virtualserver_nickname client_nickname=TeamSpeakUser client_version=3.?.?\s[Build:\s5680278000] client_platform=Windows client_input_muted=0 client_output_muted=0 client_outputonly_muted=0 client_input_hardware=1 client_output_hardware=1 client_default_channel client_default_channel_password client_server_password client_meta_data client_version_sign=DX5NIYLvfJEUjuIbCidnoeozxIDRRkpq3I9vVMBmE9L2qnekOoBzSenkzsg2lC9CMv8K5hkEzhr2TYUYSwUXCg== client_security_hash client_key_offset=354 client_away=0 client_away_message client_nickname_phonetic client_default_token client_badges client_myteamspeak_id client_integrations client_active_integrations_info client_myteamspeak_avatar client_signed_badges acn=TeamSpeakUser aclid=2 pv=7 client_talk_power=75 client_needed_serverquery_view_power=75 virtualserver_icon_id=0"#;

fn parse_init(msg: &str) -> Result<InMessage, ParseError> {
	let header = OutPacket::new_with_dir(Direction::S2C, Flags::empty(), PacketType::Command);
	InMessage::new(&header.header(), msg.as_bytes())
}

#[test]
fn init_server_fields() {
	match parse_init(INIT) {
		Ok(InMessage::InitServer(m)) => {
			assert_eq!(m.parts().len(), 1);
			let p = m.first();
			assert_eq!(p.name, "TeamSpeak ]I[ Server");
			assert_eq!(p.platform, "Linux");
			assert_eq!(p.max_clients, 32);
			assert_eq!(p.created, 1571572631);
			assert_eq!(p.codec_encryption_mode, 2);
			assert_eq!(p.hostmessage, "");
			assert_eq!(p.hostmessage_mode, 0);
			assert_eq!(p.default_server_group, 8);
			assert_eq!(p.default_channel_group, 8);
			assert_eq!(p.virtual_server_id, 1);
			assert_eq!(p.ips.as_deref(), Some("0.0.0.0, ::"));
			assert_eq!(p.ask_for_privilegekey, false);
			assert_eq!(p.license_type, None);
			assert_eq!(p.hostbanner_gfx_interval, 0);
			assert_eq!(p.priority_speaker_dimm_modificator, "-18.0000");
			assert_eq!(p.icon, IconId(0));
			assert_eq!(p.nickname.as_deref(), Some(""));
			assert_eq!(p.virtual_server_uid, None);
			assert_eq!(p.client_name.as_deref(), Some("TeamSpeakUser"));
			assert_eq!(p.input_hardware_enabled, Some(true));
			assert_eq!(p.client_key_offset, Some(354));
			assert_eq!(p.is_away, Some(false));
			assert_eq!(p.accepted_client_name, "TeamSpeakUser");
			assert_eq!(p.client_id, ClientId(2));
			assert_eq!(p.protocol_version, 7);
			assert_eq!(p.talk_power, 75);
			assert_eq!(p.needed_serverquery_view_power, 75);
		}
		other => panic!("unexpected {:?}", other),
	}
	assert_eq!(parse_init(INIT).unwrap().get_command_name(), "initserver");
}

#[test]
fn init_server_enum_out_of_range() {
	let msg = INIT.replace("virtualserver_codec_encryption_mode=2", "virtualserver_codec_encryption_mode=3");
	match parse_init(&msg) {
		Err(ParseError::InvalidValue { arg, value }) => {
			assert_eq!(arg, "CodecEncryptionMode");
			assert_eq!(value, "3");
		}
		other => panic!("unexpected {:?}", other),
	}
	let msg = INIT.replace("virtualserver_hostbanner_mode=0", "virtualserver_hostbanner_mode=x");
	match parse_init(&msg) {
		Err(ParseError::ParseInt { arg, value }) => {
			assert_eq!(arg, "HostbannerMode");
			assert_eq!(value, "x");
		}
		other => panic!("unexpected {:?}", other),
	}
}

#[test]
fn init_server_duration_out_of_range() {
	let msg = INIT.replace(
		"virtualserver_hostbanner_gfx_interval=0",
		"virtualserver_hostbanner_gfx_interval=+9223372036854776",
	);
	match parse_init(&msg) {
		Err(ParseError::InvalidValue { arg, value }) => {
			assert_eq!(arg, "HostbannerGfxInterval");
			assert_eq!(value, "9223372036854776");
		}
		other => panic!("unexpected {:?}", other),
	}
	let msg = INIT.replace(
		"virtualserver_hostbanner_gfx_interval=0",
		"virtualserver_hostbanner_gfx_interval=-9223372036854775",
	);
	match parse_init(&msg) {
		Ok(InMessage::InitServer(m)) => assert_eq!(m.first().hostbanner_gfx_interval, -9223372036854775),
		other => panic!("unexpected {:?}", other),
	}
}

#[test]
fn init_server_signed_and_wide_numbers() {
	let msg = INIT
		.replace("client_talk_power=75", "client_talk_power=-2147483648")
		.replace("virtualserver_id=1", "virtualserver_id=18446744073709551615")
		.replace("virtualserver_created=1571572631", "virtualserver_created=-5");
	match parse_init(&msg) {
		Ok(InMessage::InitServer(m)) => {
			assert_eq!(m.first().talk_power, -2147483648);
			assert_eq!(m.first().virtual_server_id, 18446744073709551615);
			assert_eq!(m.first().created, -5);
		}
		other => panic!("unexpected {:?}", other),
	}
	let msg = INIT.replace("client_talk_power=75", "client_talk_power=2147483648");
	match parse_init(&msg) {
		Err(ParseError::ParseInt { arg, value }) => {
			assert_eq!(arg, "TalkPower");
			assert_eq!(value, "2147483648");
		}
		other => panic!("unexpected {:?}", other),
	}
	let msg = INIT.replace("pv=7", "pv=65536");
	match parse_init(&msg) {
		Err(ParseError::ParseInt { arg, .. }) => assert_eq!(arg, "ProtocolVersion"),
		other => panic!("unexpected {:?}", other),
	}
}

#[test]
fn init_server_missing_required() {
	let msg = INIT.replace(" acn=TeamSpeakUser", "");
	match parse_init(&msg) {
		Err(ParseError::ParameterNotFound { arg, name }) => {
			assert_eq!(arg, "AcceptedClientName");
			assert_eq!(name, "InitServer");
		}
		other => panic!("unexpected {:?}", other),
	}
}

#[test]
fn init_server_float_text() {
	let msg = INIT.replace(
		"virtualserver_priority_speaker_dimm_modificator=-18.0000",
		"virtualserver_priority_speaker_dimm_modificator=abc",
	);
	match parse_init(&msg) {
		Err(ParseError::ParseFloat { arg, value }) => {
			assert_eq!(arg, "PrioritySpeakerDimmModificator");
			assert_eq!(value, "abc");
		}
		other => panic!("unexpected {:?}", other),
	}
	let msg = INIT.replace(
		"virtualserver_priority_speaker_dimm_modificator=-18.0000",
		"virtualserver_priority_speaker_dimm_modificator=1e3",
	);
	match parse_init(&msg) {
		Ok(InMessage::InitServer(m)) => assert_eq!(m.first().priority_speaker_dimm_modificator, "1e3"),
		other => panic!("unexpected {:?}", other),
	}
}

#[test]
fn init_server_unique_id() {
	let msg = INIT.replace(
		" virtualserver_nickname ",
		" virtualserver_nickname virtualserver_unique_identifier=SwHpaSmzsKpQ4ksmdkMFOMpBhqA= ",
	);
	match parse_init(&msg) {
		Ok(InMessage::InitServer(m)) => assert_eq!(
			m.first().virtual_server_uid,
			Some(vec![
				75, 1, 233, 105, 41, 179, 176, 170, 80, 226, 75, 38, 118, 67, 5, 56, 202, 65, 134, 160
			])
		),
		other => panic!("unexpected {:?}", other),
	}
	let msg = INIT.replace(
		" virtualserver_nickname ",
		" virtualserver_nickname virtualserver_unique_identifier=ServerAdmin ",
	);
	match parse_init(&msg) {
		Ok(InMessage::InitServer(m)) => {
			assert_eq!(m.first().virtual_server_uid, Some(b"ServerAdmin".to_vec()))
		}
		other => panic!("unexpected {:?}", other),
	}
}

#[test]
fn unique_id_text_round_trip() {
	let bytes = [75u8, 1, 233, 105, 41, 179, 176, 170, 80, 226];
	let text = tsclientlib::uid::uid_to_text(&bytes);
	assert_eq!(text, b"SwHpaSmzsKpQ4g==".to_vec());
	assert_eq!(tsclientlib::uid::uid_from_text(&text), bytes.to_vec());
}
