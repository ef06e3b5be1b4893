use tsclientlib::messages::{c2s, s2c};
use tsclientlib::packets::{Direction, Flags, InHeader, OutPacket, PacketType};
use tsclientlib::{ClientId, ParseError};

fn server_header() -> InHeader {
	OutPacket::new_with_dir(Direction::S2C, Flags::empty(), PacketType::Command).header()
}

fn parse(msg: &[u8]) -> Result<s2c::InMessage, ParseError> {
	s2c::InMessage::new(&server_header(), msg)
}

#[test]
fn unknown_command() {
	match parse(b"notifyfoo clid=1") {
		Err(ParseError::UnknownCommand(name)) => assert_eq!(name, "notifyfoo"),
		other => panic!("unexpected {:?}", other),
	}
	match parse(b"clid=1") {
		Err(ParseError::UnknownCommand(name)) => assert_eq!(name, ""),
		other => panic!("unexpected {:?}", other),
	}
}

#[test]
fn missing_required_argument() {
	match parse(b"notifystreamstarted clid=1") {
		Err(ParseError::ParameterNotFound { arg, name }) => {
			assert_eq!(arg, "StreamId");
			assert_eq!(name, "StreamStarted");
		}
		other => panic!("unexpected {:?}", other),
	}
}

#[test]
fn bad_values() {
	match parse(b"notifystreamstarted clid=abc id=x") {
		Err(ParseError::ParseInt { arg, value }) => {
			assert_eq!(arg, "ClientId");
			assert_eq!(value, "abc");
		}
		other => panic!("unexpected {:?}", other),
	}
	match parse(b"notifystreamstarted clid=70000 id=x") {
		Err(ParseError::ParseInt { arg, .. }) => assert_eq!(arg, "ClientId"),
		other => panic!("unexpected {:?}", other),
	}
	match parse(b"notifystreamstarted clid=1 id=x audio=2") {
		Err(ParseError::ParseBool { arg, value }) => {
			assert_eq!(arg, "Audio");
			assert_eq!(value, "2");
		}
		other => panic!("unexpected {:?}", other),
	}
	match parse(b"notifystreamstarted clid=1 id=\xff") {
		Err(ParseError::InvalidUtf8) => {}
		other => panic!("unexpected {:?}", other),
	}
}

#[test]
fn utf8_values_are_decoded() {
	match parse("notifystreamstarted clid=1 id=x name=Gr\\süße\\s\u{1F600}".as_bytes()) {
		Ok(s2c::InMessage::StreamStarted(m)) => {
			assert_eq!(m.first().name.as_deref(), Some("Gr üße \u{1F600}"))
		}
		other => panic!("unexpected {:?}", other),
	}
}

#[test]
fn unknown_arguments_are_passed_over_and_later_ones_win() {
	match parse(b"notifystreamclientjoined foo=bar clid=1 id=a clid=2 =x") {
		Ok(s2c::InMessage::StreamClientJoined(m)) => {
			assert_eq!(m.parts().len(), 1);
			assert_eq!(m.first().client_id, ClientId(2));
			assert_eq!(m.first().stream_id, "a");
		}
		other => panic!("unexpected {:?}", other),
	}
}

#[test]
fn wrong_header() {
	let header = InHeader::new(Direction::S2C, Flags::empty(), PacketType::Voice);
	match s2c::InMessage::new(&header, b"notifystreamclientjoined clid=1 id=a") {
		Err(ParseError::WrongPacketType(t)) => assert_eq!(t, PacketType::Voice),
		other => panic!("unexpected {:?}", other),
	}
	let header = InHeader::new(Direction::C2S, Flags::empty(), PacketType::Command);
	match s2c::InMessage::new(&header, b"notifystreamclientjoined clid=1 id=a") {
		Err(ParseError::WrongDirection(d)) => assert_eq!(d, Direction::C2S),
		other => panic!("unexpected {:?}", other),
	}
	match c2s::InMessage::new(&server_header(), b"stopstream id=a reason=1") {
		Err(ParseError::WrongDirection(d)) => assert_eq!(d, Direction::S2C),
		other => panic!("unexpected {:?}", other),
	}
}

#[test]
fn later_parts_take_missing_values_from_the_first() {
	match parse(b"notifystreamstopped clid=1 id=a reason=3|clid=2|id=b") {
		Ok(s2c::InMessage::StreamStopped(m)) => {
			let parts = m.parts();
			assert_eq!(parts.len(), 3);
			assert_eq!((parts[1].client_id, parts[1].stream_id.as_str(), parts[1].reason), (ClientId(2), "a", Some(3)));
			assert_eq!((parts[2].client_id, parts[2].stream_id.as_str(), parts[2].reason), (ClientId(1), "b", Some(3)));
		}
		other => panic!("unexpected {:?}", other),
	}
	// The first part has nothing to inherit from.
	match parse(b"notifystreamstopped clid=1|clid=2 id=a") {
		Err(ParseError::ParameterNotFound { arg, name }) => {
			assert_eq!(arg, "StreamId");
			assert_eq!(name, "StreamStopped");
		}
		other => panic!("unexpected {:?}", other),
	}
}

#[test]
fn a_trailing_pipe_repeats_the_first_part() {
	match parse(b"notifystreamclientjoined clid=5 id=z|") {
		Ok(s2c::InMessage::StreamClientJoined(m)) => {
			let parts = m.parts();
			assert_eq!(parts.len(), 2);
			assert_eq!(parts[1].client_id, ClientId(5));
			assert_eq!(parts[1].stream_id, "z");
		}
		other => panic!("unexpected {:?}", other),
	}
}

#[test]
fn command_names() {
	let m = parse(b"notifystreamsignaling clid=1 id=a json={}").unwrap();
	assert_eq!(m.get_command_name(), "notifystreamsignaling");
	let packet = c2s::OutStopStreamPart { stream_id: "a".into(), reason: 2 }.to_packet();
	let m = c2s::InMessage::new(&packet.0.header(), packet.0.content()).unwrap();
	assert_eq!(m.get_command_name(), "stopstream");
}

fn read_back(packet: &tsclientlib::packets::OutCommand) -> c2s::InMessage {
	assert_eq!(packet.0.direction, Direction::C2S);
	assert_eq!(packet.0.packet_type, PacketType::Command);
	c2s::InMessage::new(&packet.0.header(), packet.0.content()).unwrap()
}

#[test]
fn every_client_message_reads_back() {
	let text = "a b|c/d\\e\r\n\u{e9}";
	match read_back(&c2s::OutRequestStreamInfoPart { client_id: ClientId(65535), stream_id: Some(text.into()) }.to_packet()) {
		c2s::InMessage::RequestStreamInfo(m) => {
			assert_eq!(m.first().client_id, ClientId(65535));
			assert_eq!(m.first().stream_id.as_deref(), Some(text));
		}
		other => panic!("unexpected {:?}", other),
	}
	match read_back(&c2s::OutStreamSignalingPart { client_id: ClientId(0), stream_id: "".into(), json: text.into() }.to_packet()) {
		c2s::InMessage::StreamSignaling(m) => {
			assert_eq!(m.first().client_id, ClientId(0));
			assert_eq!(m.first().stream_id, "");
			assert_eq!(m.first().json, text);
		}
		other => panic!("unexpected {:?}", other),
	}
	match read_back(
		&c2s::OutSetupStreamPart {
			name: Some(text.into()),
			stream_type: Some(u32::MAX),
			mode: None,
			bitrate: Some(0),
			viewer_limit: None,
			audio: Some(true),
			accessibility: 9,
		}
		.to_packet(),
	) {
		c2s::InMessage::SetupStream(m) => {
			let p = m.first();
			assert_eq!(p.name.as_deref(), Some(text));
			assert_eq!((p.stream_type, p.mode, p.bitrate, p.viewer_limit, p.audio, p.accessibility), (Some(u32::MAX), None, Some(0), None, Some(true), 9));
		}
		other => panic!("unexpected {:?}", other),
	}
	match read_back(
		&c2s::OutUpdateStreamPart {
			stream_id: "s".into(),
			name: None,
			stream_type: None,
			mode: Some(3),
			bitrate: None,
			viewer_limit: Some(12),
			audio: Some(false),
			accessibility: Some(2),
		}
		.to_packet(),
	) {
		c2s::InMessage::UpdateStream(m) => {
			let p = m.first();
			assert_eq!(p.stream_id, "s");
			assert_eq!((p.name.clone(), p.stream_type, p.mode, p.bitrate, p.viewer_limit, p.audio, p.accessibility), (None, None, Some(3), None, Some(12), Some(false), Some(2)));
		}
		other => panic!("unexpected {:?}", other),
	}
	match read_back(&c2s::OutStopStreamPart { stream_id: text.into(), reason: 7 }.to_packet()) {
		c2s::InMessage::StopStream(m) => {
			assert_eq!(m.first().stream_id, text);
			assert_eq!(m.first().reason, 7);
		}
		other => panic!("unexpected {:?}", other),
	}
	match read_back(
		&c2s::OutRespondJoinStreamRequestPart { client_id: ClientId(4), stream_id: "x".into(), decision: 0, message: text.into(), offer: "".into() }.to_packet(),
	) {
		c2s::InMessage::RespondJoinStreamRequest(m) => {
			let p = m.first();
			assert_eq!((p.client_id, p.stream_id.as_str(), p.decision, p.message.as_str(), p.offer.as_str()), (ClientId(4), "x", 0, text, ""));
		}
		other => panic!("unexpected {:?}", other),
	}
	match read_back(&c2s::OutRemoveClientFromStreamPart { client_id: ClientId(8), stream_id: "y".into(), reason: 4294967295 }.to_packet()) {
		c2s::InMessage::RemoveClientFromStream(m) => {
			let p = m.first();
			assert_eq!((p.client_id, p.stream_id.as_str(), p.reason), (ClientId(8), "y", 4294967295));
		}
		other => panic!("unexpected {:?}", other),
	}
	match read_back(&c2s::OutJoinStreamRequestPart { stream_id: "j".into(), client_id: ClientId(3), is_remove: true, message: text.into() }.to_packet()) {
		c2s::InMessage::JoinStreamRequest(m) => {
			let p = m.first();
			assert_eq!((p.stream_id.as_str(), p.client_id, p.is_remove, p.message.as_str()), ("j", ClientId(3), true, text));
		}
		other => panic!("unexpected {:?}", other),
	}
}

#[test]
fn several_parts_read_back_with_values_from_the_first() {
	let parts = vec![
		c2s::OutUpdateStreamPart { stream_id: "a".into(), name: Some("n".into()), stream_type: None, mode: Some(1), bitrate: None, viewer_limit: None, audio: None, accessibility: None },
		c2s::OutUpdateStreamPart { stream_id: "b".into(), name: None, stream_type: Some(2), mode: None, bitrate: None, viewer_limit: None, audio: None, accessibility: None },
	];
	let packet = c2s::OutUpdateStreamMessage::new(&parts);
	assert_eq!(packet.0.content(), b"updatestream id=a name=n mode=1|id=b type=2");
	match read_back(&packet) {
		c2s::InMessage::UpdateStream(m) => {
			let ps = m.parts();
			assert_eq!(ps.len(), 2);
			assert_eq!((ps[0].stream_id.as_str(), ps[0].name.as_deref(), ps[0].stream_type, ps[0].mode), ("a", Some("n"), None, Some(1)));
			assert_eq!((ps[1].stream_id.as_str(), ps[1].name.as_deref(), ps[1].stream_type, ps[1].mode), ("b", Some("n"), Some(2), Some(1)));
		}
		other => panic!("unexpected {:?}", other),
	}
	let none: Vec<c2s::OutStopStreamPart> = Vec::new();
	assert_eq!(c2s::OutStopStreamMessage::new(&none).0.content(), b"stopstream");
}

#[test]
fn each_slot_holds_the_last_value_of_its_part_or_that_of_the_first() {
	match parse(b"notifystreamupdated clid=1 id=a name=x name= bitrate=5|clid=2 id=b audio=1 bitrate=7 bitrate=8|clid=3") {
		Ok(s2c::InMessage::StreamUpdated(m)) => {
			let ps = m.parts();
			assert_eq!(ps.len(), 3);
			assert_eq!(ps[0].name.as_deref(), Some(""));
			assert_eq!(ps[0].audio, None);
			assert_eq!(ps[0].bitrate, Some(5));
			assert_eq!(ps[1].client_id, ClientId(2));
			assert_eq!(ps[1].name.as_deref(), Some(""));
			assert_eq!(ps[1].audio, Some(true));
			assert_eq!(ps[1].bitrate, Some(8));
			assert_eq!(ps[2].client_id, ClientId(3));
			assert_eq!(ps[2].stream_id, "a");
			assert_eq!(ps[2].bitrate, Some(5));
			assert_eq!(ps[2].audio, None);
			assert_eq!(ps[2].mode, None);
		}
		other => panic!("unexpected {:?}", other),
	}
}
