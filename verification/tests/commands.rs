use tsclientlib::commands::{self, CommandItem};
use tsclientlib::escape::{escape_into, unescape_value};
use tsclientlib::packets::{Direction, Flags, OutCommand, PacketType};

fn arg(name: &str, value: &str) -> CommandItem {
	CommandItem::Argument { name: name.as_bytes().to_vec(), value: value.as_bytes().to_vec() }
}

fn same_items(a: &[CommandItem], b: &[CommandItem]) -> bool {
	a.len() == b.len()
		&& a.iter().zip(b.iter()).all(|(x, y)| match (x, y) {
			(
				CommandItem::Argument { name: n1, value: v1 },
				CommandItem::Argument { name: n2, value: v2 },
			) => n1 == n2 && v1 == v2,
			(CommandItem::NextCommand, CommandItem::NextCommand) => true,
			_ => false,
		})
}

#[test]
fn escape_every_special_byte() {
	let mut out = Vec::new();
	escape_into(&mut out, b"\x0b\x0c\\\t\r\n| /x");
	assert_eq!(out, br"\v\f\\\t\r\n\p\s\/x".to_vec());
}

#[test]
fn unescape_resolves_and_drops_trailing_backslash() {
	assert_eq!(unescape_value(br"a\sb\pc\/d\\e\x"), b"a b|c/d\\ex".to_vec());
	assert_eq!(unescape_value(br"end\"), b"end".to_vec());
	assert_eq!(unescape_value(b""), b"".to_vec());
}

#[test]
fn escape_then_unescape_gives_the_value_back() {
	let value = b"v=0\r\na=x:|/\\s space\x0b\x0c\tend";
	let mut out = Vec::new();
	escape_into(&mut out, value);
	assert_eq!(unescape_value(&out), value.to_vec());
}

#[test]
fn parse_arguments_and_parts() {
	let cmd = commands::parse(b"cmd a=1 c=3 b=2|b=4|b=5");
	assert_eq!(cmd.name, b"cmd");
	let expected = [
		arg("a", "1"),
		arg("c", "3"),
		arg("b", "2"),
		CommandItem::NextCommand,
		arg("b", "4"),
		CommandItem::NextCommand,
		arg("b", "5"),
	];
	assert!(same_items(&cmd.items, &expected));
}

#[test]
fn parse_bare_and_empty_values() {
	let cmd = commands::parse(b"cmd a b= c=1");
	assert!(same_items(&cmd.items, &[arg("a", ""), arg("b", ""), arg("c", "1")]));
}

#[test]
fn parse_without_command_name() {
	// A byte other than a letter, digit or space ends the name early: no name.
	let cmd = commands::parse(b"cmd=1 cid=2");
	assert_eq!(cmd.name, b"");
	assert!(same_items(&cmd.items, &[arg("cmd", "1"), arg("cid", "2")]));
	let cmd = commands::parse(b"channellistfinished");
	assert_eq!(cmd.name, b"channellistfinished");
	assert!(cmd.items.is_empty());
}

#[test]
fn parse_value_with_escapes_and_newline_separator() {
	let cmd = commands::parse(b"sendtextmessage text=\\nmess\\nage\\n return_code=11");
	assert!(same_items(&cmd.items, &[arg("text", "\nmess\nage\n"), arg("return_code", "11")]));
	// A backslash before a separator ends the value.
	let cmd = commands::parse(b"cmd a=x\\ b=1");
	assert!(same_items(&cmd.items, &[arg("a", "x"), arg("b", "1")]));
}

#[test]
fn written_command_reads_back() {
	let mut out = OutCommand::new(Direction::C2S, Flags::empty(), PacketType::Command, "cmd");
	out.write_arg("a", b"with space|pipe");
	out.write_arg("b", b"");
	out.start_new_part();
	out.write_arg("c", b"\\/");
	out.write_arg("d", b"7");
	let content = out.0.content().to_vec();
	assert_eq!(content, br"cmd a=with\sspace\ppipe b|c=\\\/ d=7".to_vec());
	let cmd = commands::parse(&content);
	assert_eq!(cmd.name, b"cmd");
	let expected = [
		arg("a", "with space|pipe"),
		arg("b", ""),
		CommandItem::NextCommand,
		arg("c", "\\/"),
		arg("d", "7"),
	];
	assert!(same_items(&cmd.items, &expected));
}

#[test]
fn first_part_value_takes_last_occurrence_of_first_part() {
	let cmd = commands::parse(b"cmd a=1 b=2 a=3|a=4");
	assert_eq!(cmd.first_part_value(b"a"), Some(b"3".to_vec()));
	assert_eq!(cmd.first_part_value(b"b"), Some(b"2".to_vec()));
	assert_eq!(cmd.first_part_value(b"c"), None);
}

#[test]
fn out_command_header() {
	let out = OutCommand::new(Direction::S2C, Flags::empty(), PacketType::CommandLow, "x");
	let header = out.0.header();
	assert_eq!(header.direction(), Direction::S2C);
	assert_eq!(header.packet_type(), PacketType::CommandLow);
	assert_eq!(header.flags, Flags::empty());
	assert_eq!(out.into_packet().content(), b"x");
}
