use tsclientlib::numbers::{format_decimal, parse_unsigned};
use tsclientlib::IconId;

#[test]
fn unsigned_like_the_standard_library() {
	assert_eq!(parse_unsigned(b"5", 10), Some(5));
	assert_eq!(parse_unsigned(b"+5", 10), Some(5));
	assert_eq!(parse_unsigned(b"007", 10), Some(7));
	assert_eq!(parse_unsigned(b"", 10), None);
	assert_eq!(parse_unsigned(b"+", 10), None);
	assert_eq!(parse_unsigned(b"-1", 10), None);
	assert_eq!(parse_unsigned(b"11", 10), None);
	assert_eq!(parse_unsigned(b"1a", 10), None);
	assert_eq!(parse_unsigned(b"4294967295", 0xffff_ffff), Some(4294967295));
	assert_eq!(parse_unsigned(b"4294967296", 0xffff_ffff), None);
	assert_eq!(parse_unsigned(b"18446744073709551615", u64::MAX), Some(u64::MAX));
	assert_eq!(parse_unsigned(b"18446744073709551616", u64::MAX), None);
	for s in ["0", "1", "42", "65535", "4294967295"] {
		assert_eq!(parse_unsigned(s.as_bytes(), u64::MAX), s.parse::<u64>().ok());
	}
}

#[test]
fn decimal_digits() {
	assert_eq!(format_decimal(0), b"0".to_vec());
	assert_eq!(format_decimal(1234), b"1234".to_vec());
	assert_eq!(format_decimal(u64::MAX), u64::MAX.to_string().into_bytes());
	for n in [0u64, 9, 10, 99, 100, 750000, u32::MAX as u64] {
		assert_eq!(parse_unsigned(&format_decimal(n), u64::MAX), Some(n));
	}
}

#[test]
fn icon_ids_fold_onto_32_bits() {
	assert_eq!(IconId::parse(b"0"), Some(IconId(0)));
	assert_eq!(IconId::parse(b"-0"), Some(IconId(0)));
	assert_eq!(IconId::parse(b"-1"), Some(IconId(4294967295)));
	assert_eq!(IconId::parse(b"-2147483648"), Some(IconId(2147483648)));
	assert_eq!(IconId::parse(b"-2147483649"), None);
	assert_eq!(IconId::parse(b"4294967296"), Some(IconId(0)));
	assert_eq!(IconId::parse(b"+7"), Some(IconId(7)));
	assert_eq!(IconId::parse(b"18446744073709551616"), None);
	assert_eq!(IconId::parse(b"-"), None);
	assert_eq!(IconId::parse(b"abc"), None);
	// The negative and the wide form of one id give the same id.
	assert_eq!(IconId::parse(b"-96136942"), IconId::parse(b"4198830354"));
	assert_eq!(IconId::parse(b"18446744073225738240"), IconId::parse(b"3811153920"));
}

#[test]
fn float_texts() {
	for ok in ["-18.0000", "1", "1.", ".5", "+1e5", "1E-5", "2.5e+3", "inf", "-Infinity", "NaN", "0"] {
		assert!(tsclientlib::numbers::is_float_text(ok.as_bytes()), "{}", ok);
	}
	for bad in ["", ".", "e5", "1e", "1e+", "+", "-", " 1", "1 ", "1.2.3", "0x10", "infin", "nana", "1,5"] {
		assert!(!tsclientlib::numbers::is_float_text(bad.as_bytes()), "{}", bad);
	}
}
