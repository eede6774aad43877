use kvs::codec::{decode, encode, same_command, Command};
use kvs::frame::{
    frame_remove, frame_set, has_lit, scan_frame, scan_string, skip_space_from, FrameAt,
};
use kvs::error::KvsError;

fn put(key: &str, value: &str) -> Command {
    Command::Put { key: key.to_string(), value: value.to_string() }
}

fn remove(key: &str) -> Command {
    Command::Remove { key: key.to_string() }
}

fn round_trip(cmd: Command) {
    let bytes = encode(&cmd).unwrap();
    let (back, end) = decode(&bytes).unwrap();
    assert_eq!(end, bytes.len());
    assert!(same_command(&back, &cmd));
}

#[test]
fn set_record_has_the_wire_format() {
    let bytes = encode(&put("key1", "value1")).unwrap();
    assert_eq!(bytes, b"{\"Set\":{\"key\":\"key1\",\"value\":\"value1\"}}".to_vec());
}

#[test]
fn remove_record_has_the_wire_format() {
    let bytes = encode(&remove("key1")).unwrap();
    assert_eq!(bytes, b"{\"Remove\":{\"key\":\"key1\"}}".to_vec());
}

#[test]
fn strings_are_written_as_json_strings() {
    let bytes = encode(&put("a\"b", "c\\d\ne")).unwrap();
    assert_eq!(bytes, b"{\"Set\":{\"key\":\"a\\\"b\",\"value\":\"c\\\\d\\ne\"}}".to_vec());
}

#[test]
fn frames_hold_the_texts_they_are_given() {
    assert_eq!(frame_set(b"\"k\"", b"\"v\""), b"{\"Set\":{\"key\":\"k\",\"value\":\"v\"}}".to_vec());
    assert_eq!(frame_remove(b"\"k\""), b"{\"Remove\":{\"key\":\"k\"}}".to_vec());
    assert_eq!(frame_set(b"", b""), b"{\"Set\":{\"key\":,\"value\":}}".to_vec());
}

#[test]
fn empty_strings_round_trip() {
    round_trip(put("", ""));
    round_trip(remove(""));
}

#[test]
fn quotes_and_backslashes_round_trip() {
    round_trip(put("\"quoted\"", "back\\slash \\\" both"));
    round_trip(remove("\\\\\"\""));
}

#[test]
fn control_characters_round_trip() {
    round_trip(put("tab\there", "line\nfeed\r\u{0}\u{1}\u{8}\u{c}\u{1f}\u{7f}"));
}

#[test]
fn unicode_round_trips() {
    round_trip(put("clé", "värde ключ 値 🦀"));
}

#[test]
fn text_that_looks_like_a_record_round_trips() {
    round_trip(put("{\"Set\":{\"key\":\"a\",\"value\":\"b\"}}", "}}"));
}

#[test]
fn decode_reads_escapes() {
    let (cmd, end) = decode(b"{\"Set\":{\"key\":\"a\\nb\",\"value\":\"\\u0041\\/\"}}").unwrap();
    assert_eq!(end, 41);
    assert!(same_command(&cmd, &put("a\nb", "A/")));
}

#[test]
fn decode_skips_white_space_in_front() {
    let (cmd, end) = decode(b" \n\t\r{\"Remove\":{\"key\":\"k\"}}rest").unwrap();
    assert_eq!(end, 4 + 22);
    assert!(same_command(&cmd, &remove("k")));
}

#[test]
fn decode_reads_the_first_record_only() {
    let mut bytes = encode(&put("a", "1")).unwrap();
    let first = bytes.len();
    bytes.extend(encode(&remove("a")).unwrap());
    let (cmd, end) = decode(&bytes).unwrap();
    assert_eq!(end, first);
    assert!(same_command(&cmd, &put("a", "1")));
    let (cmd, end) = decode(&bytes[first..]).unwrap();
    assert_eq!(end, bytes.len() - first);
    assert!(same_command(&cmd, &remove("a")));
}

#[test]
fn decode_refuses_what_is_no_record() {
    let cases: Vec<&[u8]> = vec![
        b"",
        b"   ",
        b"{",
        b"{}",
        b"null",
        b"{\"Set\":{\"key\":\"k\"}}",
        b"{\"Set\":{\"key\":\"k\",\"value\":\"v\"}",
        b"{\"Set\":{\"key\":\"k\",\"value\":\"v}}",
        b"{\"Set\": {\"key\":\"k\",\"value\":\"v\"}}",
        b"{\"Set\":{\"value\":\"v\",\"key\":\"k\"}}",
        b"{\"Remove\":{\"key\":\"k\",\"value\":\"v\"}}",
        b"{\"Remove\":{\"key\":7}}",
        b"{\"Get\":{\"key\":\"k\"}}",
        b"{\"Remove\":{\"key\":\"k\\\"}}",
    ];
    for bytes in cases {
        assert!(matches!(decode(bytes), Err(KvsError::SerdeErr(_))), "{:?}", bytes);
    }
}

#[test]
fn decode_refuses_a_bad_escape_with_the_parser_s_words() {
    match decode(b"{\"Remove\":{\"key\":\"\\x\"}}") {
        Err(KvsError::SerdeErr(text)) => {
            assert!(!text.is_empty());
            assert_ne!(text, "expected a record");
        }
        other => panic!("{:?}", other),
    }
}

#[test]
fn decode_refuses_bytes_that_are_not_utf8() {
    assert!(matches!(decode(b"{\"Remove\":{\"key\":\"\xff\"}}"), Err(KvsError::SerdeErr(_))));
}

#[test]
fn a_truncated_record_is_no_record() {
    let bytes = encode(&put("key", "value")).unwrap();
    for cut in 0..bytes.len() {
        assert!(decode(&bytes[..cut]).is_err(), "cut at {}", cut);
    }
}

#[test]
fn same_command_compares_kind_and_strings() {
    assert!(same_command(&put("a", "b"), &put("a", "b")));
    assert!(!same_command(&put("a", "b"), &put("a", "c")));
    assert!(!same_command(&put("a", "b"), &put("b", "b")));
    assert!(!same_command(&put("a", "b"), &remove("a")));
    assert!(same_command(&remove("a"), &remove("a")));
    assert!(!same_command(&remove("a"), &remove("b")));
}

#[test]
fn skip_space_stops_at_the_first_other_byte() {
    assert_eq!(skip_space_from(b"  \t\n\rx ", 0), 5);
    assert_eq!(skip_space_from(b"  \t\n\rx ", 5), 5);
    assert_eq!(skip_space_from(b"  \t\n\rx ", 6), 7);
    assert_eq!(skip_space_from(b"", 0), 0);
    assert_eq!(skip_space_from(b"\x0b ", 0), 0);
}

#[test]
fn scan_string_finds_the_closing_quote() {
    assert_eq!(scan_string(b"\"\"", 0), Some(2));
    assert_eq!(scan_string(b"x\"abc\"y", 1), Some(6));
    assert_eq!(scan_string(b"\"a\\\"b\"", 0), Some(6));
    assert_eq!(scan_string(b"\"a\\\\\"b\"", 0), Some(5));
    assert_eq!(scan_string(b"\"abc", 0), None);
    assert_eq!(scan_string(b"\"abc\\", 0), None);
    assert_eq!(scan_string(b"\"abc\\\"", 0), None);
    assert_eq!(scan_string(b"abc\"", 0), None);
    assert_eq!(scan_string(b"\"\"", 2), None);
    assert_eq!(scan_string(b"\"\"", 7), None);
}

#[test]
fn has_lit_compares_in_place() {
    assert!(has_lit(b"abcdef", 2, b"cd"));
    assert!(has_lit(b"abcdef", 0, b""));
    assert!(has_lit(b"abcdef", 6, b""));
    assert!(!has_lit(b"abcdef", 7, b""));
    assert!(!has_lit(b"abcdef", 2, b"ce"));
    assert!(!has_lit(b"abcdef", 5, b"fg"));
    assert!(!has_lit(b"abcdef", usize::MAX, b"a"));
}

#[test]
fn scan_frame_finds_the_parts() {
    assert_eq!(
        scan_frame(b"{\"Set\":{\"key\":\"k\",\"value\":\"val\"}}"),
        Some(FrameAt {
            put: true,
            key_start: 14,
            key_end: 17,
            value_start: 26,
            value_end: 31,
            end: 33,
        })
    );
    assert_eq!(
        scan_frame(b" {\"Remove\":{\"key\":\"k\"}}"),
        Some(FrameAt {
            put: false,
            key_start: 18,
            key_end: 21,
            value_start: 21,
            value_end: 21,
            end: 23,
        })
    );
    assert_eq!(scan_frame(b"{\"Remove\":{\"key\":\"k\"}"), None);
}
