//! Component-level tests: cursor primitives, de-masking, the settings
//! bit-field decode, and the event stream decoder.

use w3g_parser::ParseError;
use w3g_parser::cursor::Cursor;
use w3g_parser::gamedata;
use w3g_parser::gamedata::GameDataEvent;
use w3g_parser::metadata::decode_game_meta_data;
use w3g_parser::metadata::read_mapmetadata;
use w3g_parser::read_zero_terminated;
use w3g_parser::roster::parse_slot_record;
use w3g_parser::roster::read_playerrecord;

#[test]
fn cursor_little_endian_reads() {
    let mut c = Cursor::new(vec![0x01, 0x02, 0x03, 0x04, 0xff, 0xfe, 0xaa]);
    assert_eq!(c.read_u16(), Ok(0x0201));
    assert_eq!(c.read_u16(), Ok(0x0403));
    assert_eq!(c.read_i16(), Ok(-257)); // 0xfeff as a signed value
    assert_eq!(c.read_u8(), Ok(0xaa));
    assert_eq!(c.read_u8(), Err(ParseError::UnexpectedEof));
}

#[test]
fn cursor_u32_and_u64() {
    let mut c = Cursor::new(vec![0x78, 0x56, 0x34, 0x12, 1, 0, 0, 0, 2, 0, 0, 0]);
    assert_eq!(c.read_u32(), Ok(0x12345678));
    assert_eq!(c.read_u64(), Ok(0x0000000200000001));
}

#[test]
fn cursor_split_u16_is_unexpected_eof() {
    let mut c = Cursor::new(vec![0x01]);
    assert_eq!(c.read_u16(), Err(ParseError::UnexpectedEof));
}

#[test]
fn cursor_bits_most_significant_first() {
    // 0b1010_0000: three bits read left to right give 0b101
    let mut c = Cursor::new(vec![0b1010_0000, 0b1100_0000]);
    assert_eq!(c.read_bits(3), Ok(5));
    assert_eq!(c.read_bit(), Ok(false)); // bit 3
    assert_eq!(c.read_bits(4), Ok(0)); // bits 4..8
    assert_eq!(c.read_bits(2), Ok(3)); // next byte starts 11
}

#[test]
fn zero_terminated_text_is_lossy() {
    let mut c = Cursor::new(vec![b'a', b'b', 0, 0xff, 0xfe, 0, b'c']);
    assert_eq!(read_zero_terminated(&mut c), Ok(String::from("ab")));
    // invalid UTF-8 decodes to replacement characters, not an error
    assert_eq!(
        read_zero_terminated(&mut c),
        Ok(String::from("\u{FFFD}\u{FFFD}"))
    );
    assert_eq!(
        read_zero_terminated(&mut c),
        Err(ParseError::UnexpectedEof)
    );
}

#[test]
fn demask_decrements_only_mask_clear_bytes() {
    // mask 0b0000_0010: bit 1 set, bits 2..8 clear. Byte at index 1 passes
    // unchanged; bytes at indexes 2..8 are decremented by one.
    let out = decode_game_meta_data(vec![0b10, 5, 10, 20, 30, 40, 50, 60]);
    assert_eq!(out, vec![5, 9, 19, 29, 39, 49, 59]);
}

#[test]
fn demask_spans_groups_of_eight() {
    // two groups: all mask bits clear in the first, all set in the second
    let out = decode_game_meta_data(vec![0x00, 2, 3, 4, 5, 6, 7, 8, 0xff, 9, 10]);
    assert_eq!(out, vec![1, 2, 3, 4, 5, 6, 7, 9, 10]);
}

#[test]
fn demask_wraps_zero_to_255() {
    let out = decode_game_meta_data(vec![0x00, 0]);
    assert_eq!(out, vec![255]);
}

#[test]
fn demask_of_empty_is_empty() {
    let out = decode_game_meta_data(Vec::new());
    assert_eq!(out, Vec::<u8>::new());
}

#[test]
fn mapmetadata_bit_fields_and_fixed_layout() {
    let mut d = vec![
        3,             // speed
        0b1101_0000,   // teams_together, observer 10, default visibility
        0b1100_0000,   // fixed-teams indicator 11
        0b0100_0001,   // referees, full shared unit control
        9, 9, 9, 9, 9, // reserved
        7, 7, 7, 7,    // checksum, read but unverified
    ];
    d.extend_from_slice(b"map.w3x\0me\0");
    let m = read_mapmetadata(d).expect("settings should decode");
    assert_eq!(m.speed, 3);
    assert_eq!(m.teams_together, true);
    assert_eq!(m.observer_mode, 2);
    assert_eq!(m.default_visibility, true);
    assert_eq!(m.always_visible, false);
    assert_eq!(m.map_explored, false);
    assert_eq!(m.hide_terrain, false);
    assert_eq!(m.fixed_teams, true);
    assert_eq!(m.referees, true);
    assert_eq!(m.random_races, false);
    assert_eq!(m.random_hero, false);
    assert_eq!(m.full_shared_unit_control, true);
    // the strings always start at byte 13, whatever the flags say
    assert_eq!(m.map, "map.w3x");
    assert_eq!(m.creator, "me");
}

#[test]
fn mapmetadata_fixed_teams_compares_not_truncates() {
    // indicator bits 01: a set bit alone must not count as fixed teams
    let mut d = vec![3, 0, 0b0100_0000, 0, 9, 9, 9, 9, 9, 7, 7, 7, 7];
    d.extend_from_slice(b"m\0c\0");
    let m = read_mapmetadata(d).expect("settings should decode");
    assert_eq!(m.fixed_teams, false);
}

#[test]
fn mapmetadata_truncated_is_unexpected_eof() {
    assert!(matches!(
        read_mapmetadata(vec![3, 0, 0]),
        Err(ParseError::UnexpectedEof)
    ));
}

#[test]
fn slot_record_binds_all_nine_bytes_in_order() {
    // player id, reserved, status, computer flag, team, color, race,
    // AI strength, handicap — distinct values pin every field's position
    let mut c = Cursor::new(vec![11, 12, 13, 14, 15, 16, 17, 18, 19]);
    let s = parse_slot_record(&mut c).expect("slot record should decode");
    assert_eq!(s.player_id, 11);
    assert_eq!(s.status, 13);
    assert_eq!(s.computer_flag, 14);
    assert_eq!(s.team_id, 15);
    assert_eq!(s.color, 16);
    assert_eq!(s.race_flag, 17);
    assert_eq!(s.ai_strength, 18);
    assert_eq!(s.handicap_flag, 19);
    assert_eq!(c.read_u8(), Err(ParseError::UnexpectedEof));
}

#[test]
fn playerrecord_additional_data_tags_skip() {
    // tag 8: eight trailing bytes are consumed
    let mut c = Cursor::new(vec![5, b'A', 0, 8, 1, 2, 3, 4, 5, 6, 7, 8, 0xEE]);
    let r = read_playerrecord(&mut c).expect("record should decode");
    assert_eq!(r.id, 5);
    assert_eq!(r.name, "A");
    assert_eq!(c.read_u8(), Ok(0xEE));
    // tag 2: two trailing bytes
    let mut c2 = Cursor::new(vec![6, b'B', 0, 2, 9, 9, 0xDD]);
    let r2 = read_playerrecord(&mut c2).expect("record should decode");
    assert_eq!(r2.name, "B");
    assert_eq!(c2.read_u8(), Ok(0xDD));
    // an unrecognized tag implies no trailing bytes
    let mut c3 = Cursor::new(vec![7, b'C', 0, 77, 0xCC]);
    let r3 = read_playerrecord(&mut c3).expect("record should decode");
    assert_eq!(r3.name, "C");
    assert_eq!(c3.read_u8(), Ok(0xCC));
}

#[test]
fn playerrecord_negative_id_is_signed() {
    let mut c = Cursor::new(vec![0xFF, b'N', 0, 0]);
    let r = read_playerrecord(&mut c).expect("record should decode");
    assert_eq!(r.id, -1);
}

#[test]
fn chat_message_reads_to_terminator_not_declared_length() {
    // declared length 5, flags 0x20, a 4-byte recipient mask, then "gg"
    let bytes = vec![0x20, 5, 0x20, 1, 2, 3, 4, b'g', b'g', 0];
    let mut c = Cursor::new(bytes);
    let events = gamedata::parse(&mut c).expect("stream should decode");
    assert_eq!(events.len(), 1);
    match &events[0] {
        GameDataEvent::ChatMessage { flags, message } => {
            assert_eq!(*flags, 0x20);
            assert_eq!(message, "gg");
        },
        _ => panic!("expected a chat message"),
    }
}

#[test]
fn chat_message_ignores_declared_length_byte() {
    // same record with an absurd declared length: the text is unchanged
    let bytes = vec![0x20, 200, 0x20, 1, 2, 3, 4, b'g', b'g', 0];
    let mut c = Cursor::new(bytes);
    let events = gamedata::parse(&mut c).expect("stream should decode");
    match &events[0] {
        GameDataEvent::ChatMessage { message, .. } => assert_eq!(message, "gg"),
        _ => panic!("expected a chat message"),
    }
}

#[test]
fn chat_message_without_mask_flag_has_no_mask_field() {
    let bytes = vec![0x20, 3, 0x10, b'h', b'i', 0];
    let mut c = Cursor::new(bytes);
    let events = gamedata::parse(&mut c).expect("stream should decode");
    match &events[0] {
        GameDataEvent::ChatMessage { flags, message } => {
            assert_eq!(*flags, 0x10);
            assert_eq!(message, "hi");
        },
        _ => panic!("expected a chat message"),
    }
}

#[test]
fn leave_game_fields_decode() {
    let bytes = vec![0x17, 1, 0, 0, 0, 7, 8, 0, 0, 0, 0, 0, 0, 0];
    let mut c = Cursor::new(bytes);
    let events = gamedata::parse(&mut c).expect("stream should decode");
    assert_eq!(events.len(), 1);
    match &events[0] {
        GameDataEvent::LeaveGame { reason, player_id, result } => {
            assert_eq!(*reason, 1);
            assert_eq!(*player_id, 7);
            assert_eq!(*result, 8);
        },
        _ => panic!("expected a leave-game event"),
    }
}

#[test]
fn timeslot_skips_declared_bytes() {
    let bytes = vec![0x1f, 2, 0, 0xaa, 0xbb, 0x1f, 0, 0];
    let mut c = Cursor::new(bytes);
    let events = gamedata::parse(&mut c).expect("stream should decode");
    assert_eq!(events.len(), 2);
    match &events[0] {
        GameDataEvent::TimeSlot { byte_count } => assert_eq!(*byte_count, 2),
        _ => panic!("expected a timeslot event"),
    }
}

#[test]
fn unknown_opcode_consumes_nothing_further() {
    // unknown opcodes between recognized records are skipped byte by byte
    let bytes = vec![0x99, 0x42, 0x17, 1, 0, 0, 0, 7, 8, 0, 0, 0, 0, 0, 0, 0];
    let mut c = Cursor::new(bytes);
    let events = gamedata::parse(&mut c).expect("stream should decode");
    assert_eq!(events.len(), 1);
}

#[test]
fn fixed_skip_opcodes_consume_their_payloads() {
    let mut bytes = vec![0x1a, 1, 2, 3, 4, 0x1b, 1, 2, 3, 4, 0x1c, 1, 2, 3, 4];
    bytes.extend_from_slice(&[0x23, 0, 0, 0, 0, 0, 0, 0, 0, 0, 0]);
    bytes.extend_from_slice(&[0x2f, 0, 0, 0, 0, 0, 0, 0, 0]);
    bytes.extend_from_slice(&[0x22, 2, 5, 5]);
    let mut c = Cursor::new(bytes);
    let events = gamedata::parse(&mut c).expect("stream should decode");
    assert_eq!(events.len(), 0);
}

#[test]
fn event_stream_truncated_payload_is_unexpected_eof() {
    // a timeslot that declares more payload than remains
    let bytes = vec![0x1f, 9, 0, 1, 2];
    let mut c = Cursor::new(bytes);
    assert!(matches!(gamedata::parse(&mut c), Err(ParseError::UnexpectedEof)));
}
