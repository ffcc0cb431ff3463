//! End-to-end decoding tests over synthetic replay containers.

use std::io::Write;

use w3g_parser::ParseError;
use w3g_parser::parse;

const MAP_PATH: &str =
    "Maps/Download/d57df8794b66784681a0ba4a3295b4aef142fde4/(2)TerenasStand_LV.w3x";

fn push_u16(out: &mut Vec<u8>, v: u16) {
    out.push((v & 0xff) as u8);
    out.push((v >> 8) as u8);
}

fn push_u32(out: &mut Vec<u8>, v: u32) {
    out.push((v & 0xff) as u8);
    out.push(((v >> 8) & 0xff) as u8);
    out.push(((v >> 16) & 0xff) as u8);
    out.push(((v >> 24) & 0xff) as u8);
}

/// Mask-encode a settings byte string: one mask byte before every group of 7
/// payload bytes, each payload byte incremented by one. The mask byte 0x01
/// keeps every payload mask bit clear (so the decoder decrements every byte
/// back) while staying non-zero itself, as the zero-terminated encoding
/// requires.
fn mask_encode(decoded: &[u8]) -> Vec<u8> {
    let mut encoded = Vec::new();
    for chunk in decoded.chunks(7) {
        encoded.push(0x01);
        for b in chunk {
            encoded.push(b + 1);
        }
    }
    encoded
}

/// The de-masked settings bytes: speed, three flag bytes, 5 reserved bytes,
/// a 4-byte checksum, then the map path and creator strings.
fn settings_bytes(map_path: &str, creator: &str) -> Vec<u8> {
    let mut s = Vec::new();
    s.push(2); // speed
    // teams_together=1, observer_mode=10, default_visibility=1, rest clear
    s.push(0b1101_0000);
    // fixed-teams indicator = 11 (enabled)
    s.push(0b1100_0000);
    // referees=1 (bit 1), full shared unit control=1 (bit 7)
    s.push(0b0100_0001);
    for _ in 0..9 {
        s.push(1); // 5 reserved bytes and an unverified 4-byte checksum
    }
    s.extend_from_slice(map_path.as_bytes());
    s.push(0);
    s.extend_from_slice(creator.as_bytes());
    s.push(0);
    s
}

/// The decompressed event buffer: leading bytes, roster, slots and events.
fn game_section(continuation: bool, events: &[u8]) -> Vec<u8> {
    let mut g = Vec::new();
    push_u32(&mut g, 0); // leading reserved field
    g.push(0); // leading reserved byte
    // leading classic player record: id, name, additional-data tag 0
    g.push(1);
    g.extend_from_slice(b"HostPlayer\0");
    g.push(0);
    g.extend_from_slice(b"TestGame\0");
    g.push(0); // empty "private" string
    let encoded = mask_encode(&settings_bytes(MAP_PATH, "Creator"));
    g.extend_from_slice(&encoded);
    g.push(0); // terminator of the masked metadata string
    for _ in 0..3 {
        push_u32(&mut g, 0); // reserved fields
    }
    if continuation {
        g.push(22);
        g.push(2);
        g.extend_from_slice(b"Ally\0");
        g.push(0);
        push_u32(&mut g, 0);
    }
    g.push(25); // end-of-classic-roster sentinel
    g.push(0);
    g.push(0); // 2 reserved bytes
    g.push(2); // slot record count
    for slot in 0..2u8 {
        g.push(slot + 1); // player id
        g.push(0); // reserved
        g.push(2); // status
        g.push(slot); // computer flag
        g.push(slot); // team id
        g.push(slot); // color
        g.push(1); // race flag
        g.push(1); // AI strength
        g.push(100); // handicap
    }
    push_u32(&mut g, 0xdeadbeef); // random seed
    g.push(0);
    g.push(2); // start spot count
    g.extend_from_slice(events);
    g
}

fn deflate(payload: &[u8]) -> Vec<u8> {
    let mut enc =
        flate2::write::ZlibEncoder::new(Vec::new(), flate2::Compression::default());
    enc.write_all(payload).unwrap();
    enc.finish().unwrap()
}

/// A whole container file around one compressed block.
fn container(payload: &[u8]) -> Vec<u8> {
    let compressed = deflate(payload);
    let mut f = Vec::new();
    f.extend_from_slice(b"test replay container\0");
    push_u32(&mut f, 0); // reserved
    push_u32(&mut f, compressed.len() as u32 + 40); // compressed size
    push_u32(&mut f, 1); // header version
    push_u32(&mut f, payload.len() as u32); // decompressed size
    push_u32(&mut f, 1); // block count
    f.extend_from_slice(b"PX3W");
    push_u32(&mut f, 10000); // version
    push_u16(&mut f, 6100); // build number
    push_u16(&mut f, 0); // reserved
    push_u32(&mut f, 360000); // replay length in ms
    push_u32(&mut f, 0); // reserved
    push_u16(&mut f, compressed.len() as u16);
    push_u16(&mut f, 0);
    push_u16(&mut f, payload.len() as u16);
    push_u32(&mut f, 0);
    push_u16(&mut f, 0);
    f.extend_from_slice(&compressed);
    f
}

#[test]
fn end_to_end_sample_decode() {
    let events = [
        0x20, 5, 0x20, 1, 2, 3, 4, b'g', b'g', 0, // chat "gg"
        0x17, 1, 0, 0, 0, 7, 8, 0, 0, 0, 0, 0, 0, 0, // leave game
        0x99, // unrecognized opcode, consumes nothing further
        0x1f, 3, 0, 9, 9, 9, // timeslot with 3 payload bytes
    ];
    let file = container(&game_section(false, &events));
    let p = parse(file).expect("decode should succeed");
    assert_eq!(p.header.header_version, 1);
    assert_eq!(p.subheader.game_identifier, "PX3W");
    assert_eq!(p.subheader.build_no, 6100);
    assert_eq!(p.subheader.replay_length_ms, 360000);
    assert_eq!(p.metadata.map, MAP_PATH);
    assert_eq!(p.metadata.creator, "Creator");
    assert_eq!(p.metadata.map_explored, false);
    assert_eq!(p.metadata.random_hero, false);
    assert_eq!(p.metadata.random_races, false);
    assert_eq!(p.metadata.teams_together, true);
    assert_eq!(p.metadata.observer_mode, 2);
    assert_eq!(p.metadata.fixed_teams, true);
    assert_eq!(p.metadata.referees, true);
    assert_eq!(p.metadata.full_shared_unit_control, true);
    assert_eq!(p.metadata.speed, 2);
    assert_eq!(p.player_records.len(), 1);
    assert_eq!(p.player_records[0].name, "HostPlayer");
    assert_eq!(p.player_records[0].id, 1);
    assert_eq!(p.reforged_player_records.len(), 0);
    assert_eq!(p.slot_records.len(), 2);
    assert_eq!(p.slot_records[0].player_id, 1);
    assert_eq!(p.slot_records[0].team_id, 0);
    assert_eq!(p.slot_records[0].computer_flag, 0);
    assert_eq!(p.slot_records[1].computer_flag, 1);
    assert_eq!(p.slot_records[1].color, 1);
    assert_eq!(p.slot_records[1].handicap_flag, 100);
}

#[test]
fn classic_continuation_roster_is_exclusive() {
    let file = container(&game_section(true, &[]));
    let p = parse(file).expect("decode should succeed");
    assert_eq!(p.player_records.len(), 2);
    assert_eq!(p.player_records[1].name, "Ally");
    assert_eq!(p.player_records[1].id, 2);
    // the 25 sentinel ended the roster: no reforged records alongside
    assert_eq!(p.reforged_player_records.len(), 0);
}

#[test]
fn reforged_roster_decodes_clan_tags() {
    let mut g = Vec::new();
    push_u32(&mut g, 0);
    g.push(0);
    g.push(1);
    g.extend_from_slice(b"HostPlayer\0");
    g.push(0);
    g.extend_from_slice(b"TestGame\0");
    g.push(0);
    let encoded = mask_encode(&settings_bytes(MAP_PATH, "Creator"));
    g.extend_from_slice(&encoded);
    g.push(0);
    for _ in 0..3 {
        push_u32(&mut g, 0);
    }
    // a byte that is neither 22 nor 25 starts the reforged branch
    g.push(7);
    g.extend_from_slice(&[0; 11]); // with the 7 above: 12 reserved bytes
    g.push(1); // lookahead byte, not 25: one more record follows
    let record = {
        let mut r = Vec::new();
        r.push(0);
        r.push(9); // unsigned id
        r.push(0);
        r.push(4); // name length
        r.extend_from_slice(b"Rfgd");
        r.push(0);
        r.push(2); // clan length
        r.extend_from_slice(b"CL");
        r
    };
    g.push(record.len() as u8); // declared record length
    g.extend_from_slice(&record);
    g.push(25); // sentinel ends the reforged list
    g.push(0);
    g.push(0);
    g.push(0); // no slot records
    push_u32(&mut g, 1);
    g.push(0);
    g.push(0);
    let p = parse(container(&g)).expect("decode should succeed");
    assert_eq!(p.player_records.len(), 1);
    assert_eq!(p.reforged_player_records.len(), 1);
    assert_eq!(p.reforged_player_records[0].id, 9);
    assert_eq!(p.reforged_player_records[0].name, "Rfgd");
    assert_eq!(p.reforged_player_records[0].clan, "CL");
}

#[test]
fn reforged_record_reseeks_to_declared_end() {
    let mut g = Vec::new();
    push_u32(&mut g, 0);
    g.push(0);
    g.push(1);
    g.extend_from_slice(b"HostPlayer\0");
    g.push(0);
    g.extend_from_slice(b"TestGame\0");
    g.push(0);
    let encoded = mask_encode(&settings_bytes(MAP_PATH, "Creator"));
    g.extend_from_slice(&encoded);
    g.push(0);
    for _ in 0..3 {
        push_u32(&mut g, 0);
    }
    g.push(7); // not 22, not 25: the reforged branch
    g.extend_from_slice(&[0; 11]);
    g.push(1); // lookahead byte
    // the record declares 3 bytes beyond its known fields; the decoder must
    // seek past them to the declared end
    let record = [0, 9, 0, 1, b'R', 0, 1, b'C', 0xAA, 0xAB, 0xAC];
    g.push(record.len() as u8);
    g.extend_from_slice(&record);
    g.push(25);
    g.push(0);
    g.push(0);
    g.push(0);
    push_u32(&mut g, 1);
    g.push(0);
    g.push(0);
    let p = parse(container(&g)).expect("decode should succeed");
    assert_eq!(p.reforged_player_records.len(), 1);
    assert_eq!(p.reforged_player_records[0].name, "R");
    assert_eq!(p.reforged_player_records[0].clan, "C");
    assert_eq!(p.slot_records.len(), 0);
}

#[test]
fn container_without_blocks_is_unexpected_eof() {
    // nothing follows the subheader: no blocks, an empty event buffer
    let full = container(&game_section(false, &[]));
    let truncated = full[..62].to_vec();
    assert!(matches!(parse(truncated), Err(ParseError::UnexpectedEof)));
}

#[test]
fn truncated_header_is_unexpected_eof() {
    let full = container(&game_section(false, &[]));
    // cut inside the 16-byte header, splitting a 4-byte field
    let truncated = full[..30].to_vec();
    assert!(matches!(parse(truncated), Err(ParseError::UnexpectedEof)));
}

#[test]
fn truncated_block_content_is_unexpected_eof() {
    let full = container(&game_section(false, &[]));
    let truncated = full[..full.len() - 1].to_vec();
    assert!(matches!(parse(truncated), Err(ParseError::UnexpectedEof)));
}

#[test]
fn truncated_event_stream_is_unexpected_eof() {
    // a leave-game opcode with its 13 payload bytes split off
    let events = [0x17, 1, 0, 0];
    let file = container(&game_section(false, &events));
    assert!(matches!(parse(file), Err(ParseError::UnexpectedEof)));
}

#[test]
fn empty_input_is_unexpected_eof() {
    assert!(matches!(parse(Vec::new()), Err(ParseError::UnexpectedEof)));
}

#[test]
fn corrupt_block_is_decompression_failure() {
    let payload = game_section(false, &[]);
    let mut file = Vec::new();
    file.extend_from_slice(b"test replay container\0");
    push_u32(&mut file, 0);
    push_u32(&mut file, 52);
    push_u32(&mut file, 1);
    push_u32(&mut file, payload.len() as u32);
    push_u32(&mut file, 1);
    file.extend_from_slice(b"PX3W");
    push_u32(&mut file, 10000);
    push_u16(&mut file, 6100);
    push_u16(&mut file, 0);
    push_u32(&mut file, 360000);
    push_u32(&mut file, 0);
    push_u16(&mut file, 4);
    push_u16(&mut file, 0);
    push_u16(&mut file, 4);
    push_u32(&mut file, 0);
    push_u16(&mut file, 0);
    file.extend_from_slice(&[0xAB, 0xCD, 0xEF, 0x01]); // not a zlib stream
    assert!(matches!(parse(file), Err(ParseError::DecompressionFailure)));
}
