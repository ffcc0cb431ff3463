//! Decoder for a game-replay container format: a compressed-block container
//! wrapping a serialized event log plus match metadata (map settings, player
//! roster, slot assignments, and a stream of in-game events).
//!
//! The decoding pipeline is: container/header parsing, block decompression,
//! a byte-masking decode step for map metadata, bit-level field extraction,
//! variable-length roster record decoding, and a tagged-opcode walk of the
//! decompressed event stream. All multi-byte integers are little-endian; all
//! text is zero-terminated and lossily UTF-8 decoded.
#![verifier::loop_isolation(false)]

use vstd::prelude::*;

pub mod container;
pub mod cursor;
pub mod gamedata;
pub mod metadata;
pub mod roster;

use crate::container::Header;
use crate::container::read_blocks;
use crate::container::read_header;
use crate::container::read_subheader;
use crate::container::Subheader;
use crate::container::SubheaderView;
use crate::container::spec_blocks;
use crate::container::spec_header;
use crate::container::spec_inflate_all;
use crate::container::spec_subheader;
use crate::cursor::Cursor;
use crate::cursor::le_u32;
use crate::cursor::zscan;
use crate::gamedata::spec_events;
use crate::metadata::MapMetadata;
use crate::metadata::MapMetadataView;
use crate::metadata::demask;
use crate::metadata::spec_mapmetadata;
use crate::roster::PlayerRecord;
use crate::roster::PlayerRecordView;
use crate::roster::ReforgedPlayerRecord;
use crate::roster::ReforgedPlayerRecordView;
use crate::roster::SlotRecord;
use crate::roster::spec_player_record;
use crate::roster::spec_roster;
use crate::roster::spec_slots;

verus! {

/// The error conditions a decode can end in. Any read past the end of the
/// buffer and any decompression failure aborts the whole decode: no partial
/// result is ever returned.
#[derive(Clone, Copy, PartialEq, Eq, Structural, Debug)]
pub enum ParseError {
    /// A read ran past the end of the buffer.
    UnexpectedEof,
    /// Reserved for text that is not valid UTF-8; text is lossily decoded
    /// instead, so this is never fatal.
    MalformedUtf8,
    /// The inflate codec rejected a data block's content.
    DecompressionFailure,
    /// Reserved for structurally inconsistent headers.
    UnsupportedEncoding,
}

/// The text that lossy UTF-8 decoding yields for a byte sequence.
pub uninterp spec fn lossy_utf8(b: Seq<u8>) -> Seq<char>;

/// Relies on String::from_utf8_lossy: the decoded text is a function of the
/// bytes alone; invalid sequences become replacement characters instead of
/// aborting the decode. Valid UTF-8 passes through unchanged, so an all-ASCII
/// byte sequence decodes to exactly those characters and the empty sequence
/// decodes to the empty string.
#[verifier::external_body]
pub(crate) fn bytes_to_string_lossy(b: &Vec<u8>) -> (r: String)
    ensures
        r@ == lossy_utf8(b@),
        b@.len() == 0 ==> r@.len() == 0,
        (forall|i: int| 0 <= i < b@.len() ==> b@[i] < 128) ==> r@ == b@.map_values(
            |x: u8| x as char,
        ),
{
    String::from_utf8_lossy(b.as_slice()).into_owned()
}

/// The raw bytes up to (excluding) the next zero byte; the zero terminator is
/// consumed as well. With no terminator left in the buffer the read fails and
/// the cursor stops at the buffer end.
pub fn read_data_zeroterminated(buf: &mut Cursor) -> (r: Result<Vec<u8>, ParseError>)
    requires
        old(buf).wf(),
        old(buf).bit() == 0,
    ensures
        final(buf).wf(),
        final(buf).data() == old(buf).data(),
        final(buf).bit() == 0,
        match zscan(old(buf).data(), old(buf).pos()) {
            Some(z) => {
                &&& r matches Ok(v)
                &&& v@ == old(buf).data().subrange(old(buf).pos(), z)
                &&& final(buf).pos() == z + 1
            },
            None => {
                &&& r == Err::<Vec<u8>, ParseError>(ParseError::UnexpectedEof)
                &&& final(buf).pos() == old(buf).data().len()
            },
        },
{
    let ghost d = old(buf).data();
    let ghost p0 = old(buf).pos();
    let mut buffer: Vec<u8> = Vec::new();
    let mut b = match buf.read_u8() {
        Ok(b) => b,
        Err(e) => { return Err(e) },
    };
    while b != 0
        invariant
            buf.wf(),
            buf.bit() == 0,
            buf.data() == d,
            buf.pos() == p0 + buffer@.len() + 1,
            buf.pos() <= d.len(),
            buffer@ == d.subrange(p0, p0 + buffer@.len()),
            b == d[p0 + buffer@.len()],
            zscan(d, p0) == zscan(d, p0 + buffer@.len()),
        decreases d.len() - buf.pos(),
    {
        buffer.push(b);
        proof {
            assert(buffer@ =~= d.subrange(p0, p0 + buffer@.len()));
            assert(zscan(d, p0 + buffer@.len() - 1) == zscan(d, p0 + buffer@.len()));
        }
        b = match buf.read_u8() {
            Ok(b) => b,
            Err(e) => {
                proof {
                    assert(zscan(d, p0 + buffer@.len()) == zscan(d, p0 + buffer@.len() + 1));
                    assert(zscan(d, p0 + buffer@.len() + 1) is None);
                }
                return Err(e);
            },
        };
    }
    Ok(buffer)
}

/// A zero-terminated byte string, lossily decoded to text. The terminator is
/// consumed, the decoded text excludes it.
pub fn read_zero_terminated(buf: &mut Cursor) -> (r: Result<String, ParseError>)
    requires
        old(buf).wf(),
        old(buf).bit() == 0,
    ensures
        final(buf).wf(),
        final(buf).data() == old(buf).data(),
        final(buf).bit() == 0,
        match zscan(old(buf).data(), old(buf).pos()) {
            Some(z) => {
                &&& r matches Ok(s)
                &&& s@ == lossy_utf8(old(buf).data().subrange(old(buf).pos(), z))
                &&& final(buf).pos() == z + 1
            },
            None => {
                &&& r == Err::<String, ParseError>(ParseError::UnexpectedEof)
                &&& final(buf).pos() == old(buf).data().len()
            },
        },
{
    match read_data_zeroterminated(buf) {
        Ok(v) => Ok(bytes_to_string_lossy(&v)),
        Err(e) => Err(e),
    }
}

/// A text field of a declared byte length, lossily decoded.
pub fn read_string_of_length(buf: &mut Cursor, length: usize) -> (r: Result<String, ParseError>)
    requires
        old(buf).wf(),
        old(buf).bit() == 0,
    ensures
        final(buf).wf(),
        final(buf).data() == old(buf).data(),
        final(buf).bit() == 0,
        old(buf).pos() + length <= old(buf).data().len() ==> {
            &&& r matches Ok(s)
            &&& s@ == lossy_utf8(old(buf).data().subrange(old(buf).pos(), old(buf).pos() + length))
            &&& final(buf).pos() == old(buf).pos() + length
        },
        old(buf).pos() + length > old(buf).data().len() ==> {
            &&& r == Err::<String, ParseError>(ParseError::UnexpectedEof)
            &&& final(buf).pos() == old(buf).pos()
        },
{
    match buf.read_bytes(length) {
        Ok(v) => Ok(bytes_to_string_lossy(&v)),
        Err(e) => Err(e),
    }
}

/// The aggregate decode output returned to the caller on success.
pub struct ParserResult {
    pub header: Header,
    pub subheader: Subheader,
    pub metadata: MapMetadata,
    pub slot_records: Vec<SlotRecord>,
    pub player_records: Vec<PlayerRecord>,
    pub reforged_player_records: Vec<ReforgedPlayerRecord>,
}

/// The mathematical value of a `ParserResult`.
pub struct ParserResultView {
    pub header: Header,
    pub subheader: SubheaderView,
    pub metadata: MapMetadataView,
    pub slot_records: Seq<SlotRecord>,
    pub player_records: Seq<PlayerRecordView>,
    pub reforged_player_records: Seq<ReforgedPlayerRecordView>,
}

impl View for ParserResult {
    type V = ParserResultView;

    open spec fn view(&self) -> ParserResultView {
        ParserResultView {
            header: self.header,
            subheader: self.subheader@,
            metadata: self.metadata@,
            slot_records: self.slot_records@,
            player_records: self.player_records@.map_values(|x: PlayerRecord| x@),
            reforged_player_records: self.reforged_player_records@.map_values(
                |x: ReforgedPlayerRecord| x@,
            ),
        }
    }
}

/// The container stage of a decode: the leading zero-terminated watermark, a
/// reserved 4-byte field, the 16-byte header, the subheader, then the data
/// blocks, each inflated and concatenated in order into the decompressed
/// event buffer.
pub open spec fn spec_container(file: Seq<u8>) -> Result<
    (Header, SubheaderView, Seq<u8>),
    ParseError,
> {
    match zscan(file, 0) {
        None => Err(ParseError::UnexpectedEof),
        Some(z0) => {
            let p = z0 + 1;
            if p + 4 > file.len() {
                Err(ParseError::UnexpectedEof)
            } else if p + 20 > file.len() {
                Err(ParseError::UnexpectedEof)
            } else {
                let header = spec_header(file, p + 4);
                let hp = p + 20;
                if hp + 16 > file.len() {
                    Err(ParseError::UnexpectedEof)
                } else {
                    let sub = spec_subheader(file, hp);
                    let bp: int = if hp + 20 <= file.len() {
                        hp + 20
                    } else {
                        file.len() as int
                    };
                    match spec_blocks(file, bp) {
                        Err(e) => Err(e),
                        Ok(blocks) => match spec_inflate_all(blocks) {
                            Err(e) => Err(e),
                            Ok(out) => Ok((header, sub, out)),
                        },
                    }
                }
            }
        },
    }
}

/// The metadata and roster stage of a decode, over the decompressed event
/// buffer: 5 leading bytes, the mandatory leading player record, the game
/// name and private strings (consumed for cursor synchronization), the
/// masked metadata string de-masked and bit-unpacked, three reserved 4-byte
/// fields, the roster decision, 2 reserved bytes, the declared slot records,
/// and the 4-byte random seed plus two trailing bytes. Yields the decoded
/// values and the position where the event stream begins.
pub open spec fn spec_game_section(out: Seq<u8>) -> Result<
    (
        MapMetadataView,
        Seq<PlayerRecordView>,
        Seq<ReforgedPlayerRecordView>,
        Seq<SlotRecord>,
        int,
    ),
    ParseError,
> {
    if 5 > out.len() {
        Err(ParseError::UnexpectedEof)
    } else {
        match spec_player_record(out, 5) {
            Err(e) => Err(e),
            Ok((lead, q1)) => match zscan(out, q1) {
                None => Err(ParseError::UnexpectedEof),
                Some(g) => match zscan(out, g + 1) {
                    None => Err(ParseError::UnexpectedEof),
                    Some(pv) => match zscan(out, pv + 1) {
                        None => Err(ParseError::UnexpectedEof),
                        Some(z3) => {
                            let encoded = out.subrange(pv + 1, z3);
                            match spec_mapmetadata(demask(encoded)) {
                                Err(e) => Err(e),
                                Ok(meta) => {
                                    let cpos = z3 + 1;
                                    if cpos + 12 > out.len() {
                                        Err(ParseError::UnexpectedEof)
                                    } else {
                                        match spec_roster(out, cpos + 12) {
                                            Err(e) => Err(e),
                                            Ok(((conts, refs), rp)) => {
                                                let sp: int = if rp + 2 <= out.len() {
                                                    rp + 2
                                                } else {
                                                    out.len() as int
                                                };
                                                if sp + 1 > out.len() {
                                                    Err(ParseError::UnexpectedEof)
                                                } else {
                                                    match spec_slots(
                                                        out,
                                                        sp + 1,
                                                        out[sp] as int,
                                                    ) {
                                                        Err(e) => Err(e),
                                                        Ok((slots, ep)) => {
                                                            if ep + 6 > out.len() {
                                                                Err(ParseError::UnexpectedEof)
                                                            } else {
                                                                Ok(
                                                                    (
                                                                        meta,
                                                                        seq![lead] + conts,
                                                                        refs,
                                                                        slots,
                                                                        ep + 6,
                                                                    ),
                                                                )
                                                            }
                                                        },
                                                    }
                                                }
                                            },
                                        }
                                    }
                                },
                            }
                        },
                    },
                },
            },
        }
    }
}

/// The whole decode: the container stage, the metadata and roster stage over
/// the decompressed buffer, and the event stream walked to the end of that
/// buffer.
pub open spec fn spec_parse(file: Seq<u8>) -> Result<ParserResultView, ParseError> {
    match spec_container(file) {
        Err(e) => Err(e),
        Ok((header, sub, out)) => match spec_game_section(out) {
            Err(e) => Err(e),
            Ok((meta, players, refs, slots, ep)) => match spec_events(out, ep) {
                Err(e) => Err(e),
                Ok(_) => Ok(
                    ParserResultView {
                        header,
                        subheader: sub,
                        metadata: meta,
                        slot_records: slots,
                        player_records: players,
                        reforged_player_records: refs,
                    },
                ),
            },
        },
    }
}

/// A buffer cut short anywhere inside the fixed container prelude — the
/// zero-terminated watermark, the reserved field, the 16-byte header or the
/// subheader's required fields — fails the whole decode with
/// `UnexpectedEof`: no partial result exists for such a truncation. Beyond
/// the prelude the same holds read by read: every cursor read past the end
/// returns `UnexpectedEof`, and every decoder stage propagates it, as each
/// stage's failure clause states.
pub proof fn lemma_truncated_prelude_fails(file: Seq<u8>, k: int)
    requires
        0 <= k <= file.len(),
        match zscan(file, 0) {
            Some(z0) => k < z0 + 37,
            None => true,
        },
    ensures
        spec_parse(file.take(k)) == Err::<ParserResultView, ParseError>(
            ParseError::UnexpectedEof,
        ),
{
    crate::cursor::lemma_zscan_take(file, 0, k);
    let t = file.take(k);
    match zscan(file, 0) {
        Some(z0) => {
            if z0 < k {
                assert(zscan(t, 0) == Some(z0));
                assert(t.len() == k < z0 + 37);
                assert(spec_container(t) == Err::<(Header, SubheaderView, Seq<u8>), ParseError>(
                    ParseError::UnexpectedEof,
                ));
            } else {
                assert(zscan(t, 0) is None);
            }
        },
        None => {
            assert(zscan(t, 0) is None);
        },
    }
}

/// For a well-formed container — one whose header declares exactly the
/// number of blocks that the block grammar yields — the decoded header's
/// `compressed_data_blocks` field equals the number of data blocks the
/// container decoder consumes.
pub proof fn lemma_header_counts_blocks(file: Seq<u8>)
    requires
        spec_container(file) is Ok,
        ({
            let p = zscan(file, 0)->Some_0 + 1;
            let bp: int = if p + 40 <= file.len() {
                p + 40
            } else {
                file.len() as int
            };
            &&& le_u32(file, p + 16) == spec_blocks(file, bp)->Ok_0.len()
            &&& spec_blocks(file, bp)->Ok_0.len() < 0x80000000
        }),
    ensures
        ({
            let p = zscan(file, 0)->Some_0 + 1;
            let bp: int = if p + 40 <= file.len() {
                p + 40
            } else {
                file.len() as int
            };
            spec_container(file)->Ok_0.0.compressed_data_blocks as int == spec_blocks(
                file,
                bp,
            )->Ok_0.len()
        }),
{
}

/// Decode the metadata and roster stage from the decompressed event buffer,
/// leaving the cursor at the start of the event stream.
#[verifier::rlimit(100)]
fn read_game_section(mp: &mut Cursor) -> (r: Result<
    (MapMetadata, Vec<PlayerRecord>, Vec<ReforgedPlayerRecord>, Vec<SlotRecord>),
    ParseError,
>)
    requires
        old(mp).wf(),
        old(mp).bit() == 0,
        old(mp).pos() == 0,
    ensures
        final(mp).wf(),
        final(mp).bit() == 0,
        final(mp).data() == old(mp).data(),
        ({
            let og = old(mp).data();
            match r {
                Ok(v) => {
                    &&& spec_game_section(og) matches Ok(sec)
                    &&& v.0@ == sec.0
                    &&& v.1@.map_values(|x: PlayerRecord| x@) == sec.1
                    &&& v.2@.map_values(|x: ReforgedPlayerRecord| x@) == sec.2
                    &&& v.3@ == sec.3
                    &&& final(mp).pos() == sec.4
                },
                Err(e) => spec_game_section(og) == Err::<
                    (
                        MapMetadataView,
                        Seq<PlayerRecordView>,
                        Seq<ReforgedPlayerRecordView>,
                        Seq<SlotRecord>,
                        int,
                    ),
                    ParseError,
                >(e),
            }
        }),
{
    let ghost og = old(mp).data();
    match mp.read_u32() {
        Ok(_) => (),
        Err(e) => { return Err(e) },
    };
    match mp.read_u8() {
        Ok(_) => (),
        Err(e) => { return Err(e) },
    };
    let mut player_records: Vec<PlayerRecord> = Vec::new();
    let record = match crate::roster::read_playerrecord(mp) {
        Ok(v) => v,
        Err(e) => { return Err(e) },
    };
    let ghost leadv = record@;
    player_records.push(record);
    match read_zero_terminated(mp) {
        Ok(_) => (),
        Err(e) => { return Err(e) },
    };
    match read_zero_terminated(mp) {
        Ok(_) => (),
        Err(e) => { return Err(e) },
    };
    let encoded = match read_data_zeroterminated(mp) {
        Ok(v) => v,
        Err(e) => { return Err(e) },
    };
    let decoded = crate::metadata::decode_game_meta_data(encoded);
    let metadata = match crate::metadata::read_mapmetadata(decoded) {
        Ok(v) => v,
        Err(e) => { return Err(e) },
    };
    match mp.read_u32() {
        Ok(_) => (),
        Err(e) => { return Err(e) },
    };
    match mp.read_u32() {
        Ok(_) => (),
        Err(e) => { return Err(e) },
    };
    match mp.read_u32() {
        Ok(_) => (),
        Err(e) => { return Err(e) },
    };
    let (mut conts, reforged_player_records) = match crate::roster::read_roster(mp) {
        Ok(v) => v,
        Err(e) => { return Err(e) },
    };
    let ghost contsv = conts@.map_values(|x: PlayerRecord| x@);
    player_records.append(&mut conts);
    proof {
        assert(player_records@.map_values(|x: PlayerRecord| x@) =~= seq![leadv] + contsv);
    }
    mp.skip(2);
    let slot_record_count = match mp.read_u8() {
        Ok(v) => v,
        Err(e) => { return Err(e) },
    };
    let slot_records = match crate::roster::read_slot_records(mp, slot_record_count) {
        Ok(v) => v,
        Err(e) => { return Err(e) },
    };
    match mp.read_u32() {
        Ok(_) => (),
        Err(e) => { return Err(e) },
    };
    match mp.read_u8() {
        Ok(_) => (),
        Err(e) => { return Err(e) },
    };
    match mp.read_u8() {
        Ok(_) => (),
        Err(e) => { return Err(e) },
    };
    Ok((metadata, player_records, reforged_player_records, slot_records))
}

/// Decode a whole replay container from its raw bytes. On success the result
/// is exactly the value `spec_parse` gives for the input; on failure
/// `spec_parse` fails with the same error and no partial result is returned.
#[verifier::rlimit(100)]
pub fn parse(buffer: Vec<u8>) -> (r: Result<ParserResult, ParseError>)
    ensures
        match r {
            Ok(res) => spec_parse(buffer@) == Ok::<ParserResultView, ParseError>(res@),
            Err(e) => spec_parse(buffer@) == Err::<ParserResultView, ParseError>(e),
        },
{
    let ghost file = buffer@;
    let mut b = Cursor::new(buffer);
    match read_zero_terminated(&mut b) {
        Ok(_) => (),
        Err(e) => { return Err(e) },
    };
    match b.read_i32() {
        Ok(_) => (),
        Err(e) => { return Err(e) },
    };
    let header = match read_header(&mut b) {
        Ok(v) => v,
        Err(e) => { return Err(e) },
    };
    let subheader = match read_subheader(&mut b) {
        Ok(v) => v,
        Err(e) => { return Err(e) },
    };
    let data_blocks = match read_blocks(&mut b) {
        Ok(v) => v,
        Err(e) => { return Err(e) },
    };
    let out = match crate::container::decompress_blocks(&data_blocks) {
        Ok(v) => v,
        Err(e) => { return Err(e) },
    };
    proof {
        assert(spec_container(file) == Ok::<(Header, SubheaderView, Seq<u8>), ParseError>(
            (header, subheader@, out@),
        ));
    }
    let ghost og = out@;
    let mut mp = Cursor::new(out);
    let (metadata, player_records, reforged_player_records, slot_records) =
        match read_game_section(&mut mp) {
        Ok(v) => v,
        Err(e) => { return Err(e) },
    };
    match crate::gamedata::parse(&mut mp) {
        Ok(_) => (),
        Err(e) => { return Err(e) },
    };
    Ok(
        ParserResult {
            header,
            subheader,
            metadata,
            slot_records,
            player_records,
            reforged_player_records,
        },
    )
}

} // verus!

