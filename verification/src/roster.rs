//! Roster decoding: the classic player records, the alternate "reforged"
//! player records (a variant carrying a clan tag, disambiguated purely by
//! sentinel-byte lookahead), and the fixed-size lobby slot records.

use vstd::prelude::*;

use crate::ParseError;
use crate::cursor::Cursor;
use crate::cursor::zscan;
use crate::lossy_utf8;
use crate::read_string_of_length;
use crate::read_zero_terminated;

verus! {

/// One participant in the classic roster encoding.
pub struct PlayerRecord {
    pub id: i8,
    pub name: String,
}

/// The mathematical value of a `PlayerRecord`.
pub struct PlayerRecordView {
    pub id: i8,
    pub name: Seq<char>,
}

impl View for PlayerRecord {
    type V = PlayerRecordView;

    open spec fn view(&self) -> PlayerRecordView {
        PlayerRecordView { id: self.id, name: self.name@ }
    }
}

/// One participant in the alternate roster encoding, with a clan tag.
pub struct ReforgedPlayerRecord {
    pub id: u8,
    pub name: String,
    pub clan: String,
}

/// The mathematical value of a `ReforgedPlayerRecord`.
pub struct ReforgedPlayerRecordView {
    pub id: u8,
    pub name: Seq<char>,
    pub clan: Seq<char>,
}

impl View for ReforgedPlayerRecord {
    type V = ReforgedPlayerRecordView;

    open spec fn view(&self) -> ReforgedPlayerRecordView {
        ReforgedPlayerRecordView { id: self.id, name: self.name@, clan: self.clan@ }
    }
}

/// One lobby slot assignment, a fixed 9-byte record.
pub struct SlotRecord {
    pub team_id: u8,
    pub player_id: u8,
    pub color: u8,
    pub race_flag: u8,
    pub ai_strength: u8,
    pub handicap_flag: u8,
    pub computer_flag: u8,
    pub status: u8,
}

/// A classic player record at `p`: a signed 1-byte id, a zero-terminated
/// name, and a 1-byte "additional data" tag declaring a fixed-size trailing
/// skip (1, 2 or 8 bytes for tags 1, 2 and 8; nothing for any other tag).
/// Yields the record and the position after it.
pub open spec fn spec_player_record(d: Seq<u8>, p: int) -> Result<
    (PlayerRecordView, int),
    ParseError,
> {
    if p + 1 > d.len() {
        Err(ParseError::UnexpectedEof)
    } else {
        match zscan(d, p + 1) {
            None => Err(ParseError::UnexpectedEof),
            Some(z) => {
                let name = lossy_utf8(d.subrange(p + 1, z));
                let q = z + 1;
                if q + 1 > d.len() {
                    Err(ParseError::UnexpectedEof)
                } else {
                    let tag = d[q];
                    let extra: int = if tag == 1 {
                        1
                    } else if tag == 2 {
                        2
                    } else if tag == 8 {
                        8
                    } else {
                        0
                    };
                    if q + 1 + extra > d.len() {
                        Err(ParseError::UnexpectedEof)
                    } else {
                        Ok((PlayerRecordView { id: d[p] as i8, name }, q + 1 + extra))
                    }
                }
            },
        }
    }
}

/// Read one classic player record.
pub fn read_playerrecord(buf: &mut Cursor) -> (r: Result<PlayerRecord, ParseError>)
    requires
        old(buf).wf(),
        old(buf).bit() == 0,
    ensures
        final(buf).wf(),
        final(buf).bit() == 0,
        final(buf).data() == old(buf).data(),
        old(buf).pos() <= final(buf).pos(),
        match r {
            Ok(rec) => {
                &&& spec_player_record(old(buf).data(), old(buf).pos()) matches Ok(pr)
                &&& rec@ == pr.0
                &&& final(buf).pos() == pr.1
                &&& old(buf).pos() < pr.1
            },
            Err(e) => spec_player_record(old(buf).data(), old(buf).pos()) == Err::<
                (PlayerRecordView, int),
                ParseError,
            >(e),
        },
{
    proof {
        crate::cursor::lemma_zscan(old(buf).data(), old(buf).pos() + 1);
    }
    let id = match buf.read_i8() {
        Ok(v) => v,
        Err(e) => { return Err(e) },
    };
    let name = match read_zero_terminated(buf) {
        Ok(v) => v,
        Err(e) => { return Err(e) },
    };
    let add_data = match buf.read_u8() {
        Ok(v) => v,
        Err(e) => { return Err(e) },
    };
    if add_data == 1 {
        match buf.read_u8() {
            Ok(_) => (),
            Err(e) => { return Err(e) },
        };
    } else if add_data == 2 {
        match buf.read_u16() {
            Ok(_) => (),
            Err(e) => { return Err(e) },
        };
    } else if add_data == 8 {
        match buf.read_u64() {
            Ok(_) => (),
            Err(e) => { return Err(e) },
        };
    }
    Ok(PlayerRecord { name, id })
}

/// The classic continuation records from `p`: as long as the byte at the
/// cursor equals 22, one more classic record follows together with a 4-byte
/// reserved field. Yields the records and the position of the first byte that
/// is not 22 (the sentinel the decoder rewinds to).
pub open spec fn spec_classic_records(d: Seq<u8>, p: int) -> Result<
    (Seq<PlayerRecordView>, int),
    ParseError,
>
    decreases d.len() - p,
{
    if p + 1 > d.len() {
        Err(ParseError::UnexpectedEof)
    } else if d[p] != 22 {
        Ok((Seq::empty(), p))
    } else {
        match spec_player_record(d, p + 1) {
            Err(e) => Err(e),
            Ok((rec, q)) => {
                if q + 4 > d.len() {
                    Err(ParseError::UnexpectedEof)
                } else if p < q + 4 {
                    match spec_classic_records(d, q + 4) {
                        Err(e) => Err(e),
                        Ok((rest, s)) => Ok((seq![rec] + rest, s)),
                    }
                } else {
                    Err(ParseError::UnexpectedEof)
                }
            },
        }
    }
}

/// A successful classic-continuation decode stops on a byte other than 22
/// that lies inside the buffer, at or after where it started.
pub proof fn lemma_classic_records_props(d: Seq<u8>, p: int)
    requires
        spec_classic_records(d, p) is Ok,
    ensures
        p <= spec_classic_records(d, p)->Ok_0.1 < d.len(),
        d[spec_classic_records(d, p)->Ok_0.1] != 22,
    decreases d.len() - p,
{
    if p + 1 <= d.len() && d[p] == 22 {
        let (rec, q) = spec_player_record(d, p + 1)->Ok_0;
        lemma_classic_records_props(d, q + 4);
    }
}

/// Read classic continuation records while the next byte equals 22, then
/// rewind onto the sentinel byte that ended the loop.
pub fn read_classic_records(buf: &mut Cursor) -> (r: Result<Vec<PlayerRecord>, ParseError>)
    requires
        old(buf).wf(),
        old(buf).bit() == 0,
    ensures
        final(buf).wf(),
        final(buf).bit() == 0,
        final(buf).data() == old(buf).data(),
        match r {
            Ok(v) => {
                &&& spec_classic_records(old(buf).data(), old(buf).pos()) matches Ok(res)
                &&& v@.map_values(|x: PlayerRecord| x@) == res.0
                &&& final(buf).pos() == res.1
            },
            Err(e) => spec_classic_records(old(buf).data(), old(buf).pos()) == Err::<
                (Seq<PlayerRecordView>, int),
                ParseError,
            >(e),
        },
{
    let ghost d = old(buf).data();
    let ghost p0 = old(buf).pos();
    let mut records: Vec<PlayerRecord> = Vec::new();
    loop
        invariant
            buf.wf(),
            buf.bit() == 0,
            buf.data() == d,
            p0 <= buf.pos() <= d.len(),
            spec_classic_records(d, p0) == (match spec_classic_records(d, buf.pos()) {
                Ok(res) => Ok::<(Seq<PlayerRecordView>, int), ParseError>(
                    (records@.map_values(|x: PlayerRecord| x@) + res.0, res.1),
                ),
                Err(e) => Err::<(Seq<PlayerRecordView>, int), ParseError>(e),
            }),
        decreases d.len() - buf.pos(),
    {
        let ghost p = buf.pos();
        let b = match buf.read_u8() {
            Ok(v) => v,
            Err(e) => { return Err(e) },
        };
        if b != 22 {
            let here = buf.get_pos();
            buf.set_pos(here - 1);
            proof {
                assert(spec_classic_records(d, p) == Ok::<
                    (Seq<PlayerRecordView>, int),
                    ParseError,
                >((Seq::empty(), p)));
                assert(records@.map_values(|x: PlayerRecord| x@) + Seq::<
                    PlayerRecordView,
                >::empty() =~= records@.map_values(|x: PlayerRecord| x@));
            }
            return Ok(records);
        }
        let ghost oldmap = records@.map_values(|x: PlayerRecord| x@);
        let rec = match read_playerrecord(buf) {
            Ok(v) => v,
            Err(e) => { return Err(e) },
        };
        records.push(rec);
        match buf.read_u32() {
            Ok(_) => (),
            Err(e) => { return Err(e) },
        };
        proof {
            let (recv, q) = spec_player_record(d, p + 1)->Ok_0;
            assert(buf.pos() == q + 4);
            assert(spec_classic_records(d, p) == (match spec_classic_records(d, q + 4) {
                Ok(res) => Ok::<(Seq<PlayerRecordView>, int), ParseError>(
                    (seq![recv] + res.0, res.1),
                ),
                Err(e) => Err::<(Seq<PlayerRecordView>, int), ParseError>(e),
            }));
            assert(records@.map_values(|x: PlayerRecord| x@) =~= oldmap + seq![recv]);
            if spec_classic_records(d, q + 4) is Ok {
                let rest = spec_classic_records(d, q + 4)->Ok_0.0;
                assert(oldmap + (seq![recv] + rest) =~= (oldmap + seq![recv]) + rest);
            }
        }
    }
}

/// The reforged records from `p`, having already made `attempts` tries: each
/// iteration first consumes one lookahead byte; a 25 or the 24-attempt cap
/// ends the list. A record declares its own length; after its fixed fields
/// are read the decoder seeks to the declared end offset unconditionally
/// (clamped at the buffer end), the record's resynchronization mechanism.
pub open spec fn spec_reforged(d: Seq<u8>, p: int, attempts: int) -> Result<
    (Seq<ReforgedPlayerRecordView>, int),
    ParseError,
>
    decreases 24 - attempts,
{
    if p + 1 > d.len() {
        Err(ParseError::UnexpectedEof)
    } else if d[p] == 25 || attempts >= 24 {
        Ok((Seq::empty(), p + 1))
    } else if p + 2 > d.len() {
        Err(ParseError::UnexpectedEof)
    } else {
        let record_end = p + 2 + d[p + 1];
        if p + 6 > d.len() {
            Err(ParseError::UnexpectedEof)
        } else {
            let name_len = d[p + 5];
            if p + 6 + name_len > d.len() {
                Err(ParseError::UnexpectedEof)
            } else if p + 8 + name_len > d.len() {
                Err(ParseError::UnexpectedEof)
            } else {
                let clan_len = d[p + 7 + name_len];
                if p + 8 + name_len + clan_len > d.len() {
                    Err(ParseError::UnexpectedEof)
                } else {
                    let rec = ReforgedPlayerRecordView {
                        id: d[p + 3],
                        name: lossy_utf8(d.subrange(p + 6, p + 6 + name_len)),
                        clan: lossy_utf8(
                            d.subrange(p + 8 + name_len, p + 8 + name_len + clan_len),
                        ),
                    };
                    let next: int = if record_end <= d.len() {
                        record_end
                    } else {
                        d.len() as int
                    };
                    match spec_reforged(d, next, attempts + 1) {
                        Err(e) => Err(e),
                        Ok((rest, s)) => Ok((seq![rec] + rest, s)),
                    }
                }
            }
        }
    }
}

/// Read the reforged player records: skip 12 reserved bytes, then decode
/// self-describing records until a 25 lookahead byte or the 24-attempt cap.
#[verifier::rlimit(80)]
pub fn parse_reforged_metadata(buf: &mut Cursor) -> (r: Result<
    Vec<ReforgedPlayerRecord>,
    ParseError,
>)
    requires
        old(buf).wf(),
        old(buf).bit() == 0,
    ensures
        final(buf).wf(),
        final(buf).bit() == 0,
        final(buf).data() == old(buf).data(),
        ({
            let start = if old(buf).pos() + 12 <= old(buf).data().len() {
                old(buf).pos() + 12
            } else {
                old(buf).data().len() as int
            };
            match r {
                Ok(v) => {
                    &&& spec_reforged(old(buf).data(), start, 0) matches Ok(res)
                    &&& v@.map_values(|x: ReforgedPlayerRecord| x@) == res.0
                    &&& final(buf).pos() == res.1
                },
                Err(e) => spec_reforged(old(buf).data(), start, 0) == Err::<
                    (Seq<ReforgedPlayerRecordView>, int),
                    ParseError,
                >(e),
            }
        }),
{
    let ghost d = old(buf).data();
    buf.skip(12);
    let ghost start = buf.pos();
    let mut result: Vec<ReforgedPlayerRecord> = Vec::new();
    let mut attempts: u8 = 0;
    loop
        invariant
            buf.wf(),
            buf.bit() == 0,
            buf.data() == d,
            0 <= buf.pos() <= d.len(),
            attempts <= 24,
            spec_reforged(d, start, 0) == (match spec_reforged(d, buf.pos(), attempts as int) {
                Ok(res) => Ok::<(Seq<ReforgedPlayerRecordView>, int), ParseError>(
                    (result@.map_values(|x: ReforgedPlayerRecord| x@) + res.0, res.1),
                ),
                Err(e) => Err::<(Seq<ReforgedPlayerRecordView>, int), ParseError>(e),
            }),
        decreases 24 - attempts,
    {
        let ghost p = buf.pos();
        let b = match buf.read_u8() {
            Ok(v) => v,
            Err(e) => { return Err(e) },
        };
        if b == 25 || attempts >= 24 {
            proof {
                assert(spec_reforged(d, p, attempts as int) == Ok::<
                    (Seq<ReforgedPlayerRecordView>, int),
                    ParseError,
                >((Seq::empty(), p + 1)));
                assert(result@.map_values(|x: ReforgedPlayerRecord| x@) + Seq::<
                    ReforgedPlayerRecordView,
                >::empty() =~= result@.map_values(|x: ReforgedPlayerRecord| x@));
            }
            return Ok(result);
        }
        let record_length = match buf.read_u8() {
            Ok(v) => v,
            Err(e) => { return Err(e) },
        };
        let p2 = buf.get_pos();
        let record_end: usize = if record_length as usize >= buf.len() - p2 {
            buf.len()
        } else {
            p2 + record_length as usize
        };
        match buf.read_u8() {
            Ok(_) => (),
            Err(e) => { return Err(e) },
        };
        let id = match buf.read_u8() {
            Ok(v) => v,
            Err(e) => { return Err(e) },
        };
        match buf.read_u8() {
            Ok(_) => (),
            Err(e) => { return Err(e) },
        };
        let name_length = match buf.read_u8() {
            Ok(v) => v,
            Err(e) => { return Err(e) },
        };
        let name = match read_string_of_length(buf, name_length as usize) {
            Ok(v) => v,
            Err(e) => { return Err(e) },
        };
        match buf.read_u8() {
            Ok(_) => (),
            Err(e) => { return Err(e) },
        };
        let clan_length = match buf.read_u8() {
            Ok(v) => v,
            Err(e) => { return Err(e) },
        };
        let clan_name = match read_string_of_length(buf, clan_length as usize) {
            Ok(v) => v,
            Err(e) => { return Err(e) },
        };
        buf.set_pos(record_end);
        attempts = attempts + 1;
        let ghost oldmap = result@.map_values(|x: ReforgedPlayerRecord| x@);
        let rec = ReforgedPlayerRecord { id, clan: clan_name, name };
        result.push(rec);
        proof {
            let recv = ReforgedPlayerRecordView {
                id: d[p + 3],
                name: lossy_utf8(d.subrange(p + 6, p + 6 + name_length)),
                clan: lossy_utf8(
                    d.subrange(p + 8 + name_length, p + 8 + name_length + clan_length),
                ),
            };
            assert(rec@ == recv);
            assert(spec_reforged(d, p, (attempts - 1) as int) == (match spec_reforged(
                d,
                buf.pos(),
                attempts as int,
            ) {
                Ok(res) => Ok::<(Seq<ReforgedPlayerRecordView>, int), ParseError>(
                    (seq![recv] + res.0, res.1),
                ),
                Err(e) => Err::<(Seq<ReforgedPlayerRecordView>, int), ParseError>(e),
            }));
            assert(result@.map_values(|x: ReforgedPlayerRecord| x@) =~= oldmap + seq![recv]);
            if spec_reforged(d, buf.pos(), attempts as int) is Ok {
                let rest = spec_reforged(d, buf.pos(), attempts as int)->Ok_0.0;
                assert(oldmap + (seq![recv] + rest) =~= (oldmap + seq![recv]) + rest);
            }
        }
    }
}

/// A slot record at `p`: 9 bytes in the order slot player id, a reserved
/// byte, status, computer flag, team id, color, race flag, AI strength and
/// handicap.
pub open spec fn spec_slot_record(d: Seq<u8>, p: int) -> Result<(SlotRecord, int), ParseError> {
    if p + 9 > d.len() {
        Err(ParseError::UnexpectedEof)
    } else {
        Ok(
            (
                SlotRecord {
                    team_id: d[p + 4],
                    player_id: d[p],
                    color: d[p + 5],
                    race_flag: d[p + 6],
                    ai_strength: d[p + 7],
                    handicap_flag: d[p + 8],
                    computer_flag: d[p + 3],
                    status: d[p + 2],
                },
                p + 9,
            ),
        )
    }
}

/// Read one fixed 9-byte slot record.
pub fn parse_slot_record(buf: &mut Cursor) -> (r: Result<SlotRecord, ParseError>)
    requires
        old(buf).wf(),
        old(buf).bit() == 0,
    ensures
        final(buf).wf(),
        final(buf).bit() == 0,
        final(buf).data() == old(buf).data(),
        old(buf).pos() <= final(buf).pos(),
        match r {
            Ok(s) => {
                &&& spec_slot_record(old(buf).data(), old(buf).pos()) matches Ok(sr)
                &&& s == sr.0
                &&& final(buf).pos() == sr.1
            },
            Err(e) => spec_slot_record(old(buf).data(), old(buf).pos()) == Err::<
                (SlotRecord, int),
                ParseError,
            >(e),
        },
{
    let player_id = match buf.read_u8() {
        Ok(v) => v,
        Err(e) => { return Err(e) },
    };
    match buf.read_u8() {
        Ok(_) => (),
        Err(e) => { return Err(e) },
    };
    let status = match buf.read_u8() {
        Ok(v) => v,
        Err(e) => { return Err(e) },
    };
    let computer_flag = match buf.read_u8() {
        Ok(v) => v,
        Err(e) => { return Err(e) },
    };
    let team_id = match buf.read_u8() {
        Ok(v) => v,
        Err(e) => { return Err(e) },
    };
    let color = match buf.read_u8() {
        Ok(v) => v,
        Err(e) => { return Err(e) },
    };
    let race_flag = match buf.read_u8() {
        Ok(v) => v,
        Err(e) => { return Err(e) },
    };
    let ai_strength = match buf.read_u8() {
        Ok(v) => v,
        Err(e) => { return Err(e) },
    };
    let handicap_flag = match buf.read_u8() {
        Ok(v) => v,
        Err(e) => { return Err(e) },
    };
    Ok(
        SlotRecord {
            team_id,
            player_id,
            color,
            race_flag,
            ai_strength,
            handicap_flag,
            computer_flag,
            status,
        },
    )
}

/// `count` slot records in sequence starting at `p`.
pub open spec fn spec_slots(d: Seq<u8>, p: int, count: int) -> Result<
    (Seq<SlotRecord>, int),
    ParseError,
>
    decreases count,
{
    if count <= 0 {
        Ok((Seq::empty(), p))
    } else {
        match spec_slot_record(d, p) {
            Err(e) => Err(e),
            Ok((s, q)) => match spec_slots(d, q, count - 1) {
                Err(e) => Err(e),
                Ok((rest, e2)) => Ok((seq![s] + rest, e2)),
            },
        }
    }
}

/// Read the declared number of slot records.
pub fn read_slot_records(buf: &mut Cursor, count: u8) -> (r: Result<Vec<SlotRecord>, ParseError>)
    requires
        old(buf).wf(),
        old(buf).bit() == 0,
    ensures
        final(buf).wf(),
        final(buf).bit() == 0,
        final(buf).data() == old(buf).data(),
        match r {
            Ok(v) => {
                &&& spec_slots(old(buf).data(), old(buf).pos(), count as int) matches Ok(res)
                &&& v@ == res.0
                &&& final(buf).pos() == res.1
            },
            Err(e) => spec_slots(old(buf).data(), old(buf).pos(), count as int) == Err::<
                (Seq<SlotRecord>, int),
                ParseError,
            >(e),
        },
{
    let ghost d = old(buf).data();
    let ghost p0 = old(buf).pos();
    let mut slot_records: Vec<SlotRecord> = Vec::new();
    let mut x: u8 = 0;
    while x < count
        invariant
            buf.wf(),
            buf.bit() == 0,
            buf.data() == d,
            x <= count,
            x as int == slot_records@.len(),
            spec_slots(d, p0, count as int) == (match spec_slots(
                d,
                buf.pos(),
                count - x,
            ) {
                Ok(res) => Ok::<(Seq<SlotRecord>, int), ParseError>(
                    (slot_records@ + res.0, res.1),
                ),
                Err(e) => Err::<(Seq<SlotRecord>, int), ParseError>(e),
            }),
        decreases count - x,
    {
        let ghost p = buf.pos();
        let ghost oldseq = slot_records@;
        let s = match parse_slot_record(buf) {
            Ok(v) => v,
            Err(e) => { return Err(e) },
        };
        slot_records.push(s);
        x = x + 1;
        proof {
            assert(spec_slots(d, p, count - x + 1) == (match spec_slots(
                d,
                p + 9,
                count - x,
            ) {
                Ok(res) => Ok::<(Seq<SlotRecord>, int), ParseError>((seq![s] + res.0, res.1)),
                Err(e) => Err::<(Seq<SlotRecord>, int), ParseError>(e),
            }));
            assert(slot_records@ =~= oldseq + seq![s]);
            if spec_slots(d, p + 9, count - x) is Ok {
                let rest = spec_slots(d, p + 9, count - x)->Ok_0.0;
                assert(oldseq + (seq![s] + rest) =~= (oldseq + seq![s]) + rest);
            }
        }
    }
    proof {
        assert(spec_slots(d, buf.pos(), 0) == Ok::<(Seq<SlotRecord>, int), ParseError>(
            (Seq::empty(), buf.pos()),
        ));
        assert(slot_records@ + Seq::<SlotRecord>::empty() =~= slot_records@);
    }
    Ok(slot_records)
}

/// The roster decision from the classic-continuation loop on: the decoder
/// re-reads the sentinel byte that ended the loop; a 25 keeps the reforged
/// list empty, any other value rewinds and decodes reforged records after 12
/// reserved bytes.
pub open spec fn spec_roster(d: Seq<u8>, p: int) -> Result<
    ((Seq<PlayerRecordView>, Seq<ReforgedPlayerRecordView>), int),
    ParseError,
> {
    match spec_classic_records(d, p) {
        Err(e) => Err(e),
        Ok((conts, s)) => {
            if d[s] == 25 {
                Ok(((conts, Seq::empty()), s + 1))
            } else {
                let start: int = if s + 12 <= d.len() {
                    s + 12
                } else {
                    d.len() as int
                };
                match spec_reforged(d, start, 0) {
                    Err(e) => Err(e),
                    Ok((refs, e2)) => Ok(((conts, refs), e2)),
                }
            }
        },
    }
}

/// Decode the roster decision: the classic continuation records, the
/// re-read of the sentinel byte that ended them, and — only where that byte
/// is not 25 — the reforged records after one byte of rewind.
pub fn read_roster(buf: &mut Cursor) -> (r: Result<
    (Vec<PlayerRecord>, Vec<ReforgedPlayerRecord>),
    ParseError,
>)
    requires
        old(buf).wf(),
        old(buf).bit() == 0,
    ensures
        final(buf).wf(),
        final(buf).bit() == 0,
        final(buf).data() == old(buf).data(),
        match r {
            Ok(v) => {
                &&& spec_roster(old(buf).data(), old(buf).pos()) matches Ok(res)
                &&& v.0@.map_values(|x: PlayerRecord| x@) == res.0.0
                &&& v.1@.map_values(|x: ReforgedPlayerRecord| x@) == res.0.1
                &&& final(buf).pos() == res.1
            },
            Err(e) => spec_roster(old(buf).data(), old(buf).pos()) == Err::<
                ((Seq<PlayerRecordView>, Seq<ReforgedPlayerRecordView>), int),
                ParseError,
            >(e),
        },
{
    let ghost d = old(buf).data();
    let ghost p0 = old(buf).pos();
    let conts = match read_classic_records(buf) {
        Ok(v) => v,
        Err(e) => { return Err(e) },
    };
    proof {
        lemma_classic_records_props(d, p0);
    }
    let sentinel = match buf.read_u8() {
        Ok(v) => v,
        Err(e) => { return Err(e) },
    };
    if sentinel != 25 {
        let here = buf.get_pos();
        buf.set_pos(here - 1);
        let refs = match parse_reforged_metadata(buf) {
            Ok(v) => v,
            Err(e) => { return Err(e) },
        };
        Ok((conts, refs))
    } else {
        let refs: Vec<ReforgedPlayerRecord> = Vec::new();
        proof {
            assert(refs@.map_values(|x: ReforgedPlayerRecord| x@) =~= Seq::<
                ReforgedPlayerRecordView,
            >::empty());
        }
        Ok((conts, refs))
    }
}

/// Roster decoding is exclusive. The decoder enters the reforged branch only
/// when the byte ending the classic loop is not 25, so on inputs whose
/// classic continuations are terminated by the 25 sentinel, a file yields
/// either classic continuation records or reforged records, never both.
pub proof fn lemma_roster_exclusive(d: Seq<u8>, p: int)
    requires
        spec_roster(d, p) is Ok,
        spec_classic_records(d, p) matches Ok(res) ==> (res.0.len() > 0 ==> d[res.1] == 25),
    ensures
        spec_roster(d, p)->Ok_0.0.0.len() > 0 ==> spec_roster(d, p)->Ok_0.0.1.len() == 0,
        spec_roster(d, p)->Ok_0.0.1.len() > 0 ==> spec_roster(d, p)->Ok_0.0.0.len() == 0,
{
}

} // verus!
