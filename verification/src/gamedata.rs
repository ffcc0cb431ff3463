//! Event stream decoding: the decompressed buffer tail is a sequence of
//! opcode-tagged records. One byte selects the payload shape: chat messages,
//! leave-game notices and time slots are decoded; the other recognized
//! opcodes are skipped by their fixed or declared sizes, and an unrecognized
//! opcode consumes nothing beyond itself. Decoding ends exactly when the
//! cursor reaches the buffer length.

use vstd::prelude::*;

use crate::ParseError;
use crate::cursor::Cursor;
use crate::cursor::le_u16;
use crate::cursor::le_u32;
use crate::cursor::zscan;
use crate::lossy_utf8;
use crate::read_zero_terminated;

verus! {

/// One decoded event from the tail stream.
pub enum GameDataEvent {
    /// A chat line: its flags byte and the zero-terminated text. The record
    /// also declares a length byte, but the text is read up to its zero
    /// terminator regardless of that declared length.
    ChatMessage { flags: u8, message: String },
    /// A player leaving: reason code, player id and result code.
    LeaveGame { reason: u32, player_id: u8, result: u32 },
    /// One timeslot/tick record, skipped by its declared byte count.
    TimeSlot { byte_count: u16 },
}

/// The mathematical value of a `GameDataEvent`.
pub enum GameDataEventView {
    ChatMessage { flags: u8, message: Seq<char> },
    LeaveGame { reason: u32, player_id: u8, result: u32 },
    TimeSlot { byte_count: u16 },
}

impl View for GameDataEvent {
    type V = GameDataEventView;

    open spec fn view(&self) -> GameDataEventView {
        match self {
            GameDataEvent::ChatMessage { flags, message } => GameDataEventView::ChatMessage {
                flags: *flags,
                message: message@,
            },
            GameDataEvent::LeaveGame { reason, player_id, result } => GameDataEventView::LeaveGame {
                reason: *reason,
                player_id: *player_id,
                result: *result,
            },
            GameDataEvent::TimeSlot { byte_count } => GameDataEventView::TimeSlot {
                byte_count: *byte_count,
            },
        }
    }
}

/// One dispatch step at opcode position `p`: the event it yields (if any)
/// and the position after the record.
pub open spec fn spec_event_step(d: Seq<u8>, p: int) -> Result<
    (Option<GameDataEventView>, int),
    ParseError,
> {
    let op = d[p];
    if op == 0x1a || op == 0x1b || op == 0x1c {
        if p + 5 <= d.len() {
            Ok((None, p + 5))
        } else {
            Err(ParseError::UnexpectedEof)
        }
    } else if op == 0x1f {
        if p + 3 > d.len() {
            Err(ParseError::UnexpectedEof)
        } else {
            let bc = le_u16(d, p + 1);
            if p + 3 + bc <= d.len() {
                Ok((Some(GameDataEventView::TimeSlot { byte_count: bc }), p + 3 + bc))
            } else {
                Err(ParseError::UnexpectedEof)
            }
        }
    } else if op == 0x17 {
        if p + 14 <= d.len() {
            Ok(
                (
                    Some(
                        GameDataEventView::LeaveGame {
                            reason: le_u32(d, p + 1),
                            player_id: d[p + 5],
                            result: le_u32(d, p + 6),
                        },
                    ),
                    p + 14,
                ),
            )
        } else {
            Err(ParseError::UnexpectedEof)
        }
    } else if op == 0x20 {
        if p + 3 > d.len() {
            Err(ParseError::UnexpectedEof)
        } else {
            let flags = d[p + 2];
            let mstart: int = if flags == 0x20 {
                p + 7
            } else {
                p + 3
            };
            if flags == 0x20 && p + 7 > d.len() {
                Err(ParseError::UnexpectedEof)
            } else {
                match zscan(d, mstart) {
                    None => Err(ParseError::UnexpectedEof),
                    Some(z) => Ok(
                        (
                            Some(
                                GameDataEventView::ChatMessage {
                                    flags,
                                    message: lossy_utf8(d.subrange(mstart, z)),
                                },
                            ),
                            z + 1,
                        ),
                    ),
                }
            }
        }
    } else if op == 0x22 {
        if p + 2 > d.len() {
            Err(ParseError::UnexpectedEof)
        } else {
            if p + 2 + d[p + 1] <= d.len() {
                Ok((None, p + 2 + d[p + 1]))
            } else {
                Err(ParseError::UnexpectedEof)
            }
        }
    } else if op == 0x23 {
        if p + 11 <= d.len() {
            Ok((None, p + 11))
        } else {
            Err(ParseError::UnexpectedEof)
        }
    } else if op == 0x2f {
        if p + 9 <= d.len() {
            Ok((None, p + 9))
        } else {
            Err(ParseError::UnexpectedEof)
        }
    } else {
        Ok((None, p + 1))
    }
}

/// Every successful dispatch moves strictly forward and never past the
/// buffer end: the cursor's forward progress through the event stream.
pub proof fn lemma_event_step_advances(d: Seq<u8>, p: int)
    requires
        0 <= p < d.len(),
        spec_event_step(d, p) is Ok,
    ensures
        p < spec_event_step(d, p)->Ok_0.1 <= d.len(),
{
    if d[p] == 0x20 {
        let flags = d[p + 2];
        let mstart: int = if flags == 0x20 {
            p + 7
        } else {
            p + 3
        };
        crate::cursor::lemma_zscan(d, mstart);
    }
}

/// The events of the stream from `p` to the end of the buffer.
pub open spec fn spec_events(d: Seq<u8>, p: int) -> Result<Seq<GameDataEventView>, ParseError>
    decreases d.len() - p,
{
    if p >= d.len() {
        Ok(Seq::empty())
    } else {
        match spec_event_step(d, p) {
            Err(e) => Err(e),
            Ok((ev, p2)) => {
                if p < p2 <= d.len() {
                    match spec_events(d, p2) {
                        Err(e) => Err(e),
                        Ok(rest) => Ok(
                            match ev {
                                Some(e) => seq![e] + rest,
                                None => rest,
                            },
                        ),
                    }
                } else {
                    Err(ParseError::UnexpectedEof)
                }
            },
        }
    }
}

/// Skip a fixed number of bytes of an event's payload.
pub fn consume_bytes(amount: u32, buf: &mut Cursor) -> (r: Result<(), ParseError>)
    requires
        old(buf).wf(),
        old(buf).bit() == 0,
    ensures
        final(buf).wf(),
        final(buf).bit() == 0,
        final(buf).data() == old(buf).data(),
        old(buf).pos() <= final(buf).pos(),
        old(buf).pos() + amount <= old(buf).data().len() ==> r == Ok::<(), ParseError>(())
            && final(buf).pos() == old(buf).pos() + amount,
        old(buf).pos() + amount > old(buf).data().len() ==> r == Err::<(), ParseError>(
            ParseError::UnexpectedEof,
        ),
{
    match buf.read_bytes(amount as usize) {
        Ok(_) => Ok(()),
        Err(e) => Err(e),
    }
}

/// A record that only declares a 1-byte length and is skipped whole.
pub fn parse_unknown_22(buf: &mut Cursor) -> (r: Result<(), ParseError>)
    requires
        old(buf).wf(),
        old(buf).bit() == 0,
    ensures
        final(buf).wf(),
        final(buf).bit() == 0,
        final(buf).data() == old(buf).data(),
        old(buf).pos() <= final(buf).pos(),
        ({
            let d = old(buf).data();
            let p = old(buf).pos();
            if p + 1 > d.len() {
                r == Err::<(), ParseError>(ParseError::UnexpectedEof)
            } else if p + 1 + d[p] <= d.len() {
                r == Ok::<(), ParseError>(()) && final(buf).pos() == p + 1 + d[p]
            } else {
                r == Err::<(), ParseError>(ParseError::UnexpectedEof)
            }
        }),
{
    let length = match buf.read_u8() {
        Ok(v) => v,
        Err(e) => { return Err(e) },
    };
    match buf.read_bytes(length as usize) {
        Ok(_) => Ok(()),
        Err(e) => Err(e),
    }
}

/// A timeslot/tick record: a 2-byte count of payload bytes, skipped whole.
pub fn parse_timeslot(buf: &mut Cursor) -> (r: Result<GameDataEvent, ParseError>)
    requires
        old(buf).wf(),
        old(buf).bit() == 0,
    ensures
        final(buf).wf(),
        final(buf).bit() == 0,
        final(buf).data() == old(buf).data(),
        old(buf).pos() <= final(buf).pos(),
        ({
            let d = old(buf).data();
            let p = old(buf).pos();
            if p + 2 > d.len() {
                r == Err::<GameDataEvent, ParseError>(ParseError::UnexpectedEof)
            } else if p + 2 + le_u16(d, p) <= d.len() {
                {
                    &&& r matches Ok(ev)
                    &&& ev@ == GameDataEventView::TimeSlot { byte_count: le_u16(d, p) }
                    &&& final(buf).pos() == p + 2 + le_u16(d, p)
                }
            } else {
                r == Err::<GameDataEvent, ParseError>(ParseError::UnexpectedEof)
            }
        }),
{
    let byte_count = match buf.read_u16() {
        Ok(v) => v,
        Err(e) => { return Err(e) },
    };
    match buf.read_bytes(byte_count as usize) {
        Ok(_) => (),
        Err(e) => { return Err(e) },
    };
    Ok(GameDataEvent::TimeSlot { byte_count })
}

/// A leave-game record: 4-byte reason, 1-byte player id, 4-byte result and
/// 4 reserved bytes, all structurally required.
pub fn parse_leave_game(buf: &mut Cursor) -> (r: Result<GameDataEvent, ParseError>)
    requires
        old(buf).wf(),
        old(buf).bit() == 0,
    ensures
        final(buf).wf(),
        final(buf).bit() == 0,
        final(buf).data() == old(buf).data(),
        old(buf).pos() <= final(buf).pos(),
        ({
            let d = old(buf).data();
            let p = old(buf).pos();
            if p + 13 <= d.len() {
                {
                    &&& r matches Ok(ev)
                    &&& ev@ == GameDataEventView::LeaveGame {
                        reason: le_u32(d, p),
                        player_id: d[p + 4],
                        result: le_u32(d, p + 5),
                    }
                    &&& final(buf).pos() == p + 13
                }
            } else {
                r == Err::<GameDataEvent, ParseError>(ParseError::UnexpectedEof)
            }
        }),
{
    let reason = match buf.read_u32() {
        Ok(v) => v,
        Err(e) => { return Err(e) },
    };
    let player_id = match buf.read_u8() {
        Ok(v) => v,
        Err(e) => { return Err(e) },
    };
    let result = match buf.read_u32() {
        Ok(v) => v,
        Err(e) => { return Err(e) },
    };
    match buf.read_bytes(4) {
        Ok(_) => (),
        Err(e) => { return Err(e) },
    };
    Ok(GameDataEvent::LeaveGame { reason, player_id, result })
}

/// A chat record: a declared length byte (advisory only), a flags byte, a
/// 4-byte recipient mask only when the flags byte equals 0x20, then the
/// message as a zero-terminated string independent of the declared length.
pub fn parse_chat_message(buf: &mut Cursor) -> (r: Result<GameDataEvent, ParseError>)
    requires
        old(buf).wf(),
        old(buf).bit() == 0,
    ensures
        final(buf).wf(),
        final(buf).bit() == 0,
        final(buf).data() == old(buf).data(),
        old(buf).pos() <= final(buf).pos(),
        ({
            let d = old(buf).data();
            let p = old(buf).pos();
            if p + 2 > d.len() {
                r == Err::<GameDataEvent, ParseError>(ParseError::UnexpectedEof)
            } else {
                let flags = d[p + 1];
                let mstart: int = if flags == 0x20 {
                    p + 6
                } else {
                    p + 2
                };
                if flags == 0x20 && p + 6 > d.len() {
                    r == Err::<GameDataEvent, ParseError>(ParseError::UnexpectedEof)
                } else {
                    match zscan(d, mstart) {
                        None => r == Err::<GameDataEvent, ParseError>(ParseError::UnexpectedEof),
                        Some(z) => {
                            &&& r matches Ok(ev)
                            &&& ev@ == GameDataEventView::ChatMessage {
                                flags,
                                message: lossy_utf8(d.subrange(mstart, z)),
                            }
                            &&& final(buf).pos() == z + 1
                        },
                    }
                }
            }
        }),
{
    match buf.read_u8() {
        Ok(_) => (),
        Err(e) => { return Err(e) },
    };
    let flags = match buf.read_u8() {
        Ok(v) => v,
        Err(e) => { return Err(e) },
    };
    if flags == 0x20 {
        match buf.read_bytes(4) {
            Ok(_) => (),
            Err(e) => { return Err(e) },
        };
    }
    proof {
        crate::cursor::lemma_zscan(old(buf).data(), buf.pos());
    }
    let message = match read_zero_terminated(buf) {
        Ok(v) => v,
        Err(e) => { return Err(e) },
    };
    Ok(GameDataEvent::ChatMessage { flags, message })
}

/// Walk the remaining buffer as opcode-tagged records and collect the
/// decoded events. The cursor never moves backwards during a dispatch, and
/// a successful walk ends exactly at the buffer length.
#[verifier::rlimit(80)]
pub fn parse(buf: &mut Cursor) -> (r: Result<Vec<GameDataEvent>, ParseError>)
    requires
        old(buf).wf(),
        old(buf).bit() == 0,
    ensures
        final(buf).wf(),
        final(buf).bit() == 0,
        final(buf).data() == old(buf).data(),
        old(buf).pos() <= final(buf).pos(),
        match r {
            Ok(v) => spec_events(old(buf).data(), old(buf).pos()) == Ok::<
                Seq<GameDataEventView>,
                ParseError,
            >(v@.map_values(|ev: GameDataEvent| ev@)) && final(buf).pos() == old(
                buf,
            ).data().len(),
            Err(e) => spec_events(old(buf).data(), old(buf).pos()) == Err::<
                Seq<GameDataEventView>,
                ParseError,
            >(e),
        },
{
    let ghost d = old(buf).data();
    let ghost p0 = old(buf).pos();
    let mut events: Vec<GameDataEvent> = Vec::new();
    while buf.get_pos() < buf.len()
        invariant
            buf.wf(),
            buf.bit() == 0,
            buf.data() == d,
            p0 <= buf.pos() <= d.len(),
            spec_events(d, p0) == (match spec_events(d, buf.pos()) {
                Ok(rest) => Ok::<Seq<GameDataEventView>, ParseError>(
                    events@.map_values(|ev: GameDataEvent| ev@) + rest,
                ),
                Err(e) => Err::<Seq<GameDataEventView>, ParseError>(e),
            }),
        decreases d.len() - buf.pos(),
    {
        let ghost p = buf.pos();
        let ghost oldmap = events@.map_values(|ev: GameDataEvent| ev@);
        let id = match buf.read_u8() {
            Ok(v) => v,
            Err(e) => { return Err(e) },
        };
        let evopt: Option<GameDataEvent> = match id {
            0x1a | 0x1b | 0x1c => {
                match consume_bytes(4, buf) {
                    Ok(_) => None,
                    Err(e) => { return Err(e) },
                }
            },
            0x1f => {
                match parse_timeslot(buf) {
                    Ok(ev) => Some(ev),
                    Err(e) => { return Err(e) },
                }
            },
            0x17 => {
                match parse_leave_game(buf) {
                    Ok(ev) => Some(ev),
                    Err(e) => { return Err(e) },
                }
            },
            0x20 => {
                match parse_chat_message(buf) {
                    Ok(ev) => Some(ev),
                    Err(e) => { return Err(e) },
                }
            },
            0x22 => {
                match parse_unknown_22(buf) {
                    Ok(_) => None,
                    Err(e) => { return Err(e) },
                }
            },
            0x23 => {
                match consume_bytes(10, buf) {
                    Ok(_) => None,
                    Err(e) => { return Err(e) },
                }
            },
            0x2f => {
                match consume_bytes(8, buf) {
                    Ok(_) => None,
                    Err(e) => { return Err(e) },
                }
            },
            _ => { None },
        };
        let ghost evv = match &evopt {
            Some(ev) => Some(ev@),
            None => None::<GameDataEventView>,
        };
        match evopt {
            Some(ev) => { events.push(ev) },
            None => (),
        }
        proof {
            assert(spec_event_step(d, p) == Ok::<(Option<GameDataEventView>, int), ParseError>(
                (evv, buf.pos()),
            ));
            lemma_event_step_advances(d, p);
            match evv {
                Some(e) => {
                    assert(events@.map_values(|ev: GameDataEvent| ev@) =~= oldmap + seq![e]);
                    if spec_events(d, buf.pos()) is Ok {
                        let rest = spec_events(d, buf.pos())->Ok_0;
                        assert(oldmap + (seq![e] + rest) =~= (oldmap + seq![e]) + rest);
                    }
                },
                None => {},
            }
        }
    }
    proof {
        assert(spec_events(d, buf.pos()) == Ok::<Seq<GameDataEventView>, ParseError>(
            Seq::empty(),
        ));
        assert(events@.map_values(|ev: GameDataEvent| ev@) + Seq::<GameDataEventView>::empty()
            =~= events@.map_values(|ev: GameDataEvent| ev@));
    }
    Ok(events)
}

} // verus!
