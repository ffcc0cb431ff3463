//! Map-settings decoding: the byte de-masking step that turns the encoded
//! metadata byte string into raw settings bytes, and the bit-level decode of
//! the fixed-layout settings record followed by the map path and creator
//! strings.

use vstd::prelude::*;

use crate::ParseError;
use crate::cursor::Cursor;
use crate::cursor::bit_at;
use crate::cursor::bits_val;
use crate::cursor::zscan;
use crate::lossy_utf8;
use crate::read_zero_terminated;

verus! {

/// Match settings decoded from the de-masked metadata byte string.
pub struct MapMetadata {
    pub map: String,
    pub teams_together: bool,
    pub random_hero: bool,
    pub random_races: bool,
    pub map_explored: bool,
    pub hide_terrain: bool,
    pub always_visible: bool,
    pub speed: u8,
    pub creator: String,
    pub observer_mode: u8,
    pub full_shared_unit_control: bool,
    pub referees: bool,
    pub fixed_teams: bool,
    pub default_visibility: bool,
}

/// The mathematical value of a `MapMetadata`: the same fields with text as
/// character sequences.
pub struct MapMetadataView {
    pub map: Seq<char>,
    pub teams_together: bool,
    pub random_hero: bool,
    pub random_races: bool,
    pub map_explored: bool,
    pub hide_terrain: bool,
    pub always_visible: bool,
    pub speed: u8,
    pub creator: Seq<char>,
    pub observer_mode: u8,
    pub full_shared_unit_control: bool,
    pub referees: bool,
    pub fixed_teams: bool,
    pub default_visibility: bool,
}

impl View for MapMetadata {
    type V = MapMetadataView;

    open spec fn view(&self) -> MapMetadataView {
        MapMetadataView {
            map: self.map@,
            teams_together: self.teams_together,
            random_hero: self.random_hero,
            random_races: self.random_races,
            map_explored: self.map_explored,
            hide_terrain: self.hide_terrain,
            always_visible: self.always_visible,
            speed: self.speed,
            creator: self.creator@,
            observer_mode: self.observer_mode,
            full_shared_unit_control: self.full_shared_unit_control,
            referees: self.referees,
            fixed_teams: self.fixed_teams,
            default_visibility: self.default_visibility,
        }
    }
}

/// One de-masked byte: where the mask bit for bit position `k` is clear the
/// byte is decremented by one (modulo 256), otherwise it passes unchanged.
pub open spec fn demask_byte(mask: u8, b: u8, k: int) -> u8 {
    if mask & (1u8 << (k as u8)) == 0 {
        if b == 0 {
            255u8
        } else {
            (b - 1) as u8
        }
    } else {
        b
    }
}

/// The de-masked settings bytes of an encoded metadata byte string. The input
/// is processed in groups of 8: every byte at an index divisible by 8 is a
/// mask byte and produces no output; each other byte is decoded against the
/// mask bit at position `index % 8` of its group's mask byte.
pub open spec fn demask(d: Seq<u8>) -> Seq<u8>
    decreases d.len(),
{
    if d.len() == 0 {
        Seq::empty()
    } else {
        let i = d.len() - 1;
        if i % 8 == 0 {
            demask(d.drop_last())
        } else {
            demask(d.drop_last()).push(demask_byte(d[8 * (i / 8)], d[i as int], i % 8))
        }
    }
}

/// De-masking is deterministic and pointwise: the input byte at index `i`
/// (with `i % 8 != 0`) lands at output index `i - 1 - i / 8`, decremented by
/// exactly one when its mask bit is clear (wrapping 0 to 255) and unchanged
/// when the mask bit is set.
pub proof fn lemma_demask_pointwise(d: Seq<u8>, i: int)
    requires
        0 <= i < d.len(),
        i % 8 != 0,
    ensures
        ({
            let out = demask(d);
            let j = i - 1 - i / 8;
            let mask = d[8 * (i / 8)];
            &&& 0 <= j < out.len()
            &&& mask & (1u8 << ((i % 8) as u8)) != 0 ==> out[j] == d[i]
            &&& (mask & (1u8 << ((i % 8) as u8)) == 0 && d[i] != 0) ==> out[j] == d[i] - 1
            &&& (mask & (1u8 << ((i % 8) as u8)) == 0 && d[i] == 0) ==> out[j] == 255
        }),
    decreases d.len(),
{
    lemma_demask_len(d);
    let n = d.len() as int;
    if i == n - 1 {
        lemma_demask_len(d.drop_last());
        assert(demask(d.drop_last()).len() == (n - 1) - (n - 1 + 7) / 8);
        assert((n - 1 + 7) / 8 == i / 8 + 1) by {
            assert(i % 8 != 0);
        };
    } else {
        lemma_demask_pointwise(d.drop_last(), i);
        assert(d.drop_last()[i] == d[i]);
        assert(d.drop_last()[8 * (i / 8)] == d[8 * (i / 8)]);
    }
}

/// The de-masked string's length: the input length minus one mask byte per
/// started group of 8.
pub proof fn lemma_demask_len(d: Seq<u8>)
    ensures
        demask(d).len() == d.len() - (d.len() + 7) / 8,
    decreases d.len(),
{
    if d.len() > 0 {
        lemma_demask_len(d.drop_last());
    }
}

/// Decode the masked map-settings byte string into the raw settings bytes.
/// Identical input always yields identical output; each non-mask byte is
/// decremented by exactly one (modulo 256) when its mask bit is clear and
/// passes through unchanged otherwise.
pub fn decode_game_meta_data(data: Vec<u8>) -> (r: Vec<u8>)
    ensures
        r@ == demask(data@),
{
    let mut decoded: Vec<u8> = Vec::new();
    let mut mask: u8 = 0;
    let mut a: usize = 0;
    while a < data.len()
        invariant
            a <= data.len(),
            decoded@ == demask(data@.take(a as int)),
            a > 0 ==> mask == data@[8 * (((a - 1) as int) / 8)],
        decreases data.len() - a,
    {
        if a % 8 == 0 {
            mask = data[a];
        } else {
            if mask & (1u8 << ((a % 8) as u8)) == 0 {
                if data[a] == 0 {
                    decoded.push(255);
                } else {
                    decoded.push(data[a] - 1);
                }
            } else {
                decoded.push(data[a]);
            }
        }
        proof {
            let t = data@.take(a + 1);
            assert(t.drop_last() =~= data@.take(a as int));
            if a % 8 != 0 {
                assert(8 * ((a as int) / 8) == 8 * (((a - 1) as int) / 8));
                assert(t[8 * ((a as int) / 8)] == data@[8 * ((a as int) / 8)]);
                assert(t[a as int] == data@[a as int]);
                assert(decoded@ =~= demask(t));
            } else {
                assert(decoded@ =~= demask(t));
            }
        }
        a = a + 1;
    }
    proof {
        assert(data@.take(data@.len() as int) =~= data@);
    }
    decoded
}

/// The settings record that the raw (de-masked) metadata bytes describe:
/// 1 byte of speed, three bytes of bit-packed flags, 5 reserved bytes, a
/// 4-byte checksum that is read but never verified, then the zero-terminated
/// map path and creator strings. The fixed fields occupy exactly 13 bytes
/// whatever the flag values.
pub open spec fn spec_mapmetadata(d: Seq<u8>) -> Result<MapMetadataView, ParseError> {
    if d.len() < 13 {
        Err(ParseError::UnexpectedEof)
    } else {
        match zscan(d, 13) {
            None => Err(ParseError::UnexpectedEof),
            Some(z1) => match zscan(d, z1 + 1) {
                None => Err(ParseError::UnexpectedEof),
                Some(z2) => Ok(
                    MapMetadataView {
                        speed: d[0],
                        teams_together: bit_at(d[1], 0),
                        observer_mode: bits_val(d, 1, 1, 2) as u8,
                        default_visibility: bit_at(d[1], 3),
                        always_visible: bit_at(d[1], 4),
                        map_explored: bit_at(d[1], 5),
                        hide_terrain: bit_at(d[1], 6),
                        fixed_teams: bits_val(d, 2, 0, 2) == 3,
                        referees: bit_at(d[3], 1),
                        random_races: bit_at(d[3], 5),
                        random_hero: bit_at(d[3], 6),
                        full_shared_unit_control: bit_at(d[3], 7),
                        map: lossy_utf8(d.subrange(13, z1)),
                        creator: lossy_utf8(d.subrange(z1 + 1, z2)),
                    },
                ),
            },
        }
    }
}

/// The bit-field decode consumes a fixed number of bits before the trailing
/// strings, independent of the flag values: the checksum is the byte span
/// `[9, 13)` and both strings are read from byte 13 on.
pub proof fn lemma_metadata_fixed_layout(d: Seq<u8>)
    requires
        spec_mapmetadata(d) is Ok,
    ensures
        d.len() >= 13,
        zscan(d, 13) is Some,
        spec_mapmetadata(d)->Ok_0.map == lossy_utf8(
            d.subrange(13, zscan(d, 13)->Some_0),
        ),
        zscan(d, zscan(d, 13)->Some_0 + 1) is Some,
        spec_mapmetadata(d)->Ok_0.creator == lossy_utf8(
            d.subrange(zscan(d, 13)->Some_0 + 1, zscan(d, zscan(d, 13)->Some_0 + 1)->Some_0),
        ),
{
}

/// Bit-unpack the fixed-layout settings record plus the two zero-terminated
/// strings from the raw (already de-masked) settings bytes.
#[verifier::rlimit(60)]
pub fn read_mapmetadata(metadata: Vec<u8>) -> (r: Result<MapMetadata, ParseError>)
    ensures
        match r {
            Ok(m) => spec_mapmetadata(metadata@) == Ok::<MapMetadataView, ParseError>(m@),
            Err(e) => spec_mapmetadata(metadata@) == Err::<MapMetadataView, ParseError>(e),
        },
{
    let ghost d = metadata@;
    let mut a = Cursor::new(metadata);
    let speed = match a.read_u8() {
        Ok(v) => v,
        Err(e) => { return Err(e) },
    };
    let teams_together = match a.read_bit() {
        Ok(v) => v,
        Err(e) => { return Err(e) },
    };
    let observer_mode = match a.read_bits(2) {
        Ok(v) => v,
        Err(e) => { return Err(e) },
    };
    let default_visibility = match a.read_bit() {
        Ok(v) => v,
        Err(e) => { return Err(e) },
    };
    let always_visible = match a.read_bit() {
        Ok(v) => v,
        Err(e) => { return Err(e) },
    };
    let map_explored = match a.read_bit() {
        Ok(v) => v,
        Err(e) => { return Err(e) },
    };
    let hide_terrain = match a.read_bit() {
        Ok(v) => v,
        Err(e) => { return Err(e) },
    };
    match a.read_bit() {
        Ok(_) => (),
        Err(e) => { return Err(e) },
    };
    let fixed_teams_bits = match a.read_bits(2) {
        Ok(v) => v,
        Err(e) => { return Err(e) },
    };
    let fixed_teams = fixed_teams_bits == 3;
    match a.read_bits(6) {
        Ok(_) => (),
        Err(e) => { return Err(e) },
    };
    match a.read_bit() {
        Ok(_) => (),
        Err(e) => { return Err(e) },
    };
    let referees = match a.read_bit() {
        Ok(v) => v,
        Err(e) => { return Err(e) },
    };
    match a.read_bits(3) {
        Ok(_) => (),
        Err(e) => { return Err(e) },
    };
    let random_races = match a.read_bit() {
        Ok(v) => v,
        Err(e) => { return Err(e) },
    };
    let random_hero = match a.read_bit() {
        Ok(v) => v,
        Err(e) => { return Err(e) },
    };
    let full_shared_unit_control = match a.read_bit() {
        Ok(v) => v,
        Err(e) => { return Err(e) },
    };
    match a.read_bytes(5) {
        Ok(_) => (),
        Err(e) => { return Err(e) },
    };
    match a.read_bytes(4) {
        Ok(_) => (),
        Err(e) => { return Err(e) },
    };
    let map = match read_zero_terminated(&mut a) {
        Ok(v) => v,
        Err(e) => { return Err(e) },
    };
    let creator = match read_zero_terminated(&mut a) {
        Ok(v) => v,
        Err(e) => { return Err(e) },
    };
    Ok(
        MapMetadata {
            speed,
            observer_mode: observer_mode as u8,
            creator,
            map,
            random_hero,
            random_races,
            map_explored,
            hide_terrain,
            always_visible,
            teams_together,
            full_shared_unit_control,
            referees,
            fixed_teams,
            default_visibility,
        },
    )
}

} // verus!
