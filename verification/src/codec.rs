use vstd::prelude::*;
use vstd::arithmetic::div_mod::{
    lemma_fundamental_div_mod, lemma_mod_bound, lemma_mod_multiples_basic,
    lemma_mod_multiples_vanish, lemma_small_mod,
};

verus! {

// The codec maps one byte plus a 1-based sequence counter to a segment:
// a whole-meter distance in [2, 33] and a whole-degree bearing in [0, 360).
// The low five bits of the byte pick the distance, the high three bits pick
// one of the eight compass octants, and the counter perturbs the bearing so
// that runs of equal bytes do not draw identical segments.

/// Reduce a bearing, given in whole degrees, into the range `[0, 360)`.
pub open spec fn norm360(bearing: int) -> int {
    bearing % 360
}

/// The distance, in meters, that encodes `byte`: its low five bits shifted
/// into the range `[2, 33]`.
pub open spec fn encoded_distance(byte: u8) -> int {
    (byte as int) % 32 + 2
}

/// The unperturbed bearing that encodes `byte`: its high three bits pick one
/// of the eight compass octants `{0, 45, ..., 315}`.
pub open spec fn bearing_base(byte: u8) -> int {
    ((byte as int) / 32) * 45
}

/// The counter's block of one hundred decides the sign of the perturbation.
pub open spec fn even_block(counter: int) -> bool {
    (counter % 100) % 2 == 0
}

/// The bearing, normalized into `[0, 360)`, that encodes `byte` at position
/// `counter`: the octant bearing, pushed forward or backward by 45 degrees
/// per sequence position.
pub open spec fn encoded_bearing(byte: u8, counter: int) -> int {
    if even_block(counter) {
        norm360(bearing_base(byte) + counter * 45)
    } else {
        norm360(bearing_base(byte) - counter * 45)
    }
}

/// Undo the counter perturbation of an observed bearing.
pub open spec fn unperturbed_bearing(bearing: int, counter: int) -> int {
    if even_block(counter) {
        norm360(bearing - counter * 45)
    } else {
        norm360(bearing + counter * 45)
    }
}

/// The low five bits recovered from an observed distance. A distance outside
/// `[2, 33]` never comes from the encoder; it is clamped into the five-bit
/// range so that corrupted input still yields some byte rather than a panic.
pub open spec fn decoded_low_bits(distance: int) -> int {
    if distance < 2 {
        0
    } else if distance > 33 {
        31
    } else {
        distance - 2
    }
}

/// The byte recovered from an observed `(distance, bearing)` segment at
/// position `counter`: the octant of the unperturbed bearing gives the high
/// three bits, the distance gives the low five.
pub open spec fn decoded_byte(distance: int, bearing: int, counter: int) -> int {
    (unperturbed_bearing(bearing, counter) / 45) * 32 + decoded_low_bits(distance)
}

/// Shift used to reduce a possibly negative bearing with unsigned arithmetic:
/// a multiple of 360 that exceeds the magnitude of any `i64`.
const BEARING_SHIFT: i128 = 360 * 25_620_477_880_152_156;

/// Reduce a bearing in whole degrees into `[0, 360)` by adding or removing
/// whole turns.
pub fn normalize_bearing(bearing: i64) -> (r: u16)
    ensures
        r == norm360(bearing as int),
        r < 360,
{
    let shifted: i128 = (bearing as i128) + BEARING_SHIFT;
    let reduced: u128 = (shifted as u128) % 360;
    proof {
        lemma_mod_multiples_vanish(25_620_477_880_152_156, bearing as int, 360);
        lemma_mod_bound(bearing as int, 360);
    }
    reduced as u16
}

/// Relate a counter's full perturbation to its remainder of eight: only
/// `counter % 8` whole octant steps survive the reduction into one turn.
proof fn lemma_perturb_reduction(bearing: int, counter: int)
    requires
        0 <= counter,
    ensures
        norm360(bearing + counter * 45) == (norm360(bearing) + (counter % 8) * 45) % 360,
        norm360(bearing - counter * 45) == (norm360(bearing) + 360 - (counter % 8) * 45) % 360,
{
    let s = counter % 8;
    let q = counter / 8;
    let nb = norm360(bearing);
    let t = bearing / 360;
    lemma_fundamental_div_mod(counter, 8);
    lemma_fundamental_div_mod(bearing, 360);
    lemma_mod_bound(bearing, 360);
    lemma_mod_bound(counter, 8);
    assert(bearing + counter * 45 == 360 * (t + q) + (nb + s * 45));
    lemma_mod_multiples_vanish(t + q, nb + s * 45, 360);
    assert(bearing - counter * 45 == 360 * (t - q - 1) + (nb + 360 - s * 45));
    lemma_mod_multiples_vanish(t - q - 1, nb + 360 - s * 45, 360);
}

/// Encode one byte at 1-based sequence position `counter` as a
/// `(distance, bearing)` segment, distance in meters, bearing in degrees.
pub fn encode_byte_to_dist_and_bear(byte: u8, counter: u64) -> (r: (u8, u16))
    ensures
        r.0 == encoded_distance(byte),
        r.1 == encoded_bearing(byte, counter as int),
        2 <= r.0 <= 33,
        r.1 < 360,
{
    let distance: u8 = (byte % 32) + 2;
    let base: u16 = ((byte / 32) as u16) * 45;
    let k: u16 = ((counter % 8) as u16) * 45;
    proof {
        lemma_perturb_reduction(bearing_base(byte), counter as int);
        lemma_small_mod(bearing_base(byte) as nat, 360);
    }
    let bearing: u16 = if (counter % 100) % 2 == 0 {
        (base + k) % 360
    } else {
        ((base + 360) - k) % 360
    };
    (distance, bearing)
}

/// Decode one observed `(distance, bearing)` segment back into a byte, using
/// the same 1-based sequence position `counter` that encoded it.
pub fn decode_dist_and_bear_to_byte(dist: i64, bear: i64, counter: u64) -> (r: u8)
    ensures
        r as int == decoded_byte(dist as int, bear as int, counter as int),
{
    let nb: u16 = normalize_bearing(bear);
    let k: u16 = ((counter % 8) as u16) * 45;
    proof {
        lemma_perturb_reduction(bear as int, counter as int);
    }
    let ub: u16 = if (counter % 100) % 2 == 0 {
        ((nb + 360) - k) % 360
    } else {
        (nb + k) % 360
    };
    let octant: u16 = ub / 45;
    let low: u16 = if dist < 2 {
        0
    } else if dist > 33 {
        31
    } else {
        (dist as u16) - 2
    };
    (octant * 32 + low) as u8
}

/// Law: the codec is a bijection between bytes and segments. For every byte
/// and every sequence position, decoding the encoded segment at the same
/// position returns the byte.
pub proof fn lemma_codec_bijection(byte: u8, counter: int)
    requires
        1 <= counter,
    ensures
        decoded_byte(encoded_distance(byte), encoded_bearing(byte, counter), counter) == byte as int,
{
    let base = bearing_base(byte);
    let enc = encoded_bearing(byte, counter);
    lemma_mod_bound((byte as int) / 32 * 45, 360);
    if even_block(counter) {
        let m = (base + counter * 45) / 360;
        lemma_fundamental_div_mod(base + counter * 45, 360);
        assert(enc - counter * 45 == 360 * (0 - m) + base);
        lemma_mod_multiples_vanish(0 - m, base, 360);
        lemma_small_mod(base as nat, 360);
    } else {
        let m = (base - counter * 45) / 360;
        lemma_fundamental_div_mod(base - counter * 45, 360);
        assert(enc + counter * 45 == 360 * (0 - m) + base);
        lemma_mod_multiples_vanish(0 - m, base, 360);
        lemma_small_mod(base as nat, 360);
    }
    assert(unperturbed_bearing(enc, counter) == base);
    vstd::arithmetic::div_mod::lemma_div_multiples_vanish((byte as int) / 32, 45);
    lemma_fundamental_div_mod(byte as int, 32);
}

/// The segments that encode a whole byte sequence, the byte at offset `i`
/// taking sequence position `i + 1`.
pub open spec fn encoded_segment_seq(data: Seq<u8>) -> Seq<(int, int)> {
    Seq::new(data.len(), |i: int| (encoded_distance(data[i]), encoded_bearing(data[i], i + 1)))
}

/// The bytes decoded from a sequence of observed segments, the segment at
/// offset `i` taking sequence position `i + 1`.
pub open spec fn decoded_byte_seq(segments: Seq<(int, int)>) -> Seq<u8> {
    Seq::new(segments.len(), |i: int| decoded_byte(segments[i].0, segments[i].1, i + 1) as u8)
}

/// Law: a round trip through the codec is the identity. Decoding the exact
/// segments that encoded a byte sequence returns that sequence.
pub proof fn lemma_round_trip(data: Seq<u8>)
    ensures
        decoded_byte_seq(encoded_segment_seq(data)) == data,
{
    let enc = encoded_segment_seq(data);
    assert forall|i: int| 0 <= i < data.len() implies decoded_byte_seq(enc)[i] == data[i] by {
        lemma_codec_bijection(data[i], i + 1);
    }
    assert(decoded_byte_seq(enc) =~= data);
}

/// One of the eight compass directions spaced 45 degrees apart.
#[derive(Clone, Copy, Debug, PartialEq, Eq, Structural)]
pub enum CompassDirection {
    North,
    NorthEast,
    East,
    SouthEast,
    South,
    SouthWest,
    West,
    NorthWest,
}

/// The compass direction named by a bearing, defined exactly on the eight
/// octant bearings and nowhere else.
pub open spec fn compass_of(bearing: int) -> Option<CompassDirection> {
    if bearing == 0 {
        Some(CompassDirection::North)
    } else if bearing == 45 {
        Some(CompassDirection::NorthEast)
    } else if bearing == 90 {
        Some(CompassDirection::East)
    } else if bearing == 135 {
        Some(CompassDirection::SouthEast)
    } else if bearing == 180 {
        Some(CompassDirection::South)
    } else if bearing == 225 {
        Some(CompassDirection::SouthWest)
    } else if bearing == 270 {
        Some(CompassDirection::West)
    } else if bearing == 315 {
        Some(CompassDirection::NorthWest)
    } else {
        None
    }
}

/// Map a bearing in degrees to its compass direction. Total over the eight
/// valid octant bearings; any other bearing is explicitly rejected, since it
/// can only arise from a violated codec invariant.
pub fn compass_direction(bearing: u16) -> (r: Option<CompassDirection>)
    ensures
        r == compass_of(bearing as int),
{
    if bearing == 0 {
        Some(CompassDirection::North)
    } else if bearing == 45 {
        Some(CompassDirection::NorthEast)
    } else if bearing == 90 {
        Some(CompassDirection::East)
    } else if bearing == 135 {
        Some(CompassDirection::SouthEast)
    } else if bearing == 180 {
        Some(CompassDirection::South)
    } else if bearing == 225 {
        Some(CompassDirection::SouthWest)
    } else if bearing == 270 {
        Some(CompassDirection::West)
    } else if bearing == 315 {
        Some(CompassDirection::NorthWest)
    } else {
        None
    }
}

/// The short name of a compass direction, as it appears in walking
/// instructions.
pub open spec fn compass_abbreviation(direction: CompassDirection) -> Seq<char> {
    match direction {
        CompassDirection::North => "N"@,
        CompassDirection::NorthEast => "NE"@,
        CompassDirection::East => "E"@,
        CompassDirection::SouthEast => "SE"@,
        CompassDirection::South => "S"@,
        CompassDirection::SouthWest => "SW"@,
        CompassDirection::West => "W"@,
        CompassDirection::NorthWest => "NW"@,
    }
}

impl CompassDirection {
    /// The short name of this direction, as it appears in walking
    /// instructions.
    pub fn abbreviation(&self) -> (r: &'static str)
        ensures
            r@ == compass_abbreviation(*self),
    {
        match self {
            CompassDirection::North => "N",
            CompassDirection::NorthEast => "NE",
            CompassDirection::East => "E",
            CompassDirection::SouthEast => "SE",
            CompassDirection::South => "S",
            CompassDirection::SouthWest => "SW",
            CompassDirection::West => "W",
            CompassDirection::NorthWest => "NW",
        }
    }
}

/// Law: an encoded bearing always names a compass direction. The counter
/// perturbation can never push a bearing off the eight octant values, so the
/// direction lookup cannot fail for any byte at any sequence position.
pub proof fn lemma_encoded_bearing_has_direction(byte: u8, counter: int)
    requires
        1 <= counter,
    ensures
        compass_of(encoded_bearing(byte, counter)) is Some,
{
    let base = bearing_base(byte);
    let enc = encoded_bearing(byte, counter);
    lemma_mod_bound(base + counter * 45, 360);
    lemma_mod_bound(base - counter * 45, 360);
    if even_block(counter) {
        let m = (base + counter * 45) / 360;
        lemma_fundamental_div_mod(base + counter * 45, 360);
        assert(enc == 45 * ((byte as int) / 32 + counter - 8 * m));
        lemma_mod_multiples_basic((byte as int) / 32 + counter - 8 * m, 45);
    } else {
        let m = (base - counter * 45) / 360;
        lemma_fundamental_div_mod(base - counter * 45, 360);
        assert(enc == 45 * ((byte as int) / 32 - counter - 8 * m));
        lemma_mod_multiples_basic((byte as int) / 32 - counter - 8 * m, 45);
    }
    assert(enc % 45 == 0 && 0 <= enc < 360);
    let o = enc / 45;
    lemma_fundamental_div_mod(enc, 45);
    lemma_mod_bound(enc, 45);
    assert(enc == 45 * o);
    assert(0 <= o < 8);
}

/// Law: normalization is idempotent, and its result always lies in `[0, 360)`.
pub proof fn lemma_normalize_idempotent(bearing: int)
    ensures
        0 <= norm360(bearing) < 360,
        norm360(norm360(bearing)) == norm360(bearing),
{
    lemma_mod_bound(bearing, 360);
    lemma_small_mod(norm360(bearing) as nat, 360);
}

} // verus!

