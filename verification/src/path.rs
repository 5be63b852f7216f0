use crate::codec::{
    compass_of, compass_direction, decoded_byte, encode_byte_to_dist_and_bear, encoded_bearing,
    encoded_distance, decode_dist_and_bear_to_byte, lemma_encoded_bearing_has_direction,
    CompassDirection,
};
use crate::tracker::{advance, measure_bearing, measure_distance, start_point, GeoPoint};
use vstd::prelude::*;

verus! {

// A path is an ordered sequence of points, one more than the bytes it
// encodes: a fixed starting point, then one destination per byte. Encoding
// threads the running position through the tracker; decoding measures each
// consecutive pair of points and inverts the codec on the rounded segment.

/// Why a decode run was rejected before any byte was produced.
#[derive(Clone, Copy, Debug, PartialEq, Eq, Structural)]
pub enum DecodeError {
    /// The document holds no feature at all.
    NoFeatures,
    /// The first feature holds no coordinate, not even a starting point.
    NoCoordinates,
}

impl DecodeError {
    /// A short description of the failure, for reporting before the run
    /// terminates.
    pub fn message(&self) -> (r: &'static str)
        ensures
            *self == DecodeError::NoFeatures ==> r@ == "no features found in this GeoJSON"@,
            *self == DecodeError::NoCoordinates ==> r@ == "no coordinates found in this GeoJSON"@,
    {
        match self {
            DecodeError::NoFeatures => "no features found in this GeoJSON",
            DecodeError::NoCoordinates => "no coordinates found in this GeoJSON",
        }
    }
}

/// Encode a byte sequence as a path that begins at `start`: one point more
/// than there are bytes, each next point one encoded segment onward from the
/// point before it.
pub fn encode_to_path_from(start: GeoPoint, data: &Vec<u8>) -> (r: Vec<GeoPoint>)
    ensures
        r@.len() == data@.len() + 1,
        r@[0] == start,
{
    let mut path: Vec<GeoPoint> = Vec::new();
    path.push(start);
    let mut i: usize = 0;
    while i < data.len()
        invariant
            i <= data@.len(),
            path@.len() == i + 1,
            path@[0] == start,
        decreases data@.len() - i,
    {
        let seg = encode_byte_to_dist_and_bear(data[i], (i as u64) + 1);
        let next = advance(&path[path.len() - 1], seg.1, seg.0);
        path.push(next);
        i = i + 1;
    }
    path
}

/// Encode a byte sequence as a path that begins at the fixed starting point
/// shared by every run. An empty sequence yields the one-point path of just
/// that starting point.
pub fn encode_to_path(data: &Vec<u8>) -> (r: Vec<GeoPoint>)
    ensures
        r@.len() == data@.len() + 1,
{
    encode_to_path_from(start_point(), data)
}

/// Decode a sequence of observed segments, the segment at offset `i` taking
/// sequence position `i + 1`, exactly as the codec's inverse defines.
pub fn decode_segments(segments: &Vec<(i64, i64)>) -> (r: Vec<u8>)
    ensures
        r@.len() == segments@.len(),
        forall|i: int|
            0 <= i < segments@.len() ==> r@[i] as int == decoded_byte(
                segments@[i].0 as int,
                segments@[i].1 as int,
                i + 1,
            ),
{
    let mut bytes: Vec<u8> = Vec::new();
    let mut i: usize = 0;
    while i < segments.len()
        invariant
            i <= segments@.len(),
            bytes@.len() == i,
            forall|j: int|
                0 <= j < i ==> bytes@[j] as int == decoded_byte(
                    segments@[j].0 as int,
                    segments@[j].1 as int,
                    j + 1,
                ),
        decreases segments@.len() - i,
    {
        let seg = segments[i];
        let byte = decode_dist_and_bear_to_byte(seg.0, seg.1, (i as u64) + 1);
        bytes.push(byte);
        i = i + 1;
    }
    bytes
}

/// Decode the coordinate lists of a GeoJSON document's features back into
/// bytes. The document must hold at least one feature, whose first
/// coordinate list is the path: each consecutive pair of points is measured,
/// and the rounded segment is inverted at its sequence position. A one-point
/// path yields no bytes.
pub fn decode(features: &Vec<Vec<GeoPoint>>) -> (r: Result<Vec<u8>, DecodeError>)
    ensures
        r is Ok <==> features@.len() > 0 && features@[0]@.len() > 0,
        r is Ok ==> r->Ok_0@.len() == features@[0]@.len() - 1,
        r == Err::<Vec<u8>, DecodeError>(DecodeError::NoFeatures) <==> features@.len() == 0,
        r == Err::<Vec<u8>, DecodeError>(DecodeError::NoCoordinates) <==> features@.len() > 0
            && features@[0]@.len() == 0,
{
    if features.len() == 0 {
        return Err(DecodeError::NoFeatures);
    }
    let coords: &Vec<GeoPoint> = &features[0];
    if coords.len() == 0 {
        return Err(DecodeError::NoCoordinates);
    }
    let mut segments: Vec<(i64, i64)> = Vec::new();
    let mut i: usize = 1;
    while i < coords.len()
        invariant
            1 <= i <= coords@.len(),
            segments@.len() == i - 1,
        decreases coords@.len() - i,
    {
        let dist = measure_distance(&coords[i - 1], &coords[i]);
        let bear = measure_bearing(&coords[i - 1], &coords[i]);
        segments.push((dist, bear));
        i = i + 1;
    }
    Ok(decode_segments(&segments))
}

/// One line of walking instructions: go `distance` meters toward `direction`,
/// `cumulative_distance` meters walked in all so far.
pub struct InstructionStep {
    pub distance: u8,
    pub direction: CompassDirection,
    pub cumulative_distance: u128,
}

/// The total distance, in meters, of the first `n` encoded segments.
pub open spec fn total_distance(data: Seq<u8>, n: int) -> int
    decreases n,
{
    if n <= 0 {
        0
    } else {
        total_distance(data, n - 1) + encoded_distance(data[n - 1])
    }
}

/// What one instruction step must say of the byte at offset `j`: the encoded
/// distance, the compass name of the encoded bearing, and the total distance
/// of the segments up to and including this one.
pub open spec fn step_obeys(step: InstructionStep, data: Seq<u8>, j: int) -> bool {
    &&& step.distance == encoded_distance(data[j])
    &&& Some(step.direction) == compass_of(encoded_bearing(data[j], j + 1))
    &&& step.cumulative_distance == total_distance(data, j + 1)
}

/// Encode a byte sequence as walking instructions: one step per byte, with
/// the encoded distance, the compass name of the encoded bearing, and the
/// running total distance.
pub fn encode_to_instruction_steps(data: &Vec<u8>) -> (r: Vec<InstructionStep>)
    ensures
        r@.len() == data@.len(),
        forall|i: int| 0 <= i < data@.len() ==> step_obeys(#[trigger] r@[i], data@, i),
{
    let mut steps: Vec<InstructionStep> = Vec::new();
    let mut total: u128 = 0;
    let mut i: usize = 0;
    while i < data.len()
        invariant
            i <= data@.len(),
            steps@.len() == i,
            total == total_distance(data@, i as int),
            total <= 33 * i,
            forall|j: int| 0 <= j < i ==> step_obeys(#[trigger] steps@[j], data@, j),
        decreases data@.len() - i,
    {
        let (dist, bear) = encode_byte_to_dist_and_bear(data[i], (i as u64) + 1);
        proof {
            lemma_encoded_bearing_has_direction(data@[i as int], i + 1);
        }
        let direction = compass_direction(bear).unwrap();
        total = total + (dist as u128);
        let ghost prefix = steps@;
        steps.push(InstructionStep { distance: dist, direction, cumulative_distance: total });
        proof {
            assert(step_obeys(steps@[i as int], data@, i as int));
            assert forall|j: int| 0 <= j < i + 1 implies step_obeys(
                #[trigger] steps@[j],
                data@,
                j,
            ) by {
                if j < i {
                    assert(steps@[j] == prefix[j]);
                    assert(step_obeys(prefix[j], data@, j));
                }
            }
        }
        i = i + 1;
    }
    steps
}

} // verus!
