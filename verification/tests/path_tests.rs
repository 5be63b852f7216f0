use geo_codec::codec::CompassDirection;
use geo_codec::diff::byte_diff_positions;
use geo_codec::path::{decode, decode_segments, encode_to_instruction_steps, encode_to_path,
    encode_to_path_from, DecodeError, InstructionStep};
use geo_codec::tracker::GeoPoint;

#[test]
fn round_trip_all_byte_values() {
    // A sequence holding every byte value once must survive the full trip
    // through geodesic coordinates and back.
    let data: Vec<u8> = (0..=255u8).collect();
    let path = encode_to_path(&data);
    assert_eq!(path.len(), data.len() + 1);
    let decoded = decode(&vec![path]).expect("a valid path must decode");
    assert_eq!(decoded, data);
}

#[test]
fn round_trip_single_byte_sixty_five() {
    // Encoding the single-byte file [65] gives a two-point path whose decode
    // returns [65].
    let data = vec![65u8];
    let path = encode_to_path(&data);
    assert_eq!(path.len(), 2);
    let decoded = decode(&vec![path]).expect("a valid path must decode");
    assert_eq!(decoded, vec![65u8]);
}

#[test]
fn round_trip_text_sample() {
    let data = b"go take a walk".to_vec();
    let decoded = decode(&vec![encode_to_path(&data)]).expect("a valid path must decode");
    assert_eq!(decoded, data);
}

#[test]
fn empty_input_encodes_to_single_point_path() {
    let path = encode_to_path(&Vec::new());
    assert_eq!(path.len(), 1);
}

#[test]
fn single_point_path_decodes_to_no_bytes() {
    let path = encode_to_path(&Vec::new());
    let decoded = decode(&vec![path]).expect("a one-point path must decode");
    assert_eq!(decoded, Vec::<u8>::new());
}

#[test]
fn path_length_is_byte_count_plus_one() {
    for n in [0usize, 1, 2, 17, 100] {
        let data = vec![0xABu8; n];
        assert_eq!(encode_to_path(&data).len(), n + 1);
    }
}

#[test]
fn decode_with_no_features_fails() {
    let r = decode(&Vec::new());
    assert_eq!(r, Err(DecodeError::NoFeatures));
    assert_eq!(DecodeError::NoFeatures.message(), "no features found in this GeoJSON");
}

#[test]
fn decode_with_no_coordinates_fails() {
    let r = decode(&vec![Vec::new()]);
    assert_eq!(r, Err(DecodeError::NoCoordinates));
    assert_eq!(DecodeError::NoCoordinates.message(), "no coordinates found in this GeoJSON");
}

#[test]
fn decode_reads_only_the_first_feature() {
    let data = vec![7u8, 200, 33];
    let path = encode_to_path(&data);
    let stray = vec![GeoPoint::from_text("0.0", "0.0").unwrap()];
    let decoded = decode(&vec![path, stray]).expect("a valid first feature must decode");
    assert_eq!(decoded, data);
}

#[test]
fn paths_share_the_fixed_starting_point() {
    // Every encoding run starts at the same constant point, so both ends
    // agree on the origin without transmitting it.
    let a = encode_to_path(&vec![1u8, 2, 3]);
    let b = encode_to_path(&vec![200u8]);
    assert_eq!(a[0].longitude_text(), b[0].longitude_text());
    assert_eq!(a[0].latitude_text(), b[0].latitude_text());
    assert_eq!(a[0].longitude_text(), "-105.11000504292936");
    assert_eq!(a[0].latitude_text(), "40.57187754636834");
}

#[test]
fn encode_from_a_chosen_start() {
    let start = GeoPoint::from_text("8.9", "48.7").expect("numbers must parse");
    let path = encode_to_path_from(start, &vec![65u8]);
    assert_eq!(path.len(), 2);
    assert_eq!(path[0].longitude_text(), "8.9");
    assert_eq!(path[0].latitude_text(), "48.7");
    // The second point lies a real step away from the start.
    assert_ne!(path[1].longitude_text(), path[0].longitude_text());
}

#[test]
fn point_text_round_trips() {
    let p = GeoPoint::from_text("-105.11000504292936", "40.57187754636834").unwrap();
    let lon: f64 = p.longitude_text().parse().unwrap();
    let lat: f64 = p.latitude_text().parse().unwrap();
    assert_eq!(lon, -105.11000504292936f64);
    assert_eq!(lat, 40.57187754636834f64);
    assert!(GeoPoint::from_text("not a number", "1.0").is_none());
    assert!(GeoPoint::from_text("1.0", "").is_none());
}

#[test]
fn decode_segments_inverts_known_segments() {
    // (3, 45) at position 1 is the encoding of byte 65; (2, 90) at position 2
    // is the encoding of byte 0.
    let segments = vec![(3i64, 45i64), (2i64, 90i64)];
    assert_eq!(decode_segments(&segments), vec![65u8, 0u8]);
}

#[test]
fn instruction_steps_for_known_bytes() {
    let steps: Vec<InstructionStep> = encode_to_instruction_steps(&vec![65u8, 0u8]);
    assert_eq!(steps.len(), 2);
    assert_eq!(steps[0].distance, 3);
    assert_eq!(steps[0].direction, CompassDirection::NorthEast);
    assert_eq!(steps[0].cumulative_distance, 3);
    assert_eq!(steps[1].distance, 2);
    assert_eq!(steps[1].direction, CompassDirection::East);
    assert_eq!(steps[1].cumulative_distance, 5);
}

#[test]
fn instruction_steps_empty_input() {
    assert_eq!(encode_to_instruction_steps(&Vec::new()).len(), 0);
}

#[test]
fn byte_diff_positions_finds_disagreements() {
    let a = vec![1u8, 2, 3, 4, 5];
    let b = vec![1u8, 9, 3, 4, 6];
    assert_eq!(byte_diff_positions(&a, &b), vec![1usize, 4usize]);
    assert_eq!(byte_diff_positions(&a, &a), Vec::<usize>::new());
    assert_eq!(byte_diff_positions(&Vec::new(), &Vec::new()), Vec::<usize>::new());
}
