use racegen::config::{decode_pool, encode_pool};
use racegen::geom::Point;
use racegen::pool::default_points;

fn p(x: i64, y: i64) -> Point {
    Point { x, y }
}

#[test]
fn one_point_record_bytes() {
    let bytes = encode_pool(&vec![p(580, 352)]);
    assert_eq!(bytes, b"+0000000580 +0000000352\n".to_vec());
}

#[test]
fn negative_coordinates_encode_with_sign() {
    let bytes = encode_pool(&vec![p(-7, 1_000_000_000)]);
    assert_eq!(bytes, b"-0000000007 +1000000000\n".to_vec());
}

#[test]
fn round_trip_default_pool() {
    let pool = default_points();
    let bytes = encode_pool(&pool);
    let back = decode_pool(&bytes).unwrap();
    assert_eq!(back, pool);
}

#[test]
fn round_trip_empty_pool() {
    let bytes = encode_pool(&vec![]);
    assert_eq!(bytes.len(), 0);
    let back = decode_pool(&bytes).unwrap();
    assert!(back.is_empty());
}

#[test]
fn round_trip_extreme_coordinates() {
    let pool = vec![
        p(-1_000_000_000, 1_000_000_000),
        p(0, -1),
        p(1, 0),
    ];
    let bytes = encode_pool(&pool);
    let back = decode_pool(&bytes).unwrap();
    assert_eq!(back, pool);
}

#[test]
fn decode_rejects_truncated_input() {
    let mut bytes = encode_pool(&vec![p(3, 4)]);
    bytes.pop();
    assert!(decode_pool(&bytes).is_none());
}

#[test]
fn decode_rejects_bad_digit() {
    let mut bytes = encode_pool(&vec![p(3, 4)]);
    bytes[2] = b'x';
    assert!(decode_pool(&bytes).is_none());
}

#[test]
fn decode_rejects_bad_sign() {
    let mut bytes = encode_pool(&vec![p(3, 4)]);
    bytes[0] = b' ';
    assert!(decode_pool(&bytes).is_none());
}

#[test]
fn decode_rejects_negative_zero() {
    let bytes = b"-0000000000 +0000000001\n".to_vec();
    assert!(decode_pool(&bytes).is_none());
}

#[test]
fn decode_rejects_out_of_bound_value() {
    let bytes = b"+2000000000 +0000000001\n".to_vec();
    assert!(decode_pool(&bytes).is_none());
}

#[test]
fn decode_rejects_bad_separator() {
    let bytes = b"+0000000003x+0000000004\n".to_vec();
    assert!(decode_pool(&bytes).is_none());
}
