use geofence_audit::extract::{coord_token, extract_point, CoordError, RawPair, RawValue};

#[test]
fn empty_string_is_absent_not_an_error() {
    assert_eq!(coord_token(&RawValue::Text(Vec::new())), Err(CoordError::Absent));
}

#[test]
fn numeric_string_extracts() {
    assert_eq!(coord_token(&RawValue::Text(b"12.5".to_vec())), Ok(b"12.5".to_vec()));
}

#[test]
fn non_numeric_string_is_malformed() {
    assert_eq!(coord_token(&RawValue::Text(b"abc".to_vec())), Err(CoordError::Malformed));
}

#[test]
fn whitespace_only_string_is_malformed() {
    // Not empty, so not absent; and whitespace does not parse as a float.
    assert_eq!(coord_token(&RawValue::Text(b" ".to_vec())), Err(CoordError::Malformed));
}

#[test]
fn number_token_extracts() {
    assert_eq!(coord_token(&RawValue::Num(b"45.07".to_vec())), Ok(b"45.07".to_vec()));
}

#[test]
fn unrepresentable_number_is_malformed() {
    assert_eq!(coord_token(&RawValue::NumInvalid), Err(CoordError::Malformed));
}

#[test]
fn other_shapes_are_malformed() {
    assert_eq!(coord_token(&RawValue::Other), Err(CoordError::Malformed));
}

#[test]
fn pair_needs_both_coordinates() {
    let half = RawPair {
        x: RawValue::Text(b"1.0".to_vec()),
        y: RawValue::Text(Vec::new()),
    };
    assert!(extract_point(&half).is_none());
}

#[test]
fn full_pair_extracts() {
    let pair = RawPair {
        x: RawValue::Text(b"1.0".to_vec()),
        y: RawValue::Num(b"2.0".to_vec()),
    };
    let point = extract_point(&pair).expect("pair should extract");
    assert_eq!(point.x, b"1.0".to_vec());
    assert_eq!(point.y, b"2.0".to_vec());
}

#[test]
fn non_utf8_bytes_are_malformed() {
    assert_eq!(
        coord_token(&RawValue::Text(vec![0xff, 0xfe])),
        Err(CoordError::Malformed)
    );
}
