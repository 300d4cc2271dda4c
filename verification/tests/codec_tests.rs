use clock_in_system::codec::AttendanceRecord;
use clock_in_system::errors::ErrorCode;

fn sample_record() -> AttendanceRecord {
    AttendanceRecord { owner: vec![7u8; 32], day: 19000, timestamp: 1_641_600_000 }
}

#[test]
fn encode_has_exact_layout() {
    let rec = sample_record();
    let bytes = rec.encode();
    let mut expected: Vec<u8> = Vec::new();
    expected.push(1); // version tag
    expected.extend_from_slice(&[7u8; 32]);
    expected.extend_from_slice(&19000u64.to_le_bytes());
    expected.extend_from_slice(&1_641_600_000u64.to_le_bytes());
    assert_eq!(bytes, expected);
    assert_eq!(bytes.len(), 49);
}

#[test]
fn round_trip_returns_record() {
    let rec = sample_record();
    let bytes = rec.encode();
    let back = AttendanceRecord::decode(&bytes).unwrap();
    assert_eq!(back.owner, rec.owner);
    assert_eq!(back.day, rec.day);
    assert_eq!(back.timestamp, rec.timestamp);
}

#[test]
fn round_trip_extremes() {
    let rec = AttendanceRecord { owner: vec![0xFF; 32], day: u64::MAX, timestamp: i64::MAX };
    let bytes = rec.encode();
    let back = AttendanceRecord::decode(&bytes).unwrap();
    assert_eq!(back.owner, rec.owner);
    assert_eq!(back.day, rec.day);
    assert_eq!(back.timestamp, rec.timestamp);

    let zero = AttendanceRecord { owner: vec![0u8; 32], day: 0, timestamp: 0 };
    let bytes = zero.encode();
    let back = AttendanceRecord::decode(&bytes).unwrap();
    assert_eq!(back.owner, zero.owner);
    assert_eq!(back.day, 0);
    assert_eq!(back.timestamp, 0);
}

#[test]
fn decode_rejects_wrong_length() {
    let rec = sample_record();
    let mut bytes = rec.encode();
    bytes.pop();
    assert_eq!(AttendanceRecord::decode(&bytes).unwrap_err(), ErrorCode::MalformedRecord);
    let empty: Vec<u8> = Vec::new();
    assert_eq!(AttendanceRecord::decode(&empty).unwrap_err(), ErrorCode::MalformedRecord);
}

#[test]
fn decode_rejects_wrong_version_tag() {
    let rec = sample_record();
    let mut bytes = rec.encode();
    bytes[0] = 2;
    assert_eq!(AttendanceRecord::decode(&bytes).unwrap_err(), ErrorCode::MalformedRecord);
}

#[test]
fn decode_rejects_oversized_timestamp() {
    let rec = sample_record();
    let mut bytes = rec.encode();
    // Highest timestamp byte: sign bit set means the stored value no
    // longer fits a non-negative signed timestamp.
    bytes[48] = 0x80;
    assert_eq!(AttendanceRecord::decode(&bytes).unwrap_err(), ErrorCode::MalformedRecord);
}
