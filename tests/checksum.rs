use serial_devices::checksum::{checksum_bytes, checksum_is_valid, compute_checksum, crc16_of, crc_16_msb};
use serial_devices::protocol::{frame_response, parse_query_response, DeviceError};

#[test]
fn crc16_standard_check_value() {
    // CRC-16 with polynomial 0x8005, initial value 0, no reflection.
    assert_eq!(crc16_of(b"123456789"), 0xFEE8);
}

#[test]
fn crc16_of_empty_is_zero() {
    assert_eq!(crc16_of(b""), 0);
}

#[test]
fn crc_single_byte_step() {
    assert_eq!(crc_16_msb(0x01, 0), 0x8005);
    assert_eq!(crc_16_msb(0x00, 0), 0);
}

#[test]
fn digest_includes_terminator() {
    assert_eq!(compute_checksum(b"12345678"), crc16_of(b"12345678;"));
    assert_ne!(compute_checksum(b"12345678"), crc16_of(b"12345678"));
}

#[test]
fn checksum_field_is_big_endian_u32() {
    let body = b"SER_NUMBER,AB12CD34EF56,,0";
    let c = compute_checksum(body);
    assert_eq!(checksum_bytes(body), vec![0, 0, (c >> 8) as u8, (c & 0xff) as u8]);
}

#[test]
fn round_trip_validates() {
    let messages: [&[u8]; 5] = [
        b"",
        b"LED,1",
        b"SER_NUMBER,AB12CD34EF56,,0",
        b"LED_DRIVE,9,1,200",
        b"a,b,c,d,e,f",
    ];
    for m in messages.iter() {
        let field = checksum_bytes(m);
        assert!(checksum_is_valid(m, &field));
        let frame = frame_response(m);
        assert_eq!(frame.len(), m.len() + 5);
        assert_eq!(frame[m.len()], b';');
    }
}

#[test]
fn corrupted_checksum_rejected() {
    let body = b"LED_DRIVE,9,1,200";
    let mut field = checksum_bytes(body);
    field[3] ^= 0x01;
    assert!(!checksum_is_valid(body, &field));
    let mut frame = frame_response(body);
    let n = frame.len();
    frame[n - 1] ^= 0x80;
    assert_eq!(parse_query_response(&frame), Err(DeviceError::ChecksumMismatch));
}

#[test]
fn checksum_length_guard() {
    let body = b"SER_NUMBER,AB12CD34EF56,,0";
    let field = checksum_bytes(body);
    assert!(!checksum_is_valid(body, &field[..3]));
    assert!(!checksum_is_valid(body, &field[1..]));
    let mut longer = field.clone();
    longer.push(0);
    assert!(!checksum_is_valid(body, &longer));
    assert!(!checksum_is_valid(body, b""));
    let mut prefixed = vec![0u8];
    prefixed.extend_from_slice(&field);
    assert!(!checksum_is_valid(body, &prefixed));
}
