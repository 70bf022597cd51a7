use serial_devices::checksum::checksum_bytes;
use serial_devices::parameters::Parameter;
use serial_devices::protocol::{
    dfu_command, frame_response, get_command, led_command, parse_ack, parse_query_response,
    save_command, set_command, split_bytes, trim_whitespace, DeviceError,
};

#[test]
fn query_returns_fourth_field() {
    let frame = frame_response(b"SER_NUMBER,AB12CD34EF56,,0");
    assert_eq!(parse_query_response(&frame), Ok(String::from("0")));
}

#[test]
fn query_field_may_be_empty() {
    let frame = frame_response(b"SER_NUMBER,AB12CD34EF56,1,");
    assert_eq!(parse_query_response(&frame), Ok(String::new()));
}

#[test]
fn query_field_kept_as_transmitted() {
    let frame = frame_response(b"GET,LED_DRIVE,ok, 200 ,x");
    assert_eq!(parse_query_response(&frame), Ok(String::from(" 200 ")));
}

#[test]
fn query_without_terminator_is_malformed() {
    assert_eq!(parse_query_response(b"SER_NUMBER,AB12CD34EF56,,0"), Err(DeviceError::MalformedResponse));
    assert_eq!(parse_query_response(b""), Err(DeviceError::MalformedResponse));
}

#[test]
fn query_with_too_few_fields_is_malformed() {
    let frame = frame_response(b"SER_NUMBER,AB12CD34EF56,1");
    assert_eq!(parse_query_response(&frame), Err(DeviceError::MalformedResponse));
}

#[test]
fn query_with_invalid_utf8_field_is_malformed() {
    let frame = frame_response(&[b'a', b',', b'b', b',', b'c', b',', 0xFF]);
    assert_eq!(parse_query_response(&frame), Err(DeviceError::MalformedResponse));
}

#[test]
fn query_with_bad_checksum_length() {
    let mut frame = b"SER_NUMBER,AB12CD34EF56,,0;".to_vec();
    let field = checksum_bytes(b"SER_NUMBER,AB12CD34EF56,,0");
    frame.extend_from_slice(&field[1..]);
    assert_eq!(parse_query_response(&frame), Err(DeviceError::ChecksumMismatch));
}

#[test]
fn ack_is_trimmed_text() {
    assert_eq!(parse_ack(b"  OK\r\n"), Ok(String::from("OK")));
    assert_eq!(parse_ack(b"LED,1,OK"), Ok(String::from("LED,1,OK")));
    assert_eq!(parse_ack(b" \t\n"), Ok(String::new()));
    assert_eq!(parse_ack(&[0x4F, 0xC0]), Err(DeviceError::MalformedResponse));
}

#[test]
fn ack_trims_unicode_whitespace() {
    assert_eq!(parse_ack(&[0xC2, 0xA0, b'O', b'K']), Ok(String::from("OK")));
    assert_eq!(parse_ack("\u{3000}OK\u{2028}\u{85}".as_bytes()), Ok(String::from("OK")));
    assert_eq!(parse_ack("O\u{a0}K".as_bytes()), Ok(String::from("O\u{a0}K")));
}

#[test]
fn trim_matches_str_trim() {
    let samples = [
        "\x0b a b \x0c",
        "",
        "   ",
        "\u{1680}x\u{200a}",
        "\u{202f}\u{205f}y\u{2029}",
        "\u{200b}z\u{200b}",
        "\u{e9} caf\u{e9} ",
    ];
    for s in samples.iter() {
        assert_eq!(trim_whitespace(s), s.trim());
    }
}

#[test]
fn split_keeps_empty_pieces() {
    let parts = split_bytes(b"a,,b,", b',');
    assert_eq!(parts, vec![b"a".to_vec(), vec![], b"b".to_vec(), vec![]]);
    assert_eq!(split_bytes(b"", b','), vec![Vec::<u8>::new()]);
}

#[test]
fn commands() {
    assert_eq!(led_command(true), "LED,1");
    assert_eq!(led_command(false), "LED,0");
    assert_eq!(save_command(), "CAL,1,1");
    assert_eq!(dfu_command(), "DFU,0");
    assert_eq!(get_command(Parameter::SerNumber), "GET,SER_NUMBER");
    assert_eq!(get_command(Parameter::LedDrive), "GET,LED_DRIVE");
}

#[test]
fn set_command_validates_first() {
    assert_eq!(set_command(Parameter::LedDrive, "200"), Ok(String::from("SET,LED_DRIVE200")));
    assert_eq!(
        set_command(Parameter::SerNumber, "AB12CD34EF56"),
        Ok(String::from("SET,SER_NUMBERAB12CD34EF56"))
    );
    assert_eq!(set_command(Parameter::LedDrive, "256"), Err(DeviceError::InvalidParameterValue));
    assert_eq!(set_command(Parameter::SerNumber, "short"), Err(DeviceError::InvalidParameterValue));
}
