use serial_devices::parameters::Parameter;

#[test]
fn wire_names_and_ids() {
    assert_eq!(Parameter::SerNumber.as_str(), "SER_NUMBER");
    assert_eq!(Parameter::LedDrive.as_str(), "LED_DRIVE");
    assert_eq!(Parameter::SerNumber.as_string(), String::from("SER_NUMBER"));
    assert_eq!(Parameter::LedDrive.as_string(), String::from("LED_DRIVE"));
    assert_eq!(Parameter::SerNumber.as_int(), 0);
    assert_eq!(Parameter::LedDrive.as_int(), 9);
}

#[test]
fn led_drive_bounds() {
    let p = Parameter::LedDrive;
    assert!(p.is_valid("0"));
    assert!(p.is_valid("255"));
    assert!(p.is_valid("128"));
    assert!(!p.is_valid("-1"));
    assert!(!p.is_valid("256"));
    assert!(!p.is_valid("abc"));
}

#[test]
fn led_drive_malformed_values() {
    let p = Parameter::LedDrive;
    assert!(!p.is_valid(""));
    assert!(!p.is_valid(" 5"));
    assert!(!p.is_valid("5 "));
    assert!(!p.is_valid("1.5"));
    assert!(!p.is_valid("99999999999"));
    assert!(!p.is_valid("-"));
    assert!(p.is_valid("+7"));
    assert!(p.is_valid("007"));
    assert!(p.is_valid("-0"));
}

#[test]
fn serial_number_rule() {
    let p = Parameter::SerNumber;
    assert!(p.is_valid("AB12CD34EF56"));
    assert!(p.is_valid("abcdefghijkl"));
    assert!(p.is_valid("000000000000"));
    assert!(!p.is_valid("AB12CD34EF5"));
    assert!(!p.is_valid("AB12CD34EF567"));
    assert!(!p.is_valid("AB12CD34EF5!"));
    assert!(!p.is_valid("AB12-CD34EF5"));
    assert!(!p.is_valid(""));
    assert!(!p.is_valid("AB12CD34EF5\u{e9}"));
    assert!(!p.is_valid("AB12CD34EF56\n"));
}
