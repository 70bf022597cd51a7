//! The device's parameter catalog: wire names, numeric ids and the rule that
//! a proposed value must meet before it is sent.
use vstd::prelude::*;

verus! {

/// A parameter held in the device's non-volatile memory.
#[derive(Clone, Copy, Debug, PartialEq, Eq, Structural)]
pub enum Parameter {
    SerNumber,
    LedDrive,
}

/// Whether `c` is an ASCII digit or letter.
pub open spec fn is_ascii_alnum(c: char) -> bool {
    ('0' <= c && c <= '9') || ('a' <= c && c <= 'z') || ('A' <= c && c <= 'Z')
}

/// A serial number: exactly twelve ASCII digits or letters.
pub open spec fn is_serial_number(s: Seq<char>) -> bool {
    s.len() == 12 && forall|i: int| 0 <= i < s.len() ==> is_ascii_alnum(#[trigger] s[i])
}

/// Whether every character of `s` is an ASCII decimal digit.
pub open spec fn all_digits(s: Seq<char>) -> bool {
    forall|i: int| 0 <= i < s.len() ==> '0' <= #[trigger] s[i] && s[i] <= '9'
}

/// The value of a sequence of decimal digits.
pub open spec fn digits_value(s: Seq<char>) -> int
    decreases s.len(),
{
    if s.len() == 0 {
        0
    } else {
        digits_value(s.drop_last()) * 10 + (s.last() as int - '0' as int)
    }
}

/// The integer that `s` writes in decimal: an optional sign `+` or `-`, then
/// one or more ASCII digits, nothing else.
pub open spec fn decimal_value(s: Seq<char>) -> Option<int> {
    let negative = s.len() > 0 && s[0] == '-';
    let signed = s.len() > 0 && (s[0] == '-' || s[0] == '+');
    let digits = if signed { s.drop_first() } else { s };
    if digits.len() > 0 && all_digits(digits) {
        Some(if negative { -digits_value(digits) } else { digits_value(digits) })
    } else {
        None
    }
}

/// What `s.parse::<i32>()` yields: the decimal value, where it fits in an `i32`.
pub open spec fn parsed_i32(s: Seq<char>) -> Option<i32> {
    match decimal_value(s) {
        Some(v) => if i32::MIN <= v && v <= i32::MAX {
            Some(v as i32)
        } else {
            None
        },
        None => None,
    }
}

/// An LED drive level: an integer from 0 to 255 written in decimal.
pub open spec fn is_led_drive(s: Seq<char>) -> bool {
    match parsed_i32(s) {
        Some(v) => 0 <= v && v <= 255,
        None => false,
    }
}

/// Relies on `regex::Regex::new` and `Regex::is_match`, for the one pattern
/// that the library passes: `^[0-9a-zA-Z]{12}$` matches a whole text of
/// twelve ASCII digits or letters. That pattern is valid, so `new` does not
/// fail.
#[verifier::external_body]
fn regex_is_match(pattern: &str, value: &str) -> (r: bool)
    requires
        pattern@ == "^[0-9a-zA-Z]{12}$"@,
    ensures
        r == is_serial_number(value@),
{
    match regex::Regex::new(pattern) {
        Ok(re) => re.is_match(value),
        Err(_) => false,
    }
}

/// Relies on `str::parse::<i32>` (`i32::from_str`): an optional `+` or `-`,
/// then decimal digits; an error on anything else or on overflow.
#[verifier::external_body]
fn parse_i32(value: &str) -> (r: Option<i32>)
    ensures
        r == parsed_i32(value@),
{
    value.parse::<i32>().ok()
}

impl Parameter {
    /// The name of the parameter on the wire.
    pub open spec fn wire_name(self) -> Seq<char> {
        match self {
            Parameter::SerNumber => "SER_NUMBER"@,
            Parameter::LedDrive => "LED_DRIVE"@,
        }
    }

    /// The numeric id of the parameter in the device firmware.
    pub open spec fn id(self) -> u8 {
        match self {
            Parameter::SerNumber => 0,
            Parameter::LedDrive => 9,
        }
    }

    /// Whether `value` is acceptable for the parameter.
    pub open spec fn accepts(self, value: Seq<char>) -> bool {
        match self {
            Parameter::SerNumber => is_serial_number(value),
            Parameter::LedDrive => is_led_drive(value),
        }
    }

    pub fn as_str(&self) -> (r: &'static str)
        ensures
            r@ == self.wire_name(),
    {
        proof {
            reveal_strlit("SER_NUMBER");
            reveal_strlit("LED_DRIVE");
        }
        match self {
            Parameter::SerNumber => "SER_NUMBER",
            Parameter::LedDrive => "LED_DRIVE",
        }
    }

    pub fn as_string(&self) -> (r: String)
        ensures
            r@ == self.wire_name(),
    {
        proof {
            reveal_strlit("SER_NUMBER");
            reveal_strlit("LED_DRIVE");
        }
        match self {
            Parameter::SerNumber => String::from_str("SER_NUMBER"),
            Parameter::LedDrive => String::from_str("LED_DRIVE"),
        }
    }

    pub fn as_int(&self) -> (r: u8)
        ensures
            r == self.id(),
    {
        match self {
            Parameter::SerNumber => 0,
            Parameter::LedDrive => 9,
        }
    }

    /// Validates a proposed value for the parameter. Malformed input yields
    /// `false`; the call never fails.
    pub fn is_valid(&self, value: &str) -> (r: bool)
        ensures
            r == self.accepts(value@),
    {
        match self {
            Parameter::SerNumber => regex_is_match("^[0-9a-zA-Z]{12}$", value),
            Parameter::LedDrive => match parse_i32(value) {
                Some(v) => 0 <= v && v <= 255,
                None => false,
            },
        }
    }
}

} // verus!
