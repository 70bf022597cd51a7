//! The device's text protocol: commands, acknowledgements, and checksummed
//! query responses of the form `field0,field1,field2,field3;` followed by a
//! four-byte checksum field.
use vstd::prelude::*;
use vstd::utf8::{decode_utf8, valid_utf8};
use crate::checksum::{checksum_bytes, checksum_field, checksum_is_valid, checksum_matches, BODY_END};
use crate::parameters::Parameter;

verus! {

/// The byte `,` that separates the fields of a body.
pub const FIELD_SEPARATOR: u8 = 0x2C;

/// The index of the field that a query returns.
pub const VALUE_FIELD: usize = 3;

/// The failures of a device operation.
#[derive(Clone, Copy, Debug, PartialEq, Eq, Structural)]
pub enum DeviceError {
    /// The transport failed to open, write or read.
    Io,
    /// A read took longer than the transport's bound.
    Timeout,
    /// The response's checksum field does not match its body.
    ChecksumMismatch,
    /// The response does not have the expected shape.
    MalformedResponse,
    /// The value does not meet the parameter's rule; nothing was sent.
    InvalidParameterValue,
    /// No device is registered under the identifier.
    DeviceNotFound,
    /// The identifier was removed by a caller.
    DeviceRemoved,
}

/// `s` cut at each occurrence of `sep`: one more piece than there are
/// separators, pieces possibly empty.
pub open spec fn split_on(s: Seq<u8>, sep: u8) -> Seq<Seq<u8>>
    decreases s.len(),
{
    if s.len() == 0 {
        seq![Seq::<u8>::empty()]
    } else {
        let rest = split_on(s.drop_last(), sep);
        if s.last() == sep {
            rest.push(Seq::<u8>::empty())
        } else {
            rest.update(rest.len() - 1, rest.last().push(s.last()))
        }
    }
}

/// `p` is the position of the first `sep` in `s`.
pub open spec fn is_first_index(s: Seq<u8>, sep: u8, p: int) -> bool {
    0 <= p < s.len() && s[p] == sep && forall|j: int| 0 <= j < p ==> s[j] != sep
}

/// Whether `s` holds `sep`.
pub open spec fn contains_byte(s: Seq<u8>, sep: u8) -> bool {
    exists|p: int| is_first_index(s, sep, p)
}

/// The position of the first `sep` in `s`, where there is one.
pub open spec fn first_index(s: Seq<u8>, sep: u8) -> int {
    choose|p: int| is_first_index(s, sep, p)
}

/// The body of a response: the bytes before its first `;`.
pub open spec fn response_body(frame: Seq<u8>) -> Seq<u8> {
    frame.subrange(0, first_index(frame, BODY_END))
}

/// The checksum field of a response: every byte after its first `;`.
pub open spec fn response_checksum(frame: Seq<u8>) -> Seq<u8> {
    frame.subrange(first_index(frame, BODY_END) + 1, frame.len() as int)
}

/// The value field of a response body, where the body has enough fields.
pub open spec fn value_field(body: Seq<u8>) -> Seq<u8> {
    split_on(body, FIELD_SEPARATOR)[VALUE_FIELD as int]
}

/// What a query yields for a response: the checksum is checked before any
/// field is read, and the value field must be UTF-8.
pub open spec fn query_result(frame: Seq<u8>) -> Result<Seq<char>, DeviceError> {
    if !contains_byte(frame, BODY_END) {
        Err(DeviceError::MalformedResponse)
    } else if !checksum_matches(response_body(frame), response_checksum(frame)) {
        Err(DeviceError::ChecksumMismatch)
    } else if split_on(response_body(frame), FIELD_SEPARATOR).len() <= VALUE_FIELD {
        Err(DeviceError::MalformedResponse)
    } else if !valid_utf8(value_field(response_body(frame))) {
        Err(DeviceError::MalformedResponse)
    } else {
        Ok(decode_utf8(value_field(response_body(frame))))
    }
}

/// Whitespace as `char::is_whitespace` defines it: the characters with the
/// Unicode White_Space property.
pub open spec fn is_whitespace(c: char) -> bool {
    ('\u{9}' <= c && c <= '\u{d}') || c == ' ' || c == '\u{85}' || c == '\u{a0}' || c
        == '\u{1680}' || ('\u{2000}' <= c && c <= '\u{200a}') || c == '\u{2028}' || c
        == '\u{2029}' || c == '\u{202f}' || c == '\u{205f}' || c == '\u{3000}'
}

/// `s` without its leading whitespace.
pub open spec fn trim_start(s: Seq<char>) -> Seq<char>
    decreases s.len(),
{
    if s.len() > 0 && is_whitespace(s[0]) {
        trim_start(s.drop_first())
    } else {
        s
    }
}

/// `s` without its trailing whitespace.
pub open spec fn trim_end(s: Seq<char>) -> Seq<char>
    decreases s.len(),
{
    if s.len() > 0 && is_whitespace(s.last()) {
        trim_end(s.drop_last())
    } else {
        s
    }
}

/// `s` without leading or trailing whitespace.
pub open spec fn trim(s: Seq<char>) -> Seq<char> {
    trim_end(trim_start(s))
}

/// What an acknowledgement yields: the response decoded as UTF-8 text, with
/// surrounding whitespace removed.
pub open spec fn ack_result(buf: Seq<u8>) -> Result<Seq<char>, DeviceError> {
    if valid_utf8(buf) {
        Ok(trim(decode_utf8(buf)))
    } else {
        Err(DeviceError::MalformedResponse)
    }
}

/// A response frame as the device sends it: the body, `;`, and the checksum field.
pub open spec fn framed(body: Seq<u8>) -> Seq<u8> {
    body.push(BODY_END) + checksum_field(body)
}

/// Relies on `String::from_utf8`: it succeeds exactly on valid UTF-8 and the
/// string then holds the decoded characters.
#[verifier::external_body]
fn utf8_to_string(bytes: Vec<u8>) -> (r: Option<String>)
    ensures
        r is Some <==> valid_utf8(bytes@),
        r matches Some(s) ==> s@ == decode_utf8(bytes@),
{
    String::from_utf8(bytes).ok()
}

/// Cuts `s` at each occurrence of `sep`.
pub fn split_bytes(s: &[u8], sep: u8) -> (r: Vec<Vec<u8>>)
    ensures
        r@.len() == split_on(s@, sep).len(),
        forall|i: int| 0 <= i < r@.len() ==> #[trigger] r@[i]@ == split_on(s@, sep)[i],
{
    let mut done: Vec<Vec<u8>> = Vec::new();
    let mut cur: Vec<u8> = Vec::new();
    let mut i: usize = 0;
    while i < s.len()
        invariant
            i <= s@.len(),
            split_on(s@.subrange(0, i as int), sep).len() == done@.len() + 1,
            split_on(s@.subrange(0, i as int), sep).last() == cur@,
            forall|k: int|
                0 <= k < done@.len() ==> #[trigger] done@[k]@ == split_on(
                    s@.subrange(0, i as int),
                    sep,
                )[k],
        decreases s@.len() - i,
    {
        let ghost prev = s@.subrange(0, i as int);
        assert(s@.subrange(0, i + 1).drop_last() =~= prev);
        assert(s@.subrange(0, i + 1).last() == s@[i as int]);
        if s[i] == sep {
            done.push(cur);
            cur = Vec::new();
        } else {
            cur.push(s[i]);
        }
        i = i + 1;
    }
    assert(s@.subrange(0, s@.len() as int) =~= s@);
    done.push(cur);
    done
}

/// The position of the first `sep` in `s`, if any.
pub fn find_byte(s: &[u8], sep: u8) -> (r: Option<usize>)
    ensures
        r is Some <==> contains_byte(s@, sep),
        r matches Some(p) ==> p == first_index(s@, sep),
{
    let mut i: usize = 0;
    while i < s.len()
        invariant
            i <= s@.len(),
            forall|j: int| 0 <= j < i ==> s@[j] != sep,
        decreases s@.len() - i,
    {
        if s[i] == sep {
            assert(is_first_index(s@, sep, i as int));
            let ghost q = first_index(s@, sep);
            assert(q == i) by {
                if q < i {
                    assert(s@[q] != sep);
                } else if q > i {
                    assert(s@[i as int] != sep);
                }
            }
            return Some(i);
        }
        i = i + 1;
    }
    assert(!contains_byte(s@, sep)) by {
        if contains_byte(s@, sep) {
            let p = choose|p: int| is_first_index(s@, sep, p);
            assert(s@[p] != sep);
        }
    }
    None
}

/// Copies `s[start..end]` into a new vector.
fn copy_range(s: &[u8], start: usize, end: usize) -> (r: Vec<u8>)
    requires
        start <= end <= s@.len(),
    ensures
        r@ == s@.subrange(start as int, end as int),
{
    let mut r: Vec<u8> = Vec::new();
    let mut i: usize = start;
    while i < end
        invariant
            start <= i <= end <= s@.len(),
            r@ == s@.subrange(start as int, i as int),
        decreases end - i,
    {
        r.push(s[i]);
        i = i + 1;
    }
    r
}

/// Interprets a query response: splits it at the first `;` into body and
/// checksum field, validates the checksum, and returns the value field (the
/// fourth comma-separated field of the body) exactly as transmitted.
pub fn parse_query_response(frame: &[u8]) -> (r: Result<String, DeviceError>)
    ensures
        r matches Ok(s) ==> query_result(frame@) == Ok::<Seq<char>, DeviceError>(s@),
        r matches Err(e) ==> query_result(frame@) == Err::<Seq<char>, DeviceError>(e),
{
    let p = match find_byte(frame, BODY_END) {
        Some(p) => p,
        None => return Err(DeviceError::MalformedResponse),
    };
    let n = frame.len();
    assert(is_first_index(frame@, BODY_END, p as int));
    let body = copy_range(frame, 0, p);
    let checksum = copy_range(frame, p + 1, n);
    if !checksum_is_valid(body.as_slice(), checksum.as_slice()) {
        return Err(DeviceError::ChecksumMismatch);
    }
    let mut fields = split_bytes(body.as_slice(), FIELD_SEPARATOR);
    if fields.len() <= VALUE_FIELD {
        return Err(DeviceError::MalformedResponse);
    }
    let value = fields.swap_remove(VALUE_FIELD);
    match utf8_to_string(value) {
        Some(s) => Ok(s),
        None => Err(DeviceError::MalformedResponse),
    }
}

/// Whether `c` is whitespace in the sense of `char::is_whitespace`.
pub fn char_is_whitespace(c: char) -> (r: bool)
    ensures
        r == is_whitespace(c),
{
    ('\u{9}' <= c && c <= '\u{d}') || c == ' ' || c == '\u{85}' || c == '\u{a0}' || c
        == '\u{1680}' || ('\u{2000}' <= c && c <= '\u{200a}') || c == '\u{2028}' || c
        == '\u{2029}' || c == '\u{202f}' || c == '\u{205f}' || c == '\u{3000}'
}

/// `s` without leading or trailing whitespace.
pub fn trim_whitespace(s: &str) -> (r: String)
    ensures
        r@ == trim(s@),
{
    let n = s.unicode_len();
    let mut start: usize = 0;
    assert(s@.subrange(0, s@.len() as int) =~= s@);
    while start < n && char_is_whitespace(s.get_char(start))
        invariant
            n == s@.len(),
            start <= n,
            trim_start(s@) == trim_start(s@.subrange(start as int, n as int)),
        decreases n - start,
    {
        assert(s@.subrange(start as int, n as int).drop_first() =~= s@.subrange(
            start + 1,
            n as int,
        ));
        start = start + 1;
    }
    let ghost rest = s@.subrange(start as int, n as int);
    assert(trim_start(rest) == rest);
    let mut end: usize = n;
    while end > start && char_is_whitespace(s.get_char(end - 1))
        invariant
            n == s@.len(),
            start <= end <= n,
            trim_end(rest) == trim_end(s@.subrange(start as int, end as int)),
        decreases end - start,
    {
        assert(s@.subrange(start as int, end as int).drop_last() =~= s@.subrange(
            start as int,
            end - 1,
        ));
        end = end - 1;
    }
    let r = s.substring_char(start, end).to_owned();
    assert(trim_end(r@) == r@);
    r
}

/// Interprets an acknowledgement: the response's text with surrounding
/// whitespace removed.
pub fn parse_ack(buf: &[u8]) -> (r: Result<String, DeviceError>)
    ensures
        r matches Ok(s) ==> ack_result(buf@) == Ok::<Seq<char>, DeviceError>(s@),
        r matches Err(e) ==> ack_result(buf@) == Err::<Seq<char>, DeviceError>(e),
{
    match utf8_to_string(copy_range(buf, 0, buf.len())) {
        Some(text) => {
            proof {
                assert(buf@.subrange(0, buf@.len() as int) =~= buf@);
            }
            Ok(trim_whitespace(text.as_str()))
        },
        None => {
            proof {
                assert(buf@.subrange(0, buf@.len() as int) =~= buf@);
            }
            Err(DeviceError::MalformedResponse)
        },
    }
}

/// The response frame for `body`: the body, `;`, and its checksum field.
pub fn frame_response(body: &[u8]) -> (r: Vec<u8>)
    ensures
        r@ == framed(body@),
{
    let mut r = copy_range(body, 0, body.len());
    r.push(BODY_END);
    let c = checksum_bytes(body);
    let mut i: usize = 0;
    while i < c.len()
        invariant
            i <= c@.len(),
            r@ == body@.push(BODY_END) + c@.subrange(0, i as int),
        decreases c@.len() - i,
    {
        r.push(c[i]);
        i = i + 1;
    }
    assert(c@.subrange(0, c@.len() as int) =~= c@);
    assert(body@.subrange(0, body@.len() as int) =~= body@);
    r
}

/// The command that switches the LED on or off.
pub fn led_command(on: bool) -> (r: String)
    ensures
        r@ == (if on { "LED,1"@ } else { "LED,0"@ }),
{
    proof {
        reveal_strlit("LED,1");
        reveal_strlit("LED,0");
    }
    if on {
        String::from_str("LED,1")
    } else {
        String::from_str("LED,0")
    }
}

/// The command that persists every parameter set so far.
pub fn save_command() -> (r: String)
    ensures
        r@ == "CAL,1,1"@,
{
    proof {
        reveal_strlit("CAL,1,1");
    }
    String::from_str("CAL,1,1")
}

/// The command that puts the device into firmware update mode.
pub fn dfu_command() -> (r: String)
    ensures
        r@ == "DFU,0"@,
{
    proof {
        reveal_strlit("DFU,0");
    }
    String::from_str("DFU,0")
}

/// The command that reads a parameter: `GET,` and the parameter's wire name.
pub fn get_command(param: Parameter) -> (r: String)
    ensures
        r@ == "GET,"@ + param.wire_name(),
{
    proof {
        reveal_strlit("GET,");
    }
    let mut cmd = String::from_str("GET,");
    cmd.append(param.as_str());
    cmd
}

/// The command that sets a parameter until the next power cycle: `SET,`, the
/// wire name and the value, with nothing between them. A value that the
/// parameter does not accept gives an error and no command.
pub fn set_command(param: Parameter, value: &str) -> (r: Result<String, DeviceError>)
    ensures
        param.accepts(value@) ==> (r matches Ok(c) && c@ == "SET,"@ + param.wire_name() + value@),
        !param.accepts(value@) ==> r == Err::<String, DeviceError>(DeviceError::InvalidParameterValue),
{
    proof {
        reveal_strlit("SET,");
    }
    if !param.is_valid(value) {
        return Err(DeviceError::InvalidParameterValue);
    }
    let mut cmd = String::from_str("SET,");
    cmd.append(param.as_str());
    cmd.append(value);
    Ok(cmd)
}

/// A body without `;` ends where its frame's first `;` stands.
proof fn lemma_framed_split(body: Seq<u8>)
    requires
        !contains_byte(body, BODY_END),
    ensures
        contains_byte(framed(body), BODY_END),
        first_index(framed(body), BODY_END) == body.len(),
        response_body(framed(body)) == body,
        response_checksum(framed(body)) == checksum_field(body),
{
    let f = framed(body);
    let n = body.len() as int;
    assert forall|j: int| 0 <= j < n implies f[j] != BODY_END by {
        assert(f[j] == body[j]);
        if body[j] == BODY_END {
            lemma_some_first_index(body, j);
        }
    }
    assert(is_first_index(f, BODY_END, n));
    let q = first_index(f, BODY_END);
    assert(q == n) by {
        if q < n {
            assert(f[q] != BODY_END);
        } else if q > n {
            assert(f[n] == BODY_END);
        }
    }
    assert(f.subrange(0, n) =~= body);
    assert(f.subrange(n + 1, f.len() as int) =~= checksum_field(body));
}

/// A byte that occurs in `s` has a first occurrence.
proof fn lemma_some_first_index(s: Seq<u8>, k: int)
    requires
        0 <= k < s.len(),
        s[k] == BODY_END,
    ensures
        contains_byte(s, BODY_END),
    decreases k,
{
    if exists|j: int| 0 <= j < k && s[j] == BODY_END {
        let j = choose|j: int| 0 <= j < k && s[j] == BODY_END;
        lemma_some_first_index(s, j);
    } else {
        assert(is_first_index(s, BODY_END, k));
    }
}

/// A frame built from a body without `;` carries a valid checksum for exactly
/// that body, and a query on it yields the body's value field as transmitted.
pub proof fn lemma_frame_round_trip(body: Seq<u8>)
    requires
        !contains_byte(body, BODY_END),
    ensures
        contains_byte(framed(body), BODY_END),
        response_body(framed(body)) == body,
        checksum_matches(response_body(framed(body)), response_checksum(framed(body))),
        split_on(body, FIELD_SEPARATOR).len() > VALUE_FIELD && valid_utf8(value_field(body))
            ==> query_result(framed(body)) == Ok::<Seq<char>, DeviceError>(
            decode_utf8(value_field(body)),
        ),
{
    lemma_framed_split(body);
}

} // verus!
