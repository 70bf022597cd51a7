//! CRC16 (polynomial 0x8005, MSB first, initial value 0) over protocol
//! messages, and validation of the raw checksum field of a response.
use vstd::prelude::*;

verus! {

/// The generator polynomial of the checksum.
pub const POLYNOMIAL: u16 = 0x8005;

/// The byte `;` that ends a message body.
pub const BODY_END: u8 = 0x3B;

/// One bit step of the register: `data` holds the next message bit in its top bit.
pub open spec fn crc_bit(data: u16, crc: u16) -> u16 {
    if (data ^ crc) & 0x8000u16 != 0 {
        ((crc << 1u16) ^ 0x8005u16) as u16
    } else {
        (crc << 1u16) as u16
    }
}

/// The register after `k` bit steps, starting from `data` and `crc`.
pub open spec fn crc_bits(data: u16, crc: u16, k: nat) -> u16
    decreases k,
{
    if k == 0 {
        crc
    } else {
        crc_bits((data << 1u16) as u16, crc_bit(data, crc), (k - 1) as nat)
    }
}

/// The register after one message byte.
pub open spec fn crc_byte(b: u8, crc: u16) -> u16 {
    crc_bits(((b as u16) << 8u16) as u16, crc, 8)
}

/// The CRC16 of a byte sequence, from an initial register of 0.
pub open spec fn crc16(bytes: Seq<u8>) -> u16
    decreases bytes.len(),
{
    if bytes.len() == 0 {
        0
    } else {
        crc_byte(bytes.last(), crc16(bytes.drop_last()))
    }
}

/// The digest of a message body: the CRC16 of the body followed by `;`.
pub open spec fn body_checksum(body: Seq<u8>) -> u16 {
    crc16(body.push(BODY_END))
}

/// The checksum field that the device sends after a body: the digest as a
/// 32-bit big-endian integer, so two zero bytes and then the 16-bit value.
pub open spec fn checksum_field(body: Seq<u8>) -> Seq<u8> {
    let c = body_checksum(body);
    seq![0u8, 0u8, (c / 256) as u8, (c % 256) as u8]
}

/// Whether `field` is the correct checksum field for `body`.
pub open spec fn checksum_matches(body: Seq<u8>, field: Seq<u8>) -> bool {
    field.len() == 4 && field == checksum_field(body)
}

/// Feeds one byte into the CRC16 register.
pub fn crc_16_msb(b: u8, crc: u16) -> (r: u16)
    ensures
        r == crc_byte(b, crc),
{
    let mut data: u16 = (b as u16) << 8u16;
    let mut crc: u16 = crc;
    let ghost data0 = data;
    let ghost crc0 = crc;
    let mut i: u32 = 0;
    while i < 8
        invariant
            i <= 8,
            crc_bits(data, crc, (8 - i) as nat) == crc_bits(data0, crc0, 8),
        decreases 8 - i,
    {
        if (data ^ crc) & 0x8000u16 != 0 {
            crc = (crc << 1u16) ^ POLYNOMIAL;
        } else {
            crc = crc << 1u16;
        }
        data = data << 1u16;
        i = i + 1;
    }
    crc
}

/// The CRC16 of `bytes`.
pub fn crc16_of(bytes: &[u8]) -> (r: u16)
    ensures
        r == crc16(bytes@),
{
    let mut calc: u16 = 0;
    let mut i: usize = 0;
    while i < bytes.len()
        invariant
            i <= bytes@.len(),
            calc == crc16(bytes@.subrange(0, i as int)),
        decreases bytes@.len() - i,
    {
        proof {
            assert(bytes@.subrange(0, i + 1).drop_last() =~= bytes@.subrange(0, i as int));
        }
        calc = crc_16_msb(bytes[i], calc);
        i = i + 1;
    }
    assert(bytes@.subrange(0, bytes@.len() as int) =~= bytes@);
    calc
}

/// The digest of a message body: the CRC16 of the body with `;` appended.
pub fn compute_checksum(body: &[u8]) -> (r: u16)
    ensures
        r == body_checksum(body@),
{
    let mut msg: Vec<u8> = Vec::new();
    let mut i: usize = 0;
    while i < body.len()
        invariant
            i <= body@.len(),
            msg@ == body@.subrange(0, i as int),
        decreases body@.len() - i,
    {
        msg.push(body[i]);
        i = i + 1;
    }
    msg.push(BODY_END);
    assert(msg@ =~= body@.push(BODY_END));
    crc16_of(msg.as_slice())
}

/// The four raw bytes that must follow `body;` in a valid response.
pub fn checksum_bytes(body: &[u8]) -> (r: Vec<u8>)
    ensures
        r@ == checksum_field(body@),
{
    let c = compute_checksum(body);
    let r: Vec<u8> = vec![0u8, 0u8, (c / 256) as u8, (c % 256) as u8];
    assert(r@ =~= checksum_field(body@));
    r
}

/// Whether `checksum` is the checksum field of `msg`. A field of any length
/// other than four bytes is rejected before any digest is computed.
pub fn checksum_is_valid(msg: &[u8], checksum: &[u8]) -> (r: bool)
    ensures
        r == checksum_matches(msg@, checksum@),
        checksum@.len() != 4 ==> !r,
{
    if checksum.len() != 4 {
        return false;
    }
    let expected = checksum_bytes(msg);
    let mut i: usize = 0;
    while i < 4
        invariant
            i <= 4,
            checksum@.len() == 4,
            expected@ == checksum_field(msg@),
            forall|j: int| 0 <= j < i ==> checksum@[j] == expected@[j],
        decreases 4 - i,
    {
        if checksum[i] != expected[i] {
            assert(checksum@[i as int] != checksum_field(msg@)[i as int]);
            return false;
        }
        i = i + 1;
    }
    assert(checksum@ =~= expected@);
    true
}

} // verus!
