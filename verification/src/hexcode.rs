//! Hex-encoded Bitcoin addresses, as test fixtures and configuration carry
//! them: 40 ASCII hex digits for a 20-byte script digest.

use vstd::prelude::*;

use crate::error::Error;
use crate::types::BtcAddress;

verus! {

/// Whether `b` is an ASCII hex digit (`0-9`, `A-F`, `a-f`).
pub open spec fn is_hex_digit(b: u8) -> bool {
    (0x30 <= b && b <= 0x39) || (0x41 <= b && b <= 0x46) || (0x61 <= b && b <= 0x66)
}

/// The value of the ASCII hex digit `b`.
pub open spec fn hex_val(b: u8) -> u8
    recommends
        is_hex_digit(b),
{
    if 0x30 <= b && b <= 0x39 {
        (b - 0x30) as u8
    } else if 0x41 <= b && b <= 0x46 {
        (b - 0x41 + 10) as u8
    } else {
        (b - 0x61 + 10) as u8
    }
}

/// Whether every byte of `s` is an ASCII hex digit.
pub open spec fn all_hex_digits(s: Seq<u8>) -> bool {
    forall|i: int| 0 <= i < s.len() ==> is_hex_digit(s[i])
}

/// The bytes a sequence of hex digit pairs stands for.
pub open spec fn hex_decoded(s: Seq<u8>) -> Seq<u8>
    recommends
        s.len() % 2 == 0,
        all_hex_digits(s),
{
    Seq::new(s.len() / 2, |i: int| (hex_val(s[2 * i]) * 16 + hex_val(s[2 * i + 1])) as u8)
}

/// Relies on hex::decode: it fails exactly on inputs of odd length or with
/// a byte that is not an ASCII hex digit, and otherwise turns each digit
/// pair into one byte, high digit first.
#[verifier::external_body]
fn hex_decode(data: &[u8]) -> (r: Option<Vec<u8>>)
    ensures
        r matches Some(v) ==> data@.len() % 2 == 0 && all_hex_digits(data@) && v@ == hex_decoded(
            data@,
        ),
        r is None ==> !(data@.len() % 2 == 0 && all_hex_digits(data@)),
{
    hex::decode(data).ok()
}

/// The 20-byte address a string of 40 hex digits denotes.
///
/// Accepts exactly the even-length all-hex-digit inputs that decode to
/// 20 bytes; a malformed hex string and a well-formed one of the wrong
/// length are told apart in the error.
pub fn parse_btc_address(data: &[u8]) -> (r: Result<BtcAddress, Error>)
    ensures
        r is Ok <==> data@.len() == 40 && all_hex_digits(data@),
        r matches Ok(a) ==> a@ == hex_decoded(data@) && a.wf(),
        r == Err::<BtcAddress, Error>(Error::InvalidHex) <==> !(data@.len() % 2 == 0
            && all_hex_digits(data@)),
        r == Err::<BtcAddress, Error>(Error::InvalidAddressLength) <==> data@.len() % 2 == 0
            && all_hex_digits(data@) && data@.len() != 40,
{
    match hex_decode(data) {
        Some(bytes) => {
            if bytes.len() == 20 {
                proof {
                    assert(data@.len() == 40);
                }
                Ok(BtcAddress { bytes })
            } else {
                Err(Error::InvalidAddressLength)
            }
        },
        None => Err(Error::InvalidHex),
    }
}

} // verus!
