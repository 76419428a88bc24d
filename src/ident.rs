//! Mail identifiers: 128-bit ULID values, their 26-character Crockford base32
//! text, and the parsing of that text.

use vstd::arithmetic::power2::pow2;
use vstd::prelude::*;
use vstd::string::StringSliceAdditionalSpecFns;

verus! {

/// The Crockford base32 alphabet, as characters.
pub open spec fn crockford_chars() -> Seq<char> {
    seq![
        '0', '1', '2', '3', '4', '5', '6', '7', '8', '9', 'A', 'B', 'C', 'D', 'E', 'F',
        'G', 'H', 'J', 'K', 'M', 'N', 'P', 'Q', 'R', 'S', 'T', 'V', 'W', 'X', 'Y', 'Z',
    ]
}

/// The 26-character text of an identifier: five bits per character, most
/// significant first (the first character carries the top three bits).
pub open spec fn ulid_text(v: u128) -> Seq<char> {
    Seq::new(26, |i: int| crockford_chars()[((v as int) / (pow2((5 * (25 - i)) as nat) as int)) % 32])
}

/// The value of one text byte: the index in the alphabet of that byte, or of
/// the upper-case letter whose lower case it is. Digits have no lower case.
pub open spec fn crockford_value(b: u8) -> Option<int> {
    if exists|k: int| 0 <= k < 32 && #[trigger] crockford_chars()[k] as u32 == b as u32 {
        Some(choose|k: int| 0 <= k < 32 && #[trigger] crockford_chars()[k] as u32 == b as u32)
    } else if exists|k: int|
        10 <= k < 32 && #[trigger] crockford_chars()[k] as u32 + 32 == b as u32 {
        Some(choose|k: int| 10 <= k < 32 && #[trigger] crockford_chars()[k] as u32 + 32 == b as u32)
    } else {
        None
    }
}

/// Whether `bytes` is the text of an identifier: 26 bytes, each a digit of the
/// alphabet.
pub open spec fn ulid_parses(bytes: Seq<u8>) -> bool {
    &&& bytes.len() == 26
    &&& forall|i: int| 0 <= i < 26 ==> (#[trigger] crockford_value(bytes[i])) is Some
}

/// The value that the first `n` bytes encode, five bits per byte, keeping the
/// low 128 bits.
pub open spec fn ulid_value(bytes: Seq<u8>, n: nat) -> int
    decreases n,
{
    if n == 0 {
        0
    } else {
        (ulid_value(bytes, (n - 1) as nat) * 32 + crockford_value(bytes[n - 1]).unwrap()) % (pow2(
            128,
        ) as int)
    }
}

/// The error of `ulid::Ulid::from_string`.
#[verifier::external_type_specification]
#[verifier::external_body]
pub struct ExDecodeError(ulid::DecodeError);

/// Relies on `ulid::Ulid::new`: an identifier from the current time and
/// random bits. Nothing is known of its value.
#[verifier::external_body]
pub(crate) fn fresh_id() -> (r: u128) {
    ulid::Ulid::new().0
}

/// Relies on `ulid::Ulid::to_string` (base32 `encode`): 26 characters of the
/// alphabet, the last one for the lowest five bits.
#[verifier::external_body]
pub(crate) fn encode_id(id: u128) -> (r: String)
    ensures
        r@ == ulid_text(id),
{
    ulid::Ulid(id).to_string()
}

/// Relies on `ulid::Ulid::from_string` (base32 `decode`): it accepts exactly 26
/// bytes that are all digits of the alphabet, in either case for letters, and
/// shifts them in five bits at a time.
#[verifier::external_body]
pub(crate) fn decode_id(s: &str) -> (r: Result<u128, ulid::DecodeError>)
    ensures
        r is Ok <==> ulid_parses(s.spec_bytes()),
        r matches Ok(v) ==> v as int == ulid_value(s.spec_bytes(), 26),
{
    ulid::Ulid::from_string(s).map(|u| u.0)
}

/// The text form of a mail identifier.
pub fn id_to_string(id: u128) -> (r: String)
    ensures
        r@ == ulid_text(id),
{
    encode_id(id)
}

/// Reads a mail identifier from its text; `None` where the text is not 26
/// base32 digits.
pub fn parse_id(s: &str) -> (r: Option<u128>)
    ensures
        r is Some <==> ulid_parses(s.spec_bytes()),
        r matches Some(v) ==> v as int == ulid_value(s.spec_bytes(), 26),
{
    match decode_id(s) {
        Ok(v) => Some(v),
        Err(_) => None,
    }
}

} // verus!
