//! Byte values written as two upper-case hexadecimal digits, as the quoted
//! encoding of mail headers writes them after `=`.

use crate::text::chars_of;
use vstd::prelude::*;

verus! {

/// The value of an upper-case hexadecimal digit.
pub open spec fn hex_digit(c: char) -> Option<int> {
    if '0' <= c <= '9' {
        Some(c as int - '0' as int)
    } else if 'A' <= c <= 'F' {
        Some(c as int - 'A' as int + 10)
    } else {
        None
    }
}

/// The byte that two upper-case hexadecimal digits write.
pub open spec fn hex_pair(s: Seq<char>) -> Option<u8> {
    if s.len() == 2 && hex_digit(s[0]) is Some && hex_digit(s[1]) is Some {
        Some((hex_digit(s[0]).unwrap() * 16 + hex_digit(s[1]).unwrap()) as u8)
    } else {
        None
    }
}

fn digit_value(c: char) -> (r: Option<u8>)
    ensures
        r matches Some(v) ==> hex_digit(c) == Some(v as int),
        r is None ==> hex_digit(c) is None,
{
    if '0' <= c && c <= '9' {
        Some(((c as u32) - ('0' as u32)) as u8)
    } else if 'A' <= c && c <= 'F' {
        Some(((c as u32) - ('A' as u32) + 10) as u8)
    } else {
        None
    }
}

/// The byte that two upper-case hexadecimal digits write, such as `FF` for
/// 255; `None` for any other text.
pub fn hex_byte(s: &str) -> (r: Option<u8>)
    ensures
        r == hex_pair(s@),
{
    let cs = chars_of(s);
    if cs.len() != 2 {
        return None;
    }
    match (digit_value(cs[0]), digit_value(cs[1])) {
        (Some(hi), Some(lo)) => Some(hi * 16 + lo),
        _ => None,
    }
}

} // verus!
