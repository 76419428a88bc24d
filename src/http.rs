//! The plain-text answers of the HTTP query surface.

use crate::broker::MailReply;
use crate::text::{decimal, push_decimal};
use vstd::prelude::*;

verus! {

/// `OK: ` and a count.
pub open spec fn ok_text(n: nat) -> Seq<char> {
    "OK: "@ + decimal(n)
}

/// The text `OK: <n>`.
pub fn ok_count(n: usize) -> (r: String)
    ensures
        r@ == ok_text(n as nat),
{
    let mut r = "OK: ".to_owned();
    push_decimal(&mut r, n as u64);
    r
}

/// The answer to a removal: `OK: 1` where the mail was removed, `OK: <n>`
/// after removing every mail, and `None` (not found) where no mail had the
/// identifier or the answer is not a removal.
pub fn removal_response(reply: &MailReply) -> (r: Option<String>)
    ensures
        match reply {
            MailReply::Removed(Some(_)) => r matches Some(t) && t@ == ok_text(1),
            MailReply::RemovedAll(ids) => r matches Some(t) && t@ == ok_text(ids@.len()),
            _ => r is None,
        },
{
    match reply {
        MailReply::Removed(Some(_)) => Some(ok_count(1)),
        MailReply::RemovedAll(ids) => Some(ok_count(ids.len())),
        _ => None,
    }
}

} // verus!
