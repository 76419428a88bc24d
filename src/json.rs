//! The JSON summary of a mail, as the mail list and the `newMail` event carry
//! it: `{"date":..,"from":..,"id":..,"size":..,"subject":..,"to":[..]}`.

use crate::ident::{encode_id, ulid_text};
use crate::mail::{Mail, MailView};
use crate::text::{decimal, octets, push_decimal, push_signed_decimal, signed_decimal};
use vstd::prelude::*;

verus! {

/// The lower-case hexadecimal digits.
pub open spec fn hex_lower() -> Seq<char> {
    seq!['0', '1', '2', '3', '4', '5', '6', '7', '8', '9', 'a', 'b', 'c', 'd', 'e', 'f']
}

/// How one character stands inside a JSON string literal: quote and backslash
/// after a backslash, the short escapes of backspace, tab, line feed, form feed
/// and carriage return, `\u00XX` for the other control characters, and every
/// other character as it is.
pub open spec fn json_char(c: char) -> Seq<char> {
    if c == '"' {
        seq!['\\', '"']
    } else if c == '\\' {
        seq!['\\', '\\']
    } else if c == '\u{8}' {
        seq!['\\', 'b']
    } else if c == '\t' {
        seq!['\\', 't']
    } else if c == '\n' {
        seq!['\\', 'n']
    } else if c == '\u{c}' {
        seq!['\\', 'f']
    } else if c == '\r' {
        seq!['\\', 'r']
    } else if (c as u32) < 0x20 {
        seq!['\\', 'u', '0', '0', hex_lower()[(c as u32 / 16) as int], hex_lower()[(c as u32 % 16) as int]]
    } else {
        seq![c]
    }
}

/// The characters of `s`, each as it stands inside a JSON string literal.
pub open spec fn json_escaped(s: Seq<char>) -> Seq<char>
    decreases s.len(),
{
    if s.len() == 0 {
        Seq::empty()
    } else {
        json_escaped(s.drop_last()) + json_char(s.last())
    }
}

/// The JSON string literal of a text: the escaped text between quotes.
pub open spec fn json_string_text(s: Seq<char>) -> Seq<char> {
    seq!['"'] + json_escaped(s) + seq!['"']
}

/// Relies on serde_json's `Display` for `Value::String`, which writes the
/// compact JSON string literal of the text through its `format_escaped_str`
/// and its escape table.
#[verifier::external_body]
fn json_string(s: &str) -> (r: String)
    ensures
        r@ == json_string_text(s@),
{
    serde_json::Value::String(s.to_owned()).to_string()
}

/// `items` joined with commas.
pub open spec fn join_commas(items: Seq<Seq<char>>) -> Seq<char>
    decreases items.len(),
{
    if items.len() == 0 {
        Seq::empty()
    } else if items.len() == 1 {
        items[0]
    } else {
        join_commas(items.drop_last()) + seq![','] + items.last()
    }
}

/// A JSON array of strings.
pub open spec fn json_string_array(ss: Seq<Seq<char>>) -> Seq<char> {
    "["@ + join_commas(ss.map_values(|s: Seq<char>| json_string_text(s))) + "]"@
}

/// The JSON summary of a mail; keys in alphabetical order.
pub open spec fn summary_json(m: MailView) -> Seq<char> {
    "{\"date\":"@ + signed_decimal(m.date as int) + ",\"from\":"@ + json_string_text(m.from)
        + ",\"id\":"@ + json_string_text(ulid_text(m.id)) + ",\"size\":"@ + decimal(
        octets(m.raw) as nat,
    ) + ",\"subject\":"@ + json_string_text(m.subject) + ",\"to\":"@ + json_string_array(m.to)
        + "}"@
}

/// A JSON array of the summaries of `ms`, in order.
pub open spec fn summary_array(ms: Seq<MailView>) -> Seq<char> {
    "["@ + join_commas(ms.map_values(|m: MailView| summary_json(m))) + "]"@
}

fn push_string_array(out: &mut String, ss: &Vec<String>)
    ensures
        final(out)@ == old(out)@ + json_string_array(crate::text::views(ss@)),
{
    let ghost items = crate::text::views(ss@).map_values(|s: Seq<char>| json_string_text(s));
    out.append("[");
    let ghost start = out@;
    let mut i: usize = 0;
    while i < ss.len()
        invariant
            i <= ss@.len(),
            items == crate::text::views(ss@).map_values(|s: Seq<char>| json_string_text(s)),
            out@ == start + join_commas(items.take(i as int)),
        decreases ss@.len() - i,
    {
        proof {
            assert(items.take(i as int + 1).drop_last() == items.take(i as int));
            assert(items.take(i as int + 1).last() == json_string_text(ss@[i as int]@));
        }
        if i > 0 {
            out.append(",");
            proof {
                reveal_strlit(",");
            }
        }
        let q = json_string(ss[i].as_str());
        out.append(q.as_str());
        i += 1;
    }
    out.append("]");
    proof {
        assert(items.take(ss@.len() as int) == items);
    }
}

impl Mail {
    /// The JSON summary of the mail: its date, sender, identifier, size,
    /// subject and recipients.
    pub fn summary(&self) -> (r: String)
        ensures
            r@ == summary_json(self@),
    {
        let mut r = "{\"date\":".to_owned();
        push_signed_decimal(&mut r, self.get_date());
        r.append(",\"from\":");
        r.append(json_string(self.from().as_str()).as_str());
        r.append(",\"id\":");
        let id = encode_id(self.get_id());
        r.append(json_string(id.as_str()).as_str());
        r.append(",\"size\":");
        push_decimal(&mut r, self.get_size() as u64);
        r.append(",\"subject\":");
        r.append(json_string(self.get_subject().as_str()).as_str());
        r.append(",\"to\":");
        push_string_array(&mut r, self.to());
        r.append("}");
        r
    }
}

/// The JSON array of the summaries of `mails`, in order.
pub fn summaries(mails: &Vec<Mail>) -> (r: String)
    ensures
        r@ == summary_array(mails@.map_values(|m: Mail| m@)),
{
    let ghost items = mails@.map_values(|m: Mail| m@).map_values(|m: MailView| summary_json(m));
    let mut out = "[".to_owned();
    let ghost start = out@;
    let mut i: usize = 0;
    while i < mails.len()
        invariant
            i <= mails@.len(),
            items == mails@.map_values(|m: Mail| m@).map_values(|m: MailView| summary_json(m)),
            out@ == start + join_commas(items.take(i as int)),
        decreases mails@.len() - i,
    {
        proof {
            assert(items.take(i as int + 1).drop_last() == items.take(i as int));
            assert(items.take(i as int + 1).last() == summary_json(mails@[i as int]@));
        }
        if i > 0 {
            out.append(",");
            proof {
                reveal_strlit(",");
            }
        }
        let s = mails[i].summary();
        out.append(s.as_str());
        i += 1;
    }
    out.append("]");
    proof {
        assert(items.take(mails@.len() as int) == items);
    }
    out
}

} // verus!
