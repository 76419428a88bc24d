//! Captured mails: the header/body split of a DATA payload, header lookup, and
//! the fields that the HTTP view shows.

use crate::clock::{date_seconds, now_seconds, rfc2822_seconds};
use crate::ident::fresh_id;
use crate::text::{join_crlf, join_lines, lines_of, octets, split_lines, views};
use vstd::prelude::*;

verus! {

/// The kinds of content that a mail holds.
#[derive(Clone, Copy, Debug, PartialEq, Eq, Hash, Structural)]
pub enum Type {
    /// The whole DATA payload
    Raw,
    /// The body, after the first blank line
    Text,
    /// An HTML part (never filled: no MIME parsing is done)
    Html,
}

/// How headers are shown: as received, or decoded for people.
#[derive(Clone, Copy, Debug, PartialEq, Eq, Structural)]
pub enum HeaderRepresentation {
    /// As received
    Raw,
    /// Decoded by the header decoder given to the call
    Humanized,
}

/// The mathematical content of a mail.
pub struct MailView {
    pub id: u128,
    pub from: Seq<char>,
    pub to: Seq<Seq<char>>,
    pub subject: Seq<char>,
    /// Seconds since the Unix epoch
    pub date: i64,
    pub headers: Seq<Seq<char>>,
    pub raw: Seq<char>,
    pub text: Seq<char>,
}

/// A captured mail. Immutable once built.
#[derive(Debug, Clone)]
pub struct Mail {
    id: u128,
    from: String,
    to: Vec<String>,
    subject: String,
    date: i64,
    headers: Vec<String>,
    raw: String,
    text: String,
}

impl View for Mail {
    type V = MailView;

    closed spec fn view(&self) -> MailView {
        MailView {
            id: self.id,
            from: self.from@,
            to: views(self.to@),
            subject: self.subject@,
            date: self.date,
            headers: views(self.headers@),
            raw: self.raw@,
            text: self.text@,
        }
    }
}

/// The index of the first empty line, or the number of lines if none is empty.
pub open spec fn first_blank(ls: Seq<Seq<char>>) -> nat
    decreases ls.len(),
{
    if ls.len() == 0 {
        0
    } else if ls[0].len() == 0 {
        0
    } else {
        1 + first_blank(ls.drop_first())
    }
}

proof fn lemma_first_blank(ls: Seq<Seq<char>>, k: int)
    requires
        0 <= k <= ls.len(),
        forall|j: int| 0 <= j < k ==> (#[trigger] ls[j]).len() > 0,
        k == ls.len() || ls[k].len() == 0,
    ensures
        first_blank(ls) == k,
    decreases k,
{
    if k > 0 {
        assert forall|j: int| 0 <= j < k - 1 implies (#[trigger] ls.drop_first()[j]).len() > 0 by {
            assert(ls.drop_first()[j] == ls[j + 1]);
        }
        lemma_first_blank(ls.drop_first(), k - 1);
    }
}

/// The header lines of a payload: the lines before the first empty one.
pub open spec fn header_lines(raw: Seq<char>) -> Seq<Seq<char>> {
    lines_of(raw).take(first_blank(lines_of(raw)) as int)
}

/// The body lines of a payload: the lines after the first empty one.
pub open spec fn body_lines(raw: Seq<char>) -> Seq<Seq<char>> {
    let ls = lines_of(raw);
    let k = first_blank(ls) as int;
    if k < ls.len() {
        ls.skip(k + 1)
    } else {
        Seq::empty()
    }
}

/// A line that continues the header before it: it starts with a space or a tab.
pub open spec fn is_continuation(l: Seq<char>) -> bool {
    l.len() > 0 && (l[0] == ' ' || l[0] == '\t')
}

/// Header lines grouped into headers: a continuation line joins the header
/// before it, after a `"\r\n"`.
pub open spec fn group_headers(hl: Seq<Seq<char>>) -> Seq<Seq<char>>
    decreases hl.len(),
{
    if hl.len() == 0 {
        Seq::empty()
    } else {
        let g = group_headers(hl.drop_last());
        let l = hl.last();
        if is_continuation(l) && g.len() > 0 {
            g.update(g.len() - 1, g.last() + seq!['\r', '\n'] + l)
        } else {
            g.push(l)
        }
    }
}

/// The content of header `h` when it is the header named `key`: `h` starts
/// with `key`, a colon and a space, and `key` holds no space.
pub open spec fn header_value(h: Seq<char>, key: Seq<char>) -> Option<Seq<char>> {
    let n = key.len() as int;
    if !key.contains(' ') && h.len() >= n + 2 && h.take(n) == key && h[n] == ':' && h[n + 1] == ' ' {
        Some(h.skip(n + 2))
    } else {
        None
    }
}

/// The contents of the headers named `key`, in order.
pub open spec fn values_of(hs: Seq<Seq<char>>, key: Seq<char>) -> Seq<Seq<char>>
    decreases hs.len(),
{
    if hs.len() == 0 {
        Seq::empty()
    } else {
        let v = values_of(hs.drop_last(), key);
        match header_value(hs.last(), key) {
            Some(x) => v.push(x),
            None => v,
        }
    }
}

/// The subject: the first `Subject` header's content, else `(No subject)`.
pub open spec fn subject_of(headers: Seq<Seq<char>>) -> Seq<char> {
    let v = values_of(headers, "Subject"@);
    if v.len() > 0 {
        v[0]
    } else {
        "(No subject)"@
    }
}

/// The date: the instant of the first `Date` header where it parses, else the
/// reception time.
pub open spec fn date_of(headers: Seq<Seq<char>>, received: i64) -> i64 {
    let v = values_of(headers, "Date"@);
    if v.len() > 0 && rfc2822_seconds(v[0]) is Some {
        rfc2822_seconds(v[0]).unwrap()
    } else {
        received
    }
}

/// The mail that a payload makes, given its identifier and reception time.
pub open spec fn mail_of(
    id: u128,
    received: i64,
    from: Seq<char>,
    to: Seq<Seq<char>>,
    raw: Seq<char>,
) -> MailView {
    let headers = group_headers(header_lines(raw));
    MailView {
        id,
        from,
        to,
        subject: subject_of(headers),
        date: date_of(headers, received),
        headers,
        raw,
        text: join_crlf(body_lines(raw)),
    }
}

/// The index of the first empty string in `lines`, or its length.
fn find_blank(lines: &Vec<String>) -> (k: usize)
    ensures
        k == first_blank(views(lines@)),
        k <= lines@.len(),
{
    let mut k: usize = 0;
    while k < lines.len() && !lines[k].as_str().is_empty()
        invariant
            k <= lines@.len(),
            forall|j: int| 0 <= j < k ==> (#[trigger] views(lines@)[j]).len() > 0,
        decreases lines@.len() - k,
    {
        k += 1;
    }
    proof {
        lemma_first_blank(views(lines@), k as int);
    }
    k
}

/// Splits a payload into its header lines and its body, each joined with
/// `"\r\n"`.
pub fn split_header_body(content: &str) -> (r: (String, String))
    ensures
        r.0@ == join_crlf(header_lines(content@)),
        r.1@ == join_crlf(body_lines(content@)),
{
    let lines = split_lines(content);
    let k = find_blank(&lines);
    let headers = join_lines(&lines, 0, k);
    proof {
        assert(views(lines@).subrange(0, k as int) == lines_of(content@).take(k as int));
    }
    let body = if k < lines.len() {
        let b = join_lines(&lines, k + 1, lines.len());
        proof {
            assert(views(lines@).subrange(k + 1, lines@.len() as int) == lines_of(content@).skip(
                k + 1,
            ));
        }
        b
    } else {
        String::new()
    };
    (headers, body)
}

fn starts_continuation(l: &str) -> (r: bool)
    ensures
        r == is_continuation(l@),
{
    if l.is_empty() {
        false
    } else {
        let c = l.get_char(0);
        c == ' ' || c == '\t'
    }
}

/// Groups `lines[..k]` into headers, joining each continuation line to the
/// header before it.
fn group_header_lines(lines: &Vec<String>, k: usize) -> (r: Vec<String>)
    requires
        k <= lines@.len(),
    ensures
        views(r@) == group_headers(views(lines@).take(k as int)),
{
    let mut r: Vec<String> = Vec::new();
    let mut i: usize = 0;
    while i < k
        invariant
            i <= k <= lines@.len(),
            views(r@) == group_headers(views(lines@).take(i as int)),
        decreases k - i,
    {
        let ghost hl = views(lines@).take(i as int + 1);
        proof {
            assert(hl.drop_last() == views(lines@).take(i as int));
            assert(hl.last() == lines@[i as int]@);
        }
        let ghost old_r = r@;
        if starts_continuation(lines[i].as_str()) && r.len() > 0 {
            let mut last = r.pop().unwrap();
            proof {
                assert(r@ == old_r.drop_last());
                assert(last == old_r.last());
            }
            last.append("\r\n");
            last.append(lines[i].as_str());
            proof {
                reveal_strlit("\r\n");
                assert(last@ == views(old_r).last() + seq!['\r', '\n'] + hl.last());
            }
            r.push(last);
            proof {
                assert(views(r@) == views(old_r).update(old_r.len() - 1, last@));
                assert(group_headers(hl) == views(old_r).update(
                    old_r.len() - 1,
                    views(old_r).last() + seq!['\r', '\n'] + hl.last(),
                ));
            }
        } else {
            r.push(lines[i].clone());
            proof {
                assert(views(r@) == views(old_r).push(lines@[i as int]@));
            }
        }
        i += 1;
    }
    r
}

/// The content of header `h` when it is the header named `key`.
pub fn header_content(h: &str, key: &str) -> (r: Option<String>)
    ensures
        r matches Some(v) ==> header_value(h@, key@) == Some(v@),
        r is None ==> header_value(h@, key@) is None,
{
    let n = key.unicode_len();
    let hn = h.unicode_len();
    let mut j: usize = 0;
    while j < n
        invariant
            j <= n == key@.len(),
            forall|m: int| 0 <= m < j ==> key@[m] != ' ',
        decreases n - j,
    {
        if key.get_char(j) == ' ' {
            return None;
        }
        j += 1;
    }
    if hn < 2 || n > hn - 2 {
        return None;
    }
    let mut j: usize = 0;
    while j < n
        invariant
            j <= n == key@.len(),
            n + 2 <= hn == h@.len(),
            forall|m: int| 0 <= m < j ==> h@[m] == key@[m],
        decreases n - j,
    {
        if h.get_char(j) != key.get_char(j) {
            proof {
                assert(h@.take(n as int)[j as int] != key@[j as int]);
            }
            return None;
        }
        j += 1;
    }
    proof {
        assert(h@.take(n as int) == key@);
    }
    if h.get_char(n) != ':' || h.get_char(n + 1) != ' ' {
        return None;
    }
    Some(h.substring_char(n + 2, hn).to_owned())
}

/// The contents of the headers named `key`, in order.
pub fn header_values(headers: &Vec<String>, key: &str) -> (r: Vec<String>)
    ensures
        views(r@) == values_of(views(headers@), key@),
{
    let mut r: Vec<String> = Vec::new();
    let mut i: usize = 0;
    while i < headers.len()
        invariant
            i <= headers@.len(),
            views(r@) == values_of(views(headers@).take(i as int), key@),
        decreases headers@.len() - i,
    {
        let ghost hs = views(headers@).take(i as int + 1);
        proof {
            assert(hs.drop_last() == views(headers@).take(i as int));
            assert(hs.last() == headers@[i as int]@);
        }
        let ghost old_r = r@;
        match header_content(headers[i].as_str(), key) {
            Some(v) => {
                r.push(v);
                proof {
                    assert(views(r@) == views(old_r).push(r@.last()@));
                }
            },
            None => {},
        }
        i += 1;
    }
    proof {
        assert(views(headers@).take(headers@.len() as int) == views(headers@));
    }
    r
}

fn copy_all(v: &[String]) -> (r: Vec<String>)
    ensures
        views(r@) == views(v@),
{
    let mut r: Vec<String> = Vec::new();
    let mut i: usize = 0;
    while i < v.len()
        invariant
            i <= v@.len(),
            views(r@) == views(v@).take(i as int),
        decreases v@.len() - i,
    {
        let ghost old_r = r@;
        r.push(v[i].clone());
        proof {
            assert(views(r@) == views(old_r).push(v@[i as int]@));
            assert(views(v@).take(i as int + 1) == views(v@).take(i as int).push(v@[i as int]@));
        }
        i += 1;
    }
    proof {
        assert(views(v@).take(v@.len() as int) == views(v@));
    }
    r
}

impl Mail {
    /// Builds the mail of a payload with a given identifier and reception
    /// time (seconds since the epoch), which stands as its date where no `Date`
    /// header parses.
    pub fn assemble(id: u128, received: i64, from: &str, to: &[String], data: &str) -> (m: Mail)
        ensures
            m@ == mail_of(id, received, from@, views(to@), data@),
    {
        let lines = split_lines(data);
        let k = find_blank(&lines);
        let headers = group_header_lines(&lines, k);
        proof {
            assert(views(lines@).take(k as int) == header_lines(data@));
        }
        let text = if k < lines.len() {
            let b = join_lines(&lines, k + 1, lines.len());
            proof {
                assert(views(lines@).subrange(k + 1, lines@.len() as int) == lines_of(data@).skip(
                    k + 1,
                ));
            }
            b
        } else {
            String::new()
        };
        let subjects = header_values(&headers, "Subject");
        let subject = if subjects.len() > 0 {
            subjects[0].clone()
        } else {
            "(No subject)".to_owned()
        };
        let dates = header_values(&headers, "Date");
        let mut date = received;
        if dates.len() > 0 {
            match date_seconds(dates[0].as_str()) {
                Some(t) => {
                    date = t;
                },
                None => {},
            }
        }
        Mail {
            id,
            from: from.to_owned(),
            to: copy_all(to),
            subject,
            date,
            headers,
            raw: data.to_owned(),
            text,
        }
    }

    /// Builds the mail of a payload received now, with a fresh identifier.
    pub fn new(from: &str, to: &[String], data: &str) -> (m: Mail)
        ensures
            exists|received: i64| m@ == mail_of(m@.id, received, from@, views(to@), data@),
    {
        let id = fresh_id();
        let received = now_seconds();
        let m = Mail::assemble(id, received, from, to, data);
        proof {
            assert(m@ == mail_of(m@.id, received, from@, views(to@), data@));
        }
        m
    }
}

/// `out` is what `decode` returned for a text equal to `h`.
pub open spec fn decodes_to<F: Fn(&str) -> String>(decode: F, h: Seq<char>, out: String) -> bool {
    exists|s: &str| s@ == h && #[trigger] decode.ensures((s,), out)
}

/// `out` shows header `h` in `format`.
pub open spec fn shown_as<F: Fn(&str) -> String>(
    format: HeaderRepresentation,
    decode: F,
    h: Seq<char>,
    out: String,
) -> bool {
    match format {
        HeaderRepresentation::Raw => out@ == h,
        HeaderRepresentation::Humanized => decodes_to(decode, h, out),
    }
}

impl Mail {
    /// A copy of this mail.
    pub fn duplicate(&self) -> (r: Mail)
        ensures
            r@ == self@,
    {
        Mail {
            id: self.id,
            from: self.from.clone(),
            to: copy_all(self.to.as_slice()),
            subject: self.subject.clone(),
            date: self.date,
            headers: copy_all(self.headers.as_slice()),
            raw: self.raw.clone(),
            text: self.text.clone(),
        }
    }

    /// The identifier of the mail.
    pub fn get_id(&self) -> (r: u128)
        ensures
            r == self@.id,
    {
        self.id
    }

    /// The sender address.
    pub fn from(&self) -> (r: &String)
        ensures
            r@ == self@.from,
    {
        &self.from
    }

    /// The recipient addresses, in the order they were given.
    pub fn to(&self) -> (r: &Vec<String>)
        ensures
            views(r@) == self@.to,
    {
        &self.to
    }

    /// The date, in seconds since the epoch: that of the `Date` header, or the
    /// reception time.
    pub fn get_date(&self) -> (r: i64)
        ensures
            r == self@.date,
    {
        self.date
    }

    /// The subject.
    pub fn get_subject(&self) -> (r: &String)
        ensures
            r@ == self@.subject,
    {
        &self.subject
    }

    /// The body text.
    pub fn get_text(&self) -> (r: Option<&String>)
        ensures
            r matches Some(t) && t@ == self@.text,
    {
        Some(&self.text)
    }

    /// The HTML part; mails are not parsed for one, so there is none.
    pub fn get_html(&self) -> (r: Option<&String>)
        ensures
            r is None,
    {
        None
    }

    /// The content of the given type: the payload, the body, or no HTML part.
    pub fn get_data(&self, type_: &Type) -> (r: Option<&String>)
        ensures
            *type_ == Type::Raw ==> (r matches Some(t) && t@ == self@.raw),
            *type_ == Type::Text ==> (r matches Some(t) && t@ == self@.text),
            *type_ == Type::Html ==> r is None,
    {
        match type_ {
            Type::Raw => Some(&self.raw),
            Type::Text => Some(&self.text),
            Type::Html => None,
        }
    }

    /// The size of the mail: the number of bytes of its payload.
    pub fn get_size(&self) -> (r: usize)
        ensures
            r == octets(self@.raw),
    {
        self.raw.as_str().len()
    }

    /// The headers, in arrival order, as received or as `decode` shows them.
    pub fn get_headers<F: Fn(&str) -> String>(&self, format: &HeaderRepresentation, decode: F) -> (r:
        Vec<String>)
        requires
            forall|s: &str| decode.requires((s,)),
        ensures
            r@.len() == self@.headers.len(),
            forall|i: int|
                0 <= i < r@.len() ==> shown_as(*format, decode, self@.headers[i], #[trigger] r@[i]),
    {
        let mut r: Vec<String> = Vec::new();
        let mut i: usize = 0;
        while i < self.headers.len()
            invariant
                i <= self.headers@.len(),
                r@.len() == i,
                self@.headers == views(self.headers@),
                forall|s: &str| decode.requires((s,)),
                forall|j: int|
                    0 <= j < i ==> shown_as(*format, decode, self@.headers[j], #[trigger] r@[j]),
            decreases self.headers@.len() - i,
        {
            let h = self.headers[i].as_str();
            let shown = match format {
                HeaderRepresentation::Raw => h.to_owned(),
                HeaderRepresentation::Humanized => decode(h),
            };
            r.push(shown);
            i += 1;
        }
        r
    }

    /// The contents of the headers named `key`, found among the headers as
    /// `format` shows them.
    pub fn get_header_content<F: Fn(&str) -> String>(
        &self,
        key: &str,
        raw: &HeaderRepresentation,
        decode: F,
    ) -> (r: Vec<String>)
        requires
            forall|s: &str| decode.requires((s,)),
        ensures
            *raw == HeaderRepresentation::Raw ==> views(r@) == values_of(self@.headers, key@),
            exists|shown: Seq<String>|
                {
                    &&& shown.len() == self@.headers.len()
                    &&& forall|i: int|
                        0 <= i < shown.len() ==> shown_as(*raw, decode, self@.headers[i], #[trigger] shown[i])
                    &&& views(r@) == values_of(views(shown), key@)
                },
    {
        let shown = self.get_headers(raw, decode);
        let r = header_values(&shown, key);
        proof {
            if *raw == HeaderRepresentation::Raw {
                assert(views(shown@) == self@.headers);
            }
        }
        r
    }
}

} // verus!
