use mailcatcher::clock::date_seconds;
use mailcatcher::encoding::hex_byte;
use mailcatcher::mail::{header_content, header_values, split_header_body, HeaderRepresentation, Mail, Type};

const DATA_SIMPLE: &str = "Date: Sun, 22 Nov 2020 01:58:23 +0100\n\
To: to@mail.com\n\
From: from@mail.com\n\
Subject: test Sun, 22 Nov 2020 01:58:23 +0100\n\
Message-Id: <20201122015818.087219@example.net>\n\
X-Mailer: swaks v20201014.0 jetmore.org/john/code/swaks/\n\
\n\
This is a test mailing\n\
\n\
\n";

const DATA_COMPLEX: &str = "From: =?US-ASCII?Q?Keith_Moore?= <moore@cs.utk.edu>;\n\
To: =?ISO-8859-1?Q?Keld_J=F8rn_Simonsen?= <keld@dkuug.dk>;\n\
CC: =?ISO-8859-1?Q?Andr=E9?= Pirard <PIRARD@vm1.ulg.ac.be>;\n\
Subject: =?ISO-8859-1?B?SWYgeW91IGNhbiByZWFkIHRoaXMgeW8=?=\n \
=?ISO-8859-2?B?dSB1bmRlcnN0YW5kIHRoZSBleGFtcGxlLg==?=\n\
\n\
This is the content of this mail... but it says nothing now.";

fn as_received(s: &str) -> String {
    s.to_owned()
}

/// 2020-11-22 00:58:23 UTC, in seconds since the epoch.
const NOV_22_2020_005823_UTC: i64 = 1606006703;

#[test]
fn mail_split_headers_body() {
    let mail = Mail::new("from@example.com", &["to@example.com".into()], DATA_SIMPLE);

    assert_eq!(mail.get_headers(&HeaderRepresentation::Raw, as_received).len(), 6);
    assert_eq!(mail.from(), "from@example.com");
    assert_eq!(mail.to().len(), 1);
    assert_eq!(mail.to().get(0).unwrap(), "to@example.com");
    assert!(mail.get_data(&Type::Text).is_some());
    assert_eq!(mail.get_data(&Type::Text).unwrap(), "This is a test mailing\r\n\r\n");
}

#[test]
fn mail_test_getting_datetime() {
    let mail = Mail::new("", &[], DATA_SIMPLE);

    let date = mail.get_date();
    assert_eq!(date, NOV_22_2020_005823_UTC);
}

#[test]
fn mail_get_text() {
    let mail = Mail::new("", &[], DATA_SIMPLE);

    let text = mail.get_text();

    assert!(text.is_some());
    assert_eq!(text.unwrap(), &"This is a test mailing\r\n\r\n".to_string());

    assert!(mail.get_html().is_none());
}

#[test]
fn mod_split_headers_body() {
    let mail = Mail::new("from@example.com", &["to@example.com".into()], DATA_SIMPLE);

    assert_eq!(mail.get_headers(&HeaderRepresentation::Raw, as_received).len(), 6);
    assert_eq!(mail.from(), "from@example.com");
    assert_eq!(mail.to().len(), 1);
    assert_eq!(mail.to()[0], "to@example.com");
    assert!(mail.get_data(&Type::Text).is_some());
    assert_eq!(mail.get_data(&Type::Text).unwrap(), "This is a test mailing\r\n\r\n");
}

#[test]
fn mod_test_getting_datetime() {
    let mail = Mail::new("", &[], DATA_SIMPLE);

    let date = mail.get_date();
    assert_eq!(date, NOV_22_2020_005823_UTC);
}

#[test]
fn mod_get_text() {
    let mail = Mail::new("", &[], DATA_SIMPLE);

    let text: Option<&String> = mail.get_text();

    assert_eq!(text.expect("mail text body"), &"This is a test mailing\r\n\r\n".to_owned());

    assert!(mail.get_html().is_none());
}

#[test]
fn summary_is_json() {
    let mail = Mail::new("from@example.org", &["to@example.net".into()], DATA_SIMPLE);
    let summary: String = mail.summary();

    assert_eq!(
        summary,
        format!(
            r#"{{"date":1606006703,"from":"from@example.org","id":"{}","size":251,"subject":"test Sun, 22 Nov 2020 01:58:23 +0100","to":["to@example.net"]}}"#,
            ulid::Ulid(mail.get_id()).to_string()
        )
    );
}

#[test]
fn get_data() {
    let mail = Mail::new("from@example.org", &["to@example.net".into()], DATA_COMPLEX);

    assert!(mail.get_data(&Type::Html).is_none());

    let content: Option<&String> = mail.get_data(&Type::Text);
    assert_eq!(
        content.expect("mail body"),
        "This is the content of this mail... but it says nothing now."
    );
}

/// The bytes of a quoted encoded text: `_` for a space, `=XX` for a byte.
fn quoted_bytes(text: &str) -> Vec<u8> {
    let raw = text.as_bytes();
    let mut out = Vec::new();
    let mut i = 0;
    while i < raw.len() {
        let pair = if raw[i] == b'=' && i + 3 <= raw.len() { text.get(i + 1..i + 3) } else { None };
        match pair.and_then(hex_byte) {
            Some(b) => {
                out.push(b);
                i += 3;
            }
            None => {
                out.push(if raw[i] == b'_' { b' ' } else { raw[i] });
                i += 1;
            }
        }
    }
    out
}

/// Decodes the RFC 2047 encoded words of a header, and removes the blanks
/// between consecutive encoded words.
fn decode_encoded_words(text: &str) -> String {
    let between = regex::Regex::new(
        r"(?P<first>=\?[^?]+\?.\?.+?\?=)[ \t\r\n]+(?P<second>=\?[^?]+\?.\?.+?\?=)",
    )
    .unwrap();
    let word = regex::Regex::new(r"=\?(?P<charset>[^?]+)\?(?P<encoding>.)\?(?P<text>.+?)\?=").unwrap();
    let mut text = text.to_owned();
    while between.is_match(&text) {
        text = between.replace_all(&text, "${first}${second}").to_string();
    }
    word.replace_all(&text, |caps: &regex::Captures| {
        let charset = encoding::label::encoding_from_whatwg_label(&caps["charset"].to_lowercase())
            .expect("known charset");
        let bytes: Vec<u8> = match caps["encoding"].to_lowercase().as_str() {
            "b" => base64::decode(&caps["text"]).expect("base64"),
            _ => quoted_bytes(&caps["text"]),
        };
        charset.decode(&bytes, encoding::DecoderTrap::Strict).expect("decodes")
    })
    .to_string()
}

#[test]
fn multiline_header_content_and_humanized() {
    let mail = Mail::new("from@example.org", &["to@example.net".into()], DATA_COMPLEX);
    let subject_raw: Vec<String> =
        mail.get_header_content("Subject", &HeaderRepresentation::Raw, as_received);

    assert_eq!(subject_raw.len(), 1);
    let subject_raw: &String = &subject_raw[0];
    assert_eq!(subject_raw, "=?ISO-8859-1?B?SWYgeW91IGNhbiByZWFkIHRoaXMgeW8=?=\r\n =?ISO-8859-2?B?dSB1bmRlcnN0YW5kIHRoZSBleGFtcGxlLg==?=");

    let subject_human: Vec<String> =
        mail.get_header_content("Subject", &HeaderRepresentation::Humanized, decode_encoded_words);

    assert_eq!(subject_human.len(), 1);
    let subject_human: &String = &subject_human[0];
    assert_eq!(subject_human, "If you can read this you understand the example.");
}

#[test]
fn humanized_headers_go_through_the_decoder() {
    let mail = Mail::new("a@b", &["c@d".into()], "Subject: hello\r\nX-Other: y\r\n\r\nbody");
    let shown = mail.get_headers(&HeaderRepresentation::Humanized, |s: &str| s.to_uppercase());
    assert_eq!(shown, vec!["SUBJECT: HELLO".to_owned(), "X-OTHER: Y".to_owned()]);
    let subject =
        mail.get_header_content("SUBJECT", &HeaderRepresentation::Humanized, |s: &str| s.to_uppercase());
    assert_eq!(subject, vec!["HELLO".to_owned()]);
    assert!(mail
        .get_header_content("Subject", &HeaderRepresentation::Humanized, |s: &str| s.to_uppercase())
        .is_empty());
}

#[test]
fn tab_starts_a_continuation_line() {
    let mail = Mail::new("a@b", &[], "Subject: one\r\n\ttwo\r\nTo: x\r\n\r\n");
    let headers = mail.get_headers(&HeaderRepresentation::Raw, as_received);
    assert_eq!(headers, vec!["Subject: one\r\n\ttwo".to_owned(), "To: x".to_owned()]);
    assert_eq!(mail.get_subject(), "one\r\n\ttwo");
    assert_eq!(mail.get_text().unwrap(), "");
}

#[test]
fn missing_subject_and_date_fall_back() {
    let before = chrono::Utc::now().timestamp();
    let mail = Mail::new("a@b", &["c@d".into()], "X-Mailer: t\r\nDate: not a date\r\n\r\nhi");
    let after = chrono::Utc::now().timestamp();
    assert_eq!(mail.get_subject(), "(No subject)");
    assert!(before <= mail.get_date() && mail.get_date() <= after);
}

#[test]
fn assemble_uses_given_identity() {
    let mail = Mail::assemble(7, 42, "a@b", &["c@d".into(), "e@f".into()], "Subject: s\r\n\r\nline1\r\nline2");
    assert_eq!(mail.get_id(), 7);
    assert_eq!(mail.get_date(), 42);
    assert_eq!(mail.get_subject(), "s");
    assert_eq!(mail.to(), &vec!["c@d".to_owned(), "e@f".to_owned()]);
    assert_eq!(mail.get_data(&Type::Raw).unwrap(), "Subject: s\r\n\r\nline1\r\nline2");
    assert_eq!(mail.get_text().unwrap(), "line1\r\nline2");
}

#[test]
fn size_is_byte_length_of_raw() {
    let raw = "Subject: caf\u{e9}\r\n\r\n\u{1f493}";
    let mail = Mail::new("a@b", &[], raw);
    assert_eq!(mail.get_size(), raw.len());
    assert_eq!(mail.get_size(), 22);
    let copy = mail.duplicate();
    assert_eq!(copy.get_size(), raw.len());
    assert_eq!(copy.get_id(), mail.get_id());
}

#[test]
fn split_header_body_joins_with_crlf() {
    let (headers, body) = split_header_body("A: 1\nB: 2\n\nx\ny\n");
    assert_eq!(headers, "A: 1\r\nB: 2");
    assert_eq!(body, "x\r\ny");
    let (headers, body) = split_header_body("A: 1\r\nB: 2");
    assert_eq!(headers, "A: 1\r\nB: 2");
    assert_eq!(body, "");
    let (headers, body) = split_header_body("A: 1\r\n\r\nx\r\ny\r");
    assert_eq!(headers, "A: 1");
    assert_eq!(body, "x\r\ny\r");
}

#[test]
fn header_lookup_needs_exact_name_and_separator() {
    assert_eq!(header_content("Subject: hi", "Subject"), Some("hi".to_owned()));
    assert_eq!(header_content("Subject:hi", "Subject"), None);
    assert_eq!(header_content("subject: hi", "Subject"), None);
    assert_eq!(header_content("X Y: hi", "X Y"), None);
    let hs = vec!["Date: a".to_owned(), "To: b".to_owned(), "Date: c".to_owned()];
    assert_eq!(header_values(&hs, "Date"), vec!["a".to_owned(), "c".to_owned()]);
}

#[test]
fn rfc2822_dates_are_read() {
    assert_eq!(date_seconds("Sun, 22 Nov 2020 01:58:23 +0100"), Some(NOV_22_2020_005823_UTC));
    assert_eq!(date_seconds("yesterday"), None);
}
