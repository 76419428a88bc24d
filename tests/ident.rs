use mailcatcher::http::ok_count;
use mailcatcher::ident::{id_to_string, parse_id};
use mailcatcher::json::summaries;
use mailcatcher::mail::Mail;

#[test]
fn identifier_text_is_crockford_base32() {
    assert_eq!(id_to_string(0), "00000000000000000000000000");
    assert_eq!(id_to_string(0x41414141414141414141414141414141), "21850M2GA1850M2GA1850M2GA1");
    assert_eq!(id_to_string(u128::MAX), "7ZZZZZZZZZZZZZZZZZZZZZZZZZ");
}

#[test]
fn identifier_text_parses_back() {
    assert_eq!(parse_id("21850M2GA1850M2GA1850M2GA1"), Some(0x41414141414141414141414141414141));
    assert_eq!(parse_id("2d9rw50ma499cmaghm6dd42dtp"), Some(0x4d4e385051444a59454234335a413756));
    assert_eq!(parse_id("not-an-id"), None);
    assert_eq!(parse_id("2D9RW50MA499CMAGHM6DD42DTU"), None);
    assert_eq!(parse_id(""), None);
    let id = ulid::Ulid::new().0;
    assert_eq!(parse_id(&id_to_string(id)), Some(id));
}

#[test]
fn counts_are_decimal() {
    assert_eq!(ok_count(0), "OK: 0");
    assert_eq!(ok_count(1), "OK: 1");
    assert_eq!(ok_count(1234567), "OK: 1234567");
}

#[test]
fn summaries_form_a_json_array() {
    assert_eq!(summaries(&Vec::new()), "[]");
    let a = Mail::assemble(0, -5, "q\"uote", &[], "Subject: a\\b\r\n\r\n");
    let b = Mail::assemble(1, 10, "x", &["y".into(), "z".into()], "");
    let text = summaries(&vec![a, b]);
    assert_eq!(
        text,
        "[{\"date\":-5,\"from\":\"q\\\"uote\",\"id\":\"00000000000000000000000000\",\"size\":16,\"subject\":\"a\\\\b\",\"to\":[]},\
{\"date\":10,\"from\":\"x\",\"id\":\"00000000000000000000000001\",\"size\":0,\"subject\":\"(No subject)\",\"to\":[\"y\",\"z\"]}]"
    );
    let parsed: serde_json::Value = serde_json::from_str(&text).unwrap();
    assert_eq!(parsed.as_array().unwrap().len(), 2);
}
