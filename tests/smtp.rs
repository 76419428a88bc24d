use mailcatcher::mail::Type;
use mailcatcher::smtp::{Command, Reply, Smtp};

const MY_NAME: &str = "UnitTest";

fn feed(smtp: &mut Smtp, line: &str) -> Reply {
    let action: Command = smtp.process_line(line);
    smtp.process_command(&action)
}

fn line_of(reply: &Reply) -> &str {
    reply.text.strip_suffix("\r\n").expect("a reply ends with CRLF")
}

#[test]
fn invalid_smtp_commands() {
    let mut smtp = Smtp::new(MY_NAME.to_owned(), false);

    // Check if greeting is sent by the server
    let line = smtp.send_server_name();
    assert_eq!(line[..(4 + MY_NAME.len())], format!("220 {}", MY_NAME));

    // Nothing is accepted but Helo, Ehlo, Reset or Noop
    let r = feed(&mut smtp, "INVALID");
    assert_eq!(line_of(&r), "502 Command not implemented".to_owned());

    let r = feed(&mut smtp, "MAIL FROM:<test@example.org>");
    assert_eq!(line_of(&r), "503 Bad sequence of commands".to_owned());

    let r = feed(&mut smtp, "RCPT TO:<test@example.org>");
    assert_eq!(line_of(&r), "503 Bad sequence of commands".to_owned());

    let r = feed(&mut smtp, "DATA");
    assert_eq!(line_of(&r), "503 Bad sequence of commands".to_owned());

    let r = feed(&mut smtp, "NOOP");
    assert_eq!(line_of(&r), "250 OK".to_owned());

    let r = feed(&mut smtp, "NOOP ignore the end of the line");
    assert_eq!(line_of(&r), "250 OK".to_owned());

    let r = feed(&mut smtp, "rSET");
    assert_eq!(line_of(&r), "250 OK".to_owned());

    let r = feed(&mut smtp, "HELO client");
    assert_eq!(line_of(&r), format!("250 {}", MY_NAME));
}

#[test]
fn valid_smtp_commands() {
    let mut smtp = Smtp::new(MY_NAME.to_owned(), false);

    // Greeting
    let line = smtp.send_server_name();
    assert_eq!(line, format!("220 {} ESMTP\r\n", MY_NAME));

    let r = feed(&mut smtp, "eHLO client");
    assert_eq!(line_of(&r), format!("250 {}", MY_NAME));

    let r = feed(&mut smtp, "mAiL frOM:<from@example.org>");
    assert_eq!(line_of(&r), "250 OK".to_owned());

    let r = feed(&mut smtp, "RCpT tO:<to@example.net>");
    assert_eq!(line_of(&r), "250 OK".to_owned());

    let r = feed(&mut smtp, "rcpt TO:<to@example.org>");
    assert_eq!(line_of(&r), "250 OK".to_owned());

    let r = feed(&mut smtp, "DATA");
    assert_eq!(&r.text[..4], "354 ");

    let content = "From: =?US-ASCII?Q?Keith_Moore?= <moore@cs.utk.edu>;\r\n\
To: =?ISO-8859-1?Q?Keld_J=F8rn_Simonsen?= <keld@dkuug.dk>;\r\n\
CC: =?ISO-8859-1?Q?Andr=E9?= Pirard <PIRARD@vm1.ulg.ac.be>;\r\n\
Subject: =?ISO-8859-1?B?SWYgeW91IGNhbiByZWFkIHRoaXMgeW8=?=\r\n \
=?ISO-8859-2?B?dSB1bmRlcnN0YW5kIHRoZSBleGFtcGxlLg==?=\r\n\
\r\n\
.This is the content of this mail... but it says nothing now.\r\n\
\r\n\
.\r\n";
    let mut mail = None;
    let mut last = None;
    for l in content.lines() {
        let r = feed(&mut smtp, l);
        if r.mail.is_some() {
            mail = r.mail;
            last = Some(r.text);
        } else {
            assert_eq!(r.text, "");
        }
    }
    assert_eq!(last.expect("no next line"), "250 OK\r\n");
    let mail = mail.expect("no next line");

    let r = feed(&mut smtp, "quit");
    assert_eq!(r.text[..(4 + MY_NAME.len())].to_string(), format!("221 {}", MY_NAME));
    assert!(r.close);

    let raw = mail.get_data(&Type::Raw).expect("no next line");
    assert_eq!(
        raw,
        "From: =?US-ASCII?Q?Keith_Moore?= <moore@cs.utk.edu>;\r\n\
To: =?ISO-8859-1?Q?Keld_J=F8rn_Simonsen?= <keld@dkuug.dk>;\r\n\
CC: =?ISO-8859-1?Q?Andr=E9?= Pirard <PIRARD@vm1.ulg.ac.be>;\r\n\
Subject: =?ISO-8859-1?B?SWYgeW91IGNhbiByZWFkIHRoaXMgeW8=?=\r\n \
=?ISO-8859-2?B?dSB1bmRlcnN0YW5kIHRoZSBleGFtcGxlLg==?=\r\n\
\r\n\
This is the content of this mail... but it says nothing now.\r\n"
    );
}

#[test]
fn unknown_command_gets_502() {
    let mut smtp = Smtp::new("MailCatcher".to_owned(), false);
    assert_eq!(smtp.send_server_name(), "220 MailCatcher ESMTP\r\n");
    assert_eq!(feed(&mut smtp, "INVALID").text, "502 Command not implemented\r\n");
    assert_eq!(feed(&mut smtp, "").text, "502 Command not implemented\r\n");
}

#[test]
fn mail_from_without_helo_gets_503_and_changes_nothing() {
    let mut smtp = Smtp::new("MailCatcher".to_owned(), false);
    assert_eq!(feed(&mut smtp, "MAIL FROM:<a@b>").text, "503 Bad sequence of commands\r\n");
    // The sender was not taken: after HELO, RCPT TO still needs MAIL FROM.
    assert_eq!(feed(&mut smtp, "HELO c").text, "250 MailCatcher\r\n");
    assert_eq!(feed(&mut smtp, "RCPT TO:<x@y>").text, "503 Bad sequence of commands\r\n");
}

fn transaction(smtp: &mut Smtp, body: &[&str]) -> mailcatcher::mail::Mail {
    assert_eq!(feed(smtp, "HELO c").text, "250 MailCatcher\r\n");
    assert_eq!(feed(smtp, "MAIL FROM:<from@e.org>").text, "250 OK\r\n");
    assert_eq!(feed(smtp, "RCPT TO:<to@e.net>").text, "250 OK\r\n");
    assert_eq!(feed(smtp, "RCPT TO:<to@e.org>").text, "250 OK\r\n");
    assert_eq!(feed(smtp, "DATA").text, "354 Start mail input; end with <CRLF>.<CRLF>\r\n");
    for l in body {
        let r = feed(smtp, l);
        assert!(r.mail.is_none());
    }
    let end = feed(smtp, ".");
    assert_eq!(end.text, "250 OK\r\n");
    end.mail.expect("a mail at the end of DATA")
}

#[test]
fn full_transaction_yields_mail() {
    let mut smtp = Smtp::new("MailCatcher".to_owned(), false);
    let mail = transaction(&mut smtp, &["From: x", "Subject: s", "", ".hello"]);
    assert_eq!(mail.get_subject(), "s");
    assert_eq!(mail.from(), "from@e.org");
    assert_eq!(mail.to(), &vec!["to@e.net".to_owned(), "to@e.org".to_owned()]);
    assert_eq!(mail.get_text().unwrap(), "hello");
    assert!(mail.get_data(&Type::Raw).unwrap().ends_with("\r\n\r\nhello"));
    assert_eq!(mail.get_size(), "From: x\r\nSubject: s\r\n\r\nhello".len());
    // The client name stays: a second transaction needs no new HELO.
    assert_eq!(feed(&mut smtp, "MAIL FROM:<again@e.org>").text, "250 OK\r\n");
}

#[test]
fn over_long_data_line_is_refused_and_dropped() {
    let mut smtp = Smtp::new("MailCatcher".to_owned(), false);
    assert_eq!(feed(&mut smtp, "HELO c").text, "250 MailCatcher\r\n");
    assert_eq!(feed(&mut smtp, "MAIL FROM:<a@b>").text, "250 OK\r\n");
    assert_eq!(feed(&mut smtp, "RCPT TO:<c@d>").text, "250 OK\r\n");
    assert_eq!(feed(&mut smtp, "DATA").text, "354 Start mail input; end with <CRLF>.<CRLF>\r\n");
    let long = "a".repeat(1500);
    assert_eq!(feed(&mut smtp, &long).text, "500 Line too long.\r\n");
    let exact = "b".repeat(1000);
    assert_eq!(feed(&mut smtp, &exact).text, "");
    let end = feed(&mut smtp, ".");
    assert_eq!(end.text, "250 OK\r\n");
    let mail = end.mail.unwrap();
    let raw = mail.get_data(&Type::Raw).unwrap();
    assert!(!raw.contains(&long));
    assert_eq!(raw, &exact);
}

#[test]
fn over_long_address_is_refused() {
    let mut smtp = Smtp::new("MailCatcher".to_owned(), false);
    feed(&mut smtp, "HELO c");
    let long = format!("MAIL FROM:<{}@e.org>", "x".repeat(60));
    assert_eq!(feed(&mut smtp, &long).text, "500 Line too long.\r\n");
    assert_eq!(feed(&mut smtp, "RCPT TO:<a@b>").text, "503 Bad sequence of commands\r\n");
    assert_eq!(feed(&mut smtp, "MAIL FROM: <a@b>").text, "250 OK\r\n");
    let long_to = format!("RCPT TO:{}", "y".repeat(65));
    assert_eq!(feed(&mut smtp, &long_to).text, "500 Line too long.\r\n");
    assert_eq!(feed(&mut smtp, "DATA").text, "503 Bad sequence of commands\r\n");
}

#[test]
fn starttls_is_advertised_on_request_but_not_served() {
    let mut plain = Smtp::new("N".to_owned(), false);
    assert_eq!(feed(&mut plain, "STARTTLS").text, "502 Command not implemented\r\n");
    let mut tls = Smtp::new("N".to_owned(), true);
    assert_eq!(feed(&mut tls, "EHLO c").text, "250-N\r\n250 STARTTLS\r\n");
    assert_eq!(feed(&mut tls, "starttls").text, "502 Command not implemented\r\n");
}

#[test]
fn helo_refused_inside_a_transaction_and_rset_clears() {
    let mut smtp = Smtp::new("N".to_owned(), false);
    feed(&mut smtp, "HELO c");
    feed(&mut smtp, "MAIL FROM:<a@b>");
    assert_eq!(feed(&mut smtp, "HELO d").text, "503 Bad sequence of commands\r\n");
    assert_eq!(feed(&mut smtp, "RSET").text, "250 OK\r\n");
    assert_eq!(feed(&mut smtp, "MAIL FROM:<a@b>").text, "503 Bad sequence of commands\r\n");
    let r = feed(&mut smtp, "QUIT");
    assert_eq!(r.text, "221 N Service closing transmission channel\r\n");
    assert!(r.close);
}

#[test]
fn command_words_and_arguments() {
    let smtp = Smtp::new("N".to_owned(), false);
    match smtp.process_line("helo MiXeD") {
        Command::Hello(n) => assert_eq!(n, "MiXeD"),
        other => panic!("{:?}", other),
    }
    match smtp.process_line("MAIL FROM:   <Who@Where>") {
        Command::From(a) => assert_eq!(a, "Who@Where"),
        other => panic!("{:?}", other),
    }
    match smtp.process_line("RCPT TO:plain@addr") {
        Command::Recipient(a) => assert_eq!(a, "plain@addr"),
        other => panic!("{:?}", other),
    }
    assert!(matches!(smtp.process_line("helo"), Command::Error(_)));
    assert!(matches!(smtp.process_line("noopx"), Command::Error(_)));
    assert!(matches!(smtp.process_line("DaTa"), Command::DataStart));
}

#[test]
fn an_empty_first_content_line_is_kept() {
    let mut smtp = Smtp::new("N".to_owned(), false);
    feed(&mut smtp, "HELO c");
    feed(&mut smtp, "MAIL FROM:<a@b>");
    feed(&mut smtp, "RCPT TO:<c@d>");
    feed(&mut smtp, "DATA");
    feed(&mut smtp, "");
    feed(&mut smtp, "..dot");
    let mail = feed(&mut smtp, ".").mail.unwrap();
    assert_eq!(mail.get_data(&Type::Raw).unwrap(), "\r\n.dot");
    assert_eq!(mail.get_text().unwrap(), ".dot");
}

#[test]
fn content_outside_data_is_out_of_sequence() {
    let mut smtp = Smtp::new("N".to_owned(), false);
    feed(&mut smtp, "HELO c");
    feed(&mut smtp, "MAIL FROM:<a@b>");
    feed(&mut smtp, "RCPT TO:<c@d>");
    let line = Command::Data("x".to_owned());
    assert!(smtp.is_valid(&line));
    assert!(smtp.is_valid(&Command::DataEnd));
    let r = smtp.process_command(&line);
    assert_eq!(r.text, "503 Bad sequence of commands\r\n");
    let r = smtp.process_command(&Command::DataEnd);
    assert_eq!(r.text, "503 Bad sequence of commands\r\n");
    assert!(r.mail.is_none());
    // The transaction is intact: DATA still starts content.
    assert_eq!(feed(&mut smtp, "DATA").text, "354 Start mail input; end with <CRLF>.<CRLF>\r\n");
    feed(&mut smtp, "hello");
    let mail = feed(&mut smtp, ".").mail.unwrap();
    assert_eq!(mail.get_data(&Type::Raw).unwrap(), "hello");
}

#[test]
fn content_line_needs_sender_and_recipient() {
    let mut smtp = Smtp::new("N".to_owned(), false);
    feed(&mut smtp, "HELO c");
    assert!(!smtp.is_valid(&Command::Data("x".to_owned())));
    assert!(smtp.is_valid(&Command::DataEnd));
    feed(&mut smtp, "MAIL FROM:<a@b>");
    assert!(!smtp.is_valid(&Command::Data("x".to_owned())));
}
