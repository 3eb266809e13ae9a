use email_classifier::mailfile::{parse_checked, parse_file, MailError};
use email_classifier::rawmail::can_parse;

/// Whether the text can be parsed; where it can, it is.
fn parses(raw: &str) -> bool {
    let ok = can_parse(raw.as_bytes());
    if ok {
        assert!(parse_file(raw.as_bytes()).is_ok(), "{raw:?}");
    }
    ok
}

#[test]
fn ordinary_mail_can_be_parsed() {
    assert!(can_parse(b""));
    assert!(parses(
        "From: Alice <alice@example.com>\r\n\
         Subject: New message (3)\r\n\
         Date: Tue, 1 Jul 2025 10:00:00 GMT\r\n\
         Content-Type: text/plain; charset=utf-8; name=\"a (1).txt\"\r\n\
         Content-Transfer-Encoding: base64\r\n\
         \r\n\
         aGVsbG8=\r\n"
    ));
}

#[test]
fn a_padded_part_in_front_of_a_boundary_can_be_parsed() {
    for end in ["\n", "\r\n"] {
        for (code, text) in [("SGVsbG8=", "Hello"), ("SGVsbG8gdA==", "Hello t"), ("QQ==", "A")] {
            let raw = [
                "From: a@example.com",
                "Content-Type: multipart/mixed; boundary=\"b\"",
                "",
                "--b",
                "Content-Type: text/plain; charset=\"UTF-8\"",
                "Content-Transfer-Encoding: base64",
                "",
                code,
                "--b",
                "Content-Type: text/html; charset=\"UTF-8\"",
                "Content-Transfer-Encoding: quoted-printable",
                "",
                "<p>caf=C3=A9</p>",
                "",
                "--b--",
                "",
            ]
            .join(end);
            assert!(parses(&raw), "{raw:?}");
            assert_eq!(parse_file(raw.as_bytes()).unwrap().body, text);
        }
    }
}

#[test]
fn a_line_above_a_line_can_be_parsed() {
    assert!(parses(
        "From: a@example.com\n\
         Content-Transfer-Encoding: quoted-printable\n\
         \n\
         Title\n\
         \n\
         =3D=3D=3D=3D=\n\
         -----\n\
         text\n"
    ));
    assert!(parses("From: a@example.com\n\n=====\n-----\ntext\n"));
}

#[test]
fn an_early_soft_break_cannot_be_parsed() {
    let part = |headers: &str, body: &str| {
        format!("Content-Type: multipart/mixed; boundary=b\n\n--b\n{headers}\n\n{body}")
    };
    let quoted = "Content-Transfer-Encoding: quoted-printable";
    for body in [
        "=\n--b--\n",
        "A=\r\n--b--\r\n",
        "=41=\r\n--b--\r\n",
        "= \t\x0c\r\n--b--\n",
        "\n=\r\n--b--\n",
    ] {
        assert!(!parses(&part(quoted, body)), "{body:?}");
        assert!(!parses(&part(&format!("{quoted}\nX: y\n\x0c"), body)), "{body:?}");
        assert!(!parses(&part("CONTENT-transfer-ENCODING :\n =?us-ascii?q?quoted-printable?=", body)));
        assert!(parses(&part("Content-Transfer-Encoding: 8bit", body)), "{body:?}");
        assert!(parses(&part("Content-Transfer-Encoding: base64", body)), "{body:?}");
    }
    for body in [
        "x=3D\n--b--\n",
        "= x\n--b--\n",
        "=\n-b\n--b--\n",
        "=\n\n--b--\n",
        "x\n--b--\n",
        "abc=\n--b--\n",
        "=41=42=\r\n--b--\r\n",
    ] {
        assert!(parses(&part(quoted, body)), "{body:?}");
    }
}

#[test]
fn a_soft_break_can_end_the_file() {
    let quoted = "Content-Transfer-Encoding: quoted-printable\n\n";
    assert!(parses(&format!("{quoted}x=\n")));
    assert!(parses(&format!("{quoted}x=\n-")));
    assert!(!parses(&format!("{quoted}x=\n--")));
}

#[test]
fn the_headers_that_nest_messages_are_counted() {
    let level = "Content-Type: multipart/digest; boundary=b\n\nx\n\n";
    assert!(parses(&format!("From: a@example.com\n{}", level.repeat(1000))));
    assert!(!parses(&format!("From: a@example.com\n{}", level.repeat(1001))));
    let words = "a message, a digest, a message/rfc822\n".repeat(5000);
    assert!(parses(&format!("From: a@example.com\n\n{words}")));
}

#[test]
fn messages_that_nest_within_the_limit_are_parsed() {
    let mut raw = "From: a@example.com\r\nSubject: outer\r\n".to_string();
    for i in 0..900 {
        raw.push_str(&format!(
            "Content-Type: multipart/mixed; boundary=b{i}.\r\n\r\n--b{i}.\r\n\
             Content-Type: message/rfc822\r\n\r\n"
        ));
    }
    raw.push_str("Subject: inner\r\n\r\nbody\r\n");
    assert!(parses(&raw));
    assert_eq!(parse_file(raw.as_bytes()).unwrap().subject, "outer");
}

#[test]
fn a_zone_without_an_absolute_value_cannot_be_parsed() {
    let received = |zone: &str| format!("Received: from x by y; 1 2 3 4 5 6 {zone}\r\n\r\nbody\r\n");
    assert!(!parses(&received("-9223372036854775808")));
    assert!(parses(&received("-9223372036854775807")));
    assert!(parses("Subject: 9223372036854775808\r\n\r\n-9223372036854775808\r\n"));
    assert!(parses("Received: from x by y; 1 2 3\r\n\r\n-9223372036854775808\r\n"));
}

#[test]
fn an_encoded_message_cannot_be_parsed() {
    for headers in [
        "Content-Type: message/rfc822\nContent-Transfer-Encoding: base64\n",
        "Content-Transfer-Encoding: quoted-printable\r\nX: 1\r\nContent-Type: message/rfc822\r\n",
        "CONTENT-TYPE: Message/Global\nCONTENT-TRANSFER-ENCODING: BASE64\n",
        "Content - Type :\n \"message\" / rfc822\nContent-Transfer-Encoding:\n\tbase64\n",
        "Content-Type: message/rfc822\nContent-Transfer-Encoding: =?us-ascii?q?base64?=\n",
        "Content-Type: (a) message/rfc822\nContent-Transfer-Encoding: base64\n",
        "Content-Type: x (a) message/rfc822\nContent-Transfer-Encoding: base64\n",
        "Content-Type: x\n message/rfc822\nContent-Transfer-Encoding: base64\n",
        "Content-Type: message (a) / (b) rfc822\nContent-Transfer-Encoding: base64\n",
        "Content-Type: message/x (b) rfc822\nContent-Transfer-Encoding: base64\n",
    ] {
        assert!(!parses(&format!("From: a@example.com\n{headers}\nAAEC\n")), "{headers:?}");
    }
    for headers in [
        "Content-Type: message/rfc822\nContent-Transfer-Encoding: 7bit\n",
        "Content-Type: text/plain\nContent-Transfer-Encoding: base64\n",
        "Content-Type: message/delivery-status\nContent-Transfer-Encoding: base64\n",
        "Content-Type: text/plain; charset=x (message/rfc822)\nContent-Transfer-Encoding: base64\n",
        "Subject: message/rfc822\nContent-Transfer-Encoding: base64\n",
    ] {
        assert!(parses(&format!("From: a@example.com\n{headers}\nAAEC\n")), "{headers:?}");
    }
}

#[test]
fn an_encoding_in_another_header_block_is_no_hindrance() {
    for end in ["\n", "\r\n"] {
        let raw = [
            "From: a@example.com",
            "Subject: Fwd",
            "Date: Tue, 1 Jul 2025 10:00:00 GMT",
            "Content-Type: multipart/mixed; boundary=b",
            "",
            "--b",
            "Content-Type: text/plain",
            "Content-Transfer-Encoding: base64",
            "",
            "c2VlIGJlbG93",
            "--b",
            "Content-Type: message/rfc822",
            "Content-Disposition: attachment",
            "",
            "From: c@example.com",
            "Content-Type: text/plain",
            "Content-Transfer-Encoding: quoted-printable",
            "Date: Tue, 1 Jul 2025 09:00:00 GMT",
            "",
            "caf=C3=A9",
            "--b",
            "Content-Type: message/rfc822",
            "",
            "From: d@example.com",
            "",
            "bye",
            "--b--",
            "",
        ]
        .join(end);
        assert!(parses(&raw));
        assert_eq!(parse_file(raw.as_bytes()).unwrap().body.trim(), "see below");
    }
}

#[test]
fn a_zone_that_swallows_a_line_end_does_not_close_a_block() {
    for (zone, end, ok) in [
        ("Z", "\n", false),
        ("Z", "\r\n", false),
        ("UT", "\n", false),
        ("Z)", "\n", false),
        ("GMT", "\n", true),
        ("GMT", "\r\n", true),
        ("+0000 (UTC)", "\n", true),
        ("+0000", "\n", true),
        ("+0000", "\r\n", true),
        ("+0000 (a)", "\r\n", true),
    ] {
        let raw = format!(
            "Content-Type: message/rfc822{end}Date: Tue, 1 Jul 2025 10:00:00 {zone}{end}{end}x: y{end}\
             Content-Transfer-Encoding: base64{end}{end}AAEC{end}"
        );
        assert_eq!(parses(&raw), ok, "{zone:?} {end:?}");
    }
    for (gap, ok) in [("\n\n", false), ("\n\n\n", false), ("\n\n\n\n", true)] {
        let raw = format!(
            "Content-Type: message/rfc822\nDate: Tue, 1 Jul 2025 10:00:00 Z{gap}\
             Content-Transfer-Encoding: base64\n\nAAEC\n"
        );
        assert_eq!(parses(&raw), ok, "{gap:?}");
    }
}

#[test]
fn a_message_that_is_nothing_but_a_message_cannot_be_parsed() {
    let raw = "content-type:multipart/x;boundary=b\n\n--b\ncontent-type:message/global\n\n\
               content-type:message/global\n\nx:y\n\nz\n--b--";
    assert_eq!(raw.len(), 111);
    assert!(!parses(raw));
    assert_eq!(parse_checked(raw.as_bytes()).err(), Some(MailError::Unparsable));
    let nested = |gap: &str| {
        format!(
            "Content-Type: multipart/mixed; boundary=b\n\n--b\nContent-Type: message/rfc822\n{gap}\
             Content-Type: message/rfc822\n\nx: y\n\nz\n--b--\n"
        )
    };
    assert!(!parses(&nested("\n")));
    assert!(!parses(&nested("\x0c\n")));
    assert!(!parses(&nested("\nX: y\n")));
    assert!(!parses(&nested("\n").replace("multipart/mixed", "multipart")));
    assert!(parses(&nested("\nX: y\n\nz\n--b\n")));
    assert!(parses("Content-Type: message/rfc822\n\nContent-Type: message/rfc822\n\nx: y\n\nz\n"));
}

fn digest(boundary: &str, parts: &[&str]) -> String {
    let mut raw = format!("From: a@example.com\nContent-Type: multipart/digest; {boundary}\n\n");
    for part in parts {
        raw.push_str("--=b=\n");
        raw.push_str(part);
        raw.push('\n');
    }
    raw.push_str("--=b=--\n");
    raw
}

#[test]
fn digests_with_encoded_messages_can_be_parsed() {
    let message = "From: x@example.com\nContent-Type: text/plain\n\
                   Content-Transfer-Encoding: quoted-printable\n\ncaf=C3=A9\n\n-- \nJohn\n";
    let bare = format!("\n{message}");
    let typed = format!("Content-Type: message/rfc822\nMIME-Version: 1.0\n\n{message}");
    let text = "Content-Type: text/plain\nContent-Transfer-Encoding: base64\n\nSGVsbG8=\n";
    for boundary in ["boundary=\"=b=\"", "boundary==b=", "\n\tboundary=\"=b=\""] {
        assert!(parses(&digest(boundary, &[&bare, &bare])));
        assert!(parses(&digest(boundary, &[&typed, &typed, text])));
        assert!(parses(&digest(boundary, &[text, &bare, &typed])));
    }
}

#[test]
fn an_odd_part_of_a_digest_cannot_be_parsed() {
    let plain = "boundary=\"=b=\"";
    for part in [
        "Content-Transfer-Encoding: base64\n\nU3ViamVjdDogeAoKeQo=\n",
        "Content-Type:\nContent-Transfer-Encoding: base64\n\nAAEC\n",
        "Content-Type: text/plain\nContent-Type:\nContent-Transfer-Encoding: base64\n\nAAEC\n",
        "Content-Transfer-Encoding: base64\n\x0c\nContent-Type: text/plain\n\nAAEC\n",
        "\nContent-Type: message/rfc822\n\nx: y\n\nz\n",
        "X: y\n\nContent-Type: message/rfc822\n\nx: y\n\nz\n",
    ] {
        assert!(!parses(&digest(plain, &[part])), "{part:?}");
    }
    let broken = digest(plain, &["Content-Type: message/rfc822\n\nx: y\n\nz\n"]);
    assert!(parses(&broken));
    assert!(!parses(&broken.replace("--=b=\nC", "--=b=\x0c\nC")));
    let part = "Content-Type: text/plain\nContent-Transfer-Encoding: base64\n\nAAEC\n";
    assert!(parses(&digest(plain, &[part])));
    for boundary in ["boundary*=%3Db%3D", "boundary=\"=b=\"; x=y", "boundary=\"=?us-ascii?q?=3Db=3D?=\""] {
        assert!(!parses(&digest(boundary, &[part])), "{boundary:?}");
        assert!(parses(&digest(boundary, &["\nx: y\n\nz\n"])), "{boundary:?}");
    }
}

#[test]
fn whatever_cannot_be_parsed_is_an_error() {
    let raw = "Content-Type: message/rfc822\nContent-Transfer-Encoding: base64\n\nAAEC\n";
    assert_eq!(parse_checked(raw.as_bytes()).err(), Some(MailError::Unparsable));
    assert_eq!(parse_checked(b"").err(), Some(MailError::Unparsable));
    let email = parse_checked(b"From: a@example.com\n\nbody\n").unwrap();
    assert_eq!(email.from, "a@example.com");
    assert_eq!(email.body, "body\n");
}
