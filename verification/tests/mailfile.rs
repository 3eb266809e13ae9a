use email_classifier::mailfile::{
    email_from_fields, extract_body, parse_file, parse_file_with_id, BodyPart, MailError,
    MailFields,
};

#[test]
fn parses_headers_and_plain_body() {
    let raw = b"From: Alice <alice@example.com>\r\n\
                Subject: Lunch?\r\n\
                Date: Tue, 1 Jul 2025 10:00:00 +0000\r\n\
                \r\n\
                Are you free today?\r\n";
    let email = parse_file(raw).unwrap();
    assert!(email.from.contains("alice@example.com"));
    assert_eq!(email.subject, "Lunch?");
    assert!(email.body.contains("Are you free today?"));
    assert!(email.ts > 0);
}

#[test]
fn extracts_message_id_without_brackets() {
    let raw = b"From: Alice <alice@example.com>\r\n\
                Subject: hi\r\n\
                Message-ID: <abc123@example.com>\r\n\
                \r\n\
                body\r\n";
    let (_email, id) = parse_file_with_id(raw).unwrap();
    assert_eq!(id.as_deref(), Some("abc123@example.com"));
}

#[test]
fn missing_message_id_is_none() {
    let raw = b"From: a@example.com\r\n\
                Subject: no id\r\n\
                \r\n\
                body\r\n";
    let (_email, id) = parse_file_with_id(raw).unwrap();
    assert_eq!(id, None);
}

#[test]
fn prefers_text_plain_over_html() {
    let raw = b"From: bob@example.org\r\n\
                Subject: multipart\r\n\
                MIME-Version: 1.0\r\n\
                Content-Type: multipart/alternative; boundary=\"b\"\r\n\
                \r\n\
                --b\r\n\
                Content-Type: text/plain\r\n\
                \r\n\
                plain wins\r\n\
                --b\r\n\
                Content-Type: text/html\r\n\
                \r\n\
                <p>html loses</p>\r\n\
                --b--\r\n";
    let email = parse_file(raw).unwrap();
    assert!(email.body.contains("plain wins"));
    assert!(!email.body.contains("html loses"));
}

#[test]
fn falls_back_to_html_when_no_plain_part() {
    let raw = b"From: c@example.net\r\n\
                Subject: html only\r\n\
                Content-Type: text/html\r\n\
                \r\n\
                <p>hello</p>\r\n";
    let email = parse_file(raw).unwrap();
    assert!(email.body.contains("hello"));
}

#[test]
fn missing_subject_and_date_are_defaulted() {
    let raw = b"From: d@example.com\r\n\
                \r\n\
                body\r\n";
    let email = parse_file(raw).unwrap();
    assert_eq!(email.subject, "");
    assert_eq!(email.ts, 0);
}

#[test]
fn headers_are_read_exactly() {
    let raw = b"From:   Alice Example <alice@example.com>  \r\n\
                Subject: =?utf-8?q?Caf=C3=A9?=\r\n\
                Date: Tue, 1 Jul 2025 10:00:00 +0000\r\n\
                \r\n\
                one\r\n\
                two\r\n";
    let email = parse_file(raw).unwrap();
    assert_eq!(email.from, "Alice Example <alice@example.com>");
    assert_eq!(email.subject, "Caf\u{e9}");
    assert_eq!(email.ts, 1751364000);
    assert_eq!(email.body.replace('\r', ""), "one\ntwo\n");
}

#[test]
fn html_only_body_is_kept_as_it_stands() {
    let raw = b"From: c@example.net\r\n\
                Content-Type: text/html\r\n\
                \r\n\
                <p>hello <b>world</b></p>\r\n";
    let email = parse_file(raw).unwrap();
    assert_eq!(email.body.trim(), "<p>hello <b>world</b></p>");
}

#[test]
fn a_message_without_a_text_body_has_none() {
    let raw = b"From: e@example.com\r\n\
                Content-Type: application/octet-stream\r\n\
                Content-Transfer-Encoding: base64\r\n\
                \r\n\
                AAEC\r\n";
    let email = parse_file(raw).unwrap();
    assert_eq!(email.body, "");
}

#[test]
fn bytes_without_a_message_are_an_error() {
    assert_eq!(parse_file(b"").err(), Some(MailError::Unparsable));
    assert!(matches!(parse_file_with_id(b""), Err(MailError::Unparsable)));
    assert_eq!(MailError::Unparsable.message(), "unparsable message");
}

#[test]
fn fields_make_an_email() {
    let fields = MailFields {
        from: Some("  a@example.com ".to_string()),
        subject: None,
        text_bodies: vec![BodyPart::Other],
        html_bodies: vec![BodyPart::Html("<p>x</p>".to_string())],
        timestamp: Some(-5),
        message_id: Some(" id@host ".to_string()),
    };
    assert_eq!(extract_body(&fields), "<p>x</p>");
    let (email, id) = email_from_fields(fields);
    assert_eq!(email.from, "a@example.com");
    assert_eq!(email.subject, "");
    assert_eq!(email.body, "<p>x</p>");
    assert_eq!(email.ts, -5);
    assert_eq!(id.as_deref(), Some("id@host"));
}

fn bodies(text_bodies: Vec<BodyPart>, html_bodies: Vec<BodyPart>) -> String {
    extract_body(&MailFields {
        from: None,
        subject: None,
        text_bodies,
        html_bodies,
        timestamp: None,
        message_id: None,
    })
}

#[test]
fn the_first_plain_text_wins_wherever_it_stands() {
    let text = |s: &str| BodyPart::Text(s.to_string());
    let html = |s: &str| BodyPart::Html(s.to_string());
    assert_eq!(bodies(vec![html("h"), text("t"), text("u")], vec![]), "t");
    assert_eq!(bodies(vec![BodyPart::Other, text("t")], vec![text("u")]), "t");
    assert_eq!(bodies(vec![html("h")], vec![BodyPart::Other, text("t")]), "t");
    assert_eq!(bodies(vec![BodyPart::Other, html("h")], vec![html("i")]), "h");
    assert_eq!(bodies(vec![], vec![html("i"), html("j")]), "i");
    assert_eq!(bodies(vec![BodyPart::Other], vec![BodyPart::Other]), "");
    assert_eq!(bodies(vec![], vec![]), "");
}

#[test]
fn plain_text_behind_html_is_preferred() {
    let raw = b"From: f@example.com\r\n\
                Content-Type: multipart/mixed; boundary=\"b\"\r\n\
                \r\n\
                --b\r\n\
                Content-Type: text/html\r\n\
                \r\n\
                <p>html first</p>\r\n\
                --b\r\n\
                Content-Type: text/plain\r\n\
                \r\n\
                plain second\r\n\
                --b--\r\n";
    assert_eq!(parse_file(raw).unwrap().body.trim(), "plain second");
}

#[test]
fn plain_text_behind_an_inline_image_is_found() {
    let raw = b"From: g@example.com\r\n\
                Content-Type: multipart/mixed; boundary=\"b\"\r\n\
                \r\n\
                --b\r\n\
                Content-Type: image/png\r\n\
                Content-Disposition: inline\r\n\
                Content-Transfer-Encoding: base64\r\n\
                \r\n\
                AAEC\r\n\
                --b\r\n\
                Content-Type: text/plain\r\n\
                \r\n\
                caption\r\n\
                --b--\r\n";
    assert_eq!(parse_file(raw).unwrap().body.trim(), "caption");
}

#[test]
fn parsing_without_the_id_drops_only_the_id() {
    let raw = b"From: Alice <alice@example.com>\r\n\
                Subject: hi\r\n\
                Date: Tue, 1 Jul 2025 10:00:00 +0000\r\n\
                Message-ID: <abc123@example.com>\r\n\
                \r\n\
                body\r\n";
    let plain = parse_file(raw).unwrap();
    let (email, id) = parse_file_with_id(raw).unwrap();
    assert_eq!(plain.from, email.from);
    assert_eq!(plain.subject, email.subject);
    assert_eq!(plain.body, email.body);
    assert_eq!(plain.ts, email.ts);
    assert!(id.is_some());
}

#[test]
fn a_message_with_other_headers_only_is_no_error() {
    let (email, id) = parse_file_with_id(b"X-Test: 1\r\n\r\nbody\r\n").unwrap();
    assert_eq!(email.from, "");
    assert_eq!(email.subject, "");
    assert_eq!(email.ts, 0);
    assert_eq!(id, None);
}
