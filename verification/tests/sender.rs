use email_classifier::email::{prepared_text, RawEmail};
use email_classifier::sender::{extract_address, sender_keys};

fn email(from: &str) -> RawEmail {
    RawEmail {
        from: from.to_string(),
        subject: " Hi ".to_string(),
        body: "text\n-- \nsig".to_string(),
        ts: 0,
    }
}

#[test]
fn addresses_lose_their_display_name() {
    assert_eq!(extract_address("a@example.com").as_deref(), Some("a@example.com"));
    assert_eq!(extract_address("Al <a@example.com>").as_deref(), Some("a@example.com"));
    assert_eq!(extract_address("\"x < y\" < a@b.org > (note)").as_deref(), Some("a@b.org"));
    assert_eq!(extract_address("  plain  ").as_deref(), Some("plain"));
    assert_eq!(extract_address(""), None);
    assert_eq!(extract_address("Nobody <>"), None);
}

#[test]
fn senders_are_known_by_domain_and_address() {
    assert_eq!(
        sender_keys(&email("Bob <bob@mail.example.co.uk>")),
        (Some("example.co.uk".to_string()), Some("bob@mail.example.co.uk".to_string()))
    );
    assert_eq!(sender_keys(&email("")), (None, None));
    assert_eq!(sender_keys(&email("root")), (None, Some("root".to_string())));
}

#[test]
fn the_text_of_an_email_is_its_subject_and_body() {
    assert_eq!(prepared_text(&email("x")), "Hi\ntext");
}
