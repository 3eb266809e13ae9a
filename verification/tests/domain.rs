use email_classifier::domain::{domain_from_bytes, extract_host, registrable_domain};

#[test]
fn plain_gmail() {
    assert_eq!(
        registrable_domain("alice@gmail.com").as_deref(),
        Some("gmail.com")
    );
}

#[test]
fn subdomain_collapses_to_etld_plus_one() {
    assert_eq!(
        registrable_domain("bob@mail.corp.example.com").as_deref(),
        Some("example.com")
    );
}

#[test]
fn multi_part_tld_co_uk() {
    assert_eq!(
        registrable_domain("carol@news.example.co.uk").as_deref(),
        Some("example.co.uk")
    );
}

#[test]
fn display_name_form() {
    assert_eq!(
        registrable_domain("Alice Example <alice@example.com>").as_deref(),
        Some("example.com")
    );
}

#[test]
fn case_is_normalized() {
    assert_eq!(
        registrable_domain("Alice@Example.COM").as_deref(),
        Some("example.com")
    );
}

#[test]
fn invalid_no_at() {
    assert_eq!(registrable_domain("not-an-address"), None);
}

#[test]
fn invalid_empty_host() {
    assert_eq!(registrable_domain("alice@"), None);
    assert_eq!(registrable_domain("alice@>"), None);
}

#[test]
fn empty_input() {
    assert_eq!(registrable_domain(""), None);
}

#[test]
fn the_host_ends_at_a_closing_bracket() {
    assert_eq!(
        extract_host("Al <al@mail.example.com> (work)").as_deref(),
        Some("mail.example.com")
    );
    assert_eq!(extract_host("al@example.com>>").as_deref(), Some("example.com"));
    assert_eq!(extract_host("a@b@ c.org ").as_deref(), Some("c.org"));
    assert_eq!(extract_host("a@ >x"), None);
    assert_eq!(
        registrable_domain("Al <al@mail.example.com> (work)").as_deref(),
        Some("example.com")
    );
}

#[test]
fn a_public_suffix_has_no_registrable_domain() {
    assert_eq!(registrable_domain("a@co.uk"), None);
    assert_eq!(registrable_domain("a@com"), None);
}

#[test]
fn what_was_found_becomes_text() {
    assert_eq!(domain_from_bytes(Some(b"example.com".to_vec())).as_deref(), Some("example.com"));
    let unicode = "b\u{fc}cher.de";
    assert_eq!(domain_from_bytes(Some(unicode.as_bytes().to_vec())).as_deref(), Some(unicode));
    assert_eq!(domain_from_bytes(Some(vec![0xff])), None);
    assert_eq!(domain_from_bytes(None), None);
}
