use email_classifier::text::{
    clean_body, collapse_whitespace, drop_quoted_lines, drop_signature, looks_like_html,
    prepare_text, strip_html, truncate_chars, CHAR_BUDGET,
};

#[test]
fn subject_is_always_first() {
    let out = prepare_text("Quarterly report", "Body text here.");
    assert!(out.starts_with("Quarterly report\n"));
}

#[test]
fn quoted_reply_block_removed() {
    let body = "Sounds good, thanks.\n\nOn Mon, Jan 1, Alice wrote:\n> the original\n> message here";
    let out = prepare_text("Re: plan", body);
    assert!(out.contains("Sounds good"));
    assert!(!out.contains("original"));
    assert!(!out.contains("Alice wrote"));
}

#[test]
fn signature_after_dash_dash_removed() {
    let body = "Please review.\n-- \nJohn Geer\nSenior Engineer\njohn@example.com";
    let out = prepare_text("Review", body);
    assert!(out.contains("Please review"));
    assert!(!out.contains("Senior Engineer"));
    assert!(!out.contains("john@example.com"));
}

#[test]
fn html_is_stripped_as_fallback() {
    let body = "<html><body><p>Hello <b>world</b></p></body></html>";
    let out = prepare_text("Hi", body);
    assert!(out.contains("Hello"));
    assert!(out.contains("world"));
    assert!(!out.contains('<'));
    assert!(!out.contains('>'));
}

#[test]
fn plain_text_with_angle_brackets_is_not_mangled() {
    // No HTML tell-tales, so the body is left alone (aside from quote rules).
    let body = "Use a < b to compare values.";
    let out = prepare_text("Math", body);
    assert!(out.contains("Use a < b to compare"));
}

#[test]
fn char_budget_respected() {
    let long_body = "x".repeat(5000);
    let out = prepare_text("Subj", &long_body);
    assert!(out.chars().count() <= 2000, "len = {}", out.chars().count());
}

#[test]
fn char_budget_counts_chars_not_bytes() {
    // Multibyte chars must not be split and must be counted as one each.
    let long_body = "é".repeat(5000);
    let out = prepare_text("S", &long_body);
    assert!(out.chars().count() <= 2000);
    // Still valid UTF-8 (String guarantees this; a bad split would panic).
    assert!(out.chars().all(|c| c == 'é' || c == 'S' || c == '\n'));
}

#[test]
fn empty_body_is_safe() {
    let out = prepare_text("Only a subject", "");
    assert_eq!(out, "Only a subject");
}

#[test]
fn empty_subject_and_body_is_safe() {
    let out = prepare_text("", "");
    assert_eq!(out, "");
}

#[test]
fn the_parts_are_put_together_exactly() {
    assert_eq!(prepare_text("  Hi  ", "  body \n"), "Hi\nbody");
    assert_eq!(prepare_text("Hi", " \n \n"), "Hi");
    assert_eq!(prepare_text(" \t", "body"), "body");
    assert_eq!(prepare_text("Hi", "a\n\nb"), "Hi\na\n\nb");
}

#[test]
fn tags_leave_a_space_and_whitespace_collapses() {
    assert_eq!(strip_html("<p>one</p><p>two</p>"), "one two");
    assert_eq!(strip_html("a > b"), "a b");
    assert_eq!(strip_html("never <closed"), "never");
    assert_eq!(strip_html("<a <b> c > d"), "c d");
    assert_eq!(collapse_whitespace("  a \t\n b\u{a0}c "), "a b c");
    assert_eq!(collapse_whitespace(&collapse_whitespace(" x  y ")), "x y");
    assert_eq!(collapse_whitespace(" \n "), "");
}

#[test]
fn tags_are_found_in_any_case() {
    for body in ["<HTML>", "x<Body y", "<div", "<P>", "<bR/>", "<table>"] {
        assert!(looks_like_html(body), "{body}");
    }
    for body in ["", "<p", "< br", "html", "a < b", "<span>"] {
        assert!(!looks_like_html(body), "{body}");
    }
}

#[test]
fn a_signature_begins_at_the_first_delimiter() {
    assert_eq!(drop_signature("a\n-- \nb\n--\nc"), "a");
    assert_eq!(drop_signature("a\n--\nb"), "a");
    assert_eq!(drop_signature("a\r\n--\t \r\nb"), "a");
    assert_eq!(drop_signature("a\n --\n---\n-- x\nb"), "a\n --\n---\n-- x\nb");
    assert_eq!(drop_signature("-- \nall"), "");
    assert_eq!(drop_signature("a\r\nb\n"), "a\nb");
}

#[test]
fn quoted_lines_are_those_with_a_bracket_or_an_attribution() {
    assert_eq!(drop_quoted_lines("a\n> b\n  > c\nd"), "a\nd");
    assert_eq!(drop_quoted_lines("On Monday, Al wrote:  \nx"), "x");
    let text = "On time.\nSo Al wrote:\nOnly wrote:";
    assert_eq!(drop_quoted_lines(text), text);
    assert_eq!(drop_quoted_lines("  a >\n\n"), "a >");
    assert_eq!(drop_quoted_lines(">"), "");
}

#[test]
fn cleaning_takes_the_markup_out_first() {
    assert_eq!(clean_body("<div>On Monday Al wrote:</div>"), "");
    assert_eq!(clean_body("<div>kept</div> -- <br> kept too"), "kept -- kept too");
    assert_eq!(clean_body("kept\n> gone\n-- \ngone"), "kept");
}

#[test]
fn texts_are_cut_by_characters() {
    assert_eq!(truncate_chars("h\u{e9}llo", 2), "h\u{e9}");
    assert_eq!(truncate_chars("abc", 3), "abc");
    assert_eq!(truncate_chars("abc", 0), "");
    assert_eq!(CHAR_BUDGET, 2000);
}
