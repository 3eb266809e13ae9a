use email_classifier::strings::{
    contains_chars, ends_with_chars, from_chars, is_whitespace, join_chars, lines_of, lower_chars,
    starts_with_chars, str_eq, to_chars, trim_str, words_of,
};

const TEXTS: [&str; 12] = [
    "",
    "a",
    " a b ",
    "one\ntwo\r\nthree",
    "\n\n",
    "a\r\r\nb\r",
    "tail\n",
    "\u{a0}wide\u{3000}space\u{2003}",
    "Mixed CASE \u{c9}\u{e9}",
    "\t \u{85}x\u{2028}y",
    "no-break\u{202f}thin",
    "\u{200b}zero width is no whitespace",
];

fn strings(parts: Vec<Vec<char>>) -> Vec<String> {
    parts.iter().map(|p| p.iter().collect()).collect()
}

#[test]
fn whitespace_is_that_of_the_standard_library() {
    for c in '\0'..=char::MAX {
        assert_eq!(is_whitespace(c), c.is_whitespace(), "{c:?}");
    }
}

#[test]
fn texts_are_cut_as_the_standard_library_does() {
    for text in TEXTS {
        let v = to_chars(text);
        assert_eq!(from_chars(&v), text);
        assert_eq!(strings(lines_of(&v)), text.lines().collect::<Vec<_>>(), "{text:?}");
        assert_eq!(strings(words_of(&v)), text.split_whitespace().collect::<Vec<_>>(), "{text:?}");
        assert_eq!(trim_str(text), text.trim(), "{text:?}");
        assert_eq!(from_chars(&lower_chars(&v)), text.to_ascii_lowercase());
    }
}

#[test]
fn texts_are_searched_as_the_standard_library_does() {
    for text in TEXTS {
        for p in ["", "a", "two", "\r\n", "space", "x"] {
            let (v, w) = (to_chars(text), to_chars(p));
            assert_eq!(contains_chars(&v, &w), text.contains(p), "{text:?} {p:?}");
            assert_eq!(starts_with_chars(&v, &w), text.starts_with(p), "{text:?} {p:?}");
            assert_eq!(ends_with_chars(&v, &w), text.ends_with(p), "{text:?} {p:?}");
            assert_eq!(str_eq(text, p), text == p);
        }
    }
}

#[test]
fn parts_are_joined_with_the_separator_between() {
    let parts = |v: &[&str]| v.iter().map(|s| to_chars(s)).collect::<Vec<_>>();
    for v in [vec![], vec!["a"], vec!["a", "", "b"], vec!["", ""]] {
        assert_eq!(from_chars(&join_chars(&parts(&v), ',')), v.join(","));
    }
}
