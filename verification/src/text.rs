//! `prepare_text`: turn a subject and a body into the single string handed to
//! the embedder.
//!
//! The subject goes first, then a line feed, then the cleaned body, so that the
//! densest signal survives the embedding model's own truncation. Cleaning strips
//! HTML when the body looks like markup and drops the signature and quoted reply
//! material; the result is cut to a character budget.

use vstd::prelude::*;
use vstd::slice::slice_subrange;

use crate::strings::{
    ascii_lower, chars_eq, contains, contains_chars, ends_with_chars, from_chars,
    join, join_chars, lines, lines_of, lower_chars, starts_with_chars, to_chars, trim, trim_chars,
    trim_end, trim_end_chars, trim_start, trim_start_chars, views, words, words_of,
};

verus! {

/// Character budget for the assembled text. The embedding model truncates at 512
/// tokens anyway, about this many characters of English.
pub const CHAR_BUDGET: usize = 2000;

/// At most the first `budget` characters of `s`.
pub open spec fn truncated(s: Seq<char>, budget: nat) -> Seq<char> {
    if s.len() > budget {
        s.take(budget as int)
    } else {
        s
    }
}

/// The text handed to the embedder for a subject and a body.
pub open spec fn prepared(subject: Seq<char>, body: Seq<char>) -> Seq<char> {
    truncated(trim(trim(subject) + seq!['\n'] + cleaned(body)), CHAR_BUDGET as nat)
}

/// The body with markup, signature and quoted replies taken out.
pub open spec fn cleaned(body: Seq<char>) -> Seq<char> {
    let text = if has_markup(body) {
        markup_stripped(body)
    } else {
        body
    };
    unquoted(unsigned(text))
}

/// Whether the body holds one of the tags that give HTML away, in any case.
pub open spec fn has_markup(body: Seq<char>) -> bool {
    let lower = ascii_lower(body);
    ||| contains(lower, "<html"@)
    ||| contains(lower, "<body"@)
    ||| contains(lower, "<div"@)
    ||| contains(lower, "<p>"@)
    ||| contains(lower, "<br"@)
    ||| contains(lower, "<table"@)
}

/// Whether position `i` of `s` stands behind a `<` that no `>` has closed yet.
pub open spec fn in_tag(s: Seq<char>, i: int) -> bool {
    exists|j: int|
        0 <= j < i && #[trigger] s[j] == '<' && (forall|k: int| j < k < i ==> s[k] != '>')
}

/// What position `i` of `s` leaves behind when tags are taken out: a `>` leaves
/// a space, any other character outside a tag leaves itself.
pub open spec fn untagged_at(s: Seq<char>, i: int) -> Seq<char> {
    if s[i] == '>' {
        seq![' ']
    } else if s[i] == '<' || in_tag(s, i) {
        Seq::empty()
    } else {
        seq![s[i]]
    }
}

/// What the first `n` positions of `s` leave behind when tags are taken out.
pub open spec fn untagged(s: Seq<char>, n: nat) -> Seq<char>
    decreases n,
{
    if n == 0 {
        Seq::empty()
    } else {
        untagged(s, (n - 1) as nat) + untagged_at(s, n - 1)
    }
}

/// The words of `s` with one space between each two.
pub open spec fn collapsed(s: Seq<char>) -> Seq<char> {
    join(words(s), seq![' '])
}

/// `body` without its tags, its whitespace collapsed.
pub open spec fn markup_stripped(body: Seq<char>) -> Seq<char> {
    collapsed(untagged(body, body.len()))
}

/// Whether `line` sets a signature off: two dashes, then nothing but whitespace.
pub open spec fn is_delimiter(line: Seq<char>) -> bool {
    trim_end(line) == "--"@ && "--"@.is_prefix_of(line)
}

/// The number of lines in front of the first signature delimiter.
pub open spec fn lines_before_signature(ls: Seq<Seq<char>>) -> nat
    decreases ls.len(),
{
    if ls.len() == 0 || is_delimiter(ls[0]) {
        0
    } else {
        1 + lines_before_signature(ls.drop_first())
    }
}

/// `text` up to its signature.
pub open spec fn unsigned(text: Seq<char>) -> Seq<char> {
    let ls = lines(text);
    join(ls.take(lines_before_signature(ls) as int), seq!['\n'])
}

/// Whether `line` is quoted reply material: it begins with `>`, or it is the
/// `On ... wrote:` line that introduces a quotation.
pub open spec fn is_quoted(line: Seq<char>) -> bool {
    let t = trim_start(line);
    ||| t.len() > 0 && t[0] == '>'
    ||| "On "@.is_prefix_of(t) && "wrote:"@.is_suffix_of(trim_end(t))
}

/// The lines of `text` that are not quoted, trimmed as a whole.
pub open spec fn unquoted(text: Seq<char>) -> Seq<char> {
    trim(join(lines(text).filter(|l: Seq<char>| !is_quoted(l)), seq!['\n']))
}

/// Assemble the text handed to the embedder: the trimmed `subject`, a line feed,
/// then the cleaned `body`, trimmed and cut to [`CHAR_BUDGET`] characters.
///
/// `body` is expected to be the text/plain part where there is one; where it
/// still looks like HTML its tags are stripped here.
pub fn prepare_text(subject: &str, body: &str) -> (r: String)
    ensures
        r@ == prepared(subject@, body@),
{
    let cleaned_body = clean_body(body);
    let subject_chars = to_chars(subject);
    let mut out: Vec<char> = Vec::new();
    out.extend_from_slice(trim_chars(&subject_chars));
    out.push('\n');
    let mut rest = to_chars(&cleaned_body);
    out.append(&mut rest);
    assert(out@ == trim(subject@) + seq!['\n'] + cleaned(body@));
    let whole = from_chars(trim_chars(&out));
    truncate_chars(&whole, CHAR_BUDGET)
}

/// Strip HTML if the body looks like markup, then drop the signature and quoted
/// reply material.
pub fn clean_body(body: &str) -> (r: String)
    ensures
        r@ == cleaned(body@),
{
    let text = if looks_like_html(body) {
        strip_html(body)
    } else {
        body.to_owned()
    };
    let text = drop_signature(&text);
    drop_quoted_lines(&text)
}

/// Heuristic: treat the body as HTML if it contains a tell-tale tag.
pub fn looks_like_html(body: &str) -> (r: bool)
    ensures
        r == has_markup(body@),
{
    let v = to_chars(body);
    let lower = lower_chars(&v);
    contains_chars(&lower, &to_chars("<html")) || contains_chars(&lower, &to_chars("<body"))
        || contains_chars(&lower, &to_chars("<div")) || contains_chars(&lower, &to_chars("<p>"))
        || contains_chars(&lower, &to_chars("<br")) || contains_chars(&lower, &to_chars("<table"))
}

/// Remove HTML tags, leaving a space for each so that words do not fuse, then
/// collapse runs of whitespace.
pub fn strip_html(body: &str) -> (r: String)
    ensures
        r@ == markup_stripped(body@),
{
    let v = to_chars(body);
    let mut out: Vec<char> = Vec::new();
    let mut inside = false;
    let mut i: usize = 0;
    while i < v.len()
        invariant
            i <= v@.len(),
            inside == in_tag(v@, i as int),
            out@ == untagged(v@, i as nat),
        decreases v@.len() - i,
    {
        let c = v[i];
        if c == '<' {
            inside = true;
            assert(v@[i as int] == '<');
        } else if c == '>' {
            inside = false;
            out.push(' ');
        } else if !inside {
            out.push(c);
        }
        proof {
            assert(untagged(v@, (i + 1) as nat) == untagged(v@, i as nat) + untagged_at(
                v@,
                i as int,
            ));
            if c != '<' && c != '>' && in_tag(v@, i as int) {
                let j = choose|j: int|
                    0 <= j < i && #[trigger] v@[j] == '<' && (forall|k: int|
                        j < k < i ==> v@[k] != '>');
                assert(v@[j] == '<');
            }
            if c != '<' && in_tag(v@, i + 1) {
                let j = choose|j: int|
                    0 <= j < i + 1 && #[trigger] v@[j] == '<' && (forall|k: int|
                        j < k < i + 1 ==> v@[k] != '>');
                assert(j < i);
                assert(v@[i as int] != '>');
            }
        }
        i += 1;
    }
    let text = from_chars(&out);
    collapse_whitespace(&text)
}

/// Collapse runs of whitespace into single spaces.
pub fn collapse_whitespace(s: &str) -> (r: String)
    ensures
        r@ == collapsed(s@),
{
    let v = to_chars(s);
    let parts = words_of(&v);
    let joined = join_chars(&parts, ' ');
    from_chars(&joined)
}

/// Drop everything from the signature delimiter line onward. Only the first such
/// delimiter matters.
pub fn drop_signature(text: &str) -> (r: String)
    ensures
        r@ == unsigned(text@),
{
    let v = to_chars(text);
    let all = lines_of(&v);
    let dashes = to_chars("--");
    let ghost ls = lines(text@);
    let mut kept: Vec<Vec<char>> = Vec::new();
    let mut i: usize = 0;
    assert(ls.skip(0) == ls);
    while i < all.len()
        invariant_except_break
            lines_before_signature(ls) == i + lines_before_signature(ls.skip(i as int)),
        invariant
            i <= all@.len(),
            ls == views(all@),
            dashes@ == "--"@,
            views(kept@) == ls.take(i as int),
        ensures
            lines_before_signature(ls) == i,
        decreases all@.len() - i,
    {
        let line = &all[i];
        assert(line@ == ls[i as int]);
        if chars_eq(trim_end_chars(line), &dashes) && starts_with_chars(line, &dashes) {
            assert(ls.skip(i as int)[0] == line@);
            break;
        }
        assert(ls.skip(i as int).drop_first() == ls.skip(i + 1));
        kept.push(line.clone());
        assert(views(kept@) == ls.take(i as int).push(line@));
        i += 1;
    }
    let joined = join_chars(&kept, '\n');
    from_chars(&joined)
}

/// Drop quoted reply material: lines beginning with `>` and the `On ... wrote:`
/// attribution line that introduces them.
pub fn drop_quoted_lines(text: &str) -> (r: String)
    ensures
        r@ == unquoted(text@),
{
    let v = to_chars(text);
    let all = lines_of(&v);
    let ghost ls = lines(text@);
    let ghost keep = |l: Seq<char>| !is_quoted(l);
    let mut kept: Vec<Vec<char>> = Vec::new();
    let mut i: usize = 0;
    while i < all.len()
        invariant
            i <= all@.len(),
            ls == views(all@),
            keep == (|l: Seq<char>| !is_quoted(l)),
            views(kept@) == ls.take(i as int).filter(keep),
        decreases all@.len() - i,
    {
        let line = &all[i];
        assert(line@ == ls[i as int]);
        assert(ls.take(i + 1).drop_last() == ls.take(i as int));
        let ghost before = views(kept@);
        if !is_quoted_line(line) {
            kept.push(line.clone());
            assert(views(kept@) == before.push(line@));
        }
        assert(views(kept@) == ls.take(i + 1).filter(keep)) by {
            reveal(Seq::filter);
        }
        i += 1;
    }
    assert(ls.take(i as int) == ls);
    let joined = join_chars(&kept, '\n');
    from_chars(trim_chars(&joined))
}

/// Whether a line is quoted reply material.
pub fn is_quoted_line(line: &[char]) -> (r: bool)
    ensures
        r == is_quoted(line@),
{
    let t = trim_start_chars(line);
    if t.len() > 0 && t[0] == '>' {
        return true;
    }
    starts_with_chars(t, &to_chars("On ")) && ends_with_chars(
        trim_end_chars(t),
        &to_chars("wrote:"),
    )
}

/// Truncate to at most `budget` characters (not bytes), so that multibyte input
/// is never split inside a character.
pub fn truncate_chars(s: &str, budget: usize) -> (r: String)
    ensures
        r@ == truncated(s@, budget as nat),
{
    let v = to_chars(s);
    if v.len() > budget {
        from_chars(slice_subrange(&v, 0, budget))
    } else {
        s.to_owned()
    }
}

} // verus!
