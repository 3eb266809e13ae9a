//! Which message files are handed to the mail parser.
//!
//! `mail_parser` does not get through every file: on a few shapes its arithmetic
//! overflows, its bookkeeping of nested messages fails, or it recurses without
//! bound. [`can_parse`] tells such files apart before they are parsed. Where telling
//! exactly would take parsing the file, one that may have such a shape is left out
//! too. The shapes are described on the text of a file, one character for each byte,
//! in small letters; a position of a text stands in front of its character.

use vstd::prelude::*;

use crate::rawscan::text_is_sound;
use crate::strings::{ascii_lower, contains, lower_chars, occurs_at};

verus! {

/// How many headers that can open a nested message a file may hold: a bound on how
/// deep the parser has to recurse.
pub const MAX_NESTED: usize = 1000;

/// The bytes `raw` as characters, the ASCII letters small.
pub open spec fn lowered(raw: Seq<u8>) -> Seq<char> {
    ascii_lower(Seq::new(raw.len(), |i: int| raw[i] as char))
}

/// Whether `c` is whitespace that does not end a line.
pub open spec fn is_padding(c: char) -> bool {
    c == ' ' || c == '\t' || c == '\u{c}' || c == '\r'
}

/// Whether `c` is a letter.
pub open spec fn is_letter(c: char) -> bool {
    'a' <= c <= 'z'
}

/// Whether `c` may stand between the parts of a header that belong together:
/// whitespace, a quote or a backslash.
pub open spec fn is_filler(c: char) -> bool {
    is_padding(c) || c == '\n' || c == '"' || c == '\\'
}

/// `t` without what may stand between the parts of a header.
pub open spec fn squeezed(t: Seq<char>) -> Seq<char> {
    t.filter(|c: char| !is_filler(c))
}

/// Whether the squeezed text up to position `i` of `t` ends in `p`, and the last
/// character of it stands right in front of that position.
pub open spec fn ends_in(t: Seq<char>, i: int, p: Seq<char>) -> bool {
    0 < i <= t.len() && !is_filler(t[i - 1]) && p.is_suffix_of(squeezed(t.take(i)))
}

// Header blocks.

/// Whether the parser may read a line feed in position `p` of a Date header as
/// part of the zone: a zone takes the two characters behind its first letter,
/// whatever they are.
pub open spec fn in_zone(t: Seq<char>, p: int) -> bool {
    first_letter_at(t, p - 1) || first_letter_at(t, p - 2)
}

/// Whether a run of letters begins at position `i` of `t`.
pub open spec fn first_letter_at(t: Seq<char>, i: int) -> bool {
    0 <= i < t.len() && is_letter(t[i]) && (i == 0 || !is_letter(t[i - 1]))
}

/// Whether a header goes on behind the line feed in position `p`.
pub open spec fn folds_at(t: Seq<char>, p: int) -> bool {
    p + 1 < t.len() && (t[p + 1] == ' ' || t[p + 1] == '\t')
}

/// Whether the parser may read what stands at position `i` of `t` as part of the
/// value of a Date header.
pub open spec fn in_date(t: Seq<char>, i: int) -> bool
    decreases i,
{
    0 < i <= t.len() && (ends_in(t, i, "date:"@) || (in_date(t, i - 1) && (t[i - 1] != '\n'
        || in_zone(t, i - 1) || folds_at(t, i - 1))))
}

/// Whether the line feed in position `p` of `t` ends an empty line, and with it
/// any header block that reaches up to there.
pub open spec fn closes_block(t: Seq<char>, p: int) -> bool {
    &&& 0 <= p < t.len() && t[p] == '\n'
    &&& (p >= 1 && t[p - 1] == '\n' && !in_date(t, p)) || (p >= 2 && t[p - 1] == '\r' && t[p - 2]
        == '\n' && !in_date(t, p - 1))
}

/// How many header blocks were closed in front of position `i` of `t`. Positions
/// with one number may belong to one header block.
pub open spec fn blocks(t: Seq<char>, i: int) -> nat
    decreases i,
{
    if i <= 0 {
        0
    } else if closes_block(t, i - 1) {
        blocks(t, i - 1) + 1
    } else {
        blocks(t, i - 1)
    }
}

/// Whether nothing but padding stands on its line in front of position `i` of `t`.
pub open spec fn blank_up_to(t: Seq<char>, i: int) -> bool
    decreases i,
{
    i <= 0 || t[i - 1] == '\n' || (is_padding(t[i - 1]) && blank_up_to(t, i - 1))
}

/// Whether the line feed in position `p` of `t` ends a line of nothing but padding,
/// which a header block may end with.
pub open spec fn ends_blank_line(t: Seq<char>, p: int) -> bool {
    0 <= p < t.len() && t[p] == '\n' && blank_up_to(t, p)
}

// Headers.

/// Whether a Content-Type header has its value from position `i` of `t` on.
pub open spec fn type_at(t: Seq<char>, i: int) -> bool {
    ends_in(t, i, "content-type:"@)
}

/// Where the header with its value at position `i` of `t` ends.
pub open spec fn header_end(t: Seq<char>, i: int) -> int
    decreases t.len() - i,
{
    if i >= t.len() || (t[i] == '\n' && !folds_at(t, i)) {
        i
    } else {
        header_end(t, i + 1)
    }
}

/// Where the type ends that a header has from position `i` of `t` on: at a
/// semicolon, at the end of the header, or where a comment begins.
pub open spec fn type_end(t: Seq<char>, i: int) -> int
    decreases t.len() - i,
{
    if i >= t.len() || t[i] == ';' || t[i] == '(' || (t[i] == '\n' && !folds_at(t, i)) {
        i
    } else {
        type_end(t, i + 1)
    }
}

/// Whether a comment stands in the type at position `i` of `t`, so that what the
/// type is takes parsing it.
pub open spec fn is_obscure(t: Seq<char>, i: int) -> bool {
    type_end(t, i) < t.len() && t[type_end(t, i)] == '('
}

/// The type at position `i` of `t`.
pub open spec fn type_text(t: Seq<char>, i: int) -> Seq<char> {
    squeezed(t.subrange(i, type_end(t, i)))
}

/// Whether the header with its value at position `i` of `t` may make its part a
/// message.
pub open spec fn makes_message(t: Seq<char>, i: int) -> bool {
    type_at(t, i) && (is_obscure(t, i) || contains(type_text(t, i), "message/rfc822"@) || contains(
        type_text(t, i),
        "message/global"@,
    ))
}

/// Whether the header with its value at position `i` of `t` may give its part parts of
/// its own.
pub open spec fn makes_multipart(t: Seq<char>, i: int) -> bool {
    type_at(t, i) && (is_obscure(t, i) || contains(type_text(t, i), "multipart"@))
}

/// Whether the header with its value at position `i` of `t` may make its part a
/// digest, whose parts are messages where they have no type.
pub open spec fn makes_digest(t: Seq<char>, i: int) -> bool {
    type_at(t, i) && (is_obscure(t, i) || contains(type_text(t, i), "multipart/digest"@))
}

/// Whether a header that may give its part the quoted-printable encoding reaches up
/// to position `i` of `t`.
pub open spec fn names_quoted(t: Seq<char>, i: int) -> bool {
    ends_in(t, i, "content-transfer-encoding:quoted-printable"@) || ends_in(
        t,
        i,
        "content-transfer-encoding:=?"@,
    )
}

/// Whether a header that may give its part an encoding that has to be undone
/// reaches up to position `i` of `t`.
pub open spec fn names_encoding(t: Seq<char>, i: int) -> bool {
    names_quoted(t, i) || ends_in(t, i, "content-transfer-encoding:base64"@)
}

// The shapes.

/// Whether position `i` of `t` stands behind an equals sign with nothing but
/// padding in between.
pub open spec fn after_equals(t: Seq<char>, i: int) -> bool {
    exists|j: int|
        0 <= j < i <= t.len() && #[trigger] t[j] == '=' && (forall|k: int|
            j < k < i ==> is_padding(t[k]))
}

/// Whether a soft line break of `t`, at the line feed in position `i`, is
/// followed by two dashes, as in front of a boundary.
pub open spec fn bare_soft_break_at(t: Seq<char>, i: int) -> bool {
    &&& 0 <= i && i + 2 < t.len()
    &&& t[i] == '\n' && t[i + 1] == '-' && t[i + 2] == '-'
    &&& after_equals(t, i)
}

/// Whether `c` has its share in a byte that quoted-printable text decodes to. A byte
/// takes two such characters at most.
pub open spec fn is_solid(c: char) -> bool {
    !(c == '=' || c == '\n' || is_padding(c))
}

/// How many of the first `i` characters of `t` are solid.
pub open spec fn solids(t: Seq<char>, i: int) -> nat
    decreases i,
{
    if i <= 0 {
        0
    } else if is_solid(t[i - 1]) {
        solids(t, i - 1) + 1
    } else {
        solids(t, i - 1)
    }
}

/// Whether a header block that may name the quoted-printable encoding ends at the
/// line feed in position `p` of `t`.
pub open spec fn opens_quoted(t: Seq<char>, p: int) -> bool {
    ends_blank_line(t, p) && exists|q: int|
        q <= p && #[trigger] names_quoted(t, q) && blocks(t, q) == blocks(t, p)
}

/// Whether `t` may hold a quoted-printable part that ends in a soft line break when
/// fewer than two bytes are decoded: the parser takes back the line end that it has
/// not written.
pub open spec fn breaks_early(t: Seq<char>) -> bool {
    exists|p: int, i: int| #[trigger]
        opens_quoted(t, p) && p < i && #[trigger] bare_soft_break_at(t, i) && solids(t, i)
            <= solids(t, p) + 2
}

/// How many headers among the first `i` positions of `t` can open a nested message.
pub open spec fn nested(t: Seq<char>, i: int) -> nat
    decreases i,
{
    if i <= 0 {
        0
    } else if makes_message(t, i) || makes_digest(t, i) {
        nested(t, i - 1) + 1
    } else {
        nested(t, i - 1)
    }
}

/// Whether the number whose negation has no absolute value in 64 bits reaches up to
/// position `i` of `t`.
pub open spec fn names_extreme(t: Seq<char>, i: int) -> bool {
    ends_in(t, i, "9223372036854775808"@)
}

/// Whether a Received header of `t` may hold a zone that has no absolute value.
pub open spec fn has_extreme_zone(t: Seq<char>) -> bool {
    exists|i: int, j: int| #[trigger]
        ends_in(t, i, "received:"@) && #[trigger] names_extreme(t, j) && blocks(t, i) == blocks(
            t,
            j,
        )
}

/// Whether `t` may hold a message inside a message that has to be decoded first,
/// so that what the parser comes to read does not stand in `t`.
pub open spec fn hides_message(t: Seq<char>) -> bool {
    exists|i: int, j: int| #[trigger]
        makes_message(t, i) && #[trigger] names_encoding(t, j) && blocks(t, i) == blocks(t, j)
}

/// Whether the headers at positions `i` and `j` of `t` may make a message that is
/// nothing but another message: they stand in one header block, or in two of which
/// one follows the other.
pub open spec fn are_nested(t: Seq<char>, i: int, j: int) -> bool {
    i < j && makes_message(t, i) && makes_message(t, j) && blocks(t, j) <= blocks(t, i) + 1
}

/// Whether a part of `t` may hold a message that is nothing but another message: the
/// parser restores only one of the two where the part ends.
pub open spec fn nests_directly(t: Seq<char>) -> bool {
    exists|k: int, i: int, j: int|
        k < i && #[trigger] makes_multipart(t, k) && #[trigger] are_nested(t, i, j)
}

// Digests.

/// Whether `c` stands for itself in a boundary.
pub open spec fn is_boundary_char(c: char) -> bool {
    is_letter(c) || '0' <= c <= '9' || c == '=' || c == '_' || c == '-' || c == '+' || c == '.' || c
        == '/' || c == ':' || c == ','
}

/// The value of the header at position `i` of `t`.
pub open spec fn header_value(t: Seq<char>, i: int) -> Seq<char> {
    t.subrange(i, header_end(t, i))
}

/// What stands behind the name of the boundary in the header of a digest that has
/// no other parameter.
pub open spec fn boundary_text(t: Seq<char>, i: int) -> Seq<char> {
    squeezed(header_value(t, i)).skip("multipart/digest;boundary="@.len() as int)
}

/// Whether the header at position `i` of `t` makes its part a digest, has the
/// boundary for its only parameter, and the boundary stands there as it is.
pub open spec fn is_plain_digest(t: Seq<char>, i: int) -> bool {
    let w = boundary_text(t, i);
    &&& "multipart/digest;boundary="@.is_prefix_of(squeezed(header_value(t, i)))
    &&& w.len() > 0
    &&& forall|k: int| 0 <= k < w.len() ==> is_boundary_char(#[trigger] w[k])
    &&& contains(header_value(t, i), "boundary="@ + w) || contains(
        header_value(t, i),
        "boundary=\""@ + w,
    )
}

/// Whether a Content-Type header with a type has its value from position `i` of `t`
/// on, and has a line of its own.
pub open spec fn typed_at(t: Seq<char>, i: int) -> bool {
    let line = i - "content-type:"@.len();
    &&& type_at(t, i)
    &&& line >= 1 && t[line - 1] == '\n' && !in_date(t, line)
    &&& occurs_at(t, "content-type:"@, line)
    &&& (i < t.len() && is_letter(t[i])) || (i + 1 < t.len() && t[i] == ' ' && is_letter(t[i + 1]))
}

/// Whether the line feed or form feed in position `p` of `t` may end a header block.
pub open spec fn may_close(t: Seq<char>, p: int) -> bool {
    ends_blank_line(t, p) || (0 <= p < t.len() && t[p] == '\u{c}')
}

/// Whether no header block can end between positions `x` and `i` of `t`.
pub open spec fn is_unbroken(t: Seq<char>, x: int, i: int) -> bool {
    forall|p: int| x <= p < i ==> !(#[trigger] may_close(t, p))
}

/// Whether the part that begins at position `x` of `t` certainly has a type: the last
/// Content-Type header of its block gives one.
pub open spec fn is_typed_part(t: Seq<char>, x: int) -> bool {
    exists|i: int|
        {
            &&& x + "content-type:"@.len() < i && #[trigger] typed_at(t, i)
            &&& blocks(t, i) == blocks(t, x)
            &&& is_unbroken(t, x, i)
            &&& forall|k: int| i < k && #[trigger] type_at(t, k) ==> blocks(t, k) != blocks(t, x)
        }
}

/// Whether the part without a type that begins at position `x` of `t` may be an
/// encoded message, or be nothing but another message.
pub open spec fn is_odd_part(t: Seq<char>, x: int) -> bool {
    ||| exists|j: int| x < j && #[trigger] names_encoding(t, j) && blocks(t, j) == blocks(t, x)
    ||| exists|j: int| x < j && #[trigger] makes_message(t, j) && blocks(t, j) <= blocks(t, x) + 1
}

/// Whether a part of `t` that begins with `d` has no certain type, and may be an
/// encoded message or be nothing but another message.
pub open spec fn has_odd_part(t: Seq<char>, d: Seq<char>) -> bool {
    exists|x: int| #[trigger] occurs_at(t, d, x) && !is_typed_part(t, x) && is_odd_part(t, x)
}

/// Whether the digest with its header at position `i` of `t` may have a part that is
/// a message for want of a type, and that has to be decoded first or is nothing but
/// another message. Where the boundary is not plain, any part may be one.
pub open spec fn is_odd_digest(t: Seq<char>, i: int) -> bool {
    makes_digest(t, i) && if is_plain_digest(t, i) {
        has_odd_part(t, "--"@ + boundary_text(t, i))
    } else {
        (exists|j: int| #[trigger] names_encoding(t, j)) || (exists|j: int|
            j != i && #[trigger] makes_message(t, j))
    }
}

/// Whether `t` may hold a digest with such a part.
pub open spec fn has_odd_digest(t: Seq<char>) -> bool {
    exists|i: int| #[trigger] is_odd_digest(t, i)
}

/// Whether `t` has none of the shapes that the parser does not get through.
pub open spec fn is_sound(t: Seq<char>) -> bool {
    &&& nested(t, t.len() as int) <= MAX_NESTED
    &&& !breaks_early(t)
    &&& !has_extreme_zone(t)
    &&& !hides_message(t)
    &&& !nests_directly(t)
    &&& !has_odd_digest(t)
}

/// Whether a file with the bytes `raw` can be handed to the mail parser: it is
/// no longer than the parser's counters reach, and its text has none of the shapes
/// that the parser does not get through.
pub open spec fn parsable(raw: Seq<u8>) -> bool {
    raw.len() <= i32::MAX && is_sound(lowered(raw))
}

/// The bytes `raw` as characters, the ASCII letters small.
fn lower_text(raw: &[u8]) -> (r: Vec<char>)
    ensures
        r@ == lowered(raw@),
{
    let mut out: Vec<char> = Vec::new();
    let mut i: usize = 0;
    while i < raw.len()
        invariant
            i <= raw@.len(),
            out@ == Seq::new(i as nat, |k: int| raw@[k] as char),
        decreases raw@.len() - i,
    {
        out.push(raw[i] as char);
        i += 1;
    }
    lower_chars(&out)
}

/// Whether a file with the bytes `raw` can be handed to the mail parser.
pub fn can_parse(raw: &[u8]) -> (r: bool)
    ensures
        r == parsable(raw@),
{
    raw.len() <= i32::MAX as usize && text_is_sound(&lower_text(raw))
}

} // verus!
