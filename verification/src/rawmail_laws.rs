//! Which files can be parsed, said of their text: ordinary mail can, whatever its size
//! and its words; the shapes that the parser does not get through cannot, wherever
//! they stand.

use vstd::prelude::*;

use crate::rawmail::{
    after_equals, are_nested, bare_soft_break_at, blank_up_to, blocks, breaks_early, closes_block,
    ends_blank_line, ends_in, folds_at, has_extreme_zone, is_filler, is_obscure, is_padding,
    lowered, makes_digest, makes_message, makes_multipart, names_encoding, names_extreme,
    names_quoted, nested, opens_quoted, parsable, solids, squeezed, type_at, type_end, type_text,
};
use crate::strings::{contains, occurs_at};

verus! {

/// Squeezing takes out whitespace, quotes and backslashes, and keeps the rest in order.
pub proof fn law_squeezing(t: Seq<char>, c: char)
    ensures
        squeezed(Seq::empty()).len() == 0,
        c == ' ' || c == '\t' || c == '\u{c}' || c == '\r' || c == '\n' || c == '"' || c == '\\'
            ==> squeezed(t.push(c)) == squeezed(t),
        !(c == ' ' || c == '\t' || c == '\u{c}' || c == '\r' || c == '\n' || c == '"' || c == '\\')
            ==> squeezed(t.push(c)) == squeezed(t).push(c),
{
    reveal(Seq::filter);
    assert(t.push(c).drop_last() == t);
}

/// The text of a file is its bytes, one character for each, in small letters.
pub proof fn law_text_of_a_file(raw: Seq<u8>, i: int)
    requires
        0 <= i < raw.len(),
    ensures
        lowered(raw).len() == raw.len(),
        65 <= raw[i] <= 90 ==> lowered(raw)[i] as u32 == raw[i] + 32,
        !(65 <= raw[i] <= 90) ==> lowered(raw)[i] as u32 == raw[i],
{
}

proof fn lemma_squeezed_parts(t: Seq<char>, a: int, b: int)
    requires
        0 <= a <= b <= t.len(),
    ensures
        squeezed(t) == squeezed(t.take(a)) + squeezed(t.subrange(a, b)) + squeezed(t.skip(b)),
{
    let keep = |c: char| !is_filler(c);
    assert(t == t.take(a) + t.subrange(a, b) + t.skip(b));
    Seq::filter_distributes_over_add(t.take(a) + t.subrange(a, b), t.skip(b), keep);
    Seq::filter_distributes_over_add(t.take(a), t.subrange(a, b), keep);
}

proof fn lemma_part(x: Seq<char>, m: Seq<char>, y: Seq<char>, p: Seq<char>)
    requires
        contains(m, p),
    ensures
        contains(x + m + y, p),
{
    let i = choose|i: int| #[trigger] occurs_at(m, p, i);
    let s = x + m + y;
    let k = x.len() + i;
    assert(s.subrange(k, k + p.len()) == m.subrange(i, i + p.len()));
    assert(occurs_at(s, p, k));
}

/// What a position ends in, the squeezed text holds.
proof fn lemma_ends_in_held(t: Seq<char>, i: int, p: Seq<char>)
    requires
        ends_in(t, i, p),
    ensures
        contains(squeezed(t), p),
{
    lemma_squeezed_parts(t, 0, i);
    let m = squeezed(t.take(i));
    assert(t.subrange(0, i) == t.take(i));
    let n = m.len() - p.len();
    assert(m.subrange(n, n + p.len()) == p);
    assert(occurs_at(m, p, n));
    lemma_part(squeezed(t.take(0)), m, squeezed(t.skip(i)), p);
}

proof fn lemma_type_end_bounds(t: Seq<char>, i: int)
    requires
        0 <= i <= t.len(),
    ensures
        i <= type_end(t, i) <= t.len(),
    decreases t.len() - i,
{
    if !(i >= t.len() || t[i] == ';' || t[i] == '(' || (t[i] == '\n' && !folds_at(t, i))) {
        lemma_type_end_bounds(t, i + 1);
    }
}

proof fn lemma_type_held(t: Seq<char>, i: int, p: Seq<char>)
    requires
        0 <= i <= t.len(),
        contains(type_text(t, i), p),
    ensures
        contains(squeezed(t), p),
{
    lemma_type_end_bounds(t, i);
    let e = type_end(t, i);
    lemma_squeezed_parts(t, i, e);
    lemma_part(squeezed(t.take(i)), type_text(t, i), squeezed(t.skip(e)), p);
}

/// A name reaches up to a position exactly if its last character stands in front of it, and
/// the squeezed text up to there ends in the name.
pub proof fn law_names(t: Seq<char>, i: int, p: Seq<char>)
    requires
        0 < i <= t.len(),
        p.len() > 0,
        forall|k: int| 0 <= k < p.len() ==> !is_filler(#[trigger] p[k]),
    ensures
        ends_in(t, i, p) ==> t[i - 1] == p.last() && p.is_suffix_of(squeezed(t.take(i))),
        t[i - 1] == p.last() && p.is_suffix_of(squeezed(t.take(i))) ==> ends_in(t, i, p),
        type_at(t, i) <==> ends_in(t, i, "content-type:"@),
{
    let keep = |c: char| !is_filler(c);
    if ends_in(t, i, p) {
        assert(t.take(i).drop_last() == t.take(i - 1));
        assert(t.take(i).last() == t[i - 1]);
        reveal(Seq::filter);
        let s = squeezed(t.take(i));
        assert(s == squeezed(t.take(i - 1)).push(t[i - 1]));
        assert(s.last() == s.subrange(s.len() - p.len(), s.len() as int)[p.len() - 1]);
    }
}

/// Whether `t` opens no message inside a message: it has no Content-Type header, or names
/// neither messages nor digests, and behind no Content-Type a comment that could hide one
/// begins before a semicolon or the end of the header.
pub open spec fn opens_nothing(t: Seq<char>) -> bool {
    ||| !contains(squeezed(t), "content-type:"@)
    ||| !contains(squeezed(t), "message/rfc822"@) && !contains(squeezed(t), "message/global"@)
        && !contains(squeezed(t), "multipart/digest"@) && forall|i: int, j: int|
        #[trigger] type_at(t, i) && i <= j < t.len() && #[trigger] t[j] == '(' ==> exists|k: int|
            i <= k < j && (#[trigger] t[k] == ';' || (t[k] == '\n' && t[k + 1] != ' ' && t[k + 1]
                != '\t'))
}

/// Where a comment is the first thing to end a type, nothing in front of it does.
proof fn lemma_type_end_is_first(t: Seq<char>, i: int, k: int)
    requires
        0 <= i <= k < type_end(t, i),
        i <= t.len(),
    ensures
        k < t.len() && t[k] != ';' && t[k] != '(' && !(t[k] == '\n' && !folds_at(t, k)),
    decreases t.len() - i,
{
    if !(i >= t.len() || t[i] == ';' || t[i] == '(' || (t[i] == '\n' && !folds_at(t, i))) {
        if k > i {
            lemma_type_end_is_first(t, i + 1, k);
        }
    }
}

/// Whether no line of `t` that ends in an equals sign stands above two dashes, or `t`
/// names no quoted-printable encoding.
pub open spec fn breaks_nothing(t: Seq<char>) -> bool {
    ||| !contains(squeezed(t), "content-transfer-encoding:quoted-printable"@) && !contains(
        squeezed(t),
        "content-transfer-encoding:=?"@,
    )
    ||| forall|i: int, j: int|
        0 <= i < j && j + 2 < t.len() && #[trigger] t[i] == '=' && #[trigger] t[j] == '\n' && t[j
            + 1] == '-' && t[j + 2] == '-' ==> exists|k: int|
            i < k < j && !(#[trigger] t[k] == ' ' || t[k] == '\t' || t[k] == '\u{c}' || t[k]
                == '\r')
}

/// Ordinary mail can be parsed, whatever it says and however long it is: all that opens no
/// message inside a message, ends no quoted-printable line in front of two dashes, and
/// holds no Received header or not the one number.
pub proof fn law_ordinary_mail_can_be_parsed(raw: Seq<u8>)
    requires
        raw.len() <= i32::MAX,
        opens_nothing(lowered(raw)),
        breaks_nothing(lowered(raw)),
        !contains(squeezed(lowered(raw)), "received:"@) || !contains(
            squeezed(lowered(raw)),
            "9223372036854775808"@,
        ),
    ensures
        parsable(raw),
{
    let t = lowered(raw);
    assert forall|i: int| !makes_message(t, i) && !makes_digest(t, i) by {
        if type_at(t, i) {
            lemma_ends_in_held(t, i, "content-type:"@);
            lemma_type_end_bounds(t, i);
            if is_obscure(t, i) {
                let j = type_end(t, i);
                assert(t[j] == '(');
                let k = choose|k: int|
                    i <= k < j && (#[trigger] t[k] == ';' || (t[k] == '\n' && t[k + 1] != ' ' && t[k
                        + 1] != '\t'));
                lemma_type_end_is_first(t, i, k);
            }
            if contains(type_text(t, i), "message/rfc822"@) {
                lemma_type_held(t, i, "message/rfc822"@);
            }
            if contains(type_text(t, i), "message/global"@) {
                lemma_type_held(t, i, "message/global"@);
            }
            if contains(type_text(t, i), "multipart/digest"@) {
                lemma_type_held(t, i, "multipart/digest"@);
            }
        }
    }
    lemma_none_nested(t, t.len() as int);
    lemma_no_early_break(t);
    lemma_no_extreme_zone(t);
}

proof fn lemma_none_nested(t: Seq<char>, i: int)
    requires
        forall|k: int| !makes_message(t, k) && !makes_digest(t, k),
    ensures
        nested(t, i) == 0,
    decreases i,
{
    if i > 0 {
        lemma_none_nested(t, i - 1);
    }
}

/// Text without filler is squeezed into itself.
proof fn lemma_squeezed_plain(p: Seq<char>)
    requires
        forall|i: int| 0 <= i < p.len() ==> !is_filler(#[trigger] p[i]),
    ensures
        squeezed(p) == p,
    decreases p.len(),
{
    reveal(Seq::filter);
    if p.len() > 0 {
        let q = p.drop_last();
        assert forall|i: int| 0 <= i < q.len() implies !is_filler(#[trigger] q[i]) by {
            assert(q[i] == p[i]);
        }
        lemma_squeezed_plain(q);
        assert(!is_filler(p[p.len() - 1]));
        assert(q.push(p.last()) == p);
    }
}

/// Behind a name there is a position that ends in it.
proof fn lemma_ends_in(a: Seq<char>, p: Seq<char>, b: Seq<char>)
    requires
        p.len() > 0,
        forall|i: int| 0 <= i < p.len() ==> !is_filler(#[trigger] p[i]),
    ensures
        ends_in(a + p + b, (a.len() + p.len()) as int, p),
{
    let t = a + p + b;
    let n = (a.len() + p.len()) as int;
    let keep = |c: char| !is_filler(c);
    assert(t.take(n) == a + p);
    Seq::filter_distributes_over_add(a, p, keep);
    lemma_squeezed_plain(p);
    let s = squeezed(a) + p;
    assert(squeezed(t.take(n)) == s);
    assert(s.subrange(s.len() - p.len(), s.len() as int) == p);
    assert(t[n - 1] == p[p.len() - 1]);
}

/// Between two positions with no empty line there is no end of a header block.
proof fn lemma_same_block(t: Seq<char>, i: int, j: int)
    requires
        0 <= i <= j <= t.len(),
        forall|p: int| i <= p < j && #[trigger] t[p] == '\n' ==> p >= 1 && t[p - 1] != '\n' && t[p
            - 1] != '\r',
    ensures
        blocks(t, i) == blocks(t, j),
    decreases j - i,
{
    if i < j {
        lemma_same_block(t, i, j - 1);
        if closes_block(t, j - 1) {
            assert(t[j - 1] == '\n');
        }
    }
}

proof fn lemma_blocks_step(t: Seq<char>, i: int)
    ensures
        blocks(t, i) <= blocks(t, i + 1) <= blocks(t, i) + 1,
{
}

/// The type of a header that reaches to the end of its line.
proof fn lemma_type_line(t: Seq<char>, i: int, n: int)
    requires
        0 <= i,
        0 <= n,
        i + n + 1 < t.len(),
        forall|k: int| i <= k < i + n ==> #[trigger] t[k] != '\n' && t[k] != ';' && t[k] != '(',
        t[i + n] == '\n',
        t[i + n + 1] != ' ' && t[i + n + 1] != '\t',
    ensures
        type_end(t, i) == i + n,
    decreases n,
{
    if n > 0 {
        assert(t[i] != '\n' && t[i] != ';' && t[i] != '(');
        lemma_type_line(t, i + 1, n - 1);
    }
}

proof fn lemma_makes_message(a: Seq<char>, b: Seq<char>)
    requires
        b.len() > 0,
        b[0] != ' ' && b[0] != '\t',
    ensures
        makes_message(a + "content-type:message/rfc822\n"@ + b, a.len() as int + 13),
{
    reveal_strlit("content-type:message/rfc822\n");
    reveal_strlit("content-type:");
    reveal_strlit("message/rfc822");
    let name = "content-type:"@;
    let kind = "message/rfc822"@;
    let t = a + "content-type:message/rfc822\n"@ + b;
    let rest = kind + seq!['\n'] + b;
    assert(t =~= a + name + rest);
    assert forall|i: int| 0 <= i < name.len() implies !is_filler(#[trigger] name[i]) by {}
    assert forall|i: int| 0 <= i < kind.len() implies !is_filler(#[trigger] kind[i]) by {}
    lemma_ends_in(a, name, rest);
    let i = a.len() as int + 13;
    assert forall|k: int| i <= k < i + 14 implies #[trigger] t[k] != '\n' && t[k] != ';' && t[k]
        != '(' by {
        assert(t[k] == kind[k - i]);
    }
    assert(t[i + 14] == '\n');
    assert(t[i + 15] == b[0]);
    lemma_type_line(t, i, 14);
    assert(t.subrange(i, i + 14) =~= kind);
    lemma_squeezed_plain(kind);
    assert(kind.subrange(0, 14) == kind);
    assert(occurs_at(kind, kind, 0));
    assert(contains(type_text(t, i), kind));
}

/// A message that is encoded cannot be parsed, wherever it stands.
pub proof fn law_encoded_message_cannot_be_parsed(raw: Seq<u8>, a: Seq<char>, b: Seq<char>)
    requires
        lowered(raw) == a + "content-type:message/rfc822\n"@
            + "content-transfer-encoding:base64"@ + b,
    ensures
        !parsable(raw),
{
    reveal_strlit("content-type:message/rfc822\n");
    reveal_strlit("content-transfer-encoding:base64");
    let t = lowered(raw);
    let line = "content-type:message/rfc822\n"@;
    let code = "content-transfer-encoding:base64"@;
    assert(t =~= a + line + (code + b));
    lemma_makes_message(a, code + b);
    assert(t =~= (a + line) + code + b);
    assert forall|i: int| 0 <= i < code.len() implies !is_filler(#[trigger] code[i]) by {}
    lemma_ends_in(a + line, code, b);
    let i = a.len() as int + 13;
    let j = (a.len() + line.len() + code.len()) as int;
    assert forall|p: int| i <= p < j && #[trigger] t[p] == '\n' implies p >= 1 && t[p - 1] != '\n'
        && t[p - 1] != '\r' by {
        if p < a.len() + line.len() {
            assert(t[p] == line[p - a.len()]);
            assert(t[p - 1] == line[p - 1 - a.len()]);
        } else {
            assert(t[p] == code[p - a.len() - line.len()]);
        }
    }
    lemma_same_block(t, i, j);
    assert(makes_message(t, i) && names_encoding(t, j));
}

proof fn lemma_makes_multipart(a: Seq<char>, b: Seq<char>)
    requires
        b.len() > 0,
        b[0] != ' ' && b[0] != '\t',
    ensures
        makes_multipart(a + "content-type:multipart\n"@ + b, a.len() as int + 13),
{
    reveal_strlit("content-type:multipart\n");
    reveal_strlit("content-type:");
    reveal_strlit("multipart");
    let name = "content-type:"@;
    let kind = "multipart"@;
    let t = a + "content-type:multipart\n"@ + b;
    let rest = kind + seq!['\n'] + b;
    assert(t =~= a + name + rest);
    assert forall|i: int| 0 <= i < name.len() implies !is_filler(#[trigger] name[i]) by {}
    assert forall|i: int| 0 <= i < kind.len() implies !is_filler(#[trigger] kind[i]) by {}
    lemma_ends_in(a, name, rest);
    let i = a.len() as int + 13;
    assert forall|k: int| i <= k < i + 9 implies #[trigger] t[k] != '\n' && t[k] != ';' && t[k]
        != '(' by {
        assert(t[k] == kind[k - i]);
    }
    assert(t[i + 9] == '\n');
    assert(t[i + 10] == b[0]);
    lemma_type_line(t, i, 9);
    assert(t.subrange(i, i + 9) =~= kind);
    lemma_squeezed_plain(kind);
    assert(kind.subrange(0, 9) == kind);
    assert(occurs_at(kind, kind, 0));
    assert(contains(type_text(t, i), kind));
}

proof fn lemma_two_messages(a: Seq<char>, b: Seq<char>)
    requires
        b.len() > 0,
        b[0] != ' ' && b[0] != '\t',
    ensures
        are_nested(
            a + "content-type:message/rfc822\n"@ + seq!['\n'] + "content-type:message/rfc822\n"@
                + b,
            a.len() as int + 13,
            a.len() as int + 42,
        ),
{
    reveal_strlit("content-type:message/rfc822\n");
    let line = "content-type:message/rfc822\n"@;
    let nl = seq!['\n'];
    let t = a + line + nl + line + b;
    assert(t =~= a + line + (nl + line + b));
    lemma_makes_message(a, nl + line + b);
    assert(t =~= (a + line + nl) + line + b);
    lemma_makes_message(a + line + nl, b);
    let n = a.len() as int;
    let i = n + 13;
    let j = n + 42;
    let e = n + 28;
    assert forall|p: int| i <= p < e && #[trigger] t[p] == '\n' implies p >= 1 && t[p - 1] != '\n'
        && t[p - 1] != '\r' by {
        assert(t[p] == line[p - n]);
        assert(t[p - 1] == line[p - 1 - n]);
    }
    assert forall|p: int| e + 1 <= p < j && #[trigger] t[p] == '\n' implies p >= 1 && t[p - 1]
        != '\n' && t[p - 1] != '\r' by {
        assert(t[p] == line[p - e - 1]);
    }
    lemma_same_block(t, i, e);
    lemma_blocks_step(t, e);
    lemma_same_block(t, e + 1, j);
}

/// A message that is nothing but a message cannot be parsed behind the header of a
/// multipart, wherever it stands.
pub proof fn law_nested_message_cannot_be_parsed(
    raw: Seq<u8>,
    front: Seq<char>,
    between: Seq<char>,
    b: Seq<char>,
)
    requires
        lowered(raw) == front + "content-type:multipart\n"@ + between
            + "content-type:message/rfc822\n"@ + seq!['\n'] + "content-type:message/rfc822\n"@ + b,
        between.len() > 0,
        between[0] != ' ' && between[0] != '\t',
        b.len() > 0,
        b[0] != ' ' && b[0] != '\t',
    ensures
        !parsable(raw),
{
    let t = lowered(raw);
    let multi = "content-type:multipart\n"@;
    let line = "content-type:message/rfc822\n"@;
    let nl = seq!['\n'];
    let a = front + multi + between;
    let rest = between + line + nl + line + b;
    assert(rest[0] == between[0]);
    lemma_makes_multipart(front, rest);
    assert(t =~= front + multi + rest);
    lemma_two_messages(a, b);
    let m = front.len() as int + 13;
    let i = a.len() as int + 13;
    let j = a.len() as int + 42;
    assert(m < i);
    assert(makes_multipart(t, m) && are_nested(t, i, j));
}

/// A quoted-printable part that is nothing but a soft line break in front of two dashes
/// cannot be parsed, wherever it stands.
pub proof fn law_early_break_cannot_be_parsed(raw: Seq<u8>, a: Seq<char>, b: Seq<char>)
    requires
        lowered(raw) == a + "content-transfer-encoding:quoted-printable"@ + "\n\n=\n--"@ + b,
    ensures
        !parsable(raw),
{
    reveal_strlit("content-transfer-encoding:quoted-printable");
    reveal_strlit("\n\n=\n--");
    let t = lowered(raw);
    let code = "content-transfer-encoding:quoted-printable"@;
    let tail = "\n\n=\n--"@;
    assert(t =~= a + code + (tail + b));
    assert forall|i: int| 0 <= i < code.len() implies !is_filler(#[trigger] code[i]) by {}
    lemma_ends_in(a, code, tail + b);
    let q = (a.len() + code.len()) as int;
    assert(t[q - 1] == code[code.len() - 1]);
    assert(t[q] == '\n' && t[q + 1] == '\n' && t[q + 2] == '=' && t[q + 3] == '\n' && t[q + 4]
        == '-' && t[q + 5] == '-');
    let p = q + 1;
    lemma_same_block(t, q, p);
    assert(names_quoted(t, q));
    assert(blank_up_to(t, p));
    assert(ends_blank_line(t, p));
    assert(opens_quoted(t, p));
    let i = q + 3;
    assert(t[q + 2] == '=');
    assert(after_equals(t, i));
    assert(bare_soft_break_at(t, i));
    assert(solids(t, q + 3) == solids(t, q + 2));
    assert(solids(t, q + 2) == solids(t, q + 1));
    assert(breaks_early(t));
}

/// A Received header with the number whose negation has no absolute value cannot be
/// parsed, wherever it stands.
pub proof fn law_extreme_zone_cannot_be_parsed(
    raw: Seq<u8>,
    a: Seq<char>,
    between: Seq<char>,
    b: Seq<char>,
)
    requires
        lowered(raw) == a + "received:"@ + between + "9223372036854775808"@ + b,
        forall|i: int| 0 <= i < between.len() ==> #[trigger] between[i] != '\n',
    ensures
        !parsable(raw),
{
    reveal_strlit("received:");
    reveal_strlit("9223372036854775808");
    let t = lowered(raw);
    let name = "received:"@;
    let digits = "9223372036854775808"@;
    assert forall|i: int| 0 <= i < name.len() implies !is_filler(#[trigger] name[i]) by {}
    assert forall|i: int| 0 <= i < digits.len() implies !is_filler(#[trigger] digits[i]) by {}
    assert(t =~= a + name + (between + digits + b));
    lemma_ends_in(a, name, between + digits + b);
    lemma_ends_in(a + name + between, digits, b);
    let i = (a.len() + name.len()) as int;
    let j = (a.len() + name.len() + between.len() + digits.len()) as int;
    assert forall|p: int| i <= p < j && #[trigger] t[p] == '\n' implies p >= 1 && t[p - 1] != '\n'
        && t[p - 1] != '\r' by {
        if p < i + between.len() {
            assert(t[p] == between[p - i]);
        } else {
            assert(t[p] == digits[p - i - between.len()]);
        }
    }
    lemma_same_block(t, i, j);
    assert(ends_in(t, i, "received:"@) && names_extreme(t, j));
}

/// A file that is longer than the parser counts cannot be parsed.
pub proof fn law_long_file_cannot_be_parsed(raw: Seq<u8>)
    requires
        raw.len() > 2147483647,
    ensures
        !parsable(raw),
{
}

/// Mail with messages in it can be parsed too, up to a thousand of them, as long as none is
/// encoded and none is nothing but another one: nothing else stands against it.
pub proof fn law_forwarded_messages_can_be_parsed(raw: Seq<u8>)
    requires
        raw.len() <= i32::MAX,
        breaks_nothing(lowered(raw)),
        !contains(squeezed(lowered(raw)), "received:"@) || !contains(
            squeezed(lowered(raw)),
            "9223372036854775808"@,
        ),
        nested(lowered(raw), raw.len() as int) <= 1000,
        forall|i: int| !(#[trigger] makes_digest(lowered(raw), i)),
        forall|i: int, j: int|
            i < j && #[trigger] makes_message(lowered(raw), i) && #[trigger] makes_message(
                lowered(raw),
                j,
            ) ==> blocks(lowered(raw), j) >= blocks(lowered(raw), i) + 2,
        forall|i: int, j: int| #[trigger]
            makes_message(lowered(raw), i) && #[trigger] names_encoding(lowered(raw), j) ==> blocks(
                lowered(raw),
                i,
            ) != blocks(lowered(raw), j),
    ensures
        parsable(raw),
{
    let t = lowered(raw);
    lemma_no_early_break(t);
    lemma_no_extreme_zone(t);
    assert forall|i: int, j: int| !(#[trigger] are_nested(t, i, j)) by {
        if are_nested(t, i, j) {
            assert(makes_message(t, i) && makes_message(t, j));
        }
    }
}

proof fn lemma_no_early_break(t: Seq<char>)
    requires
        breaks_nothing(t),
    ensures
        !breaks_early(t),
{
    if breaks_early(t) {
        let (p, i) = choose|p: int, i: int| #[trigger]
            opens_quoted(t, p) && p < i && #[trigger] bare_soft_break_at(t, i) && solids(t, i)
                <= solids(t, p) + 2;
        let q = choose|q: int|
            q <= p && #[trigger] names_quoted(t, q) && blocks(t, q) == blocks(t, p);
        if ends_in(t, q, "content-transfer-encoding:quoted-printable"@) {
            lemma_ends_in_held(t, q, "content-transfer-encoding:quoted-printable"@);
        } else {
            lemma_ends_in_held(t, q, "content-transfer-encoding:=?"@);
        }
        let j = choose|j: int|
            0 <= j < i <= t.len() && #[trigger] t[j] == '=' && (forall|k: int|
                j < k < i ==> is_padding(t[k]));
        assert(t[j] == '=' && t[i] == '\n');
        let k = choose|k: int|
            j < k < i && !(#[trigger] t[k] == ' ' || t[k] == '\t' || t[k] == '\u{c}' || t[k]
                == '\r');
        assert(is_padding(t[k]));
    }
}

proof fn lemma_no_extreme_zone(t: Seq<char>)
    requires
        !contains(squeezed(t), "received:"@) || !contains(squeezed(t), "9223372036854775808"@),
    ensures
        !has_extreme_zone(t),
{
    if has_extreme_zone(t) {
        let (i, j) = choose|i: int, j: int| #[trigger]
            ends_in(t, i, "received:"@) && #[trigger] names_extreme(t, j) && blocks(t, i) == blocks(
                t,
                j,
            );
        lemma_ends_in_held(t, i, "received:"@);
        lemma_ends_in_held(t, j, "9223372036854775808"@);
    }
}

} // verus!
