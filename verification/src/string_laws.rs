//! What the text primitives do, said without them: each law takes a text apart in
//! the pieces that matter and says what becomes of the pieces.

use vstd::prelude::*;

use crate::strings::{
    ascii_lower, contains, is_white, join, lemma_position, lemma_trim_end, lemma_trim_start,
    lemma_word_len, lines, lower_char, occurs_at, position, strip_cr, trim, trim_end, trim_start,
    views, word_len, words,
};

verus! {

/// Of the ASCII characters the tab, the four line ends and the space are whitespace;
/// of the others the no-break space, the next-line control and the spaces and
/// separators of the punctuation blocks.
pub proof fn law_whitespace(c: char)
    ensures
        c < '\u{80}' ==> (is_white(c) <==> c == '\t' || c == '\n' || c == '\u{b}' || c == '\u{c}'
            || c == '\r' || c == ' '),
        c >= '\u{80}' ==> (is_white(c) <==> c == '\u{85}' || c == '\u{a0}' || c == '\u{1680}'
            || '\u{2000}' <= c <= '\u{200a}' || c == '\u{2028}' || c == '\u{2029}' || c
            == '\u{202f}' || c == '\u{205f}' || c == '\u{3000}'),
{
}

/// Lowercasing keeps every position, turns the twenty-six capital letters into the
/// small letters at the same distance from `a`, and leaves every other character.
pub proof fn law_lowercase(s: Seq<char>, i: int)
    requires
        0 <= i < s.len(),
    ensures
        ascii_lower(s).len() == s.len(),
        'A' <= s[i] <= 'Z' ==> 'a' <= ascii_lower(s)[i] <= 'z' && ascii_lower(s)[i] as u32
            - 'a' as u32 == s[i] as u32 - 'A' as u32,
        !('A' <= s[i] <= 'Z') ==> ascii_lower(s)[i] == s[i],
{
    assert(ascii_lower(s)[i] == lower_char(s[i]));
}

/// Trimming takes away exactly the whitespace around a text that neither begins nor
/// ends with whitespace; trimming one end leaves the other.
pub proof fn law_trim(l: Seq<char>, m: Seq<char>, r: Seq<char>)
    requires
        forall|i: int| 0 <= i < l.len() ==> is_white(#[trigger] l[i]),
        forall|i: int| 0 <= i < r.len() ==> is_white(#[trigger] r[i]),
        m.len() > 0 ==> !is_white(m[0]) && !is_white(m.last()),
    ensures
        trim(l + m + r) == m,
        m.len() > 0 ==> trim_start(l + m + r) == m + r,
        m.len() > 0 ==> trim_end(l + m + r) == l + m,
        m.len() == 0 ==> trim_start(l + m + r).len() == 0 && trim_end(l + m + r).len() == 0,
{
    let s = l + m + r;
    lemma_trim_start(s);
    lemma_trim_end(s);
    let a = trim_start(s);
    let k = s.len() - a.len();
    let b = trim_end(s);
    lemma_trim_end(a);
    let c = trim_end(a);
    if m.len() > 0 {
        assert(s[l.len() as int] == m[0]);
        if k < l.len() {
            assert(a[0] == s[k] && s[k] == l[k]);
        }
        assert(k == l.len());
        assert(a == m + r);
        let e = l.len() + m.len();
        assert(s[e - 1] == m.last());
        if b.len() > e {
            assert(b.last() == s[b.len() - 1] && s[b.len() - 1] == r[b.len() - 1 - e]);
        }
        assert(b.len() == e);
        assert(b == l + m);
        assert(a[m.len() - 1] == m.last());
        if c.len() > m.len() {
            assert(c.last() == a[c.len() - 1] && a[c.len() - 1] == r[c.len() - 1 - m.len()]);
        }
        assert(c.len() == m.len());
        assert(c == m);
    } else {
        if a.len() > 0 {
            assert(a[0] == s[k]);
            if k < l.len() {
                assert(s[k] == l[k]);
            } else {
                assert(s[k] == r[k - l.len()]);
            }
        }
        if b.len() > 0 {
            let n = b.len() - 1;
            assert(b.last() == s[n]);
            if n < l.len() {
                assert(s[n] == l[n]);
            } else {
                assert(s[n] == r[n - l.len()]);
            }
        }
        assert(c == m);
    }
}

/// A text that holds `p` is some text, `p`, and some text; and every such text holds
/// `p`.
pub proof fn law_contains(s: Seq<char>, a: Seq<char>, p: Seq<char>, b: Seq<char>)
    ensures
        contains(a + p + b, p),
        contains(s, p) ==> exists|x: Seq<char>, y: Seq<char>| s == #[trigger] (x + p + y),
{
    let t = a + p + b;
    assert(t.subrange(a.len() as int, (a.len() + p.len()) as int) == p);
    assert(occurs_at(t, p, a.len() as int));
    if contains(s, p) {
        let i = choose|i: int| #[trigger] occurs_at(s, p, i);
        let x = s.take(i);
        let y = s.skip(i + p.len());
        assert(s == (x + p + y));
    }
}

/// The first `c` of a text stands behind what holds no `c`.
pub proof fn law_position(a: Seq<char>, c: char, b: Seq<char>)
    requires
        forall|i: int| 0 <= i < a.len() ==> #[trigger] a[i] != c,
    ensures
        position(a + seq![c] + b, c) == a.len(),
        position(a, c) == a.len(),
{
    let s = a + seq![c] + b;
    lemma_position(s, c);
    lemma_position(a, c);
    let p = position(s, c) as int;
    assert(s[a.len() as int] == c);
    if p < a.len() {
        assert(s[p] == a[p]);
    }
    let q = position(a, c) as int;
    if q < a.len() {
        assert(a[q] == c);
    }
}

/// An empty text has no lines, and a text without a line feed is its only line.
pub proof fn law_last_line(a: Seq<char>)
    requires
        forall|i: int| 0 <= i < a.len() ==> #[trigger] a[i] != '\n',
    ensures
        a.len() == 0 ==> lines(a).len() == 0,
        a.len() > 0 ==> lines(a) == seq![a],
{
    law_position(a, '\n', Seq::empty());
}

/// What stands in front of the first line feed is the first line, without the
/// carriage return of a line end; what stands behind it are the other lines.
pub proof fn law_first_line(a: Seq<char>, rest: Seq<char>)
    requires
        forall|i: int| 0 <= i < a.len() ==> #[trigger] a[i] != '\n',
    ensures
        a.len() == 0 || a.last() != '\r' ==> lines(a + seq!['\n'] + rest) == seq![a] + lines(rest),
        lines(a + seq!['\r', '\n'] + rest) == seq![a] + lines(rest),
{
    let nl = seq!['\n'];
    let s = a + nl + rest;
    law_position(a, '\n', rest);
    assert(s.take(a.len() as int) == a);
    assert(s.skip(a.len() as int + 1) == rest);
    if a.len() == 0 || a.last() != '\r' {
        assert(strip_cr(a) == a);
    }
    let c = a.push('\r');
    let u = a + seq!['\r', '\n'] + rest;
    assert(u == c + nl + rest);
    assert forall|i: int| 0 <= i < c.len() implies #[trigger] c[i] != '\n' by {
        if i < a.len() {
            assert(c[i] == a[i]);
        }
    }
    law_position(c, '\n', rest);
    assert(u.take(c.len() as int) == c);
    assert(u.skip(c.len() as int + 1) == rest);
    assert(strip_cr(c) == a);
}

/// Joining puts the separator between each two parts, and nowhere else.
pub proof fn law_join(parts: Seq<Seq<char>>, part: Seq<char>, sep: Seq<char>)
    ensures
        join(Seq::<Seq<char>>::empty(), sep).len() == 0,
        join(seq![part], sep) == part,
        parts.len() > 0 ==> join(parts.push(part), sep) == join(parts, sep) + sep + part,
{
    if parts.len() > 0 {
        assert(parts.push(part).drop_last() == parts);
    }
}

/// Whether `l` can stand as a line: it holds no line feed, and ends in no carriage
/// return.
pub open spec fn is_plain_line(l: Seq<char>) -> bool {
    (forall|i: int| 0 <= i < l.len() ==> #[trigger] l[i] != '\n') && (l.len() > 0 ==> l.last()
        != '\r')
}

/// Lines that are joined by line feeds, with one at the end, are the lines again.
pub proof fn law_lines_round_trip(ls: Seq<Seq<char>>)
    requires
        ls.len() > 0,
        forall|i: int| 0 <= i < ls.len() ==> is_plain_line(#[trigger] ls[i]),
    ensures
        lines(join(ls, seq!['\n']) + seq!['\n']) == ls,
    decreases ls.len(),
{
    let nl = seq!['\n'];
    assert(is_plain_line(ls[0]));
    if ls.len() == 1 {
        law_first_line(ls[0], Seq::empty());
        assert(join(ls, nl) + nl == ls[0] + nl + Seq::<char>::empty());
        law_last_line(Seq::empty());
        assert(lines(Seq::<char>::empty()) == Seq::<Seq<char>>::empty());
        assert(seq![ls[0]] + Seq::<Seq<char>>::empty() == ls);
    } else {
        let rest = ls.drop_first();
        assert forall|i: int| 0 <= i < rest.len() implies is_plain_line(#[trigger] rest[i]) by {
            assert(rest[i] == ls[i + 1]);
        }
        law_lines_round_trip(rest);
        lemma_join_first(ls, nl);
        law_first_line(ls[0], join(rest, nl) + nl);
        assert(join(ls, nl) + nl == ls[0] + nl + (join(rest, nl) + nl));
        assert(seq![ls[0]] + rest == ls);
    }
}

/// Joining begins with the first part.
pub proof fn lemma_join_first(parts: Seq<Seq<char>>, sep: Seq<char>)
    requires
        parts.len() > 1,
    ensures
        join(parts, sep) == parts[0] + sep + join(parts.drop_first(), sep),
    decreases parts.len(),
{
    let front = parts.drop_last();
    if parts.len() == 2 {
        assert(front == seq![parts[0]]);
        assert(parts.drop_first() == seq![parts[1]]);
        assert(join(front, sep) == parts[0]);
    } else {
        lemma_join_first(front, sep);
        assert(parts.drop_first().drop_last() == front.drop_first());
        assert(parts.drop_first().last() == parts.last());
        assert(join(parts, sep) =~= parts[0] + sep + join(parts.drop_first(), sep));
    }
}

/// The words of a text are what stands between its whitespace: a first word behind
/// any whitespace, then the words of what follows it; whitespace alone has none.
pub proof fn law_words(u: Seq<char>, w: Seq<char>, rest: Seq<char>)
    requires
        forall|i: int| 0 <= i < u.len() ==> is_white(#[trigger] u[i]),
        forall|i: int| 0 <= i < w.len() ==> !is_white(#[trigger] w[i]),
        rest.len() > 0 ==> is_white(rest[0]),
    ensures
        w.len() > 0 ==> words(u + w + rest) == seq![w] + words(rest),
        words(u).len() == 0,
{
    let s = u + w + rest;
    let t = trim_start(s);
    lemma_trim_start(s);
    if w.len() > 0 {
        let k = s.len() - t.len();
        assert(s[u.len() as int] == w[0]);
        if k < u.len() {
            assert(t[0] == s[k] && s[k] == u[k]);
        }
        assert(k == u.len());
        assert(t == w + rest);
        lemma_word_len(t);
        let n = word_len(t) as int;
        if n < w.len() {
            assert(t[n] == w[n]);
        }
        if n > w.len() {
            assert(t[w.len() as int] == rest[0]);
        }
        assert(n == w.len());
        assert(t.take(n) == w);
        assert(t.skip(n) == rest);
    }
    lemma_trim_start(u);
    let v = trim_start(u);
    if v.len() > 0 {
        assert(v[0] == u[u.len() - v.len()]);
    }
}

/// A sequence of character vectors is known part by part.
pub proof fn law_views(v: Seq<Vec<char>>, i: int)
    ensures
        views(v).len() == v.len(),
        0 <= i < v.len() ==> views(v)[i] == v[i]@,
{
}

} // verus!
