//! What cleaning does to a text, said by taking the text apart: which characters
//! and lines go, which stay, and that nothing else is touched.

use vstd::prelude::*;

use crate::string_laws::{
    is_plain_line, law_first_line, law_last_line, law_lines_round_trip, law_trim,
};
use crate::strings::{
    ascii_lower, contains, is_white, join, lemma_position, lemma_trim_end, lemma_trim_start, lines,
    lower_char, occurs_at, position, strip_cr, trim, trim_end, trim_start, words,
};
use crate::text::{
    cleaned, has_markup, in_tag, is_delimiter, is_quoted, lines_before_signature, markup_stripped,
    prepared, truncated, unquoted, unsigned, untagged, untagged_at, CHAR_BUDGET,
};
use crate::text_laws::{
    is_single_spaced, law_collapsed_is_single_spaced, law_collapsing_keeps_the_words,
    law_stripped_markup_has_no_tags, lemma_filter_all, lemma_filtered, lemma_join_lines,
    lemma_lines_before_signature, made_of,
};

verus! {

/// Cutting keeps as much of the front of a text as the budget allows, and no less:
/// the budget of a prepared text is two thousand characters.
pub proof fn law_cut_keeps_the_front(s: Seq<char>, budget: nat, i: int)
    ensures
        CHAR_BUDGET == 2000,
        s.len() <= budget ==> truncated(s, budget) == s,
        s.len() > budget ==> truncated(s, budget).len() == budget,
        0 <= i < s.len() && i < budget ==> truncated(s, budget)[i] == s[i],
{
}

/// A prepared text is nothing but the trimmed subject, a line feed and the cleaned
/// body, without whitespace at its ends, as far as two thousand characters reach.
pub proof fn law_prepared_text_loses_nothing(subject: Seq<char>, body: Seq<char>)
    ensures
        ({
            let whole = trim(trim(subject) + seq!['\n'] + cleaned(body));
            &&& whole.len() <= 2000 ==> prepared(subject, body) == whole
            &&& whole.len() > 2000 ==> prepared(subject, body) == whole.take(2000)
        }),
{
}

/// A body that holds one of the six tell-tale tags, in whatever case, counts as
/// markup.
pub proof fn law_markup_is_seen(a: Seq<char>, tag: Seq<char>, b: Seq<char>)
    requires
        ascii_lower(tag) == "<html"@ || ascii_lower(tag) == "<body"@ || ascii_lower(tag) == "<div"@
            || ascii_lower(tag) == "<p>"@ || ascii_lower(tag) == "<br"@ || ascii_lower(tag)
            == "<table"@,
    ensures
        has_markup(a + tag + b),
{
    let low = ascii_lower(a + tag + b);
    let t = ascii_lower(tag);
    assert(low.subrange(a.len() as int, (a.len() + tag.len()) as int) == t);
    assert(occurs_at(low, t, a.len() as int));
    assert(contains(low, t));
}

/// A body counts as markup only if it holds one of the six tags.
pub proof fn law_markup_is_not_made_up(body: Seq<char>)
    requires
        has_markup(body),
    ensures
        exists|a: Seq<char>, tag: Seq<char>, b: Seq<char>|
            body == #[trigger] (a + tag + b) && (ascii_lower(tag) == "<html"@ || ascii_lower(tag)
                == "<body"@ || ascii_lower(tag) == "<div"@ || ascii_lower(tag) == "<p>"@
                || ascii_lower(tag) == "<br"@ || ascii_lower(tag) == "<table"@),
{
    let low = ascii_lower(body);
    let t = if contains(low, "<html"@) {
        "<html"@
    } else if contains(low, "<body"@) {
        "<body"@
    } else if contains(low, "<div"@) {
        "<div"@
    } else if contains(low, "<p>"@) {
        "<p>"@
    } else if contains(low, "<br"@) {
        "<br"@
    } else {
        "<table"@
    };
    assert(contains(low, t));
    let i = choose|i: int| #[trigger] occurs_at(low, t, i);
    let a = body.take(i);
    let tag = body.subrange(i, i + t.len());
    let b = body.skip(i + t.len());
    assert(ascii_lower(tag) =~= low.subrange(i, i + t.len()));
    assert(body == (a + tag + b));
}

/// What the first positions of a text leave behind does not depend on the others.
proof fn lemma_untagged_front(p: Seq<char>, s: Seq<char>, n: nat)
    requires
        n <= p.len(),
    ensures
        untagged(p + s, n) == untagged(p, n),
    decreases n,
{
    if n > 0 {
        let t = p + s;
        let i = n - 1;
        lemma_untagged_front(p, s, i as nat);
        lemma_in_tag_front(p, s, i);
        assert(t[i] == p[i]);
        assert(untagged_at(t, i) == untagged_at(p, i));
    }
}

proof fn lemma_in_tag_front(p: Seq<char>, s: Seq<char>, i: int)
    requires
        0 <= i <= p.len(),
    ensures
        in_tag(p + s, i) == in_tag(p, i),
{
    let t = p + s;
    assert(forall|k: int| 0 <= k < i ==> t[k] == p[k]);
    if in_tag(t, i) {
        let j = choose|j: int|
            0 <= j < i && #[trigger] t[j] == '<' && (forall|k: int| j < k < i ==> t[k] != '>');
        assert(p[j] == '<');
        assert forall|k: int| j < k < i implies p[k] != '>' by {
            assert(t[k] == p[k]);
        }
    }
    if in_tag(p, i) {
        let j = choose|j: int|
            0 <= j < i && #[trigger] p[j] == '<' && (forall|k: int| j < k < i ==> p[k] != '>');
        assert(t[j] == '<');
        assert forall|k: int| j < k < i implies t[k] != '>' by {
            assert(t[k] == p[k]);
        }
    }
}

/// Behind a text that leaves no tag open, a text leaves what it leaves alone.
proof fn lemma_untagged_behind(p: Seq<char>, s: Seq<char>, n: nat)
    requires
        n <= s.len(),
        !in_tag(p, p.len() as int),
    ensures
        untagged(p + s, p.len() + n) == untagged(p, p.len()) + untagged(s, n),
    decreases n,
{
    let t = p + s;
    let m = p.len() as int;
    if n == 0 {
        lemma_untagged_front(p, s, p.len());
        assert(untagged(p, p.len()) + untagged(s, 0) == untagged(p, p.len()));
    } else {
        let i = n - 1;
        lemma_untagged_behind(p, s, i as nat);
        assert(t[m + i] == s[i]);
        if in_tag(t, m + i) {
            let j = choose|j: int|
                0 <= j < m + i && #[trigger] t[j] == '<' && (forall|k: int|
                    j < k < m + i ==> t[k] != '>');
            if j < m {
                assert(p[j] == '<');
                assert forall|k: int| j < k < m implies p[k] != '>' by {
                    assert(t[k] == p[k]);
                }
                assert(in_tag(p, m));
            }
            assert(s[j - m] == '<');
            assert forall|k: int| j - m < k < i implies s[k] != '>' by {
                assert(t[m + k] == s[k]);
            }
            assert(in_tag(s, i));
        }
        if in_tag(s, i) {
            let j = choose|j: int|
                0 <= j < i && #[trigger] s[j] == '<' && (forall|k: int| j < k < i ==> s[k] != '>');
            assert(t[m + j] == '<');
            assert forall|k: int| m + j < k < m + i implies t[k] != '>' by {
                assert(t[k] == s[k - m]);
            }
            assert(in_tag(t, m + i));
        }
        assert(untagged_at(t, m + i) == untagged_at(s, i));
        assert(untagged(t, (m + n) as nat) == untagged(t, (m + i) as nat) + untagged_at(t, m + i));
        assert(untagged(p, p.len()) + untagged(s, i as nat) + untagged_at(s, i) =~= untagged(
            p,
            p.len(),
        ) + (untagged(s, i as nat) + untagged_at(s, i)));
    }
}

/// Whether `a` holds no angle bracket.
pub open spec fn is_bracketless(a: Seq<char>) -> bool {
    forall|i: int| 0 <= i < a.len() ==> #[trigger] a[i] != '<' && a[i] != '>'
}

proof fn lemma_untagged_plain(a: Seq<char>, n: nat)
    requires
        is_bracketless(a),
        n <= a.len(),
    ensures
        untagged(a, n) == a.take(n as int),
        !in_tag(a, n as int),
    decreases n,
{
    if in_tag(a, n as int) {
        let j = choose|j: int|
            0 <= j < n && #[trigger] a[j] == '<' && (forall|k: int| j < k < n ==> a[k] != '>');
        assert(a[j] != '<');
    }
    if n > 0 {
        lemma_untagged_plain(a, (n - 1) as nat);
        assert(a[n - 1] != '<' && a[n - 1] != '>');
        assert(a.take(n as int) == a.take(n - 1).push(a[n - 1]));
    }
}

/// Inside a tag nothing is left behind.
proof fn lemma_untagged_inside(a: Seq<char>, t: Seq<char>, n: nat)
    requires
        is_bracketless(a),
        forall|i: int| 0 <= i < t.len() ==> #[trigger] t[i] != '>',
        n <= t.len(),
    ensures
        untagged(a + seq!['<'] + t, a.len() + 1 + n) == a,
        in_tag(a + seq!['<'] + t, (a.len() + 1 + n) as int),
    decreases n,
{
    let s = a + seq!['<'] + t;
    let m = a.len() as int;
    assert(s[m] == '<');
    assert forall|k: int| m < k < m + 1 + n implies s[k] != '>' by {
        assert(s[k] == t[k - m - 1]);
    }
    assert(in_tag(s, m + 1 + n));
    if n == 0 {
        assert(s == a + (seq!['<'] + t));
        lemma_untagged_front(a, seq!['<'] + t, a.len());
        lemma_untagged_plain(a, a.len());
        assert(a.take(m) == a);
        assert(untagged_at(s, m) == Seq::<char>::empty());
        assert(untagged(s, (m + 1) as nat) == untagged(s, m as nat) + untagged_at(s, m));
    } else {
        lemma_untagged_inside(a, t, (n - 1) as nat);
        let i = m + n;
        assert(s[i] == t[n - 1]);
        assert(untagged_at(s, i) == Seq::<char>::empty());
        assert(untagged(s, (i + 1) as nat) == untagged(s, i as nat) + untagged_at(s, i));
    }
}

proof fn lemma_untagged_closed(a: Seq<char>, t: Seq<char>)
    requires
        is_bracketless(a),
        forall|i: int| 0 <= i < t.len() ==> #[trigger] t[i] != '>',
    ensures
        ({
            let p = a + seq!['<'] + t + seq!['>'];
            untagged(p, p.len()) == a + seq![' '] && !in_tag(p, p.len() as int)
        }),
{
    let q = a + seq!['<'] + t;
    let p = q + seq!['>'];
    let n = q.len() as int;
    lemma_untagged_inside(a, t, t.len());
    lemma_untagged_front(q, seq!['>'], q.len());
    assert(p[n] == '>');
    assert(untagged(p, (n + 1) as nat) == untagged(p, n as nat) + untagged_at(p, n));
    if in_tag(p, n + 1) {
        let j = choose|j: int|
            0 <= j < n + 1 && #[trigger] p[j] == '<' && (forall|k: int|
                j < k < n + 1 ==> p[k] != '>');
        assert(j < n);
        assert(p[n] != '>');
    }
}

proof fn lemma_untagged_stray(a: Seq<char>, c: char)
    requires
        is_bracketless(a),
        c == '>' || c == ' ',
    ensures
        untagged(a + seq![c], a.len() + 1) == a + seq![' '],
        !in_tag(a + seq![c], a.len() as int + 1),
{
    let p = a + seq![c];
    let n = a.len() as int;
    lemma_untagged_front(a, seq![c], a.len());
    lemma_untagged_plain(a, a.len());
    lemma_in_tag_front(a, seq![c], n);
    assert(a.take(n) == a);
    assert(p[n] == c);
    assert(untagged(p, (n + 1) as nat) == untagged(p, n as nat) + untagged_at(p, n));
    if in_tag(p, n + 1) {
        let j = choose|j: int|
            0 <= j < n + 1 && #[trigger] p[j] == '<' && (forall|k: int|
                j < k < n + 1 ==> p[k] != '>');
        assert(j < n);
        assert(a[j] == '<');
    }
}

/// A tag counts as a space: stripping a text with a tag behind plain text gives what
/// stripping it with a space in the tag's place gives. So does a closing bracket
/// without a tag. A tag that is never closed takes the rest with it.
pub proof fn law_tag_counts_as_a_space(a: Seq<char>, t: Seq<char>, rest: Seq<char>)
    requires
        is_bracketless(a),
        forall|i: int| 0 <= i < t.len() ==> #[trigger] t[i] != '>',
    ensures
        markup_stripped(a + seq!['<'] + t + seq!['>'] + rest) == markup_stripped(
            a + seq![' '] + rest,
        ),
        markup_stripped(a + seq!['>'] + rest) == markup_stripped(a + seq![' '] + rest),
        markup_stripped(a + seq!['<'] + t) == markup_stripped(a),
{
    let p = a + seq!['<'] + t + seq!['>'];
    let q = a + seq!['>'];
    let r = a + seq![' '];
    lemma_untagged_closed(a, t);
    lemma_untagged_stray(a, '>');
    lemma_untagged_stray(a, ' ');
    lemma_untagged_behind(p, rest, rest.len());
    lemma_untagged_behind(q, rest, rest.len());
    lemma_untagged_behind(r, rest, rest.len());
    lemma_untagged_inside(a, t, t.len());
    lemma_untagged_plain(a, a.len());
    assert(a.take(a.len() as int) == a);
}

/// Plain text survives the stripping of markup word by word, with one space between
/// each two words.
pub proof fn law_stripping_keeps_the_words(a: Seq<char>)
    requires
        is_bracketless(a),
    ensures
        words(markup_stripped(a)) == words(a),
        is_single_spaced(markup_stripped(a)),
{
    lemma_untagged_plain(a, a.len());
    assert(a.take(a.len() as int) == a);
    law_collapsing_keeps_the_words(a);
    law_collapsed_is_single_spaced(a);
}

/// A signature delimiter is two dashes and then nothing but whitespace.
pub proof fn law_delimiter(line: Seq<char>)
    ensures
        is_delimiter(line) <==> line.len() >= 2 && line[0] == '-' && line[1] == '-' && forall|i: int|
            2 <= i < line.len() ==> is_white(#[trigger] line[i]),
{
    reveal_strlit("--");
    let t = trim_end(line);
    lemma_trim_end(line);
    if is_delimiter(line) {
        assert(t[0] == '-' && t[1] == '-');
        assert(t == line.take(2));
    }
    if line.len() >= 2 && line[0] == '-' && line[1] == '-' && forall|i: int|
        2 <= i < line.len() ==> is_white(#[trigger] line[i]) {
        if t.len() > 2 {
            assert(t.last() == line[t.len() - 1]);
        }
        if t.len() < 2 {
            assert(is_white(line[1]));
        }
        assert(t == "--"@);
        assert("--"@.is_prefix_of(line));
    }
}

/// Dropping the signature keeps every line in front of the first delimiter, and no
/// other.
pub proof fn law_lines_before_the_signature_are_kept(text: Seq<char>, k: int)
    requires
        0 <= k <= lines(text).len(),
        forall|i: int| 0 <= i < k ==> !is_delimiter(#[trigger] lines(text)[i]),
        k < lines(text).len() ==> is_delimiter(lines(text)[k]),
    ensures
        unsigned(text) == join(lines(text).take(k), seq!['\n']),
{
    let ls = lines(text);
    lemma_lines_before_signature(ls);
    let n = lines_before_signature(ls) as int;
    if n < k {
        assert(!is_delimiter(ls[n]));
    }
    if k < n {
        assert(!is_delimiter(ls[k]));
    }
}

/// A text with a signature behind it is kept as it is, whatever the signature says.
pub proof fn law_text_before_the_signature_is_kept(
    a: Seq<char>,
    padding: Seq<char>,
    signature: Seq<char>,
)
    requires
        forall|i: int| 0 <= i < a.len() ==> #[trigger] a[i] != '\r',
        forall|i: int|
            0 <= i < lines(a + seq!['\n']).len() ==> !is_delimiter(
                #[trigger] lines(a + seq!['\n'])[i],
            ),
        forall|i: int|
            0 <= i < padding.len() ==> is_white(#[trigger] padding[i]) && padding[i] != '\n'
                && padding[i] != '\r',
    ensures
        unsigned(a + seq!['\n', '-', '-'] + padding + seq!['\n'] + signature) == a,
{
    let nl = seq!['\n'];
    let d = seq!['-', '-'] + padding;
    let rest = d + nl + signature;
    let text = a + seq!['\n', '-', '-'] + padding + nl + signature;
    let front = lines(a + nl);
    assert(text =~= (a + nl) + rest);
    lemma_lines_split(a, rest);
    assert forall|i: int| 0 <= i < d.len() implies #[trigger] d[i] != '\n' by {
        if i >= 2 {
            assert(d[i] == padding[i - 2]);
        }
    }
    if padding.len() > 0 {
        assert(d.last() == padding[padding.len() - 1]);
    }
    law_first_line(d, signature);
    law_delimiter(d);
    assert forall|i: int| 2 <= i < d.len() implies is_white(#[trigger] d[i]) by {
        assert(d[i] == padding[i - 2]);
    }
    let ls = lines(text);
    let k = front.len() as int;
    assert(ls == front + (seq![d] + lines(signature)));
    assert(ls[k] == d);
    assert forall|i: int| 0 <= i < k implies !is_delimiter(#[trigger] ls[i]) by {
        assert(ls[i] == front[i]);
    }
    law_lines_before_the_signature_are_kept(text, k);
    assert(ls.take(k) == front);
    assert forall|i: int| 0 <= i < (a + nl).len() implies #[trigger] (a + nl)[i] != '\r' by {
        if i < a.len() {
            assert((a + nl)[i] == a[i]);
        }
    }
    assert(made_of(a + nl, |c: char| c != '\r'));
    lemma_join_lines(a + nl);
    assert((a + nl).drop_last() == a);
}

/// The lines of a text in front of a line feed, and those of the text behind it.
proof fn lemma_lines_split(a: Seq<char>, rest: Seq<char>)
    ensures
        lines(a + seq!['\n'] + rest) == lines(a + seq!['\n']) + lines(rest),
    decreases a.len(),
{
    let nl = seq!['\n'];
    let e = Seq::<char>::empty();
    let n = position(a, '\n') as int;
    lemma_position(a, '\n');
    law_last_line(e);
    assert(lines(e) == Seq::<Seq<char>>::empty());
    if n == a.len() {
        lemma_line_split(a, rest);
        lemma_line_split(a, e);
        assert(a + nl + e == a + nl);
        assert(lines(a + nl) + lines(rest) =~= lines(a + nl + rest));
    } else {
        let l = a.take(n);
        let b = a.skip(n + 1);
        assert(a == l + nl + b);
        assert(a + nl + rest == l + nl + (b + nl + rest));
        assert(a + nl == l + nl + (b + nl));
        lemma_line_split(l, b + nl + rest);
        lemma_line_split(l, b + nl);
        lemma_lines_split(b, rest);
        assert(lines(a + nl + rest) =~= lines(a + nl) + lines(rest));
    }
}

/// The first line of a text, and the others.
proof fn lemma_line_split(l: Seq<char>, rest: Seq<char>)
    requires
        forall|i: int| 0 <= i < l.len() ==> #[trigger] l[i] != '\n',
    ensures
        lines(l + seq!['\n'] + rest) == seq![strip_cr(l)] + lines(rest),
{
    if l.len() > 0 && l.last() == '\r' {
        let m = l.drop_last();
        assert forall|i: int| 0 <= i < m.len() implies #[trigger] m[i] != '\n' by {
            assert(m[i] == l[i]);
        }
        law_first_line(m, rest);
        assert(m + seq!['\r', '\n'] + rest == l + seq!['\n'] + rest);
    } else {
        law_first_line(l, rest);
    }
}

/// A line is quoted if, behind any whitespace, it begins with a closing angle bracket,
/// or is the line that introduces a quotation.
pub proof fn law_quoted_lines_are_seen(u: Seq<char>, m: Seq<char>, v: Seq<char>)
    requires
        forall|i: int| 0 <= i < u.len() ==> is_white(#[trigger] u[i]),
        forall|i: int| 0 <= i < v.len() ==> is_white(#[trigger] v[i]),
    ensures
        is_quoted(u + seq!['>'] + m),
        is_quoted(u + "On "@ + m + "wrote:"@ + v),
{
    reveal_strlit("On ");
    reveal_strlit("wrote:");
    let a = u + seq!['>'] + m;
    lemma_front_trimmed(u, seq!['>'] + m);
    assert(a == u + (seq!['>'] + m));
    let t = "On "@ + m + "wrote:"@;
    let b = u + "On "@ + m + "wrote:"@ + v;
    assert(b =~= u + (t + v));
    lemma_front_trimmed(u, t + v);
    assert((t + v)[0] == 'O');
    assert(t.last() == ':');
    let e = Seq::<char>::empty();
    assert(e + t + v == t + v);
    law_trim(e, t, v);
    assert(e + t == t);
    assert("On "@.is_prefix_of(t + v));
    assert("wrote:"@.is_suffix_of(t));
}

proof fn lemma_front_trimmed(u: Seq<char>, s: Seq<char>)
    requires
        forall|i: int| 0 <= i < u.len() ==> is_white(#[trigger] u[i]),
        s.len() > 0,
        !is_white(s[0]),
    ensures
        trim_start(u + s) == s,
{
    let t = u + s;
    lemma_trim_start(t);
    let k = t.len() - trim_start(t).len();
    assert(t[u.len() as int] == s[0]);
    if k < u.len() {
        assert(trim_start(t)[0] == t[k] && t[k] == u[k]);
    }
    assert(trim_start(t) == s);
}

/// No other line is quoted.
pub proof fn law_other_lines_are_not_quoted(line: Seq<char>)
    requires
        is_quoted(line),
    ensures
        (exists|u: Seq<char>, m: Seq<char>| line == #[trigger] (u + seq!['>'] + m) && (forall|i: int|
            0 <= i < u.len() ==> is_white(#[trigger] u[i]))) || (exists|
            u: Seq<char>,
            m: Seq<char>,
            v: Seq<char>,
        |
            line == #[trigger] (u + "On "@ + m + "wrote:"@ + v) && (forall|i: int|
                0 <= i < u.len() ==> is_white(#[trigger] u[i])) && (forall|i: int|
                0 <= i < v.len() ==> is_white(#[trigger] v[i]))),
{
    reveal_strlit("On ");
    reveal_strlit("wrote:");
    let t = trim_start(line);
    lemma_trim_start(line);
    let n = line.len() - t.len();
    let u = line.take(n);
    assert forall|i: int| 0 <= i < u.len() implies is_white(#[trigger] u[i]) by {
        assert(u[i] == line[i]);
    }
    if t.len() > 0 && t[0] == '>' {
        let m = t.skip(1);
        assert(line == (u + seq!['>'] + m));
    } else {
        let w = trim_end(t);
        lemma_trim_end(t);
        let k = w.len() as int;
        let v = t.skip(k);
        assert forall|i: int| 0 <= i < v.len() implies is_white(#[trigger] v[i]) by {
            assert(v[i] == t[k + i]);
        }
        let z = "wrote:"@;
        assert(z.is_suffix_of(w));
        assert(z == w.subrange(k - 6, k));
        assert(w[k - 6] == z[0] && w[k - 5] == z[1] && w[k - 4] == z[2] && w[k - 1] == z[5]);
        let y = "On "@;
        assert(y.is_prefix_of(t));
        assert(y == t.subrange(0, 3));
        assert(t[0] == y[0] && t[1] == y[1] && t[2] == y[2]);
        assert(t[0] == 'O' && t[1] == 'n' && t[2] == ' ');
        assert(w[k - 6] == t[k - 6] && w[k - 5] == t[k - 5] && w[k - 4] == t[k - 4]);
        assert(w[k - 5] == 'r' && w[k - 4] == 'o');
        assert(k >= 9);
        let m = t.subrange(3, k - 6);
        assert(w == t.take(k));
        assert("wrote:"@ =~= t.subrange(k - 6, k)) by {
            assert("wrote:"@ == w.skip(k - 6));
        }
        assert("On "@ =~= t.take(3));
        assert(line =~= (u + "On "@ + m + "wrote:"@ + v));
    }
}

/// Lines that are not quoted are all kept, in order.
pub proof fn law_lines_that_are_not_quoted_are_kept(ls: Seq<Seq<char>>)
    requires
        ls.len() > 0,
        forall|i: int| 0 <= i < ls.len() ==> is_plain_line(#[trigger] ls[i]) && !is_quoted(ls[i]),
    ensures
        unquoted(join(ls, seq!['\n']) + seq!['\n']) == trim(join(ls, seq!['\n'])),
{
    law_lines_round_trip(ls);
    lemma_filter_all(ls, |l: Seq<char>| !is_quoted(l));
}

/// A quoted line makes no difference, wherever it stands.
pub proof fn law_quoted_line_makes_no_difference(
    a: Seq<Seq<char>>,
    quoted: Seq<char>,
    b: Seq<Seq<char>>,
)
    requires
        a.len() + b.len() > 0,
        forall|i: int| 0 <= i < a.len() ==> is_plain_line(#[trigger] a[i]),
        forall|i: int| 0 <= i < b.len() ==> is_plain_line(#[trigger] b[i]),
        is_plain_line(quoted),
        is_quoted(quoted),
    ensures
        unquoted(join(a + seq![quoted] + b, seq!['\n']) + seq!['\n']) == unquoted(
            join(a + b, seq!['\n']) + seq!['\n'],
        ),
{
    let keep = |l: Seq<char>| !is_quoted(l);
    let x = a + seq![quoted] + b;
    let y = a + b;
    assert forall|i: int| 0 <= i < x.len() implies is_plain_line(#[trigger] x[i]) by {
        if i < a.len() {
            assert(x[i] == a[i]);
        } else if i > a.len() {
            assert(x[i] == b[i - a.len() - 1]);
        }
    }
    assert forall|i: int| 0 <= i < y.len() implies is_plain_line(#[trigger] y[i]) by {
        if i < a.len() {
            assert(y[i] == a[i]);
        } else {
            assert(y[i] == b[i - a.len()]);
        }
    }
    law_lines_round_trip(x);
    law_lines_round_trip(y);
    Seq::filter_distributes_over_add(a + seq![quoted], b, keep);
    Seq::filter_distributes_over_add(a, seq![quoted], keep);
    Seq::filter_distributes_over_add(a, b, keep);
    assert(seq![quoted].filter(keep) == Seq::<Seq<char>>::empty()) by {
        reveal(Seq::filter);
        assert(seq![quoted].drop_last() == Seq::<Seq<char>>::empty());
        assert(seq![quoted].drop_last().filter(keep) == Seq::<Seq<char>>::empty());
    }
    assert(x.filter(keep) =~= y.filter(keep));
}

/// Of a text that is quoted throughout nothing is left.
pub proof fn law_quotation_leaves_nothing(ls: Seq<Seq<char>>)
    requires
        ls.len() > 0,
        forall|i: int| 0 <= i < ls.len() ==> is_plain_line(#[trigger] ls[i]) && is_quoted(ls[i]),
    ensures
        unquoted(join(ls, seq!['\n']) + seq!['\n']).len() == 0,
{
    let keep = |l: Seq<char>| !is_quoted(l);
    law_lines_round_trip(ls);
    lemma_filtered(ls, keep);
    let kept = ls.filter(keep);
    if kept.len() > 0 {
        assert(keep(kept[0]) && ls.contains(kept[0]));
        let i = choose|i: int| 0 <= i < ls.len() && ls[i] == kept[0];
        assert(is_quoted(ls[i]));
    }
    let e = Seq::<char>::empty();
    law_trim(e, e, e);
    assert(e + e + e == e);
    assert(join(kept, seq!['\n']) == e);
}

/// How its lines end makes no difference to what is left of a text.
pub proof fn law_cleaning_goes_by_lines(x: Seq<char>, y: Seq<char>)
    requires
        lines(x) == lines(y),
    ensures
        unquoted(x) == unquoted(y),
        unsigned(x) == unsigned(y),
{
}

/// A body is cleaned of its signature first, then of its quoted lines. One that looks
/// like markup is cleaned as the text that is left of it.
pub proof fn law_cleaning(body: Seq<char>)
    ensures
        !has_markup(body) ==> cleaned(body) == unquoted(unsigned(body)),
        has_markup(body) ==> cleaned(body) == cleaned(markup_stripped(body)),
{
    let t = markup_stripped(body);
    law_stripped_markup_has_no_tags(body);
    if has_markup(t) {
        law_markup_is_not_made_up(t);
        let (a, tag, b) = choose|a: Seq<char>, tag: Seq<char>, b: Seq<char>|
            t == #[trigger] (a + tag + b) && (ascii_lower(tag) == "<html"@ || ascii_lower(tag)
                == "<body"@ || ascii_lower(tag) == "<div"@ || ascii_lower(tag) == "<p>"@
                || ascii_lower(tag) == "<br"@ || ascii_lower(tag) == "<table"@);
        reveal_strlit("<html");
        reveal_strlit("<body");
        reveal_strlit("<div");
        reveal_strlit("<p>");
        reveal_strlit("<br");
        reveal_strlit("<table");
        assert(ascii_lower(tag)[0] == '<');
        assert(tag.len() == ascii_lower(tag).len());
        assert(ascii_lower(tag)[0] == lower_char(tag[0]));
        assert(tag[0] == '<');
        assert(t[a.len() as int] == '<');
    }
}

/// What is left of a text when its quoted lines are dropped goes by its lines: one quoted
/// line more or less makes no difference, and where no line is quoted all are left, with
/// line feeds between them and no whitespace at the ends.
pub proof fn law_quoted_lines_are_dropped(
    x: Seq<char>,
    y: Seq<char>,
    a: Seq<Seq<char>>,
    quoted: Seq<char>,
    b: Seq<Seq<char>>,
)
    requires
        lines(x) == a + b,
        lines(y) == a + seq![quoted] + b,
        is_quoted(quoted),
    ensures
        unquoted(x) == unquoted(y),
        (forall|i: int| 0 <= i < lines(x).len() ==> !is_quoted(#[trigger] lines(x)[i]))
            ==> unquoted(x) == trim(join(lines(x), seq!['\n'])),
{
    let keep = |l: Seq<char>| !is_quoted(l);
    Seq::filter_distributes_over_add(a + seq![quoted], b, keep);
    Seq::filter_distributes_over_add(a, seq![quoted], keep);
    Seq::filter_distributes_over_add(a, b, keep);
    assert(seq![quoted].filter(keep) == Seq::<Seq<char>>::empty()) by {
        reveal(Seq::filter);
        assert(seq![quoted].drop_last() == Seq::<Seq<char>>::empty());
        assert(seq![quoted].drop_last().filter(keep) == Seq::<Seq<char>>::empty());
    }
    assert(lines(x).filter(keep) =~= lines(y).filter(keep));
    if forall|i: int| 0 <= i < lines(x).len() ==> !is_quoted(#[trigger] lines(x)[i]) {
        lemma_filter_all(lines(x), keep);
    }
}

/// Where no line of a text is quoted, all are left, with line feeds between them and no
/// whitespace at the ends.
pub proof fn law_unquoted_text_is_left(text: Seq<char>)
    requires
        forall|i: int| 0 <= i < lines(text).len() ==> !is_quoted(#[trigger] lines(text)[i]),
    ensures
        unquoted(text) == trim(join(lines(text), seq!['\n'])),
{
    lemma_filter_all(lines(text), |l: Seq<char>| !is_quoted(l));
}

} // verus!
