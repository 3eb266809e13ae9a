//! What holds of every prepared text: the subject stands first, the budget is kept,
//! and no tag, signature or quoted line is left behind.

use vstd::prelude::*;

use crate::strings::{
    is_white, join, lemma_position, lemma_trim_end, lemma_trim_start, lemma_word_len, lines,
    position, strip_cr, trim, trim_end, trim_start, word_len, words,
};
use crate::text::{
    cleaned, collapsed, has_markup, is_delimiter, is_quoted, lines_before_signature,
    markup_stripped, prepared, truncated, unquoted, unsigned, untagged, untagged_at, CHAR_BUDGET,
};

verus! {

/// Whether `s` neither begins nor ends with whitespace.
pub open spec fn is_trimmed(s: Seq<char>) -> bool {
    s.len() > 0 ==> !is_white(s[0]) && !is_white(s.last())
}

/// Whether `s` is whitespace throughout.
pub open spec fn all_white(s: Seq<char>) -> bool {
    forall|i: int| 0 <= i < s.len() ==> is_white(#[trigger] s[i])
}

/// Trimming leaves nothing to trim.
pub proof fn law_trimmed(s: Seq<char>)
    ensures
        is_trimmed(trim(s)),
{
    lemma_trim_start(s);
    lemma_trim_end(trim_start(s));
}

proof fn lemma_trim_keeps_trimmed(s: Seq<char>)
    requires
        is_trimmed(s),
    ensures
        trim(s) == s,
        trim_start(s) == s,
        trim_end(s) == s,
{
}

/// Whitespace in front of a text is trimmed away.
proof fn lemma_trim_start_absorbs(w: Seq<char>, m: Seq<char>)
    requires
        all_white(w),
    ensures
        trim_start(w + m) == trim_start(m),
    decreases w.len(),
{
    if w.len() == 0 {
        assert(w + m == m);
    } else {
        assert((w + m)[0] == w[0]);
        assert((w + m).drop_first() == w.drop_first() + m);
        assert forall|i: int| 0 <= i < w.drop_first().len() implies is_white(
            #[trigger] w.drop_first()[i],
        ) by {
            assert(w.drop_first()[i] == w[i + 1]);
        }
        lemma_trim_start_absorbs(w.drop_first(), m);
    }
}

/// Whitespace behind a text is trimmed away.
proof fn lemma_trim_end_absorbs(m: Seq<char>, w: Seq<char>)
    requires
        all_white(w),
    ensures
        trim_end(m + w) == trim_end(m),
    decreases w.len(),
{
    if w.len() == 0 {
        assert(m + w == m);
    } else {
        assert(is_white(w[w.len() - 1]));
        assert((m + w).last() == w.last());
        assert((m + w).drop_last() == m + w.drop_last());
        assert forall|i: int| 0 <= i < w.drop_last().len() implies is_white(
            #[trigger] w.drop_last()[i],
        ) by {
            assert(w.drop_last()[i] == w[i]);
        }
        lemma_trim_end_absorbs(m, w.drop_last());
    }
}

/// Trimming the start of a text with whitespace behind it.
proof fn lemma_trim_start_front(m: Seq<char>, w: Seq<char>)
    requires
        all_white(w),
    ensures
        trim_end(trim_start(m + w)) == trim_end(trim_start(m)),
    decreases m.len(),
{
    if m.len() == 0 {
        assert(m + w == w);
        assert(w + m == w);
        lemma_trim_start_absorbs(w, m);
    } else if is_white(m[0]) {
        assert((m + w)[0] == m[0]);
        assert((m + w).drop_first() == m.drop_first() + w);
        lemma_trim_start_front(m.drop_first(), w);
    } else {
        assert((m + w)[0] == m[0]);
        lemma_trim_end_absorbs(m, w);
    }
}

/// Whitespace around a text makes no difference to trimming it.
proof fn lemma_trim_absorbs(w1: Seq<char>, m: Seq<char>, w2: Seq<char>)
    requires
        all_white(w1),
        all_white(w2),
    ensures
        trim(w1 + m + w2) == trim(m),
{
    assert(w1 + m + w2 == w1 + (m + w2));
    lemma_trim_start_absorbs(w1, m + w2);
    lemma_trim_start_front(m, w2);
}

/// A prepared text is the trimmed subject, a line feed and the cleaned body, cut to
/// the budget; where one of the two is empty, the other alone.
pub proof fn law_prepared_parts(subject: Seq<char>, body: Seq<char>)
    ensures
        prepared(subject, body) == truncated(
            if cleaned(body).len() == 0 {
                trim(subject)
            } else if trim(subject).len() == 0 {
                cleaned(body)
            } else {
                trim(subject) + seq!['\n'] + cleaned(body)
            },
            CHAR_BUDGET as nat,
        ),
{
    let a = trim(subject);
    let b = cleaned(body);
    let nl = seq!['\n'];
    law_trimmed(subject);
    let text = if has_markup(body) {
        markup_stripped(body)
    } else {
        body
    };
    law_trimmed(join(lines(unsigned(text)).filter(|l: Seq<char>| !is_quoted(l)), nl));
    assert(is_trimmed(b));
    assert(all_white(nl));
    assert(all_white(Seq::<char>::empty()));
    lemma_trim_keeps_trimmed(a);
    lemma_trim_keeps_trimmed(b);
    if b.len() == 0 {
        assert(a + nl + b == Seq::<char>::empty() + a + nl);
        lemma_trim_absorbs(Seq::empty(), a, nl);
    } else if a.len() == 0 {
        assert(a + nl + b == nl + b + Seq::<char>::empty());
        lemma_trim_absorbs(nl, b, Seq::empty());
    } else {
        let whole = a + nl + b;
        assert(whole[0] == a[0]);
        assert(whole.last() == b.last());
        lemma_trim_keeps_trimmed(whole);
    }
}

/// The subject always stands first, so that it survives every later truncation.
pub proof fn law_subject_is_first(subject: Seq<char>, body: Seq<char>)
    ensures
        truncated(trim(subject), CHAR_BUDGET as nat).is_prefix_of(prepared(subject, body)),
{
    law_prepared_parts(subject, body);
}

/// The budget is kept, in characters.
pub proof fn law_budget_is_kept(subject: Seq<char>, body: Seq<char>)
    ensures
        prepared(subject, body).len() <= CHAR_BUDGET,
{
}

/// Without a body the text is the subject.
pub proof fn law_empty_body_is_safe(subject: Seq<char>)
    ensures
        cleaned(Seq::empty()).len() == 0,
        prepared(subject, Seq::empty()) == truncated(trim(subject), CHAR_BUDGET as nat),
{
    let e = Seq::<char>::empty();
    reveal_strlit("<html");
    reveal_strlit("<body");
    reveal_strlit("<div");
    reveal_strlit("<p>");
    reveal_strlit("<br");
    reveal_strlit("<table");
    assert(!has_markup(e));
    assert(lines(e) == Seq::<Seq<char>>::empty());
    assert(lines(e).take(0) == Seq::<Seq<char>>::empty());
    assert(unsigned(e) == e);
    reveal(Seq::filter);
    assert(unquoted(e) == e);
    law_prepared_parts(subject, e);
}

/// Whether every character of `s` is in `p`.
pub open spec fn made_of(s: Seq<char>, p: spec_fn(char) -> bool) -> bool {
    forall|i: int| 0 <= i < s.len() ==> p(#[trigger] s[i])
}

/// Whether every character of every part is in `p`.
pub open spec fn all_made_of(parts: Seq<Seq<char>>, p: spec_fn(char) -> bool) -> bool {
    forall|i: int| 0 <= i < parts.len() ==> made_of(#[trigger] parts[i], p)
}

proof fn lemma_made_of_subrange(s: Seq<char>, p: spec_fn(char) -> bool, a: int, b: int)
    requires
        made_of(s, p),
        0 <= a <= b <= s.len(),
    ensures
        made_of(s.subrange(a, b), p),
{
    assert forall|i: int| 0 <= i < s.subrange(a, b).len() implies p(
        #[trigger] s.subrange(a, b)[i],
    ) by {
        assert(s.subrange(a, b)[i] == s[a + i]);
    }
}

proof fn lemma_made_of_trim(s: Seq<char>, p: spec_fn(char) -> bool)
    requires
        made_of(s, p),
    ensures
        made_of(trim_start(s), p),
        made_of(trim(s), p),
{
    lemma_trim_start(s);
    let t = trim_start(s);
    assert(t == s.subrange(s.len() - t.len(), s.len() as int));
    lemma_made_of_subrange(s, p, s.len() - t.len(), s.len() as int);
    lemma_trim_end(t);
    assert(trim_end(t) == t.subrange(0, trim_end(t).len() as int));
    lemma_made_of_subrange(t, p, 0, trim_end(t).len() as int);
}

proof fn lemma_made_of_words(s: Seq<char>, p: spec_fn(char) -> bool)
    requires
        made_of(s, p),
    ensures
        all_made_of(words(s), p),
    decreases s.len(),
{
    let t = trim_start(s);
    lemma_made_of_trim(s, p);
    if 0 < t.len() <= s.len() && 0 < word_len(t) <= t.len() {
        let n = word_len(t) as int;
        assert(t.take(n) == t.subrange(0, n));
        assert(t.skip(n) == t.subrange(n, t.len() as int));
        lemma_made_of_subrange(t, p, 0, n);
        lemma_made_of_subrange(t, p, n, t.len() as int);
        lemma_made_of_words(t.skip(n), p);
        assert forall|i: int| 0 <= i < words(s).len() implies made_of(
            #[trigger] words(s)[i],
            p,
        ) by {
            if i > 0 {
                assert(words(s)[i] == words(t.skip(n))[i - 1]);
            }
        }
    }
}

proof fn lemma_made_of_lines(s: Seq<char>, p: spec_fn(char) -> bool)
    requires
        made_of(s, p),
    ensures
        all_made_of(lines(s), p),
    decreases s.len(),
{
    lemma_position(s, '\n');
    let n = position(s, '\n') as int;
    if s.len() > 0 && n < s.len() {
        let line = s.take(n);
        let rest = s.skip(n + 1);
        assert(line == s.subrange(0, n));
        assert(rest == s.subrange(n + 1, s.len() as int));
        lemma_made_of_subrange(s, p, 0, n);
        lemma_made_of_subrange(s, p, n + 1, s.len() as int);
        if line.len() > 0 {
            assert(line.drop_last() == line.subrange(0, n - 1));
            lemma_made_of_subrange(line, p, 0, n - 1);
        }
        lemma_made_of_lines(rest, p);
        assert forall|i: int| 0 <= i < lines(s).len() implies made_of(
            #[trigger] lines(s)[i],
            p,
        ) by {
            if i > 0 {
                assert(lines(s)[i] == lines(rest)[i - 1]);
            }
        }
    }
}

proof fn lemma_made_of_join(parts: Seq<Seq<char>>, sep: Seq<char>, p: spec_fn(char) -> bool)
    requires
        all_made_of(parts, p),
        made_of(sep, p),
    ensures
        made_of(join(parts, sep), p),
    decreases parts.len(),
{
    if parts.len() == 1 {
        assert(made_of(parts[0], p));
    } else if parts.len() > 1 {
        let front = parts.drop_last();
        assert forall|i: int| 0 <= i < front.len() implies made_of(#[trigger] front[i], p) by {
            assert(front[i] == parts[i]);
        }
        lemma_made_of_join(front, sep, p);
        let last = parts[parts.len() - 1];
        assert(made_of(last, p));
        let f = join(front, sep);
        assert forall|i: int| 0 <= i < join(parts, sep).len() implies p(
            #[trigger] join(parts, sep)[i],
        ) by {
            if i < f.len() {
                assert(join(parts, sep)[i] == f[i]);
            } else if i < f.len() + sep.len() {
                assert(join(parts, sep)[i] == sep[i - f.len()]);
            } else {
                assert(join(parts, sep)[i] == last[i - f.len() - sep.len()]);
            }
        }
    }
}

proof fn lemma_untagged(s: Seq<char>, n: nat)
    requires
        n <= s.len(),
    ensures
        made_of(untagged(s, n), |c: char| c != '<' && c != '>'),
    decreases n,
{
    if n > 0 {
        lemma_untagged(s, (n - 1) as nat);
        let front = untagged(s, (n - 1) as nat);
        let p = |c: char| c != '<' && c != '>';
        assert forall|i: int| 0 <= i < untagged(s, n).len() implies p(
            #[trigger] untagged(s, n)[i],
        ) by {
            if i < front.len() {
                assert(untagged(s, n)[i] == front[i]);
            } else {
                assert(untagged(s, n)[i] == untagged_at(s, n - 1)[i - front.len()]);
            }
        }
    }
}

/// What a filter lets through fits it, and comes from the sequence.
pub(crate) proof fn lemma_filtered(ls: Seq<Seq<char>>, keep: spec_fn(Seq<char>) -> bool)
    ensures
        forall|i: int|
            0 <= i < ls.filter(keep).len() ==> keep(#[trigger] ls.filter(keep)[i]) && ls.contains(
                ls.filter(keep)[i],
            ),
    decreases ls.len(),
{
    reveal(Seq::filter);
    if ls.len() > 0 {
        let front = ls.drop_last();
        lemma_filtered(front, keep);
        assert forall|i: int| 0 <= i < ls.filter(keep).len() implies keep(
            #[trigger] ls.filter(keep)[i],
        ) && ls.contains(ls.filter(keep)[i]) by {
            if i < front.filter(keep).len() {
                assert(ls.filter(keep)[i] == front.filter(keep)[i]);
                let j = choose|j: int| 0 <= j < front.len() && front[j] == front.filter(keep)[i];
                assert(ls[j] == front[j]);
            } else {
                assert(ls[ls.len() - 1] == ls.filter(keep)[i]);
            }
        }
    }
}

/// Stripping markup leaves no angle bracket behind.
pub proof fn law_stripped_markup_has_no_tags(body: Seq<char>)
    ensures
        made_of(markup_stripped(body), |c: char| c != '<' && c != '>'),
{
    let p = |c: char| c != '<' && c != '>';
    let s = untagged(body, body.len());
    lemma_untagged(body, body.len());
    lemma_made_of_words(s, p);
    lemma_made_of_join(words(s), seq![' '], p);
}

/// The cleaned text of a body that looks like markup holds no angle bracket.
pub proof fn law_cleaned_markup_has_no_tags(body: Seq<char>)
    requires
        has_markup(body),
    ensures
        made_of(cleaned(body), |c: char| c != '<' && c != '>'),
{
    let p = |c: char| c != '<' && c != '>';
    let nl = seq!['\n'];
    let text = markup_stripped(body);
    law_stripped_markup_has_no_tags(body);
    lemma_made_of_lines(text, p);
    let ls = lines(text);
    lemma_lines_before_signature(ls);
    let kept = ls.take(lines_before_signature(ls) as int);
    assert forall|i: int| 0 <= i < kept.len() implies made_of(#[trigger] kept[i], p) by {
        assert(kept[i] == ls[i]);
    }
    lemma_made_of_join(kept, nl, p);
    lemma_made_of_lines(unsigned(text), p);
    let keep = |l: Seq<char>| !is_quoted(l);
    let all = lines(unsigned(text));
    lemma_filtered(all, keep);
    let unq = all.filter(keep);
    assert forall|i: int| 0 <= i < unq.len() implies made_of(#[trigger] unq[i], p) by {
        assert(all.contains(unq[i]));
        let j = choose|j: int| 0 <= j < all.len() && all[j] == unq[i];
        assert(made_of(all[j], p));
    }
    lemma_made_of_join(unq, nl, p);
    lemma_made_of_trim(join(unq, nl), p);
}

/// No delimiter stands in front of the signature, and one stands at it.
pub(crate) proof fn lemma_lines_before_signature(ls: Seq<Seq<char>>)
    ensures
        lines_before_signature(ls) <= ls.len(),
        forall|i: int| 0 <= i < lines_before_signature(ls) ==> !is_delimiter(#[trigger] ls[i]),
        lines_before_signature(ls) < ls.len() ==> is_delimiter(
            ls[lines_before_signature(ls) as int],
        ),
    decreases ls.len(),
{
    if ls.len() > 0 && !is_delimiter(ls[0]) {
        let t = ls.drop_first();
        lemma_lines_before_signature(t);
        assert forall|i: int| 0 <= i < lines_before_signature(ls) implies !is_delimiter(
            #[trigger] ls[i],
        ) by {
            if i > 0 {
                assert(t[i - 1] == ls[i]);
            }
        }
    }
}

/// Whether the positions from `a` up to `b` of `s` are one line of it, with its
/// carriage return but without its line feed.
pub open spec fn is_line(s: Seq<char>, a: int, b: int) -> bool {
    &&& 0 <= a <= b <= s.len()
    &&& a == 0 || s[a - 1] == '\n'
    &&& b == s.len() || s[b] == '\n'
    &&& forall|k: int| a <= k < b ==> #[trigger] s[k] != '\n'
}

/// Whether `l` is the line from `a` up to `b` of `s`, with or without its carriage
/// return.
pub open spec fn is_line_text(s: Seq<char>, a: int, b: int, l: Seq<char>) -> bool {
    is_line(s, a, b) && (l == s.subrange(a, b) || l == strip_cr(s.subrange(a, b)))
}

/// Each of the lines of a text is one of its lines by position.
proof fn lemma_line_at(s: Seq<char>, i: int) -> (r: (int, int))
    requires
        0 <= i < lines(s).len(),
    ensures
        is_line_text(s, r.0, r.1, lines(s)[i]),
    decreases s.len(),
{
    lemma_position(s, '\n');
    let n = position(s, '\n') as int;
    if n < s.len() {
        if i == 0 {
            assert(s.take(n) == s.subrange(0, n));
            (0, n)
        } else {
            let rest = s.skip(n + 1);
            let (a, b) = lemma_line_at(rest, i - 1);
            let (c, d) = (a + n + 1, b + n + 1);
            assert(lines(s)[i] == lines(rest)[i - 1]);
            assert(rest.subrange(a, b) == s.subrange(c, d));
            if a > 0 {
                assert(rest[a - 1] == s[c - 1]);
            }
            if b < rest.len() {
                assert(rest[b] == s[d]);
            }
            assert forall|k: int| c <= k < d implies #[trigger] s[k] != '\n' by {
                assert(rest[k - n - 1] == s[k]);
            }
            (c, d)
        }
    } else {
        assert(s.subrange(0, s.len() as int) == s);
        (0, s.len() as int)
    }
}

/// Whether no part holds a line feed.
pub open spec fn without_feeds(parts: Seq<Seq<char>>) -> bool {
    all_made_of(parts, |c: char| c != '\n')
}

/// No line holds a line feed.
proof fn lemma_lines_without_feeds(s: Seq<char>)
    ensures
        without_feeds(lines(s)),
{
    let p = |c: char| c != '\n';
    assert forall|i: int| 0 <= i < lines(s).len() implies made_of(#[trigger] lines(s)[i], p) by {
        let (a, b) = lemma_line_at(s, i);
        let l = lines(s)[i];
        let seg = s.subrange(a, b);
        assert forall|k: int| 0 <= k < l.len() implies p(#[trigger] l[k]) by {
            assert(l[k] == seg[k]);
            assert(seg[k] == s[a + k]);
        }
    }
}

/// The lines of joined parts are the parts.
proof fn lemma_line_of_join(parts: Seq<Seq<char>>, a: int, b: int) -> (i: int)
    requires
        parts.len() > 0,
        without_feeds(parts),
        is_line(join(parts, seq!['\n']), a, b),
    ensures
        0 <= i < parts.len(),
        join(parts, seq!['\n']).subrange(a, b) == parts[i],
    decreases parts.len(),
{
    let nl = seq!['\n'];
    let s = join(parts, nl);
    let last = parts[parts.len() - 1];
    let p = |c: char| c != '\n';
    assert(made_of(last, p));
    if parts.len() == 1 {
        if a > 0 {
            assert(p(last[a - 1]));
        }
        if b < s.len() {
            assert(p(last[b]));
        }
        assert(s.subrange(a, b) == last);
        0
    } else {
        let front = parts.drop_last();
        assert forall|i: int| 0 <= i < front.len() implies made_of(#[trigger] front[i], p) by {
            assert(front[i] == parts[i]);
        }
        let f = join(front, nl);
        let n = f.len() as int;
        assert(s == f + nl + last);
        assert(s[n] == '\n');
        if b <= n {
            if a > 0 {
                assert(f[a - 1] == s[a - 1]);
            }
            if b < n {
                assert(f[b] == s[b]);
            }
            assert forall|k: int| a <= k < b implies #[trigger] f[k] != '\n' by {
                assert(f[k] == s[k]);
            }
            let i = lemma_line_of_join(front, a, b);
            assert(f.subrange(a, b) == s.subrange(a, b));
            i
        } else {
            if a <= n {
                assert(s[n] != '\n');
            }
            if a > n + 1 {
                assert(s[a - 1] == last[a - 1 - n - 1]);
                assert(p(last[a - 1 - n - 1]));
            }
            if b < s.len() {
                assert(s[b] == last[b - n - 1]);
                assert(p(last[b - n - 1]));
            }
            assert(s.subrange(a, b) == last);
            parts.len() - 1
        }
    }
}

/// A carriage return at the end of a line makes no difference to trimming it.
proof fn lemma_strip_cr(l: Seq<char>)
    ensures
        trim(strip_cr(l)) == trim(l),
        trim_end(strip_cr(l)) == trim_end(l),
{
    if l.len() > 0 && l.last() == '\r' {
        let cr = seq!['\r'];
        assert(all_white(cr));
        assert(all_white(Seq::<char>::empty()));
        assert(l == strip_cr(l) + cr);
        assert(Seq::<char>::empty() + strip_cr(l) + cr == l);
        lemma_trim_absorbs(Seq::empty(), strip_cr(l), cr);
        lemma_trim_end_absorbs(strip_cr(l), cr);
    }
}

/// What makes a line quoted shows when it is trimmed.
proof fn lemma_quoted_trimmed(l: Seq<char>)
    ensures
        is_quoted(l) == {
            ||| trim(l).len() > 0 && trim(l)[0] == '>'
            ||| "On "@.is_prefix_of(trim(l)) && "wrote:"@.is_suffix_of(trim(l))
        },
{
    reveal_strlit("On ");
    reveal_strlit("wrote:");
    let t = trim_start(l);
    let c = trim_end(t);
    lemma_trim_start(l);
    lemma_trim_end(t);
    if t.len() > 0 {
        assert(c.len() > 0);
        assert(c[0] == t[0]);
    }
    assert("On "@.len() == 3);
    assert("wrote:"@.len() == 6);
    if "wrote:"@.is_suffix_of(c) {
        assert(c.len() >= 6);
        assert(c.take(3) == t.take(3));
        assert("On "@.is_prefix_of(t) == ("On "@ == t.take(3)));
        assert("On "@.is_prefix_of(c) == ("On "@ == c.take(3)));
    }
}

/// The start of the line that position `x` of `s` is on.
proof fn lemma_line_start(s: Seq<char>, x: int) -> (a: int)
    requires
        0 <= x <= s.len(),
    ensures
        0 <= a <= x,
        a == 0 || s[a - 1] == '\n',
        forall|k: int| a <= k < x ==> #[trigger] s[k] != '\n',
    decreases x,
{
    if x == 0 || s[x - 1] == '\n' {
        x
    } else {
        lemma_line_start(s, x - 1)
    }
}

/// The end of the line that position `y` of `s` is on.
proof fn lemma_line_end(s: Seq<char>, y: int) -> (b: int)
    requires
        0 <= y <= s.len(),
    ensures
        y <= b <= s.len(),
        b == s.len() || s[b] == '\n',
        forall|k: int| y <= k < b ==> #[trigger] s[k] != '\n',
    decreases s.len() - y,
{
    if y == s.len() || s[y] == '\n' {
        y
    } else {
        lemma_line_end(s, y + 1)
    }
}

/// Every line of a trimmed text is a line of the text with whitespace taken off its
/// ends.
proof fn lemma_line_of_trimmed(s: Seq<char>, a: int, b: int) -> (r: (int, int))
    requires
        is_line(trim(s), a, b),
    ensures
        is_line(s, r.0, r.1),
        trim(s.subrange(r.0, r.1)) == trim(trim(s).subrange(a, b)),
{
    let t = trim_start(s);
    let u = trim(s);
    lemma_trim_start(s);
    lemma_trim_end(t);
    let x = s.len() - t.len();
    let y = x + u.len();
    assert(forall|k: int| 0 <= k < u.len() ==> #[trigger] u[k] == s[x + k]);
    assert forall|k: int| y <= k < s.len() implies is_white(#[trigger] s[k]) by {
        assert(t[k - x] == s[k]);
    }
    let c = if a > 0 {
        assert(u[a - 1] == s[x + a - 1]);
        x + a
    } else {
        lemma_line_start(s, x)
    };
    let d = if b < u.len() {
        assert(u[b] == s[x + b]);
        x + b
    } else {
        lemma_line_end(s, y)
    };
    assert forall|k: int| c <= k < d implies #[trigger] s[k] != '\n' by {
        if x + a <= k < x + b {
            assert(u[k - x] == s[k]);
        }
    }
    let w1 = s.subrange(c, x + a);
    let m = u.subrange(a, b);
    let w2 = s.subrange(x + b, d);
    assert(all_white(w1)) by {
        assert forall|k: int| 0 <= k < w1.len() implies is_white(#[trigger] w1[k]) by {
            assert(w1[k] == s[c + k]);
        }
    }
    assert(all_white(w2)) by {
        assert forall|k: int| 0 <= k < w2.len() implies is_white(#[trigger] w2[k]) by {
            assert(w2[k] == s[x + b + k]);
        }
    }
    assert(s.subrange(c, d) == w1 + m + w2);
    lemma_trim_absorbs(w1, m, w2);
    (c, d)
}

/// No quoted line is left in a text whose quoted lines were dropped.
pub proof fn law_no_quoted_line_is_left(text: Seq<char>, i: int)
    requires
        0 <= i < lines(unquoted(text)).len(),
    ensures
        !is_quoted(lines(unquoted(text))[i]),
{
    let nl = seq!['\n'];
    let keep = |l: Seq<char>| !is_quoted(l);
    let all = lines(text);
    let kept = all.filter(keep);
    let s = join(kept, nl);
    let u = unquoted(text);
    let l = lines(u)[i];
    lemma_filtered(all, keep);
    lemma_lines_without_feeds(text);
    let p = |c: char| c != '\n';
    assert forall|k: int| 0 <= k < kept.len() implies made_of(#[trigger] kept[k], p) by {
        assert(keep(kept[k]) && all.contains(kept[k]));
        let j = choose|j: int| 0 <= j < all.len() && all[j] == kept[k];
        assert(made_of(all[j], p));
    }
    let (a, b) = lemma_line_at(u, i);
    let (c, d) = lemma_line_of_trimmed(s, a, b);
    lemma_strip_cr(u.subrange(a, b));
    assert(trim(l) == trim(s.subrange(c, d)));
    lemma_quoted_trimmed(l);
    if kept.len() == 0 {
        let e = Seq::<char>::empty();
        assert(s.subrange(c, d) == e);
        assert(trim(l) == e);
        reveal_strlit("On ");
    } else {
        let k = lemma_line_of_join(kept, c, d);
        assert(keep(kept[k]));
        lemma_quoted_trimmed(kept[k]);
    }
}

/// No quoted line is left in a cleaned body.
pub proof fn law_cleaned_has_no_quoted_line(body: Seq<char>, i: int)
    requires
        0 <= i < lines(cleaned(body)).len(),
    ensures
        !is_quoted(lines(cleaned(body))[i]),
{
    let text = if has_markup(body) {
        markup_stripped(body)
    } else {
        body
    };
    law_no_quoted_line_is_left(unsigned(text), i);
}

proof fn lemma_delimiter_with_cr(l: Seq<char>)
    ensures
        is_delimiter(strip_cr(l)) == is_delimiter(l),
{
    reveal_strlit("--");
    lemma_strip_cr(l);
    lemma_trim_end(l);
    lemma_trim_end(strip_cr(l));
    assert("--"@.len() == 2);
    if trim_end(l) == "--"@ {
        let c = strip_cr(l);
        assert(trim_end(c) == "--"@);
        assert(c.take(2) == "--"@);
        assert(l.take(2) == "--"@);
        assert("--"@.is_prefix_of(c));
        assert("--"@.is_prefix_of(l));
    }
}

/// No signature delimiter is left in a text whose signature was dropped.
pub proof fn law_no_delimiter_is_left(text: Seq<char>, i: int)
    requires
        0 <= i < lines(unsigned(text)).len(),
    ensures
        !is_delimiter(lines(unsigned(text))[i]),
{
    let all = lines(text);
    let n = lines_before_signature(all) as int;
    lemma_lines_before_signature(all);
    lemma_lines_without_feeds(text);
    let kept = all.take(n);
    let p = |c: char| c != '\n';
    assert forall|k: int| 0 <= k < kept.len() implies made_of(#[trigger] kept[k], p) by {
        assert(kept[k] == all[k]);
    }
    let s = unsigned(text);
    let (a, b) = lemma_line_at(s, i);
    lemma_delimiter_with_cr(s.subrange(a, b));
    if kept.len() == 0 {
        assert(s == Seq::<char>::empty());
    } else {
        let k = lemma_line_of_join(kept, a, b);
        assert(kept[k] == all[k]);
    }
}

/// Whether every part is a word: not empty, and without whitespace.
pub open spec fn all_words(parts: Seq<Seq<char>>) -> bool {
    forall|i: int|
        0 <= i < parts.len() ==> (#[trigger] parts[i]).len() > 0 && made_of(
            parts[i],
            |c: char| !is_white(c),
        )
}

proof fn lemma_words_are_words(s: Seq<char>)
    ensures
        all_words(words(s)),
    decreases s.len(),
{
    let t = trim_start(s);
    lemma_word_len(t);
    let n = word_len(t) as int;
    if 0 < t.len() <= s.len() && 0 < n <= t.len() {
        let p = |c: char| !is_white(c);
        lemma_words_are_words(t.skip(n));
        assert forall|i: int| 0 <= i < words(s).len() implies (#[trigger] words(s)[i]).len() > 0
            && made_of(words(s)[i], p) by {
            if i > 0 {
                assert(words(s)[i] == words(t.skip(n))[i - 1]);
            } else {
                let w = words(s)[0];
                assert(w == t.take(n));
                assert forall|k: int| 0 <= k < w.len() implies p(#[trigger] w[k]) by {
                    assert(w[k] == t[k]);
                }
            }
        }
    }
}

/// Joining puts the first part in front.
proof fn lemma_join_front(parts: Seq<Seq<char>>, sep: Seq<char>)
    requires
        parts.len() > 1,
    ensures
        join(parts, sep) == parts[0] + sep + join(parts.drop_first(), sep),
    decreases parts.len(),
{
    let rest = parts.drop_first();
    let front = parts.drop_last();
    if parts.len() == 2 {
        assert(join(front, sep) == parts[0]);
        assert(join(rest, sep) == parts[1]);
    } else {
        lemma_join_front(front, sep);
        assert(front.drop_first() == rest.drop_last());
        assert(join(rest, sep) == join(rest.drop_last(), sep) + sep + parts.last());
        assert(join(parts, sep) == parts[0] + sep + join(rest, sep));
    }
}

/// The length of a word with nothing or whitespace behind it.
proof fn lemma_word_then(w: Seq<char>, rest: Seq<char>)
    requires
        made_of(w, |c: char| !is_white(c)),
        rest.len() == 0 || is_white(rest[0]),
    ensures
        word_len(w + rest) == w.len(),
{
    let s = w + rest;
    lemma_word_len(s);
    let n = word_len(s) as int;
    if n < w.len() {
        assert(s[n] == w[n]);
    } else if n > w.len() {
        assert(s[w.len() as int] == rest[0]);
    }
}

/// Words with a space between each two are those words.
proof fn lemma_words_of_join(parts: Seq<Seq<char>>)
    requires
        all_words(parts),
    ensures
        words(join(parts, seq![' '])) == parts,
    decreases parts.len(),
{
    let sp = seq![' '];
    let s = join(parts, sp);
    if parts.len() == 0 {
        assert(words(s) == parts);
    } else {
        let w = parts[0];
        let rest = parts.drop_first();
        assert forall|i: int| 0 <= i < rest.len() implies (#[trigger] rest[i]).len() > 0 && made_of(
            rest[i],
            |c: char| !is_white(c),
        ) by {
            assert(rest[i] == parts[i + 1]);
        }
        lemma_words_of_join(rest);
        let tail = if parts.len() == 1 {
            Seq::<char>::empty()
        } else {
            sp + join(rest, sp)
        };
        if parts.len() > 1 {
            lemma_join_front(parts, sp);
            assert(s == w + tail);
        } else {
            assert(s == w + tail);
        }
        assert(s[0] == w[0]);
        assert(!is_white(w[0]));
        assert(trim_start(s) == s);
        lemma_word_then(w, tail);
        assert(s.take(w.len() as int) == w);
        assert(s.skip(w.len() as int) == tail);
        assert(words(tail) == rest) by {
            if parts.len() > 1 {
                assert(all_white(sp));
                lemma_trim_start_absorbs(sp, join(rest, sp));
                lemma_trim_start(join(rest, sp));
            }
        }
        assert(words(s) == seq![w] + rest);
        assert(seq![w] + rest == parts);
    }
}

/// Collapsing whitespace keeps the words, and leaves nothing to collapse.
pub proof fn law_collapsing_keeps_the_words(s: Seq<char>)
    ensures
        words(collapsed(s)) == words(s),
        collapsed(collapsed(s)) == collapsed(s),
{
    lemma_words_are_words(s);
    lemma_words_of_join(words(s));
}

/// Whether the whitespace of `s` is single spaces inside it.
pub open spec fn is_single_spaced(s: Seq<char>) -> bool {
    forall|i: int|
        0 <= i < s.len() && is_white(#[trigger] s[i]) ==> s[i] == ' ' && 0 < i < s.len() - 1
            && !is_white(s[i - 1]) && !is_white(s[i + 1])
}

proof fn lemma_join_is_single_spaced(parts: Seq<Seq<char>>)
    requires
        all_words(parts),
    ensures
        is_single_spaced(join(parts, seq![' '])),
        parts.len() > 0 ==> join(parts, seq![' ']).len() > 0 && !is_white(
            join(parts, seq![' ']).last(),
        ),
    decreases parts.len(),
{
    let sp = seq![' '];
    let s = join(parts, sp);
    if parts.len() > 0 {
        let last = parts[parts.len() - 1];
        let p = |c: char| !is_white(c);
        assert(last.len() > 0 && made_of(last, p));
        assert(p(last[last.len() - 1]));
        assert(p(last[0]));
        if parts.len() == 1 {
            assert forall|i: int| 0 <= i < s.len() && is_white(#[trigger] s[i]) implies s[i] == ' '
                && 0 < i < s.len() - 1 && !is_white(s[i - 1]) && !is_white(s[i + 1]) by {
                assert(p(last[i]));
            }
        } else {
            let front = parts.drop_last();
            assert forall|i: int| 0 <= i < front.len() implies (#[trigger] front[i]).len() > 0
                && made_of(front[i], p) by {
                assert(front[i] == parts[i]);
            }
            lemma_join_is_single_spaced(front);
            let f = join(front, sp);
            let n = f.len() as int;
            assert(s == f + sp + last);
            assert forall|i: int| 0 <= i < s.len() && is_white(#[trigger] s[i]) implies s[i] == ' '
                && 0 < i < s.len() - 1 && !is_white(s[i - 1]) && !is_white(s[i + 1]) by {
                if i < n {
                    assert(s[i] == f[i]);
                    assert(s[i - 1] == f[i - 1]);
                    assert(s[i + 1] == f[i + 1]);
                } else if i == n {
                    assert(s[n - 1] == f[n - 1]);
                    assert(s[n + 1] == last[0]);
                } else {
                    assert(s[i] == last[i - n - 1]);
                    assert(p(last[i - n - 1]));
                }
            }
        }
    }
}

/// Every run of whitespace is collapsed into one space, and none is left at the
/// ends.
pub proof fn law_collapsed_is_single_spaced(s: Seq<char>)
    ensures
        is_single_spaced(collapsed(s)),
{
    lemma_words_are_words(s);
    lemma_join_is_single_spaced(words(s));
}

/// A text without carriage returns is its lines, but for a line feed at its end.
pub(crate) proof fn lemma_join_lines(s: Seq<char>)
    requires
        made_of(s, |c: char| c != '\r'),
    ensures
        join(lines(s), seq!['\n']) == (if s.len() > 0 && s.last() == '\n' {
            s.drop_last()
        } else {
            s
        }),
        s.len() > 0 ==> lines(s).len() > 0,
    decreases s.len(),
{
    let nl = seq!['\n'];
    let p = |c: char| c != '\r';
    lemma_position(s, '\n');
    let n = position(s, '\n') as int;
    if s.len() == 0 {
        assert(join(lines(s), nl) == s);
    } else if n == s.len() {
        assert(s[s.len() - 1] != '\n');
        assert(lines(s) == seq![s]);
        assert(join(lines(s), nl) == s);
    } else {
        let line = s.take(n);
        let rest = s.skip(n + 1);
        if n > 0 {
            assert(p(s[n - 1]));
            assert(line.last() == s[n - 1]);
        }
        assert(strip_cr(line) == line);
        assert forall|i: int| 0 <= i < rest.len() implies p(#[trigger] rest[i]) by {
            assert(rest[i] == s[n + 1 + i]);
        }
        lemma_join_lines(rest);
        assert(lines(s) == seq![line] + lines(rest));
        if rest.len() == 0 {
            assert(lines(s) == seq![line]);
            assert(join(lines(s), nl) == line);
            assert(s.drop_last() == line);
        } else {
            lemma_join_front(lines(s), nl);
            assert(lines(s).drop_first() == lines(rest));
            assert(s == line + nl + rest);
            assert(s.last() == rest.last());
            if rest.last() == '\n' {
                assert(s.drop_last() == line + nl + rest.drop_last());
            }
        }
    }
}

/// A filter that everything fits changes nothing.
pub(crate) proof fn lemma_filter_all(ls: Seq<Seq<char>>, keep: spec_fn(Seq<char>) -> bool)
    requires
        forall|i: int| 0 <= i < ls.len() ==> keep(#[trigger] ls[i]),
    ensures
        ls.filter(keep) == ls,
    decreases ls.len(),
{
    reveal(Seq::filter);
    if ls.len() > 0 {
        let front = ls.drop_last();
        assert forall|i: int| 0 <= i < front.len() implies keep(#[trigger] front[i]) by {
            assert(front[i] == ls[i]);
        }
        lemma_filter_all(front, keep);
        assert(keep(ls[ls.len() - 1]));
        assert(front.push(ls.last()) == ls);
    }
}

proof fn lemma_trim_of_joined(s: Seq<char>)
    requires
        made_of(s, |c: char| c != '\r'),
    ensures
        trim(join(lines(s), seq!['\n'])) == trim(s),
{
    lemma_join_lines(s);
    if s.len() > 0 && s.last() == '\n' {
        let e = Seq::<char>::empty();
        let nl = seq!['\n'];
        assert(all_white(e));
        assert(all_white(nl));
        assert(e + s.drop_last() + nl == s);
        lemma_trim_absorbs(e, s.drop_last(), nl);
    }
}

/// Ordinary text is not mangled: a body without markup, carriage returns, signature
/// and quoted lines is kept, but for whitespace around it.
pub proof fn law_plain_text_is_kept(body: Seq<char>)
    requires
        !has_markup(body),
        made_of(body, |c: char| c != '\r'),
        forall|i: int|
            0 <= i < lines(body).len() ==> !is_quoted(#[trigger] lines(body)[i]) && !is_delimiter(
                lines(body)[i],
            ),
    ensures
        cleaned(body) == trim(body),
{
    let nl = seq!['\n'];
    let p = |c: char| c != '\r';
    let keep = |l: Seq<char>| !is_quoted(l);
    let ls = lines(body);
    lemma_lines_before_signature(ls);
    assert(lines_before_signature(ls) == ls.len());
    assert(ls.take(ls.len() as int) == ls);
    let s = unsigned(body);
    assert(s == join(ls, nl));
    lemma_join_lines(body);
    assert(made_of(s, p)) by {
        assert forall|i: int| 0 <= i < s.len() implies p(#[trigger] s[i]) by {
            assert(s[i] == body[i]);
        }
    }
    lemma_lines_without_feeds(body);
    assert forall|i: int| 0 <= i < lines(s).len() implies keep(#[trigger] lines(s)[i]) by {
        let (a, b) = lemma_line_at(s, i);
        let seg = s.subrange(a, b);
        if seg.len() > 0 {
            assert(p(s[b - 1]));
            assert(seg.last() == s[b - 1]);
        }
        assert(lines(s)[i] == seg);
        let k = lemma_line_of_join(ls, a, b);
        assert(!is_quoted(ls[k]));
    }
    lemma_filter_all(lines(s), keep);
    lemma_trim_of_joined(s);
    lemma_trim_of_joined(body);
}

} // verus!
