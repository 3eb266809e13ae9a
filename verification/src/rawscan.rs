//! Finding the shapes of message files that the mail parser does not get through.
//!
//! The positions of a text are marked once, for what its headers make of a part and
//! for the header block they stand in; each shape is then found in one pass over the
//! marks.

use vstd::prelude::*;
use vstd::slice::slice_subrange;

use crate::rawmail::{
    after_equals, are_nested, bare_soft_break_at, blank_up_to, blocks, boundary_text, breaks_early,
    closes_block, ends_in, first_letter_at, folds_at, has_extreme_zone, has_odd_digest,
    has_odd_part, header_end, hides_message, in_date, is_boundary_char, is_filler, is_letter,
    is_obscure, is_odd_digest, is_odd_part, is_padding, is_plain_digest, is_sound, is_typed_part,
    is_unbroken, makes_digest, makes_message, makes_multipart, may_close, names_encoding,
    names_extreme, names_quoted, nested, nests_directly, opens_quoted, solids, squeezed, type_at,
    type_end, type_text, typed_at, MAX_NESTED,
};
use crate::strings::{
    chars_eq, contains, contains_chars, ends_with_chars, occurs_at, starts_with_chars, to_chars,
};

verus! {

/// Whether `c` is whitespace that does not end a line.
fn pads(c: char) -> (r: bool)
    ensures
        r == is_padding(c),
{
    c == ' ' || c == '\t' || c == '\u{c}' || c == '\r'
}

/// Whether `c` is a small letter.
fn letter(c: char) -> (r: bool)
    ensures
        r == is_letter(c),
{
    'a' <= c && c <= 'z'
}

/// Whether `c` may stand between the parts of a header.
fn fills(c: char) -> (r: bool)
    ensures
        r == is_filler(c),
{
    pads(c) || c == '\n' || c == '"' || c == '\\'
}

/// One more character lengthens a squeezed text by itself, unless it is filler.
proof fn lemma_squeezed_step(t: Seq<char>, i: int)
    requires
        0 <= i < t.len(),
    ensures
        squeezed(t.take(i + 1)) == if is_filler(t[i]) {
            squeezed(t.take(i))
        } else {
            squeezed(t.take(i)).push(t[i])
        },
{
    assert(t.take(i + 1).drop_last() == t.take(i));
    assert(t.take(i + 1).last() == t[i]);
    reveal(Seq::filter);
}

proof fn lemma_squeezed_empty(t: Seq<char>)
    ensures
        squeezed(t.take(0)) == Seq::<char>::empty(),
{
    assert(t.take(0) == Seq::<char>::empty());
    reveal(Seq::filter);
}

/// `t` without what may stand between the parts of a header.
fn squeeze(t: &[char]) -> (r: Vec<char>)
    ensures
        r@ == squeezed(t@),
{
    let mut out: Vec<char> = Vec::new();
    let mut i: usize = 0;
    proof {
        lemma_squeezed_empty(t@);
    }
    while i < t.len()
        invariant
            i <= t@.len(),
            out@ == squeezed(t@.take(i as int)),
        decreases t@.len() - i,
    {
        proof {
            lemma_squeezed_step(t@, i as int);
        }
        if !fills(t[i]) {
            out.push(t[i]);
        }
        i += 1;
    }
    assert(t@.take(i as int) == t@);
    out
}

/// Whether `v` has an entry for each position of a text of `n` characters.
spec fn covers(v: Seq<bool>, n: nat) -> bool {
    v.len() == n + 1
}

/// For each position of `t`, whether the squeezed text up to there ends in `p`.
fn marks(t: &[char], p: &[char]) -> (r: Vec<bool>)
    ensures
        covers(r@, t@.len()),
        forall|i: int| 0 <= i <= t@.len() ==> #[trigger] r@[i] == ends_in(t@, i, p@),
{
    let mut out: Vec<bool> = Vec::new();
    let mut tight: Vec<char> = Vec::new();
    let mut i: usize = 0;
    out.push(false);
    proof {
        lemma_squeezed_empty(t@);
    }
    while i < t.len()
        invariant
            i <= t@.len(),
            tight@ == squeezed(t@.take(i as int)),
            out@.len() == i + 1,
            forall|k: int| 0 <= k <= i ==> #[trigger] out@[k] == ends_in(t@, k, p@),
        decreases t@.len() - i,
    {
        proof {
            lemma_squeezed_step(t@, i as int);
        }
        if fills(t[i]) {
            out.push(false);
        } else {
            tight.push(t[i]);
            out.push(ends_with_chars(&tight, p));
        }
        i += 1;
    }
    out
}

/// For each position, whether it is marked in `a` or in `b`.
fn either(a: &Vec<bool>, b: &Vec<bool>) -> (r: Vec<bool>)
    requires
        a@.len() == b@.len(),
    ensures
        r@.len() == a@.len(),
        forall|i: int| 0 <= i < a@.len() ==> #[trigger] r@[i] == (a@[i] || b@[i]),
{
    let mut out: Vec<bool> = Vec::new();
    let mut i: usize = 0;
    while i < a.len()
        invariant
            i <= a@.len(),
            a@.len() == b@.len(),
            out@.len() == i,
            forall|k: int| 0 <= k < i ==> #[trigger] out@[k] == (a@[k] || b@[k]),
        decreases a@.len() - i,
    {
        out.push(a[i] || b[i]);
        i += 1;
    }
    out
}

/// Whether a run of letters begins at position `i` of `t`.
fn begins_letters(t: &[char], i: usize) -> (r: bool)
    requires
        i < t@.len(),
    ensures
        r == first_letter_at(t@, i as int),
{
    letter(t[i]) && (i == 0 || !letter(t[i - 1]))
}

/// Whether a header goes on behind the line feed in position `p`.
fn folds(t: &[char], p: usize) -> (r: bool)
    requires
        p < t@.len(),
    ensures
        r == folds_at(t@, p as int),
{
    t.len() - p > 1 && (t[p + 1] == ' ' || t[p + 1] == '\t')
}

/// For each position of `t`, whether it may belong to the value of a Date header.
fn date_marks(t: &[char]) -> (r: Vec<bool>)
    ensures
        covers(r@, t@.len()),
        forall|i: int| 0 <= i <= t@.len() ==> #[trigger] r@[i] == in_date(t@, i),
{
    let begins = marks(t, &to_chars("date:"));
    let mut out: Vec<bool> = Vec::new();
    let mut i: usize = 0;
    out.push(false);
    while i < t.len()
        invariant
            i <= t@.len(),
            begins@.len() == t@.len() + 1,
            forall|k: int| 0 <= k <= t@.len() ==> #[trigger] begins@[k] == ends_in(t@, k, "date:"@),
            out@.len() == i + 1,
            forall|k: int| 0 <= k <= i ==> #[trigger] out@[k] == in_date(t@, k),
        decreases t@.len() - i,
    {
        let zone = (i >= 1 && begins_letters(t, i - 1)) || (i >= 2 && begins_letters(t, i - 2));
        let goes_on = t[i] != '\n' || zone || folds(t, i);
        let before = out[i];
        let now = begins[i + 1] || (before && goes_on);
        assert(begins@[i + 1] == ends_in(t@, i + 1, "date:"@));
        assert(now == in_date(t@, i + 1));
        out.push(now);
        i += 1;
    }
    out
}

/// For each position of `t`, how many header blocks were closed in front of it.
fn block_numbers(t: &[char], dated: &Vec<bool>) -> (r: Vec<usize>)
    requires
        covers(dated@, t@.len()),
        forall|i: int| 0 <= i <= t@.len() ==> #[trigger] dated@[i] == in_date(t@, i),
    ensures
        r@.len() == t@.len() + 1,
        forall|i: int| 0 <= i <= t@.len() ==> #[trigger] r@[i] == blocks(t@, i),
{
    let mut out: Vec<usize> = Vec::new();
    let mut count: usize = 0;
    let mut i: usize = 0;
    out.push(0);
    while i < t.len()
        invariant
            i <= t@.len(),
            dated@.len() == t@.len() + 1,
            forall|k: int| 0 <= k <= t@.len() ==> #[trigger] dated@[k] == in_date(t@, k),
            count <= i,
            count == blocks(t@, i as int),
            out@.len() == i + 1,
            forall|k: int| 0 <= k <= i ==> #[trigger] out@[k] == blocks(t@, k),
        decreases t@.len() - i,
    {
        let closes = t[i] == '\n' && ((i >= 1 && t[i - 1] == '\n' && !dated[i]) || (i >= 2 && t[i
            - 1] == '\r' && t[i - 2] == '\n' && !dated[i - 1]));
        assert(closes == closes_block(t@, i as int));
        if closes {
            count += 1;
        }
        out.push(count);
        i += 1;
    }
    out
}

/// The numbers of header blocks go up.
proof fn lemma_blocks_grow(t: Seq<char>, i: int, j: int)
    requires
        i <= j,
    ensures
        blocks(t, i) <= blocks(t, j),
    decreases j - i,
{
    if i < j {
        lemma_blocks_grow(t, i, j - 1);
    }
}

/// Where the type at position `i` of `t` ends.
fn find_type_end(t: &[char], i: usize) -> (r: usize)
    requires
        i <= t@.len(),
    ensures
        r == type_end(t@, i as int),
        i <= r <= t@.len(),
{
    let mut k: usize = i;
    while k < t.len() && t[k] != ';' && t[k] != '(' && (t[k] != '\n' || folds(t, k))
        invariant
            i <= k <= t@.len(),
            type_end(t@, i as int) == type_end(t@, k as int),
        decreases t@.len() - k,
    {
        k += 1;
    }
    k
}

/// Where the header with its value at position `i` of `t` ends.
fn find_header_end(t: &[char], i: usize) -> (r: usize)
    requires
        i <= t@.len(),
    ensures
        r == header_end(t@, i as int),
        i <= r <= t@.len(),
{
    let mut k: usize = i;
    while k < t.len() && (t[k] != '\n' || folds(t, k))
        invariant
            i <= k <= t@.len(),
            header_end(t@, i as int) == header_end(t@, k as int),
        decreases t@.len() - k,
    {
        k += 1;
    }
    k
}

/// For each position of `t`, whether a Content-Type header has its value there whose
/// type is obscure or holds `name`.
fn type_marks(t: &[char], types: &Vec<bool>, name: &[char]) -> (r: Vec<bool>)
    requires
        covers(types@, t@.len()),
        forall|i: int| 0 <= i <= t@.len() ==> #[trigger] types@[i] == type_at(t@, i),
    ensures
        covers(r@, t@.len()),
        forall|i: int|
            0 <= i <= t@.len() ==> #[trigger] r@[i] == (type_at(t@, i) && (is_obscure(t@, i)
                || contains(type_text(t@, i), name@))),
{
    let mut out: Vec<bool> = Vec::new();
    let mut i: usize = 0;
    while i < types.len()
        invariant
            i <= types@.len(),
            types@.len() == t@.len() + 1,
            forall|k: int| 0 <= k <= t@.len() ==> #[trigger] types@[k] == type_at(t@, k),
            out@.len() == i,
            forall|k: int|
                0 <= k < i ==> #[trigger] out@[k] == (type_at(t@, k) && (is_obscure(t@, k)
                    || contains(type_text(t@, k), name@))),
        decreases types@.len() - i,
    {
        let mut found = false;
        assert(types@[i as int] == type_at(t@, i as int));
        if types[i] {
            let end = find_type_end(t, i);
            let text = squeeze(slice_subrange(t, i, end));
            found = (end < t.len() && t[end] == '(') || contains_chars(&text, name);
        }
        out.push(found);
        i += 1;
    }
    out
}

/// For each position of `t`, whether a header with its value there may make its part
/// a message.
fn message_marks(t: &[char], types: &Vec<bool>) -> (r: Vec<bool>)
    requires
        covers(types@, t@.len()),
        forall|i: int| 0 <= i <= t@.len() ==> #[trigger] types@[i] == type_at(t@, i),
    ensures
        covers(r@, t@.len()),
        forall|i: int| 0 <= i <= t@.len() ==> #[trigger] r@[i] == makes_message(t@, i),
{
    let rfc822 = type_marks(t, types, &to_chars("message/rfc822"));
    let global = type_marks(t, types, &to_chars("message/global"));
    let r = either(&rfc822, &global);
    assert forall|i: int| 0 <= i <= t@.len() implies #[trigger] r@[i] == makes_message(t@, i) by {
        assert(rfc822@[i] || !rfc822@[i]);
        assert(global@[i] || !global@[i]);
    }
    r
}

/// For each position of `t`, whether a header that may name the quoted-printable
/// encoding reaches up to there.
fn quoted_marks(t: &[char]) -> (r: Vec<bool>)
    ensures
        covers(r@, t@.len()),
        forall|i: int| 0 <= i <= t@.len() ==> #[trigger] r@[i] == names_quoted(t@, i),
{
    let plain = marks(t, &to_chars("content-transfer-encoding:quoted-printable"));
    let coded = marks(t, &to_chars("content-transfer-encoding:=?"));
    let r = either(&plain, &coded);
    assert forall|i: int| 0 <= i <= t@.len() implies #[trigger] r@[i] == names_quoted(t@, i) by {
        assert(plain@[i] || !plain@[i]);
        assert(coded@[i] || !coded@[i]);
    }
    r
}

/// For each position of `t`, whether a header that may name an encoding reaches up
/// to there.
fn encoding_marks(t: &[char], quoted: &Vec<bool>) -> (r: Vec<bool>)
    requires
        covers(quoted@, t@.len()),
        forall|i: int| 0 <= i <= t@.len() ==> #[trigger] quoted@[i] == names_quoted(t@, i),
    ensures
        covers(r@, t@.len()),
        forall|i: int| 0 <= i <= t@.len() ==> #[trigger] r@[i] == names_encoding(t@, i),
{
    let base64 = marks(t, &to_chars("content-transfer-encoding:base64"));
    let r = either(quoted, &base64);
    assert forall|i: int| 0 <= i <= t@.len() implies #[trigger] r@[i] == names_encoding(t@, i) by {
        assert(quoted@[i] || !quoted@[i]);
        assert(base64@[i] || !base64@[i]);
    }
    r
}

/// Whether a position that is marked in `a` and one that is marked in `b` have one
/// number.
spec fn meet(a: Seq<bool>, b: Seq<bool>, numbers: Seq<usize>) -> bool {
    exists|i: int, j: int|
        0 <= i < a.len() && 0 <= j < b.len() && #[trigger] a[i] && #[trigger] b[j] && numbers[i]
            == numbers[j]
}

/// Whether the numbers go up.
spec fn go_up(numbers: Seq<usize>) -> bool {
    forall|i: int, j: int|
        0 <= i <= j < numbers.len() ==> #[trigger] numbers[i] <= #[trigger] numbers[j]
}

proof fn lemma_go_up(t: Seq<char>, numbers: Seq<usize>)
    requires
        numbers.len() == t.len() + 1,
        forall|i: int| 0 <= i <= t.len() ==> #[trigger] numbers[i] == blocks(t, i),
    ensures
        go_up(numbers),
{
    assert forall|i: int, j: int| 0 <= i <= j < numbers.len() implies #[trigger] numbers[i]
        <= #[trigger] numbers[j] by {
        lemma_blocks_grow(t, i, j);
    }
}

/// Whether a position that is marked in `a` and one that is marked in `b` have one
/// number.
fn marks_meet(a: &Vec<bool>, b: &Vec<bool>, numbers: &Vec<usize>) -> (r: bool)
    requires
        a@.len() == b@.len() == numbers@.len(),
        go_up(numbers@),
    ensures
        r == meet(a@, b@, numbers@),
{
    let mut seen_a: Option<usize> = None;
    let mut seen_b: Option<usize> = None;
    let mut i: usize = 0;
    while i < a.len()
        invariant
            i <= a@.len(),
            a@.len() == b@.len() == numbers@.len(),
            go_up(numbers@),
            forall|k: int| 0 <= k < i && #[trigger] a@[k] ==> seen_a is Some && k <= seen_a->0,
            forall|k: int| 0 <= k < i && #[trigger] b@[k] ==> seen_b is Some && k <= seen_b->0,
            seen_a is Some ==> seen_a->0 < i && a@[seen_a->0 as int],
            seen_b is Some ==> seen_b->0 < i && b@[seen_b->0 as int],
            forall|x: int, y: int|
                0 <= x < i && 0 <= y < i && #[trigger] a@[x] && #[trigger] b@[y] ==> numbers@[x]
                    != numbers@[y],
        decreases a@.len() - i,
    {
        if a[i] {
            seen_a = Some(i);
        }
        if b[i] {
            seen_b = Some(i);
        }
        if let (Some(x), Some(y)) = (seen_a, seen_b) {
            if numbers[x] == numbers[y] {
                assert(a@[x as int] && b@[y as int]);
                return true;
            }
        }
        proof {
            assert forall|x: int, y: int|
                0 <= x < i + 1 && 0 <= y < i + 1 && #[trigger] a@[x] && #[trigger]
                    b@[y] implies numbers@[x] != numbers@[y] by {
                let u = seen_a->0 as int;
                let v = seen_b->0 as int;
                assert(x <= u && y <= v);
                if x == i || y == i {
                    assert(numbers@[x] <= numbers@[u] <= numbers@[i as int]);
                    assert(numbers@[y] <= numbers@[v] <= numbers@[i as int]);
                    if x == i {
                        assert(u == i);
                    }
                    if y == i {
                        assert(v == i);
                    }
                }
            }
        }
        i += 1;
    }
    false
}

/// What the positions of a text are marked for.
struct Marks {
    dated: Vec<bool>,
    types: Vec<bool>,
    messages: Vec<bool>,
    digests: Vec<bool>,
    multiparts: Vec<bool>,
    quoted: Vec<bool>,
    encodings: Vec<bool>,
    numbers: Vec<usize>,
}

impl Marks {
    /// Whether these are the marks of `t`.
    spec fn of(&self, t: Seq<char>) -> bool {
        &&& self.dated@.len() == t.len() + 1
        &&& self.types@.len() == t.len() + 1
        &&& self.messages@.len() == t.len() + 1
        &&& self.digests@.len() == t.len() + 1
        &&& self.multiparts@.len() == t.len() + 1
        &&& self.quoted@.len() == t.len() + 1
        &&& self.encodings@.len() == t.len() + 1
        &&& self.numbers@.len() == t.len() + 1
        &&& forall|i: int| 0 <= i <= t.len() ==> #[trigger] self.dated@[i] == in_date(t, i)
        &&& forall|i: int| 0 <= i <= t.len() ==> #[trigger] self.types@[i] == type_at(t, i)
        &&& forall|i: int| 0 <= i <= t.len() ==> #[trigger] self.messages@[i] == makes_message(t, i)
        &&& forall|i: int| 0 <= i <= t.len() ==> #[trigger] self.digests@[i] == makes_digest(t, i)
        &&& forall|i: int|
            0 <= i <= t.len() ==> #[trigger] self.multiparts@[i] == makes_multipart(t, i)
        &&& forall|i: int| 0 <= i <= t.len() ==> #[trigger] self.quoted@[i] == names_quoted(t, i)
        &&& forall|i: int|
            0 <= i <= t.len() ==> #[trigger] self.encodings@[i] == names_encoding(t, i)
        &&& forall|i: int| 0 <= i <= t.len() ==> #[trigger] self.numbers@[i] == blocks(t, i)
    }

    /// The marks of `t`.
    fn new(t: &[char]) -> (r: Marks)
        ensures
            r.of(t@),
    {
        let dated = date_marks(t);
        let types = marks(t, &to_chars("content-type:"));
        let messages = message_marks(t, &types);
        let digests = type_marks(t, &types, &to_chars("multipart/digest"));
        let multiparts = type_marks(t, &types, &to_chars("multipart"));
        let quoted = quoted_marks(t);
        let encodings = encoding_marks(t, &quoted);
        let numbers = block_numbers(t, &dated);
        Marks { dated, types, messages, digests, multiparts, quoted, encodings, numbers }
    }

    /// Whether at most `limit` headers of `t` can open a nested message.
    fn nest_within(&self, t: &[char], limit: usize) -> (r: bool)
        requires
            self.of(t@),
        ensures
            r == (nested(t@, t@.len() as int) <= limit),
    {
        let mut count: usize = 0;
        let mut i: usize = 0;
        while i < t.len()
            invariant
                i <= t@.len(),
                self.of(t@),
                count <= i,
                count == nested(t@, i as int),
            decreases t@.len() - i,
        {
            i += 1;
            assert(self.messages@[i as int] == makes_message(t@, i as int));
            assert(self.digests@[i as int] == makes_digest(t@, i as int));
            if self.messages[i] || self.digests[i] {
                count += 1;
            }
        }
        count <= limit
    }

    /// Whether a Received header of `t` may hold a zone that has no absolute value.
    fn find_extreme_zone(&self, t: &[char]) -> (r: bool)
        requires
            self.of(t@),
        ensures
            r == has_extreme_zone(t@),
    {
        let received = marks(t, &to_chars("received:"));
        let extreme = marks(t, &to_chars("9223372036854775808"));
        proof {
            lemma_go_up(t@, self.numbers@);
        }
        let r = marks_meet(&received, &extreme, &self.numbers);
        proof {
            if r {
                let (i, j) = choose|i: int, j: int|
                    0 <= i < received@.len() && 0 <= j < extreme@.len() && #[trigger] received@[i]
                        && #[trigger] extreme@[j] && self.numbers@[i] == self.numbers@[j];
                assert(ends_in(t@, i, "received:"@) && names_extreme(t@, j));
            }
            if has_extreme_zone(t@) {
                let (i, j) = choose|i: int, j: int| #[trigger]
                    ends_in(t@, i, "received:"@) && #[trigger] names_extreme(t@, j) && blocks(t@, i)
                        == blocks(t@, j);
                assert(received@[i] && extreme@[j] && self.numbers@[i] == self.numbers@[j]);
            }
        }
        r
    }

    /// Whether `t` may hold a message that has to be decoded first.
    fn find_hidden_message(&self, t: &[char]) -> (r: bool)
        requires
            self.of(t@),
        ensures
            r == hides_message(t@),
    {
        proof {
            lemma_go_up(t@, self.numbers@);
        }
        let r = marks_meet(&self.messages, &self.encodings, &self.numbers);
        proof {
            if r {
                let (i, j) = choose|i: int, j: int|
                    0 <= i < self.messages@.len() && 0 <= j < self.encodings@.len() && #[trigger]
                        self.messages@[i] && #[trigger] self.encodings@[j] && self.numbers@[i]
                        == self.numbers@[j];
                assert(makes_message(t@, i) && names_encoding(t@, j));
            }
            if hides_message(t@) {
                let (i, j) = choose|i: int, j: int| #[trigger]
                    makes_message(t@, i) && #[trigger] names_encoding(t@, j) && blocks(t@, i)
                        == blocks(t@, j);
                assert(self.messages@[i] && self.encodings@[j] && self.numbers@[i]
                    == self.numbers@[j]);
            }
        }
        r
    }

    /// Whether a part of `t` may hold a message that is nothing but another message.
    fn find_direct_nesting(&self, t: &[char]) -> (r: bool)
        requires
            self.of(t@),
        ensures
            r == nests_directly(t@),
    {
        let mut parted = false;
        let ghost mut parent: int = 0;
        let mut last: Option<usize> = None;
        let mut j: usize = 0;
        while j < self.messages.len()
            invariant
                j <= t@.len() + 1,
                self.of(t@),
                parted ==> parent < j && makes_multipart(t@, parent),
                forall|k: int| k < j && #[trigger] makes_multipart(t@, k) ==> parted,
                last is Some ==> parted && parent < last->0 < j && makes_message(
                    t@,
                    last->0 as int,
                ),
                forall|k: int, i: int|
                    k < i < j && #[trigger] makes_multipart(t@, k) && #[trigger] makes_message(
                        t@,
                        i,
                    ) ==> last is Some && i <= last->0,
                forall|k: int, i: int, m: int|
                    k < i && m < j && #[trigger] makes_multipart(t@, k) ==> !(#[trigger]
                        are_nested(t@, i, m)),
            decreases t@.len() + 1 - j,
        {
            assert(self.messages@[j as int] == makes_message(t@, j as int));
            assert(self.multiparts@[j as int] == makes_multipart(t@, j as int));
            if parted && self.messages[j] {
                if let Some(i) = last {
                    assert(self.numbers@[i as int] == blocks(t@, i as int));
                    assert(self.numbers@[j as int] == blocks(t@, j as int));
                    proof {
                        lemma_blocks_grow(t@, i as int, j as int);
                    }
                    if self.numbers[j] - self.numbers[i] <= 1 {
                        assert(makes_multipart(t@, parent));
                        assert(are_nested(t@, i as int, j as int));
                        return true;
                    }
                }
            }
            proof {
                assert forall|k: int, i: int, m: int|
                    k < i && m < j + 1 && #[trigger] makes_multipart(t@, k) implies !(#[trigger]
                    are_nested(t@, i, m)) by {
                    if m == j && are_nested(t@, i, m) {
                        lemma_blocks_grow(t@, i, last->0 as int);
                    }
                }
            }
            if parted && self.messages[j] {
                last = Some(j);
            }
            if !parted && self.multiparts[j] {
                parted = true;
                proof {
                    parent = j as int;
                }
            }
            j += 1;
        }
        false
    }
}

/// The numbers of solid characters go up.
proof fn lemma_solids_grow(t: Seq<char>, i: int, j: int)
    requires
        i <= j,
    ensures
        solids(t, i) <= solids(t, j),
    decreases j - i,
{
    if i < j {
        lemma_solids_grow(t, i, j - 1);
    }
}

/// An equals sign is behind the next position where it is at hand, or where it was
/// behind this one and padding follows.
proof fn lemma_after_equals(t: Seq<char>, i: int)
    requires
        0 <= i < t.len(),
    ensures
        after_equals(t, i + 1) == (t[i] == '=' || (after_equals(t, i) && is_padding(t[i]))),
{
    if t[i] != '=' && after_equals(t, i) && is_padding(t[i]) {
        let j = choose|j: int|
            0 <= j < i <= t.len() && #[trigger] t[j] == '=' && (forall|k: int|
                j < k < i ==> is_padding(t[k]));
        assert(t[j] == '=');
    }
    if t[i] != '=' && after_equals(t, i + 1) {
        let j = choose|j: int|
            0 <= j < i + 1 <= t.len() && #[trigger] t[j] == '=' && (forall|k: int|
                j < k < i + 1 ==> is_padding(t[k]));
        assert(j < i);
        assert(is_padding(t[i]));
        assert(t[j] == '=');
    }
}

impl Marks {
    /// Whether `t` may hold a quoted-printable part that ends in a soft line break
    /// too early.
    fn find_early_break(&self, t: &[char]) -> (r: bool)
        requires
            self.of(t@),
        ensures
            r == breaks_early(t@),
    {
        let mut equals = false;
        let mut blank = true;
        let mut named = false;
        let mut solid: usize = 0;
        let mut opened: Option<usize> = None;
        let ghost mut last: int = 0;
        let mut i: usize = 0;
        while i < t.len()
            invariant
                i <= t@.len(),
                self.of(t@),
                equals == after_equals(t@, i as int),
                blank == blank_up_to(t@, i as int),
                i > 0 ==> named == (exists|q: int|
                    q <= i - 1 && #[trigger] names_quoted(t@, q) && blocks(t@, q) == blocks(
                        t@,
                        i - 1,
                    )),
                i == 0 ==> !named,
                solid <= i,
                solid == solids(t@, i as int),
                opened is Some ==> last < i && opens_quoted(t@, last) && opened->0 == solids(
                    t@,
                    last,
                ),
                forall|p: int| p < i && #[trigger] opens_quoted(t@, p) ==> opened is Some && p
                    <= last,
                forall|p: int, k: int|
                    p < k < i && #[trigger] opens_quoted(t@, p) && #[trigger] bare_soft_break_at(
                        t@,
                        k,
                    ) ==> solids(t@, k) > solids(t@, p) + 2,
            decreases t@.len() - i,
        {
            let c = t[i];
            let ghost was_named = named;
            assert(self.quoted@[i as int] == names_quoted(t@, i as int));
            assert(self.numbers@[i as int] == blocks(t@, i as int));
            if i > 0 {
                assert(self.numbers@[i - 1] == blocks(t@, i - 1));
                named = named && self.numbers[i] == self.numbers[i - 1];
            }
            named = named || self.quoted[i];
            proof {
                lemma_named(t@, i as int, was_named, named);
            }
            if c == '\n' && equals && t.len() - i > 2 && t[i + 1] == '-' && t[i + 2] == '-' {
                assert(bare_soft_break_at(t@, i as int));
                if let Some(before) = opened {
                    proof {
                        lemma_solids_grow(t@, last, i as int);
                    }
                    if solid - before <= 2 {
                        assert(opens_quoted(t@, last));
                        return true;
                    }
                }
            }
            proof {
                assert forall|p: int, k: int|
                    p < k < i + 1 && #[trigger] opens_quoted(t@, p) && #[trigger]
                        bare_soft_break_at(t@, k) implies solids(t@, k) > solids(t@, p) + 2 by {
                    if k == i {
                        lemma_solids_grow(t@, p, last);
                    }
                }
            }
            if c == '\n' && blank && named {
                opened = Some(solid);
                proof {
                    last = i as int;
                }
            }
            proof {
                lemma_after_equals(t@, i as int);
                assert(opens_quoted(t@, i as int) == (c == '\n' && blank && named));
            }
            equals = c == '=' || (equals && pads(c));
            blank = c == '\n' || (blank && pads(c));
            if !(c == '=' || c == '\n' || pads(c)) {
                solid += 1;
            }
            i += 1;
        }
        proof {
            assert forall|p: int, k: int| #[trigger]
                opens_quoted(t@, p) && p < k && #[trigger] bare_soft_break_at(
                    t@,
                    k,
                ) implies solids(t@, k) > solids(t@, p) + 2 by {
                assert(k < i);
            }
        }
        false
    }
}

/// A header block up to position `i` names the quoted-printable encoding where it did
/// so one position before, or does so there.
proof fn lemma_named(t: Seq<char>, i: int, was_named: bool, named: bool)
    requires
        0 <= i <= t.len(),
        i > 0 ==> was_named == (exists|q: int|
            q <= i - 1 && #[trigger] names_quoted(t, q) && blocks(t, q) == blocks(t, i - 1)),
        i == 0 ==> !was_named,
        named == ((was_named && (i > 0 ==> blocks(t, i) == blocks(t, i - 1))) || names_quoted(
            t,
            i,
        )),
    ensures
        named == (exists|q: int|
            q <= i && #[trigger] names_quoted(t, q) && blocks(t, q) == blocks(t, i)),
{
    if named && !names_quoted(t, i) {
        let q = choose|q: int|
            q <= i - 1 && #[trigger] names_quoted(t, q) && blocks(t, q) == blocks(t, i - 1);
        assert(names_quoted(t, q));
    }
    if exists|q: int| q <= i && #[trigger] names_quoted(t, q) && blocks(t, q) == blocks(t, i) {
        let q = choose|q: int|
            q <= i && #[trigger] names_quoted(t, q) && blocks(t, q) == blocks(t, i);
        if q < i {
            assert(q > 0);
            lemma_blocks_grow(t, q, i - 1);
            lemma_blocks_grow(t, i - 1, i);
        }
    }
}

/// Whether `p` stands in `t` from position `i` on.
fn stands_at(t: &[char], p: &[char], i: usize) -> (r: bool)
    requires
        i <= t@.len(),
    ensures
        r == occurs_at(t@, p@, i as int),
{
    p.len() <= t.len() - i && chars_eq(slice_subrange(t, i, i + p.len()), p)
}

/// Whether every character of `w` stands for itself in a boundary.
fn all_boundary_chars(w: &[char]) -> (r: bool)
    ensures
        r == (forall|k: int| 0 <= k < w@.len() ==> is_boundary_char(#[trigger] w@[k])),
{
    let mut i: usize = 0;
    while i < w.len()
        invariant
            i <= w@.len(),
            forall|k: int| 0 <= k < i ==> is_boundary_char(#[trigger] w@[k]),
        decreases w@.len() - i,
    {
        let c = w[i];
        if !(letter(c) || ('0' <= c && c <= '9') || c == '=' || c == '_' || c == '-' || c == '+'
            || c == '.' || c == '/' || c == ':' || c == ',') {
            assert(!is_boundary_char(w@[i as int]));
            return false;
        }
        i += 1;
    }
    true
}

/// `a`, then `b`.
fn joined(a: &[char], b: &[char]) -> (r: Vec<char>)
    ensures
        r@ == a@ + b@,
{
    let mut out: Vec<char> = Vec::new();
    out.extend_from_slice(a);
    out.extend_from_slice(b);
    assert(out@ == a@ + b@);
    out
}

/// What the parts of the digest with its header at position `i` of `t` begin with;
/// `None` where the boundary is not plain.
fn plain_delimiter(t: &[char], i: usize) -> (r: Option<Vec<char>>)
    requires
        i <= t@.len(),
    ensures
        match r {
            Some(d) => is_plain_digest(t@, i as int) && d@ == "--"@ + boundary_text(t@, i as int),
            None => !is_plain_digest(t@, i as int),
        },
{
    let value = slice_subrange(t, i, find_header_end(t, i));
    let tight = squeeze(value);
    let front = to_chars("multipart/digest;boundary=");
    if !starts_with_chars(&tight, &front) {
        return None;
    }
    let w = slice_subrange(&tight, front.len(), tight.len());
    assert(w@ == boundary_text(t@, i as int));
    if w.len() == 0 || !all_boundary_chars(w) {
        return None;
    }
    let bare = joined(&to_chars("boundary="), w);
    let quoted = joined(&to_chars("boundary=\""), w);
    if contains_chars(value, &bare) || contains_chars(value, &quoted) {
        Some(joined(&to_chars("--"), w))
    } else {
        None
    }
}

/// For each position of `t` but the last, whether a header block may end there.
fn closing_marks(t: &[char]) -> (r: Vec<bool>)
    ensures
        r@.len() == t@.len(),
        forall|p: int| 0 <= p < t@.len() ==> #[trigger] r@[p] == may_close(t@, p),
{
    let mut out: Vec<bool> = Vec::new();
    let mut blank = true;
    let mut i: usize = 0;
    while i < t.len()
        invariant
            i <= t@.len(),
            blank == blank_up_to(t@, i as int),
            out@.len() == i,
            forall|p: int| 0 <= p < i ==> #[trigger] out@[p] == may_close(t@, p),
        decreases t@.len() - i,
    {
        let c = t[i];
        out.push((c == '\n' && blank) || c == '\u{c}');
        blank = c == '\n' || (blank && pads(c));
        i += 1;
    }
    out
}

/// Whether one of `v` but that at position `i` is marked.
fn marked_elsewhere(v: &Vec<bool>, i: usize) -> (r: bool)
    ensures
        r == exists|j: int| 0 <= j < v@.len() && j != i && #[trigger] v@[j],
{
    let mut j: usize = 0;
    while j < v.len()
        invariant
            j <= v@.len(),
            forall|k: int| 0 <= k < j && k != i ==> !(#[trigger] v@[k]),
        decreases v@.len() - j,
    {
        if j != i && v[j] {
            assert(v@[j as int]);
            return true;
        }
        j += 1;
    }
    false
}

impl Marks {
    /// Whether the part that begins at position `x` of `t` certainly has a type.
    fn part_is_typed(&self, t: &[char], closing: &Vec<bool>, x: usize) -> (r: bool)
        requires
            self.of(t@),
            x <= t@.len(),
            closing@.len() == t@.len(),
            forall|p: int| 0 <= p < t@.len() ==> #[trigger] closing@[p] == may_close(t@, p),
        ensures
            r == is_typed_part(t@, x as int),
    {
        let name = to_chars("content-type:");
        let mut clear = true;
        let mut last: Option<usize> = None;
        let mut typed = false;
        let mut i: usize = x;
        assert(self.numbers@[x as int] == blocks(t@, x as int));
        while i < t.len() && self.numbers[i + 1] == self.numbers[x]
            invariant
                x <= i <= t@.len(),
                self.of(t@),
                name@ == "content-type:"@,
                closing@.len() == t@.len(),
                forall|p: int| 0 <= p < t@.len() ==> #[trigger] closing@[p] == may_close(t@, p),
                blocks(t@, i as int) == blocks(t@, x as int),
                clear == is_unbroken(t@, x as int, i as int),
                last is Some ==> x < last->0 <= i && type_at(t@, last->0 as int) && blocks(
                    t@,
                    last->0 as int,
                ) == blocks(t@, x as int),
                last is Some ==> typed == (x + name@.len() < last->0 && typed_at(
                    t@,
                    last->0 as int,
                ) && is_unbroken(t@, x as int, last->0 as int)),
                last is None ==> !typed,
                forall|k: int|
                    x < k <= i && #[trigger] type_at(t@, k) ==> last is Some && k <= last->0,
            decreases t@.len() - i,
        {
            assert(closing@[i as int] == may_close(t@, i as int));
            assert(self.numbers@[i + 1] == blocks(t@, i + 1));
            assert(self.numbers@[x as int] == blocks(t@, x as int));
            clear = clear && !closing[i];
            i += 1;
            assert(self.types@[i as int] == type_at(t@, i as int));
            if self.types[i] {
                last = Some(i);
                typed = clear && i - x > name.len() && self.has_own_line(t, &name, i);
            }
        }
        proof {
            assert forall|k: int| i < k && #[trigger] type_at(t@, k) implies blocks(t@, k) != blocks(
                t@,
                x as int,
            ) by {
                assert(self.numbers@[i + 1] == blocks(t@, i + 1));
                lemma_blocks_grow(t@, i as int, i + 1);
                lemma_blocks_grow(t@, i + 1, k);
            }
            if typed {
                let y = last->0 as int;
                assert(typed_at(t@, y));
                assert(is_typed_part(t@, x as int));
            }
            if is_typed_part(t@, x as int) {
                let y = choose|y: int|
                    {
                        &&& x + "content-type:"@.len() < y && #[trigger] typed_at(t@, y)
                        &&& blocks(t@, y) == blocks(t@, x as int)
                        &&& is_unbroken(t@, x as int, y)
                        &&& forall|k: int|
                            y < k && #[trigger] type_at(t@, k) ==> blocks(t@, k) != blocks(
                                t@,
                                x as int,
                            )
                    };
                assert(type_at(t@, y));
                assert(y <= i);
                assert(last->0 == y);
            }
        }
        typed
    }

    /// Whether the Content-Type header with its value at position `i` of `t` gives a
    /// type, and has a line of its own.
    fn has_own_line(&self, t: &[char], name: &[char], i: usize) -> (r: bool)
        requires
            self.of(t@),
            name@ == "content-type:"@,
            i <= t@.len(),
            type_at(t@, i as int),
            i > name@.len(),
        ensures
            r == typed_at(t@, i as int),
    {
        let line: usize = i - name.len();
        assert(self.dated@[line as int] == in_date(t@, line as int));
        t[line - 1] == '\n' && !self.dated[line] && stands_at(t, name, line) && ((i < t.len()
            && letter(t[i])) || (t.len() - i > 1 && t[i] == ' ' && letter(t[i + 1])))
    }

    /// Whether the part without a type that begins at position `x` of `t` may be an
    /// encoded message, or be nothing but another message.
    fn part_is_odd(&self, t: &[char], x: usize) -> (r: bool)
        requires
            self.of(t@),
            x <= t@.len(),
        ensures
            r == is_odd_part(t@, x as int),
    {
        let mut i: usize = x;
        proof {
            lemma_go_up(t@, self.numbers@);
        }
        while i < t.len() && self.numbers[i + 1] - self.numbers[x] <= 1
            invariant
                x <= i <= t@.len(),
                self.of(t@),
                go_up(self.numbers@),
                forall|j: int| x < j <= i && #[trigger] names_encoding(t@, j) ==> blocks(t@, j)
                    != blocks(t@, x as int),
                forall|j: int| x < j <= i && #[trigger] makes_message(t@, j) ==> blocks(t@, j)
                    > blocks(t@, x as int) + 1,
            decreases t@.len() - i,
        {
            i += 1;
            assert(self.numbers@[i as int] == blocks(t@, i as int));
            assert(self.numbers@[x as int] == blocks(t@, x as int));
            assert(self.encodings@[i as int] == names_encoding(t@, i as int));
            assert(self.messages@[i as int] == makes_message(t@, i as int));
            if self.encodings[i] && self.numbers[i] == self.numbers[x] {
                return true;
            }
            if self.messages[i] {
                return true;
            }
        }
        proof {
            assert forall|j: int| i < j <= t@.len() implies #[trigger] blocks(t@, j) > blocks(
                t@,
                x as int,
            ) + 1 by {
                assert(self.numbers@[i + 1] == blocks(t@, i + 1));
                assert(self.numbers@[x as int] == blocks(t@, x as int));
                lemma_blocks_grow(t@, i + 1, j);
            }
        }
        false
    }

    /// Whether a part that begins with `d` is one that the parser does not get through.
    fn find_odd_part(&self, t: &[char], closing: &Vec<bool>, d: &[char]) -> (r: bool)
        requires
            self.of(t@),
            closing@.len() == t@.len(),
            forall|p: int| 0 <= p < t@.len() ==> #[trigger] closing@[p] == may_close(t@, p),
            d@.len() > 0,
        ensures
            r == has_odd_part(t@, d@),
    {
        let mut x: usize = 0;
        while x < t.len()
            invariant
                x <= t@.len(),
                self.of(t@),
                closing@.len() == t@.len(),
                forall|p: int| 0 <= p < t@.len() ==> #[trigger] closing@[p] == may_close(t@, p),
                forall|k: int|
                    k < x && #[trigger] occurs_at(t@, d@, k) && !is_typed_part(t@, k)
                        ==> !is_odd_part(t@, k),
            decreases t@.len() - x,
        {
            if stands_at(t, d, x) && !self.part_is_typed(t, closing, x) && self.part_is_odd(t, x) {
                return true;
            }
            x += 1;
        }
        false
    }

    /// Whether `t` may hold a digest with a part that the parser does not get through.
    fn find_odd_digest(&self, t: &[char]) -> (r: bool)
        requires
            self.of(t@),
        ensures
            r == has_odd_digest(t@),
    {
        let closing = closing_marks(t);
        let mut i: usize = 0;
        while i < self.digests.len()
            invariant
                i <= t@.len() + 1,
                self.of(t@),
                closing@.len() == t@.len(),
                forall|p: int| 0 <= p < t@.len() ==> #[trigger] closing@[p] == may_close(t@, p),
                forall|k: int| k < i ==> !(#[trigger] is_odd_digest(t@, k)),
            decreases t@.len() + 1 - i,
        {
            assert(self.digests@[i as int] == makes_digest(t@, i as int));
            if self.digests[i] && self.digest_is_odd(t, &closing, i) {
                return true;
            }
            i += 1;
        }
        false
    }

    /// Whether the digest with its header at position `i` of `t` may have a part that
    /// the parser does not get through.
    fn digest_is_odd(&self, t: &[char], closing: &Vec<bool>, i: usize) -> (r: bool)
        requires
            self.of(t@),
            i <= t@.len(),
            makes_digest(t@, i as int),
            closing@.len() == t@.len(),
            forall|p: int| 0 <= p < t@.len() ==> #[trigger] closing@[p] == may_close(t@, p),
        ensures
            r == is_odd_digest(t@, i as int),
    {
        if let Some(d) = plain_delimiter(t, i) {
            return self.find_odd_part(t, closing, &d);
        }
        let outside = self.encodings.len();
        let encoded = marked_elsewhere(&self.encodings, outside);
        let message = marked_elsewhere(&self.messages, i);
        proof {
            if encoded {
                let j = choose|j: int|
                    0 <= j < self.encodings@.len() && j != outside && #[trigger] self.encodings@[j];
                assert(names_encoding(t@, j));
            }
            if message {
                let j = choose|j: int|
                    0 <= j < self.messages@.len() && j != i && #[trigger] self.messages@[j];
                assert(makes_message(t@, j));
            }
            assert forall|j: int| #[trigger] names_encoding(t@, j) implies encoded by {
                assert(self.encodings@[j]);
            }
            assert forall|j: int| j != i && #[trigger] makes_message(t@, j) implies message by {
                assert(self.messages@[j]);
            }
        }
        encoded || message
    }
}

/// Whether `t` has none of the shapes that the mail parser does not get through.
pub fn text_is_sound(t: &[char]) -> (r: bool)
    ensures
        r == is_sound(t@),
{
    let marks = Marks::new(t);
    marks.nest_within(t, MAX_NESTED) && !marks.find_early_break(t) && !marks.find_extreme_zone(t)
        && !marks.find_hidden_message(t) && !marks.find_direct_nesting(t) && !marks.find_odd_digest(
        t,
    )
}

} // verus!
