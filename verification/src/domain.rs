//! Registrable domain (eTLD+1) of a From address, by the Public Suffix List.

use vstd::prelude::*;
use vstd::slice::slice_subrange;
use vstd::utf8::{
    char_is_scalar, char_u32_cast, decode_utf8, encode_scalar, encode_utf8,
    encode_utf8_decode_utf8, encode_utf8_first_scalar, encode_utf8_valid_utf8, valid_utf8,
};

use crate::string_laws::{law_position, law_trim};
use crate::strings::{
    ascii_lower, from_chars, is_white, lemma_position, lower_char, lower_chars, position,
    position_from, to_chars, trim, trim_chars, trim_end, trim_start,
};

verus! {

/// What `psl::domain` finds to be the registrable domain of a host name.
pub uninterp spec fn psl_domain(name: Seq<u8>) -> Option<Seq<u8>>;

/// `psl::domain`, the registrable domain of `name` as the Public Suffix List
/// that is compiled into the crate has it. The list itself is left unsaid; what
/// is found is always the end of `name`, from the start of `name` or from behind
/// a dot on.
#[verifier::external_body]
fn registrable_suffix(name: &[u8]) -> (r: Option<Vec<u8>>)
    ensures
        match r {
            Some(d) => psl_domain(name@) == Some(d@),
            None => psl_domain(name@) is None,
        },
        r matches Some(d) ==> d@.is_suffix_of(name@) && (d@.len() == name@.len()
            || name@[name@.len() - d@.len() - 1] == 0x2E),
{
    psl::domain(name).map(|d| d.as_bytes().to_vec())
}

/// `String::from_utf8`: the text that the bytes encode; fails where they are no
/// valid UTF-8.
#[verifier::external_body]
fn string_from_utf8(bytes: Vec<u8>) -> (r: Option<String>)
    ensures
        r is Some <==> valid_utf8(bytes@),
        r matches Some(s) ==> s@ == decode_utf8(bytes@),
{
    String::from_utf8(bytes).ok()
}

/// The part of `s` behind its last `@`; `None` where it holds none.
pub open spec fn after_last_at(s: Seq<char>) -> Option<Seq<char>>
    decreases s.len(),
{
    if s.len() == 0 {
        None
    } else if s.last() == '@' {
        Some(Seq::empty())
    } else {
        match after_last_at(s.drop_last()) {
            Some(t) => Some(t.push(s.last())),
            None => None,
        }
    }
}

/// The host of a From value: what stands behind the last `@` up to a closing `>`,
/// without surrounding whitespace. `None` where there is no `@` or nothing is
/// left.
pub open spec fn host_of(from_addr: Seq<char>) -> Option<Seq<char>> {
    match after_last_at(from_addr) {
        Some(rest) => {
            let host = trim(rest.take(position(rest, '>') as int));
            if host.len() == 0 {
                None
            } else {
                Some(host)
            }
        },
        None => None,
    }
}

/// The text of a domain that was found, where it is valid UTF-8.
pub open spec fn domain_text(found: Option<Seq<u8>>) -> Option<Seq<char>> {
    match found {
        Some(d) => if valid_utf8(d) {
            Some(decode_utf8(d))
        } else {
            None
        },
        None => None,
    }
}

/// The registrable domain of a From value: that of its host in small letters.
pub open spec fn domain_of(from_addr: Seq<char>) -> Option<Seq<char>> {
    match host_of(from_addr) {
        Some(host) => domain_text(psl_domain(encode_utf8(ascii_lower(host)))),
        None => None,
    }
}

/// Whether `d` is made of whole labels at the end of `host`.
pub open spec fn is_label_suffix(d: Seq<char>, host: Seq<char>) -> bool {
    ||| d == host
    ||| exists|j: int| 0 <= j < host.len() && #[trigger] host[j] == '.' && d == host.skip(j + 1)
}

/// A byte `.` in the UTF-8 encoding of `s` encodes a character `.` of `s`; what
/// stands behind the byte encodes what stands behind the character.
proof fn lemma_dot_byte(s: Seq<char>, i: int) -> (j: int)
    requires
        0 <= i < encode_utf8(s).len(),
        encode_utf8(s)[i] == 0x2E,
    ensures
        0 <= j < s.len(),
        s[j] == '.',
        encode_utf8(s).skip(i + 1) == encode_utf8(s.skip(j + 1)),
    decreases s.len(),
{
    assert(s.len() > 0);
    char_is_scalar(s[0]);
    let w = encode_scalar(s[0] as u32);
    let rest = s.drop_first();
    let bytes = encode_utf8(s);
    assert(bytes == w + encode_utf8(rest));
    encode_utf8_first_scalar(s);
    if i < w.len() {
        let u = s[0] as u32;
        assert(w.len() == 1);
        assert(u <= 0x7F ==> (u & 0x7F) as u8 == u) by (bit_vector);
        assert(bytes[0] == w[0]);
        assert(u <= 0x7F);
        char_u32_cast(s[0], u);
        assert(u == 0x2E);
        assert(s[0] == '.');
        assert(bytes.skip(1) == encode_utf8(rest));
        assert(s.skip(1) == rest);
        0
    } else {
        let j = lemma_dot_byte(rest, i - w.len());
        assert(bytes.skip(i + 1) == encode_utf8(rest).skip(i - w.len() + 1));
        assert(rest.skip(j + 1) == s.skip(j + 2));
        j + 1
    }
}

/// Extract the registrable domain (eTLD+1) from a From value.
///
/// Accepts a bare address (`alice@mail.example.co.uk`) or a display-name form
/// (`Alice <alice@example.com>`); what stands behind the last `@` up to a closing
/// `>` is taken for the host. The result is in small letters and made of
/// whole labels at the end of the host; `None` where there is no host or no
/// registrable domain can be determined.
pub fn registrable_domain(from_addr: &str) -> (r: Option<String>)
    ensures
        match r {
            Some(d) => domain_of(from_addr@) == Some(d@),
            None => domain_of(from_addr@) is None,
        },
        r matches Some(d) ==> host_of(from_addr@) matches Some(h) && is_label_suffix(
            d@,
            ascii_lower(h),
        ),
        host_of(from_addr@) matches Some(h) ==> (r is Some <==> psl_domain(
            encode_utf8(ascii_lower(h)),
        ) is Some),
        host_of(from_addr@) is None ==> r is None,
        r matches Some(d) ==> psl_domain(encode_utf8(ascii_lower(host_of(from_addr@)->0)))
            matches Some(bytes) && d@ == decode_utf8(bytes),
{
    let host = match extract_host(from_addr) {
        Some(h) => h,
        None => {
            return None;
        },
    };
    let host_chars = to_chars(&host);
    let lower = lower_chars(&host_chars);
    let host_lc = from_chars(&lower);
    let found = registrable_suffix(host_lc.as_str().as_bytes());
    proof {
        if found is Some {
            lemma_domain_is_text(lower@, found->0@);
        }
    }
    domain_from_bytes(found)
}

/// Whole labels at the end of the encoding of a host are the encoding of whole
/// labels at the end of the host.
proof fn lemma_domain_is_text(host: Seq<char>, d: Seq<u8>)
    requires
        d.is_suffix_of(encode_utf8(host)),
        d.len() == encode_utf8(host).len() || encode_utf8(host)[encode_utf8(host).len() - d.len()
            - 1] == 0x2E,
    ensures
        valid_utf8(d),
        is_label_suffix(decode_utf8(d), host),
{
    let bytes = encode_utf8(host);
    if d.len() == bytes.len() {
        assert(d == bytes);
        encode_utf8_valid_utf8(host);
        encode_utf8_decode_utf8(host);
    } else {
        let i = bytes.len() - d.len() - 1;
        let j = lemma_dot_byte(host, i);
        assert(d == bytes.skip(i + 1));
        encode_utf8_valid_utf8(host.skip(j + 1));
        encode_utf8_decode_utf8(host.skip(j + 1));
        assert(host[j] == '.');
    }
}

/// The text of the domain that was found. `None` where none was found, and where
/// what was found is no valid UTF-8.
pub fn domain_from_bytes(found: Option<Vec<u8>>) -> (r: Option<String>)
    ensures
        match r {
            Some(d) => found is Some && domain_text(Some(found->0@)) == Some(d@),
            None => found is None || domain_text(Some(found->0@)) is None,
        },
{
    match found {
        Some(d) => string_from_utf8(d),
        None => None,
    }
}

/// Pull the host out of a From value, tolerating a display-name wrapper. Returns
/// `None` if there is no `@` or the host is empty.
pub fn extract_host(from_addr: &str) -> (r: Option<String>)
    ensures
        match r {
            Some(h) => host_of(from_addr@) == Some(h@),
            None => host_of(from_addr@) is None,
        },
{
    let v = to_chars(from_addr);
    let mut i: usize = v.len();
    assert(v@.take(i as int) == v@);
    assert(v@.skip(i as int) == Seq::<char>::empty());
    while i > 0 && v[i - 1] != '@'
        invariant
            i <= v@.len(),
            after_last_at(v@) == (match after_last_at(v@.take(i as int)) {
                Some(t) => Some(t + v@.skip(i as int)),
                None => None,
            }),
        decreases i,
    {
        assert(v@.take(i as int).drop_last() == v@.take(i - 1));
        proof {
            if let Some(t) = after_last_at(v@.take(i - 1)) {
                assert(t.push(v@[i - 1]) + v@.skip(i as int) == t + v@.skip(i - 1));
            }
        }
        i -= 1;
    }
    if i == 0 {
        return None;
    }
    assert(Seq::<char>::empty() + v@.skip(i as int) == v@.skip(i as int));
    let end = position_from(&v, i, '>');
    let inner = slice_subrange(&v, i, end);
    assert(inner@ == v@.skip(i as int).take(end - i));
    let host = trim_chars(inner);
    if host.len() == 0 {
        None
    } else {
        Some(from_chars(host))
    }
}

/// Whole labels at the end of a host in small letters are in small letters.
pub proof fn law_domain_is_lowercase(d: Seq<char>, host: Seq<char>)
    requires
        is_label_suffix(d, ascii_lower(host)),
    ensures
        ascii_lower(d) == d,
{
    let lower = ascii_lower(host);
    assert forall|i: int| 0 <= i < d.len() implies lower_char(#[trigger] d[i]) == d[i] by {
        let k = lower.len() - d.len() + i;
        assert(d[i] == lower[k]);
        assert(lower[k] == lower_char(host[k]));
    }
    assert(ascii_lower(d) == d);
}

proof fn lemma_lower_char(c: char)
    ensures
        is_white(lower_char(c)) == is_white(c),
        (lower_char(c) == '@') == (c == '@'),
        (lower_char(c) == '>') == (c == '>'),
{
}

proof fn lemma_lower_after_last_at(s: Seq<char>)
    ensures
        after_last_at(ascii_lower(s)) == (match after_last_at(s) {
            Some(t) => Some(ascii_lower(t)),
            None => None,
        }),
    decreases s.len(),
{
    let low = ascii_lower(s);
    if s.len() > 0 {
        lemma_lower_char(s.last());
        assert(low.last() == lower_char(s.last()));
        assert(low.drop_last() == ascii_lower(s.drop_last()));
        lemma_lower_after_last_at(s.drop_last());
        if s.last() == '@' {
            assert(ascii_lower(Seq::<char>::empty()) == Seq::<char>::empty());
        } else if after_last_at(s.drop_last()) is Some {
            let t = after_last_at(s.drop_last())->0;
            assert(ascii_lower(t).push(lower_char(s.last())) == ascii_lower(t.push(s.last())));
        }
    }
}

proof fn lemma_lower_position(s: Seq<char>)
    ensures
        position(ascii_lower(s), '>') == position(s, '>'),
    decreases s.len(),
{
    if s.len() > 0 {
        lemma_lower_char(s[0]);
        assert(ascii_lower(s)[0] == lower_char(s[0]));
        assert(ascii_lower(s).drop_first() == ascii_lower(s.drop_first()));
        lemma_lower_position(s.drop_first());
    }
}

proof fn lemma_lower_trim_start(s: Seq<char>)
    ensures
        trim_start(ascii_lower(s)) == ascii_lower(trim_start(s)),
    decreases s.len(),
{
    if s.len() > 0 {
        lemma_lower_char(s[0]);
        assert(ascii_lower(s)[0] == lower_char(s[0]));
        assert(ascii_lower(s).drop_first() == ascii_lower(s.drop_first()));
        lemma_lower_trim_start(s.drop_first());
    }
}

proof fn lemma_lower_trim_end(s: Seq<char>)
    ensures
        trim_end(ascii_lower(s)) == ascii_lower(trim_end(s)),
    decreases s.len(),
{
    if s.len() > 0 {
        lemma_lower_char(s.last());
        assert(ascii_lower(s).last() == lower_char(s.last()));
        assert(ascii_lower(s).drop_last() == ascii_lower(s.drop_last()));
        lemma_lower_trim_end(s.drop_last());
    }
}

proof fn lemma_lower_host(from_addr: Seq<char>)
    ensures
        host_of(ascii_lower(from_addr)) == (match host_of(from_addr) {
            Some(h) => Some(ascii_lower(h)),
            None => None,
        }),
{
    lemma_lower_after_last_at(from_addr);
    if after_last_at(from_addr) is Some {
        let rest = after_last_at(from_addr)->0;
        lemma_lower_position(rest);
        lemma_position(rest, '>');
        let cut = rest.take(position(rest, '>') as int);
        assert(ascii_lower(rest).take(position(rest, '>') as int) == ascii_lower(cut));
        lemma_lower_trim_start(cut);
        lemma_lower_trim_end(trim_start(cut));
    }
}

/// The case of a From value makes no difference to its registrable domain.
pub proof fn law_domain_ignores_case(a: Seq<char>, b: Seq<char>)
    requires
        ascii_lower(a) == ascii_lower(b),
    ensures
        domain_of(a) == domain_of(b),
{
    lemma_lower_host(a);
    lemma_lower_host(b);
}

proof fn lemma_after_last_at(pre: Seq<char>, x: Seq<char>)
    requires
        forall|i: int| 0 <= i < x.len() ==> #[trigger] x[i] != '@',
    ensures
        after_last_at(pre + seq!['@'] + x) == Some(x),
    decreases x.len(),
{
    let s = pre + seq!['@'] + x;
    if x.len() == 0 {
        assert(s.last() == '@');
        assert(x == Seq::<char>::empty());
    } else {
        let y = x.drop_last();
        assert(s.last() == x[x.len() - 1]);
        assert(s.drop_last() == pre + seq!['@'] + y);
        assert forall|i: int| 0 <= i < y.len() implies #[trigger] y[i] != '@' by {
            assert(y[i] == x[i]);
        }
        lemma_after_last_at(pre, y);
        assert(y.push(x.last()) == x);
    }
}

proof fn lemma_no_at(s: Seq<char>)
    requires
        forall|i: int| 0 <= i < s.len() ==> #[trigger] s[i] != '@',
    ensures
        after_last_at(s) is None,
    decreases s.len(),
{
    if s.len() > 0 {
        let t = s.drop_last();
        assert(s.last() == s[s.len() - 1]);
        assert forall|i: int| 0 <= i < t.len() implies #[trigger] t[i] != '@' by {
            assert(t[i] == s[i]);
        }
        lemma_no_at(t);
    }
}

/// The host is all of what stands behind the last `@`, up to a closing `>`, but for
/// whitespace around it, whatever stands in front of the `@` and behind the `>`.
pub proof fn law_host(
    front: Seq<char>,
    l: Seq<char>,
    host: Seq<char>,
    r: Seq<char>,
    tail: Seq<char>,
)
    requires
        forall|i: int| 0 <= i < l.len() ==> is_white(#[trigger] l[i]),
        forall|i: int| 0 <= i < r.len() ==> is_white(#[trigger] r[i]),
        forall|i: int| 0 <= i < host.len() ==> #[trigger] host[i] != '@' && host[i] != '>',
        host.len() > 0 ==> !is_white(host[0]) && !is_white(host.last()),
        tail.len() > 0 ==> tail[0] == '>',
        forall|i: int| 0 <= i < tail.len() ==> #[trigger] tail[i] != '@',
    ensures
        host.len() > 0 ==> host_of(front + seq!['@'] + l + host + r + tail) == Some(host),
        host.len() == 0 ==> host_of(front + seq!['@'] + l + host + r + tail) is None,
{
    let inner = l + host + r;
    let rest = inner + tail;
    let s = front + seq!['@'] + l + host + r + tail;
    assert(s =~= front + seq!['@'] + rest);
    assert forall|i: int| 0 <= i < inner.len() implies #[trigger] inner[i] != '@' && inner[i]
        != '>' by {
        if i < l.len() {
            assert(inner[i] == l[i]);
        } else if i < l.len() + host.len() {
            assert(inner[i] == host[i - l.len()]);
        } else {
            assert(inner[i] == r[i - l.len() - host.len()]);
        }
    }
    assert forall|i: int| 0 <= i < rest.len() implies #[trigger] rest[i] != '@' by {
        if i < inner.len() {
            assert(rest[i] == inner[i]);
        } else {
            assert(rest[i] == tail[i - inner.len()]);
        }
    }
    lemma_after_last_at(front, rest);
    if tail.len() > 0 {
        law_position(inner, '>', tail.skip(1));
        assert(rest == inner + seq!['>'] + tail.skip(1));
    } else {
        law_position(inner, '>', tail);
        assert(rest == inner);
    }
    assert(rest.take(inner.len() as int) == inner);
    law_trim(l, host, r);
}

/// A From value without an `@` has no host, and so no registrable domain.
pub proof fn law_no_host_without_an_at(from_addr: Seq<char>)
    requires
        forall|i: int| 0 <= i < from_addr.len() ==> #[trigger] from_addr[i] != '@',
    ensures
        host_of(from_addr) is None,
        domain_of(from_addr) is None,
{
    lemma_no_at(from_addr);
}

/// The registrable domain goes by the host alone: it is what the Public Suffix List has
/// for the whole host in small letters, where that is text.
pub proof fn law_domain_goes_by_the_host(a: Seq<char>, b: Seq<char>)
    requires
        host_of(a) is Some,
        host_of(b) is Some,
        ascii_lower(host_of(a)->0) == ascii_lower(host_of(b)->0),
    ensures
        domain_of(a) == domain_of(b),
        psl_domain(encode_utf8(ascii_lower(host_of(a)->0))) is None ==> domain_of(a) is None,
        psl_domain(encode_utf8(ascii_lower(host_of(a)->0))) matches Some(d) ==> valid_utf8(d)
            ==> domain_of(a) == Some(decode_utf8(d)),
{
}

/// A domain that was found is taken as the text that its bytes encode, all of it, if they
/// encode one.
pub proof fn law_domain_text(found: Seq<u8>)
    ensures
        domain_text(None) is None,
        valid_utf8(found) ==> domain_text(Some(found)) == Some(decode_utf8(found)),
        !valid_utf8(found) ==> domain_text(Some(found)) is None,
{
}

} // verus!
