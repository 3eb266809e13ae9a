//! Who a message is from, as far as the history knows senders: by registrable
//! domain and by exact address.

use vstd::prelude::*;
use vstd::slice::slice_subrange;

use crate::domain::{domain_of, registrable_domain};
use crate::email::RawEmail;
use crate::string_laws::{law_position, law_trim};
use crate::strings::{from_chars, is_white, position, position_from, to_chars, trim, trim_chars};

verus! {

/// The part of `s` behind its last `<`; all of it where it holds none.
pub open spec fn after_last_open(s: Seq<char>) -> Seq<char>
    decreases s.len(),
{
    if s.len() == 0 || s.last() == '<' {
        Seq::empty()
    } else {
        after_last_open(s.drop_last()).push(s.last())
    }
}

/// The address in a From value: what stands between the angle brackets of the
/// display-name form, else the whole value, without surrounding whitespace.
/// `None` where nothing is left.
pub open spec fn address_of(from_addr: Seq<char>) -> Option<Seq<char>> {
    let rest = after_last_open(from_addr);
    let address = trim(rest.take(position(rest, '>') as int));
    if address.len() == 0 {
        None
    } else {
        Some(address)
    }
}

/// Extract the exact address from a From value, without a display name.
pub fn extract_address(from_addr: &str) -> (r: Option<String>)
    ensures
        match r {
            Some(a) => address_of(from_addr@) == Some(a@),
            None => address_of(from_addr@) is None,
        },
{
    let v = to_chars(from_addr);
    let mut i: usize = v.len();
    assert(v@.take(i as int) == v@);
    assert(v@.skip(i as int) == Seq::<char>::empty());
    while i > 0 && v[i - 1] != '<'
        invariant
            i <= v@.len(),
            after_last_open(v@) == after_last_open(v@.take(i as int)) + v@.skip(i as int),
        decreases i,
    {
        assert(v@.take(i as int).drop_last() == v@.take(i - 1));
        assert(after_last_open(v@.take(i - 1)).push(v@[i - 1]) + v@.skip(i as int)
            == after_last_open(v@.take(i - 1)) + v@.skip(i - 1));
        i -= 1;
    }
    assert(after_last_open(v@) == v@.skip(i as int));
    let end = position_from(&v, i, '>');
    let inner = slice_subrange(&v, i, end);
    assert(inner@ == v@.skip(i as int).take(end - i));
    let address = trim_chars(inner);
    if address.len() == 0 {
        None
    } else {
        Some(from_chars(address))
    }
}

/// The domain and the address that a message's sender is known by. A sender
/// without one has no history under it.
pub fn sender_keys(email: &RawEmail) -> (r: (Option<String>, Option<String>))
    ensures
        match r.0 {
            Some(d) => domain_of(email.from@) == Some(d@),
            None => domain_of(email.from@) is None,
        },
        match r.1 {
            Some(a) => address_of(email.from@) == Some(a@),
            None => address_of(email.from@) is None,
        },
{
    (registrable_domain(&email.from), extract_address(&email.from))
}

proof fn lemma_after_last_open(x: Seq<char>, front: Seq<char>)
    requires
        forall|i: int| 0 <= i < x.len() ==> #[trigger] x[i] != '<',
    ensures
        after_last_open(x) == x,
        after_last_open(front + seq!['<'] + x) == x,
    decreases x.len(),
{
    let s = front + seq!['<'] + x;
    if x.len() == 0 {
        assert(s.last() == '<');
        assert(x == Seq::<char>::empty());
    } else {
        let y = x.drop_last();
        assert(x.last() == x[x.len() - 1]);
        assert(s.last() == x.last());
        assert(s.drop_last() == front + seq!['<'] + y);
        assert forall|i: int| 0 <= i < y.len() implies #[trigger] y[i] != '<' by {
            assert(y[i] == x[i]);
        }
        lemma_after_last_open(y, front);
        assert(y.push(x.last()) == x);
    }
}

/// The address is all of what stands between the last `<` and the next `>`, but for
/// whitespace around it, whatever the display name is; without a `<` it is all of the
/// value up to a `>`. Where nothing stands there, there is no address.
pub proof fn law_address(
    name: Seq<char>,
    l: Seq<char>,
    address: Seq<char>,
    r: Seq<char>,
    tail: Seq<char>,
)
    requires
        forall|i: int| 0 <= i < l.len() ==> is_white(#[trigger] l[i]),
        forall|i: int| 0 <= i < r.len() ==> is_white(#[trigger] r[i]),
        forall|i: int| 0 <= i < address.len() ==> #[trigger] address[i] != '<' && address[i] != '>',
        address.len() > 0 ==> !is_white(address[0]) && !is_white(address.last()),
        tail.len() > 0 ==> tail[0] == '>',
        forall|i: int| 0 <= i < tail.len() ==> #[trigger] tail[i] != '<',
    ensures
        address.len() > 0 ==> address_of(name + seq!['<'] + l + address + r + tail) == Some(address),
        address.len() > 0 ==> address_of(l + address + r + tail) == Some(address),
        address.len() == 0 ==> address_of(name + seq!['<'] + l + address + r + tail) is None,
        address.len() == 0 ==> address_of(l + address + r + tail) is None,
{
    let inner = l + address + r;
    let rest = inner + tail;
    assert(name + seq!['<'] + l + address + r + tail =~= name + seq!['<'] + rest);
    assert forall|i: int| 0 <= i < inner.len() implies #[trigger] inner[i] != '<' && inner[i]
        != '>' by {
        if i < l.len() {
            assert(inner[i] == l[i]);
        } else if i < l.len() + address.len() {
            assert(inner[i] == address[i - l.len()]);
        } else {
            assert(inner[i] == r[i - l.len() - address.len()]);
        }
    }
    assert forall|i: int| 0 <= i < rest.len() implies #[trigger] rest[i] != '<' by {
        if i < inner.len() {
            assert(rest[i] == inner[i]);
        } else {
            assert(rest[i] == tail[i - inner.len()]);
        }
    }
    lemma_after_last_open(rest, name);
    if tail.len() > 0 {
        law_position(inner, '>', tail.skip(1));
        assert(rest == inner + seq!['>'] + tail.skip(1));
    } else {
        law_position(inner, '>', tail);
        assert(rest == inner);
    }
    assert(rest.take(inner.len() as int) == inner);
    law_trim(l, address, r);
}

} // verus!
