//! The embedding seam: a text becomes one vector of [`EMBED_DIM`] numbers.
//!
//! The numbers are 32-bit floating-point numbers, and are held here by their bit
//! patterns: nothing computes with them. An embedding failure aborts: a garbage
//! vector would be silently misclassified, which is worse than stopping, so that
//! no function here puts a default vector in the place of an error.

use vstd::prelude::*;

use crate::features::EMBED_DIM;
use crate::numbers::{decimal, decimal_string};

verus! {

/// The embedding model the whole pipeline is keyed on. It is written into every
/// stored model and checked when one is loaded.
pub const EMBEDDING_MODEL_ID: &'static str = "all-MiniLM-L6-v2";

/// A swappable text embedder: one vector per text.
pub trait Embedder {
    /// The id of the model this embedder produces vectors for.
    fn model_id(&self) -> &str;

    /// Whether this embedder may be asked for the vector of `text`. Running the
    /// model is the slow part, so that who is given an embedder to use is told
    /// here which texts may be run through it. An embedder that says nothing may be
    /// asked for every text.
    open spec fn may_ask(&self, text: Seq<char>) -> bool {
        true
    }

    /// Embed one text into a vector of [`EMBED_DIM`] bit patterns, or say why the
    /// model failed.
    fn embed(&self, text: &str) -> Result<Vec<u32>, String>
        requires
            self.may_ask(text@),
    ;
}

/// The words for an embedder that returned `n` numbers.
pub open spec fn width_error(n: nat) -> Seq<char> {
    "embedder returned "@ + decimal(n) + " dims, expected "@ + decimal(EMBED_DIM as nat)
}

/// The one vector that a backend returned for one text. It is an error if there
/// is none, and if it is not [`EMBED_DIM`] long.
pub fn single_vector(out: Vec<Vec<u32>>) -> (r: Result<Vec<u32>, String>)
    ensures
        match r {
            Ok(v) => out@.len() > 0 && v@ == out@.last()@ && v@.len() == EMBED_DIM,
            Err(e) => if out@.len() == 0 {
                e@ == "embedder returned no vector for one input"@
            } else {
                out@.last()@.len() != EMBED_DIM && e@ == width_error(out@.last()@.len())
            },
        },
{
    let mut out = out;
    match out.pop() {
        None => Err("embedder returned no vector for one input".to_owned()),
        Some(vector) => {
            if vector.len() != EMBED_DIM {
                let mut message = "embedder returned ".to_owned();
                message.append(&decimal_string(vector.len() as u64));
                message.append(" dims, expected ");
                message.append(&decimal_string(EMBED_DIM as u64));
                Err(message)
            } else {
                Ok(vector)
            }
        },
    }
}

/// Whether `c` may not stand in a file name, or marks an encoded character.
pub open spec fn is_hostile(c: char) -> bool {
    ||| c == '/'
    ||| c == '\\'
    ||| c == ':'
    ||| c == '*'
    ||| c == '?'
    ||| c == '"'
    ||| c == '<'
    ||| c == '>'
    ||| c == '|'
    ||| c == '%'
}

/// The capital hexadecimal digit of `d`, which is below sixteen.
pub open spec fn hex_digit(d: int) -> char {
    if d < 10 {
        ('0' as u32 + d) as char
    } else {
        ('A' as u32 + d - 10) as char
    }
}

/// What `c` becomes in a file name: itself, or a percent sign and the two
/// hexadecimal digits of its code.
pub open spec fn encoded_char(c: char) -> Seq<char> {
    if is_hostile(c) {
        seq!['%', hex_digit(c as u32 as int / 16), hex_digit(c as u32 as int % 16)]
    } else {
        seq![c]
    }
}

/// What a model id becomes in a file name: each character encoded, in order.
pub open spec fn sanitized(id: Seq<char>) -> Seq<char>
    decreases id.len(),
{
    if id.len() == 0 {
        Seq::empty()
    } else {
        sanitized(id.drop_last()) + encoded_char(id.last())
    }
}

fn hex_char(d: u8) -> (r: char)
    requires
        d < 16,
    ensures
        r == hex_digit(d as int),
{
    if d < 10 {
        (48 + d) as char
    } else {
        (55 + d) as char
    }
}

/// Make a model id fit for a file name: the characters that may not stand in one
/// are percent-encoded, and so is the percent sign itself, so that different ids
/// never share a name.
pub fn sanitize_model_id(id: &str) -> (r: String)
    ensures
        r@ == sanitized(id@),
{
    let mut out = String::new();
    for c in it: id.chars()
        invariant
            it.seq() == id@,
            out@ == sanitized(id@.take(it.index() as int)),
    {
        let ghost upto = id@.take(it.index() + 1);
        assert(upto.drop_last() == id@.take(it.index() as int));
        assert(upto.last() == c);
        match c {
            '/' | '\\' | ':' | '*' | '?' | '"' | '<' | '>' | '|' | '%' => {
                let code: u8 = c as u8;
                out.push('%');
                out.push(hex_char(code / 16));
                out.push(hex_char(code % 16));
            },
            _ => {
                out.push(c);
            },
        }
        assert(out@ == sanitized(upto));
    }
    assert(id@.take(id@.len() as int) == id@);
    out
}

/// The encoding of a text is that of its first character, then that of the rest.
pub(crate) proof fn lemma_sanitized_front(id: Seq<char>)
    requires
        id.len() > 0,
    ensures
        sanitized(id) == encoded_char(id[0]) + sanitized(id.drop_first()),
    decreases id.len(),
{
    let rest = id.drop_first();
    if id.len() == 1 {
        assert(id.drop_last() == Seq::<char>::empty());
        assert(rest == Seq::<char>::empty());
        assert(sanitized(id.drop_last()) == Seq::<char>::empty());
    } else {
        lemma_sanitized_front(id.drop_last());
        assert(id.drop_last().drop_first() == rest.drop_last());
        assert(sanitized(id) == encoded_char(id[0]) + sanitized(rest));
    }
}

/// The two digits tell the encoded characters apart.
proof fn lemma_codes_differ(c: char, d: char)
    requires
        is_hostile(c),
        is_hostile(d),
        encoded_char(c) == encoded_char(d),
    ensures
        c == d,
{
    assert(encoded_char(c)[1] == encoded_char(d)[1]);
    assert(encoded_char(c)[2] == encoded_char(d)[2]);
}

/// Different model ids never share a sanitized name.
pub proof fn law_sanitizer_is_injective(a: Seq<char>, b: Seq<char>)
    requires
        sanitized(a) == sanitized(b),
    ensures
        a == b,
    decreases a.len(),
{
    if a.len() > 0 {
        lemma_sanitized_front(a);
    }
    if b.len() > 0 {
        lemma_sanitized_front(b);
    }
    if a.len() > 0 && b.len() > 0 {
        let s = sanitized(a);
        assert(s[0] == encoded_char(a[0])[0]);
        assert(s[0] == encoded_char(b[0])[0]);
        let n = encoded_char(a[0]).len() as int;
        assert(n == encoded_char(b[0]).len());
        assert(encoded_char(a[0]) == s.take(n));
        assert(encoded_char(b[0]) == s.take(n));
        if is_hostile(a[0]) {
            lemma_codes_differ(a[0], b[0]);
        }
        assert(sanitized(a.drop_first()) == s.skip(n));
        assert(sanitized(b.drop_first()) == s.skip(n));
        law_sanitizer_is_injective(a.drop_first(), b.drop_first());
        assert(a == seq![a[0]] + a.drop_first());
        assert(b == seq![b[0]] + b.drop_first());
    } else {
        assert(a == b);
    }
}

/// A sanitized name holds no character that may not stand in a file name: of the
/// hostile ones only the percent sign is left, which marks an encoded character.
pub proof fn law_sanitized_is_a_file_name(id: Seq<char>)
    ensures
        forall|i: int| 0 <= i < sanitized(id).len() && is_hostile(#[trigger] sanitized(id)[i])
            ==> sanitized(id)[i] == '%',
    decreases id.len(),
{
    if id.len() > 0 {
        let front = sanitized(id.drop_last());
        let code = encoded_char(id.last());
        law_sanitized_is_a_file_name(id.drop_last());
        assert forall|i: int| 0 <= i < sanitized(id).len() && is_hostile(
            #[trigger] sanitized(id)[i],
        ) implies sanitized(id)[i] == '%' by {
            if i < front.len() {
                assert(sanitized(id)[i] == front[i]);
            } else {
                assert(sanitized(id)[i] == code[i - front.len()]);
            }
        }
    }
}

/// An id without hostile characters stands for itself.
pub proof fn law_clean_id_is_unchanged(id: Seq<char>)
    requires
        forall|i: int| 0 <= i < id.len() ==> !is_hostile(#[trigger] id[i]),
    ensures
        sanitized(id) == id,
    decreases id.len(),
{
    if id.len() > 0 {
        let t = id.drop_last();
        assert forall|i: int| 0 <= i < t.len() implies !is_hostile(#[trigger] t[i]) by {
            assert(t[i] == id[i]);
        }
        law_clean_id_is_unchanged(t);
        assert(!is_hostile(id[id.len() - 1]));
        assert(t.push(id.last()) == id);
    } else {
        assert(sanitized(id) == id);
    }
}

} // verus!
