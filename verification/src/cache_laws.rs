//! What the cache does step by step, said field by field and byte by byte.

use std::collections::hash_map::DefaultHasher;

use vstd::prelude::*;
use vstd::std_specs::hash::DefaultHasherAdditionalSpecFns;

use crate::cache::{
    are_entries, bytes_view, decoded, disabled_note, encoded, file_name,
    law_wrong_width_is_no_vector, lemma_encoded, lemma_word_of, opened_note, text_key,
    text_or_empty, text_writes, word_bytes, word_of, CacheView, CachingEmbedder,
};
use crate::embed::{
    encoded_char, lemma_sanitized_front, sanitized, width_error, Embedder, EMBEDDING_MODEL_ID,
};
use crate::features::EMBED_DIM;
use crate::numbers::decimal;

verus! {

/// The key of a text is the default hasher's value for the writes of the whole text:
/// texts have one key exactly if the hasher takes their whole writes for one.
pub proof fn law_key_of_the_whole_text(a: Seq<char>, b: Seq<char>)
    ensures
        text_key(a) == DefaultHasher::spec_finish(text_writes(a)),
        text_key(a) == text_key(b) <==> DefaultHasher::spec_finish(text_writes(a))
            == DefaultHasher::spec_finish(text_writes(b)),
{
}

/// A vector is stored number by number, each in four bytes that make it up in powers of
/// two hundred and fifty-six, the lowest first.
pub proof fn law_bytes_of_a_vector(v: Seq<u32>, i: int)
    requires
        0 <= i < v.len(),
    ensures
        encoded(v).len() == 4 * v.len(),
        v[i] == encoded(v)[4 * i] + 256 * encoded(v)[4 * i + 1] + 65536 * encoded(v)[4 * i + 2]
            + 16777216 * encoded(v)[4 * i + 3],
{
    lemma_encoded(v);
    let b = encoded(v).subrange(4 * i, 4 * i + 4);
    assert(word_bytes(v[i]) == b);
    assert(b[0] == encoded(v)[4 * i] && b[1] == encoded(v)[4 * i + 1] && b[2] == encoded(v)[4 * i
        + 2] && b[3] == encoded(v)[4 * i + 3]);
    lemma_word_of(v[i]);
    assert(word_of(b) == v[i]);
}

/// Bytes are a vector exactly if they are four for each of its three hundred and
/// eighty-four numbers, and then the vector is stored as these bytes.
pub proof fn law_vector_of_bytes(bytes: Seq<u8>)
    ensures
        decoded(bytes) is Some <==> bytes.len() == 1536,
        decoded(bytes) matches Some(v) ==> v.len() == 384 && encoded(v) == bytes,
{
    law_wrong_width_is_no_vector(bytes);
}

/// A text is served the vector that is buffered for its key; else the stored one, if it
/// has the width of a vector; else none. Without a store none is served. Nothing else
/// plays a part, however much was served before.
pub proof fn law_what_is_served(c: CacheView, key: u64, stored: Option<Seq<u8>>)
    ensures
        !c.enabled ==> c.found(key, stored) is None,
        c.enabled && c.pending.contains_key(key) ==> c.found(key, stored) == Some(c.pending[key]),
        c.enabled && !c.pending.contains_key(key) && stored is None ==> c.found(key, stored) is None,
        c.enabled && !c.pending.contains_key(key) && stored is Some ==> c.found(key, stored)
            == decoded(stored->0),
{
}

/// A hit is counted, and changes nothing else.
pub proof fn law_hit(c: CacheView)
    ensures
        c.hits < usize::MAX ==> c.after_hit().hits == c.hits + 1,
        c.hits == usize::MAX ==> c.after_hit().hits == 0,
        c.after_hit().misses == c.misses,
        c.after_hit().enabled == c.enabled,
        c.after_hit().pending == c.pending,
{
}

/// A miss is counted and its vector buffered, whatever is buffered already; without a
/// store it changes nothing.
pub proof fn law_miss(c: CacheView, key: u64, vector: Seq<u32>)
    ensures
        !c.enabled ==> c.after_miss(key, vector) == c,
        c.enabled && c.misses < usize::MAX ==> c.after_miss(key, vector).misses == c.misses + 1,
        c.enabled && c.misses == usize::MAX ==> c.after_miss(key, vector).misses == 0,
        c.enabled ==> c.after_miss(key, vector).hits == c.hits,
        c.enabled ==> c.after_miss(key, vector).enabled,
        c.enabled ==> c.after_miss(key, vector).pending == c.pending.insert(key, vector),
{
}

/// Flushing empties the buffer, and changes nothing else. A cache begins enabled, with
/// nothing counted and nothing buffered.
pub proof fn law_flush(c: CacheView)
    ensures
        c.enabled ==> c.after_flush().pending == Map::<u64, Seq<u32>>::empty(),
        c.after_flush().enabled == c.enabled,
        c.after_flush().hits == c.hits,
        c.after_flush().misses == c.misses,
        CacheView::opened().enabled,
        CacheView::opened().hits == 0,
        CacheView::opened().misses == 0,
        CacheView::opened().pending == Map::<u64, Seq<u32>>::empty(),
{
}

/// Every buffered vector is written, under its key and once, and nothing else is.
pub proof fn law_entries(entries: Seq<(u64, Vec<u8>)>, pending: Map<u64, Seq<u32>>, k: u64)
    requires
        are_entries(entries, pending),
    ensures
        pending.contains_key(k) <==> exists|i: int|
            0 <= i < entries.len() && (#[trigger] entries[i]).0 == k,
        forall|i: int|
            0 <= i < entries.len() && (#[trigger] entries[i]).0 == k ==> entries[i].1@ == encoded(
                pending[k],
            ),
        forall|i: int, j: int|
            0 <= i < entries.len() && 0 <= j < entries.len() && (#[trigger] entries[i]).0 == (
            #[trigger] entries[j]).0 ==> i == j,
{
    if pending.contains_key(k) {
        let i = choose|i: int| 0 <= i < entries.len() && (#[trigger] entries[i]).0 == k;
        assert(entries[i].0 == k);
    }
}

/// What is known of a caching embedder is what it holds.
pub proof fn law_view_of_a_cache<E: Embedder>(c: CachingEmbedder<E>, key: u64)
    ensures
        c@.enabled == c.enabled,
        c@.hits == c.hits,
        c@.misses == c.misses,
        c@.pending.contains_key(key) <==> c.pending@.contains_key(key),
        c.pending@.contains_key(key) ==> c@.pending[key] == c.pending@[key]@,
{
}

/// What was read from a store is taken as it is.
pub proof fn law_view_of_stored(b: Option<&[u8]>)
    ensures
        b is Some <==> bytes_view(b) is Some,
        b matches Some(s) ==> bytes_view(b) == Some(s@),
{
}

/// The notes on a store name what was tried, the whole place and the whole reason, or the
/// file and the number of its entries.
pub proof fn law_store_notes(
    what: Seq<char>,
    place: Seq<char>,
    error: Seq<char>,
    entries: nat,
    parent: Option<String>,
)
    ensures
        disabled_note(what, place, error) == "warning: failed to "@ + what + " "@ + place + ": "@
            + error + "; caching disabled"@,
        opened_note(place, entries) == "opened cache/"@ + place + " ("@ + decimal(entries)
            + " entries)"@,
        parent matches Some(p) ==> text_or_empty(parent) == p@,
        parent is None ==> text_or_empty(parent).len() == 0,
{
}

/// The store file of a model has the whole sanitized id in its name.
pub proof fn law_store_file_name(model_id: Seq<char>)
    ensures
        file_name(model_id) == "embeddings-"@ + sanitized(model_id) + ".redb"@,
{
}

/// An id is sanitized character by character, in order.
pub proof fn law_sanitizing_goes_by_characters(c: char, rest: Seq<char>)
    ensures
        sanitized(Seq::empty()).len() == 0,
        sanitized(seq![c] + rest) == sanitized(seq![c]) + sanitized(rest),
{
    let s = seq![c] + rest;
    let e = Seq::<char>::empty();
    lemma_sanitized_front(s);
    lemma_sanitized_front(seq![c]);
    assert(s.drop_first() == rest);
    assert(seq![c].drop_first() == e);
    assert(sanitized(e) == e);
    assert(encoded_char(c) + e == encoded_char(c));
}

/// The ten characters that may not stand in a file name, or mark a code, become a percent
/// sign and the two capital hexadecimal digits of their code; every other character
/// stands for itself.
pub proof fn law_sanitized_character(c: char)
    ensures
        ({
            let hostile = c == '/' || c == '\\' || c == ':' || c == '*' || c == '?' || c == '"' || c
                == '<' || c == '>' || c == '|' || c == '%';
            let code = c as u32 as int;
            &&& !hostile ==> sanitized(seq![c]) == seq![c]
            &&& hostile ==> sanitized(seq![c]) == seq![
                '%',
                "0123456789ABCDEF"@[code / 16],
                "0123456789ABCDEF"@[code % 16],
            ]
        }),
{
    reveal_strlit("0123456789ABCDEF");
    let e = Seq::<char>::empty();
    lemma_sanitized_front(seq![c]);
    assert(seq![c].drop_first() == e);
    assert(sanitized(e) == e);
    assert(encoded_char(c) + e == encoded_char(c));
}

/// The embedding model that everything is keyed on.
pub proof fn law_embedding_model()
    ensures
        EMBEDDING_MODEL_ID@ == "all-MiniLM-L6-v2"@,
{
}

/// The complaint on the width of a vector names the width and the one that was expected.
pub proof fn law_width_error(n: nat)
    ensures
        EMBED_DIM == 384,
        width_error(n) == "embedder returned "@ + decimal(n) + " dims, expected "@ + decimal(384),
{
}

} // verus!
