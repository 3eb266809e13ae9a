//! The embedding cache: a decorator that puts a persistent key-value store in
//! front of an [`Embedder`].
//!
//! - A key is the hash of the embedded text, so that an entry dies with any change
//!   to how texts are prepared. A value is the vector as little-endian bytes; one
//!   of the wrong width is a miss, never a garbage vector.
//! - The store has one file per embedding model, so that vectors of different
//!   models never meet.
//! - The cache is a speed optimization. If its store cannot be opened the
//!   embedder is used without it; no cache failure aborts a run.
//! - New vectors are buffered and written in one transaction per run.
//!
//! The store itself is the caller's business: the functions here say what to read
//! from it and what to write to it, and take what was read.

use std::collections::hash_map::DefaultHasher;
use std::collections::HashMap;
use std::hash::{Hash, Hasher};

use vstd::prelude::*;
use vstd::std_specs::hash::DefaultHasherAdditionalSpecFns;

use crate::embed::{
    is_hostile, law_sanitized_is_a_file_name, law_sanitizer_is_injective, sanitize_model_id,
    sanitized, Embedder,
};
use crate::features::EMBED_DIM;
use crate::numbers::{decimal, decimal_string};

verus! {

/// The name of the store file for the vectors of a model.
pub open spec fn file_name(model_id: Seq<char>) -> Seq<char> {
    "embeddings-"@ + sanitized(model_id) + ".redb"@
}

/// The name of the store file for the vectors of the model `model_id`.
pub fn cache_file_name(model_id: &str) -> (r: String)
    ensures
        r@ == file_name(model_id@),
{
    let mut name = "embeddings-".to_owned();
    name.append(&sanitize_model_id(model_id));
    name.append(".redb");
    name
}

/// What hashing a text feeds to a hasher.
pub uninterp spec fn text_writes(text: Seq<char>) -> Seq<Seq<u8>>;

/// `<str as Hash>::hash`: feeds the text to the hasher. How the text is cut into
/// writes is left unsaid; it depends on the text alone.
#[verifier::external_body]
fn hash_into(text: &str, hasher: &mut DefaultHasher)
    ensures
        final(hasher)@ == old(hasher)@ + text_writes(text@),
{
    text.hash(hasher)
}

/// The key of a text: the hash that the standard library's default hasher gives.
pub open spec fn text_key(text: Seq<char>) -> u64 {
    DefaultHasher::spec_finish(text_writes(text))
}

/// The key of a text.
pub fn hash_text(text: &str) -> (r: u64)
    ensures
        r == text_key(text@),
        r == DefaultHasher::spec_finish(text_writes(text@)),
{
    let mut hasher = DefaultHasher::new();
    hash_into(text, &mut hasher);
    assert(hasher@ == text_writes(text@));
    hasher.finish()
}

/// The four bytes of a number, the lowest first.
pub open spec fn word_bytes(w: u32) -> Seq<u8> {
    seq![
        (w % 256) as u8,
        (w / 256 % 256) as u8,
        (w / 65536 % 256) as u8,
        (w / 16777216) as u8,
    ]
}

/// The number with these four bytes, the lowest first.
pub open spec fn word_of(b: Seq<u8>) -> u32 {
    (b[0] + 256 * b[1] + 65536 * b[2] + 16777216 * b[3]) as u32
}

/// The bytes of a vector: those of its numbers, in order.
pub open spec fn encoded(v: Seq<u32>) -> Seq<u8>
    decreases v.len(),
{
    if v.len() == 0 {
        Seq::empty()
    } else {
        encoded(v.drop_last()) + word_bytes(v.last())
    }
}

/// The vector with these bytes; `None` where they are not as many as
/// [`EMBED_DIM`] numbers have.
pub open spec fn decoded(bytes: Seq<u8>) -> Option<Seq<u32>> {
    if bytes.len() == EMBED_DIM * 4 {
        Some(Seq::new(EMBED_DIM as nat, |i: int| word_of(bytes.subrange(4 * i, 4 * i + 4))))
    } else {
        None
    }
}

/// The bytes of a vector.
pub fn encode_vector(v: &[u32]) -> (r: Vec<u8>)
    ensures
        r@ == encoded(v@),
{
    let mut bytes: Vec<u8> = Vec::new();
    let mut i: usize = 0;
    while i < v.len()
        invariant
            i <= v@.len(),
            bytes@ == encoded(v@.take(i as int)),
        decreases v@.len() - i,
    {
        let w: u32 = v[i];
        bytes.push((w % 256) as u8);
        bytes.push((w / 256 % 256) as u8);
        bytes.push((w / 65536 % 256) as u8);
        bytes.push((w / 16777216) as u8);
        assert(v@.take(i + 1).drop_last() == v@.take(i as int));
        assert(bytes@ == encoded(v@.take(i + 1)));
        i += 1;
    }
    assert(v@.take(i as int) == v@);
    bytes
}

/// The vector with these bytes. A value of the wrong width is no vector.
pub fn decode_vector(bytes: &[u8]) -> (r: Option<Vec<u32>>)
    ensures
        match r {
            Some(v) => decoded(bytes@) == Some(v@),
            None => decoded(bytes@) is None,
        },
{
    if bytes.len() != EMBED_DIM * 4 {
        return None;
    }
    let mut v: Vec<u32> = Vec::with_capacity(EMBED_DIM);
    let mut i: usize = 0;
    while i < EMBED_DIM
        invariant
            i <= EMBED_DIM,
            bytes@.len() == EMBED_DIM * 4,
            decoded(bytes@) is Some,
            v@ == decoded(bytes@)->0.take(i as int),
        decreases EMBED_DIM - i,
    {
        let b0: u32 = bytes[4 * i] as u32;
        let b1: u32 = bytes[4 * i + 1] as u32;
        let b2: u32 = bytes[4 * i + 2] as u32;
        let b3: u32 = bytes[4 * i + 3] as u32;
        v.push(b0 + 256 * b1 + 65536 * b2 + 16777216 * b3);
        i += 1;
    }
    Some(v)
}

/// Where a store is.
pub struct StorePlace {
    /// The path of the store file.
    pub path: String,
    /// The directory of the store file, where its path names one.
    pub parent: Option<String>,
    /// The name of the store file.
    pub file_name: String,
}

/// What the last step of opening a store came to.
pub enum OpenEvent {
    /// Nothing was done yet.
    Start,
    /// The directory of the store is there.
    DirectoryReady,
    /// The directory of the store could not be created.
    DirectoryFailed(String),
    /// The store file is open. It was created if it was not there.
    FileOpen,
    /// The store file could not be opened or created.
    FileFailed(String),
    /// The store has a table with this many entries.
    Entries(u64),
    /// The store has no table yet.
    NoTable,
    /// The table was created.
    TableCreated,
    /// The table could not be read or created.
    TableFailed(String),
}

/// What to do next to open a store.
pub enum OpenAction {
    /// Create the directory of the store, with its parents.
    CreateDirectory,
    /// Open the store file, or create it.
    OpenFile,
    /// Count the entries of the table.
    CountEntries,
    /// Create the table.
    CreateTable,
    /// Log this note and use the store.
    Use(String),
    /// Log this warning and do without the store.
    Bypass(String),
}

/// The warning that a store cannot be used.
pub open spec fn disabled_note(what: Seq<char>, place: Seq<char>, error: Seq<char>) -> Seq<char> {
    "warning: failed to "@ + what + " "@ + place + ": "@ + error + "; caching disabled"@
}

/// The note that a store is in use.
pub open spec fn opened_note(file_name: Seq<char>, entries: nat) -> Seq<char> {
    "opened cache/"@ + file_name + " ("@ + decimal(entries) + " entries)"@
}

/// The text of an optional string; nothing where there is none.
pub open spec fn text_or_empty(s: Option<String>) -> Seq<char> {
    match s {
        Some(t) => t@,
        None => Seq::empty(),
    }
}

fn disabled(what: &str, place: &str, error: &str) -> (r: OpenAction)
    ensures
        r matches OpenAction::Bypass(m) && m@ == disabled_note(what@, place@, error@),
{
    let mut note = "warning: failed to ".to_owned();
    note.append(what);
    note.append(" ");
    note.append(place);
    note.append(": ");
    note.append(error);
    note.append("; caching disabled");
    OpenAction::Bypass(note)
}

fn in_use(file_name: &str, entries: u64) -> (r: OpenAction)
    ensures
        r matches OpenAction::Use(m) && m@ == opened_note(file_name@, entries as nat),
{
    let mut note = "opened cache/".to_owned();
    note.append(file_name);
    note.append(" (");
    note.append(&decimal_string(entries));
    note.append(" entries)");
    OpenAction::Use(note)
}

/// The next step of opening the store at `place`, after `event`.
///
/// The directory is created if the path names one, then the file is opened, then
/// the entries are counted. The table is created only in a store that has none, so
/// that opening a store that is in use writes nothing. Whatever fails, the cache
/// is bypassed and the run goes on.
pub fn open_step(place: &StorePlace, event: OpenEvent) -> (r: OpenAction)
    ensures
        match event {
            OpenEvent::Start => if text_or_empty(place.parent).len() > 0 {
                r is CreateDirectory
            } else {
                r is OpenFile
            },
            OpenEvent::DirectoryReady => r is OpenFile,
            OpenEvent::DirectoryFailed(e) => r matches OpenAction::Bypass(m) && m@ == disabled_note(
                "create cache directory"@,
                text_or_empty(place.parent),
                e@,
            ),
            OpenEvent::FileOpen => r is CountEntries,
            OpenEvent::FileFailed(e) => r matches OpenAction::Bypass(m) && m@ == disabled_note(
                "open/create cache file"@,
                place.path@,
                e@,
            ),
            OpenEvent::Entries(n) => r matches OpenAction::Use(m) && m@ == opened_note(
                place.file_name@,
                n as nat,
            ),
            OpenEvent::NoTable => r is CreateTable,
            OpenEvent::TableCreated => r matches OpenAction::Use(m) && m@ == opened_note(
                place.file_name@,
                0,
            ),
            OpenEvent::TableFailed(e) => r matches OpenAction::Bypass(m) && m@ == disabled_note(
                "open cache file"@,
                place.path@,
                e@,
            ),
        },
{
    match event {
        OpenEvent::Start => match &place.parent {
            Some(parent) => {
                if parent.as_str().is_empty() {
                    OpenAction::OpenFile
                } else {
                    OpenAction::CreateDirectory
                }
            },
            None => OpenAction::OpenFile,
        },
        OpenEvent::DirectoryReady => OpenAction::OpenFile,
        OpenEvent::DirectoryFailed(e) => {
            let parent = match &place.parent {
                Some(parent) => parent.clone(),
                None => String::new(),
            };
            disabled("create cache directory", &parent, &e)
        },
        OpenEvent::FileOpen => OpenAction::CountEntries,
        OpenEvent::FileFailed(e) => disabled("open/create cache file", &place.path, &e),
        OpenEvent::Entries(n) => in_use(&place.file_name, n),
        OpenEvent::NoTable => OpenAction::CreateTable,
        OpenEvent::TableCreated => in_use(&place.file_name, 0),
        OpenEvent::TableFailed(e) => disabled("open cache file", &place.path, &e),
    }
}

/// What a caching embedder knows, but for the embedder it wraps.
#[verifier::ext_equal]
pub struct CacheView {
    /// Whether there is a store.
    pub enabled: bool,
    /// The number of texts served from the buffer or the store.
    pub hits: usize,
    /// The number of texts that had to be embedded.
    pub misses: usize,
    /// The new vectors that are not written yet, by key.
    pub pending: Map<u64, Seq<u32>>,
}

/// A tally after one more. It wraps around at the end of its range.
pub open spec fn bumped(n: usize) -> usize {
    if n == usize::MAX {
        0
    } else {
        (n + 1) as usize
    }
}

/// The view of an optional slice.
pub open spec fn bytes_view(b: Option<&[u8]>) -> Option<Seq<u8>> {
    match b {
        Some(s) => Some(s@),
        None => None,
    }
}

impl CacheView {
    /// The state of a cache in front of a store that was just opened.
    pub open spec fn opened() -> CacheView {
        CacheView { enabled: true, hits: 0, misses: 0, pending: Map::empty() }
    }

    /// Whether `text` has to be embedded, where `store` is behind the cache.
    pub open spec fn asks(self, store: Map<u64, Seq<u8>>, text: Seq<char>) -> bool {
        self.found(text_key(text), stored(store, text_key(text))) is None
    }

    /// The vector that is served for `key` without embedding, where the store
    /// holds `stored` for it: the buffered one, else the stored one. Without a
    /// store there is none.
    pub open spec fn found(self, key: u64, stored: Option<Seq<u8>>) -> Option<Seq<u32>> {
        if !self.enabled {
            None
        } else if self.pending.contains_key(key) {
            Some(self.pending[key])
        } else {
            match stored {
                Some(bytes) => decoded(bytes),
                None => None,
            }
        }
    }

    /// The state after a text was served.
    pub open spec fn after_hit(self) -> CacheView {
        CacheView { hits: bumped(self.hits), ..self }
    }

    /// The state after a text with this key was embedded: the miss is counted and
    /// the vector buffered. Without a store nothing changes.
    pub open spec fn after_miss(self, key: u64, vector: Seq<u32>) -> CacheView {
        if self.enabled {
            CacheView {
                misses: bumped(self.misses),
                pending: self.pending.insert(key, vector),
                ..self
            }
        } else {
            self
        }
    }

    /// The state after the buffered vectors were taken out.
    pub open spec fn after_flush(self) -> CacheView {
        if self.enabled {
            CacheView { pending: Map::empty(), ..self }
        } else {
            self
        }
    }
}

/// Whether one of the entries has the key `k`.
pub open spec fn has_key(entries: Seq<(u64, Vec<u8>)>, k: u64) -> bool {
    exists|i: int| 0 <= i < entries.len() && (#[trigger] entries[i]).0 == k
}

/// Whether the entries hold the buffered vectors as bytes, each key once.
pub open spec fn are_entries(entries: Seq<(u64, Vec<u8>)>, pending: Map<u64, Seq<u32>>) -> bool {
    &&& forall|i: int|
        0 <= i < entries.len() ==> pending.contains_key((#[trigger] entries[i]).0)
            && entries[i].1@ == encoded(pending[entries[i].0])
    &&& forall|i: int, j: int|
        0 <= i < j < entries.len() ==> (#[trigger] entries[i]).0 != (#[trigger] entries[j]).0
    &&& forall|k: u64| #[trigger] pending.contains_key(k) ==> has_key(entries, k)
}

/// A caching decorator around an embedder.
pub struct CachingEmbedder<E: Embedder> {
    /// The embedder that does the work.
    pub inner: E,
    /// Whether there is a store.
    pub enabled: bool,
    /// The number of texts served from the buffer or the store.
    pub hits: usize,
    /// The number of texts that had to be embedded.
    pub misses: usize,
    /// The new vectors that are not written yet, by key.
    pub pending: HashMap<u64, Vec<u32>>,
}

impl<E: Embedder> View for CachingEmbedder<E> {
    type V = CacheView;

    open spec fn view(&self) -> CacheView {
        CacheView {
            enabled: self.enabled,
            hits: self.hits,
            misses: self.misses,
            pending: self.pending@.map_values(|v: Vec<u32>| v@),
        }
    }
}

impl<E: Embedder> CachingEmbedder<E> {
    /// A caching embedder in front of a store that was opened.
    pub fn open(inner: E) -> (r: Self)
        ensures
            r.inner == inner,
            r@ == CacheView::opened(),
    {
        let r = CachingEmbedder {
            inner,
            enabled: true,
            hits: 0,
            misses: 0,
            pending: HashMap::new(),
        };
        assert(r@.pending == Map::<u64, Seq<u32>>::empty());
        r
    }

    /// A caching embedder without a store: every text is embedded.
    pub fn bypass(inner: E) -> (r: Self)
        ensures
            r.inner == inner,
            r@ == (CacheView { enabled: false, hits: 0, misses: 0, pending: Map::empty() }),
    {
        let r = CachingEmbedder {
            inner,
            enabled: false,
            hits: 0,
            misses: 0,
            pending: HashMap::new(),
        };
        assert(r@.pending == Map::<u64, Seq<u32>>::empty());
        r
    }

    /// The hit tally.
    pub fn hits(&self) -> (r: usize)
        ensures
            r == self@.hits,
    {
        self.hits
    }

    /// The miss tally.
    pub fn misses(&self) -> (r: usize)
        ensures
            r == self@.misses,
    {
        self.misses
    }

    /// The id of the model of the wrapped embedder.
    pub fn model_id(&self) -> (r: &str)
        ensures
            call_ensures(E::model_id, (&self.inner,), r),
    {
        self.inner.model_id()
    }

    /// The key to look up in the store before `text` is embedded. `None` if the
    /// store need not be read: there is none, or the vector is still buffered.
    pub fn lookup_key(&self, text: &str) -> (r: Option<u64>)
        ensures
            r == (if self@.enabled && !self@.pending.contains_key(text_key(text@)) {
                Some(text_key(text@))
            } else {
                None
            }),
    {
        if !self.enabled {
            return None;
        }
        let key = hash_text(text);
        if self.pending.contains_key(&key) {
            None
        } else {
            Some(key)
        }
    }

    /// The vector for `text` if it need not be embedded, where the store holds
    /// `stored` for its key. A hit is counted.
    pub fn cached(&mut self, text: &str, stored: Option<&[u8]>) -> (r: Option<Vec<u32>>)
        ensures
            final(self).inner == old(self).inner,
            match old(self)@.found(text_key(text@), bytes_view(stored)) {
                Some(v) => r is Some && r->0@ == v && final(self)@ == old(self)@.after_hit(),
                None => r is None && final(self)@ == old(self)@,
            },
    {
        if !self.enabled {
            return None;
        }
        let key = hash_text(text);
        let served: Option<Vec<u32>> = match self.pending.get(&key) {
            Some(v) => Some(v.clone()),
            None => match stored {
                Some(bytes) => decode_vector(bytes),
                None => None,
            },
        };
        if served.is_some() {
            self.hits = self.hits.wrapping_add(1);
        }
        served
    }

    /// Take what embedding `text` came to. A vector is counted as a miss and
    /// buffered if there is a store; an error changes nothing. Either is passed
    /// on.
    pub fn settle(&mut self, text: &str, fresh: Result<Vec<u32>, String>) -> (r: Result<
        Vec<u32>,
        String,
    >)
        ensures
            final(self).inner == old(self).inner,
            match fresh {
                Ok(v) => r is Ok && r->Ok_0@ == v@ && final(self)@ == old(self)@.after_miss(
                    text_key(text@),
                    v@,
                ),
                Err(e) => r == Err::<Vec<u32>, String>(e) && final(self)@ == old(self)@,
            },
    {
        match fresh {
            Ok(vector) => {
                if self.enabled {
                    let key = hash_text(text);
                    self.misses = self.misses.wrapping_add(1);
                    self.pending.insert(key, vector.clone());
                    assert(self@.pending == old(self)@.pending.insert(text_key(text@), vector@));
                }
                Ok(vector)
            },
            Err(e) => Err(e),
        }
    }

    /// Embed `text`, where the store holds `stored` for its key. The wrapped
    /// embedder is asked for it exactly if the vector is neither buffered nor
    /// stored: only then may it be asked, and then its answer is what comes back.
    pub fn embed(&mut self, text: &str, stored: Option<&[u8]>) -> (r: Result<Vec<u32>, String>)
        requires
            old(self)@.found(text_key(text@), bytes_view(stored)) is None ==> old(
                self,
            ).inner.may_ask(text@),
        ensures
            final(self).inner == old(self).inner,
            match old(self)@.found(text_key(text@), bytes_view(stored)) {
                Some(v) => r is Ok && r->Ok_0@ == v && final(self)@ == old(self)@.after_hit(),
                None => exists|fresh: Result<Vec<u32>, String>| #[trigger]
                    call_ensures(E::embed, (&old(self).inner, text), fresh) && match fresh {
                        Ok(v) => r is Ok && r->Ok_0@ == v@ && final(self)@ == old(
                            self,
                        )@.after_miss(text_key(text@), v@),
                        Err(e) => r == Err::<Vec<u32>, String>(e) && final(self)@ == old(self)@,
                    },
            },
    {
        match self.cached(text, stored) {
            Some(vector) => Ok(vector),
            None => {
                let fresh = self.inner.embed(text);
                self.settle(text, fresh)
            },
        }
    }

    /// Whether there is anything to write to the store.
    pub fn needs_flush(&self) -> (r: bool)
        ensures
            r == (self@.enabled && !self@.pending.is_empty()),
    {
        let empty = self.pending.is_empty();
        proof {
            if !empty {
                assert(!self.pending@.is_empty());
                let k = choose|k: u64| self.pending@.contains_key(k);
                assert(self@.pending.contains_key(k));
            }
        }
        self.enabled && !empty
    }

    /// Take the buffered vectors out, as the entries to write to the store. In
    /// which order they come is left open.
    pub fn flush(&mut self) -> (r: Vec<(u64, Vec<u8>)>)
        ensures
            final(self).inner == old(self).inner,
            final(self)@ == old(self)@.after_flush(),
            old(self)@.enabled ==> are_entries(r@, old(self)@.pending),
            !old(self)@.enabled ==> r@.len() == 0,
    {
        let mut entries: Vec<(u64, Vec<u8>)> = Vec::new();
        if !self.enabled {
            return entries;
        }
        let ghost pending = self.pending@;
        for (key, vector) in it: self.pending.iter()
            invariant
                pending == self.pending@,
                it.seq().no_duplicates(),
                forall|i: int|
                    0 <= i < it.seq().len() ==> pending.contains_key(*(#[trigger] it.seq()[i]).0)
                        && pending[*it.seq()[i].0] == *it.seq()[i].1,
                forall|k: u64| #[trigger]
                    pending.contains_key(k) ==> it.seq().contains((&k, &pending[k])),
                entries@.len() == it.index(),
                forall|i: int|
                    0 <= i < entries@.len() ==> (#[trigger] entries@[i]).0 == *it.seq()[i].0
                        && entries@[i].1@ == encoded(it.seq()[i].1@),
                forall|i: int, j: int|
                    0 <= i < j < entries@.len() ==> (#[trigger] entries@[i]).0 != (
                    #[trigger] entries@[j]).0,
                forall|k: u64| #[trigger]
                    pending.contains_key(k) ==> has_key(entries@, k) || exists|i: int|
                        it.index() <= i < it.seq().len() && *(#[trigger] it.seq()[i]).0 == k,
        {
            let ghost n = it.index();
            let ghost before = entries@;
            let bytes = encode_vector(vector);
            entries.push((*key, bytes));
            proof {
                assert forall|i: int| 0 <= i < n implies (#[trigger] entries@[i]).0 != *key by {
                    if entries@[i].0 == *key {
                        assert(it.seq()[i] == it.seq()[n as int]);
                    }
                }
                assert forall|k: u64| #[trigger] pending.contains_key(k) implies has_key(
                    entries@,
                    k,
                ) || exists|i: int|
                    n + 1 <= i < it.seq().len() && *(#[trigger] it.seq()[i]).0 == k by {
                    if has_key(before, k) {
                        let i = choose|i: int| 0 <= i < before.len() && (#[trigger] before[i]).0 == k;
                        assert(entries@[i].0 == k);
                    } else if *key == k {
                        assert(entries@[n as int].0 == k);
                    }
                }
            }
        }
        self.pending.clear();
        entries
    }
}

pub(crate) proof fn lemma_encoded(v: Seq<u32>)
    ensures
        encoded(v).len() == 4 * v.len(),
        forall|i: int|
            0 <= i < v.len() ==> word_bytes(#[trigger] v[i]) == encoded(v).subrange(
                4 * i,
                4 * i + 4,
            ),
    decreases v.len(),
{
    if v.len() > 0 {
        let t = v.drop_last();
        lemma_encoded(t);
        assert forall|i: int| 0 <= i < v.len() implies word_bytes(#[trigger] v[i]) == encoded(
            v,
        ).subrange(4 * i, 4 * i + 4) by {
            if i < t.len() {
                assert(word_bytes(t[i]) == encoded(t).subrange(4 * i, 4 * i + 4));
                assert(encoded(v).subrange(4 * i, 4 * i + 4) == encoded(t).subrange(
                    4 * i,
                    4 * i + 4,
                ));
            } else {
                assert(encoded(v).subrange(4 * i, 4 * i + 4) == word_bytes(v.last()));
            }
        }
    }
}

pub(crate) proof fn lemma_word_of(w: u32)
    ensures
        word_of(word_bytes(w)) == w,
{
    assert(w == w % 256 + 256 * (w / 256 % 256) + 65536 * (w / 65536 % 256) + 16777216 * (w
        / 16777216));
}

/// The bytes of a vector of [`EMBED_DIM`] numbers give that vector back.
pub proof fn law_vector_round_trips(v: Seq<u32>)
    requires
        v.len() == EMBED_DIM,
    ensures
        decoded(encoded(v)) == Some(v),
{
    lemma_encoded(v);
    let w = decoded(encoded(v))->0;
    assert forall|i: int| 0 <= i < v.len() implies #[trigger] w[i] == v[i] by {
        assert(word_bytes(v[i]) == encoded(v).subrange(4 * i, 4 * i + 4));
        lemma_word_of(v[i]);
    }
    assert(w == v);
}

/// Dividing by 256, where the quotient and the remainder are known.
proof fn lemma_split(n: int, q: int, r: int)
    requires
        n == 256 * q + r,
        0 <= r < 256,
    ensures
        n / 256 == q,
        n % 256 == r,
{
}

/// Dividing by the place values of the higher bytes, byte by byte.
proof fn lemma_places(n: int)
    requires
        0 <= n,
    ensures
        n / 65536 == n / 256 / 256,
        n / 16777216 == n / 65536 / 256,
{
}

proof fn lemma_word_bytes(b: Seq<u8>)
    requires
        b.len() == 4,
    ensures
        word_bytes(word_of(b)) == b,
{
    let w = word_of(b);
    let high = b[3] as int;
    let upper = b[2] + 256 * high;
    let rest = b[1] + 256 * upper;
    assert(w == b[0] + 256 * rest);
    lemma_split(w as int, rest, b[0] as int);
    lemma_split(rest, upper, b[1] as int);
    lemma_split(upper, high, b[2] as int);
    lemma_places(w as int);
    assert(word_bytes(w) == b);
}

/// A value is taken for a vector only where it is as wide as one, and then the
/// vector has exactly its bytes.
pub proof fn law_wrong_width_is_no_vector(bytes: Seq<u8>)
    ensures
        decoded(bytes) is Some <==> bytes.len() == EMBED_DIM * 4,
        decoded(bytes) matches Some(v) ==> v.len() == EMBED_DIM && encoded(v) == bytes,
{
    if bytes.len() == EMBED_DIM * 4 {
        let v = decoded(bytes)->0;
        lemma_encoded(v);
        assert forall|k: int| 0 <= k < bytes.len() implies #[trigger] encoded(v)[k] == bytes[k] by {
            let i = k / 4;
            let b = bytes.subrange(4 * i, 4 * i + 4);
            assert(word_bytes(v[i]) == encoded(v).subrange(4 * i, 4 * i + 4));
            lemma_word_bytes(b);
            assert(encoded(v)[k] == encoded(v).subrange(4 * i, 4 * i + 4)[k - 4 * i]);
            assert(bytes[k] == b[k - 4 * i]);
        }
        assert(encoded(v) == bytes);
    }
}

/// Different models have different store files.
pub proof fn law_one_file_per_model(a: Seq<char>, b: Seq<char>)
    requires
        file_name(a) == file_name(b),
    ensures
        a == b,
{
    let front = "embeddings-"@.len() as int;
    assert(file_name(a).len() == front + sanitized(a).len() + ".redb"@.len());
    assert(file_name(b).len() == front + sanitized(b).len() + ".redb"@.len());
    let end = front + sanitized(a).len();
    assert(sanitized(a) == file_name(a).subrange(front, end));
    assert(sanitized(b) == file_name(b).subrange(front, end));
    law_sanitizer_is_injective(a, b);
}

/// The name of a store file names no other directory, and nothing in it has to be
/// escaped: it holds no character that may not stand in a file name.
pub proof fn law_file_name_is_a_file_name(model_id: Seq<char>)
    ensures
        forall|i: int| 0 <= i < file_name(model_id).len() && is_hostile(
            #[trigger] file_name(model_id)[i],
        ) ==> file_name(model_id)[i] == '%',
{
    reveal_strlit("embeddings-");
    reveal_strlit(".redb");
    law_sanitized_is_a_file_name(model_id);
    let front = "embeddings-"@;
    let mid = sanitized(model_id);
    assert forall|i: int| 0 <= i < file_name(model_id).len() && is_hostile(
        #[trigger] file_name(model_id)[i],
    ) implies file_name(model_id)[i] == '%' by {
        if i < front.len() {
            assert(file_name(model_id)[i] == front[i]);
        } else if i < front.len() + mid.len() {
            assert(file_name(model_id)[i] == mid[i - front.len()]);
        } else {
            assert(file_name(model_id)[i] == ".redb"@[i - front.len() - mid.len()]);
        }
    }
}

/// What a store holds for a key.
pub open spec fn stored(store: Map<u64, Seq<u8>>, key: u64) -> Option<Seq<u8>> {
    if store.contains_key(key) {
        Some(store[key])
    } else {
        None
    }
}

/// A store after the entries were put into it, one after another.
pub open spec fn inserted(store: Map<u64, Seq<u8>>, entries: Seq<(u64, Vec<u8>)>) -> Map<
    u64,
    Seq<u8>,
>
    decreases entries.len(),
{
    if entries.len() == 0 {
        store
    } else {
        inserted(store, entries.drop_last()).insert(entries.last().0, entries.last().1@)
    }
}

proof fn lemma_inserted(store: Map<u64, Seq<u8>>, entries: Seq<(u64, Vec<u8>)>, key: u64)
    requires
        forall|i: int, j: int|
            0 <= i < j < entries.len() ==> (#[trigger] entries[i]).0 != (#[trigger] entries[j]).0,
    ensures
        forall|i: int|
            0 <= i < entries.len() && (#[trigger] entries[i]).0 == key ==> stored(
                inserted(store, entries),
                key,
            ) == Some(entries[i].1@),
        (forall|i: int| 0 <= i < entries.len() ==> (#[trigger] entries[i]).0 != key) ==> stored(
            inserted(store, entries),
            key,
        ) == stored(store, key),
    decreases entries.len(),
{
    if entries.len() > 0 {
        let t = entries.drop_last();
        assert forall|i: int, j: int| 0 <= i < j < t.len() implies (#[trigger] t[i]).0 != (
        #[trigger] t[j]).0 by {
            assert(t[i] == entries[i] && t[j] == entries[j]);
        }
        lemma_inserted(store, t, key);
        assert forall|i: int| 0 <= i < entries.len() && (#[trigger] entries[i]).0
            == key implies stored(inserted(store, entries), key) == Some(entries[i].1@) by {
            if i < t.len() {
                assert(t[i] == entries[i]);
                assert(entries[entries.len() - 1].0 != key);
            }
        }
        if forall|i: int| 0 <= i < entries.len() ==> (#[trigger] entries[i]).0 != key {
            assert(entries[entries.len() - 1].0 != key);
            assert forall|i: int| 0 <= i < t.len() implies (#[trigger] t[i]).0 != key by {
                assert(t[i] == entries[i]);
            }
        }
    }
}

/// Writing the buffered vectors to the store changes nothing that is served: what
/// a text was served from the buffer, it is served from the store afterwards.
pub proof fn law_flush_keeps_what_is_served(
    c: CacheView,
    store: Map<u64, Seq<u8>>,
    entries: Seq<(u64, Vec<u8>)>,
    key: u64,
)
    requires
        c.enabled,
        are_entries(entries, c.pending),
        c.pending.contains_key(key) ==> c.pending[key].len() == EMBED_DIM,
    ensures
        c.after_flush().found(key, stored(inserted(store, entries), key)) == c.found(
            key,
            stored(store, key),
        ),
{
    lemma_inserted(store, entries, key);
    if c.pending.contains_key(key) {
        let i = choose|i: int| 0 <= i < entries.len() && (#[trigger] entries[i]).0 == key;
        assert(entries[i].1@ == encoded(c.pending[key]));
        law_vector_round_trips(c.pending[key]);
    } else {
        assert forall|i: int| 0 <= i < entries.len() implies (#[trigger] entries[i]).0 != key by {
            assert(c.pending.contains_key(entries[i].0));
        }
    }
}

/// The vector that `text` is served, and the state after it, where embedding a
/// text gives `f` of it and `store` is behind the cache.
pub open spec fn served(
    c: CacheView,
    store: Map<u64, Seq<u8>>,
    f: spec_fn(Seq<char>) -> Seq<u32>,
    text: Seq<char>,
) -> (CacheView, Seq<u32>) {
    match c.found(text_key(text), stored(store, text_key(text))) {
        Some(v) => (c.after_hit(), v),
        None => (c.after_miss(text_key(text), f(text)), f(text)),
    }
}

/// Whether the buffer and the store hold, for the texts in `used`, nothing but
/// what embedding them gives.
pub open spec fn is_faithful(
    c: CacheView,
    store: Map<u64, Seq<u8>>,
    f: spec_fn(Seq<char>) -> Seq<u32>,
    used: Set<Seq<char>>,
) -> bool {
    forall|t: Seq<char>| #[trigger]
        used.contains(t) ==> match c.found(text_key(t), stored(store, text_key(t))) {
            Some(v) => v == f(t),
            None => true,
        }
}

/// The cache is transparent: as long as no two of the texts in use have one key,
/// every text is served exactly what embedding it gives, and the cache keeps
/// holding nothing else.
pub proof fn law_cache_is_transparent(
    c: CacheView,
    store: Map<u64, Seq<u8>>,
    f: spec_fn(Seq<char>) -> Seq<u32>,
    used: Set<Seq<char>>,
    text: Seq<char>,
)
    requires
        is_faithful(c, store, f, used),
        used.contains(text),
        forall|t: Seq<char>, u: Seq<char>|
            #![trigger used.contains(t), used.contains(u)]
            used.contains(t) && used.contains(u) && text_key(t) == text_key(u) ==> t == u,
    ensures
        served(c, store, f, text).1 == f(text),
        is_faithful(served(c, store, f, text).0, store, f, used),
{
    let next = served(c, store, f, text).0;
    assert forall|t: Seq<char>| #[trigger] used.contains(t) implies match next.found(
        text_key(t),
        stored(store, text_key(t)),
    ) {
        Some(v) => v == f(t),
        None => true,
    } by {
        if text_key(t) == text_key(text) {
            assert(t == text);
        }
    }
}

/// A cache without a store is transparent whatever the texts are: each is
/// embedded, and nothing is counted or kept.
pub proof fn law_bypass_is_transparent(
    c: CacheView,
    store: Map<u64, Seq<u8>>,
    f: spec_fn(Seq<char>) -> Seq<u32>,
    text: Seq<char>,
)
    requires
        !c.enabled,
    ensures
        served(c, store, f, text) == (c, f(text)),
{
}

/// The state after the texts were served, one after another.
pub open spec fn after_texts(
    c: CacheView,
    store: Map<u64, Seq<u8>>,
    f: spec_fn(Seq<char>) -> Seq<u32>,
    texts: Seq<Seq<char>>,
) -> CacheView
    decreases texts.len(),
{
    if texts.len() == 0 {
        c
    } else {
        served(after_texts(c, store, f, texts.drop_last()), store, f, texts.last()).0
    }
}

/// The keys of the texts.
pub open spec fn keys_of(texts: Seq<Seq<char>>) -> Set<u64> {
    texts.map_values(|t: Seq<char>| text_key(t)).to_set()
}

/// With an empty store the first text of each key is a miss and every later one a
/// hit: the tallies add up to the number of texts, and the misses are as many as
/// there are different keys.
pub proof fn law_tallies(f: spec_fn(Seq<char>) -> Seq<u32>, texts: Seq<Seq<char>>)
    requires
        texts.len() <= usize::MAX,
    ensures
        ({
            let end = after_texts(CacheView::opened(), Map::empty(), f, texts);
            &&& end.hits + end.misses == texts.len()
            &&& end.misses == keys_of(texts).len()
            &&& end.pending.dom() == keys_of(texts)
        }),
    decreases texts.len(),
{
    let c = CacheView::opened();
    let end = after_texts(c, Map::empty(), f, texts);
    let keys = texts.map_values(|t: Seq<char>| text_key(t));
    if texts.len() == 0 {
        assert(keys_of(texts) == Set::<u64>::empty());
        assert(end.pending.dom() == keys_of(texts));
    } else {
        let t = texts.drop_last();
        let front = t.map_values(|t: Seq<char>| text_key(t));
        law_tallies(f, t);
        let before = after_texts(c, Map::empty(), f, t);
        lemma_enabled_stays(c, Map::empty(), f, t);
        let key = text_key(texts.last());
        assert(keys == front.push(key));
        assert(keys_of(texts) == keys_of(t).insert(key)) by {
            assert forall|k: u64| keys_of(texts).contains(k) == keys_of(t).insert(key).contains(
                k,
            ) by {
                if keys.contains(k) {
                    let i = choose|i: int| 0 <= i < keys.len() && keys[i] == k;
                    if i < front.len() {
                        assert(front[i] == k);
                    }
                }
                if front.contains(k) {
                    let i = choose|i: int| 0 <= i < front.len() && front[i] == k;
                    assert(keys[i] == k);
                }
                assert(keys[keys.len() - 1] == key);
            }
        }
        assert(keys_of(t).finite());
        assert(before.pending.contains_key(key) == keys_of(t).contains(key));
        assert(end.pending.dom() == keys_of(texts));
    }
}

/// With an empty store each key is embedded once: text `i` of a run has to be
/// embedded exactly if no text in front of it has its key.
pub proof fn law_each_key_is_asked_once(
    f: spec_fn(Seq<char>) -> Seq<u32>,
    texts: Seq<Seq<char>>,
    i: int,
)
    requires
        0 <= i < texts.len() <= usize::MAX,
    ensures
        after_texts(CacheView::opened(), Map::empty(), f, texts.take(i)).asks(
            Map::empty(),
            texts[i],
        ) <==> !keys_of(texts.take(i)).contains(text_key(texts[i])),
{
    let c = CacheView::opened();
    law_tallies(f, texts.take(i));
    lemma_enabled_stays(c, Map::empty(), f, texts.take(i));
    let before = after_texts(c, Map::empty(), f, texts.take(i));
    assert(before.pending.contains_key(text_key(texts[i])) <==> before.pending.dom().contains(
        text_key(texts[i]),
    ));
}

/// A store that is opened again serves what was written to it: a text that was
/// buffered or stored before is not embedded again, and is served the same.
pub proof fn law_reopened_store_serves(
    c: CacheView,
    store: Map<u64, Seq<u8>>,
    entries: Seq<(u64, Vec<u8>)>,
    text: Seq<char>,
)
    requires
        c.enabled,
        are_entries(entries, c.pending),
        c.pending.contains_key(text_key(text)) ==> c.pending[text_key(text)].len() == EMBED_DIM,
        !c.asks(store, text),
    ensures
        !CacheView::opened().asks(inserted(store, entries), text),
        CacheView::opened().found(
            text_key(text),
            stored(inserted(store, entries), text_key(text)),
        ) == c.found(text_key(text), stored(store, text_key(text))),
{
    law_flush_keeps_what_is_served(c, store, entries, text_key(text));
}

proof fn lemma_enabled_stays(
    c: CacheView,
    store: Map<u64, Seq<u8>>,
    f: spec_fn(Seq<char>) -> Seq<u32>,
    texts: Seq<Seq<char>>,
)
    ensures
        after_texts(c, store, f, texts).enabled == c.enabled,
    decreases texts.len(),
{
    if texts.len() > 0 {
        lemma_enabled_stays(c, store, f, texts.drop_last());
    }
}

} // verus!
