use std::cell::Cell;
use std::collections::hash_map::DefaultHasher;
use std::collections::HashMap;
use std::hash::{Hash, Hasher};

use email_classifier::cache::{
    cache_file_name, decode_vector, encode_vector, hash_text, open_step, CachingEmbedder,
    OpenAction, OpenEvent, StorePlace,
};
use email_classifier::embed::{sanitize_model_id, single_vector, Embedder, EMBEDDING_MODEL_ID};
use email_classifier::features::EMBED_DIM;

struct DummyEmbedder {
    call_count: Cell<usize>,
}

impl DummyEmbedder {
    fn new() -> Self {
        DummyEmbedder { call_count: Cell::new(0) }
    }

    fn calls(&self) -> usize {
        self.call_count.get()
    }
}

impl Embedder for DummyEmbedder {
    fn model_id(&self) -> &str {
        "dummy/model-v1"
    }

    fn embed(&self, text: &str) -> Result<Vec<u32>, String> {
        self.call_count.set(self.call_count.get() + 1);
        if text == "broken" {
            return Err("model failed".to_string());
        }
        let mut vec = vec![0.0f32.to_bits(); EMBED_DIM];
        vec[0] = (text.len() as f32).to_bits();
        Ok(vec)
    }
}

type Store = HashMap<u64, Vec<u8>>;

/// Embed a text with `store` behind the cache.
fn embed(
    cached: &mut CachingEmbedder<DummyEmbedder>,
    store: &Store,
    text: &str,
) -> Result<Vec<f32>, String> {
    let stored = cached.lookup_key(text).and_then(|key| store.get(&key).cloned());
    let bits = cached.embed(text, stored.as_deref())?;
    Ok(bits.into_iter().map(f32::from_bits).collect())
}

/// Write the buffered vectors to `store`.
fn flush(cached: &mut CachingEmbedder<DummyEmbedder>, store: &mut Store) {
    if cached.needs_flush() {
        store.extend(cached.flush());
    }
}

#[test]
fn test_sanitize_model_id() {
    assert_eq!(
        sanitize_model_id("sentence-transformers/all-MiniLM-L6-v2"),
        "sentence-transformers%2Fall-MiniLM-L6-v2"
    );
    assert_eq!(
        sanitize_model_id("a\\b:c*d?e\"f<g>h|i%j"),
        "a%5Cb%3Ac%2Ad%3Fe%22f%3Cg%3Eh%7Ci%25j"
    );
}

#[test]
fn test_cache_hit_and_miss() {
    let store = Store::new();
    let mut cached = CachingEmbedder::open(DummyEmbedder::new());

    assert_eq!(cached.hits(), 0);
    assert_eq!(cached.misses(), 0);

    // First embed: miss
    let v1 = embed(&mut cached, &store, "hello").unwrap();
    assert_eq!(cached.hits(), 0);
    assert_eq!(cached.misses(), 1);
    assert_eq!(cached.inner.calls(), 1);
    assert_eq!(v1[0], 5.0);

    // Second embed: hit the buffered insert before flush
    let v2 = embed(&mut cached, &store, "hello").unwrap();
    assert_eq!(cached.hits(), 1);
    assert_eq!(cached.misses(), 1);
    assert_eq!(cached.inner.calls(), 1);
    assert_eq!(v1, v2);
}

#[test]
fn test_cache_hit_and_miss_with_flush() {
    let mut store = Store::new();
    let mut cached = CachingEmbedder::open(DummyEmbedder::new());

    let v1 = embed(&mut cached, &store, "hello").unwrap();
    assert_eq!(cached.inner.calls(), 1);

    flush(&mut cached, &mut store);

    let v2 = embed(&mut cached, &store, "hello").unwrap();
    assert_eq!(cached.hits(), 1);
    assert_eq!(cached.misses(), 1);
    assert_eq!(cached.inner.calls(), 1);
    assert_eq!(v1, v2);
}

#[test]
fn test_persistence_round_trip() {
    let mut store = Store::new();

    {
        let mut cached = CachingEmbedder::open(DummyEmbedder::new());
        let _ = embed(&mut cached, &store, "hello").unwrap();
        flush(&mut cached, &mut store);
    }

    {
        let mut cached = CachingEmbedder::open(DummyEmbedder::new());
        let v = embed(&mut cached, &store, "hello").unwrap();
        assert_eq!(cached.hits(), 1);
        assert_eq!(cached.misses(), 0);
        assert_eq!(cached.inner.calls(), 0);
        assert_eq!(v[0], 5.0);
    }
}

#[test]
fn test_bypass_mode() {
    let mut store = Store::new();
    let mut cached = CachingEmbedder::bypass(DummyEmbedder::new());

    assert!(!cached.enabled);
    let _ = embed(&mut cached, &store, "hello").unwrap();
    let _ = embed(&mut cached, &store, "hello").unwrap();
    assert_eq!(cached.inner.calls(), 2);
    assert_eq!(cached.hits(), 0);
    assert_eq!(cached.misses(), 0);
    flush(&mut cached, &mut store);
    assert!(store.is_empty());
    assert!(cached.flush().is_empty());
}

fn place() -> StorePlace {
    StorePlace {
        path: "cache/embeddings-x.redb".to_string(),
        parent: Some("cache".to_string()),
        file_name: "embeddings-x.redb".to_string(),
    }
}

#[test]
fn test_corrupt_file_bypasses() {
    let action = open_step(&place(), OpenEvent::FileFailed("not a redb database".to_string()));
    assert!(matches!(action, OpenAction::Bypass(note) if note
        == "warning: failed to open/create cache file cache/embeddings-x.redb: not a redb \
            database; caching disabled"));

    let mut cached = CachingEmbedder::bypass(DummyEmbedder::new());
    let _ = embed(&mut cached, &Store::new(), "hello").unwrap();
    assert_eq!(cached.inner.calls(), 1);
    assert_eq!(cached.hits(), 0);
    assert_eq!(cached.misses(), 0);
}

#[test]
fn test_wrong_length_entry_misses() {
    let mut store = Store::new();
    store.insert(hash_text("hello"), vec![0u8; 10]);

    let mut cached = CachingEmbedder::open(DummyEmbedder::new());
    let v = embed(&mut cached, &store, "hello").unwrap();
    assert_eq!(cached.hits(), 0);
    assert_eq!(cached.misses(), 1);
    assert_eq!(cached.inner.calls(), 1);
    assert_eq!(v[0], 5.0);
}

#[test]
fn test_missing_file_opens_cold_some() {
    // A store that is not there is created: the cache is cold, not bypassed. A
    // miss embedded now warms the store.
    assert!(matches!(open_step(&place(), OpenEvent::FileOpen), OpenAction::CountEntries));
    assert!(matches!(open_step(&place(), OpenEvent::NoTable), OpenAction::CreateTable));
    assert!(matches!(open_step(&place(), OpenEvent::TableCreated), OpenAction::Use(note)
        if note == "opened cache/embeddings-x.redb (0 entries)"));

    let mut store = Store::new();
    {
        let mut cached = CachingEmbedder::open(DummyEmbedder::new());
        assert!(cached.enabled);
        let _ = embed(&mut cached, &store, "hello").unwrap();
        assert_eq!(cached.misses(), 1);
        flush(&mut cached, &mut store);
    }

    {
        let mut cached = CachingEmbedder::open(DummyEmbedder::new());
        let _ = embed(&mut cached, &store, "hello").unwrap();
        assert_eq!(cached.hits(), 1);
        assert_eq!(cached.inner.calls(), 0);
    }
}

#[test]
fn test_distinct_texts_miss_independently() {
    let store = Store::new();
    let mut cached = CachingEmbedder::open(DummyEmbedder::new());

    let _ = embed(&mut cached, &store, "alpha").unwrap();
    let _ = embed(&mut cached, &store, "bravo").unwrap();
    assert_eq!(cached.misses(), 2);
    assert_eq!(cached.hits(), 0);
    assert_eq!(cached.inner.calls(), 2);
}

#[test]
fn test_hit_miss_counter_mix() {
    // A mix of repeated and fresh texts: the tallies the effectiveness
    // summary is built from must match the expected split.
    let store = Store::new();
    let mut cached = CachingEmbedder::open(DummyEmbedder::new());

    for t in ["a", "b", "a", "c", "b", "a"] {
        let _ = embed(&mut cached, &store, t).unwrap();
    }
    // 3 distinct texts: 3 misses; the remaining 3 repeats: 3 hits.
    assert_eq!(cached.misses(), 3);
    assert_eq!(cached.hits(), 3);
    assert_eq!(cached.inner.calls(), 3);
}

#[test]
fn test_locked_file_bypasses() {
    // A store that another run holds cannot be opened: the cache is bypassed and
    // still serves vectors.
    let action = open_step(&place(), OpenEvent::FileFailed("Database already open".to_string()));
    assert!(matches!(action, OpenAction::Bypass(_)));

    let store = Store::new();
    let mut cached = CachingEmbedder::bypass(DummyEmbedder::new());
    let _ = embed(&mut cached, &store, "hello").unwrap();
    let _ = embed(&mut cached, &store, "hello").unwrap();
    assert_eq!(cached.inner.calls(), 2);
    assert_eq!(cached.hits(), 0);
    assert_eq!(cached.misses(), 0);
}

#[test]
fn test_write_failure_is_swallowed() {
    // Entries that never reach the store are embedded again by the next run.
    let store = Store::new();
    let mut cached = CachingEmbedder::open(DummyEmbedder::new());
    let v = embed(&mut cached, &store, "hello").unwrap();
    assert_eq!(v[0], 5.0);
    let lost = cached.flush();
    assert_eq!(lost.len(), 1);
    assert!(!cached.needs_flush());
    let v = embed(&mut cached, &store, "hello").unwrap();
    assert_eq!(v[0], 5.0);
    assert_eq!(cached.misses(), 2);
}

#[test]
fn test_slashed_model_id_round_trips_through_filename() {
    let id = "sentence-transformers/all-MiniLM-L6-v2";
    let file = cache_file_name(id);
    assert_eq!(file, format!("embeddings-{}.redb", sanitize_model_id(id)));
    assert!(!file.contains('/'), "sanitized filename must not contain a slash");

    // Injectivity: `a/b` and `a-b` must not collide onto one filename.
    assert_ne!(sanitize_model_id("a/b"), sanitize_model_id("a-b"));
}

#[test]
fn clean_ids_stand_for_themselves() {
    assert_eq!(sanitize_model_id(EMBEDDING_MODEL_ID), "all-MiniLM-L6-v2");
    assert_eq!(sanitize_model_id(""), "");
    assert_eq!(sanitize_model_id("caf\u{e9} 1.0"), "caf\u{e9} 1.0");
    // An id that holds an encoded character already is told apart from the
    // character itself.
    assert_eq!(sanitize_model_id("a%2Fb"), "a%252Fb");
}

#[test]
fn keys_are_those_of_the_default_hasher() {
    for text in ["", "a", "hello", "caf\u{e9}", "line one\nline two", "\u{1f600}"] {
        let mut hasher = DefaultHasher::new();
        text.hash(&mut hasher);
        assert_eq!(hash_text(text), hasher.finish());
    }
    assert_ne!(hash_text("a"), hash_text("b"));
}

#[test]
fn vectors_are_stored_as_little_endian_floats() {
    let floats: Vec<f32> = (0..EMBED_DIM).map(|i| i as f32 * 0.37 - 11.5).collect();
    let bits: Vec<u32> = floats.iter().map(|f| f.to_bits()).collect();
    let bytes = encode_vector(&bits);
    let expected: Vec<u8> = floats.iter().flat_map(|f| f.to_le_bytes()).collect();
    assert_eq!(bytes, expected);
    assert_eq!(decode_vector(&bytes), Some(bits));
    assert_eq!(encode_vector(&[0x04030201, 0xfffefdfc]), [1, 2, 3, 4, 0xfc, 0xfd, 0xfe, 0xff]);
}

#[test]
fn values_of_the_wrong_width_are_no_vectors() {
    assert_eq!(decode_vector(&[]), None);
    assert_eq!(decode_vector(&vec![0u8; EMBED_DIM * 4 - 1]), None);
    assert_eq!(decode_vector(&vec![0u8; EMBED_DIM * 4 + 1]), None);
    assert_eq!(decode_vector(&vec![0u8; EMBED_DIM * 4]), Some(vec![0u32; EMBED_DIM]));
}

#[test]
fn an_embedding_failure_is_passed_on_and_not_kept() {
    let store = Store::new();
    let mut cached = CachingEmbedder::open(DummyEmbedder::new());
    assert_eq!(embed(&mut cached, &store, "broken"), Err("model failed".to_string()));
    assert_eq!(cached.misses(), 0);
    assert_eq!(cached.hits(), 0);
    assert!(!cached.needs_flush());
    assert_eq!(cached.model_id(), "dummy/model-v1");
}

#[test]
fn a_store_is_opened_step_by_step() {
    assert!(matches!(open_step(&place(), OpenEvent::Start), OpenAction::CreateDirectory));
    assert!(matches!(open_step(&place(), OpenEvent::DirectoryReady), OpenAction::OpenFile));
    assert!(matches!(open_step(&place(), OpenEvent::Entries(1451)), OpenAction::Use(note)
        if note == "opened cache/embeddings-x.redb (1451 entries)"));

    let bare = StorePlace {
        path: "x.redb".to_string(),
        parent: Some(String::new()),
        file_name: "x.redb".to_string(),
    };
    assert!(matches!(open_step(&bare, OpenEvent::Start), OpenAction::OpenFile));
    let root = StorePlace { path: String::new(), parent: None, file_name: String::new() };
    assert!(matches!(open_step(&root, OpenEvent::Start), OpenAction::OpenFile));
}

#[test]
fn a_store_that_cannot_be_used_is_bypassed() {
    let action = open_step(&place(), OpenEvent::DirectoryFailed("denied".to_string()));
    assert!(matches!(action, OpenAction::Bypass(note)
        if note == "warning: failed to create cache directory cache: denied; caching disabled"));
    let action = open_step(&place(), OpenEvent::TableFailed("wrong type".to_string()));
    assert!(matches!(action, OpenAction::Bypass(note) if note
        == "warning: failed to open cache file cache/embeddings-x.redb: wrong type; caching \
            disabled"));
}

#[test]
fn one_text_gives_one_vector() {
    assert_eq!(
        single_vector(vec![]),
        Err("embedder returned no vector for one input".to_string())
    );
    assert_eq!(
        single_vector(vec![vec![0; 10]]),
        Err("embedder returned 10 dims, expected 384".to_string())
    );
    assert_eq!(single_vector(vec![vec![0; 3], vec![7; 384]]), Ok(vec![7; 384]));
}
