use objcache::cache::{cache_exists, read_cache, write_cache, FromCache, IntoCache};
use objcache::payload::{frame, unframe};
use objcache::store::MemStore;
use objcache::{Cache, CacheError};

#[test]
fn frame_prepends_the_one_record_header() {
    let record: Vec<u8> = vec![0xde, 0xad];
    let payload = frame(&record);
    assert_eq!(payload, vec![0x91, 0xde, 0xad]);
}

#[test]
fn unframe_undoes_frame() {
    let record: Vec<u8> = vec![0, 1, 2, 3, 255];
    assert_eq!(unframe(&frame(&record)), Ok(record));
}

#[test]
fn unframe_rejects_an_empty_payload() {
    assert_eq!(unframe(&Vec::new()), Err(CacheError::CorruptData));
}

#[test]
fn unframe_rejects_a_wrong_header() {
    assert_eq!(unframe(&vec![0x90]), Err(CacheError::CorruptData));
    assert_eq!(unframe(&vec![0x92, 1, 2]), Err(CacheError::CorruptData));
    assert_eq!(unframe(&vec![0x00, 1]), Err(CacheError::CorruptData));
}

#[test]
fn framing_matches_the_serializer_s_one_element_sequence() {
    // The serializer collaborator writes a value wrapped as a one-element
    // sequence; the library's framing must produce those very bytes.
    let value: u32 = 42;
    let record = rmp_serde::to_vec(&value).unwrap();
    let direct = rmp_serde::to_vec(&[value]).unwrap();
    assert_eq!(frame(&record), direct);

    let words: Vec<String> = vec!["alpha".to_string(), "beta".to_string()];
    let record = rmp_serde::to_vec(&words).unwrap();
    let direct = rmp_serde::to_vec(&[words]).unwrap();
    assert_eq!(frame(&record), direct);
}

#[test]
fn a_serialized_value_survives_the_cache() {
    let mut store = MemStore::new();
    let cache = Cache::new("vocab", "root", &mut store).unwrap();
    let words: Vec<String> = vec!["the".to_string(), "quick".to_string(), "fox".to_string()];
    let record = rmp_serde::to_vec(&words).unwrap();
    cache.write(&mut store, "train", &record).unwrap();

    // Restart: an equivalent cache over the same storage.
    let cache = Cache::new("vocab", "root", &mut store).unwrap();
    let back = cache.read(&store, "train").unwrap();
    let decoded: Vec<String> = rmp_serde::from_slice(&back).unwrap();
    assert_eq!(decoded, words);
}

#[test]
fn the_stored_file_is_the_serializer_s_sequence_encoding() {
    let mut store = MemStore::new();
    let cache = Cache::new("vocab", "root", &mut store).unwrap();
    let words: Vec<String> = vec!["a".to_string(), "b".to_string()];
    let record = rmp_serde::to_vec(&words).unwrap();
    cache.write(&mut store, "train", &record).unwrap();

    // The raw file holds the one-element sequence wrapping, so the stream
    // decoder used for multi-record files reads it as exactly one record.
    let raw = store.read_file(&cache.resolve("train")).unwrap();
    let wrapped: Vec<Vec<String>> = rmp_serde::from_slice(&raw).unwrap();
    assert_eq!(wrapped, vec![words]);
}

/// A word list that opts into caching, deriving its namespace from its own
/// (lower-cased) type name, as the capability pattern prescribes.
struct WordList {
    words: Vec<String>,
}

impl WordList {
    fn namespace() -> &'static str {
        "wordlist"
    }
}

impl FromCache for WordList {
    fn from_cache(root: &str, store: &mut MemStore, key: &str) -> Result<WordList, CacheError> {
        let record = read_cache(root, store, WordList::namespace(), key)?;
        let words: Vec<String> =
            rmp_serde::from_slice(&record).map_err(|_| CacheError::CorruptData)?;
        Ok(WordList { words })
    }

    fn has_cache(root: &str, store: &mut MemStore, key: &str) -> bool {
        cache_exists(root, store, WordList::namespace(), key)
    }
}

impl IntoCache for WordList {
    fn into_cache(&self, root: &str, store: &mut MemStore, key: &str) -> Result<(), CacheError> {
        let record = rmp_serde::to_vec(&self.words).map_err(|_| CacheError::IoError)?;
        write_cache(root, store, WordList::namespace(), key, &record)
    }
}

#[test]
fn capability_traits_cache_a_type_under_its_own_namespace() {
    let mut store = MemStore::new();
    assert!(!WordList::has_cache("root", &mut store, "train"));

    let list = WordList { words: vec!["one".to_string(), "two".to_string()] };
    list.into_cache("root", &mut store, "train").unwrap();

    assert!(WordList::has_cache("root", &mut store, "train"));
    let back = WordList::from_cache("root", &mut store, "train").unwrap();
    assert_eq!(back.words, list.words);

    // The namespace is the type's own: the file sits under it.
    let cache = Cache::new("wordlist", "root", &mut store).unwrap();
    assert!(cache.key_exists(&store, "train"));
}
