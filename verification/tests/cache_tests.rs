use objcache::cache::{cache_exists, dir_decision, read_cache, write_cache, DirDecision};
use objcache::store::MemStore;
use objcache::{Cache, CacheError};

#[test]
fn resolve_builds_the_documented_path() {
    let mut store = MemStore::new();
    let cache = Cache::with_dir("vocab", "/tmp/c", true, &mut store).unwrap();
    let path = cache.resolve("train");
    assert_eq!(path, "/tmp/c/vocab-train.mpac");
}

#[test]
fn round_trip_returns_the_written_record() {
    let mut store = MemStore::new();
    let cache = Cache::with_dir("vocab", "d", true, &mut store).unwrap();
    let record: Vec<u8> = vec![1, 2, 3, 250, 0, 9];
    cache.write(&mut store, "train", &record).unwrap();
    let back = cache.read(&store, "train").unwrap();
    assert_eq!(back, record);
}

#[test]
fn round_trip_of_an_empty_record() {
    let mut store = MemStore::new();
    let cache = Cache::with_dir("n", "d", true, &mut store).unwrap();
    let record: Vec<u8> = Vec::new();
    cache.write(&mut store, "k", &record).unwrap();
    assert_eq!(cache.read(&store, "k").unwrap(), record);
}

#[test]
fn overwrite_leaves_only_the_second_record() {
    let mut store = MemStore::new();
    let cache = Cache::with_dir("vocab", "d", true, &mut store).unwrap();
    let first: Vec<u8> = vec![1, 1, 1, 1];
    let second: Vec<u8> = vec![9, 8];
    cache.write(&mut store, "train", &first).unwrap();
    cache.write(&mut store, "train", &second).unwrap();
    assert_eq!(cache.read(&store, "train").unwrap(), second);
}

#[test]
fn exists_only_after_a_write_under_that_key() {
    let mut store = MemStore::new();
    let cache = Cache::with_dir("vocab", "d", true, &mut store).unwrap();
    assert!(!cache.key_exists(&store, "train"));
    cache.write(&mut store, "other", &vec![5]).unwrap();
    assert!(!cache.key_exists(&store, "train"));
    cache.write(&mut store, "train", &vec![5]).unwrap();
    assert!(cache.key_exists(&store, "train"));
    assert!(cache.key_exists(&store, "other"));
}

#[test]
fn reading_a_missing_key_is_not_found() {
    let mut store = MemStore::new();
    let cache = Cache::with_dir("vocab", "d", true, &mut store).unwrap();
    assert_eq!(cache.read(&store, "absent"), Err(CacheError::NotFound));
}

#[test]
fn zero_record_payload_is_corrupt_not_absent() {
    let mut store = MemStore::new();
    let cache = Cache::with_dir("vocab", "d", true, &mut store).unwrap();
    let path = cache.resolve("train");
    // A payload framed for zero records: just the empty-sequence header.
    store.write_file(&path, &vec![0x90]).unwrap();
    assert!(cache.key_exists(&store, "train"));
    assert_eq!(cache.read(&store, "train"), Err(CacheError::CorruptData));
}

#[test]
fn multi_record_payload_is_corrupt() {
    let mut store = MemStore::new();
    let cache = Cache::with_dir("vocab", "d", true, &mut store).unwrap();
    let path = cache.resolve("train");
    // A payload framed for two records.
    store.write_file(&path, &vec![0x92, 0x01, 0x02]).unwrap();
    assert_eq!(cache.read(&store, "train"), Err(CacheError::CorruptData));
}

#[test]
fn empty_file_is_corrupt() {
    let mut store = MemStore::new();
    let cache = Cache::with_dir("vocab", "d", true, &mut store).unwrap();
    let path = cache.resolve("train");
    store.write_file(&path, &Vec::new()).unwrap();
    assert_eq!(cache.read(&store, "train"), Err(CacheError::CorruptData));
}

#[test]
fn missing_directory_without_autocreate_is_not_found() {
    let mut store = MemStore::new();
    let r = Cache::with_dir("vocab", "missing", false, &mut store);
    assert!(matches!(r, Err(CacheError::NotFound)));
    assert!(!store.is_dir("missing"));
}

#[test]
fn missing_directory_with_autocreate_is_created() {
    let mut store = MemStore::new();
    let r = Cache::with_dir("vocab", "missing", true, &mut store);
    assert!(r.is_ok());
    assert!(store.is_dir("missing"));
}

#[test]
fn a_file_in_the_directory_s_place_is_an_invalid_path() {
    let mut store = MemStore::new();
    store.write_file("occupied", &vec![1]).unwrap();
    let r = Cache::with_dir("vocab", "occupied", true, &mut store);
    assert!(matches!(r, Err(CacheError::InvalidPath)));
}

#[test]
fn an_existing_directory_is_bound_as_it_is() {
    let mut store = MemStore::new();
    store.create_dir("d").unwrap();
    let r = Cache::with_dir("vocab", "d", false, &mut store);
    assert!(r.is_ok());
}

#[test]
fn distinct_namespaces_never_collide() {
    let mut store = MemStore::new();
    let a = Cache::with_dir("modela", "d", true, &mut store).unwrap();
    let b = Cache::with_dir("modelb", "d", false, &mut store).unwrap();
    assert_ne!(a.resolve("train"), b.resolve("train"));
    a.write(&mut store, "train", &vec![1]).unwrap();
    b.write(&mut store, "train", &vec![2]).unwrap();
    assert_eq!(a.read(&store, "train").unwrap(), vec![1]);
    assert_eq!(b.read(&store, "train").unwrap(), vec![2]);
}

#[test]
fn writing_onto_a_directory_path_is_an_io_error() {
    let mut store = MemStore::new();
    let cache = Cache::with_dir("vocab", "d", true, &mut store).unwrap();
    let path = cache.resolve("train");
    store.create_dir(&path).unwrap();
    assert_eq!(cache.write(&mut store, "train", &vec![1]), Err(CacheError::IoError));
    assert_eq!(cache.read(&store, "train"), Err(CacheError::IoError));
}

#[test]
fn new_nests_under_the_fixed_cache_subdirectory() {
    let mut store = MemStore::new();
    let cache = Cache::new("vocab", "root", &mut store).unwrap();
    assert!(store.is_dir("root/cache"));
    assert_eq!(cache.resolve("train"), "root/cache/vocab-train.mpac");
}

#[test]
fn new_rejects_a_file_in_the_cache_root_s_place() {
    let mut store = MemStore::new();
    store.write_file("root/cache", &vec![1]).unwrap();
    let r = Cache::new("vocab", "root", &mut store);
    assert!(matches!(r, Err(CacheError::InvalidPath)));
}

#[test]
fn restart_reads_what_an_earlier_instance_wrote() {
    let mut store = MemStore::new();
    let record: Vec<u8> = vec![42, 0, 42];
    {
        let cache = Cache::new("vocab", "root", &mut store).unwrap();
        cache.write(&mut store, "train", &record).unwrap();
    }
    // A fresh, equivalent instance over the same storage.
    let cache = Cache::new("vocab", "root", &mut store).unwrap();
    assert_eq!(cache.read(&store, "train").unwrap(), record);
}

#[test]
fn free_functions_share_one_default_placement() {
    let mut store = MemStore::new();
    assert!(!cache_exists("root", &mut store, "vocab", "train"));
    write_cache("root", &mut store, "vocab", "train", &vec![7, 7]).unwrap();
    assert!(cache_exists("root", &mut store, "vocab", "train"));
    assert_eq!(read_cache("root", &mut store, "vocab", "train").unwrap(), vec![7, 7]);
    let cache = Cache::new("vocab", "root", &mut store).unwrap();
    assert_eq!(cache.read(&store, "train").unwrap(), vec![7, 7]);
}

#[test]
fn free_read_of_a_missing_key_is_not_found() {
    let mut store = MemStore::new();
    assert_eq!(read_cache("root", &mut store, "vocab", "absent"), Err(CacheError::NotFound));
}

#[test]
fn dir_decision_covers_all_four_cases() {
    assert_eq!(dir_decision(false, false, true), DirDecision::Create);
    assert_eq!(dir_decision(false, false, false), DirDecision::RejectNotFound);
    assert_eq!(dir_decision(true, true, false), DirDecision::UseExisting);
    assert_eq!(dir_decision(true, true, true), DirDecision::UseExisting);
    assert_eq!(dir_decision(true, false, true), DirDecision::RejectInvalidPath);
    assert_eq!(dir_decision(true, false, false), DirDecision::RejectInvalidPath);
}

#[test]
fn error_messages_name_the_failure() {
    assert_eq!(CacheError::NotFound.message(), "file is not found");
    assert_eq!(CacheError::InvalidPath.message(), "path is not a directory");
    assert_eq!(CacheError::IoError.message(), "i/o error");
    assert_eq!(CacheError::CorruptData.message(), "broken data");
}
