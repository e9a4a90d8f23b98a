//! The cache proper: a namespace bound to a directory, with key-to-path
//! resolution, whole-file read/write of one-record payloads, and an
//! existence check.
//!
//! Every operation is specified and verified against the in-memory store
//! model ([`MemStore`]); an unverified shell performs the same calls, one
//! for one, against a real filesystem.

use vstd::prelude::*;
use vstd::string::StringExecFns;

use crate::error::CacheError;
use crate::payload::{frame, frame_spec, payload_of_records, payload_well_formed, record_of,
    unframe};
use crate::payload::lemma_frame_round_trip;
use crate::payload::lemma_wrong_count_malformed;
use crate::store::{entry_at, MemStore};

verus! {

/// The fixed extension that marks the binary serialization format.
pub const CACHE_FILE_EXT: &'static str = ".mpac";

/// The fixed subdirectory under the application data root that holds every
/// default-placed cache.
pub const CACHE_DIRNAME: &'static str = "cache";

/// The full path of the cache file for `key` in namespace `name` under `dir`.
pub open spec fn resolve_path(dir: Seq<char>, name: Seq<char>, key: Seq<char>) -> Seq<char> {
    dir + "/"@ + name + "-"@ + key + ".mpac"@
}

/// The directory a default-placed cache lives in: the application data
/// root's fixed cache subdirectory.
pub open spec fn default_cache_dir(root: Seq<char>) -> Seq<char> {
    root + "/"@ + "cache"@
}

/// What reading the whole file at `path` and unframing its one record
/// yields, over the store's two views.
pub open spec fn read_path_spec(
    files: Map<Seq<char>, Seq<u8>>,
    dirs: Set<Seq<char>>,
    path: Seq<char>,
) -> Result<Seq<u8>, CacheError> {
    if files.contains_key(path) {
        if payload_well_formed(files[path]) {
            Ok(record_of(files[path]))
        } else {
            Err(CacheError::CorruptData)
        }
    } else if dirs.contains(path) {
        Err(CacheError::IoError)
    } else {
        Err(CacheError::NotFound)
    }
}

/// How a directory request is settled from what the filesystem shows:
/// whether an entry sits at the path, whether it is a directory, and
/// whether the caller allowed creation.
#[derive(Clone, Copy, Debug, PartialEq, Eq, Structural)]
pub enum DirDecision {
    /// The directory is there: bind it.
    UseExisting,
    /// Nothing is there and creation is allowed: create it, then bind it.
    Create,
    /// Nothing is there and creation is not allowed.
    RejectNotFound,
    /// A non-directory entry occupies the path.
    RejectInvalidPath,
}

/// Settles a directory request.  This is the whole placement rule: an
/// absent path is created only on request, and a present entry must be a
/// directory.
pub fn dir_decision(entry_exists: bool, entry_is_dir: bool, auto_create: bool) -> (d: DirDecision)
    ensures
        !entry_exists && auto_create ==> d == DirDecision::Create,
        !entry_exists && !auto_create ==> d == DirDecision::RejectNotFound,
        entry_exists && entry_is_dir ==> d == DirDecision::UseExisting,
        entry_exists && !entry_is_dir ==> d == DirDecision::RejectInvalidPath,
{
    if !entry_exists {
        if auto_create {
            DirDecision::Create
        } else {
            DirDecision::RejectNotFound
        }
    } else if entry_is_dir {
        DirDecision::UseExisting
    } else {
        DirDecision::RejectInvalidPath
    }
}

/// A bound storage location for one namespace.
pub struct Cache {
    name: String,
    dir: String,
}

impl Cache {
    /// The namespace this cache serves.
    pub closed spec fn name_spec(self) -> Seq<char> {
        self.name@
    }

    /// The directory this cache stores its files in.
    pub closed spec fn dir_spec(self) -> Seq<char> {
        self.dir@
    }

    /// The path [`Cache::resolve`] returns for `key`.
    pub open spec fn resolve_spec(self, key: Seq<char>) -> Seq<char> {
        resolve_path(self.dir_spec(), self.name_spec(), key)
    }

    /// Binds namespace `name` to the explicit directory `dir`.
    ///
    /// An absent `dir` is created when `mkdir` is set and reported as
    /// `NotFound` when it is not; a non-directory entry at `dir` is
    /// reported as `InvalidPath`; an existing directory is bound as it is.
    pub fn with_dir(name: &str, dir: &str, mkdir: bool, store: &mut MemStore) -> (r: Result<
        Cache,
        CacheError,
    >)
        ensures
            r matches Ok(c) ==> c.name_spec() == name@ && c.dir_spec() == dir@,
            !old(store).entry_exists_spec(dir@) && mkdir ==> r is Ok
                && final(store).dirs_view() == old(store).dirs_view().insert(dir@)
                && final(store).files_view() == old(store).files_view(),
            !old(store).entry_exists_spec(dir@) && !mkdir ==> r == Err::<Cache, CacheError>(
                CacheError::NotFound,
            ) && *final(store) == *old(store),
            old(store).entry_exists_spec(dir@) && old(store).dirs_view().contains(dir@) ==> r is Ok
                && *final(store) == *old(store),
            old(store).entry_exists_spec(dir@) && !old(store).dirs_view().contains(dir@) ==> r
                == Err::<Cache, CacheError>(CacheError::InvalidPath) && *final(store) == *old(
                store,
            ),
    {
        let entry_exists = store.entry_exists(dir);
        let entry_is_dir = store.is_dir(dir);
        match dir_decision(entry_exists, entry_is_dir, mkdir) {
            DirDecision::Create => {
                match store.create_dir(dir) {
                    Ok(_) => Ok(Cache { name: name.to_owned(), dir: dir.to_owned() }),
                    Err(e) => Err(e),
                }
            },
            DirDecision::UseExisting => Ok(
                Cache { name: name.to_owned(), dir: dir.to_owned() },
            ),
            DirDecision::RejectNotFound => Err(CacheError::NotFound),
            DirDecision::RejectInvalidPath => Err(CacheError::InvalidPath),
        }
    }

    /// Binds namespace `name` to the default placement: the fixed cache
    /// subdirectory of the application data root `root`, created if absent.
    pub fn new(name: &str, root: &str, store: &mut MemStore) -> (r: Result<Cache, CacheError>)
        ensures
            r matches Ok(c) ==> c.name_spec() == name@ && c.dir_spec() == default_cache_dir(root@),
            !old(store).entry_exists_spec(default_cache_dir(root@)) ==> r is Ok
                && final(store).dirs_view() == old(store).dirs_view().insert(
                default_cache_dir(root@),
            ) && final(store).files_view() == old(store).files_view(),
            old(store).entry_exists_spec(default_cache_dir(root@)) && old(
                store,
            ).dirs_view().contains(default_cache_dir(root@)) ==> r is Ok && *final(store) == *old(
                store,
            ),
            old(store).entry_exists_spec(default_cache_dir(root@)) && !old(
                store,
            ).dirs_view().contains(default_cache_dir(root@)) ==> r == Err::<Cache, CacheError>(
                CacheError::InvalidPath,
            ) && *final(store) == *old(store),
    {
        let mut dir = root.to_owned();
        dir.append("/");
        dir.append(CACHE_DIRNAME);
        Cache::with_dir(name, dir.as_str(), true, store)
    }

    /// Resolves a logical key to the path of its cache file:
    /// `<dir>/<name>-<key>.mpac`.
    pub fn resolve(&self, key: &str) -> (path: String)
        ensures
            path@ == self.resolve_spec(key@),
    {
        let mut path = self.dir.clone();
        path.append("/");
        path.append(self.name.as_str());
        path.append("-");
        path.append(key);
        path.append(CACHE_FILE_EXT);
        path
    }

    /// Reads the record cached under `key`.
    pub fn read(&self, store: &MemStore, key: &str) -> (r: Result<Vec<u8>, CacheError>)
        ensures
            r matches Ok(v) ==> read_path_spec(
                store.files_view(),
                store.dirs_view(),
                self.resolve_spec(key@),
            ) == Ok::<Seq<u8>, CacheError>(v@),
            r matches Err(e) ==> read_path_spec(
                store.files_view(),
                store.dirs_view(),
                self.resolve_spec(key@),
            ) == Err::<Seq<u8>, CacheError>(e),
    {
        let path = self.resolve(key);
        self.read_from(store, path.as_str())
    }

    /// Reads the whole file at `path` and unframes its single record.
    ///
    /// An absent file reports `NotFound` and a directory `IoError`, as the
    /// filesystem would; a file whose payload is not exactly one framed
    /// record reports `CorruptData`.
    pub fn read_from(&self, store: &MemStore, path: &str) -> (r: Result<Vec<u8>, CacheError>)
        ensures
            r matches Ok(v) ==> read_path_spec(store.files_view(), store.dirs_view(), path@)
                == Ok::<Seq<u8>, CacheError>(v@),
            r matches Err(e) ==> read_path_spec(store.files_view(), store.dirs_view(), path@)
                == Err::<Seq<u8>, CacheError>(e),
    {
        match store.read_file(path) {
            Ok(payload) => unframe(&payload),
            Err(e) => Err(e),
        }
    }

    /// Caches `record` under `key`, overwriting any earlier file there.
    pub fn write(&self, store: &mut MemStore, key: &str, record: &Vec<u8>) -> (r: Result<
        (),
        CacheError,
    >)
        ensures
            old(store).dirs_view().contains(self.resolve_spec(key@)) ==> r == Err::<
                (),
                CacheError,
            >(CacheError::IoError) && *final(store) == *old(store),
            !old(store).dirs_view().contains(self.resolve_spec(key@)) ==> r == Ok::<
                (),
                CacheError,
            >(()) && final(store).files_view() == old(store).files_view().insert(
                self.resolve_spec(key@),
                frame_spec(record@),
            ) && final(store).dirs_view() == old(store).dirs_view(),
    {
        let path = self.resolve(key);
        self.write_to(store, path.as_str(), record)
    }

    /// Writes the one-record payload for `record` to the file at `path`,
    /// create-or-truncate: an existing file is fully overwritten.
    pub fn write_to(&self, store: &mut MemStore, path: &str, record: &Vec<u8>) -> (r: Result<
        (),
        CacheError,
    >)
        ensures
            old(store).dirs_view().contains(path@) ==> r == Err::<(), CacheError>(
                CacheError::IoError,
            ) && *final(store) == *old(store),
            !old(store).dirs_view().contains(path@) ==> r == Ok::<(), CacheError>(())
                && final(store).files_view() == old(store).files_view().insert(
                path@,
                frame_spec(record@),
            ) && final(store).dirs_view() == old(store).dirs_view(),
    {
        let payload = frame(record);
        store.write_file(path, &payload)
    }

    /// Whether a filesystem entry is present at the path `key` resolves to.
    /// No content validation is performed: a corrupt file still exists.
    pub fn key_exists(&self, store: &MemStore, key: &str) -> (b: bool)
        ensures
            b == store.entry_exists_spec(self.resolve_spec(key@)),
    {
        let path = self.resolve(key);
        store.entry_exists(path.as_str())
    }
}

/// Reads the record cached under `key` in namespace `prefix`, from a
/// default-placed cache under `root` (created if absent).
pub fn read_cache(root: &str, store: &mut MemStore, prefix: &str, key: &str) -> (r: Result<
    Vec<u8>,
    CacheError,
>)
    ensures
        ({
            let d = default_cache_dir(root@);
            let p = resolve_path(d, prefix@, key@);
            let blocked = old(store).entry_exists_spec(d) && !old(store).dirs_view().contains(d);
            let dirs1 = if old(store).entry_exists_spec(d) {
                old(store).dirs_view()
            } else {
                old(store).dirs_view().insert(d)
            };
            &&& blocked ==> r == Err::<Vec<u8>, CacheError>(CacheError::InvalidPath)
                && *final(store) == *old(store)
            &&& !blocked ==> {
                &&& final(store).files_view() == old(store).files_view()
                &&& final(store).dirs_view() == dirs1
                &&& (r matches Ok(v) ==> read_path_spec(old(store).files_view(), dirs1, p)
                    == Ok::<Seq<u8>, CacheError>(v@))
                &&& (r matches Err(e) ==> read_path_spec(old(store).files_view(), dirs1, p)
                    == Err::<Seq<u8>, CacheError>(e))
            }
        }),
{
    match Cache::new(prefix, root, store) {
        Ok(c) => c.read(store, key),
        Err(e) => Err(e),
    }
}

/// Caches `record` under `key` in namespace `prefix`, in a default-placed
/// cache under `root` (created if absent).
pub fn write_cache(root: &str, store: &mut MemStore, prefix: &str, key: &str, record: &Vec<
    u8,
>) -> (r: Result<(), CacheError>)
    ensures
        ({
            let d = default_cache_dir(root@);
            let p = resolve_path(d, prefix@, key@);
            let blocked = old(store).entry_exists_spec(d) && !old(store).dirs_view().contains(d);
            let dirs1 = if old(store).entry_exists_spec(d) {
                old(store).dirs_view()
            } else {
                old(store).dirs_view().insert(d)
            };
            &&& blocked ==> r == Err::<(), CacheError>(CacheError::InvalidPath) && *final(store)
                == *old(store)
            &&& !blocked && dirs1.contains(p) ==> r == Err::<(), CacheError>(CacheError::IoError)
                && final(store).files_view() == old(store).files_view()
                && final(store).dirs_view() == dirs1
            &&& !blocked && !dirs1.contains(p) ==> r == Ok::<(), CacheError>(())
                && final(store).files_view() == old(store).files_view().insert(
                p,
                frame_spec(record@),
            ) && final(store).dirs_view() == dirs1
        }),
{
    match Cache::new(prefix, root, store) {
        Ok(c) => c.write(store, key, record),
        Err(e) => Err(e),
    }
}

/// Whether an entry is cached under `key` in namespace `prefix`, in a
/// default-placed cache under `root` (created if absent).  When a
/// non-directory entry blocks the cache directory itself, nothing can be
/// cached there and the answer is false.
pub fn cache_exists(root: &str, store: &mut MemStore, prefix: &str, key: &str) -> (b: bool)
    ensures
        ({
            let d = default_cache_dir(root@);
            let p = resolve_path(d, prefix@, key@);
            let blocked = old(store).entry_exists_spec(d) && !old(store).dirs_view().contains(d);
            let dirs1 = if old(store).entry_exists_spec(d) {
                old(store).dirs_view()
            } else {
                old(store).dirs_view().insert(d)
            };
            &&& blocked ==> b == false && *final(store) == *old(store)
            &&& !blocked ==> {
                &&& final(store).files_view() == old(store).files_view()
                &&& final(store).dirs_view() == dirs1
                &&& b == entry_at(old(store).files_view(), dirs1, p)
            }
        }),
{
    match Cache::new(prefix, root, store) {
        Ok(c) => c.key_exists(store, key),
        Err(_e) => false,
    }
}

/// The capability a type gains to load itself back from a default-placed
/// cache: its own canonical namespace, a key, and the store decide.  An
/// implementation decodes the record bytes that [`read_cache`] returns,
/// passing its canonical namespace string as `prefix`.
pub trait FromCache: Sized {
    /// Loads the value cached under `key` in this type's namespace.
    fn from_cache(root: &str, store: &mut MemStore, key: &str) -> Result<Self, CacheError>;

    /// Whether a cache entry for `key` is present in this type's namespace.
    fn has_cache(root: &str, store: &mut MemStore, key: &str) -> bool;
}

/// The capability a type gains to store itself into a default-placed
/// cache.  An implementation encodes itself to record bytes and hands them
/// to [`write_cache`] under its canonical namespace string.
pub trait IntoCache {
    /// Caches this value under `key` in this type's namespace.
    fn into_cache(&self, root: &str, store: &mut MemStore, key: &str) -> Result<(), CacheError>;
}

/// Round trip: in any store, after writing `rec` under `key` — which puts
/// the one-record payload for `rec` at the resolved path — reading that
/// key back yields `rec`.
pub proof fn lemma_write_read_round_trip(
    c: Cache,
    files: Map<Seq<char>, Seq<u8>>,
    dirs: Set<Seq<char>>,
    key: Seq<char>,
    rec: Seq<u8>,
)
    ensures
        read_path_spec(
            files.insert(c.resolve_spec(key), frame_spec(rec)),
            dirs,
            c.resolve_spec(key),
        ) == Ok::<Seq<u8>, CacheError>(rec),
{
    lemma_frame_round_trip(rec);
}

/// Idempotent overwrite: writing `rec1` and then `rec2` under the same key
/// leaves a read returning `rec2`, never a mixture.
pub proof fn lemma_overwrite_takes_last(
    c: Cache,
    files: Map<Seq<char>, Seq<u8>>,
    dirs: Set<Seq<char>>,
    key: Seq<char>,
    rec1: Seq<u8>,
    rec2: Seq<u8>,
)
    ensures
        read_path_spec(
            files.insert(c.resolve_spec(key), frame_spec(rec1)).insert(
                c.resolve_spec(key),
                frame_spec(rec2),
            ),
            dirs,
            c.resolve_spec(key),
        ) == Ok::<Seq<u8>, CacheError>(rec2),
{
    lemma_frame_round_trip(rec2);
}

/// Existence consistency, first half: immediately after a write under
/// `key`, an entry sits at the resolved path.
pub proof fn lemma_exists_after_write(
    c: Cache,
    files: Map<Seq<char>, Seq<u8>>,
    dirs: Set<Seq<char>>,
    key: Seq<char>,
    rec: Seq<u8>,
)
    ensures
        entry_at(files.insert(c.resolve_spec(key), frame_spec(rec)), dirs, c.resolve_spec(key)),
{
}

/// Resolution separates keys: within one cache, distinct keys resolve to
/// distinct paths.
pub proof fn lemma_resolve_injective_in_key(c: Cache, k1: Seq<char>, k2: Seq<char>)
    requires
        k1 != k2,
    ensures
        c.resolve_spec(k1) != c.resolve_spec(k2),
{
    let pre = c.dir_spec() + "/"@ + c.name_spec() + "-"@;
    let p1 = c.resolve_spec(k1);
    let p2 = c.resolve_spec(k2);
    if p1 == p2 {
        assert(p1.len() == pre.len() + k1.len() + ".mpac"@.len());
        assert(p2.len() == pre.len() + k2.len() + ".mpac"@.len());
        assert(k1.len() == k2.len());
        assert forall|i: int| 0 <= i < k1.len() implies k1[i] == k2[i] by {
            assert(p1[pre.len() + i] == k1[i]);
            assert(p2[pre.len() + i] == k2[i]);
        }
        assert(k1 =~= k2);
        assert(false);
    }
}

/// Existence consistency, second half: a key for which no entry is present
/// still reports none after a write under any other key of the same cache.
pub proof fn lemma_exists_unaffected_by_other_keys(
    c: Cache,
    files: Map<Seq<char>, Seq<u8>>,
    dirs: Set<Seq<char>>,
    key: Seq<char>,
    other: Seq<char>,
    rec: Seq<u8>,
)
    requires
        other != key,
        !entry_at(files, dirs, c.resolve_spec(key)),
    ensures
        !entry_at(
            files.insert(c.resolve_spec(other), frame_spec(rec)),
            dirs,
            c.resolve_spec(key),
        ),
{
    lemma_resolve_injective_in_key(c, key, other);
}

/// Corruption detection: a payload framed for zero records, or for several,
/// placed directly at a key's resolved path, makes a read of that key fail
/// as corrupt — not as absent, and not as a successful decode.
pub proof fn lemma_corruption_detected(
    files: Map<Seq<char>, Seq<u8>>,
    dirs: Set<Seq<char>>,
    path: Seq<char>,
    records: Seq<Seq<u8>>,
)
    requires
        records.len() < 16,
        records.len() != 1,
    ensures
        read_path_spec(files.insert(path, payload_of_records(records)), dirs, path) == Err::<
            Seq<u8>,
            CacheError,
        >(CacheError::CorruptData),
{
    lemma_wrong_count_malformed(records);
}

/// Namespacing: two caches over the same directory with distinct namespace
/// names never collide — they resolve every key to distinct paths.
pub proof fn lemma_namespaces_never_collide(c1: Cache, c2: Cache, key: Seq<char>)
    requires
        c1.dir_spec() == c2.dir_spec(),
        c1.name_spec() != c2.name_spec(),
    ensures
        c1.resolve_spec(key) != c2.resolve_spec(key),
{
    let d = c1.dir_spec();
    let n1 = c1.name_spec();
    let n2 = c2.name_spec();
    let p1 = c1.resolve_spec(key);
    let p2 = c2.resolve_spec(key);
    if p1 == p2 {
        assert(p1.len() == d.len() + "/"@.len() + n1.len() + "-"@.len() + key.len()
            + ".mpac"@.len());
        assert(p2.len() == d.len() + "/"@.len() + n2.len() + "-"@.len() + key.len()
            + ".mpac"@.len());
        assert(n1.len() == n2.len());
        assert forall|i: int| 0 <= i < n1.len() implies n1[i] == n2[i] by {
            let j = d.len() + "/"@.len() + i;
            assert(p1[j] == n1[i]);
            assert(p2[j] == n2[i]);
        }
        assert(n1 =~= n2);
        assert(false);
    }
}

} // verus!
