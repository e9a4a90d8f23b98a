//! An in-memory model of the flat piece of filesystem the cache touches.
//!
//! The cache only ever looks a full path up, writes a whole file, checks
//! that an entry exists, and creates a single directory.  [`MemStore`]
//! models exactly that: a map from full paths to file contents, and a set
//! of directory paths.  Every cache operation is verified against this
//! model; an unverified shell performs the same operations, call for call,
//! on a real filesystem.
//!
//! Files are kept as a last-write-wins association list, so an overwrite
//! is a push and the view is a plain [`Map`] insertion.

use vstd::prelude::*;

use crate::error::CacheError;

verus! {

/// The map described by a last-write-wins association list of files.
pub open spec fn files_map_of(entries: Seq<(String, Vec<u8>)>) -> Map<Seq<char>, Seq<u8>>
    decreases entries.len(),
{
    if entries.len() == 0 {
        Map::empty()
    } else {
        files_map_of(entries.drop_last()).insert(entries.last().0@, entries.last().1@)
    }
}

/// The set of paths described by a list of directories.
pub open spec fn dirs_set_of(dirs: Seq<String>) -> Set<Seq<char>>
    decreases dirs.len(),
{
    if dirs.len() == 0 {
        Set::empty()
    } else {
        dirs_set_of(dirs.drop_last()).insert(dirs.last()@)
    }
}

/// Whether any entry, file or directory, sits at `path` in a store whose
/// two views are `files` and `dirs`.
pub open spec fn entry_at(
    files: Map<Seq<char>, Seq<u8>>,
    dirs: Set<Seq<char>>,
    path: Seq<char>,
) -> bool {
    files.contains_key(path) || dirs.contains(path)
}

/// The value the association list holds for `path`: the last entry wins.
pub open spec fn lookup_spec(entries: Seq<(String, Vec<u8>)>, path: Seq<char>) -> Option<Seq<u8>>
    decreases entries.len(),
{
    if entries.len() == 0 {
        None
    } else if entries.last().0@ == path {
        Some(entries.last().1@)
    } else {
        lookup_spec(entries.drop_last(), path)
    }
}

/// The association-list lookup agrees with the map it describes.
pub proof fn lemma_lookup_agrees(entries: Seq<(String, Vec<u8>)>, path: Seq<char>)
    ensures
        files_map_of(entries).contains_key(path) <==> lookup_spec(entries, path) is Some,
        lookup_spec(entries, path) matches Some(v) ==> files_map_of(entries)[path] == v,
    decreases entries.len(),
{
    if entries.len() > 0 {
        lemma_lookup_agrees(entries.drop_last(), path);
    }
}

/// A path is in the described set exactly when some list entry names it.
pub proof fn lemma_dirs_set_agrees(dirs: Seq<String>, path: Seq<char>)
    ensures
        dirs_set_of(dirs).contains(path) <==> exists|i: int| 0 <= i < dirs.len() && dirs[i]@ == path,
    decreases dirs.len(),
{
    if dirs.len() > 0 {
        lemma_dirs_set_agrees(dirs.drop_last(), path);
        if exists|i: int| 0 <= i < dirs.len() && dirs[i]@ == path {
            let i = choose|i: int| 0 <= i < dirs.len() && dirs[i]@ == path;
            if i < dirs.len() - 1 {
                assert(dirs.drop_last()[i]@ == path);
            }
        }
        if dirs_set_of(dirs.drop_last()).contains(path) {
            let i = choose|i: int| 0 <= i < dirs.drop_last().len() && dirs.drop_last()[i]@ == path;
            assert(dirs[i]@ == path);
        }
    }
}

/// A flat in-memory store: whole files by full path, and directory paths.
pub struct MemStore {
    files: Vec<(String, Vec<u8>)>,
    dirs: Vec<String>,
}

impl MemStore {
    /// The file contents the store holds, by full path.
    pub closed spec fn files_view(self) -> Map<Seq<char>, Seq<u8>> {
        files_map_of(self.files@)
    }

    /// The directory paths the store holds.
    pub closed spec fn dirs_view(self) -> Set<Seq<char>> {
        dirs_set_of(self.dirs@)
    }

    /// Whether any entry, file or directory, sits at `path`.
    pub open spec fn entry_exists_spec(self, path: Seq<char>) -> bool {
        entry_at(self.files_view(), self.dirs_view(), path)
    }

    /// An empty store: no files, no directories.
    pub fn new() -> (s: MemStore)
        ensures
            s.files_view() == Map::<Seq<char>, Seq<u8>>::empty(),
            s.dirs_view() == Set::<Seq<char>>::empty(),
    {
        MemStore { files: Vec::new(), dirs: Vec::new() }
    }

    /// Looks `path` up among the files, newest entry first.
    fn file_lookup(&self, path: &String) -> (r: Option<Vec<u8>>)
        ensures
            r is Some <==> lookup_spec(self.files@, path@) is Some,
            r matches Some(v) ==> lookup_spec(self.files@, path@) == Some(v@),
    {
        let mut i: usize = self.files.len();
        assert(self.files@.take(i as int) =~= self.files@);
        while i > 0
            invariant
                i <= self.files@.len(),
                lookup_spec(self.files@.take(i as int), path@) == lookup_spec(
                    self.files@,
                    path@,
                ),
            decreases i,
        {
            i = i - 1;
            assert(self.files@.take(i + 1).last() == self.files@[i as int]);
            assert(self.files@.take(i + 1).drop_last() =~= self.files@.take(i as int));
            if String::eq(&self.files[i].0, path) {
                let found = &self.files[i].1;
                let mut out: Vec<u8> = Vec::new();
                let mut j: usize = 0;
                while j < found.len()
                    invariant
                        j <= found@.len(),
                        out@ == found@.take(j as int),
                    decreases found@.len() - j,
                {
                    out.push(found[j]);
                    j = j + 1;
                    assert(out@ =~= found@.take(j as int));
                }
                assert(found@.take(found@.len() as int) =~= found@);
                return Some(out);
            }
        }
        assert(self.files@.take(0) =~= Seq::<(String, Vec<u8>)>::empty());
        None
    }

    /// Whether `path` names a directory held by the store.
    pub fn is_dir(&self, path: &str) -> (b: bool)
        ensures
            b == self.dirs_view().contains(path@),
    {
        let owned = path.to_owned();
        let mut i: usize = 0;
        proof {
            lemma_dirs_set_agrees(self.dirs@, path@);
        }
        while i < self.dirs.len()
            invariant
                i <= self.dirs@.len(),
                owned@ == path@,
                forall|j: int| 0 <= j < i ==> self.dirs@[j]@ != path@,
                self.dirs_view().contains(path@) <==> exists|j: int|
                    0 <= j < self.dirs@.len() && self.dirs@[j]@ == path@,
            decreases self.dirs@.len() - i,
        {
            let hit = String::eq(&self.dirs[i], &owned);
            if hit {
                return true;
            }
            i = i + 1;
        }
        false
    }

    /// Whether any entry, file or directory, sits at `path`.
    pub fn entry_exists(&self, path: &str) -> (b: bool)
        ensures
            b == self.entry_exists_spec(path@),
    {
        let owned = path.to_owned();
        proof {
            lemma_lookup_agrees(self.files@, path@);
        }
        match self.file_lookup(&owned) {
            Some(_) => true,
            None => self.is_dir(path),
        }
    }

    /// Reads the whole file at `path`: absent entries report `NotFound`,
    /// a directory at that path reports `IoError`.
    pub fn read_file(&self, path: &str) -> (r: Result<Vec<u8>, CacheError>)
        ensures
            self.files_view().contains_key(path@) ==> (r matches Ok(v) && v@
                == self.files_view()[path@]),
            !self.files_view().contains_key(path@) && self.dirs_view().contains(path@) ==> r
                == Err::<Vec<u8>, CacheError>(CacheError::IoError),
            !self.entry_exists_spec(path@) ==> r == Err::<Vec<u8>, CacheError>(
                CacheError::NotFound,
            ),
    {
        let owned = path.to_owned();
        proof {
            lemma_lookup_agrees(self.files@, path@);
        }
        match self.file_lookup(&owned) {
            Some(v) => Ok(v),
            None => {
                if self.is_dir(path) {
                    Err(CacheError::IoError)
                } else {
                    Err(CacheError::NotFound)
                }
            },
        }
    }

    /// Writes the whole file at `path`, create-or-truncate: an existing
    /// file is replaced outright; a directory at that path reports
    /// `IoError` and changes nothing.
    pub fn write_file(&mut self, path: &str, data: &Vec<u8>) -> (r: Result<(), CacheError>)
        ensures
            old(self).dirs_view().contains(path@) ==> r == Err::<(), CacheError>(
                CacheError::IoError,
            ) && *final(self) == *old(self),
            !old(self).dirs_view().contains(path@) ==> r == Ok::<(), CacheError>(())
                && final(self).files_view() == old(self).files_view().insert(path@, data@)
                && final(self).dirs_view() == old(self).dirs_view(),
    {
        if self.is_dir(path) {
            return Err(CacheError::IoError);
        }
        let owned = path.to_owned();
        let mut copy: Vec<u8> = Vec::new();
        let mut j: usize = 0;
        while j < data.len()
            invariant
                j <= data@.len(),
                copy@ == data@.take(j as int),
            decreases data@.len() - j,
        {
            copy.push(data[j]);
            j = j + 1;
            assert(copy@ =~= data@.take(j as int));
        }
        assert(data@.take(data@.len() as int) =~= data@);
        self.files.push((owned, copy));
        assert(self.files@.drop_last() =~= old(self).files@);
        Ok(())
    }

    /// Creates the single directory `path`: an entry already there, file or
    /// directory, reports `IoError` and changes nothing.
    pub fn create_dir(&mut self, path: &str) -> (r: Result<(), CacheError>)
        ensures
            old(self).entry_exists_spec(path@) ==> r == Err::<(), CacheError>(CacheError::IoError)
                && *final(self) == *old(self),
            !old(self).entry_exists_spec(path@) ==> r == Ok::<(), CacheError>(())
                && final(self).dirs_view() == old(self).dirs_view().insert(path@)
                && final(self).files_view() == old(self).files_view(),
    {
        if self.entry_exists(path) {
            return Err(CacheError::IoError);
        }
        let owned = path.to_owned();
        self.dirs.push(owned);
        assert(self.dirs@.drop_last() =~= old(self).dirs@);
        Ok(())
    }
}

} // verus!
