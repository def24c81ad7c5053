//! The persisted snapshot: the last-known state of every tracked path.

use crate::errors::SyncError;
use vstd::prelude::*;

verus! {

/// The name of the per-tree ignore file the scanner respects.
pub const IGNORE_FILE_NAME: &'static str = ".ftpignore";

/// The subdirectory, relative to the base path, that holds the tracking
/// files.
pub const TRACKING_DIR: &'static str = ".ftp";

/// How tracking state is brought in and persisted: loaded from under the
/// base path with an empty fallback, and written back wholesale.
pub trait TrackingFileLoder where Self: Sized {
    fn load_or_create(base_path: &String) -> Result<Self, SyncError>;

    fn write(&self, base_path: &String) -> Result<(), SyncError>;
}

/// What every tracking-state shape names: the file it is stored under,
/// inside the tracking subdirectory.
pub trait TrackingFile {
    fn file_name() -> &'static str;
}

/// Last-known state of one tracked filesystem entry: the content hash (a hex
/// digest) for a regular file, or a bare presence marker for a directory.
#[derive(Debug, PartialEq, Eq)]
pub enum FileState {
    File(String),
    Directory,
}

impl View for FileState {
    /// A file state is abstractly the content hash it carries: `Some(hash)`
    /// for a file, `None` for a directory.
    type V = Option<Seq<char>>;

    open spec fn view(&self) -> Option<Seq<char>> {
        match self {
            FileState::File(h) => Some(h@),
            FileState::Directory => None,
        }
    }
}

impl Clone for FileState {
    fn clone(&self) -> (r: Self)
        ensures
            r@ == self@,
    {
        match self {
            FileState::File(h) => FileState::File(h.clone()),
            FileState::Directory => FileState::Directory,
        }
    }
}

impl FileState {
    /// Two states describe the same tracked content: equal hashes, or both
    /// directories. A file and a directory are never the same.
    pub fn state_eq(&self, other: &FileState) -> (r: bool)
        ensures
            r == (self@ == other@),
    {
        match (self, other) {
            (FileState::File(a), FileState::File(b)) => a.eq(b),
            (FileState::Directory, FileState::Directory) => true,
            _ => false,
        }
    }
}

/// Does the association list `s` hold an entry for path `p`?
pub open spec fn snap_has(s: Seq<(String, FileState)>, p: Seq<char>) -> bool {
    exists|i: int| 0 <= i < s.len() && s[i].0@ == p
}

/// An index of the entry for path `p` in `s` (the index, once keys are unique).
pub open spec fn snap_at(s: Seq<(String, FileState)>, p: Seq<char>) -> int {
    choose|i: int| 0 <= i < s.len() && s[i].0@ == p
}

/// The mapping an association list of path/state pairs stands for.
pub open spec fn snap_map_of(s: Seq<(String, FileState)>) -> Map<Seq<char>, Option<Seq<char>>> {
    Map::new(|p: Seq<char>| snap_has(s, p), |p: Seq<char>| s[snap_at(s, p)].1@)
}

/// The snapshot persisted between runs: each tracked relative path mapped to
/// its last-known state, one entry per path.
pub struct FilesTracking {
    files: Vec<(String, FileState)>,
}

impl View for FilesTracking {
    type V = Map<Seq<char>, Option<Seq<char>>>;

    closed spec fn view(&self) -> Map<Seq<char>, Option<Seq<char>>> {
        snap_map_of(self.files@)
    }
}

impl FilesTracking {
    /// The tracked path/state pairs in storage order, as abstract values.
    pub closed spec fn entries(&self) -> Seq<(Seq<char>, Option<Seq<char>>)> {
        self.files@.map_values(|e: (String, FileState)| (e.0@, e.1@))
    }

    /// Each path appears at most once.
    pub closed spec fn wf(&self) -> bool {
        forall|i: int, j: int|
            0 <= i < j < self.files@.len() ==> self.files@[i].0@ != self.files@[j].0@
    }

    /// An empty snapshot: nothing is tracked yet.
    pub fn new() -> (t: FilesTracking)
        ensures
            t.wf(),
            t@ == Map::<Seq<char>, Option<Seq<char>>>::empty(),
    {
        let t = FilesTracking { files: Vec::new() };
        proof {
            assert(t@ =~= Map::<Seq<char>, Option<Seq<char>>>::empty());
        }
        t
    }

    fn find(&self, path: &String) -> (r: Option<usize>)
        ensures
            match r {
                Some(i) => i < self.files.len() && self.files@[i as int].0@ == path@,
                None => !snap_has(self.files@, path@),
            },
    {
        let n = self.files.len();
        let mut i: usize = 0;
        while i < n
            invariant
                n == self.files.len(),
                i <= n,
                forall|j: int| 0 <= j < i ==> self.files@[j].0@ != path@,
            decreases n - i,
        {
            if self.files[i].0.eq(path) {
                return Some(i);
            }
            i += 1;
        }
        None
    }

    /// Record `state` for `path`, replacing any earlier entry for the same
    /// path in place and appending a new path at the end.
    pub fn insert(&mut self, path: String, state: FileState)
        requires
            old(self).wf(),
        ensures
            final(self).wf(),
            final(self)@ == old(self)@.insert(path@, state@),
            old(self)@.dom().contains(path@) ==> exists|i: int|
                0 <= i < old(self).entries().len() && (#[trigger] old(self).entries()[i]).0
                    == path@ && final(self).entries() == old(self).entries().update(
                    i,
                    (path@, state@),
                ),
            !old(self)@.dom().contains(path@) ==> final(self).entries() == old(
                self,
            ).entries().push((path@, state@)),
    {
        let ghost s0 = self.files@;
        match self.find(&path) {
            Some(i) => {
                let ghost ii = i as int;
                self.files[i] = (path, state);
                proof {
                    let s1 = self.files@;
                    assert forall|q: Seq<char>| snap_has(s1, q) implies
                        snap_has(s0, q) by {
                        let j = snap_at(s1, q);
                        if j == ii {
                            assert(s0[ii].0@ == q);
                        } else {
                            assert(s1[j] == s0[j]);
                        }
                    }
                    assert forall|q: Seq<char>| snap_has(s0, q) implies
                        snap_has(s1, q) by {
                        let j = snap_at(s0, q);
                        if j == ii {
                            assert(s1[ii].0@ == q);
                        } else {
                            assert(s1[j] == s0[j]);
                        }
                    }
                    assert forall|q: Seq<char>| snap_has(s1, q) && q != s0[ii].0@ implies
                        s1[snap_at(s1, q)].1@ == s0[snap_at(s0, q)].1@ by {
                        let j = snap_at(s1, q);
                        assert(j != ii);
                        assert(s1[j] == s0[j]);
                        let k = snap_at(s0, q);
                        assert(k != ii);
                        assert(j == k);
                    }
                    assert(s1[snap_at(s1, s1[ii].0@)].1@ == state@) by {
                        let j = snap_at(s1, s1[ii].0@);
                        assert(j == ii);
                    }
                    assert(snap_map_of(s1) =~= snap_map_of(s0).insert(s1[ii].0@, state@));
                    assert(old(self)@.dom().contains(path@));
                    assert(old(self).entries()[ii].0 == path@);
                    assert(self.entries() =~= old(self).entries().update(ii, (path@, state@)));
                }
            },
            None => {
                self.files.push((path, state));
                proof {
                    let s1 = self.files@;
                    let ghost n0 = s0.len() as int;
                    assert forall|q: Seq<char>| snap_has(s1, q) && q != s1[n0].0@ implies
                        snap_has(s0, q) && s1[snap_at(s1, q)].1@ == s0[snap_at(s0, q)].1@ by {
                        let j = snap_at(s1, q);
                        assert(j != n0);
                        assert(s1[j] == s0[j]);
                        let k = snap_at(s0, q);
                        assert(j == k);
                    }
                    assert forall|q: Seq<char>| snap_has(s0, q) implies snap_has(s1, q) by {
                        let j = snap_at(s0, q);
                        assert(s1[j] == s0[j]);
                    }
                    assert(s1[snap_at(s1, s1[n0].0@)].1@ == state@) by {
                        let j = snap_at(s1, s1[n0].0@);
                        if j != n0 {
                            assert(s0[j].0@ == s1[n0].0@);
                            assert(snap_has(s0, s1[n0].0@));
                        }
                    }
                    assert(snap_map_of(s1) =~= snap_map_of(s0).insert(path@, state@));
                    assert(self.entries() =~= old(self).entries().push((path@, state@)));
                }
            },
        }
    }

    /// The recorded state of `path`, if that path is tracked.
    pub fn get(&self, path: &String) -> (r: Option<&FileState>)
        requires
            self.wf(),
        ensures
            match r {
                Some(s) => self@.dom().contains(path@) && s@ == self@[path@],
                None => !self@.dom().contains(path@),
            },
    {
        match self.find(path) {
            Some(i) => {
                proof {
                    let j = snap_at(self.files@, path@);
                    assert(j == i as int);
                }
                Some(&self.files[i].1)
            },
            None => None,
        }
    }

    /// How many paths the snapshot tracks.
    pub fn len(&self) -> (n: usize)
        ensures
            n == self.entries().len(),
    {
        self.files.len()
    }

    /// The tracked path/state pairs, in storage order.
    pub fn pairs(&self) -> (v: Vec<(String, FileState)>)
        ensures
            v@.len() == self.entries().len(),
            forall|i: int| 0 <= i < v@.len() ==> v@[i].0@ == self.entries()[i].0
                && v@[i].1@ == self.entries()[i].1,
    {
        let n = self.files.len();
        let mut v: Vec<(String, FileState)> = Vec::new();
        let mut i: usize = 0;
        while i < n
            invariant
                n == self.files.len(),
                i <= n,
                v@.len() == i,
                forall|j: int| 0 <= j < i ==> v@[j].0@ == self.files@[j].0@
                    && v@[j].1@ == self.files@[j].1@,
            decreases n - i,
        {
            let pair = &self.files[i];
            v.push((pair.0.clone(), pair.1.clone()));
            i += 1;
        }
        v
    }
}

/// How a well-formed snapshot's mapping relates to its stored pair list:
/// the keys are exactly the stored paths, each mapped to its stored state.
pub proof fn lemma_tracking_view(t: &FilesTracking)
    requires
        t.wf(),
    ensures
        forall|i: int, j: int|
            0 <= i < j < t.entries().len() ==> t.entries()[i].0 != t.entries()[j].0,
        forall|p: Seq<char>|
            #[trigger] t@.dom().contains(p) ==> exists|i: int|
                0 <= i < t.entries().len() && (#[trigger] t.entries()[i]).0 == p,
        forall|i: int|
            0 <= i < t.entries().len() ==> t@.dom().contains((#[trigger] t.entries()[i]).0)
                && t@[t.entries()[i].0] == t.entries()[i].1,
{
    let s = t.files@;
    assert forall|p: Seq<char>| #[trigger] t@.dom().contains(p) implies exists|i: int|
        0 <= i < t.entries().len() && (#[trigger] t.entries()[i]).0 == p by {
        let j = snap_at(s, p);
        assert(t.entries()[j].0 == p);
    }
    assert forall|i: int| 0 <= i < t.entries().len() implies t@.dom().contains(
        (#[trigger] t.entries()[i]).0,
    ) && t@[t.entries()[i].0] == t.entries()[i].1 by {
        assert(s[i].0@ == t.entries()[i].0);
        assert(snap_has(s, s[i].0@));
        let j = snap_at(s, s[i].0@);
        assert(j == i);
    }
}

impl TrackingFile for FilesTracking {
    fn file_name() -> (r: &'static str)
        ensures
            r@ == "files.json"@,
    {
        "files.json"
    }
}

impl Default for FilesTracking {
    /// A fresh snapshot starts out empty.
    fn default() -> (t: Self)
        ensures
            t.wf(),
            t@ == Map::<Seq<char>, Option<Seq<char>>>::empty(),
    {
        FilesTracking::new()
    }
}

} // verus!
