//! The synchronization core: the mark-and-sweep walk table that reconciles a
//! fresh scan against the previous snapshot, and the planner that turns the
//! reconciled table into remote operations and into the next snapshot.

use crate::tracking::{lemma_tracking_view, FileState, FilesTracking};
use vstd::prelude::*;

verus! {

/// What one run has learned about a tracked path so far. Every path seeded
/// from the previous snapshot starts out `Deleted` ("not yet seen this run");
/// a visit overwrites that with `Created`, `Untouched` or `Updated`.
#[derive(Debug, Copy, Clone, PartialEq, Eq, Hash, Structural)]
pub enum FileMode {
    Untouched,
    Created,
    Updated,
    Deleted,
}

/// Does the walk-table entry list `s` hold an entry for path `p`?
pub open spec fn walk_has(s: Seq<(String, (FileState, FileMode))>, p: Seq<char>) -> bool {
    exists|i: int| 0 <= i < s.len() && s[i].0@ == p
}

/// An index of the entry for path `p` in `s` (the index, once keys are unique).
pub open spec fn walk_at(s: Seq<(String, (FileState, FileMode))>, p: Seq<char>) -> int {
    choose|i: int| 0 <= i < s.len() && s[i].0@ == p
}

/// The mapping a walk-table entry list stands for.
pub open spec fn walk_map_of(s: Seq<(String, (FileState, FileMode))>) -> Map<
    Seq<char>,
    (Option<Seq<char>>, FileMode),
> {
    Map::new(
        |p: Seq<char>| walk_has(s, p),
        |p: Seq<char>| (s[walk_at(s, p)].1.0@, s[walk_at(s, p)].1.1),
    )
}

/// The walk table seeded from a snapshot: every tracked path keeps its
/// recorded state and is presumed `Deleted` until a visit proves otherwise.
pub open spec fn seed_spec(snap: Map<Seq<char>, Option<Seq<char>>>) -> Map<
    Seq<char>,
    (Option<Seq<char>>, FileMode),
> {
    Map::new(|p: Seq<char>| snap.dom().contains(p), |p: Seq<char>| (snap[p], FileMode::Deleted))
}

/// The mode recorded when a visit finds path `p` in state `s` against table
/// `t`: unknown paths are `Created`; known paths are `Untouched` when the
/// state is unchanged and force is off, and `Updated` otherwise.
pub open spec fn decide_mode(
    t: Map<Seq<char>, (Option<Seq<char>>, FileMode)>,
    p: Seq<char>,
    s: Option<Seq<char>>,
    force: bool,
) -> FileMode {
    if !t.dom().contains(p) {
        FileMode::Created
    } else if !force && t[p].0 == s {
        FileMode::Untouched
    } else {
        FileMode::Updated
    }
}

/// One visit applied to the table: check the current entry, decide the mode,
/// and record the freshly observed state under it, as one step.
pub open spec fn upsert_spec(
    t: Map<Seq<char>, (Option<Seq<char>>, FileMode)>,
    p: Seq<char>,
    s: Option<Seq<char>>,
    force: bool,
) -> Map<Seq<char>, (Option<Seq<char>>, FileMode)> {
    t.insert(p, (s, decide_mode(t, p, s, force)))
}

/// The whole reconciliation: the table seeded from `snap`, then one upsert
/// per visited path, in visit order.
pub open spec fn merge_spec(
    snap: Map<Seq<char>, Option<Seq<char>>>,
    visits: Seq<(Seq<char>, Option<Seq<char>>)>,
    force: bool,
) -> Map<Seq<char>, (Option<Seq<char>>, FileMode)>
    decreases visits.len(),
{
    if visits.len() == 0 {
        seed_spec(snap)
    } else {
        upsert_spec(
            merge_spec(snap, visits.drop_last(), force),
            visits.last().0,
            visits.last().1,
            force,
        )
    }
}

/// A scan result list as abstract path/state pairs.
pub open spec fn visits_view(v: Seq<(String, FileState)>) -> Seq<(Seq<char>, Option<Seq<char>>)> {
    v.map_values(|e: (String, FileState)| (e.0@, e.1@))
}

/// The shared walk table of one run: every path the run knows about, with the
/// freshest observed state and the mode that classifies it.
pub struct FileWalk {
    entries: Vec<(String, (FileState, FileMode))>,
}

impl View for FileWalk {
    type V = Map<Seq<char>, (Option<Seq<char>>, FileMode)>;

    closed spec fn view(&self) -> Map<Seq<char>, (Option<Seq<char>>, FileMode)> {
        walk_map_of(self.entries@)
    }
}

impl FileWalk {
    /// The table's entries in storage order, as abstract values.
    pub closed spec fn entries(&self) -> Seq<(Seq<char>, Option<Seq<char>>, FileMode)> {
        self.entries@.map_values(
            |e: (String, (FileState, FileMode))| (e.0@, e.1.0@, e.1.1),
        )
    }

    /// Each path appears at most once.
    pub closed spec fn wf(&self) -> bool {
        forall|i: int, j: int|
            0 <= i < j < self.entries@.len() ==> self.entries@[i].0@ != self.entries@[j].0@
    }

    /// The table a run starts from: the previous snapshot with every path
    /// presumed `Deleted`.
    pub fn from_tracking(value: &FilesTracking) -> (w: FileWalk)
        requires
            value.wf(),
        ensures
            w.wf(),
            w@ == seed_spec(value@),
            w.entries().len() == value.entries().len(),
            forall|i: int|
                0 <= i < w.entries().len() ==> #[trigger] w.entries()[i] == (
                    value.entries()[i].0,
                    value.entries()[i].1,
                    FileMode::Deleted,
                ),
    {
        let pairs = value.pairs();
        let mut entries: Vec<(String, (FileState, FileMode))> = Vec::new();
        let n = pairs.len();
        let mut i: usize = 0;
        while i < n
            invariant
                n == pairs.len(),
                i <= n,
                entries@.len() == i,
                forall|j: int| 0 <= j < i ==> (#[trigger] entries@[j]).0@ == pairs@[j].0@
                    && entries@[j].1.0@ == pairs@[j].1@
                    && entries@[j].1.1 == FileMode::Deleted,
            decreases n - i,
        {
            let pair = &pairs[i];
            entries.push((pair.0.clone(), (pair.1.clone(), FileMode::Deleted)));
            i += 1;
        }
        let w = FileWalk { entries };
        proof {
            lemma_tracking_view(value);
            assert(w.wf()) by {
                assert forall|a: int, b: int| 0 <= a < b < w.entries@.len() implies
                    w.entries@[a].0@ != w.entries@[b].0@ by {
                    assert(value.entries()[a].0 == w.entries@[a].0@);
                    assert(value.entries()[b].0 == w.entries@[b].0@);
                }
            }
            assert forall|q: Seq<char>| walk_has(w.entries@, q) implies
                value@.dom().contains(q) && (w.entries@[walk_at(w.entries@, q)].1.0@,
                    w.entries@[walk_at(w.entries@, q)].1.1) == (value@[q], FileMode::Deleted) by {
                let j = walk_at(w.entries@, q);
                assert(value.entries()[j].0 == q);
                assert(value.entries()[j].1 == w.entries@[j].1.0@);
            }
            assert forall|q: Seq<char>| value@.dom().contains(q) implies
                walk_has(w.entries@, q) by {
                let j = choose|j: int|
                    0 <= j < value.entries().len() && value.entries()[j].0 == q;
                assert(w.entries@[j].0@ == q);
            }
            assert(w@ =~= seed_spec(value@));
        }
        w
    }

    fn find(&self, path: &String) -> (r: Option<usize>)
        ensures
            match r {
                Some(i) => i < self.entries.len() && self.entries@[i as int].0@ == path@,
                None => !walk_has(self.entries@, path@),
            },
    {
        let n = self.entries.len();
        let mut i: usize = 0;
        while i < n
            invariant
                n == self.entries.len(),
                i <= n,
                forall|j: int| 0 <= j < i ==> self.entries@[j].0@ != path@,
            decreases n - i,
        {
            if self.entries[i].0.eq(path) {
                return Some(i);
            }
            i += 1;
        }
        None
    }

    /// Record `(state, mode)` for `path`, replacing any earlier entry for the
    /// same path in place and appending a new path at the end.
    pub fn insert_update(&mut self, path: String, state: FileState, mode: FileMode)
        requires
            old(self).wf(),
        ensures
            final(self).wf(),
            final(self)@ == old(self)@.insert(path@, (state@, mode)),
            old(self)@.dom().contains(path@) ==> exists|i: int|
                0 <= i < old(self).entries().len() && (#[trigger] old(self).entries()[i]).0
                    == path@ && final(self).entries() == old(self).entries().update(
                    i,
                    (path@, state@, mode),
                ),
            !old(self)@.dom().contains(path@) ==> final(self).entries() == old(
                self,
            ).entries().push((path@, state@, mode)),
    {
        let ghost s0 = self.entries@;
        match self.find(&path) {
            Some(i) => {
                let ghost ii = i as int;
                self.entries[i] = (path, (state, mode));
                proof {
                    let s1 = self.entries@;
                    assert forall|q: Seq<char>| walk_has(s1, q) implies walk_has(s0, q) by {
                        let j = walk_at(s1, q);
                        if j == ii {
                            assert(s0[ii].0@ == q);
                        } else {
                            assert(s1[j] == s0[j]);
                        }
                    }
                    assert forall|q: Seq<char>| walk_has(s0, q) implies walk_has(s1, q) by {
                        let j = walk_at(s0, q);
                        if j == ii {
                            assert(s1[ii].0@ == q);
                        } else {
                            assert(s1[j] == s0[j]);
                        }
                    }
                    assert forall|q: Seq<char>| walk_has(s1, q) && q != s0[ii].0@ implies
                        s1[walk_at(s1, q)].1 == s0[walk_at(s0, q)].1 by {
                        let j = walk_at(s1, q);
                        assert(j != ii);
                        assert(s1[j] == s0[j]);
                        let k = walk_at(s0, q);
                        assert(k != ii);
                        assert(j == k);
                    }
                    assert(s1[walk_at(s1, s1[ii].0@)].1 == (state, mode)) by {
                        let j = walk_at(s1, s1[ii].0@);
                        assert(j == ii);
                    }
                    assert(walk_map_of(s1) =~= walk_map_of(s0).insert(s1[ii].0@, (state@, mode)));
                    assert(old(self)@.dom().contains(path@));
                    assert(old(self).entries()[ii].0 == path@);
                    assert(self.entries() =~= old(self).entries().update(
                        ii,
                        (path@, state@, mode),
                    ));
                }
            },
            None => {
                self.entries.push((path, (state, mode)));
                proof {
                    let s1 = self.entries@;
                    let ghost n0 = s0.len() as int;
                    assert forall|q: Seq<char>| walk_has(s1, q) && q != s1[n0].0@ implies
                        walk_has(s0, q) && s1[walk_at(s1, q)].1 == s0[walk_at(s0, q)].1 by {
                        let j = walk_at(s1, q);
                        assert(j != n0);
                        assert(s1[j] == s0[j]);
                        let k = walk_at(s0, q);
                        assert(j == k);
                    }
                    assert forall|q: Seq<char>| walk_has(s0, q) implies walk_has(s1, q) by {
                        let j = walk_at(s0, q);
                        assert(s1[j] == s0[j]);
                    }
                    assert(s1[walk_at(s1, s1[n0].0@)].1 == (state, mode)) by {
                        let j = walk_at(s1, s1[n0].0@);
                        if j != n0 {
                            assert(s0[j].0@ == s1[n0].0@);
                            assert(walk_has(s0, s1[n0].0@));
                        }
                    }
                    assert(walk_map_of(s1) =~= walk_map_of(s0).insert(s1[n0].0@, (state@, mode)));
                    assert(self.entries() =~= old(self).entries().push((path@, state@, mode)));
                }
            },
        }
    }

    /// One visit: look the path up, decide its mode against the current entry,
    /// and record the freshly observed state, all as one step on the table.
    pub fn update(&mut self, path: String, state: FileState, force: bool)
        requires
            old(self).wf(),
        ensures
            final(self).wf(),
            final(self)@ == upsert_spec(old(self)@, path@, state@, force),
            old(self)@.dom().contains(path@) ==> exists|i: int|
                0 <= i < old(self).entries().len() && (#[trigger] old(self).entries()[i]).0
                    == path@ && final(self).entries() == old(self).entries().update(
                    i,
                    (path@, state@, decide_mode(old(self)@, path@, state@, force)),
                ),
            !old(self)@.dom().contains(path@) ==> final(self).entries() == old(
                self,
            ).entries().push((path@, state@, FileMode::Created)),
    {
        let mode: FileMode;
        match self.find(&path) {
            Some(i) => {
                proof {
                    let j = walk_at(self.entries@, path@);
                    assert(j == i as int);
                }
                mode = if force || !self.entries[i].1.0.state_eq(&state) {
                    FileMode::Updated
                } else {
                    FileMode::Untouched
                };
            },
            None => {
                mode = FileMode::Created;
            },
        }
        self.insert_update(path, state, mode);
    }

    /// Every tracked path with the mode this run assigned it, in storage
    /// order: what the debug listing shows.
    pub fn mode_pairs(&self) -> (v: Vec<(String, FileMode)>)
        ensures
            v@.len() == self.entries().len(),
            forall|i: int|
                0 <= i < v@.len() ==> (#[trigger] v@[i]).0@ == self.entries()[i].0
                    && v@[i].1 == self.entries()[i].2,
    {
        let len = self.entries.len();
        let mut v: Vec<(String, FileMode)> = Vec::new();
        let mut i: usize = 0;
        while i < len
            invariant
                len == self.entries.len(),
                self.entries().len() == len,
                i <= len,
                v@.len() == i,
                forall|j: int|
                    0 <= j < i ==> (#[trigger] v@[j]).0@ == self.entries()[j].0
                        && v@[j].1 == self.entries()[j].2,
            decreases len - i,
        {
            let entry = &self.entries[i];
            v.push((entry.0.clone(), entry.1.1));
            i += 1;
        }
        v
    }

    /// How many of the table's entries carry mode `mode`.
    pub fn count_mode(&self, mode: FileMode) -> (n: usize)
        ensures
            n == count_mode_spec(self.entries(), mode),
    {
        let len = self.entries.len();
        let mut n: usize = 0;
        let mut i: usize = 0;
        while i < len
            invariant
                len == self.entries.len(),
                i <= len,
                self.entries().len() == len,
                n <= i,
                n == count_mode_spec(self.entries().take(i as int), mode),
                forall|j: int| 0 <= j < len ==>
                    (#[trigger] self.entries()[j]).2 == self.entries@[j].1.1,
            decreases len - i,
        {
            proof {
                let pre = self.entries().take(i as int);
                let cur = self.entries().take(i + 1 as int);
                assert(cur.drop_last() =~= pre);
                assert(cur.last() == self.entries()[i as int]);
            }
            if self.entries[i].1.1 == mode {
                n += 1;
            }
            i += 1;
        }
        proof {
            assert(self.entries().take(len as int) =~= self.entries());
        }
        n
    }
}

/// How a well-formed walk table's mapping relates to its entry list: the keys
/// are exactly the stored paths, each mapped to its stored state and mode.
proof fn lemma_walk_index(w: &FileWalk)
    requires
        w.wf(),
    ensures
        forall|j: int|
            0 <= j < w.entries@.len() ==> w@.dom().contains((#[trigger] w.entries@[j]).0@)
                && w@[w.entries@[j].0@] == (w.entries@[j].1.0@, w.entries@[j].1.1),
        forall|p: Seq<char>|
            #[trigger] w@.dom().contains(p) ==> exists|j: int|
                0 <= j < w.entries@.len() && (#[trigger] w.entries@[j]).0@ == p,
{
    let s = w.entries@;
    assert forall|j: int| 0 <= j < s.len() implies w@.dom().contains((#[trigger] s[j]).0@)
        && w@[s[j].0@] == (s[j].1.0@, s[j].1.1) by {
        assert(walk_has(s, s[j].0@));
        let k = walk_at(s, s[j].0@);
        assert(k == j);
    }
}

/// The remote action one tracked path calls for: created or updated paths are
/// pushed, deleted paths are removed, untouched paths need nothing.
pub open spec fn action_of(mode: FileMode) -> Option<FileUpdateType> {
    match mode {
        FileMode::Created => Some(FileUpdateType::CreateOrUpdate),
        FileMode::Updated => Some(FileUpdateType::CreateOrUpdate),
        FileMode::Deleted => Some(FileUpdateType::Delete),
        FileMode::Untouched => None,
    }
}

/// The kind of filesystem entry a state describes.
pub open spec fn type_of(state: Option<Seq<char>>) -> FileType {
    if state is Some {
        FileType::File
    } else {
        FileType::Directory
    }
}

/// What a correct plan for table `t` is: every plan item names a tracked path
/// whose mode calls for exactly that action on exactly that kind of entry;
/// every path whose mode calls for an action appears; and no path appears
/// twice. Plans differing only in order are equally correct, since the table
/// itself is unordered.
pub open spec fn is_plan_of(
    plan: Seq<(Seq<char>, FileType, FileUpdateType)>,
    t: Map<Seq<char>, (Option<Seq<char>>, FileMode)>,
) -> bool {
    &&& forall|i: int|
        0 <= i < plan.len() ==> t.dom().contains((#[trigger] plan[i]).0)
            && action_of(t[plan[i].0].1) == Some(plan[i].2)
            && plan[i].1 == type_of(t[plan[i].0].0)
    &&& forall|p: Seq<char>|
        #[trigger] t.dom().contains(p) && action_of(t[p].1) is Some ==> exists|i: int|
            0 <= i < plan.len() && (#[trigger] plan[i]).0 == p
    &&& forall|i: int, j: int| 0 <= i < j < plan.len() ==> plan[i].0 != plan[j].0
}

/// The remote action planned for one path.
#[derive(Debug, Copy, Clone, PartialEq, Eq, Hash, Structural)]
pub enum FileUpdateType {
    CreateOrUpdate,
    Delete,
}

impl FileUpdateType {
    /// The verb used when reporting this action.
    pub fn get_verb(&self) -> (r: &str)
        ensures
            self is CreateOrUpdate ==> r@ == "create or update"@,
            self is Delete ==> r@ == "delete"@,
    {
        match self {
            FileUpdateType::CreateOrUpdate => "create or update",
            FileUpdateType::Delete => "delete",
        }
    }
}

/// The kind of filesystem entry an update concerns.
#[derive(Debug, Copy, Clone, PartialEq, Eq, PartialOrd, Ord, Hash, Structural)]
pub enum FileType {
    File,
    Directory,
}

impl FileState {
    /// The kind of entry this state describes: files carry a hash,
    /// directories are a bare marker.
    pub fn file_type(&self) -> (t: FileType)
        ensures
            t == type_of(self@),
    {
        match self {
            FileState::File(_) => FileType::File,
            FileState::Directory => FileType::Directory,
        }
    }
}

/// One planned remote action: which path, what kind of entry, and whether it
/// is pushed or removed.
#[derive(Debug, PartialEq, Eq)]
pub struct FileUpdate {
    pub file: String,
    pub file_type: FileType,
    pub update_type: FileUpdateType,
}

impl View for FileUpdate {
    type V = (Seq<char>, FileType, FileUpdateType);

    open spec fn view(&self) -> (Seq<char>, FileType, FileUpdateType) {
        (self.file@, self.file_type, self.update_type)
    }
}

impl Clone for FileUpdate {
    fn clone(&self) -> (r: Self)
        ensures
            r@ == self@,
    {
        FileUpdate {
            file: self.file.clone(),
            file_type: self.file_type,
            update_type: self.update_type,
        }
    }
}

/// A plan as abstract values.
pub open spec fn plan_view(v: Seq<FileUpdate>) -> Seq<(Seq<char>, FileType, FileUpdateType)> {
    v.map_values(|u: FileUpdate| u@)
}

/// The plan read off a table's entries in storage order: one action per
/// entry whose mode calls for one, untouched entries dropped.
pub open spec fn plan_of_entries(s: Seq<(Seq<char>, Option<Seq<char>>, FileMode)>) -> Seq<
    (Seq<char>, FileType, FileUpdateType),
>
    decreases s.len(),
{
    if s.len() == 0 {
        Seq::<(Seq<char>, FileType, FileUpdateType)>::empty()
    } else {
        let rest = plan_of_entries(s.drop_last());
        match action_of(s.last().2) {
            None => rest,
            Some(a) => rest.push((s.last().0, type_of(s.last().1), a)),
        }
    }
}

impl FileUpdate {
    /// The sync plan: one remote action per tracked path whose mode calls for
    /// one. Untouched paths are dropped. The order follows table iteration
    /// order, which carries no meaning of its own.
    pub fn from_files(files: &FileWalk) -> (v: Vec<FileUpdate>)
        requires
            files.wf(),
        ensures
            is_plan_of(plan_view(v@), files@),
            plan_view(v@) == plan_of_entries(files.entries()),
    {
        proof {
            lemma_walk_index(files);
        }
        let ghost t = files@;
        let len = files.entries.len();
        let mut v: Vec<FileUpdate> = Vec::new();
        let mut i: usize = 0;
        while i < len
            invariant
                files.wf(),
                t == files@,
                len == files.entries.len(),
                i <= len,
                forall|j: int|
                    0 <= j < files.entries@.len() ==> t.dom().contains(
                        (#[trigger] files.entries@[j]).0@,
                    ) && t[files.entries@[j].0@] == (
                        files.entries@[j].1.0@,
                        files.entries@[j].1.1,
                    ),
                forall|a: int|
                    0 <= a < v@.len() ==> t.dom().contains((#[trigger] plan_view(v@)[a]).0)
                        && action_of(t[plan_view(v@)[a].0].1) == Some(plan_view(v@)[a].2)
                        && plan_view(v@)[a].1 == type_of(t[plan_view(v@)[a].0].0),
                forall|a: int|
                    0 <= a < v@.len() ==> exists|j: int|
                        0 <= j < i && (#[trigger] files.entries@[j]).0@
                            == (#[trigger] plan_view(v@)[a]).0,
                forall|j: int|
                    0 <= j < i && action_of((#[trigger] files.entries@[j]).1.1) is Some
                        ==> exists|a: int|
                        0 <= a < v@.len() && (#[trigger] plan_view(v@)[a]).0
                            == files.entries@[j].0@,
                forall|a: int, b: int|
                    0 <= a < b < v@.len() ==> plan_view(v@)[a].0 != plan_view(v@)[b].0,
                plan_view(v@) =~= plan_of_entries(files.entries().take(i as int)),
            decreases len - i,
        {
            let ghost v0 = v@;
            proof {
                let es = files.entries();
                assert(es.take(i + 1).drop_last() =~= es.take(i as int));
                assert(es.take(i + 1).last() == es[i as int]);
                assert(es[i as int] == (
                    files.entries@[i as int].0@,
                    files.entries@[i as int].1.0@,
                    files.entries@[i as int].1.1,
                ));
            }
            let entry = &files.entries[i];
            let update_mode: Option<FileUpdateType> = match entry.1.1 {
                FileMode::Created => Some(FileUpdateType::CreateOrUpdate),
                FileMode::Updated => Some(FileUpdateType::CreateOrUpdate),
                FileMode::Deleted => Some(FileUpdateType::Delete),
                FileMode::Untouched => None,
            };
            proof {
                assert(update_mode == action_of(files.entries@[i as int].1.1));
            }
            match update_mode {
                Some(a) => {
                    v.push(
                        FileUpdate {
                            file: entry.0.clone(),
                            file_type: entry.1.0.file_type(),
                            update_type: a,
                        },
                    );
                    proof {
                        let vl = v@.len() - 1;
                        assert(plan_view(v@) =~= plan_view(v0).push(v@[vl]@));
                        assert forall|j: int|
                            0 <= j < i + 1 && action_of(
                                (#[trigger] files.entries@[j]).1.1,
                            ) is Some implies exists|a2: int|
                            0 <= a2 < v@.len() && (#[trigger] plan_view(v@)[a2]).0
                                == files.entries@[j].0@ by {
                            if j < i {
                                let a2 = choose|a2: int|
                                    0 <= a2 < v0.len() && (#[trigger] plan_view(v0)[a2]).0
                                        == files.entries@[j].0@;
                                assert(plan_view(v@)[a2].0 == files.entries@[j].0@);
                            } else {
                                assert(plan_view(v@)[vl].0 == files.entries@[j].0@);
                            }
                        }
                    }
                },
                None => {
                },
            }
            i += 1;
        }
        proof {
            assert forall|p: Seq<char>|
                #[trigger] t.dom().contains(p) && action_of(t[p].1) is Some implies exists|a: int|
                0 <= a < plan_view(v@).len() && (#[trigger] plan_view(v@)[a]).0 == p by {
                let j = choose|j: int|
                    0 <= j < files.entries@.len() && (#[trigger] files.entries@[j]).0@ == p;
                assert(action_of(files.entries@[j].1.1) is Some);
            }
            assert(files.entries().take(len as int) =~= files.entries());
        }
        v
    }
}

/// The snapshot a finished run leaves behind: every entry of the table except
/// those still marked `Deleted`, projected down to path and state.
pub open spec fn new_snapshot_spec(t: Map<Seq<char>, (Option<Seq<char>>, FileMode)>) -> Map<
    Seq<char>,
    Option<Seq<char>>,
> {
    Map::new(
        |p: Seq<char>| t.dom().contains(p) && t[p].1 != FileMode::Deleted,
        |p: Seq<char>| t[p].0,
    )
}

/// The projection of the first `n` table entries that a finished run keeps.
spec fn project_prefix(s: Seq<(String, (FileState, FileMode))>, n: int) -> Map<
    Seq<char>,
    Option<Seq<char>>,
>
    decreases n,
{
    if n <= 0 {
        Map::empty()
    } else {
        let m = project_prefix(s, n - 1);
        if s[n - 1].1.1 != FileMode::Deleted {
            m.insert(s[n - 1].0@, s[n - 1].1.0@)
        } else {
            m
        }
    }
}

proof fn lemma_project_prefix(s: Seq<(String, (FileState, FileMode))>, n: int)
    requires
        0 <= n <= s.len(),
        forall|i: int, j: int| 0 <= i < j < s.len() ==> s[i].0@ != s[j].0@,
    ensures
        forall|j: int|
            0 <= j < n && (#[trigger] s[j]).1.1 != FileMode::Deleted ==> project_prefix(
                s,
                n,
            ).dom().contains(s[j].0@) && project_prefix(s, n)[s[j].0@] == s[j].1.0@,
        forall|p: Seq<char>|
            #[trigger] project_prefix(s, n).dom().contains(p) ==> exists|j: int|
                0 <= j < n && (#[trigger] s[j]).0@ == p && s[j].1.1 != FileMode::Deleted,
    decreases n,
{
    if n > 0 {
        lemma_project_prefix(s, n - 1);
        assert forall|j: int|
            0 <= j < n && (#[trigger] s[j]).1.1 != FileMode::Deleted implies project_prefix(
            s,
            n,
        ).dom().contains(s[j].0@) && project_prefix(s, n)[s[j].0@] == s[j].1.0@ by {
            if j < n - 1 {
                assert(s[j].0@ != s[n - 1].0@);
            }
        }
        assert forall|p: Seq<char>|
            #[trigger] project_prefix(s, n).dom().contains(p) implies exists|j: int|
            0 <= j < n && (#[trigger] s[j]).0@ == p && s[j].1.1 != FileMode::Deleted by {
            if !(s[n - 1].1.1 != FileMode::Deleted && s[n - 1].0@ == p) {
                assert(project_prefix(s, n - 1).dom().contains(p));
            }
        }
    }
}

impl FilesTracking {
    /// The next snapshot, read off a reconciled walk table: everything the
    /// run saw (or force-kept), without the paths that proved deleted.
    pub fn from_walk(files: &FileWalk) -> (t: FilesTracking)
        requires
            files.wf(),
        ensures
            t.wf(),
            t@ == new_snapshot_spec(files@),
    {
        proof {
            lemma_walk_index(files);
        }
        let len = files.entries.len();
        let mut t = FilesTracking::new();
        let mut i: usize = 0;
        while i < len
            invariant
                files.wf(),
                len == files.entries.len(),
                i <= len,
                t.wf(),
                t@ == project_prefix(files.entries@, i as int),
            decreases len - i,
        {
            let entry = &files.entries[i];
            match entry.1.1 {
                FileMode::Deleted => {
                },
                _ => {
                    t.insert(entry.0.clone(), entry.1.0.clone());
                },
            }
            i += 1;
        }
        proof {
            let s = files.entries@;
            lemma_project_prefix(s, len as int);
            assert forall|p: Seq<char>| new_snapshot_spec(files@).dom().contains(p) implies
                t@.dom().contains(p) && t@[p] == new_snapshot_spec(files@)[p] by {
                let j = choose|j: int| 0 <= j < s.len() && (#[trigger] s[j]).0@ == p;
                assert(files@[p] == (s[j].1.0@, s[j].1.1));
                assert(s[j].1.1 != FileMode::Deleted);
            }
            assert forall|p: Seq<char>| t@.dom().contains(p) implies new_snapshot_spec(
                files@,
            ).dom().contains(p) by {
                let j = choose|j: int|
                    0 <= j < len && (#[trigger] s[j]).0@ == p && s[j].1.1 != FileMode::Deleted;
                assert(files@[p] == (s[j].1.0@, s[j].1.1));
            }
            assert(t@ =~= new_snapshot_spec(files@));
        }
        t
    }
}

/// The deploy run's configuration: where to scan, how wide, and which of the
/// force / dry-run / no-upload / debug switches are on.
pub struct DeployCommand {
    pub path: Option<String>,
    pub jobs: Option<usize>,
    pub force: bool,
    pub dry: bool,
    pub no_upload: bool,
    pub debug: bool,
}

impl DeployCommand {
    /// Reconcile the scan results against the previous snapshot: seed the
    /// table from the snapshot, then apply one upsert per visited path.
    /// `visits` holds one freshly computed state per visited path.
    pub fn collect_files(
        &self,
        files_tracking: &FilesTracking,
        visits: &Vec<(String, FileState)>,
    ) -> (w: FileWalk)
        requires
            files_tracking.wf(),
        ensures
            w.wf(),
            w@ == merge_spec(files_tracking@, visits_view(visits@), self.force),
    {
        let mut w = FileWalk::from_tracking(files_tracking);
        let n = visits.len();
        let mut i: usize = 0;
        while i < n
            invariant
                n == visits.len(),
                i <= n,
                w.wf(),
                w@ == merge_spec(
                    files_tracking@,
                    visits_view(visits@).take(i as int),
                    self.force,
                ),
            decreases n - i,
        {
            let visit = &visits[i];
            w.update(visit.0.clone(), visit.1.clone(), self.force);
            proof {
                let vv = visits_view(visits@);
                assert(vv.take(i + 1 as int).drop_last() =~= vv.take(i as int));
                assert(vv.take(i + 1 as int).last() == vv[i as int]);
            }
            i += 1;
        }
        proof {
            assert(visits_view(visits@).take(n as int) =~= visits_view(visits@));
        }
        w
    }

    /// The directory this run works in: the configured path, or the current
    /// directory when none was given.
    pub fn base_path(&self) -> (r: String)
        ensures
            match self.path {
                Some(p) => r@ == p@,
                None => r@ == "."@,
            },
    {
        match &self.path {
            Some(p) => p.clone(),
            None => ".".to_owned(),
        }
    }

    /// The scan's worker count: the configured jobs value, or the host's
    /// available parallelism when none was given.
    pub fn jobs_or(&self, available: usize) -> (r: usize)
        ensures
            r == match self.jobs {
                Some(j) => j,
                None => available,
            },
    {
        match self.jobs {
            Some(j) => j,
            None => available,
        }
    }

    /// Whether this run talks to the remote store at all: only when neither
    /// dry-run nor no-upload mode is on and the plan is not empty.
    pub fn should_upload(&self, n_updates: usize) -> (r: bool)
        ensures
            r == (!self.dry && !self.no_upload && n_updates > 0),
    {
        !self.dry && !self.no_upload && n_updates > 0
    }

    /// Whether this run persists the new snapshot: dry runs leave the
    /// previous snapshot exactly as it was.
    pub fn should_persist(&self) -> (r: bool)
        ensures
            r == !self.dry,
    {
        !self.dry
    }
}

/// How many entries of `s` carry mode `mode`.
pub open spec fn count_mode_spec(
    s: Seq<(Seq<char>, Option<Seq<char>>, FileMode)>,
    mode: FileMode,
) -> nat
    decreases s.len(),
{
    if s.len() == 0 {
        0
    } else {
        count_mode_spec(s.drop_last(), mode) + if s.last().2 == mode {
            1nat
        } else {
            0nat
        }
    }
}

} // verus!
