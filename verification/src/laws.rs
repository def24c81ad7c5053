//! What the reconciliation guarantees, proved once and for all over the
//! abstract model: deletions are always discovered, changes are planned
//! exactly once, unchanged paths are left alone, force overrides the hash
//! comparison, and a second run over an unchanged tree plans nothing.

use crate::deploy::{
    action_of, is_plan_of, merge_spec, new_snapshot_spec, type_of, FileMode, FileType,
    FileUpdateType,
};
use vstd::prelude::*;

verus! {

/// Does the scan `visits` visit path `p`?
pub open spec fn has_path(visits: Seq<(Seq<char>, Option<Seq<char>>)>, p: Seq<char>) -> bool {
    exists|i: int| 0 <= i < visits.len() && visits[i].0 == p
}

/// The state the scan observed at `p` (the observed state, once each path is
/// visited at most once).
pub open spec fn state_of(visits: Seq<(Seq<char>, Option<Seq<char>>)>, p: Seq<char>) -> Option<
    Seq<char>,
> {
    visits[choose|i: int| 0 <= i < visits.len() && visits[i].0 == p].1
}

/// No path is visited twice: what the traversal guarantees.
pub open spec fn distinct_paths(visits: Seq<(Seq<char>, Option<Seq<char>>)>) -> bool {
    forall|i: int, j: int| 0 <= i < j < visits.len() ==> visits[i].0 != visits[j].0
}

/// The mode a visited path ends up with, stated against the prior snapshot
/// alone: unknown paths are created, known unchanged paths (without force)
/// are untouched, the rest are updated.
pub open spec fn snapshot_mode(
    snap: Map<Seq<char>, Option<Seq<char>>>,
    p: Seq<char>,
    s: Option<Seq<char>>,
    force: bool,
) -> FileMode {
    if !snap.dom().contains(p) {
        FileMode::Created
    } else if !force && snap[p] == s {
        FileMode::Untouched
    } else {
        FileMode::Updated
    }
}

/// A path the scan never visits keeps its seeded entry: its snapshot state,
/// still marked `Deleted`; a path neither tracked nor visited stays unknown.
pub proof fn lemma_merge_unvisited(
    snap: Map<Seq<char>, Option<Seq<char>>>,
    visits: Seq<(Seq<char>, Option<Seq<char>>)>,
    force: bool,
    p: Seq<char>,
)
    requires
        !has_path(visits, p),
    ensures
        merge_spec(snap, visits, force).dom().contains(p) == snap.dom().contains(p),
        snap.dom().contains(p) ==> merge_spec(snap, visits, force)[p] == (
            snap[p],
            FileMode::Deleted,
        ),
    decreases visits.len(),
{
    if visits.len() > 0 {
        let dl = visits.drop_last();
        assert(!has_path(dl, p)) by {
            if has_path(dl, p) {
                let i = choose|i: int| 0 <= i < dl.len() && dl[i].0 == p;
                assert(visits[i].0 == p);
            }
        }
        lemma_merge_unvisited(snap, dl, force, p);
        assert(visits.last().0 != p) by {
            if visits.last().0 == p {
                assert(visits[visits.len() - 1].0 == p);
            }
        }
    }
}

/// A visited path ends up with the freshly observed state, under the mode
/// that comparing it against the prior snapshot dictates.
pub proof fn lemma_merge_visited(
    snap: Map<Seq<char>, Option<Seq<char>>>,
    visits: Seq<(Seq<char>, Option<Seq<char>>)>,
    force: bool,
    p: Seq<char>,
)
    requires
        distinct_paths(visits),
        has_path(visits, p),
    ensures
        merge_spec(snap, visits, force).dom().contains(p),
        merge_spec(snap, visits, force)[p] == (
            state_of(visits, p),
            snapshot_mode(snap, p, state_of(visits, p), force),
        ),
    decreases visits.len(),
{
    let dl = visits.drop_last();
    let last = visits.last();
    let n = visits.len() - 1;
    assert(distinct_paths(dl));
    if last.0 == p {
        assert(!has_path(dl, p)) by {
            if has_path(dl, p) {
                let i = choose|i: int| 0 <= i < dl.len() && dl[i].0 == p;
                assert(visits[i].0 == p && visits[n].0 == p);
            }
        }
        lemma_merge_unvisited(snap, dl, force, p);
        assert(state_of(visits, p) == last.1) by {
            let i = choose|i: int| 0 <= i < visits.len() && visits[i].0 == p;
            assert(i == n);
        }
    } else {
        assert(has_path(dl, p)) by {
            let i = choose|i: int| 0 <= i < visits.len() && visits[i].0 == p;
            assert(i != n);
            assert(dl[i].0 == p);
        }
        lemma_merge_visited(snap, dl, force, p);
        assert(state_of(visits, p) == state_of(dl, p)) by {
            let i = choose|i: int| 0 <= i < visits.len() && visits[i].0 == p;
            let j = choose|j: int| 0 <= j < dl.len() && dl[j].0 == p;
            assert(visits[j].0 == p);
            assert(i == j);
        }
    }
}

/// The reconciled table tracks exactly the paths that were tracked before or
/// visited now.
pub proof fn lemma_merge_dom(
    snap: Map<Seq<char>, Option<Seq<char>>>,
    visits: Seq<(Seq<char>, Option<Seq<char>>)>,
    force: bool,
)
    ensures
        forall|p: Seq<char>|
            #[trigger] merge_spec(snap, visits, force).dom().contains(p) <==> (snap.dom().contains(
                p,
            ) || has_path(visits, p)),
    decreases visits.len(),
{
    if visits.len() > 0 {
        let dl = visits.drop_last();
        lemma_merge_dom(snap, dl, force);
        assert forall|p: Seq<char>|
            #[trigger] merge_spec(snap, visits, force).dom().contains(p) <==> (snap.dom().contains(
                p,
            ) || has_path(visits, p)) by {
            assert(merge_spec(snap, dl, force).dom().contains(p) <==> (snap.dom().contains(p)
                || has_path(dl, p)));
            if visits.last().0 == p {
                assert(visits[visits.len() - 1].0 == p);
            }
            if has_path(dl, p) {
                let i = choose|i: int| 0 <= i < dl.len() && dl[i].0 == p;
                assert(visits[i].0 == p);
            }
            if has_path(visits, p) && visits.last().0 != p {
                let i = choose|i: int| 0 <= i < visits.len() && visits[i].0 == p;
                assert(i != visits.len() - 1);
                assert(dl[i].0 == p);
            }
        }
    }
}

/// Completeness of deletion detection: a path tracked by the prior snapshot
/// and absent from the scan is planned as a delete of its recorded kind,
/// exactly once.
pub proof fn lemma_deletion_detected(
    snap: Map<Seq<char>, Option<Seq<char>>>,
    visits: Seq<(Seq<char>, Option<Seq<char>>)>,
    force: bool,
    p: Seq<char>,
    plan: Seq<(Seq<char>, FileType, FileUpdateType)>,
)
    requires
        snap.dom().contains(p),
        !has_path(visits, p),
        is_plan_of(plan, merge_spec(snap, visits, force)),
    ensures
        exists|i: int|
            0 <= i < plan.len() && plan[i] == (p, type_of(snap[p]), FileUpdateType::Delete),
        forall|i: int, j: int|
            0 <= i < plan.len() && 0 <= j < plan.len() && plan[i].0 == p && plan[j].0 == p ==> i
                == j,
{
    let t = merge_spec(snap, visits, force);
    lemma_merge_unvisited(snap, visits, force, p);
    assert(action_of(t[p].1) == Some(FileUpdateType::Delete));
    let i = choose|i: int| 0 <= i < plan.len() && plan[i].0 == p;
    assert(plan[i] == (p, type_of(snap[p]), FileUpdateType::Delete));
}

/// Change detection, first half: a visited path whose hash differs from the
/// prior snapshot's record is planned as a create-or-update of its observed
/// kind, exactly once.
pub proof fn lemma_change_detected(
    snap: Map<Seq<char>, Option<Seq<char>>>,
    visits: Seq<(Seq<char>, Option<Seq<char>>)>,
    p: Seq<char>,
    plan: Seq<(Seq<char>, FileType, FileUpdateType)>,
)
    requires
        distinct_paths(visits),
        has_path(visits, p),
        snap.dom().contains(p),
        snap[p] != state_of(visits, p),
        is_plan_of(plan, merge_spec(snap, visits, false)),
    ensures
        exists|i: int|
            0 <= i < plan.len() && plan[i] == (
                p,
                type_of(state_of(visits, p)),
                FileUpdateType::CreateOrUpdate,
            ),
        forall|i: int, j: int|
            0 <= i < plan.len() && 0 <= j < plan.len() && plan[i].0 == p && plan[j].0 == p ==> i
                == j,
{
    let t = merge_spec(snap, visits, false);
    lemma_merge_visited(snap, visits, false, p);
    assert(action_of(t[p].1) == Some(FileUpdateType::CreateOrUpdate));
    let i = choose|i: int| 0 <= i < plan.len() && plan[i].0 == p;
    assert(plan[i] == (p, type_of(state_of(visits, p)), FileUpdateType::CreateOrUpdate));
}

/// Change detection, second half: a visited path whose hash matches the prior
/// snapshot's record is, without force, not planned at all.
pub proof fn lemma_unchanged_not_planned(
    snap: Map<Seq<char>, Option<Seq<char>>>,
    visits: Seq<(Seq<char>, Option<Seq<char>>)>,
    p: Seq<char>,
    plan: Seq<(Seq<char>, FileType, FileUpdateType)>,
)
    requires
        distinct_paths(visits),
        has_path(visits, p),
        snap.dom().contains(p),
        snap[p] == state_of(visits, p),
        is_plan_of(plan, merge_spec(snap, visits, false)),
    ensures
        forall|i: int| 0 <= i < plan.len() ==> (#[trigger] plan[i]).0 != p,
{
    let t = merge_spec(snap, visits, false);
    lemma_merge_visited(snap, visits, false, p);
    assert(t[p].1 == FileMode::Untouched);
    assert forall|i: int| 0 <= i < plan.len() implies (#[trigger] plan[i]).0 != p by {
        if plan[i].0 == p {
            assert(action_of(t[p].1) == Some(plan[i].2));
        }
    }
}

/// Force override: with force on, every visited path is planned as a
/// create-or-update of its observed kind, whether or not its hash changed.
pub proof fn lemma_force_updates_all(
    snap: Map<Seq<char>, Option<Seq<char>>>,
    visits: Seq<(Seq<char>, Option<Seq<char>>)>,
    p: Seq<char>,
    plan: Seq<(Seq<char>, FileType, FileUpdateType)>,
)
    requires
        distinct_paths(visits),
        has_path(visits, p),
        is_plan_of(plan, merge_spec(snap, visits, true)),
    ensures
        exists|i: int|
            0 <= i < plan.len() && plan[i] == (
                p,
                type_of(state_of(visits, p)),
                FileUpdateType::CreateOrUpdate,
            ),
{
    let t = merge_spec(snap, visits, true);
    lemma_merge_visited(snap, visits, true, p);
    assert(action_of(t[p].1) == Some(FileUpdateType::CreateOrUpdate));
    let i = choose|i: int| 0 <= i < plan.len() && plan[i].0 == p;
    assert(plan[i] == (p, type_of(state_of(visits, p)), FileUpdateType::CreateOrUpdate));
}

/// Idempotence: a second run over an unchanged tree plans nothing and leaves
/// the snapshot exactly as the first run wrote it.
pub proof fn lemma_sync_idempotent(
    snap: Map<Seq<char>, Option<Seq<char>>>,
    visits: Seq<(Seq<char>, Option<Seq<char>>)>,
    plan2: Seq<(Seq<char>, FileType, FileUpdateType)>,
)
    requires
        distinct_paths(visits),
        is_plan_of(
            plan2,
            merge_spec(new_snapshot_spec(merge_spec(snap, visits, false)), visits, false),
        ),
    ensures
        plan2.len() == 0,
        new_snapshot_spec(
            merge_spec(new_snapshot_spec(merge_spec(snap, visits, false)), visits, false),
        ) == new_snapshot_spec(merge_spec(snap, visits, false)),
{
    let t1 = merge_spec(snap, visits, false);
    let s2 = new_snapshot_spec(t1);
    let t2 = merge_spec(s2, visits, false);
    lemma_merge_dom(snap, visits, false);
    lemma_merge_dom(s2, visits, false);
    assert forall|p: Seq<char>| #[trigger] s2.dom().contains(p) implies has_path(visits, p) by {
        if !has_path(visits, p) {
            lemma_merge_unvisited(snap, visits, false, p);
        }
    }
    assert forall|p: Seq<char>| has_path(visits, p) implies #[trigger] s2.dom().contains(p)
        && s2[p] == state_of(visits, p) by {
        lemma_merge_visited(snap, visits, false, p);
    }
    assert forall|p: Seq<char>| #[trigger] t2.dom().contains(p) implies t2[p].1
        == FileMode::Untouched && t2[p].0 == state_of(visits, p) by {
        assert(has_path(visits, p));
        lemma_merge_visited(s2, visits, false, p);
    }
    assert(plan2.len() == 0) by {
        if plan2.len() > 0 {
            assert(action_of(t2[plan2[0].0].1) == Some(plan2[0].2));
        }
    }
    assert forall|p: Seq<char>| #[trigger] new_snapshot_spec(t2).dom().contains(p) <==> s2
        .dom().contains(p) by {
        if has_path(visits, p) {
            lemma_merge_visited(s2, visits, false, p);
        }
    }
    assert(new_snapshot_spec(t2) =~= s2);
}

} // verus!
