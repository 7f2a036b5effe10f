//! The process-tree reaper's planning logic.  The OS process table only
//! points from a process to its parent, so the tree under a root is
//! discovered by closing over the parent relation in one snapshot; the kill
//! order puts every child before its parent, and the root is always in the
//! set, children or not.  A second pass over a fresh snapshot finds
//! runtime-named orphans whose parent was the root or already killed.
//! Performing the kills, and taking the snapshots, is the caller's work.

use vstd::prelude::*;
use crate::text::{contains_seq, contains_seq_ci, str_contains, str_contains_ci};

verus! {

/// One row of a process-table snapshot: a process, its parent when the
/// table shows one, and its executable name.
#[derive(Debug, Clone, PartialEq)]
pub struct ProcessRecord {
    pub pid: u32,
    pub parent_pid: Option<u32>,
    pub name: String,
}

pub struct ProcessRecordView {
    pub pid: u32,
    pub parent_pid: Option<u32>,
    pub name: Seq<char>,
}

impl View for ProcessRecord {
    type V = ProcessRecordView;

    open spec fn view(&self) -> ProcessRecordView {
        ProcessRecordView { pid: self.pid, parent_pid: self.parent_pid, name: self.name@ }
    }
}

impl DeepView for ProcessRecord {
    type V = ProcessRecordView;

    open spec fn deep_view(&self) -> ProcessRecordView {
        self.view()
    }
}

/// The snapshot records `child` with `parent` as its parent.
pub open spec fn has_parent(snap: Seq<ProcessRecordView>, child: u32, parent: u32) -> bool {
    exists|i: int|
        0 <= i < snap.len() && snap[i].pid == child && snap[i].parent_pid == Some(parent)
}

/// `p` is the root or reaches it through at most `fuel` parent links.
pub open spec fn reachable(snap: Seq<ProcessRecordView>, root: u32, p: u32, fuel: nat) -> bool
    decreases fuel,
{
    p == root || (fuel > 0 && exists|q: u32|
        has_parent(snap, p, q) && reachable(snap, root, q, (fuel - 1) as nat))
}

/// `p` belongs to the process tree rooted at `root`: it is the root itself
/// or a descendant through the snapshot's parent links.
pub open spec fn in_tree(snap: Seq<ProcessRecordView>, root: u32, p: u32) -> bool {
    exists|n: nat| reachable(snap, root, p, n)
}

/// The snapshot has a row for this process.
pub open spec fn is_snap_pid(snap: Seq<ProcessRecordView>, p: u32) -> bool {
    exists|k: int| 0 <= k < snap.len() && snap[k].pid == p
}

proof fn lemma_in_tree_step(snap: Seq<ProcessRecordView>, root: u32, p: u32, q: u32)
    requires
        in_tree(snap, root, q),
        has_parent(snap, p, q),
    ensures
        in_tree(snap, root, p),
{
    let n = choose|n: nat| reachable(snap, root, q, n);
    assert(reachable(snap, root, p, n + 1));
}

proof fn lemma_closure_complete(
    found: Seq<u32>,
    snap: Seq<ProcessRecordView>,
    root: u32,
    p: u32,
    n: nat,
)
    requires
        found.contains(root),
        forall|x: u32, q: u32|
            found.contains(q) && #[trigger] has_parent(snap, x, q) ==> found.contains(x),
        reachable(snap, root, p, n),
    ensures
        found.contains(p),
    decreases n,
{
    if p != root {
        let q = choose|q: u32|
            has_parent(snap, p, q) && reachable(snap, root, q, (n - 1) as nat);
        lemma_closure_complete(found, snap, root, q, (n - 1) as nat);
    }
}

proof fn lemma_contains_push(s: Seq<u32>, x: u32, y: u32)
    requires
        s.contains(y),
    ensures
        s.push(x).contains(y),
{
    let i = choose|i: int| 0 <= i < s.len() && s[i] == y;
    assert(s.push(x)[i] == y);
}

proof fn lemma_distinct_bound(found: Seq<u32>, snap: Seq<ProcessRecordView>)
    requires
        found.no_duplicates(),
        forall|j: int| 1 <= j < found.len() ==> is_snap_pid(snap, #[trigger] found[j]),
    ensures
        found.len() <= snap.len() + 1,
{
    broadcast use vstd::seq_lib::seq_to_set_is_finite;

    if found.len() >= 1 {
        let rest = found.drop_first();
        let pids = Seq::new(snap.len(), |k: int| snap[k].pid);
        assert(rest.no_duplicates()) by {
            assert forall|a: int, b: int| 0 <= a < b < rest.len() implies rest[a] != rest[b] by {
                assert(rest[a] == found[a + 1]);
                assert(rest[b] == found[b + 1]);
            }
        }
        assert(rest.to_set().subset_of(pids.to_set())) by {
            assert forall|p: u32| rest.to_set().contains(p) implies pids.to_set().contains(
                p,
            ) by {
                assert(rest.contains(p));
                let j = choose|j: int| 0 <= j < rest.len() && rest[j] == p;
                assert(found[j + 1] == p);
                assert(is_snap_pid(snap, p));
                let k = choose|k: int| 0 <= k < snap.len() && snap[k].pid == p;
                assert(pids[k] == p);
                assert(pids.contains(p));
            }
        }
        rest.unique_seq_to_set();
        pids.lemma_cardinality_of_set();
        vstd::set_lib::lemma_len_subset(rest.to_set(), pids.to_set());
    }
}

/// True exactly when `x` occurs in `v`.
pub fn contains_u32(v: &Vec<u32>, x: u32) -> (r: bool)
    ensures
        r == v@.contains(x),
{
    let mut i: usize = 0;
    while i < v.len()
        invariant
            i <= v@.len(),
            forall|j: int| 0 <= j < i ==> v@[j] != x,
        decreases v@.len() - i,
    {
        if v[i] == x {
            return true;
        }
        i = i + 1;
    }
    false
}

/// Plans the kills for the process tree rooted at `root`, from one snapshot
/// of the process table: exactly the root and its descendants, each process
/// listed before its parent, the root last — so children die first, and the
/// root is in the plan even when it has no discoverable children.
pub fn plan_kill_order(snapshot: &Vec<ProcessRecord>, root: u32) -> (order: Vec<u32>)
    ensures
        order@.len() >= 1,
        order@[order@.len() - 1] == root,
        order@.contains(root),
        order@.no_duplicates(),
        forall|p: u32| order@.contains(p) <==> in_tree(snapshot.deep_view(), root, p),
        forall|i: int|
            #![trigger order@[i]]
            0 <= i < order@.len() - 1 ==> exists|j: int|
                i < j < order@.len() && has_parent(snapshot.deep_view(), order@[i], order@[j]),
{
    let ghost snap = snapshot.deep_view();
    let mut found: Vec<u32> = Vec::new();
    found.push(root);
    proof {
        assert(reachable(snap, root, root, 0));
        assert(found@ =~= seq![root]);
    }
    let mut qi: usize = 0;
    while qi < found.len()
        invariant
            snap == snapshot.deep_view(),
            snap.len() == snapshot@.len(),
            found@.len() >= 1,
            found@[0] == root,
            found@.no_duplicates(),
            qi <= found@.len(),
            found@.len() <= snap.len() + 1,
            forall|j: int|
                #![trigger found@[j]]
                1 <= j < found@.len() ==> exists|i: int|
                    0 <= i < j && has_parent(snap, found@[j], found@[i]),
            forall|j: int| 0 <= j < found@.len() ==> in_tree(snap, root, #[trigger] found@[j]),
            forall|j: int| 1 <= j < found@.len() ==> is_snap_pid(snap, #[trigger] found@[j]),
            forall|t: int, k: int|
                #![trigger snap[k].pid, found@[t]]
                0 <= t < qi && 0 <= k < snap.len() && snap[k].parent_pid == Some(found@[t])
                    ==> found@.contains(snap[k].pid),
        decreases snap.len() + 1 - found@.len(), found@.len() - qi,
    {
        let cur: u32 = found[qi];
        let ghost len_before = found@.len();
        let mut k: usize = 0;
        while k < snapshot.len()
            invariant
                snap == snapshot.deep_view(),
                snap.len() == snapshot@.len(),
                qi < found@.len(),
                found@.len() >= 1,
                found@[0] == root,
                found@.no_duplicates(),
                found@.len() <= snap.len() + 1,
                found@.len() >= len_before,
                cur == found@[qi as int],
                k <= snap.len(),
                forall|j: int|
                    #![trigger found@[j]]
                    1 <= j < found@.len() ==> exists|i: int|
                        0 <= i < j && has_parent(snap, found@[j], found@[i]),
                forall|j: int|
                    0 <= j < found@.len() ==> in_tree(snap, root, #[trigger] found@[j]),
                forall|j: int| 1 <= j < found@.len() ==> is_snap_pid(snap, #[trigger] found@[j]),
                forall|t: int, kk: int|
                    #![trigger snap[kk].pid, found@[t]]
                    0 <= t < qi && 0 <= kk < snap.len() && snap[kk].parent_pid == Some(
                        found@[t],
                    ) ==> found@.contains(snap[kk].pid),
                forall|kk: int|
                    0 <= kk < k && snap[kk].parent_pid == Some(cur) ==> found@.contains(
                        #[trigger] snap[kk].pid,
                    ),
            decreases snap.len() - k,
        {
            let entry = &snapshot[k];
            let mut is_child = false;
            match entry.parent_pid {
                Some(pp) => {
                    if pp == cur {
                        is_child = true;
                    }
                },
                None => {},
            }
            if is_child {
                if !contains_u32(&found, entry.pid) {
                    let ghost before = found@;
                    found.push(entry.pid);
                    proof {
                        assert(snap[k as int].pid == entry.pid);
                        assert(snap[k as int].parent_pid == Some(cur));
                        assert(has_parent(snap, entry.pid, cur));
                        lemma_in_tree_step(snap, root, entry.pid, cur);
                        assert(found@ =~= before.push(entry.pid));
                        assert forall|a: int, b: int|
                            0 <= a < b < found@.len() implies found@[a] != found@[b] by {
                            if b < found@.len() - 1 {
                                assert(found@[a] == before[a]);
                                assert(found@[b] == before[b]);
                            } else {
                                assert(found@[a] == before[a]);
                                if before[a] == entry.pid {
                                    assert(before.contains(entry.pid));
                                    assert(false);
                                }
                            }
                        }
                        assert forall|j: int|
                            #![trigger found@[j]]
                            1 <= j < found@.len() implies exists|i: int|
                                0 <= i < j && has_parent(snap, found@[j], found@[i]) by {
                            if j == found@.len() - 1 {
                                assert(found@[qi as int] == cur);
                                assert(has_parent(snap, found@[j], found@[qi as int]));
                            } else {
                                assert(found@[j] == before[j]);
                                let i0 = choose|i0: int|
                                    0 <= i0 < j && has_parent(snap, before[j], before[i0]);
                                assert(found@[i0] == before[i0]);
                                assert(has_parent(snap, found@[j], found@[i0]));
                            }
                        }
                        assert forall|t: int, kk: int|
                            #![trigger snap[kk].pid, found@[t]]
                            0 <= t < qi && 0 <= kk < snap.len() && snap[kk].parent_pid == Some(
                                found@[t],
                            ) implies found@.contains(snap[kk].pid) by {
                            assert(found@[t] == before[t]);
                            assert(before.contains(snap[kk].pid));
                            lemma_contains_push(before, entry.pid, snap[kk].pid);
                        }
                        assert forall|kk: int|
                            0 <= kk < k + 1 && snap[kk].parent_pid == Some(cur)
                                implies found@.contains(#[trigger] snap[kk].pid) by {
                            if kk < k {
                                lemma_contains_push(before, entry.pid, snap[kk].pid);
                            } else {
                                assert(found@[found@.len() - 1] == snap[kk].pid);
                            }
                        }
                        lemma_distinct_bound(found@, snap);
                    }
                } else {
                    proof {
                        assert(snap[k as int].pid == entry.pid);
                    }
                }
            }
            k = k + 1;
        }
        qi = qi + 1;
    }
    let ghost disc = found@;
    proof {
        assert forall|x: u32, q: u32|
            disc.contains(q) && #[trigger] has_parent(snap, x, q) implies disc.contains(x) by {
            let t = choose|t: int| 0 <= t < disc.len() && disc[t] == q;
            let kk = choose|kk: int|
                0 <= kk < snap.len() && snap[kk].pid == x && snap[kk].parent_pid == Some(q);
            assert(snap[kk].parent_pid == Some(disc[t]));
        }
        assert(disc.contains(root)) by {
            assert(disc[0] == root);
        }
        assert forall|p: u32| disc.contains(p) <==> in_tree(snap, root, p) by {
            if in_tree(snap, root, p) {
                let n = choose|n: nat| reachable(snap, root, p, n);
                lemma_closure_complete(disc, snap, root, p, n);
            }
            if disc.contains(p) {
                let j = choose|j: int| 0 <= j < disc.len() && disc[j] == p;
            }
        }
    }
    let mut order: Vec<u32> = Vec::new();
    let mut t: usize = found.len();
    while t > 0
        invariant
            disc == found@,
            t <= disc.len(),
            disc.len() == found@.len(),
            order@.len() == disc.len() - t,
            forall|i: int| 0 <= i < order@.len() ==> order@[i] == disc[disc.len() - 1 - i],
        decreases t,
    {
        t = t - 1;
        order.push(found[t]);
    }
    proof {
        let n = disc.len() as int;
        assert(order@[n - 1] == disc[0]);
        assert(order@.contains(root)) by {
            assert(order@[n - 1] == root);
        }
        assert forall|a: int, b: int| 0 <= a < b < order@.len() implies order@[a] != order@[b] by {
            assert(order@[a] == disc[n - 1 - a]);
            assert(order@[b] == disc[n - 1 - b]);
        }
        assert forall|p: u32| order@.contains(p) <==> in_tree(snap, root, p) by {
            if order@.contains(p) {
                let i = choose|i: int| 0 <= i < order@.len() && order@[i] == p;
                assert(disc[n - 1 - i] == p);
                assert(disc.contains(p));
            }
            if in_tree(snap, root, p) {
                assert(disc.contains(p));
                let i = choose|i: int| 0 <= i < disc.len() && disc[i] == p;
                assert(order@[n - 1 - i] == p);
            }
        }
        assert forall|i: int|
            #![trigger order@[i]]
            0 <= i < order@.len() - 1 implies exists|j: int|
                i < j < order@.len() && has_parent(snap, order@[i], order@[j]) by {
            let d = n - 1 - i;
            assert(order@[i] == disc[d]);
            assert(1 <= d < disc.len());
            let i0 = choose|i0: int| 0 <= i0 < d && has_parent(snap, disc[d], disc[i0]);
            let j = n - 1 - i0;
            assert(order@[j] == disc[i0]);
            assert(has_parent(snap, order@[i], order@[j]));
        }
    }
    order
}

// ---------------------------------------------------------------------------
// The shell detection and the orphan sweep
// ---------------------------------------------------------------------------

/// Index of the first snapshot row for `pid`, or `snap.len()` if none.
pub open spec fn first_pid_row(snap: Seq<ProcessRecordView>, pid: u32) -> nat
    decreases snap.len(),
{
    if snap.len() == 0 {
        0
    } else if snap[0].pid == pid {
        0
    } else {
        (1 + first_pid_row(snap.drop_first(), pid)) as nat
    }
}

proof fn lemma_first_pid_row(snap: Seq<ProcessRecordView>, pid: u32)
    ensures
        first_pid_row(snap, pid) <= snap.len(),
        first_pid_row(snap, pid) < snap.len() ==> snap[first_pid_row(snap, pid) as int].pid
            == pid,
        forall|j: int| 0 <= j < first_pid_row(snap, pid) ==> snap[j].pid != pid,
    decreases snap.len(),
{
    if snap.len() > 0 && snap[0].pid != pid {
        lemma_first_pid_row(snap.drop_first(), pid);
        assert forall|j: int| 0 <= j < first_pid_row(snap, pid) implies snap[j].pid != pid by {
            if j > 0 {
                assert(snap.drop_first()[j - 1] == snap[j]);
            }
        }
    }
}

/// The root process runs under a shell name, so the whole process group can
/// additionally be signalled as one unit.
pub open spec fn shell_group_kill(snap: Seq<ProcessRecordView>, root: u32) -> bool {
    let i = first_pid_row(snap, root);
    i < snap.len() && (contains_seq(snap[i as int].name, seq!['b', 'a', 's', 'h'])
        || contains_seq(snap[i as int].name, seq!['s', 'h']))
}

/// Decides, from the snapshot, whether the root is a shell interpreter and
/// the whole process group should be signalled before the per-process sweep.
pub fn wants_group_kill(snapshot: &Vec<ProcessRecord>, root: u32) -> (r: bool)
    ensures
        r == shell_group_kill(snapshot.deep_view(), root),
{
    let ghost snap = snapshot.deep_view();
    let mut i: usize = 0;
    while i < snapshot.len()
        invariant
            snap == snapshot.deep_view(),
            snap.len() == snapshot@.len(),
            i <= snap.len(),
            forall|j: int| 0 <= j < i ==> snap[j].pid != root,
        decreases snap.len() - i,
    {
        if snapshot[i].pid == root {
            proof {
                lemma_first_pid_row(snap, root);
                if first_pid_row(snap, root) > i {
                    assert(snap[i as int].pid != root);
                    assert(false);
                }
                if first_pid_row(snap, root) < i {
                    assert(snap[first_pid_row(snap, root) as int].pid != root);
                    assert(false);
                }
                reveal_strlit("bash");
                reveal_strlit("sh");
                assert("bash"@ =~= seq!['b', 'a', 's', 'h']);
                assert("sh"@ =~= seq!['s', 'h']);
            }
            let name = &snapshot[i].name;
            return str_contains(name.as_str(), "bash") || str_contains(name.as_str(), "sh");
        }
        i = i + 1;
    }
    proof {
        lemma_first_pid_row(snap, root);
        if first_pid_row(snap, root) < snap.len() {
            assert(snap[first_pid_row(snap, root) as int].pid != root);
            assert(false);
        }
    }
    false
}

/// The row names a runtime or runner binary, matched without regard to
/// ASCII case, as the orphan sweep recognises them.
pub open spec fn is_runtime_name(name: Seq<char>) -> bool {
    contains_seq_ci(name, seq!['n', 'p', 'm']) || contains_seq_ci(name, seq!['n', 'o', 'd', 'e'])
}

/// A survivor of the first sweep that the second pass also kills: a
/// runtime-named process whose parent is the root or an already-killed pid.
pub open spec fn is_orphan(e: ProcessRecordView, root: u32, killed: Seq<u32>) -> bool {
    is_runtime_name(e.name) && match e.parent_pid {
        Some(q) => q == root || killed.contains(q),
        None => false,
    }
}

/// The orphans' pids, in snapshot order.
pub open spec fn orphan_pids(snap: Seq<ProcessRecordView>, root: u32, killed: Seq<u32>) -> Seq<
    u32,
>
    decreases snap.len(),
{
    if snap.len() == 0 {
        Seq::empty()
    } else {
        let rest = orphan_pids(snap.drop_last(), root, killed);
        if is_orphan(snap.last(), root, killed) {
            rest.push(snap.last().pid)
        } else {
            rest
        }
    }
}

/// From a fresh snapshot taken after the first sweep, the processes the
/// second pass kills: runtime-named survivors parented by the root or by
/// any pid of the first sweep.
pub fn find_orphans(snapshot: &Vec<ProcessRecord>, root: u32, killed: &Vec<u32>) -> (orphans:
    Vec<u32>)
    ensures
        orphans@ == orphan_pids(snapshot.deep_view(), root, killed@),
{
    let ghost snap = snapshot.deep_view();
    let mut orphans: Vec<u32> = Vec::new();
    let mut i: usize = 0;
    proof {
        assert(snap.take(0) =~= Seq::<ProcessRecordView>::empty());
        assert(orphans@ =~= orphan_pids(snap.take(0), root, killed@));
    }
    while i < snapshot.len()
        invariant
            snap == snapshot.deep_view(),
            snap.len() == snapshot@.len(),
            i <= snap.len(),
            orphans@ == orphan_pids(snap.take(i as int), root, killed@),
        decreases snap.len() - i,
    {
        let ghost prefix = snap.take(i as int);
        let ghost prefix1 = snap.take(i + 1);
        proof {
            assert(prefix1.drop_last() =~= prefix);
            assert(prefix1.last() == snap[i as int]);
            reveal_strlit("npm");
            reveal_strlit("node");
            assert("npm"@ =~= seq!['n', 'p', 'm']);
            assert("node"@ =~= seq!['n', 'o', 'd', 'e']);
        }
        let entry = &snapshot[i];
        let runtime = str_contains_ci(entry.name.as_str(), "npm") || str_contains_ci(
            entry.name.as_str(),
            "node",
        );
        let mut orphan = false;
        if runtime {
            match entry.parent_pid {
                Some(q) => {
                    if q == root || contains_u32(killed, q) {
                        orphan = true;
                    }
                },
                None => {},
            }
        }
        proof {
            assert(orphan == is_orphan(snap[i as int], root, killed@));
        }
        if orphan {
            orphans.push(entry.pid);
        }
        i = i + 1;
    }
    proof {
        assert(snap.take(snap.len() as int) =~= snap);
    }
    orphans
}

} // verus!
