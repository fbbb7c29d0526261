//! Restore snapshots: what of the multiplexer model survives a restart
//! (names, layouts, which tab was focused, and how each pane's session was
//! started) and how a model is rebuilt from it with fresh identifiers.
//! Processes are not resurrected: every restored session starts pending.

use vstd::prelude::*;
use vstd::string::StringExecFns;
use crate::keyed::{find_key, has_key, insert_by_key, keys_increasing, lemma_insert_largest, Keyed};
use crate::mux::{
    IdCounters, MuxError, Pane, PaneId, PaneRestore, Session, SessionId, SessionSpec, SessionStatus,
    TabId, TabTitleSource, WindowId, WorkspaceId,
};
use crate::mux_model::{
    find_first, find_tab, first_index_of, lemma_first_index_of, tab_ids, window_ids, workspace_ids,
    MuxModel, Tab, WindowModel, Workspace,
};
use crate::split_tree::{leaves_of, lemma_all_aligned, SplitRatio, SplitTree};
use crate::text::{all_whitespace, append_decimal, is_blank, str_eq};

verus! {

#[derive(Debug)]
pub struct RestoreSnapshot<R> {
    pub workspaces: Vec<WorkspaceRestore<R>>,
}

#[derive(Debug)]
pub struct WorkspaceRestore<R> {
    pub name: String,
    pub windows: Vec<WindowRestore<R>>,
}

#[derive(Debug)]
pub struct WindowRestore<R> {
    pub tabs: Vec<TabRestore<R>>,
    pub active_tab_name: Option<String>,
}

#[derive(Debug)]
pub struct TabRestore<R> {
    pub name: String,
    pub layout: SplitTree<R>,
    pub active_pane: PaneId,
    pub panes: Vec<PaneRestore>,
}

/// The error for a snapshot that cannot be restored.
fn invalid(message: &str) -> (r: MuxError)
    ensures
        r matches MuxError::InvalidSnapshot(text) && text@ == message@,
{
    MuxError::InvalidSnapshot(message.to_owned())
}

/// The snapshot identifiers that a renaming maps, in order.
pub open spec fn renamed_from(pane_ids: Seq<(PaneId, PaneId)>) -> Seq<u64> {
    Seq::new(pane_ids.len(), |k: int| pane_ids[k].0.0)
}

/// The renaming maps `old`.
pub open spec fn renames(pane_ids: Seq<(PaneId, PaneId)>, old: PaneId) -> bool {
    first_index_of(renamed_from(pane_ids), old.0) >= 0
}

/// The new identifier for `old`: the first pair that maps it decides.
pub open spec fn renamed(pane_ids: Seq<(PaneId, PaneId)>, old: PaneId) -> PaneId {
    pane_ids[first_index_of(renamed_from(pane_ids), old.0)].1
}

/// The sequence with every identifier renamed.
pub open spec fn renamed_all(ids: Seq<PaneId>, pane_ids: Seq<(PaneId, PaneId)>) -> Seq<PaneId> {
    Seq::new(ids.len(), |i: int| renamed(pane_ids, ids[i]))
}

/// The new identifier that a snapshot's pane identifier was given, if any.
fn mapped_pane(pane_ids: &Vec<(PaneId, PaneId)>, old: PaneId) -> (r: Option<PaneId>)
    ensures
        r == (if renames(pane_ids@, old) { Some(renamed(pane_ids@, old)) } else { None::<PaneId> }),
{
    let mut keys: Vec<u64> = Vec::new();
    let mut i: usize = 0;
    while i < pane_ids.len()
        invariant
            0 <= i <= pane_ids.len(),
            keys@ == renamed_from(pane_ids@).take(i as int),
        decreases pane_ids.len() - i,
    {
        keys.push(pane_ids[i].0.0);
        i = i + 1;
        proof {
            assert(keys@ =~= renamed_from(pane_ids@).take(i as int));
        }
    }
    proof {
        assert(renamed_from(pane_ids@).take(i as int) =~= renamed_from(pane_ids@));
        lemma_first_index_of(renamed_from(pane_ids@), old.0);
    }
    match find_first(&keys, old.0) {
        Some(k) => Some(pane_ids[k].1),
        None => None,
    }
}

/// Trees whose panes are renamed position by position give renamed panes.
proof fn lemma_leaves_of_renamed<R>(a: Seq<SplitTree<R>>, b: Seq<SplitTree<R>>, pane_ids: Seq<(PaneId, PaneId)>)
    requires
        a.len() == b.len(),
        forall|k: int| 0 <= k < a.len() ==> #[trigger] b[k].leaves() == renamed_all(a[k].leaves(), pane_ids),
    ensures
        leaves_of(b) == renamed_all(leaves_of(a), pane_ids),
    decreases a.len(),
{
    if a.len() == 0 {
        assert(renamed_all(leaves_of(a), pane_ids) =~= Seq::<PaneId>::empty());
    } else {
        assert forall|k: int| 0 <= k < a.drop_last().len() implies
            #[trigger] b.drop_last()[k].leaves() == renamed_all(a.drop_last()[k].leaves(), pane_ids) by {
            assert(a.drop_last()[k] == a[k]);
            assert(b.drop_last()[k] == b[k]);
        }
        lemma_leaves_of_renamed(a.drop_last(), b.drop_last(), pane_ids);
        assert(b.last().leaves() == renamed_all(a.last().leaves(), pane_ids));
        let x = leaves_of(a.drop_last());
        let y = a.last().leaves();
        assert(renamed_all(x + y, pane_ids) =~= renamed_all(x, pane_ids) + renamed_all(y, pane_ids));
    }
}

/// A layout that restores over the snapshot pane identifiers `ids`: every
/// pane is one of them, and every split has two children or more, a ratio for
/// each, and only usable ratios.
pub open spec fn layout_restorable<R: SplitRatio>(tree: SplitTree<R>, ids: Seq<u64>) -> bool
    decreases tree,
{
    match tree {
        SplitTree::Pane(p) => ids.contains(p.0),
        SplitTree::Split { children, ratios, .. } => {
            &&& children.len() >= 2
            &&& children.len() == ratios.len()
            &&& forall|k: int| 0 <= k < ratios.len() ==> #[trigger] ratios@[k].usable()
            &&& layouts_restorable(children@, ids)
        },
    }
}

/// Every layout of the sequence restores over `ids`.
pub open spec fn layouts_restorable<R: SplitRatio>(trees: Seq<SplitTree<R>>, ids: Seq<u64>) -> bool
    decreases trees,
{
    trees.len() == 0 || (layouts_restorable(trees.drop_last(), ids) && layout_restorable(trees.last(), ids))
}

proof fn lemma_layouts_restorable<R: SplitRatio>(trees: Seq<SplitTree<R>>, ids: Seq<u64>)
    requires
        layouts_restorable(trees, ids),
    ensures
        forall|k: int| 0 <= k < trees.len() ==> #[trigger] layout_restorable(trees[k], ids),
    decreases trees.len(),
{
    if trees.len() > 0 {
        lemma_layouts_restorable(trees.drop_last(), ids);
        assert forall|k: int| 0 <= k < trees.len() implies #[trigger] layout_restorable(trees[k], ids) by {
            if k < trees.len() - 1 {
                assert(trees[k] == trees.drop_last()[k]);
            }
        }
    }
}

/// The layout with every pane renamed through `pane_ids`, checked: every
/// pane must be renamed, and every split needs two children or more, a
/// ratio for each, and only usable ratios. Each rebuilt split is normalized.
#[verifier::loop_isolation(false)]
pub fn remap_split_tree<R: SplitRatio>(tree: &SplitTree<R>, pane_ids: &Vec<(PaneId, PaneId)>) -> (r: Result<SplitTree<R>, MuxError>)
    ensures
        r is Err ==> r->Err_0 is InvalidSnapshot,
        r is Ok ==> r->Ok_0.aligned() && r->Ok_0.is_normal(),
        r is Ok ==> r->Ok_0.leaves() == renamed_all(tree.leaves(), pane_ids@),
        r is Ok ==> forall|i: int| 0 <= i < tree.leaves().len() ==> #[trigger] renames(pane_ids@, tree.leaves()[i]),
        layout_restorable(*tree, renamed_from(pane_ids@)) ==> r is Ok,
    decreases tree,
{
    match tree {
        SplitTree::Pane(old) => {
            proof {
                lemma_first_index_of(renamed_from(pane_ids@), old.0);
            }
            match mapped_pane(pane_ids, *old) {
                Some(new_id) => {
                    let restored = SplitTree::Pane(new_id);
                    proof {
                        assert(tree.leaves() =~= seq![*old]);
                        assert(restored.leaves() =~= seq![new_id]);
                        assert(renamed_all(tree.leaves(), pane_ids@) =~= seq![new_id]);
                    }
                    Ok(restored)
                },
                None => {
                    let mut message = "layout references missing pane PaneId(".to_owned();
                    append_decimal(&mut message, old.0);
                    message.append(")");
                    Err(MuxError::InvalidSnapshot(message))
                },
            }
        },
        SplitTree::Split { axis, children, ratios } => {
            if children.len() < 2 || children.len() != ratios.len() || !all_usable(ratios) {
                return Err(invalid("split children and ratios are inconsistent"));
            }
            proof {
                if layout_restorable(*tree, renamed_from(pane_ids@)) {
                    lemma_layouts_restorable(children@, renamed_from(pane_ids@));
                }
            }
            let mut remapped: Vec<SplitTree<R>> = Vec::new();
            let mut i: usize = 0;
            while i < children.len()
                invariant
                    0 <= i <= children.len(),
                    remapped.len() == i,
                    forall|k: int| 0 <= k < i ==> #[trigger] remapped@[k].aligned(),
                    forall|k: int| 0 <= k < i ==> #[trigger] remapped@[k].leaves() == renamed_all(children@[k].leaves(), pane_ids@),
                    forall|k: int, j: int| 0 <= k < i && 0 <= j < children@[k].leaves().len() ==>
                        #[trigger] renames(pane_ids@, children@[k].leaves()[j]),
                decreases children.len() - i,
            {
                match remap_split_tree(&children[i], pane_ids) {
                    Ok(child) => {
                        remapped.push(child);
                    },
                    Err(error) => {
                        return Err(error);
                    },
                }
                i = i + 1;
            }
            let mut weights: Vec<R> = Vec::new();
            let mut j: usize = 0;
            while j < ratios.len()
                invariant
                    0 <= j <= ratios.len(),
                    weights.len() == j,
                decreases ratios.len() - j,
            {
                weights.push(ratios[j]);
                j = j + 1;
            }
            proof {
                lemma_all_aligned(remapped@);
                lemma_leaves_of_renamed(children@, remapped@, pane_ids@);
                assert forall|p: int| 0 <= p < tree.leaves().len() implies #[trigger] renames(pane_ids@, tree.leaves()[p]) by {
                    lemma_leaves_of_in_child(children@, p);
                    let (k, j) = choose|k: int, j: int| 0 <= k < children@.len() && 0 <= j < children@[k].leaves().len()
                        && children@[k].leaves()[j] == leaves_of(children@)[p];
                    assert(renames(pane_ids@, children@[k].leaves()[j]));
                }
            }
            let mut restored = SplitTree::Split { axis: *axis, children: remapped, ratios: weights };
            restored.normalize();
            Ok(restored)
        },
    }
}

/// A copy of an optional text.
fn copy_text(text: &Option<String>) -> (r: Option<String>)
    ensures
        r == *text,
{
    match text {
        Some(value) => Some(value.clone()),
        None => None,
    }
}

/// The snapshot identifiers of a tab's panes, in order.
pub open spec fn snapshot_pane_ids(panes: Seq<PaneRestore>) -> Seq<u64> {
    Seq::new(panes.len(), |k: int| panes[k].pane_id.0)
}

/// What keeps a tab snapshot from being restored, apart from its layout:
/// no panes, a pane whose session profile is blank, or two panes with one
/// identifier.
pub open spec fn tab_snapshot_defect<R>(restore: TabRestore<R>) -> bool {
    ||| restore.panes.len() == 0
    ||| exists|k: int| 0 <= k < restore.panes.len() && #[trigger] all_whitespace(restore.panes@[k].session_profile@)
    ||| !snapshot_pane_ids(restore.panes@).no_duplicates()
}

/// A tab snapshot that restores: nothing keeps it from being restored (see
/// `tab_snapshot_defect`), its layout restores over its panes' identifiers,
/// and the layout names every pane exactly once.
pub open spec fn restorable_tab<R: SplitRatio>(restore: TabRestore<R>) -> bool {
    &&& !tab_snapshot_defect(restore)
    &&& layout_restorable(restore.layout, snapshot_pane_ids(restore.panes@))
    &&& restore.layout.leaves().no_duplicates()
    &&& forall|k: int| 0 <= k < restore.panes.len() ==> #[trigger] restore.layout.leaves().contains(restore.panes@[k].pane_id)
}

/// Every tab of the window restores.
pub open spec fn restorable_window<R: SplitRatio>(window: WindowRestore<R>) -> bool {
    forall|t: int| 0 <= t < window.tabs.len() ==> #[trigger] restorable_tab(window.tabs@[t])
}

/// Every tab of the workspace restores.
pub open spec fn restorable_workspace<R: SplitRatio>(workspace: WorkspaceRestore<R>) -> bool {
    forall|n: int| 0 <= n < workspace.windows.len() ==> #[trigger] restorable_window(workspace.windows@[n])
}

/// Every tab of the snapshot restores.
pub open spec fn restorable_snapshot<R: SplitRatio>(snapshot: RestoreSnapshot<R>) -> bool {
    forall|w: int| 0 <= w < snapshot.workspaces.len() ==> #[trigger] restorable_workspace(snapshot.workspaces@[w])
}

/// The panes of `tab` are exactly the leaves of its layout, each once.
pub open spec fn layout_covers_panes<R>(tab: Tab<R>) -> bool {
    &&& tab.root.leaves().no_duplicates()
    &&& forall|i: int| 0 <= i < tab.root.leaves().len() ==> #[trigger] has_key(tab.panes@, tab.root.leaves()[i].0)
    &&& forall|k: int| 0 <= k < tab.panes.len() ==> #[trigger] tab.root.leaves().contains(tab.panes@[k].id)
}

/// `tab` was rebuilt from `restore`: same name and pane count, a fresh
/// pending session for every pane, and a normal layout holding each pane
/// once.
pub open spec fn restored_tab<R>(restore: TabRestore<R>, tab: Tab<R>) -> bool {
    &&& tab.wf()
    &&& tab.name@ == restore.name@
    &&& tab.title_source == TabTitleSource::Default
    &&& tab.zoomed_pane is None
    &&& tab.panes.len() == restore.panes.len()
    &&& tab.sessions.len() == restore.panes.len()
    &&& tab.root.is_normal()
    &&& tab.root.leaves().len() == restore.layout.leaves().len()
    &&& layout_covers_panes(tab)
    &&& has_key(tab.panes@, tab.active_pane.0)
    &&& forall|k: int| 0 <= k < tab.sessions.len() ==> (#[trigger] tab.sessions@[k]).status is Pending
}

/// Whether every leaf is one of the panes, each pane is a leaf, and no leaf
/// repeats.
fn layout_matches_panes(leaves: &Vec<PaneId>, panes: &Vec<Pane>) -> (r: bool)
    ensures
        r == (leaves@.no_duplicates()
            && (forall|i: int| 0 <= i < leaves.len() ==> #[trigger] has_key(panes@, leaves@[i].0))
            && (forall|k: int| 0 <= k < panes.len() ==> #[trigger] leaves@.contains(panes@[k].id))),
{
    let mut i: usize = 0;
    while i < leaves.len()
        invariant
            0 <= i <= leaves.len(),
            forall|a: int, b: int| 0 <= a < b < leaves.len() && a < i ==> leaves@[a] != leaves@[b],
            forall|a: int| 0 <= a < i ==> #[trigger] has_key(panes@, leaves@[a].0),
        decreases leaves.len() - i,
    {
        let mut j: usize = i + 1;
        while j < leaves.len()
            invariant
                i < leaves.len(),
                i + 1 <= j <= leaves.len(),
                forall|b: int| i < b < j ==> leaves@[i as int] != leaves@[b],
            decreases leaves.len() - j,
        {
            if leaves[i].0 == leaves[j].0 {
                return false;
            }
            j = j + 1;
        }
        if !crate::mux_model::contains_pane_id(panes, leaves[i]) {
            return false;
        }
        i = i + 1;
    }
    let mut k: usize = 0;
    while k < panes.len()
        invariant
            0 <= k <= panes.len(),
            leaves@.no_duplicates(),
            forall|a: int| 0 <= a < leaves.len() ==> #[trigger] has_key(panes@, leaves@[a].0),
            forall|c: int| 0 <= c < k ==> #[trigger] leaves@.contains(panes@[c].id),
        decreases panes.len() - k,
    {
        let mut found = false;
        let mut j: usize = 0;
        while j < leaves.len()
            invariant
                k < panes.len(),
                0 <= j <= leaves.len(),
                found == exists|b: int| 0 <= b < j && leaves@[b] == panes@[k as int].id,
            decreases leaves.len() - j,
        {
            if leaves[j].0 == panes[k].id.0 {
                found = true;
            }
            j = j + 1;
        }
        if !found {
            proof {
                assert(!leaves@.contains(panes@[k as int].id));
            }
            return false;
        }
        k = k + 1;
    }
    true
}

/// A tab rebuilt from its snapshot with fresh identifiers from `counters`:
/// each pane gets a pending session that starts like `fallback_session`
/// but with the pane's own profile, transport, and working directory, the
/// layout is renamed and checked, and the focus goes back to the recorded
/// pane, or else to the layout's first pane.
pub fn restore_tab<R: SplitRatio>(restore: &TabRestore<R>, counters: &mut IdCounters, fallback_session: &SessionSpec) -> (r: Result<Tab<R>, MuxError>)
    requires
        old(counters).tab < u64::MAX,
        old(counters).pane + restore.panes.len() < u64::MAX,
        old(counters).session + restore.panes.len() < u64::MAX,
    ensures
        r is Err ==> r->Err_0 is InvalidSnapshot,
        tab_snapshot_defect(*restore) ==> r is Err,
        restorable_tab(*restore) ==> r is Ok,
        r is Ok ==> restored_tab(*restore, r->Ok_0) && r->Ok_0.id == TabId(old(counters).tab),
        final(counters).workspace == old(counters).workspace,
        final(counters).window == old(counters).window,
        old(counters).tab <= final(counters).tab <= old(counters).tab + 1,
        old(counters).pane <= final(counters).pane <= old(counters).pane + restore.panes.len(),
        old(counters).session <= final(counters).session <= old(counters).session + restore.panes.len(),
{
    if restore.panes.len() == 0 {
        return Err(invalid("tab contains no panes"));
    }
    let tab_id = counters.next_tab();
    let mut pane_ids: Vec<(PaneId, PaneId)> = Vec::new();
    let mut panes: Vec<Pane> = Vec::new();
    let mut sessions: Vec<Session> = Vec::new();
    let ghost start = *counters;
    let mut i: usize = 0;
    while i < restore.panes.len()
        invariant
            0 <= i <= restore.panes.len(),
            start.workspace == old(counters).workspace,
            start.window == old(counters).window,
            start.tab == old(counters).tab + 1,
            start.pane == old(counters).pane,
            start.session == old(counters).session,
            counters.workspace == start.workspace,
            counters.window == start.window,
            counters.tab == start.tab,
            counters.pane == start.pane + i,
            counters.session == start.session + i,
            start.pane + restore.panes.len() < u64::MAX,
            start.session + restore.panes.len() < u64::MAX,
            pane_ids.len() == i,
            panes.len() == i,
            sessions.len() == i,
            keys_increasing(panes@),
            keys_increasing(sessions@),
            forall|k: int| 0 <= k < i ==> #[trigger] pane_ids@[k].0 == restore.panes@[k].pane_id,
            renamed_from(pane_ids@) == snapshot_pane_ids(restore.panes@).take(i as int),
            forall|k: int| 0 <= k < i ==> !#[trigger] all_whitespace(restore.panes@[k].session_profile@),
            snapshot_pane_ids(restore.panes@).take(i as int).no_duplicates(),
            forall|k: int| 0 <= k < panes.len() ==> #[trigger] panes@[k].id.0 < counters.pane,
            forall|k: int| 0 <= k < sessions.len() ==> #[trigger] sessions@[k].id.0 < counters.session,
            forall|k: int| 0 <= k < sessions.len() ==> (#[trigger] sessions@[k]).status is Pending,
            forall|k: int| 0 <= k < pane_ids.len() ==> #[trigger] has_key(panes@, pane_ids@[k].1.0),
            forall|k: int| 0 <= k < i ==> #[trigger] pane_ids@[k].1 == PaneId((start.pane + k) as u64),
            forall|k: int| 0 <= k < i ==> #[trigger] panes@[k].id == PaneId((start.pane + k) as u64),
        decreases restore.panes.len() - i,
    {
        let pane_restore = &restore.panes[i];
        if is_blank(pane_restore.session_profile.as_str()) {
            return Err(invalid("pane session profile is empty"));
        }
        let pane_id = counters.next_pane();
        let session_id = counters.next_session();
        if mapped_pane(&pane_ids, pane_restore.pane_id).is_some() {
            proof {
                let ids = snapshot_pane_ids(restore.panes@);
                lemma_first_index_of(renamed_from(pane_ids@), pane_restore.pane_id.0);
                let k = first_index_of(renamed_from(pane_ids@), pane_restore.pane_id.0);
                assert(ids.take(i as int)[k] == ids[k]);
                assert(ids[k] == ids[i as int]);
            }
            return Err(invalid("tab contains duplicate pane identifiers"));
        }
        let ghost before_ids = pane_ids@;
        proof {
            lemma_first_index_of(renamed_from(pane_ids@), pane_restore.pane_id.0);
            let taken = snapshot_pane_ids(restore.panes@).take(i as int);
            let next = snapshot_pane_ids(restore.panes@).take(i + 1);
            assert(next =~= taken.push(pane_restore.pane_id.0));
            assert(!taken.contains(pane_restore.pane_id.0));
            assert(next.no_duplicates()) by {
                assert forall|a: int, b: int| 0 <= a < b < next.len() implies next[a] != next[b] by {
                    if b == i {
                        assert(next[a] == taken[a]);
                    }
                }
            }
        }
        pane_ids.push((pane_restore.pane_id, pane_id));
        let spec = SessionSpec {
            profile_name: pane_restore.session_profile.clone(),
            transport: pane_restore.transport,
            working_directory: copy_text(&pane_restore.working_directory),
            startup_command: copy_text(&fallback_session.startup_command),
        };
        let pane = Pane::new(pane_id, session_id);
        let session = Session::new(session_id, spec);
        proof {
            lemma_insert_largest(panes@, pane);
            lemma_insert_largest(sessions@, session);
        }
        let ghost before_panes = panes@;
        insert_by_key(&mut panes, pane);
        insert_by_key(&mut sessions, session);
        proof {
            assert(panes@ == before_panes.push(pane));
            assert forall|k: int| 0 <= k < i + 1 implies #[trigger] panes@[k].id == PaneId((start.pane + k) as u64) by {
                if k < i {
                    assert(panes@[k] == before_panes[k]);
                }
            }
            assert forall|k: int| 0 <= k < i + 1 implies #[trigger] pane_ids@[k].1 == PaneId((start.pane + k) as u64) by {
                if k < i {
                    assert(pane_ids@[k] == before_ids[k]);
                }
            }
            assert(renamed_from(pane_ids@) =~= snapshot_pane_ids(restore.panes@).take(i + 1));
            assert forall|k: int| 0 <= k < pane_ids.len() implies #[trigger] has_key(panes@, pane_ids@[k].1.0) by {
                if k < i {
                    assert(pane_ids@[k] == before_ids[k]);
                    assert(has_key(before_panes, before_ids[k].1.0));
                    let m = choose|m: int| 0 <= m < before_panes.len() && #[trigger] before_panes[m].key_of() == before_ids[k].1.0;
                    assert(panes@[m] == before_panes[m]);
                } else {
                    assert(panes@[i as int].key_of() == pane_id.0);
                }
            }
        }
        i = i + 1;
    }
    proof {
        assert(snapshot_pane_ids(restore.panes@).take(i as int) =~= snapshot_pane_ids(restore.panes@));
    }
    let root = match remap_split_tree(&restore.layout, &pane_ids) {
        Ok(root) => root,
        Err(error) => {
            return Err(error);
        },
    };
    let mut leaves: Vec<PaneId> = Vec::new();
    root.collect_panes(&mut leaves);
    proof {
        assert(leaves@ =~= root.leaves());
    }
    proof {
        if restorable_tab(*restore) {
            let ids = snapshot_pane_ids(restore.panes@);
            let old_leaves = restore.layout.leaves();
            assert(renamed_from(pane_ids@) == ids);
            assert(leaves@ == renamed_all(old_leaves, pane_ids@));
            assert forall|a: int| 0 <= a < old_leaves.len() implies ({
                let f = first_index_of(ids, (#[trigger] old_leaves[a]).0);
                &&& 0 <= f < ids.len()
                &&& ids[f] == old_leaves[a].0
                &&& leaves@[a] == PaneId((start.pane + f) as u64)
            }) by {
                assert(renames(pane_ids@, old_leaves[a]));
                lemma_first_index_of(ids, old_leaves[a].0);
            }
            assert forall|a: int, b: int| 0 <= a < b < leaves.len() implies leaves@[a] != leaves@[b] by {
                lemma_first_index_of(ids, old_leaves[a].0);
                lemma_first_index_of(ids, old_leaves[b].0);
                assert(old_leaves[a] != old_leaves[b]);
            }
            assert forall|m: int| 0 <= m < panes.len() implies #[trigger] leaves@.contains(panes@[m].id) by {
                let pid = restore.panes@[m].pane_id;
                assert(old_leaves.contains(pid));
                let j = choose|j: int| 0 <= j < old_leaves.len() && old_leaves[j] == pid;
                assert(ids[m] == pid.0);
                lemma_first_index_of(ids, pid.0);
                let f = first_index_of(ids, pid.0);
                if f < m {
                    assert(ids[f] == ids[m]);
                } else if f > m {
                    assert(ids[m] == pid.0);
                }
                assert(f == m);
                assert(leaves@[j] == panes@[m].id);
            }
            assert(leaves@.contains(panes@[0].id));
            assert(leaves.len() > 0);
        }
    }
    if !layout_matches_panes(&leaves, &panes) {
        return Err(invalid("layout must reference every pane exactly once"));
    }
    let active_pane = match mapped_pane(&pane_ids, restore.active_pane) {
        Some(pane_id) => {
            proof {
                lemma_first_index_of(renamed_from(pane_ids@), restore.active_pane.0);
                let k = first_index_of(renamed_from(pane_ids@), restore.active_pane.0);
                assert(has_key(panes@, pane_ids@[k].1.0));
            }
            pane_id
        },
        None => match root.first_pane() {
            Some(pane_id) => {
                proof {
                    assert(has_key(panes@, leaves@[0].0));
                }
                pane_id
            },
            None => {
                return Err(invalid("tab layout has no panes"));
            },
        },
    };
    Ok(Tab {
        id: tab_id,
        name: restore.name.clone(),
        title_source: TabTitleSource::Default,
        panes,
        sessions,
        root,
        active_pane,
        zoomed_pane: None,
    })
}

/// Each pane of a sequence of trees is a pane of one of the trees.
proof fn lemma_leaves_of_in_child<R>(s: Seq<SplitTree<R>>, p: int)
    requires
        0 <= p < leaves_of(s).len(),
    ensures
        exists|k: int, j: int| 0 <= k < s.len() && 0 <= j < s[k].leaves().len() && s[k].leaves()[j] == leaves_of(s)[p],
    decreases s.len(),
{
    let front = leaves_of(s.drop_last());
    if p < front.len() {
        lemma_leaves_of_in_child(s.drop_last(), p);
        let (k, j) = choose|k: int, j: int| 0 <= k < s.drop_last().len() && 0 <= j < s.drop_last()[k].leaves().len()
            && s.drop_last()[k].leaves()[j] == leaves_of(s.drop_last())[p];
        assert(s.drop_last()[k] == s[k]);
        assert(s[k].leaves()[j] == leaves_of(s)[p]);
    } else {
        let j = p - front.len();
        assert(s[s.len() - 1].leaves()[j] == leaves_of(s)[p]);
    }
}

/// Whether every ratio can be used.
fn all_usable<R: SplitRatio>(ratios: &Vec<R>) -> (r: bool)
    ensures
        r == forall|k: int| 0 <= k < ratios.len() ==> #[trigger] ratios@[k].usable(),
{
    let mut i: usize = 0;
    while i < ratios.len()
        invariant
            0 <= i <= ratios.len(),
            forall|k: int| 0 <= k < i ==> #[trigger] ratios@[k].usable(),
        decreases ratios.len() - i,
    {
        if !ratios[i].is_usable() {
            return false;
        }
        i = i + 1;
    }
    true
}

/// How many identifiers restoring the tabs uses: one per tab and one per
/// pane.
pub open spec fn tabs_size<R>(tabs: Seq<TabRestore<R>>) -> int
    decreases tabs.len(),
{
    if tabs.len() == 0 { 0 } else { tabs_size(tabs.drop_last()) + 1 + tabs.last().panes.len() }
}

/// How many identifiers restoring the windows uses.
pub open spec fn windows_size<R>(windows: Seq<WindowRestore<R>>) -> int
    decreases windows.len(),
{
    if windows.len() == 0 { 0 } else { windows_size(windows.drop_last()) + 1 + tabs_size(windows.last().tabs@) }
}

/// How many identifiers restoring the workspaces uses.
pub open spec fn workspaces_size<R>(workspaces: Seq<WorkspaceRestore<R>>) -> int
    decreases workspaces.len(),
{
    if workspaces.len() == 0 {
        0
    } else {
        workspaces_size(workspaces.drop_last()) + 1 + windows_size(workspaces.last().windows@)
    }
}

proof fn lemma_tabs_size_prefix<R>(tabs: Seq<TabRestore<R>>, j: int)
    requires
        0 <= j <= tabs.len(),
    ensures
        0 <= tabs_size(tabs.take(j)) <= tabs_size(tabs),
        j < tabs.len() ==> tabs_size(tabs.take(j + 1)) == tabs_size(tabs.take(j)) + 1 + tabs[j].panes.len(),
    decreases tabs.len(),
{
    if j < tabs.len() {
        assert(tabs.take(j + 1).drop_last() =~= tabs.take(j));
        lemma_tabs_size_prefix(tabs.drop_last(), j);
        assert(tabs.drop_last().take(j) =~= tabs.take(j));
    } else {
        assert(tabs.take(j) =~= tabs);
    }
    if tabs.len() > 0 {
        lemma_tabs_size_prefix(tabs.drop_last(), 0);
    }
}

proof fn lemma_windows_size_prefix<R>(windows: Seq<WindowRestore<R>>, j: int)
    requires
        0 <= j <= windows.len(),
    ensures
        0 <= windows_size(windows.take(j)) <= windows_size(windows),
        j < windows.len() ==> windows_size(windows.take(j + 1)) == windows_size(windows.take(j)) + 1
            + tabs_size(windows[j].tabs@),
    decreases windows.len(),
{
    if j < windows.len() {
        assert(windows.take(j + 1).drop_last() =~= windows.take(j));
        lemma_windows_size_prefix(windows.drop_last(), j);
        assert(windows.drop_last().take(j) =~= windows.take(j));
        lemma_tabs_size_prefix(windows[windows.len() - 1].tabs@, 0);
    } else {
        assert(windows.take(j) =~= windows);
    }
    if windows.len() > 0 {
        lemma_windows_size_prefix(windows.drop_last(), 0);
        lemma_tabs_size_prefix(windows[windows.len() - 1].tabs@, 0);
    }
}

proof fn lemma_workspaces_size_prefix<R>(workspaces: Seq<WorkspaceRestore<R>>, j: int)
    requires
        0 <= j <= workspaces.len(),
    ensures
        0 <= workspaces_size(workspaces.take(j)) <= workspaces_size(workspaces),
        j < workspaces.len() ==> workspaces_size(workspaces.take(j + 1)) == workspaces_size(workspaces.take(j)) + 1
            + windows_size(workspaces[j].windows@),
    decreases workspaces.len(),
{
    if j < workspaces.len() {
        assert(workspaces.take(j + 1).drop_last() =~= workspaces.take(j));
        lemma_workspaces_size_prefix(workspaces.drop_last(), j);
        assert(workspaces.drop_last().take(j) =~= workspaces.take(j));
        lemma_windows_size_prefix(workspaces[workspaces.len() - 1].windows@, 0);
    } else {
        assert(workspaces.take(j) =~= workspaces);
    }
    if workspaces.len() > 0 {
        lemma_workspaces_size_prefix(workspaces.drop_last(), 0);
        lemma_windows_size_prefix(workspaces[workspaces.len() - 1].windows@, 0);
    }
}

/// The snapshot is small enough for every identifier it needs to fit.
pub open spec fn snapshot_fits<R>(snapshot: RestoreSnapshot<R>) -> bool {
    workspaces_size(snapshot.workspaces@) + 2 < u64::MAX
}

/// What keeps a snapshot from being restored, apart from layouts: a
/// workspace without windows, a window without tabs, or a tab that cannot
/// be restored.
pub open spec fn snapshot_defect<R>(snapshot: RestoreSnapshot<R>) -> bool {
    exists|w: int| 0 <= w < snapshot.workspaces.len() && #[trigger] workspace_defect(snapshot.workspaces@[w])
}

pub open spec fn workspace_defect<R>(workspace: WorkspaceRestore<R>) -> bool {
    ||| workspace.windows.len() == 0
    ||| exists|n: int| 0 <= n < workspace.windows.len() && #[trigger] window_defect(workspace.windows@[n])
}

pub open spec fn window_defect<R>(window: WindowRestore<R>) -> bool {
    ||| window.tabs.len() == 0
    ||| exists|t: int| 0 <= t < window.tabs.len() && #[trigger] tab_snapshot_defect(window.tabs@[t])
}

/// The position of the first tab named `name`, or -1.
pub open spec fn first_named<R>(tabs: Seq<Tab<R>>, name: Seq<char>) -> int
    decreases tabs.len(),
{
    if tabs.len() == 0 {
        -1
    } else if tabs[0].name@ == name {
        0
    } else {
        let rest = first_named(tabs.skip(1), name);
        if rest < 0 { -1 } else { rest + 1 }
    }
}

proof fn lemma_first_named<R>(tabs: Seq<Tab<R>>, name: Seq<char>)
    ensures
        first_named(tabs, name) >= -1,
        first_named(tabs, name) < 0 ==> forall|t: int| 0 <= t < tabs.len() ==> #[trigger] tabs[t].name@ != name,
        first_named(tabs, name) >= 0 ==> {
            let k = first_named(tabs, name);
            &&& k < tabs.len()
            &&& tabs[k].name@ == name
            &&& forall|u: int| 0 <= u < k ==> #[trigger] tabs[u].name@ != name
        },
    decreases tabs.len(),
{
    if tabs.len() > 0 {
        lemma_first_named(tabs.skip(1), name);
        if tabs[0].name@ != name {
            let rest = first_named(tabs.skip(1), name);
            assert forall|t: int| 0 <= t < tabs.len() && (rest < 0 || t < rest + 1) implies #[trigger] tabs[t].name@ != name by {
                if t > 0 {
                    assert(tabs[t] == tabs.skip(1)[t - 1]);
                }
            }
            if rest >= 0 {
                assert(tabs[rest + 1] == tabs.skip(1)[rest]);
            }
        }
    }
}

/// The tab that a restored window focuses: the first tab named as the
/// recorded one, or else the first tab.
pub open spec fn restored_focus<R>(active_tab_name: Option<String>, tabs: Seq<Tab<R>>) -> TabId {
    match active_tab_name {
        Some(name) => if first_named(tabs, name@) >= 0 { tabs[first_named(tabs, name@)].id } else { tabs[0].id },
        None => tabs[0].id,
    }
}

/// `window` was rebuilt from `restore`.
pub open spec fn restored_window<R>(restore: WindowRestore<R>, window: WindowModel<R>) -> bool {
    &&& window.wf()
    &&& window.tabs.len() == restore.tabs.len()
    &&& forall|t: int| 0 <= t < window.tabs.len() ==> #[trigger] restored_tab(restore.tabs@[t], window.tabs@[t])
    &&& window.active_tab == restored_focus(restore.active_tab_name, window.tabs@)
}

/// `workspace` was rebuilt from `restore`; its first window has the focus.
pub open spec fn restored_workspace<R>(restore: WorkspaceRestore<R>, workspace: Workspace<R>) -> bool {
    &&& workspace.wf()
    &&& workspace.name@ == restore.name@
    &&& workspace.windows.len() == restore.windows.len()
    &&& forall|n: int| 0 <= n < workspace.windows.len() ==> #[trigger] restored_window(restore.windows@[n], workspace.windows@[n])
    &&& workspace.active_window == workspace.windows@[0].id
}

/// The tab to focus in a restored window, by the recorded name.
fn focused_tab<R>(tabs: &Vec<Tab<R>>, name: &Option<String>) -> (r: TabId)
    requires
        tabs.len() > 0,
    ensures
        r == restored_focus(*name, tabs@),
{
    match name {
        Some(wanted) => {
            let mut i: usize = 0;
            while i < tabs.len()
                invariant
                    0 <= i <= tabs.len(),
                    *name == Some(*wanted),
                    forall|u: int| 0 <= u < i ==> tabs@[u].name@ != wanted@,
                decreases tabs.len() - i,
            {
                if str_eq(tabs[i].name.as_str(), wanted.as_str()) {
                    proof {
                        lemma_first_named(tabs@, wanted@);
                        let t = first_named(tabs@, wanted@);
                        assert(tabs@[i as int].name@ == wanted@);
                        if t < 0 {
                            assert(tabs@[i as int].name@ != wanted@);
                        }
                        if 0 <= t < i {
                            assert(tabs@[t].name@ != wanted@);
                        }
                        if t > i {
                            assert(tabs@[i as int].name@ != wanted@);
                        }
                        assert(t == i);
                        assert(*name == Some(*wanted));
                        assert(restored_focus(*name, tabs@) == tabs@[i as int].id);
                    }
                    return tabs[i].id;
                }
                i = i + 1;
            }
            proof {
                lemma_first_named(tabs@, wanted@);
                let t = first_named(tabs@, wanted@);
                if t >= 0 {
                    assert(tabs@[t].name@ != wanted@);
                }
            }
            tabs[0].id
        },
        None => tabs[0].id,
    }
}

/// A window rebuilt from its snapshot with fresh identifiers from
/// `counters`; it focuses the tab named as the recorded one, or else its
/// first tab.
pub fn restore_window<R: SplitRatio>(restore: &WindowRestore<R>, counters: &mut IdCounters, fallback_session: &SessionSpec) -> (r: Result<WindowModel<R>, MuxError>)
    requires
        old(counters).window < u64::MAX,
        old(counters).tab + tabs_size(restore.tabs@) < u64::MAX,
        old(counters).pane + tabs_size(restore.tabs@) < u64::MAX,
        old(counters).session + tabs_size(restore.tabs@) < u64::MAX,
    ensures
        r is Err ==> r->Err_0 is InvalidSnapshot,
        window_defect(*restore) ==> r is Err,
        !window_defect(*restore) && restorable_window(*restore) ==> r is Ok,
        r is Ok ==> restored_window(*restore, r->Ok_0) && r->Ok_0.id == WindowId(old(counters).window),
        final(counters).workspace == old(counters).workspace,
        old(counters).window <= final(counters).window <= old(counters).window + 1,
        old(counters).tab <= final(counters).tab <= old(counters).tab + tabs_size(restore.tabs@),
        old(counters).pane <= final(counters).pane <= old(counters).pane + tabs_size(restore.tabs@),
        old(counters).session <= final(counters).session <= old(counters).session + tabs_size(restore.tabs@),
{
    if restore.tabs.len() == 0 {
        return Err(invalid("window contains no tabs"));
    }
    let window_id = counters.next_window();
    let ghost start = *counters;
    proof {
        lemma_tabs_size_prefix(restore.tabs@, 0);
    }
    let mut tabs: Vec<Tab<R>> = Vec::new();
    let mut k: usize = 0;
    while k < restore.tabs.len()
        invariant
            0 <= k <= restore.tabs.len(),
            start.workspace == old(counters).workspace,
            start.window == old(counters).window + 1,
            start.tab == old(counters).tab,
            start.pane == old(counters).pane,
            start.session == old(counters).session,
            start.tab + tabs_size(restore.tabs@) < u64::MAX,
            start.pane + tabs_size(restore.tabs@) < u64::MAX,
            start.session + tabs_size(restore.tabs@) < u64::MAX,
            tabs.len() == k,
            counters.workspace == start.workspace,
            counters.window == start.window,
            start.tab <= counters.tab <= start.tab + tabs_size(restore.tabs@.take(k as int)),
            start.pane <= counters.pane <= start.pane + tabs_size(restore.tabs@.take(k as int)),
            start.session <= counters.session <= start.session + tabs_size(restore.tabs@.take(k as int)),
            forall|m: int| 0 <= m < k ==> #[trigger] restored_tab(restore.tabs@[m], tabs@[m]),
            forall|m: int| 0 <= m < k ==> !#[trigger] tab_snapshot_defect(restore.tabs@[m]),
        decreases restore.tabs.len() - k,
    {
        proof {
            lemma_tabs_size_prefix(restore.tabs@, k as int);
            lemma_tabs_size_prefix(restore.tabs@, k + 1);
        }
        let tab = match restore_tab(&restore.tabs[k], counters, fallback_session) {
            Ok(tab) => tab,
            Err(error) => {
                return Err(error);
            },
        };
        tabs.push(tab);
        k = k + 1;
    }
    proof {
        assert(restore.tabs@.take(k as int) =~= restore.tabs@);
    }
    let active_tab = focused_tab(&tabs, &restore.active_tab_name);
    let window = WindowModel { id: window_id, tabs, active_tab };
    proof {
        let ids = tab_ids(window.tabs@);
        let named = restore.active_tab_name is Some;
        let wanted = restore.active_tab_name->0@;
        let t = if named && first_named(window.tabs@, wanted) >= 0 { first_named(window.tabs@, wanted) } else { 0 };
        lemma_first_named(window.tabs@, wanted);
        assert(ids[t] == active_tab.0);
        lemma_first_index_of(ids, active_tab.0);
        assert forall|m: int| 0 <= m < window.tabs.len() implies #[trigger] window.tabs@[m].wf() by {
            assert(restored_tab(restore.tabs@[m], window.tabs@[m]));
        }
        assert(!window_defect(*restore)) by {
            if window_defect(*restore) {
                let m = choose|m: int| 0 <= m < restore.tabs.len() && #[trigger] tab_snapshot_defect(restore.tabs@[m]);
                assert(!tab_snapshot_defect(restore.tabs@[m]));
            }
        }
    }
    Ok(window)
}

/// A workspace rebuilt from its snapshot with fresh identifiers from
/// `counters`; its first window has the focus.
pub fn restore_workspace<R: SplitRatio>(restore: &WorkspaceRestore<R>, counters: &mut IdCounters, fallback_session: &SessionSpec) -> (r: Result<Workspace<R>, MuxError>)
    requires
        old(counters).workspace < u64::MAX,
        old(counters).window + windows_size(restore.windows@) < u64::MAX,
        old(counters).tab + windows_size(restore.windows@) < u64::MAX,
        old(counters).pane + windows_size(restore.windows@) < u64::MAX,
        old(counters).session + windows_size(restore.windows@) < u64::MAX,
    ensures
        r is Err ==> r->Err_0 is InvalidSnapshot,
        workspace_defect(*restore) ==> r is Err,
        !workspace_defect(*restore) && restorable_workspace(*restore) ==> r is Ok,
        r is Ok ==> restored_workspace(*restore, r->Ok_0) && r->Ok_0.id == WorkspaceId(old(counters).workspace)
            && final(counters).workspace == old(counters).workspace + 1,
        old(counters).workspace <= final(counters).workspace <= old(counters).workspace + 1,
        old(counters).window <= final(counters).window <= old(counters).window + windows_size(restore.windows@),
        old(counters).tab <= final(counters).tab <= old(counters).tab + windows_size(restore.windows@),
        old(counters).pane <= final(counters).pane <= old(counters).pane + windows_size(restore.windows@),
        old(counters).session <= final(counters).session <= old(counters).session + windows_size(restore.windows@),
{
    if restore.windows.len() == 0 {
        return Err(invalid("workspace contains no windows"));
    }
    let workspace_id = counters.next_workspace();
    let ghost start = *counters;
    proof {
        lemma_windows_size_prefix(restore.windows@, 0);
    }
    let mut windows: Vec<WindowModel<R>> = Vec::new();
    let mut j: usize = 0;
    while j < restore.windows.len()
        invariant
            0 <= j <= restore.windows.len(),
            start.workspace == old(counters).workspace + 1,
            start.window == old(counters).window,
            start.tab == old(counters).tab,
            start.pane == old(counters).pane,
            start.session == old(counters).session,
            start.window + windows_size(restore.windows@) < u64::MAX,
            start.tab + windows_size(restore.windows@) < u64::MAX,
            start.pane + windows_size(restore.windows@) < u64::MAX,
            start.session + windows_size(restore.windows@) < u64::MAX,
            windows.len() == j,
            counters.workspace == start.workspace,
            start.window <= counters.window <= start.window + windows_size(restore.windows@.take(j as int)),
            start.tab <= counters.tab <= start.tab + windows_size(restore.windows@.take(j as int)),
            start.pane <= counters.pane <= start.pane + windows_size(restore.windows@.take(j as int)),
            start.session <= counters.session <= start.session + windows_size(restore.windows@.take(j as int)),
            forall|m: int| 0 <= m < j ==> #[trigger] restored_window(restore.windows@[m], windows@[m]),
            forall|m: int| 0 <= m < j ==> !#[trigger] window_defect(restore.windows@[m]),
        decreases restore.windows.len() - j,
    {
        proof {
            lemma_windows_size_prefix(restore.windows@, j as int);
            lemma_windows_size_prefix(restore.windows@, j + 1);
            lemma_tabs_size_prefix(restore.windows@[j as int].tabs@, 0);
        }
        let window = match restore_window(&restore.windows[j], counters, fallback_session) {
            Ok(window) => window,
            Err(error) => {
                return Err(error);
            },
        };
        windows.push(window);
        j = j + 1;
    }
    proof {
        assert(restore.windows@.take(j as int) =~= restore.windows@);
    }
    let active_window = windows[0].id;
    let workspace = Workspace { id: workspace_id, name: restore.name.clone(), windows, active_window };
    proof {
        let ids = window_ids(workspace.windows@);
        assert(ids[0] == active_window.0);
        lemma_first_index_of(ids, active_window.0);
        assert forall|m: int| 0 <= m < workspace.windows.len() implies #[trigger] workspace.windows@[m].wf() by {
            assert(restored_window(restore.windows@[m], workspace.windows@[m]));
        }
        assert(!workspace_defect(*restore)) by {
            if workspace_defect(*restore) {
                let m = choose|m: int| 0 <= m < restore.windows.len() && #[trigger] window_defect(restore.windows@[m]);
                assert(!window_defect(restore.windows@[m]));
            }
        }
    }
    Ok(workspace)
}

impl<R: SplitRatio> MuxModel<R> {
    /// Rebuilds a model from a snapshot, with fresh identifiers and pending
    /// sessions; the first workspace has the focus. An empty snapshot gives
    /// a new model running `fallback_session`.
    pub fn from_restore_snapshot(snapshot: &RestoreSnapshot<R>, fallback_session: SessionSpec) -> (r: Result<MuxModel<R>, MuxError>)
        requires
            snapshot_fits(*snapshot),
        ensures
            r is Err ==> r->Err_0 is InvalidSnapshot,
            snapshot_defect(*snapshot) ==> r is Err,
            snapshot.workspaces.len() == 0 ==> r is Ok,
            !snapshot_defect(*snapshot) && restorable_snapshot(*snapshot) ==> r is Ok,
            r is Ok ==> ({
                let model = r->Ok_0;
                &&& model.wf()
                &&& model.revision() == 1
                &&& snapshot.workspaces.len() == 0 ==> model.workspaces.len() == 1
                    && model.workspaces@[0].name@ == "default"@
                &&& snapshot.workspaces.len() > 0 ==> {
                    &&& model.workspaces.len() == snapshot.workspaces.len()
                    &&& model.active_workspace == model.workspaces@[0].id
                    &&& forall|w: int| 0 <= w < model.workspaces.len() ==>
                        #[trigger] restored_workspace(snapshot.workspaces@[w], model.workspaces@[w])
                }
            }),
    {
        let mut counters = IdCounters::new();
        let mut workspaces: Vec<Workspace<R>> = Vec::new();
        proof {
            lemma_workspaces_size_prefix(snapshot.workspaces@, 0);
        }
        let mut i: usize = 0;
        while i < snapshot.workspaces.len()
            invariant
                0 <= i <= snapshot.workspaces.len(),
                workspaces_size(snapshot.workspaces@) + 2 < u64::MAX,
                workspaces.len() == i,
                counters.workspace == i + 1,
                i <= workspaces_size(snapshot.workspaces@.take(i as int)),
                1 <= counters.window <= 1 + workspaces_size(snapshot.workspaces@.take(i as int)),
                1 <= counters.tab <= 1 + workspaces_size(snapshot.workspaces@.take(i as int)),
                1 <= counters.pane <= 1 + workspaces_size(snapshot.workspaces@.take(i as int)),
                1 <= counters.session <= 1 + workspaces_size(snapshot.workspaces@.take(i as int)),
                keys_increasing(workspaces@),
                forall|k: int| 0 <= k < i ==> #[trigger] workspaces@[k].id.0 == k + 1,
                forall|k: int| 0 <= k < i ==> #[trigger] restored_workspace(snapshot.workspaces@[k], workspaces@[k]),
                forall|k: int| 0 <= k < i ==> !#[trigger] workspace_defect(snapshot.workspaces@[k]),
            decreases snapshot.workspaces.len() - i,
        {
            proof {
                lemma_workspaces_size_prefix(snapshot.workspaces@, i as int);
                lemma_workspaces_size_prefix(snapshot.workspaces@, i + 1);
                lemma_windows_size_prefix(snapshot.workspaces@[i as int].windows@, 0);
            }
            let workspace = match restore_workspace(&snapshot.workspaces[i], &mut counters, &fallback_session) {
                Ok(workspace) => workspace,
                Err(error) => {
                    return Err(error);
                },
            };
            proof {
                assert forall|a: int, b: int| 0 <= a < b < workspaces@.push(workspace).len() implies
                    #[trigger] workspaces@.push(workspace)[a].key_of() < #[trigger] workspaces@.push(workspace)[b].key_of() by {
                    assert(workspaces@.push(workspace)[a] == workspaces@[a]);
                    if b < i {
                        assert(workspaces@.push(workspace)[b] == workspaces@[b]);
                    }
                }
            }
            workspaces.push(workspace);
            i = i + 1;
        }
        if workspaces.len() == 0 {
            let model = MuxModel::new(fallback_session);
            return Ok(model);
        }
        let active_workspace = workspaces[0].id;
        let model = MuxModel { workspaces, active_workspace, counters, layout_revision: 1 };
        proof {
            let ids = workspace_ids(model.workspaces@);
            assert(ids[0] == active_workspace.0);
            lemma_first_index_of(ids, active_workspace.0);
            assert forall|k: int| 0 <= k < model.workspaces.len() implies #[trigger] model.workspaces@[k].wf() by {
                assert(restored_workspace(snapshot.workspaces@[k], model.workspaces@[k]));
            }
            assert forall|k: int| 0 <= k < model.workspaces.len() implies #[trigger] model.workspaces@[k].id.0 < model.next_ids().workspace by {
                assert(model.workspaces@[k].id.0 == k + 1);
            }
            assert(!snapshot_defect(*snapshot)) by {
                if snapshot_defect(*snapshot) {
                    let w = choose|w: int| 0 <= w < snapshot.workspaces.len() && #[trigger] workspace_defect(snapshot.workspaces@[w]);
                    assert(!workspace_defect(snapshot.workspaces@[w]));
                }
            }
        }
        Ok(model)
    }
}

/// The session with identifier `session_id`.
pub open spec fn session_of(sessions: Seq<Session>, session_id: SessionId) -> Session {
    sessions[choose|j: int| 0 <= j < sessions.len() && sessions[j].id == session_id]
}

/// `record` describes `pane`, whose session is `session`: the profile and
/// transport the session was started with, and its current working
/// directory, or else the one it was started in.
pub open spec fn pane_record(pane: Pane, session: Session, record: PaneRestore) -> bool {
    &&& record.pane_id == pane.id
    &&& record.session_profile@ == session.spec.profile_name@
    &&& record.transport == session.spec.transport
    &&& record.working_directory == (if session.current_working_directory is Some {
        session.current_working_directory
    } else {
        session.spec.working_directory
    })
}

/// `records` describe, in order, the panes whose session is among
/// `sessions`.
pub open spec fn captured_panes(panes: Seq<Pane>, sessions: Seq<Session>, records: Seq<PaneRestore>) -> bool
    decreases panes.len(),
{
    if panes.len() == 0 {
        records.len() == 0
    } else if has_key(sessions, panes.last().session_id.0) {
        &&& records.len() > 0
        &&& captured_panes(panes.drop_last(), sessions, records.drop_last())
        &&& pane_record(panes.last(), session_of(sessions, panes.last().session_id), records.last())
    } else {
        captured_panes(panes.drop_last(), sessions, records)
    }
}

/// `record` keeps the name, layout, focus, and pane sessions of `tab`.
pub open spec fn captured_tab<R>(tab: Tab<R>, record: TabRestore<R>) -> bool {
    &&& record.name@ == tab.name@
    &&& record.layout.leaves() == tab.root.leaves()
    &&& tab.root.same_shape(record.layout)
    &&& record.active_pane == tab.active_pane
    &&& captured_panes(tab.panes@, tab.sessions@, record.panes@)
}

/// `record` keeps the tabs of `window` and the name of its focused tab.
pub open spec fn captured_window<R>(window: WindowModel<R>, record: WindowRestore<R>) -> bool {
    &&& record.tabs.len() == window.tabs.len()
    &&& forall|t: int| 0 <= t < window.tabs.len() ==> #[trigger] captured_tab(window.tabs@[t], record.tabs@[t])
    &&& if window.active_index() >= 0 {
        record.active_tab_name is Some && record.active_tab_name->0@ == window.tabs@[window.active_index()].name@
    } else {
        record.active_tab_name is None
    }
}

/// `record` keeps the name and windows of `workspace`.
pub open spec fn captured_workspace<R>(workspace: Workspace<R>, record: WorkspaceRestore<R>) -> bool {
    &&& record.name@ == workspace.name@
    &&& record.windows.len() == workspace.windows.len()
    &&& forall|n: int| 0 <= n < workspace.windows.len() ==> #[trigger] captured_window(workspace.windows@[n], record.windows@[n])
}

impl<R: SplitRatio> TabRestore<R> {
    /// What survives of a tab: its name, layout, focused pane, and how each
    /// pane's session was started.
    pub fn from_tab(tab: &Tab<R>) -> (r: TabRestore<R>)
        requires
            tab.wf(),
        ensures
            captured_tab(*tab, r),
    {
        let mut panes: Vec<PaneRestore> = Vec::new();
        let mut i: usize = 0;
        while i < tab.panes.len()
            invariant
                0 <= i <= tab.panes.len(),
                tab.wf(),
                captured_panes(tab.panes@.take(i as int), tab.sessions@, panes@),
            decreases tab.panes.len() - i,
        {
            let pane = &tab.panes[i];
            proof {
                assert(tab.panes@.take(i + 1).drop_last() =~= tab.panes@.take(i as int));
                assert(tab.panes@.take(i + 1).last() == tab.panes@[i as int]);
            }
            match find_key(&tab.sessions, pane.session_id.0) {
                Some(j) => {
                    let session = &tab.sessions[j];
                    let working_directory = match &session.current_working_directory {
                        Some(directory) => Some(directory.clone()),
                        None => copy_text(&session.spec.working_directory),
                    };
                    let record = PaneRestore {
                        pane_id: pane.id,
                        session_profile: session.spec.profile_name.clone(),
                        transport: session.spec.transport,
                        working_directory,
                    };
                    proof {
                        let chosen = choose|k: int| 0 <= k < tab.sessions@.len() && tab.sessions@[k].id == pane.session_id;
                        assert(tab.sessions@[j as int].id == pane.session_id);
                        if chosen != j {
                            if chosen < j {
                                assert(tab.sessions@[chosen].key_of() < tab.sessions@[j as int].key_of());
                            } else {
                                assert(tab.sessions@[j as int].key_of() < tab.sessions@[chosen].key_of());
                            }
                        }
                        assert(panes@.push(record).drop_last() =~= panes@);
                    }
                    panes.push(record);
                },
                None => {},
            }
            i = i + 1;
        }
        proof {
            assert(tab.panes@.take(i as int) =~= tab.panes@);
        }
        TabRestore { name: tab.name.clone(), layout: tab.root.duplicate(), active_pane: tab.active_pane, panes }
    }
}

impl<R: SplitRatio> WindowRestore<R> {
    /// What survives of a window: its tabs and the name of its focused tab.
    pub fn from_window(window: &WindowModel<R>) -> (r: WindowRestore<R>)
        requires
            forall|t: int| 0 <= t < window.tabs.len() ==> #[trigger] window.tabs@[t].wf(),
        ensures
            captured_window(*window, r),
    {
        let mut tabs: Vec<TabRestore<R>> = Vec::new();
        let mut i: usize = 0;
        while i < window.tabs.len()
            invariant
                0 <= i <= window.tabs.len(),
                tabs.len() == i,
                forall|t: int| 0 <= t < window.tabs.len() ==> #[trigger] window.tabs@[t].wf(),
                forall|t: int| 0 <= t < i ==> #[trigger] captured_tab(window.tabs@[t], tabs@[t]),
            decreases window.tabs.len() - i,
        {
            tabs.push(TabRestore::from_tab(&window.tabs[i]));
            i = i + 1;
        }
        proof {
            lemma_first_index_of(tab_ids(window.tabs@), window.active_tab.0);
        }
        let active_tab_name = match find_tab(&window.tabs, window.active_tab) {
            Some(index) => Some(window.tabs[index].name.clone()),
            None => None,
        };
        WindowRestore { tabs, active_tab_name }
    }
}

impl<R: SplitRatio> WorkspaceRestore<R> {
    /// What survives of a workspace: its name and windows.
    pub fn from_workspace(workspace: &Workspace<R>) -> (r: WorkspaceRestore<R>)
        requires
            forall|n: int| 0 <= n < workspace.windows.len() ==> #[trigger] workspace.windows@[n].wf(),
        ensures
            captured_workspace(*workspace, r),
    {
        let mut windows: Vec<WindowRestore<R>> = Vec::new();
        let mut i: usize = 0;
        while i < workspace.windows.len()
            invariant
                0 <= i <= workspace.windows.len(),
                windows.len() == i,
                forall|n: int| 0 <= n < workspace.windows.len() ==> #[trigger] workspace.windows@[n].wf(),
                forall|n: int| 0 <= n < i ==> #[trigger] captured_window(workspace.windows@[n], windows@[n]),
            decreases workspace.windows.len() - i,
        {
            proof {
                assert(workspace.windows@[i as int].wf());
            }
            windows.push(WindowRestore::from_window(&workspace.windows[i]));
            i = i + 1;
        }
        WorkspaceRestore { name: workspace.name.clone(), windows }
    }
}

impl<R: SplitRatio> MuxModel<R> {
    /// What survives a restart: every workspace, in identifier order, with
    /// its windows, tabs, layouts, and how each pane's session was started.
    pub fn restore_snapshot(&self) -> (r: RestoreSnapshot<R>)
        requires
            self.wf(),
        ensures
            r.workspaces.len() == self.workspaces.len(),
            forall|w: int| 0 <= w < self.workspaces.len() ==> #[trigger] captured_workspace(self.workspaces@[w], r.workspaces@[w]),
    {
        let mut workspaces: Vec<WorkspaceRestore<R>> = Vec::new();
        let mut i: usize = 0;
        while i < self.workspaces.len()
            invariant
                0 <= i <= self.workspaces.len(),
                self.wf(),
                workspaces.len() == i,
                forall|w: int| 0 <= w < i ==> #[trigger] captured_workspace(self.workspaces@[w], workspaces@[w]),
            decreases self.workspaces.len() - i,
        {
            proof {
                assert(self.workspaces@[i as int].wf());
            }
            workspaces.push(WorkspaceRestore::from_workspace(&self.workspaces[i]));
            i = i + 1;
        }
        RestoreSnapshot { workspaces }
    }
}

} // verus!
