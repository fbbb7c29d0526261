//! The multiplexer model: workspaces hold windows, windows hold tabs, and
//! each tab holds panes, their sessions, and the split tree that lays the
//! panes out.
//!
//! Panes, sessions, and workspaces are kept in increasing order of their
//! identifiers, as ordered maps from identifier to item.

use vstd::prelude::*;
use crate::keyed::{
    find_key, has_key, insert_by_key, inserted_by_key, keys_increasing, lemma_rank_splits,
    lemma_remove_keeps_increasing, rank, remove_by_key, Keyed,
};
use crate::mux::{
    IdCounters, MuxError, Pane, PaneExitDisposition, PaneId, ResizeDirection, Session, SessionId,
    SessionSpec, SessionStatus, SplitAxis, TabId, TabTitleSource, WindowId, WorkspaceId,
};
use crate::split_tree::{inserted_after, normalized_from, resized_from, split_from, swapped_ids, without, SplitRatio, SplitTree};

verus! {

impl Keyed for Pane {
    open spec fn key_of(&self) -> u64 {
        self.id.0
    }

    fn key(&self) -> (r: u64) {
        self.id.0
    }
}

impl Keyed for Session {
    open spec fn key_of(&self) -> u64 {
        self.id.0
    }

    fn key(&self) -> (r: u64) {
        self.id.0
    }
}

#[derive(Debug)]
pub struct Tab<R> {
    pub id: TabId,
    pub name: String,
    pub title_source: TabTitleSource,
    pub panes: Vec<Pane>,
    pub sessions: Vec<Session>,
    pub root: SplitTree<R>,
    pub active_pane: PaneId,
    pub zoomed_pane: Option<PaneId>,
}

impl<R> Tab<R> {
    /// The tab has a pane, panes and sessions are ordered by identifier, and
    /// the split tree has a ratio for every child.
    pub open spec fn wf(self) -> bool {
        &&& self.panes.len() > 0
        &&& self.root.aligned()
        &&& keys_increasing(self.panes@)
        &&& keys_increasing(self.sessions@)
    }

    /// The tab has a pane with this identifier.
    pub open spec fn has_pane(self, pane_id: PaneId) -> bool {
        has_key(self.panes@, pane_id.0)
    }

    /// Closing `pane_id` would leave the layout with a pane to activate:
    /// the one case the close cannot handle is a layout whose only leaves
    /// are the pane being closed.
    pub open spec fn close_leaves_a_pane(self, pane_id: PaneId) -> bool {
        (self.panes.len() != 1 && self.has_pane(pane_id) && self.root is Split
            && self.root.leaves().contains(pane_id) && self.active_pane == pane_id)
            ==> without(self.root.leaves(), pane_id).len() > 0
    }
}

/// Whether some pane carries `pane_id`.
pub fn contains_pane_id(panes: &Vec<Pane>, pane_id: PaneId) -> (r: bool)
    ensures
        r == has_key(panes@, pane_id.0),
{
    let mut i: usize = 0;
    while i < panes.len()
        invariant
            0 <= i <= panes.len(),
            forall|k: int| 0 <= k < i ==> #[trigger] panes@[k].key_of() != pane_id.0,
        decreases panes.len() - i,
    {
        if panes[i].id.0 == pane_id.0 {
            proof {
                assert(panes@[i as int].key_of() == pane_id.0);
            }
            return true;
        }
        i = i + 1;
    }
    false
}

/// What closing `pane_id` did to a tab, returning `r` (see
/// [`Tab::close_pane`]).
pub open spec fn tab_closed_pane<R>(before: Tab<R>, after: Tab<R>, pane_id: PaneId, r: Result<(), MuxError>) -> bool {
    &&& before.panes.len() == 1 ==> r == Err::<(), MuxError>(MuxError::CannotCloseLastPane) && after == before
    &&& before.panes.len() != 1 && !before.has_pane(pane_id) ==> r == Err::<(), MuxError>(
        MuxError::PaneNotFound(pane_id)) && after == before
    &&& before.panes.len() != 1 && before.has_pane(pane_id) ==> {
        &&& exists|k: int| 0 <= k < before.panes.len() && before.panes@[k].id == pane_id
            && after.panes@ == before.panes@.remove(k)
            && session_removed(before.sessions@, after.sessions@, before.panes@[k].session_id)
        &&& after.id == before.id
        &&& after.name == before.name
        &&& after.title_source == before.title_source
        &&& r == (if before.root matches SplitTree::Pane(id) && id == pane_id {
            Err(MuxError::CannotRemoveRootPane)
        } else if before.root is Split && before.root.leaves().contains(pane_id) {
            Ok(())
        } else {
            Err(MuxError::PaneNotFound(pane_id))
        })
        &&& r is Err ==> after.root.leaves() == before.root.leaves()
            && before.root.same_shape(after.root)
            && after.active_pane == before.active_pane
            && after.zoomed_pane == before.zoomed_pane
        &&& r is Ok ==> after.root.leaves() == without(before.root.leaves(), pane_id)
            && after.root.is_normal()
            && after.active_pane == (if before.active_pane == pane_id {
                without(before.root.leaves(), pane_id)[0]
            } else {
                before.active_pane
            })
            && after.zoomed_pane == (if before.zoomed_pane == Some(pane_id) {
                None
            } else {
                before.zoomed_pane
            })
    }
}

/// The signed resize amount for `direction`: left and up shrink, so the
/// amount is negated for them.
pub open spec fn resize_amount<R: SplitRatio>(direction: ResizeDirection, delta: R) -> R {
    match direction {
        ResizeDirection::Left | ResizeDirection::Up => delta.negation(),
        ResizeDirection::Right | ResizeDirection::Down => delta,
    }
}

/// The split axis that a resize in `direction` acts along.
pub open spec fn resize_axis(direction: ResizeDirection) -> SplitAxis {
    match direction {
        ResizeDirection::Left | ResizeDirection::Right => SplitAxis::Horizontal,
        ResizeDirection::Up | ResizeDirection::Down => SplitAxis::Vertical,
    }
}

/// The optional title is present and reads `text`.
pub open spec fn is_titled(title: Option<String>, text: Seq<char>) -> bool {
    title is Some && title->0@ == text
}

/// `after` is `before` with session `session_id`, if there is one, titled
/// `title`.
pub open spec fn session_titled(before: Seq<Session>, after: Seq<Session>, session_id: SessionId, title: Seq<char>) -> bool {
    if has_key(before, session_id.0) {
        exists|j: int| 0 <= j < before.len() && before[j].id == session_id
            && after.len() == before.len()
            && (forall|u: int| 0 <= u < before.len() && u != j ==> after[u] == before[u])
            && after[j] == (Session { title: after[j].title, ..before[j] })
            && is_titled(after[j].title, title)
    } else {
        after == before
    }
}

/// `after` is `before` without the session `session_id`, if it had one.
pub open spec fn session_removed(before: Seq<Session>, after: Seq<Session>, session_id: SessionId) -> bool {
    if has_key(before, session_id.0) {
        exists|j: int| 0 <= j < before.len() && before[j].id == session_id && after == before.remove(j)
    } else {
        after == before
    }
}

impl<R: SplitRatio> Tab<R> {
    /// A tab with one pane running one session.
    pub fn single_pane(id: TabId, name: &str, pane: Pane, session: Session) -> (r: Tab<R>)
        ensures
            r.wf(),
            r.id == id,
            r.name@ == name@,
            r.title_source == TabTitleSource::Default,
            r.root == SplitTree::<R>::Pane(pane.id),
            r.active_pane == pane.id,
            r.panes@ == seq![pane],
            r.sessions@ == seq![session],
            r.zoomed_pane is None,
    {
        let pane_id = pane.id;
        let mut panes: Vec<Pane> = Vec::new();
        panes.push(pane);
        let mut sessions: Vec<Session> = Vec::new();
        sessions.push(session);
        proof {
            assert(panes@ =~= seq![pane]);
            assert(sessions@ =~= seq![session]);
        }
        Tab {
            id,
            name: name.to_owned(),
            title_source: TabTitleSource::Default,
            panes,
            sessions,
            root: SplitTree::Pane(pane_id),
            active_pane: pane_id,
            zoomed_pane: None,
        }
    }

    /// The focused pane.
    pub fn active_pane(&self) -> (r: &Pane)
        requires
            self.wf(),
            self.has_pane(self.active_pane),
        ensures
            r.id == self.active_pane,
            self.panes@.contains(*r),
    {
        let index = find_key(&self.panes, self.active_pane.0).unwrap();
        &self.panes[index]
    }

    /// Resizes the focused pane: `delta` moves weight toward it along the
    /// direction's axis (negated for left and up), then the layout is
    /// normalized.
    pub fn resize_active_pane(&mut self, direction: ResizeDirection, delta: R) -> (r: Result<(), MuxError>)
        requires
            old(self).wf(),
        ensures
            final(self).wf(),
            final(self).id == old(self).id,
            final(self).name == old(self).name,
            final(self).title_source == old(self).title_source,
            final(self).panes == old(self).panes,
            final(self).sessions == old(self).sessions,
            final(self).active_pane == old(self).active_pane,
            final(self).zoomed_pane == old(self).zoomed_pane,
            final(self).root.leaves() == old(self).root.leaves(),
            r is Err ==> r == Err::<(), MuxError>(MuxError::PaneNotFound(old(self).active_pane))
                && old(self).root.same_shape(final(self).root),
            r is Ok ==> old(self).root.leaves().contains(old(self).active_pane) && final(self).root.is_normal(),
            r is Ok <==> old(self).root.resizable(old(self).active_pane, resize_axis(direction), resize_amount(direction, delta).forward()),
            r is Ok ==> exists|resized: SplitTree<R>|
                resized_from(old(self).root, resized, old(self).active_pane, resize_axis(direction), resize_amount(direction, delta))
                    && #[trigger] normalized_from(resized, final(self).root),
    {
        let axis = direction.axis();
        let signed = match direction {
            ResizeDirection::Left | ResizeDirection::Up => delta.negated(),
            ResizeDirection::Right | ResizeDirection::Down => delta,
        };
        let outcome = self.root.resize_pane(self.active_pane, axis, signed);
        if outcome.is_err() {
            return outcome;
        }
        let ghost resized = self.root;
        self.root.normalize();
        proof {
            assert(normalized_from(resized, self.root));
        }
        Ok(())
    }

    /// A session reported a title for one of the tab's panes: the tab takes
    /// it unless the user named the tab.
    pub fn update_title_from_session(&mut self, pane_id: PaneId, title: &str) -> (r: Result<(), MuxError>)
        ensures
            !old(self).has_pane(pane_id) ==> r == Err::<(), MuxError>(MuxError::PaneNotFound(pane_id))
                && *final(self) == *old(self),
            old(self).has_pane(pane_id) ==> r is Ok,
            old(self).has_pane(pane_id) && old(self).title_source == TabTitleSource::User ==> *final(self) == *old(self),
            old(self).has_pane(pane_id) && old(self).title_source != TabTitleSource::User ==> {
                &&& final(self).name@ == title@
                &&& final(self).title_source == TabTitleSource::Session
                &&& final(self).id == old(self).id
                &&& final(self).panes == old(self).panes
                &&& final(self).sessions == old(self).sessions
                &&& final(self).root == old(self).root
                &&& final(self).active_pane == old(self).active_pane
                &&& final(self).zoomed_pane == old(self).zoomed_pane
            },
    {
        if !contains_pane_id(&self.panes, pane_id) {
            return Err(MuxError::PaneNotFound(pane_id));
        }
        if self.title_source != TabTitleSource::User {
            self.name = title.to_owned();
            self.title_source = TabTitleSource::Session;
        }
        Ok(())
    }

    /// Closes a pane of a tab that has more than one: the pane and its
    /// session leave the tab, the pane leaves the layout, which is then
    /// normalized, focus moves to the layout's first pane if the closed pane
    /// had it, and a zoom on it ends. When the layout refuses the removal,
    /// the pane and its session are already gone and the error is returned.
    pub fn close_pane(&mut self, pane_id: PaneId) -> (r: Result<(), MuxError>)
        requires
            old(self).wf(),
            old(self).close_leaves_a_pane(pane_id),
        ensures
            final(self).wf(),
            tab_closed_pane(*old(self), *final(self), pane_id, r),
    {
        if self.panes.len() == 1 {
            return Err(MuxError::CannotCloseLastPane);
        }
        let index = match find_key(&self.panes, pane_id.0) {
            Some(index) => index,
            None => {
                return Err(MuxError::PaneNotFound(pane_id));
            },
        };
        proof {
            lemma_remove_keeps_increasing(self.panes@, index as int);
        }
        let pane = self.panes.remove(index);
        let _ = remove_by_key(&mut self.sessions, pane.session_id.0);
        let outcome = self.root.remove_pane(pane_id);
        if outcome.is_err() {
            return outcome;
        }
        self.root.normalize();
        if self.active_pane == pane_id {
            match self.root.first_pane() {
                Some(first) => {
                    self.active_pane = first;
                },
                None => {},
            }
        }
        if self.zoomed_pane == Some(pane_id) {
            self.zoomed_pane = None;
        }
        Ok(())
    }
}

/// The position of the first occurrence of `id` in `ids`, or -1.
pub open spec fn first_index_of(ids: Seq<u64>, id: u64) -> int
    decreases ids.len(),
{
    if ids.len() == 0 {
        -1
    } else if ids[0] == id {
        0
    } else {
        let rest = first_index_of(ids.skip(1), id);
        if rest < 0 { -1 } else { rest + 1 }
    }
}

pub proof fn lemma_first_index_of(ids: Seq<u64>, id: u64)
    ensures
        first_index_of(ids, id) < 0 <==> !ids.contains(id),
        first_index_of(ids, id) >= 0 ==> {
            let k = first_index_of(ids, id);
            &&& k < ids.len()
            &&& ids[k] == id
            &&& forall|j: int| 0 <= j < k ==> ids[j] != id
        },
        first_index_of(ids, id) >= -1,
    decreases ids.len(),
{
    if ids.len() > 0 {
        lemma_first_index_of(ids.skip(1), id);
        if ids[0] == id {
            assert(ids.contains(id));
        } else {
            let rest = first_index_of(ids.skip(1), id);
            assert(ids.contains(id) == ids.skip(1).contains(id)) by {
                if ids.contains(id) {
                    let k = choose|k: int| 0 <= k < ids.len() && ids[k] == id;
                    assert(ids.skip(1)[k - 1] == id);
                }
                if ids.skip(1).contains(id) {
                    let k = choose|k: int| 0 <= k < ids.skip(1).len() && ids.skip(1)[k] == id;
                    assert(ids[k + 1] == id);
                }
            }
            if rest >= 0 {
                assert forall|j: int| 0 <= j < rest + 1 implies ids[j] != id by {
                    if j > 0 {
                        assert(ids[j] == ids.skip(1)[j - 1]);
                    }
                }
                assert(ids[rest + 1] == ids.skip(1)[rest]);
            }
        }
    }
}

/// The first position in `ids` holding `id`, found by a scan.
pub fn find_first(ids: &Vec<u64>, id: u64) -> (r: Option<usize>)
    ensures
        r == (if first_index_of(ids@, id) < 0 { None } else { Some(first_index_of(ids@, id) as usize) }),
{
    proof {
        lemma_first_index_of(ids@, id);
    }
    let mut i: usize = 0;
    while i < ids.len()
        invariant
            0 <= i <= ids.len(),
            forall|j: int| 0 <= j < i ==> ids@[j] != id,
        decreases ids.len() - i,
    {
        if ids[i] == id {
            proof {
                lemma_first_index_of(ids@, id);
                assert(ids@[i as int] == id);
                assert(ids@.contains(id));
                let k = first_index_of(ids@, id);
                assert(0 <= k < ids@.len());
                if k < i {
                    assert(ids@[k] != id);
                }
                if k > i {
                    assert(ids@[i as int] != id);
                }
            }
            return Some(i);
        }
        i = i + 1;
    }
    proof {
        if ids@.contains(id) {
            let k = choose|k: int| 0 <= k < ids@.len() && ids@[k] == id;
            assert(ids@[k] != id);
        }
    }
    None
}

#[derive(Debug)]
pub struct WindowModel<R> {
    pub id: WindowId,
    pub tabs: Vec<Tab<R>>,
    pub active_tab: TabId,
}

#[derive(Debug)]
pub struct Workspace<R> {
    pub id: WorkspaceId,
    pub name: String,
    pub windows: Vec<WindowModel<R>>,
    pub active_window: WindowId,
}

impl<R> Keyed for Workspace<R> {
    open spec fn key_of(&self) -> u64 {
        self.id.0
    }

    fn key(&self) -> (r: u64) {
        self.id.0
    }
}

/// The identifiers of the tabs, in order.
pub open spec fn tab_ids<R>(tabs: Seq<Tab<R>>) -> Seq<u64> {
    Seq::new(tabs.len(), |i: int| tabs[i].id.0)
}

/// The identifiers of the windows, in order.
pub open spec fn window_ids<R>(windows: Seq<WindowModel<R>>) -> Seq<u64> {
    Seq::new(windows.len(), |i: int| windows[i].id.0)
}

/// The identifiers of the tabs, collected.
fn collect_tab_ids<R>(tabs: &Vec<Tab<R>>) -> (r: Vec<u64>)
    ensures
        r@ == tab_ids(tabs@),
{
    let mut ids: Vec<u64> = Vec::new();
    let mut i: usize = 0;
    while i < tabs.len()
        invariant
            0 <= i <= tabs.len(),
            ids@ == tab_ids(tabs@).take(i as int),
        decreases tabs.len() - i,
    {
        ids.push(tabs[i].id.0);
        i = i + 1;
        proof {
            assert(ids@ =~= tab_ids(tabs@).take(i as int));
        }
    }
    proof {
        assert(tab_ids(tabs@).take(i as int) =~= tab_ids(tabs@));
    }
    ids
}

/// The identifiers of the windows, collected.
fn collect_window_ids<R>(windows: &Vec<WindowModel<R>>) -> (r: Vec<u64>)
    ensures
        r@ == window_ids(windows@),
{
    let mut ids: Vec<u64> = Vec::new();
    let mut i: usize = 0;
    while i < windows.len()
        invariant
            0 <= i <= windows.len(),
            ids@ == window_ids(windows@).take(i as int),
        decreases windows.len() - i,
    {
        ids.push(windows[i].id.0);
        i = i + 1;
        proof {
            assert(ids@ =~= window_ids(windows@).take(i as int));
        }
    }
    proof {
        assert(window_ids(windows@).take(i as int) =~= window_ids(windows@));
    }
    ids
}

/// The position of the first tab with identifier `id`, found by a scan.
pub fn find_tab<R>(tabs: &Vec<Tab<R>>, id: TabId) -> (r: Option<usize>)
    ensures
        r == (if first_index_of(tab_ids(tabs@), id.0) < 0 {
            None
        } else {
            Some(first_index_of(tab_ids(tabs@), id.0) as usize)
        }),
{
    let ids = collect_tab_ids(tabs);
    find_first(&ids, id.0)
}

/// The position of the first window with identifier `id`, found by a scan.
pub fn find_window<R>(windows: &Vec<WindowModel<R>>, id: WindowId) -> (r: Option<usize>)
    ensures
        r == (if first_index_of(window_ids(windows@), id.0) < 0 {
            None
        } else {
            Some(first_index_of(window_ids(windows@), id.0) as usize)
        }),
{
    let ids = collect_window_ids(windows);
    find_first(&ids, id.0)
}

impl<R> WindowModel<R> {
    /// The position of the focused tab.
    pub open spec fn active_index(self) -> int {
        first_index_of(tab_ids(self.tabs@), self.active_tab.0)
    }

    /// The window has a tab, its focused tab exists, and every tab is well
    /// formed.
    pub open spec fn wf(self) -> bool {
        &&& self.tabs.len() > 0
        &&& self.active_index() >= 0
        &&& forall|k: int| 0 <= k < self.tabs.len() ==> #[trigger] self.tabs@[k].wf()
    }
}

impl<R> Workspace<R> {
    /// The position of the focused window.
    pub open spec fn active_index(self) -> int {
        first_index_of(window_ids(self.windows@), self.active_window.0)
    }

    /// The workspace has a window, its focused window exists, and every
    /// window is well formed.
    pub open spec fn wf(self) -> bool {
        &&& self.windows.len() > 0
        &&& self.active_index() >= 0
        &&& forall|k: int| 0 <= k < self.windows.len() ==> #[trigger] self.windows@[k].wf()
    }
}

impl<R: SplitRatio> WindowModel<R> {
    /// The focused tab.
    pub fn active_tab(&self) -> (r: &Tab<R>)
        requires
            self.wf(),
        ensures
            *r == self.tabs@[self.active_index()],
    {
        proof {
            lemma_first_index_of(tab_ids(self.tabs@), self.active_tab.0);
        }
        let index = find_tab(&self.tabs, self.active_tab).unwrap();
        &self.tabs[index]
    }

    /// The focused tab, to change in place.
    pub fn active_tab_mut(&mut self) -> (r: &mut Tab<R>)
        requires
            old(self).wf(),
        ensures
            *r == old(self).tabs@[old(self).active_index()],
            final(self).id == old(self).id,
            final(self).active_tab == old(self).active_tab,
            final(self).tabs@ == old(self).tabs@.update(old(self).active_index(), *final(r)),
    {
        proof {
            lemma_first_index_of(tab_ids(self.tabs@), self.active_tab.0);
        }
        let index = find_tab(&self.tabs, self.active_tab).unwrap();
        &mut self.tabs[index]
    }

    /// The tab with identifier `id`, to change in place.
    pub fn tab_mut(&mut self, id: TabId) -> (r: Result<&mut Tab<R>, MuxError>)
        ensures
            first_index_of(tab_ids(old(self).tabs@), id.0) < 0 ==> r is Err && r->Err_0 == MuxError::TabNotFound(id)
                && *final(self) == *old(self),
            first_index_of(tab_ids(old(self).tabs@), id.0) >= 0 ==> r is Ok && ({
                let k = first_index_of(tab_ids(old(self).tabs@), id.0);
                &&& *r->Ok_0 == old(self).tabs@[k]
                &&& final(self).id == old(self).id
                &&& final(self).active_tab == old(self).active_tab
                &&& final(self).tabs@ == old(self).tabs@.update(k, *final(r->Ok_0))
            }),
    {
        proof {
            let k = first_index_of(tab_ids(self.tabs@), id.0);
            lemma_first_index_of(tab_ids(self.tabs@), id.0);
            assert(k < self.tabs.len());
        }
        match find_tab(&self.tabs, id) {
            Some(index) => Ok(&mut self.tabs[index]),
            None => Err(MuxError::TabNotFound(id)),
        }
    }
}

impl<R: SplitRatio> Workspace<R> {
    /// The focused window.
    pub fn active_window(&self) -> (r: &WindowModel<R>)
        requires
            self.wf(),
        ensures
            *r == self.windows@[self.active_index()],
    {
        proof {
            lemma_first_index_of(window_ids(self.windows@), self.active_window.0);
        }
        let index = find_window(&self.windows, self.active_window).unwrap();
        &self.windows[index]
    }

    /// The focused window, to change in place.
    pub fn active_window_mut(&mut self) -> (r: &mut WindowModel<R>)
        requires
            old(self).wf(),
        ensures
            *r == old(self).windows@[old(self).active_index()],
            final(self).id == old(self).id,
            final(self).name == old(self).name,
            final(self).active_window == old(self).active_window,
            final(self).windows@ == old(self).windows@.update(old(self).active_index(), *final(r)),
    {
        proof {
            lemma_first_index_of(window_ids(self.windows@), self.active_window.0);
        }
        let index = find_window(&self.windows, self.active_window).unwrap();
        &mut self.windows[index]
    }
}

/// The identifiers of the workspaces, in order.
pub open spec fn workspace_ids<R>(workspaces: Seq<Workspace<R>>) -> Seq<u64> {
    Seq::new(workspaces.len(), |i: int| workspaces[i].id.0)
}

/// The identifiers of the workspaces, collected.
fn collect_workspace_ids<R>(workspaces: &Vec<Workspace<R>>) -> (r: Vec<u64>)
    ensures
        r@ == workspace_ids(workspaces@),
{
    let mut ids: Vec<u64> = Vec::new();
    let mut i: usize = 0;
    while i < workspaces.len()
        invariant
            0 <= i <= workspaces.len(),
            ids@ == workspace_ids(workspaces@).take(i as int),
        decreases workspaces.len() - i,
    {
        ids.push(workspaces[i].id.0);
        i = i + 1;
        proof {
            assert(ids@ =~= workspace_ids(workspaces@).take(i as int));
        }
    }
    proof {
        assert(workspace_ids(workspaces@).take(i as int) =~= workspace_ids(workspaces@));
    }
    ids
}

/// The position of the workspace with identifier `id`, found by a scan.
pub fn find_workspace<R>(workspaces: &Vec<Workspace<R>>, id: WorkspaceId) -> (r: Option<usize>)
    ensures
        r == (if first_index_of(workspace_ids(workspaces@), id.0) < 0 {
            None
        } else {
            Some(first_index_of(workspace_ids(workspaces@), id.0) as usize)
        }),
{
    let ids = collect_workspace_ids(workspaces);
    find_first(&ids, id.0)
}

/// The revision after a layout change: one more, wrapping past the largest
/// value to one, so that it never stays the same.
pub open spec fn next_revision(revision: u64) -> u64 {
    if revision == u64::MAX { 1 } else { (revision + 1) as u64 }
}

#[derive(Debug)]
pub struct MuxModel<R> {
    pub workspaces: Vec<Workspace<R>>,
    pub active_workspace: WorkspaceId,
    pub counters: IdCounters,
    pub layout_revision: u64,
}

impl<R> MuxModel<R> {
    /// The layout revision.
    pub open spec fn revision(self) -> u64 {
        self.layout_revision
    }

    /// The identifiers that the model hands out next.
    pub open spec fn next_ids(self) -> IdCounters {
        self.counters
    }

    /// No identifier counter is exhausted.
    pub open spec fn can_allocate(self) -> bool {
        &&& self.next_ids().workspace < u64::MAX
        &&& self.next_ids().window < u64::MAX
        &&& self.next_ids().tab < u64::MAX
        &&& self.next_ids().pane < u64::MAX
        &&& self.next_ids().session < u64::MAX
    }

    /// The position of the focused workspace.
    pub open spec fn active_index(self) -> int {
        first_index_of(workspace_ids(self.workspaces@), self.active_workspace.0)
    }

    /// The focused workspace.
    pub open spec fn active_workspace_view(self) -> Workspace<R> {
        self.workspaces@[self.active_index()]
    }

    /// The focused window of the focused workspace.
    pub open spec fn active_window_view(self) -> WindowModel<R> {
        let workspace = self.active_workspace_view();
        workspace.windows@[workspace.active_index()]
    }

    /// The focused tab of the focused window.
    pub open spec fn active_tab_view(self) -> Tab<R> {
        let window = self.active_window_view();
        window.tabs@[window.active_index()]
    }

    /// The tab at workspace `w`, window `n`, position `t` has pane `pane_id`.
    pub open spec fn holds_pane(self, w: int, n: int, t: int, pane_id: PaneId) -> bool {
        &&& 0 <= w < self.workspaces.len()
        &&& 0 <= n < self.workspaces@[w].windows.len()
        &&& 0 <= t < self.workspaces@[w].windows@[n].tabs.len()
        &&& self.workspaces@[w].windows@[n].tabs@[t].has_pane(pane_id)
    }

    /// Some tab of the model has pane `pane_id`.
    pub open spec fn has_pane_anywhere(self, pane_id: PaneId) -> bool {
        exists|w: int, n: int, t: int| self.holds_pane(w, n, t, pane_id)
    }

    /// `(w, n, t)` is the first tab with pane `pane_id`, in the order of
    /// workspaces, then windows, then tabs.
    pub open spec fn first_holder(self, pane_id: PaneId, w: int, n: int, t: int) -> bool {
        &&& self.holds_pane(w, n, t, pane_id)
        &&& forall|w2: int, n2: int, t2: int| #[trigger] self.holds_pane(w2, n2, t2, pane_id) ==>
            (w2 > w || (w2 == w && (n2 > n || (n2 == n && t2 >= t))))
    }

    /// Where the first tab with pane `pane_id` sits.
    pub open spec fn pane_location(self, pane_id: PaneId) -> (int, int, int) {
        choose|w: int, n: int, t: int| self.first_holder(pane_id, w, n, t)
    }

    /// The first tab with pane `pane_id`.
    pub open spec fn pane_tab(self, pane_id: PaneId) -> Tab<R> {
        let (w, n, t) = self.pane_location(pane_id);
        self.workspaces@[w].windows@[n].tabs@[t]
    }

    /// Closing pane `pane_id` after its session exited is safe: if the
    /// first tab with it keeps other panes, its layout keeps one too.
    pub open spec fn exit_close_leaves_a_pane(self, pane_id: PaneId) -> bool {
        self.has_pane_anywhere(pane_id) ==> self.pane_tab(pane_id).close_leaves_a_pane(pane_id)
    }

    /// Workspaces are ordered by identifier, below the next one to hand
    /// out, the focused workspace exists, and every workspace is well formed.
    pub open spec fn wf(self) -> bool {
        &&& self.workspaces.len() > 0
        &&& keys_increasing(self.workspaces@)
        &&& self.active_index() >= 0
        &&& forall|k: int| 0 <= k < self.workspaces.len() ==> #[trigger] self.workspaces@[k].wf()
        &&& forall|k: int| 0 <= k < self.workspaces.len() ==> #[trigger] self.workspaces@[k].id.0 < self.next_ids().workspace
    }
}

/// `after` is `before` with the tab at window `n` of workspace `w`,
/// position `t`, replaced by `tab`; the focus and the identifier counters
/// may differ.
pub open spec fn tab_replaced<R>(before: MuxModel<R>, after: MuxModel<R>, w: int, n: int, t: int, tab: Tab<R>) -> bool {
    let (old_ws, new_ws) = (before.workspaces@[w], after.workspaces@[w]);
    let (old_win, new_win) = (old_ws.windows@[n], new_ws.windows@[n]);
    &&& 0 <= w < before.workspaces.len()
    &&& 0 <= n < old_ws.windows.len()
    &&& 0 <= t < old_win.tabs.len()
    &&& after.workspaces.len() == before.workspaces.len()
    &&& forall|k: int| 0 <= k < before.workspaces.len() && k != w ==> after.workspaces@[k] == before.workspaces@[k]
    &&& new_ws.id == old_ws.id
    &&& new_ws.name == old_ws.name
    &&& new_ws.active_window == old_ws.active_window
    &&& new_ws.windows.len() == old_ws.windows.len()
    &&& forall|m: int| 0 <= m < old_ws.windows.len() && m != n ==> new_ws.windows@[m] == old_ws.windows@[m]
    &&& new_win.id == old_win.id
    &&& new_win.active_tab == old_win.active_tab
    &&& new_win.tabs.len() == old_win.tabs.len()
    &&& forall|u: int| 0 <= u < old_win.tabs.len() && u != t ==> new_win.tabs@[u] == old_win.tabs@[u]
    &&& new_win.tabs@[t] == tab
}

/// `after` is `before` with window `n` of workspace `w` replaced by
/// `window`; the focus and the identifier counters may differ.
pub open spec fn window_replaced<R>(before: MuxModel<R>, after: MuxModel<R>, w: int, n: int, window: WindowModel<R>) -> bool {
    let (old_ws, new_ws) = (before.workspaces@[w], after.workspaces@[w]);
    &&& 0 <= w < before.workspaces.len()
    &&& 0 <= n < old_ws.windows.len()
    &&& after.workspaces.len() == before.workspaces.len()
    &&& forall|k: int| 0 <= k < before.workspaces.len() && k != w ==> after.workspaces@[k] == before.workspaces@[k]
    &&& new_ws.id == old_ws.id
    &&& new_ws.name == old_ws.name
    &&& new_ws.active_window == old_ws.active_window
    &&& new_ws.windows.len() == old_ws.windows.len()
    &&& forall|m: int| 0 <= m < old_ws.windows.len() && m != n ==> new_ws.windows@[m] == old_ws.windows@[m]
    &&& new_ws.windows@[n] == window
}

/// Replacing one window by a well-formed window with the same identifier
/// keeps the model well formed and the focused workspace and window where
/// they were.
pub proof fn lemma_window_replaced<R>(before: MuxModel<R>, after: MuxModel<R>, w: int, n: int, window: WindowModel<R>)
    requires
        before.wf(),
        window_replaced(before, after, w, n, window),
        window.wf(),
        window.id == before.workspaces@[w].windows@[n].id,
        after.active_workspace == before.active_workspace,
        after.next_ids().workspace >= before.next_ids().workspace,
    ensures
        after.wf(),
        after.active_index() == before.active_index(),
        after.workspaces@[w].active_index() == before.workspaces@[w].active_index(),
        forall|k: int| 0 <= k < after.workspaces.len() ==> #[trigger] after.workspaces@[k].id == before.workspaces@[k].id,
{
    let old_ws = before.workspaces@[w];
    let new_ws = after.workspaces@[w];
    assert(old_ws.wf());
    assert(window_ids(new_ws.windows@) =~= window_ids(old_ws.windows@)) by {
        assert forall|m: int| 0 <= m < old_ws.windows.len() implies new_ws.windows@[m].id == old_ws.windows@[m].id by {
            if m != n {
                assert(new_ws.windows@[m] == old_ws.windows@[m]);
            }
        }
    }
    assert(new_ws.wf()) by {
        assert forall|m: int| 0 <= m < new_ws.windows.len() implies #[trigger] new_ws.windows@[m].wf() by {
            if m != n {
                assert(new_ws.windows@[m] == old_ws.windows@[m]);
            }
        }
    }
    lemma_workspace_replaced(before, after, w, new_ws);
}

/// `after` is `before` with workspace `w` replaced by `workspace`; the
/// focus and the identifier counters may differ.
pub open spec fn workspace_replaced<R>(before: MuxModel<R>, after: MuxModel<R>, w: int, workspace: Workspace<R>) -> bool {
    &&& 0 <= w < before.workspaces.len()
    &&& after.workspaces.len() == before.workspaces.len()
    &&& forall|k: int| 0 <= k < before.workspaces.len() && k != w ==> after.workspaces@[k] == before.workspaces@[k]
    &&& after.workspaces@[w] == workspace
}

/// Replacing one workspace by a well-formed workspace with the same
/// identifier keeps the model well formed and its focus where it was.
pub proof fn lemma_workspace_replaced<R>(before: MuxModel<R>, after: MuxModel<R>, w: int, workspace: Workspace<R>)
    requires
        before.wf(),
        workspace_replaced(before, after, w, workspace),
        workspace.wf(),
        workspace.id == before.workspaces@[w].id,
        after.active_workspace == before.active_workspace,
        after.next_ids().workspace >= before.next_ids().workspace,
    ensures
        after.wf(),
        after.active_index() == before.active_index(),
        forall|k: int| 0 <= k < after.workspaces.len() ==> #[trigger] after.workspaces@[k].id == before.workspaces@[k].id,
{
    assert forall|k: int| 0 <= k < after.workspaces.len() implies #[trigger] after.workspaces@[k].id == before.workspaces@[k].id by {
        if k != w {
            assert(after.workspaces@[k] == before.workspaces@[k]);
        }
    }
    assert(workspace_ids(after.workspaces@) =~= workspace_ids(before.workspaces@));
    assert forall|k: int| 0 <= k < after.workspaces.len() implies #[trigger] after.workspaces@[k].wf() by {
        if k != w {
            assert(after.workspaces@[k] == before.workspaces@[k]);
        }
    }
    assert forall|k: int| 0 <= k < after.workspaces.len() implies #[trigger] after.workspaces@[k].id.0 < after.next_ids().workspace by {
        if k != w {
            assert(after.workspaces@[k] == before.workspaces@[k]);
        }
    }
    assert(keys_increasing(after.workspaces@)) by {
        assert forall|i: int, j: int| 0 <= i < j < after.workspaces@.len() implies
            #[trigger] after.workspaces@[i].key_of() < #[trigger] after.workspaces@[j].key_of() by {
            assert(after.workspaces@[i].id == before.workspaces@[i].id);
            assert(after.workspaces@[j].id == before.workspaces@[j].id);
            assert(before.workspaces@[i].key_of() < before.workspaces@[j].key_of());
        }
    }
}

/// Replacing one tab by a well-formed tab with the same identifier keeps
/// the model well formed and every focus where it was.
pub proof fn lemma_tab_replaced<R>(before: MuxModel<R>, after: MuxModel<R>, w: int, n: int, t: int, tab: Tab<R>)
    requires
        before.wf(),
        tab_replaced(before, after, w, n, t, tab),
        tab.wf(),
        tab.id == before.workspaces@[w].windows@[n].tabs@[t].id,
        after.active_workspace == before.active_workspace,
        after.next_ids().workspace >= before.next_ids().workspace,
    ensures
        after.wf(),
        after.active_index() == before.active_index(),
        after.workspaces@[w].active_index() == before.workspaces@[w].active_index(),
        after.workspaces@[w].windows@[n].active_index() == before.workspaces@[w].windows@[n].active_index(),
        forall|k: int| 0 <= k < after.workspaces.len() ==> #[trigger] after.workspaces@[k].id == before.workspaces@[k].id,
{
    let old_ws = before.workspaces@[w];
    let new_ws = after.workspaces@[w];
    let old_win = old_ws.windows@[n];
    let new_win = new_ws.windows@[n];
    assert(tab_ids(new_win.tabs@) =~= tab_ids(old_win.tabs@)) by {
        assert forall|u: int| 0 <= u < old_win.tabs.len() implies new_win.tabs@[u].id == old_win.tabs@[u].id by {
            if u != t {
                assert(new_win.tabs@[u] == old_win.tabs@[u]);
            }
        }
    }
    assert(old_ws.wf());
    assert(old_win.wf());
    assert(new_win.wf()) by {
        assert forall|u: int| 0 <= u < new_win.tabs.len() implies #[trigger] new_win.tabs@[u].wf() by {
            if u != t {
                assert(new_win.tabs@[u] == old_win.tabs@[u]);
            }
        }
    }
    assert(window_ids(new_ws.windows@) =~= window_ids(old_ws.windows@)) by {
        assert forall|m: int| 0 <= m < old_ws.windows.len() implies new_ws.windows@[m].id == old_ws.windows@[m].id by {
            if m != n {
                assert(new_ws.windows@[m] == old_ws.windows@[m]);
            }
        }
    }
    assert(new_ws.wf()) by {
        assert forall|m: int| 0 <= m < new_ws.windows.len() implies #[trigger] new_ws.windows@[m].wf() by {
            if m != n {
                assert(new_ws.windows@[m] == old_ws.windows@[m]);
            }
        }
    }
    assert forall|k: int| 0 <= k < after.workspaces.len() implies #[trigger] after.workspaces@[k].id == before.workspaces@[k].id by {
        if k != w {
            assert(after.workspaces@[k] == before.workspaces@[k]);
        }
    }
    assert(workspace_ids(after.workspaces@) =~= workspace_ids(before.workspaces@));
    assert forall|k: int| 0 <= k < after.workspaces.len() implies #[trigger] after.workspaces@[k].wf() by {
        if k != w {
            assert(after.workspaces@[k] == before.workspaces@[k]);
        }
    }
    assert forall|k: int| 0 <= k < after.workspaces.len() implies #[trigger] after.workspaces@[k].id.0 < after.next_ids().workspace by {
        if k != w {
            assert(after.workspaces@[k] == before.workspaces@[k]);
        }
    }
    assert(keys_increasing(after.workspaces@)) by {
        assert forall|i: int, j: int| 0 <= i < j < after.workspaces@.len() implies
            #[trigger] after.workspaces@[i].key_of() < #[trigger] after.workspaces@[j].key_of() by {
            assert(after.workspaces@[i].id == before.workspaces@[i].id);
            assert(after.workspaces@[j].id == before.workspaces@[j].id);
            assert(before.workspaces@[i].key_of() < before.workspaces@[j].key_of());
        }
    }
}

impl<R: SplitRatio> MuxModel<R> {
    /// A model with one workspace, "default", holding one window with one
    /// tab, "1", whose one pane runs `default_session`. Every identifier is
    /// the first of its kind.
    pub fn new(default_session: SessionSpec) -> (r: MuxModel<R>)
        ensures
            r.wf(),
            r.can_allocate(),
            r.revision() == 1,
            r.workspaces.len() == 1,
            r.active_workspace == WorkspaceId(1),
            r.workspaces@[0].id == WorkspaceId(1),
            r.workspaces@[0].name@ == "default"@,
            r.workspaces@[0].windows.len() == 1,
            r.workspaces@[0].active_window == WindowId(1),
            r.workspaces@[0].windows@[0].id == WindowId(1),
            r.workspaces@[0].windows@[0].tabs.len() == 1,
            r.workspaces@[0].windows@[0].active_tab == TabId(1),
            ({
                let tab = r.workspaces@[0].windows@[0].tabs@[0];
                &&& tab.id == TabId(1)
                &&& tab.name@ == "1"@
                &&& tab.title_source == TabTitleSource::Default
                &&& tab.root == SplitTree::<R>::Pane(PaneId(1))
                &&& tab.active_pane == PaneId(1)
                &&& tab.zoomed_pane is None
                &&& tab.panes@ == seq![Pane { id: PaneId(1), session_id: SessionId(1), title: None, last_size: None }]
                &&& tab.sessions.len() == 1
                &&& tab.sessions@[0].id == SessionId(1)
                &&& tab.sessions@[0].spec == default_session
                &&& tab.sessions@[0].status is Pending
            }),
            r.next_ids() == (IdCounters { workspace: 2, window: 2, tab: 2, pane: 2, session: 2 }),
    {
        let mut counters = IdCounters::new();
        let workspace_id = counters.next_workspace();
        let window_id = counters.next_window();
        let tab_id = counters.next_tab();
        let pane_id = counters.next_pane();
        let session_id = counters.next_session();

        let session = Session::new(session_id, default_session);
        let pane = Pane::new(pane_id, session_id);
        let tab = Tab::single_pane(tab_id, "1", pane, session);
        let mut tabs: Vec<Tab<R>> = Vec::new();
        tabs.push(tab);
        let window = WindowModel { id: window_id, tabs, active_tab: tab_id };
        let mut windows: Vec<WindowModel<R>> = Vec::new();
        windows.push(window);
        let workspace = Workspace { id: workspace_id, name: "default".to_owned(), windows, active_window: window_id };
        let mut workspaces: Vec<Workspace<R>> = Vec::new();
        workspaces.push(workspace);
        let model = MuxModel { workspaces, active_workspace: workspace_id, counters, layout_revision: 1 };
        proof {
            reveal_strlit("default");
            reveal_strlit("1");
            assert(tab_ids(model.workspaces@[0].windows@[0].tabs@) =~= seq![1u64]);
            assert(window_ids(model.workspaces@[0].windows@) =~= seq![1u64]);
            assert(workspace_ids(model.workspaces@) =~= seq![1u64]);
            assert(model.workspaces@[0].windows@[0].active_index() == 0);
            assert(model.workspaces@[0].active_index() == 0);
            assert(model.active_index() == 0);
        }
        model
    }

    /// Changes with every mutation that moves or resizes panes on screen.
    pub fn layout_revision(&self) -> (r: u64)
        ensures
            r == self.revision(),
    {
        self.layout_revision
    }

    fn bump_layout_revision(&mut self)
        ensures
            final(self).revision() == next_revision(old(self).revision()),
            final(self).workspaces == old(self).workspaces,
            final(self).active_workspace == old(self).active_workspace,
            final(self).next_ids() == old(self).next_ids(),
    {
        if self.layout_revision == u64::MAX {
            self.layout_revision = 1;
        } else {
            self.layout_revision = self.layout_revision + 1;
        }
    }

    /// The focused workspace.
    pub fn active_workspace(&self) -> (r: &Workspace<R>)
        requires
            self.wf(),
        ensures
            *r == self.active_workspace_view(),
    {
        proof {
            lemma_first_index_of(workspace_ids(self.workspaces@), self.active_workspace.0);
        }
        let index = find_workspace(&self.workspaces, self.active_workspace).unwrap();
        &self.workspaces[index]
    }

    /// The focused tab of the focused window of the focused workspace.
    pub fn active_tab(&self) -> (r: &Tab<R>)
        requires
            self.wf(),
        ensures
            *r == self.active_tab_view(),
    {
        let workspace = self.active_workspace();
        proof {
            lemma_first_index_of(workspace_ids(self.workspaces@), self.active_workspace.0);
            assert(self.workspaces@[self.active_index()].wf());
        }
        let window = workspace.active_window();
        proof {
            lemma_first_index_of(window_ids(workspace.windows@), workspace.active_window.0);
            assert(workspace.windows@[workspace.active_index()].wf());
        }
        window.active_tab()
    }

    /// The focused workspace, to change in place.
    pub fn active_workspace_mut(&mut self) -> (r: &mut Workspace<R>)
        requires
            old(self).wf(),
        ensures
            *r == old(self).active_workspace_view(),
            final(self).active_workspace == old(self).active_workspace,
            final(self).counters == old(self).counters,
            final(self).layout_revision == old(self).layout_revision,
            final(self).workspaces@ == old(self).workspaces@.update(old(self).active_index(), *final(r)),
    {
        proof {
            lemma_first_index_of(workspace_ids(self.workspaces@), self.active_workspace.0);
        }
        let index = find_workspace(&self.workspaces, self.active_workspace).unwrap();
        &mut self.workspaces[index]
    }

    /// The focused tab of the focused window of the focused workspace, to
    /// change in place: the model keeps everything else.
    pub fn active_tab_mut(&mut self) -> (r: &mut Tab<R>)
        requires
            old(self).wf(),
        ensures
            *r == old(self).active_tab_view(),
            final(self).active_workspace == old(self).active_workspace,
            final(self).counters == old(self).counters,
            final(self).layout_revision == old(self).layout_revision,
            tab_replaced(
                *old(self),
                *final(self),
                old(self).active_index(),
                old(self).active_workspace_view().active_index(),
                old(self).active_window_view().active_index(),
                *final(r),
            ),
    {
        proof {
            lemma_first_index_of(workspace_ids(self.workspaces@), self.active_workspace.0);
            assert(self.workspaces@[self.active_index()].wf());
        }
        let workspace = self.active_workspace_mut();
        proof {
            lemma_first_index_of(window_ids(workspace.windows@), workspace.active_window.0);
            assert(workspace.windows@[workspace.active_index()].wf());
        }
        let window = workspace.active_window_mut();
        proof {
            lemma_first_index_of(tab_ids(window.tabs@), window.active_tab.0);
        }
        window.active_tab_mut()
    }
}


impl<R: SplitRatio> MuxModel<R> {
    /// Where the focused tab sits: workspace, window, and tab positions.
    fn active_positions(&self) -> (r: (usize, usize, usize))
        requires
            self.wf(),
        ensures
            r.0 == self.active_index(),
            r.1 == self.active_workspace_view().active_index(),
            r.2 == self.active_window_view().active_index(),
            r.0 < self.workspaces.len(),
            r.1 < self.workspaces@[r.0 as int].windows.len(),
            r.2 < self.workspaces@[r.0 as int].windows@[r.1 as int].tabs.len(),
            self.workspaces@[r.0 as int].wf(),
            self.workspaces@[r.0 as int].windows@[r.1 as int].wf(),
            self.workspaces@[r.0 as int].windows@[r.1 as int].tabs@[r.2 as int].wf(),
    {
        proof {
            lemma_first_index_of(workspace_ids(self.workspaces@), self.active_workspace.0);
        }
        let w = find_workspace(&self.workspaces, self.active_workspace).unwrap();
        proof {
            assert(self.workspaces@[w as int].wf());
            lemma_first_index_of(window_ids(self.workspaces@[w as int].windows@), self.workspaces@[w as int].active_window.0);
        }
        let n = find_window(&self.workspaces[w].windows, self.workspaces[w].active_window).unwrap();
        proof {
            assert(self.workspaces@[w as int].windows@[n as int].wf());
            lemma_first_index_of(tab_ids(self.workspaces@[w as int].windows@[n as int].tabs@),
                self.workspaces@[w as int].windows@[n as int].active_tab.0);
        }
        let t = find_tab(&self.workspaces[w].windows[n].tabs, self.workspaces[w].windows[n].active_tab).unwrap();
        proof {
            assert(self.workspaces@[w as int].windows@[n as int].tabs@[t as int].wf());
        }
        (w, n, t)
    }

    /// Splits the focused pane along `axis`; the new pane, running
    /// `session`, takes the focus. The new pane and its session join the
    /// tab before the layout is split, so they stay when the focused pane
    /// is missing from the layout and the split is refused.
    pub fn split_active_pane(&mut self, axis: SplitAxis, session: SessionSpec) -> (r: Result<PaneId, MuxError>)
        requires
            old(self).wf(),
            old(self).can_allocate(),
        ensures
            final(self).wf(),
            final(self).active_workspace == old(self).active_workspace,
            final(self).next_ids() == (IdCounters {
                pane: (old(self).next_ids().pane + 1) as u64,
                session: (old(self).next_ids().session + 1) as u64,
                ..old(self).next_ids()
            }),
            ({
                let before = old(self).active_tab_view();
                let after = final(self).active_tab_view();
                let pane_id = PaneId(old(self).next_ids().pane);
                let session_id = SessionId(old(self).next_ids().session);
                &&& tab_replaced(*old(self), *final(self), old(self).active_index(),
                    old(self).active_workspace_view().active_index(),
                    old(self).active_window_view().active_index(), after)
                &&& after.id == before.id
                &&& after.name == before.name
                &&& after.title_source == before.title_source
                &&& after.zoomed_pane == before.zoomed_pane
                &&& after.panes@ == inserted_by_key(before.panes@, Pane { id: pane_id, session_id, title: None, last_size: None })
                &&& after.sessions@ == inserted_by_key(before.sessions@, Session {
                    id: session_id, spec: session, status: SessionStatus::Pending, title: None,
                    current_working_directory: None,
                })
                &&& r == (if before.root.leaves().contains(before.active_pane) {
                    Ok(pane_id)
                } else {
                    Err(MuxError::PaneNotFound(before.active_pane))
                })
                &&& r is Ok ==> after.root.leaves() == inserted_after(before.root.leaves(), before.active_pane, pane_id)
                    && after.active_pane == pane_id
                    && split_from(before.root, after.root, before.active_pane, pane_id, axis)
                    && final(self).revision() == next_revision(old(self).revision())
                &&& r is Err ==> after.root.leaves() == before.root.leaves() && before.root.same_shape(after.root)
                    && after.active_pane == before.active_pane
                    && final(self).revision() == old(self).revision()
            }),
    {
        let session_id = self.counters.next_session();
        let pane_id = self.counters.next_pane();
        let (w, n, t) = self.active_positions();
        let ghost before = *old(self);
        let ghost old_tab = self.workspaces@[w as int].windows@[n as int].tabs@[t as int];
        let active_pane = self.workspaces[w].windows[n].tabs[t].active_pane;
        let pane = Pane::new(pane_id, session_id);
        insert_by_key(&mut self.workspaces[w].windows[n].tabs[t].sessions, Session::new(session_id, session));
        insert_by_key(&mut self.workspaces[w].windows[n].tabs[t].panes, pane);
        let outcome = self.workspaces[w].windows[n].tabs[t].root.split_leaf(active_pane, pane_id, axis);
        if outcome.is_err() {
            proof {
                let after_tab = self.workspaces@[w as int].windows@[n as int].tabs@[t as int];
                lemma_tab_replaced(before, *self, w as int, n as int, t as int, after_tab);
            }
            return Err(MuxError::PaneNotFound(active_pane));
        }
        self.workspaces[w].windows[n].tabs[t].active_pane = pane_id;
        self.bump_layout_revision();
        proof {
            let after_tab = self.workspaces@[w as int].windows@[n as int].tabs@[t as int];
            lemma_tab_replaced(before, *self, w as int, n as int, t as int, after_tab);
        }
        Ok(pane_id)
    }

    /// Closes a pane of the focused tab (see [`Tab::close_pane`]); the
    /// layout revision moves on success.
    pub fn close_pane(&mut self, pane_id: PaneId) -> (r: Result<(), MuxError>)
        requires
            old(self).wf(),
            old(self).active_tab_view().close_leaves_a_pane(pane_id),
        ensures
            final(self).wf(),
            final(self).active_workspace == old(self).active_workspace,
            final(self).next_ids() == old(self).next_ids(),
            tab_replaced(*old(self), *final(self), old(self).active_index(),
                old(self).active_workspace_view().active_index(),
                old(self).active_window_view().active_index(), final(self).active_tab_view()),
            tab_closed_pane(old(self).active_tab_view(), final(self).active_tab_view(), pane_id, r),
            final(self).revision() == (if r is Ok { next_revision(old(self).revision()) } else { old(self).revision() }),
    {
        let (w, n, t) = self.active_positions();
        let ghost before = *old(self);
        let outcome = self.workspaces[w].windows[n].tabs[t].close_pane(pane_id);
        proof {
            let after_tab = self.workspaces@[w as int].windows@[n as int].tabs@[t as int];
            lemma_tab_replaced(before, *self, w as int, n as int, t as int, after_tab);
        }
        if outcome.is_err() {
            return outcome;
        }
        self.bump_layout_revision();
        Ok(())
    }

    /// Focuses a pane of the focused tab; the layout does not change.
    pub fn focus_pane(&mut self, pane_id: PaneId) -> (r: Result<(), MuxError>)
        requires
            old(self).wf(),
        ensures
            final(self).wf(),
            final(self).active_workspace == old(self).active_workspace,
            final(self).next_ids() == old(self).next_ids(),
            final(self).revision() == old(self).revision(),
            tab_replaced(*old(self), *final(self), old(self).active_index(),
                old(self).active_workspace_view().active_index(),
                old(self).active_window_view().active_index(), final(self).active_tab_view()),
            r == (if old(self).active_tab_view().has_pane(pane_id) { Ok(()) } else { Err(MuxError::PaneNotFound(pane_id)) }),
            final(self).active_tab_view() == (Tab {
                active_pane: if r is Ok { pane_id } else { old(self).active_tab_view().active_pane },
                ..old(self).active_tab_view()
            }),
    {
        let (w, n, t) = self.active_positions();
        let ghost before = *old(self);
        if !contains_pane_id(&self.workspaces[w].windows[n].tabs[t].panes, pane_id) {
            proof {
                lemma_tab_replaced(before, *self, w as int, n as int, t as int, self.workspaces@[w as int].windows@[n as int].tabs@[t as int]);
            }
            return Err(MuxError::PaneNotFound(pane_id));
        }
        self.workspaces[w].windows[n].tabs[t].active_pane = pane_id;
        proof {
            lemma_tab_replaced(before, *self, w as int, n as int, t as int, self.workspaces@[w as int].windows@[n as int].tabs@[t as int]);
        }
        Ok(())
    }

    /// Resizes the focused pane (see [`Tab::resize_active_pane`]); the
    /// layout revision moves on success.
    pub fn resize_active_pane(&mut self, direction: ResizeDirection, delta: R) -> (r: Result<(), MuxError>)
        requires
            old(self).wf(),
        ensures
            final(self).wf(),
            final(self).active_workspace == old(self).active_workspace,
            final(self).next_ids() == old(self).next_ids(),
            tab_replaced(*old(self), *final(self), old(self).active_index(),
                old(self).active_workspace_view().active_index(),
                old(self).active_window_view().active_index(), final(self).active_tab_view()),
            ({
                let before = old(self).active_tab_view();
                let after = final(self).active_tab_view();
                &&& after.root.leaves() == before.root.leaves()
                &&& after == (Tab { root: after.root, ..before })
                &&& r is Err ==> r == Err::<(), MuxError>(MuxError::PaneNotFound(before.active_pane))
                    && before.root.same_shape(after.root)
                &&& r is Ok ==> before.root.leaves().contains(before.active_pane) && after.root.is_normal()
                &&& r is Ok <==> before.root.resizable(before.active_pane, resize_axis(direction), resize_amount(direction, delta).forward())
                &&& r is Ok ==> exists|resized: SplitTree<R>|
                    resized_from(before.root, resized, before.active_pane, resize_axis(direction), resize_amount(direction, delta))
                        && #[trigger] normalized_from(resized, after.root)
            }),
            final(self).revision() == (if r is Ok { next_revision(old(self).revision()) } else { old(self).revision() }),
    {
        let (w, n, t) = self.active_positions();
        let ghost before = *old(self);
        let outcome = self.workspaces[w].windows[n].tabs[t].resize_active_pane(direction, delta);
        proof {
            let after_tab = self.workspaces@[w as int].windows@[n as int].tabs@[t as int];
            lemma_tab_replaced(before, *self, w as int, n as int, t as int, after_tab);
        }
        if outcome.is_err() {
            return outcome;
        }
        self.bump_layout_revision();
        Ok(())
    }

    /// Zooms the focused pane, or ends its zoom; returns the focused pane.
    /// The layout revision moves either way.
    pub fn toggle_zoom_active_pane(&mut self) -> (r: PaneId)
        requires
            old(self).wf(),
        ensures
            final(self).wf(),
            final(self).active_workspace == old(self).active_workspace,
            final(self).next_ids() == old(self).next_ids(),
            final(self).revision() == next_revision(old(self).revision()),
            tab_replaced(*old(self), *final(self), old(self).active_index(),
                old(self).active_workspace_view().active_index(),
                old(self).active_window_view().active_index(), final(self).active_tab_view()),
            r == old(self).active_tab_view().active_pane,
            final(self).active_tab_view() == (Tab {
                zoomed_pane: if old(self).active_tab_view().zoomed_pane == Some(r) { None } else { Some(r) },
                ..old(self).active_tab_view()
            }),
    {
        let (w, n, t) = self.active_positions();
        let ghost before = *old(self);
        let pane_id = self.workspaces[w].windows[n].tabs[t].active_pane;
        let zoomed = if self.workspaces[w].windows[n].tabs[t].zoomed_pane == Some(pane_id) {
            None
        } else {
            Some(pane_id)
        };
        self.workspaces[w].windows[n].tabs[t].zoomed_pane = zoomed;
        self.bump_layout_revision();
        proof {
            lemma_tab_replaced(before, *self, w as int, n as int, t as int, self.workspaces@[w as int].windows@[n as int].tabs@[t as int]);
        }
        pane_id
    }

    /// Trades the places of two panes in the focused tab's layout (see
    /// [`SplitTree::swap_panes`]); the layout revision moves on success.
    pub fn swap_panes(&mut self, first: PaneId, second: PaneId) -> (r: Result<(), MuxError>)
        requires
            old(self).wf(),
        ensures
            final(self).wf(),
            final(self).active_workspace == old(self).active_workspace,
            final(self).next_ids() == old(self).next_ids(),
            tab_replaced(*old(self), *final(self), old(self).active_index(),
                old(self).active_workspace_view().active_index(),
                old(self).active_window_view().active_index(), final(self).active_tab_view()),
            ({
                let before = old(self).active_tab_view();
                let after = final(self).active_tab_view();
                &&& after == (Tab { root: after.root, ..before })
                &&& after.root.leaves() == swapped_ids(before.root.leaves(), first, second)
                &&& before.root.same_shape(after.root)
                &&& r == (if !before.root.leaves().contains(first) {
                    Err(MuxError::PaneNotFound(first))
                } else if first == second || !before.root.leaves().contains(second) {
                    Err(MuxError::PaneNotFound(second))
                } else {
                    Ok(())
                })
            }),
            final(self).revision() == (if r is Ok { next_revision(old(self).revision()) } else { old(self).revision() }),
    {
        let (w, n, t) = self.active_positions();
        let ghost before = *old(self);
        let outcome = self.workspaces[w].windows[n].tabs[t].root.swap_panes(first, second);
        proof {
            let after_tab = self.workspaces@[w as int].windows@[n as int].tabs@[t as int];
            lemma_tab_replaced(before, *self, w as int, n as int, t as int, after_tab);
        }
        if outcome.is_err() {
            return outcome;
        }
        self.bump_layout_revision();
        Ok(())
    }

    /// Opens a tab named `name` in the focused window, with one pane
    /// running `session`, and focuses it.
    pub fn new_tab(&mut self, name: &str, session: SessionSpec) -> (r: Result<TabId, MuxError>)
        requires
            old(self).wf(),
            old(self).can_allocate(),
        ensures
            final(self).wf(),
            final(self).active_workspace == old(self).active_workspace,
            final(self).revision() == next_revision(old(self).revision()),
            final(self).next_ids() == (IdCounters {
                tab: (old(self).next_ids().tab + 1) as u64,
                pane: (old(self).next_ids().pane + 1) as u64,
                session: (old(self).next_ids().session + 1) as u64,
                ..old(self).next_ids()
            }),
            r == Ok::<TabId, MuxError>(TabId(old(self).next_ids().tab)),
            ({
                let before = old(self).active_window_view();
                let after = final(self).active_window_view();
                let tab = after.tabs@[after.tabs.len() - 1];
                &&& window_replaced(*old(self), *final(self), old(self).active_index(),
                    old(self).active_workspace_view().active_index(), after)
                &&& after.id == before.id
                &&& after.active_tab == TabId(old(self).next_ids().tab)
                &&& after.tabs@ == before.tabs@.push(tab)
                &&& tab.id == TabId(old(self).next_ids().tab)
                &&& tab.name@ == name@
                &&& tab.title_source == TabTitleSource::Default
                &&& tab.root == SplitTree::<R>::Pane(PaneId(old(self).next_ids().pane))
                &&& tab.active_pane == PaneId(old(self).next_ids().pane)
                &&& tab.zoomed_pane is None
                &&& tab.panes@ == seq![Pane {
                    id: PaneId(old(self).next_ids().pane),
                    session_id: SessionId(old(self).next_ids().session),
                    title: None,
                    last_size: None,
                }]
                &&& tab.sessions@ == seq![Session {
                    id: SessionId(old(self).next_ids().session), spec: session, status: SessionStatus::Pending,
                    title: None, current_working_directory: None,
                }]
            }),
    {
        let tab_id = self.counters.next_tab();
        let pane_id = self.counters.next_pane();
        let session_id = self.counters.next_session();
        let tab = Tab::single_pane(tab_id, name, Pane::new(pane_id, session_id), Session::new(session_id, session));
        let (w, n, _) = self.active_positions();
        let ghost before = *old(self);
        self.workspaces[w].windows[n].active_tab = tab_id;
        self.workspaces[w].windows[n].tabs.push(tab);
        self.bump_layout_revision();
        proof {
            let window = self.workspaces@[w as int].windows@[n as int];
            let ids = tab_ids(window.tabs@);
            lemma_first_index_of(ids, tab_id.0);
            assert(ids[ids.len() - 1] == tab_id.0);
            assert forall|k: int| 0 <= k < window.tabs.len() implies #[trigger] window.tabs@[k].wf() by {
                if k < window.tabs.len() - 1 {
                    assert(window.tabs@[k] == before.workspaces@[w as int].windows@[n as int].tabs@[k]);
                }
            }
            lemma_window_replaced(before, *self, w as int, n as int, window);
        }
        Ok(tab_id)
    }

    /// Closes a tab of the focused window, which must keep a tab; when it
    /// was focused, the tab before it (or the new first tab) takes focus.
    pub fn close_tab(&mut self, tab_id: TabId) -> (r: Result<(), MuxError>)
        requires
            old(self).wf(),
        ensures
            final(self).wf(),
            final(self).active_workspace == old(self).active_workspace,
            final(self).next_ids() == old(self).next_ids(),
            final(self).revision() == (if r is Ok { next_revision(old(self).revision()) } else { old(self).revision() }),
            ({
                let before = old(self).active_window_view();
                let after = final(self).active_window_view();
                let index = first_index_of(tab_ids(before.tabs@), tab_id.0);
                &&& window_replaced(*old(self), *final(self), old(self).active_index(),
                    old(self).active_workspace_view().active_index(), after)
                &&& after.id == before.id
                &&& r == (if before.tabs.len() == 1 {
                    Err(MuxError::CannotCloseLastTab)
                } else if index < 0 {
                    Err(MuxError::TabNotFound(tab_id))
                } else {
                    Ok(())
                })
                &&& r is Err ==> after == before
                &&& r is Ok ==> after.tabs@ == before.tabs@.remove(index)
                    && after.active_tab == (if before.active_tab == tab_id {
                        after.tabs@[if index == 0 { 0 } else { index - 1 }].id
                    } else {
                        before.active_tab
                    })
            }),
    {
        let (w, n, _) = self.active_positions();
        let ghost before = *old(self);
        proof {
            lemma_window_replaced(before, *self, w as int, n as int, self.workspaces@[w as int].windows@[n as int]);
        }
        if self.workspaces[w].windows[n].tabs.len() == 1 {
            return Err(MuxError::CannotCloseLastTab);
        }
        let index = match find_tab(&self.workspaces[w].windows[n].tabs, tab_id) {
            Some(index) => index,
            None => {
                return Err(MuxError::TabNotFound(tab_id));
            },
        };
        let ghost old_tabs = self.workspaces@[w as int].windows@[n as int].tabs@;
        let ghost old_active = self.workspaces@[w as int].windows@[n as int].active_tab;
        proof {
            lemma_first_index_of(tab_ids(old_tabs), tab_id.0);
            lemma_first_index_of(tab_ids(old_tabs), old_active.0);
        }
        self.workspaces[w].windows[n].tabs.remove(index);
        if self.workspaces[w].windows[n].active_tab == tab_id {
            let next_index = if index == 0 { 0 } else { index - 1 };
            let next_id = self.workspaces[w].windows[n].tabs[next_index].id;
            self.workspaces[w].windows[n].active_tab = next_id;
        }
        self.bump_layout_revision();
        proof {
            let window = self.workspaces@[w as int].windows@[n as int];
            let ids = tab_ids(window.tabs@);
            assert(window.tabs@ == old_tabs.remove(index as int));
            if old_active == tab_id {
                let next_index = if index == 0 { 0 } else { index - 1 };
                assert(ids[next_index as int] == window.active_tab.0);
            } else {
                let p = first_index_of(tab_ids(old_tabs), old_active.0);
                let q = if p < index { p } else { p - 1 };
                assert(p != index);
                assert(ids[q] == old_active.0);
            }
            lemma_first_index_of(ids, window.active_tab.0);
            assert forall|k: int| 0 <= k < window.tabs.len() implies #[trigger] window.tabs@[k].wf() by {
                let o = if k < index { k } else { k + 1 };
                assert(window.tabs@[k] == old_tabs[o]);
            }
            lemma_window_replaced(before, *self, w as int, n as int, window);
        }
        Ok(())
    }

    /// Renames a tab of the focused window; the name now comes from the
    /// user, so session titles no longer replace it.
    pub fn rename_tab(&mut self, tab_id: TabId, name: &str) -> (r: Result<(), MuxError>)
        requires
            old(self).wf(),
        ensures
            final(self).wf(),
            final(self).active_workspace == old(self).active_workspace,
            final(self).next_ids() == old(self).next_ids(),
            final(self).revision() == old(self).revision(),
            ({
                let before = old(self).active_window_view();
                let after = final(self).active_window_view();
                let index = first_index_of(tab_ids(before.tabs@), tab_id.0);
                &&& window_replaced(*old(self), *final(self), old(self).active_index(),
                    old(self).active_workspace_view().active_index(), after)
                &&& after.id == before.id
                &&& after.active_tab == before.active_tab
                &&& r == (if index < 0 { Err(MuxError::TabNotFound(tab_id)) } else { Ok(()) })
                &&& r is Err ==> after == before
                &&& r is Ok ==> after.tabs.len() == before.tabs.len()
                    && (forall|u: int| 0 <= u < before.tabs.len() && u != index ==> after.tabs@[u] == before.tabs@[u])
                    && after.tabs@[index].name@ == name@
                    && after.tabs@[index] == (Tab {
                        name: after.tabs@[index].name,
                        title_source: TabTitleSource::User,
                        ..before.tabs@[index]
                    })
            }),
    {
        let (w, n, _) = self.active_positions();
        let ghost before = *old(self);
        let index = match find_tab(&self.workspaces[w].windows[n].tabs, tab_id) {
            Some(index) => index,
            None => {
                proof {
                    lemma_window_replaced(before, *self, w as int, n as int, self.workspaces@[w as int].windows@[n as int]);
                }
                return Err(MuxError::TabNotFound(tab_id));
            },
        };
        proof {
            lemma_first_index_of(tab_ids(self.workspaces@[w as int].windows@[n as int].tabs@), tab_id.0);
        }
        self.workspaces[w].windows[n].tabs[index].name = name.to_owned();
        self.workspaces[w].windows[n].tabs[index].title_source = TabTitleSource::User;
        proof {
            let window = self.workspaces@[w as int].windows@[n as int];
            let old_window = before.workspaces@[w as int].windows@[n as int];
            assert(tab_ids(window.tabs@) =~= tab_ids(old_window.tabs@)) by {
                assert forall|u: int| 0 <= u < window.tabs.len() implies window.tabs@[u].id == old_window.tabs@[u].id by {
                    if u != index {
                        assert(window.tabs@[u] == old_window.tabs@[u]);
                    }
                }
            }
            assert forall|k: int| 0 <= k < window.tabs.len() implies #[trigger] window.tabs@[k].wf() by {
                if k != index {
                    assert(window.tabs@[k] == old_window.tabs@[k]);
                } else {
                    assert(old_window.tabs@[k].wf());
                }
            }
            lemma_window_replaced(before, *self, w as int, n as int, window);
        }
        Ok(())
    }

    /// Focuses a tab of the focused window; the layout revision moves only
    /// when the focus changes.
    pub fn switch_tab(&mut self, tab_id: TabId) -> (r: Result<(), MuxError>)
        requires
            old(self).wf(),
        ensures
            final(self).wf(),
            final(self).active_workspace == old(self).active_workspace,
            final(self).next_ids() == old(self).next_ids(),
            ({
                let before = old(self).active_window_view();
                let after = final(self).active_window_view();
                &&& window_replaced(*old(self), *final(self), old(self).active_index(),
                    old(self).active_workspace_view().active_index(), after)
                &&& r == (if first_index_of(tab_ids(before.tabs@), tab_id.0) < 0 {
                    Err(MuxError::TabNotFound(tab_id))
                } else {
                    Ok(())
                })
                &&& after == (WindowModel { active_tab: if r is Ok { tab_id } else { before.active_tab }, ..before })
                &&& final(self).revision() == (if r is Ok && before.active_tab != tab_id {
                    next_revision(old(self).revision())
                } else {
                    old(self).revision()
                })
            }),
    {
        let (w, n, _) = self.active_positions();
        let ghost before = *old(self);
        proof {
            lemma_window_replaced(before, *self, w as int, n as int, self.workspaces@[w as int].windows@[n as int]);
        }
        if find_tab(&self.workspaces[w].windows[n].tabs, tab_id).is_none() {
            return Err(MuxError::TabNotFound(tab_id));
        }
        if self.workspaces[w].windows[n].active_tab != tab_id {
            self.workspaces[w].windows[n].active_tab = tab_id;
            self.bump_layout_revision();
        }
        proof {
            lemma_window_replaced(before, *self, w as int, n as int, self.workspaces@[w as int].windows@[n as int]);
        }
        Ok(())
    }

    /// Moves a tab of the focused window to `target_index`, or to the end
    /// when the window has fewer tabs.
    pub fn move_tab(&mut self, tab_id: TabId, target_index: usize) -> (r: Result<(), MuxError>)
        requires
            old(self).wf(),
        ensures
            final(self).wf(),
            final(self).active_workspace == old(self).active_workspace,
            final(self).next_ids() == old(self).next_ids(),
            final(self).revision() == (if r is Ok { next_revision(old(self).revision()) } else { old(self).revision() }),
            ({
                let before = old(self).active_window_view();
                let after = final(self).active_window_view();
                let index = first_index_of(tab_ids(before.tabs@), tab_id.0);
                let rest = before.tabs@.remove(index);
                &&& window_replaced(*old(self), *final(self), old(self).active_index(),
                    old(self).active_workspace_view().active_index(), after)
                &&& after.id == before.id
                &&& after.active_tab == before.active_tab
                &&& r == (if index < 0 { Err(MuxError::TabNotFound(tab_id)) } else { Ok(()) })
                &&& r is Err ==> after == before
                &&& r is Ok ==> after.tabs@ == rest.insert(
                    if target_index < rest.len() { target_index as int } else { rest.len() as int },
                    before.tabs@[index])
            }),
    {
        let (w, n, _) = self.active_positions();
        let ghost before = *old(self);
        proof {
            lemma_window_replaced(before, *self, w as int, n as int, self.workspaces@[w as int].windows@[n as int]);
        }
        let index = match find_tab(&self.workspaces[w].windows[n].tabs, tab_id) {
            Some(index) => index,
            None => {
                return Err(MuxError::TabNotFound(tab_id));
            },
        };
        let ghost old_tabs = self.workspaces@[w as int].windows@[n as int].tabs@;
        let ghost old_active = self.workspaces@[w as int].windows@[n as int].active_tab;
        proof {
            lemma_first_index_of(tab_ids(old_tabs), tab_id.0);
            lemma_first_index_of(tab_ids(old_tabs), old_active.0);
        }
        let tab = self.workspaces[w].windows[n].tabs.remove(index);
        let remaining = self.workspaces[w].windows[n].tabs.len();
        let position = if target_index < remaining { target_index } else { remaining };
        self.workspaces[w].windows[n].tabs.insert(position, tab);
        self.bump_layout_revision();
        proof {
            let window = self.workspaces@[w as int].windows@[n as int];
            let ids = tab_ids(window.tabs@);
            let rest = old_tabs.remove(index as int);
            assert(window.tabs@ == rest.insert(position as int, old_tabs[index as int]));
            let p = first_index_of(tab_ids(old_tabs), old_active.0);
            if p == index {
                assert(ids[position as int] == old_active.0);
            } else {
                let q = if p < index { p } else { p - 1 };
                let q2 = if q < position { q } else { q + 1 };
                assert(rest[q] == old_tabs[p]);
                assert(window.tabs@[q2] == rest[q]);
                assert(ids[q2] == old_active.0);
            }
            lemma_first_index_of(ids, old_active.0);
            assert forall|k: int| 0 <= k < window.tabs.len() implies #[trigger] window.tabs@[k].wf() by {
                if k == position {
                    assert(window.tabs@[k] == old_tabs[index as int]);
                } else {
                    let q = if k < position { k } else { k - 1 };
                    let o = if q < index { q } else { q + 1 };
                    assert(window.tabs@[k] == rest[q]);
                    assert(rest[q] == old_tabs[o]);
                }
            }
            lemma_window_replaced(before, *self, w as int, n as int, window);
        }
        Ok(())
    }

    /// Opens a workspace named `name`, with one window holding one tab, "1",
    /// whose pane runs `session`, and focuses it.
    pub fn new_workspace(&mut self, name: &str, session: SessionSpec) -> (r: WorkspaceId)
        requires
            old(self).wf(),
            old(self).can_allocate(),
        ensures
            final(self).wf(),
            r == WorkspaceId(old(self).next_ids().workspace),
            final(self).active_workspace == r,
            final(self).revision() == next_revision(old(self).revision()),
            final(self).next_ids() == (IdCounters {
                workspace: (old(self).next_ids().workspace + 1) as u64,
                window: (old(self).next_ids().window + 1) as u64,
                tab: (old(self).next_ids().tab + 1) as u64,
                pane: (old(self).next_ids().pane + 1) as u64,
                session: (old(self).next_ids().session + 1) as u64,
            }),
            ({
                let added = final(self).workspaces@[final(self).workspaces.len() - 1];
                let window = added.windows@[0];
                let tab = window.tabs@[0];
                &&& final(self).workspaces@ == old(self).workspaces@.push(added)
                &&& added.id == r
                &&& added.name@ == name@
                &&& added.windows.len() == 1
                &&& added.active_window == WindowId(old(self).next_ids().window)
                &&& window.id == WindowId(old(self).next_ids().window)
                &&& window.tabs.len() == 1
                &&& window.active_tab == TabId(old(self).next_ids().tab)
                &&& tab.id == TabId(old(self).next_ids().tab)
                &&& tab.name@ == "1"@
                &&& tab.root == SplitTree::<R>::Pane(PaneId(old(self).next_ids().pane))
                &&& tab.active_pane == PaneId(old(self).next_ids().pane)
                &&& tab.panes@ == seq![Pane {
                    id: PaneId(old(self).next_ids().pane),
                    session_id: SessionId(old(self).next_ids().session),
                    title: None,
                    last_size: None,
                }]
                &&& tab.sessions@ == seq![Session {
                    id: SessionId(old(self).next_ids().session), spec: session, status: SessionStatus::Pending,
                    title: None, current_working_directory: None,
                }]
                &&& tab.title_source == TabTitleSource::Default
                &&& tab.zoomed_pane is None
            }),
    {
        let workspace_id = self.counters.next_workspace();
        let window_id = self.counters.next_window();
        let tab_id = self.counters.next_tab();
        let pane_id = self.counters.next_pane();
        let session_id = self.counters.next_session();
        let tab = Tab::single_pane(tab_id, "1", Pane::new(pane_id, session_id), Session::new(session_id, session));
        let mut tabs: Vec<Tab<R>> = Vec::new();
        tabs.push(tab);
        let mut windows: Vec<WindowModel<R>> = Vec::new();
        windows.push(WindowModel { id: window_id, tabs, active_tab: tab_id });
        let workspace = Workspace { id: workspace_id, name: name.to_owned(), windows, active_window: window_id };
        let ghost before = old(self).workspaces@;
        proof {
            reveal_strlit("1");
            lemma_rank_splits(before, workspace_id.0);
            if rank(before, workspace_id.0) < before.len() {
                assert(before[rank(before, workspace_id.0)].id.0 < old(self).next_ids().workspace);
            }
            assert(!has_key(before, workspace_id.0)) by {
                if has_key(before, workspace_id.0) {
                    let k = choose|k: int| 0 <= k < before.len() && #[trigger] before[k].key_of() == workspace_id.0;
                    assert(before[k].id.0 < old(self).next_ids().workspace);
                }
            }
            assert(tab_ids(workspace.windows@[0].tabs@) =~= seq![tab_id.0]);
            assert(window_ids(workspace.windows@) =~= seq![window_id.0]);
        }
        insert_by_key(&mut self.workspaces, workspace);
        self.active_workspace = workspace_id;
        self.bump_layout_revision();
        proof {
            assert(self.workspaces@ == before.push(workspace));
            let ids = workspace_ids(self.workspaces@);
            assert(ids[ids.len() - 1] == workspace_id.0);
            lemma_first_index_of(ids, workspace_id.0);
            assert forall|k: int| 0 <= k < self.workspaces.len() implies #[trigger] self.workspaces@[k].wf() by {
                if k < before.len() {
                    assert(self.workspaces@[k] == old(self).workspaces@[k]);
                }
            }
            assert forall|k: int| 0 <= k < self.workspaces.len() implies
                #[trigger] self.workspaces@[k].id.0 < self.next_ids().workspace by {
                if k < before.len() {
                    assert(self.workspaces@[k] == old(self).workspaces@[k]);
                }
            }
        }
        workspace_id
    }

    /// Focuses a workspace; the layout revision moves only when the focus
    /// changes.
    pub fn switch_workspace(&mut self, workspace_id: WorkspaceId) -> (r: Result<(), MuxError>)
        requires
            old(self).wf(),
        ensures
            final(self).wf(),
            final(self).workspaces == old(self).workspaces,
            final(self).next_ids() == old(self).next_ids(),
            r == (if first_index_of(workspace_ids(old(self).workspaces@), workspace_id.0) < 0 {
                Err(MuxError::WorkspaceNotFound(workspace_id))
            } else {
                Ok(())
            }),
            final(self).active_workspace == (if r is Ok { workspace_id } else { old(self).active_workspace }),
            final(self).revision() == (if r is Ok && old(self).active_workspace != workspace_id {
                next_revision(old(self).revision())
            } else {
                old(self).revision()
            }),
    {
        if find_workspace(&self.workspaces, workspace_id).is_none() {
            return Err(MuxError::WorkspaceNotFound(workspace_id));
        }
        if self.active_workspace != workspace_id {
            self.active_workspace = workspace_id;
            self.bump_layout_revision();
        }
        Ok(())
    }

    /// Renames a workspace.
    pub fn rename_workspace(&mut self, workspace_id: WorkspaceId, name: &str) -> (r: Result<(), MuxError>)
        requires
            old(self).wf(),
        ensures
            final(self).wf(),
            final(self).active_workspace == old(self).active_workspace,
            final(self).next_ids() == old(self).next_ids(),
            final(self).revision() == old(self).revision(),
            ({
                let index = first_index_of(workspace_ids(old(self).workspaces@), workspace_id.0);
                &&& r == (if index < 0 { Err(MuxError::WorkspaceNotFound(workspace_id)) } else { Ok(()) })
                &&& r is Err ==> final(self).workspaces == old(self).workspaces
                &&& r is Ok ==> workspace_replaced(*old(self), *final(self), index, final(self).workspaces@[index])
                    && final(self).workspaces@[index].name@ == name@
                    && final(self).workspaces@[index] == (Workspace {
                        name: final(self).workspaces@[index].name,
                        ..old(self).workspaces@[index]
                    })
            }),
    {
        let index = match find_workspace(&self.workspaces, workspace_id) {
            Some(index) => index,
            None => {
                return Err(MuxError::WorkspaceNotFound(workspace_id));
            },
        };
        let ghost before = *old(self);
        proof {
            lemma_first_index_of(workspace_ids(self.workspaces@), workspace_id.0);
            assert(self.workspaces@[index as int].wf());
        }
        self.workspaces[index].name = name.to_owned();
        proof {
            lemma_workspace_replaced(before, *self, index as int, self.workspaces@[index as int]);
        }
        Ok(())
    }

    /// Closes a workspace, which must not be the last one; when it was
    /// focused, the workspace with the smallest identifier takes focus.
    pub fn close_workspace(&mut self, workspace_id: WorkspaceId) -> (r: Result<(), MuxError>)
        requires
            old(self).wf(),
        ensures
            final(self).wf(),
            final(self).next_ids() == old(self).next_ids(),
            final(self).revision() == (if r is Ok { next_revision(old(self).revision()) } else { old(self).revision() }),
            ({
                let index = first_index_of(workspace_ids(old(self).workspaces@), workspace_id.0);
                &&& r == (if old(self).workspaces.len() == 1 {
                    Err(MuxError::CannotCloseLastWorkspace)
                } else if index < 0 {
                    Err(MuxError::WorkspaceNotFound(workspace_id))
                } else {
                    Ok(())
                })
                &&& r is Err ==> final(self).workspaces == old(self).workspaces
                    && final(self).active_workspace == old(self).active_workspace
                &&& r is Ok ==> final(self).workspaces@ == old(self).workspaces@.remove(index)
                    && final(self).active_workspace == (if old(self).active_workspace == workspace_id {
                        final(self).workspaces@[0].id
                    } else {
                        old(self).active_workspace
                    })
            }),
    {
        if self.workspaces.len() == 1 {
            return Err(MuxError::CannotCloseLastWorkspace);
        }
        let index = match find_workspace(&self.workspaces, workspace_id) {
            Some(index) => index,
            None => {
                return Err(MuxError::WorkspaceNotFound(workspace_id));
            },
        };
        let ghost before = old(self).workspaces@;
        let ghost old_active = old(self).active_workspace;
        proof {
            lemma_first_index_of(workspace_ids(before), workspace_id.0);
            lemma_first_index_of(workspace_ids(before), old_active.0);
            lemma_remove_keeps_increasing(before, index as int);
        }
        self.workspaces.remove(index);
        if self.active_workspace == workspace_id {
            self.active_workspace = self.workspaces[0].id;
        }
        self.bump_layout_revision();
        proof {
            let ids = workspace_ids(self.workspaces@);
            assert(self.workspaces@ == before.remove(index as int));
            if old_active == workspace_id {
                assert(ids[0] == self.active_workspace.0);
            } else {
                let p = first_index_of(workspace_ids(before), old_active.0);
                let q = if p < index { p } else { p - 1 };
                assert(ids[q] == old_active.0);
            }
            lemma_first_index_of(ids, self.active_workspace.0);
            assert forall|k: int| 0 <= k < self.workspaces.len() implies #[trigger] self.workspaces@[k].wf() by {
                let o = if k < index { k } else { k + 1 };
                assert(self.workspaces@[k] == before[o]);
            }
            assert forall|k: int| 0 <= k < self.workspaces.len() implies
                #[trigger] self.workspaces@[k].id.0 < self.next_ids().workspace by {
                let o = if k < index { k } else { k + 1 };
                assert(self.workspaces@[k] == before[o]);
            }
        }
        Ok(())
    }

    /// The first tab, in the order of workspaces, windows, and tabs, that
    /// has pane `pane_id`.
    #[verifier::loop_isolation(false)]
    fn locate_pane(&self, pane_id: PaneId) -> (r: Option<(usize, usize, usize)>)
        ensures
            r is Some <==> self.has_pane_anywhere(pane_id),
            match r {
                Some((w, n, t)) => self.first_holder(pane_id, w as int, n as int, t as int)
                    && self.pane_location(pane_id) == (w as int, n as int, t as int),
                None => true,
            },
    {
        let mut w: usize = 0;
        while w < self.workspaces.len()
            invariant
                0 <= w <= self.workspaces.len(),
                forall|w2: int, n2: int, t2: int| #[trigger] self.holds_pane(w2, n2, t2, pane_id) ==> w2 >= w,
            decreases self.workspaces.len() - w,
        {
            let mut n: usize = 0;
            while n < self.workspaces[w].windows.len()
                invariant
                    0 <= w < self.workspaces.len(),
                    0 <= n <= self.workspaces@[w as int].windows.len(),
                    forall|w2: int, n2: int, t2: int| #[trigger] self.holds_pane(w2, n2, t2, pane_id) ==>
                        w2 > w || (w2 == w && n2 >= n),
                decreases self.workspaces@[w as int].windows.len() - n,
            {
                let mut t: usize = 0;
                while t < self.workspaces[w].windows[n].tabs.len()
                    invariant
                        0 <= w < self.workspaces.len(),
                        0 <= n < self.workspaces@[w as int].windows.len(),
                        0 <= t <= self.workspaces@[w as int].windows@[n as int].tabs.len(),
                        forall|w2: int, n2: int, t2: int| #[trigger] self.holds_pane(w2, n2, t2, pane_id) ==>
                            w2 > w || (w2 == w && (n2 > n || (n2 == n && t2 >= t))),
                    decreases self.workspaces@[w as int].windows@[n as int].tabs.len() - t,
                {
                    if contains_pane_id(&self.workspaces[w].windows[n].tabs[t].panes, pane_id) {
                        proof {
                            assert(self.holds_pane(w as int, n as int, t as int, pane_id));
                            assert(self.first_holder(pane_id, w as int, n as int, t as int));
                            let (a, b, c) = self.pane_location(pane_id);
                            assert(self.first_holder(pane_id, a, b, c));
                            assert(self.holds_pane(a, b, c, pane_id));
                        }
                        return Some((w, n, t));
                    }
                    t = t + 1;
                }
                n = n + 1;
            }
            w = w + 1;
        }
        proof {
            if self.has_pane_anywhere(pane_id) {
                let (a, b, c) = choose|a: int, b: int, c: int| self.holds_pane(a, b, c, pane_id);
                assert(self.holds_pane(a, b, c, pane_id));
            }
        }
        None
    }

    /// A session reported a title for pane `pane_id`: the first tab with the
    /// pane records it on the pane and on its session, and takes it as its
    /// name when the pane is focused and the user has not named the tab.
    pub fn update_pane_title(&mut self, pane_id: PaneId, title: &str) -> (r: Result<(), MuxError>)
        requires
            old(self).wf(),
        ensures
            final(self).wf(),
            final(self).active_workspace == old(self).active_workspace,
            final(self).next_ids() == old(self).next_ids(),
            final(self).revision() == old(self).revision(),
            r == (if old(self).has_pane_anywhere(pane_id) { Ok(()) } else { Err(MuxError::PaneNotFound(pane_id)) }),
            r is Err ==> final(self).workspaces == old(self).workspaces,
            r is Ok ==> ({
                let (w, n, t) = old(self).pane_location(pane_id);
                let before = old(self).workspaces@[w].windows@[n].tabs@[t];
                let after = final(self).workspaces@[w].windows@[n].tabs@[t];
                &&& tab_replaced(*old(self), *final(self), w, n, t, after)
                &&& exists|k: int| 0 <= k < before.panes.len() && before.panes@[k].id == pane_id
                    && after.panes.len() == before.panes.len()
                    && (forall|u: int| 0 <= u < before.panes.len() && u != k ==> after.panes@[u] == before.panes@[u])
                    && after.panes@[k] == (Pane { title: after.panes@[k].title, ..before.panes@[k] })
                    && is_titled(after.panes@[k].title, title@)
                    && session_titled(before.sessions@, after.sessions@, before.panes@[k].session_id, title@)
                &&& after.root == before.root
                &&& after.active_pane == before.active_pane
                &&& after.zoomed_pane == before.zoomed_pane
                &&& after.id == before.id
                &&& if before.active_pane == pane_id && before.title_source != TabTitleSource::User {
                    after.name@ == title@ && after.title_source == TabTitleSource::Session
                } else {
                    after.name == before.name && after.title_source == before.title_source
                }
            }),
    {
        let (w, n, t) = match self.locate_pane(pane_id) {
            Some(location) => location,
            None => {
                return Err(MuxError::PaneNotFound(pane_id));
            },
        };
        let ghost before = *old(self);
        proof {
            assert(self.workspaces@[w as int].wf());
            assert(self.workspaces@[w as int].windows@[n as int].wf());
            assert(self.workspaces@[w as int].windows@[n as int].tabs@[t as int].wf());
        }
        let k = find_key(&self.workspaces[w].windows[n].tabs[t].panes, pane_id.0).unwrap();
        let session_id = self.workspaces[w].windows[n].tabs[t].panes[k].session_id;
        self.workspaces[w].windows[n].tabs[t].panes[k].title = Some(title.to_owned());
        let ghost old_sessions = self.workspaces@[w as int].windows@[n as int].tabs@[t as int].sessions@;
        match find_key(&self.workspaces[w].windows[n].tabs[t].sessions, session_id.0) {
            Some(j) => {
                self.workspaces[w].windows[n].tabs[t].sessions[j].title = Some(title.to_owned());
                proof {
                    assert(old_sessions[j as int].id == session_id);
                }
            },
            None => {},
        }
        if self.workspaces[w].windows[n].tabs[t].active_pane == pane_id
            && self.workspaces[w].windows[n].tabs[t].title_source != TabTitleSource::User {
            self.workspaces[w].windows[n].tabs[t].name = title.to_owned();
            self.workspaces[w].windows[n].tabs[t].title_source = TabTitleSource::Session;
        }
        proof {
            let after_tab = self.workspaces@[w as int].windows@[n as int].tabs@[t as int];
            let before_tab = before.workspaces@[w as int].windows@[n as int].tabs@[t as int];
            assert(after_tab.panes@[k as int].id == before_tab.panes@[k as int].id);
            assert(keys_increasing(after_tab.panes@)) by {
                assert forall|i: int, j: int| 0 <= i < j < after_tab.panes@.len() implies
                    #[trigger] after_tab.panes@[i].key_of() < #[trigger] after_tab.panes@[j].key_of() by {
                    assert(after_tab.panes@[i].id == before_tab.panes@[i].id);
                    assert(after_tab.panes@[j].id == before_tab.panes@[j].id);
                }
            }
            assert(keys_increasing(after_tab.sessions@)) by {
                assert forall|i: int, j: int| 0 <= i < j < after_tab.sessions@.len() implies
                    #[trigger] after_tab.sessions@[i].key_of() < #[trigger] after_tab.sessions@[j].key_of() by {
                    assert(after_tab.sessions@[i].id == before_tab.sessions@[i].id);
                    assert(after_tab.sessions@[j].id == before_tab.sessions@[j].id);
                }
            }
            lemma_tab_replaced(before, *self, w as int, n as int, t as int, after_tab);
        }
        Ok(())
    }

    /// The session of pane `pane_id`, from the first tab that has the pane,
    /// to change in place: the model keeps everything else.
    pub fn session_for_pane_mut(&mut self, pane_id: PaneId) -> (r: Result<&mut Session, MuxError>)
        requires
            old(self).wf(),
        ensures
            !old(self).has_pane_anywhere(pane_id) ==> r is Err && r->Err_0 == MuxError::PaneNotFound(pane_id)
                && *final(self) == *old(self),
            old(self).has_pane_anywhere(pane_id) ==> ({
                let (w, n, t) = old(self).pane_location(pane_id);
                let tab = old(self).pane_tab(pane_id);
                exists|k: int| 0 <= k < tab.panes.len() && tab.panes@[k].id == pane_id && ({
                    let session_id = tab.panes@[k].session_id;
                    &&& r is Err ==> r->Err_0 == MuxError::SessionNotFound(session_id)
                        && !has_key(tab.sessions@, session_id.0) && *final(self) == *old(self)
                    &&& r is Ok ==> exists|j: int| 0 <= j < tab.sessions.len() && {
                        let after = final(self).workspaces@[w].windows@[n].tabs@[t];
                        &&& (#[trigger] tab.sessions@[j]).id == session_id
                        &&& *r->Ok_0 == tab.sessions@[j]
                        &&& tab_replaced(*old(self), *final(self), w, n, t, after)
                        &&& after.sessions@ == tab.sessions@.update(j, *final(r->Ok_0))
                        &&& after == (Tab { sessions: after.sessions, ..tab })
                        &&& final(self).active_workspace == old(self).active_workspace
                        &&& final(self).counters == old(self).counters
                        &&& final(self).layout_revision == old(self).layout_revision
                    }
                })
            }),
    {
        let (w, n, t) = match self.locate_pane(pane_id) {
            Some(location) => location,
            None => {
                return Err(MuxError::PaneNotFound(pane_id));
            },
        };
        proof {
            assert(self.workspaces@[w as int].wf());
            assert(self.workspaces@[w as int].windows@[n as int].wf());
            assert(self.workspaces@[w as int].windows@[n as int].tabs@[t as int].wf());
        }
        let k = find_key(&self.workspaces[w].windows[n].tabs[t].panes, pane_id.0).unwrap();
        let session_id = self.workspaces[w].windows[n].tabs[t].panes[k].session_id;
        match find_key(&self.workspaces[w].windows[n].tabs[t].sessions, session_id.0) {
            Some(j) => {
                let workspace = &mut self.workspaces[w];
                let window = &mut workspace.windows[n];
                let tab = &mut window.tabs[t];
                Ok(&mut tab.sessions[j])
            },
            None => Err(MuxError::SessionNotFound(session_id)),
        }
    }

    /// The session of pane `pane_id`, from the first tab that has the pane.
    pub fn session_for_pane(&self, pane_id: PaneId) -> (r: Result<&Session, MuxError>)
        requires
            self.wf(),
        ensures
            !self.has_pane_anywhere(pane_id) ==> r == Err::<&Session, MuxError>(MuxError::PaneNotFound(pane_id)),
            self.has_pane_anywhere(pane_id) ==> ({
                let tab = self.pane_tab(pane_id);
                exists|k: int| 0 <= k < tab.panes.len() && tab.panes@[k].id == pane_id && ({
                    let session_id = tab.panes@[k].session_id;
                    match r {
                        Ok(session) => session.id == session_id && tab.sessions@.contains(*session),
                        Err(error) => error == MuxError::SessionNotFound(session_id)
                            && !has_key(tab.sessions@, session_id.0),
                    }
                })
            }),
    {
        let (w, n, t) = match self.locate_pane(pane_id) {
            Some(location) => location,
            None => {
                return Err(MuxError::PaneNotFound(pane_id));
            },
        };
        proof {
            assert(self.workspaces@[w as int].wf());
            assert(self.workspaces@[w as int].windows@[n as int].wf());
            assert(self.workspaces@[w as int].windows@[n as int].tabs@[t as int].wf());
        }
        let tab = &self.workspaces[w].windows[n].tabs[t];
        let k = find_key(&tab.panes, pane_id.0).unwrap();
        let session_id = tab.panes[k].session_id;
        match find_key(&tab.sessions, session_id.0) {
            Some(j) => {
                proof {
                    assert(tab.sessions@.contains(tab.sessions@[j as int]));
                }
                Ok(&tab.sessions[j])
            },
            None => Err(MuxError::SessionNotFound(session_id)),
        }
    }

    /// Removes pane `pane_id` after its session exited cleanly, keeping
    /// every retained window with at least one tab and every tab with at
    /// least one pane: the pane closes if its tab has others, else its tab
    /// closes if its window has others, else its window closes if its
    /// workspace has others, else its workspace closes if there are others.
    /// The final session stays in place and the application is asked to
    /// exit.
    pub fn close_exited_pane(&mut self, pane_id: PaneId) -> (r: Result<PaneExitDisposition, MuxError>)
        requires
            old(self).wf(),
            old(self).exit_close_leaves_a_pane(pane_id),
        ensures
            final(self).wf(),
            final(self).next_ids() == old(self).next_ids(),
            !old(self).has_pane_anywhere(pane_id) ==> r == Err::<PaneExitDisposition, MuxError>(MuxError::PaneNotFound(pane_id))
                && final(self).workspaces == old(self).workspaces
                && final(self).active_workspace == old(self).active_workspace
                && final(self).revision() == old(self).revision(),
            old(self).has_pane_anywhere(pane_id) ==> ({
                let (w, n, t) = old(self).pane_location(pane_id);
                let workspace = old(self).workspaces@[w];
                let window = workspace.windows@[n];
                let tab = window.tabs@[t];
                if tab.panes.len() > 1 {
                    &&& tab_replaced(*old(self), *final(self), w, n, t, final(self).workspaces@[w].windows@[n].tabs@[t])
                    &&& final(self).active_workspace == old(self).active_workspace
                    &&& tab_closed_pane(tab, final(self).workspaces@[w].windows@[n].tabs@[t], pane_id,
                        match r { Ok(_) => Ok(()), Err(error) => Err(error) })
                    &&& r is Ok ==> r == Ok::<PaneExitDisposition, MuxError>(PaneExitDisposition::PaneClosed)
                        && final(self).revision() == next_revision(old(self).revision())
                    &&& r is Err ==> final(self).revision() == old(self).revision()
                } else if window.tabs.len() > 1 {
                    let after = final(self).workspaces@[w].windows@[n];
                    &&& r == Ok::<PaneExitDisposition, MuxError>(PaneExitDisposition::TabClosed)
                    &&& window_replaced(*old(self), *final(self), w, n, after)
                    &&& final(self).active_workspace == old(self).active_workspace
                    &&& after.id == window.id
                    &&& after.tabs@ == window.tabs@.remove(t)
                    &&& after.active_tab == (if window.active_tab == tab.id {
                        after.tabs@[if t == 0 { 0 } else { t - 1 }].id
                    } else {
                        window.active_tab
                    })
                    &&& final(self).revision() == next_revision(old(self).revision())
                } else if workspace.windows.len() > 1 {
                    let after = final(self).workspaces@[w];
                    &&& r == Ok::<PaneExitDisposition, MuxError>(PaneExitDisposition::WindowClosed)
                    &&& workspace_replaced(*old(self), *final(self), w, after)
                    &&& final(self).active_workspace == old(self).active_workspace
                    &&& after.id == workspace.id
                    &&& after.name == workspace.name
                    &&& after.windows@ == workspace.windows@.remove(n)
                    &&& after.active_window == (if workspace.active_window == window.id {
                        after.windows@[if n == 0 { 0 } else { n - 1 }].id
                    } else {
                        workspace.active_window
                    })
                    &&& final(self).revision() == next_revision(old(self).revision())
                } else if old(self).workspaces.len() > 1 {
                    &&& r == Ok::<PaneExitDisposition, MuxError>(PaneExitDisposition::WorkspaceClosed)
                    &&& final(self).workspaces@ == old(self).workspaces@.remove(w)
                    &&& final(self).active_workspace == (if old(self).active_workspace == workspace.id {
                        final(self).workspaces@[0].id
                    } else {
                        old(self).active_workspace
                    })
                    &&& final(self).revision() == next_revision(old(self).revision())
                } else {
                    &&& r == Ok::<PaneExitDisposition, MuxError>(PaneExitDisposition::ExitApplication)
                    &&& final(self).workspaces == old(self).workspaces
                    &&& final(self).active_workspace == old(self).active_workspace
                    &&& final(self).revision() == old(self).revision()
                }
            }),
    {
        let (w, n, t) = match self.locate_pane(pane_id) {
            Some(location) => location,
            None => {
                return Err(MuxError::PaneNotFound(pane_id));
            },
        };
        let ghost before = *old(self);
        proof {
            assert(self.workspaces@[w as int].wf());
            assert(self.workspaces@[w as int].windows@[n as int].wf());
            assert(self.workspaces@[w as int].windows@[n as int].tabs@[t as int].wf());
        }
        let pane_count = self.workspaces[w].windows[n].tabs[t].panes.len();
        let tab_count = self.workspaces[w].windows[n].tabs.len();
        let window_count = self.workspaces[w].windows.len();

        if pane_count > 1 {
            let outcome = self.workspaces[w].windows[n].tabs[t].close_pane(pane_id);
            proof {
                let after_tab = self.workspaces@[w as int].windows@[n as int].tabs@[t as int];
                lemma_tab_replaced(before, *self, w as int, n as int, t as int, after_tab);
            }
            match outcome {
                Ok(()) => {
                    self.bump_layout_revision();
                    return Ok(PaneExitDisposition::PaneClosed);
                },
                Err(error) => {
                    return Err(error);
                },
            }
        }

        if tab_count > 1 {
            let ghost old_tabs = self.workspaces@[w as int].windows@[n as int].tabs@;
            let ghost old_active = self.workspaces@[w as int].windows@[n as int].active_tab;
            proof {
                lemma_first_index_of(tab_ids(old_tabs), old_active.0);
            }
            let tab_id = self.workspaces[w].windows[n].tabs[t].id;
            self.workspaces[w].windows[n].tabs.remove(t);
            if self.workspaces[w].windows[n].active_tab == tab_id {
                let next_index = if t == 0 { 0 } else { t - 1 };
                let next_id = self.workspaces[w].windows[n].tabs[next_index].id;
                self.workspaces[w].windows[n].active_tab = next_id;
            }
            self.bump_layout_revision();
            proof {
                let window = self.workspaces@[w as int].windows@[n as int];
                let ids = tab_ids(window.tabs@);
                assert(window.tabs@ == old_tabs.remove(t as int));
                if old_active == tab_id {
                    let next_index = if t == 0 { 0 } else { t - 1 };
                    assert(ids[next_index as int] == window.active_tab.0);
                } else {
                    let p = first_index_of(tab_ids(old_tabs), old_active.0);
                    let q = if p < t { p } else { p - 1 };
                    assert(p != t) by {
                        assert(tab_ids(old_tabs)[p] == old_active.0);
                        assert(tab_ids(old_tabs)[t as int] == tab_id.0);
                    }
                    assert(ids[q] == old_active.0);
                }
                lemma_first_index_of(ids, window.active_tab.0);
                assert forall|k: int| 0 <= k < window.tabs.len() implies #[trigger] window.tabs@[k].wf() by {
                    let o = if k < t { k } else { k + 1 };
                    assert(window.tabs@[k] == old_tabs[o]);
                }
                lemma_window_replaced(before, *self, w as int, n as int, window);
            }
            return Ok(PaneExitDisposition::TabClosed);
        }

        if window_count > 1 {
            let ghost old_windows = self.workspaces@[w as int].windows@;
            let ghost old_active = self.workspaces@[w as int].active_window;
            proof {
                lemma_first_index_of(window_ids(old_windows), old_active.0);
            }
            let window_id = self.workspaces[w].windows[n].id;
            self.workspaces[w].windows.remove(n);
            if self.workspaces[w].active_window == window_id {
                let next_index = if n == 0 { 0 } else { n - 1 };
                let next_id = self.workspaces[w].windows[next_index].id;
                self.workspaces[w].active_window = next_id;
            }
            self.bump_layout_revision();
            proof {
                let workspace = self.workspaces@[w as int];
                let ids = window_ids(workspace.windows@);
                assert(workspace.windows@ == old_windows.remove(n as int));
                if old_active == window_id {
                    let next_index = if n == 0 { 0 } else { n - 1 };
                    assert(ids[next_index as int] == workspace.active_window.0);
                } else {
                    let p = first_index_of(window_ids(old_windows), old_active.0);
                    let q = if p < n { p } else { p - 1 };
                    assert(p != n) by {
                        assert(window_ids(old_windows)[p] == old_active.0);
                        assert(window_ids(old_windows)[n as int] == window_id.0);
                    }
                    assert(ids[q] == old_active.0);
                }
                lemma_first_index_of(ids, workspace.active_window.0);
                assert forall|k: int| 0 <= k < workspace.windows.len() implies #[trigger] workspace.windows@[k].wf() by {
                    let o = if k < n { k } else { k + 1 };
                    assert(workspace.windows@[k] == old_windows[o]);
                }
                lemma_workspace_replaced(before, *self, w as int, workspace);
            }
            return Ok(PaneExitDisposition::WindowClosed);
        }

        if self.workspaces.len() > 1 {
            let ghost old_workspaces = self.workspaces@;
            let ghost old_active = self.active_workspace;
            proof {
                lemma_first_index_of(workspace_ids(old_workspaces), old_active.0);
                lemma_remove_keeps_increasing(old_workspaces, w as int);
            }
            let workspace_id = self.workspaces[w].id;
            self.workspaces.remove(w);
            if self.active_workspace == workspace_id {
                self.active_workspace = self.workspaces[0].id;
            }
            self.bump_layout_revision();
            proof {
                let ids = workspace_ids(self.workspaces@);
                assert(self.workspaces@ == old_workspaces.remove(w as int));
                if old_active == workspace_id {
                    assert(ids[0] == self.active_workspace.0);
                } else {
                    let p = first_index_of(workspace_ids(old_workspaces), old_active.0);
                    let q = if p < w { p } else { p - 1 };
                    assert(p != w) by {
                        assert(workspace_ids(old_workspaces)[p] == old_active.0);
                        assert(workspace_ids(old_workspaces)[w as int] == workspace_id.0);
                    }
                    assert(ids[q] == old_active.0);
                }
                lemma_first_index_of(ids, self.active_workspace.0);
                assert forall|k: int| 0 <= k < self.workspaces.len() implies #[trigger] self.workspaces@[k].wf() by {
                    let o = if k < w { k } else { k + 1 };
                    assert(self.workspaces@[k] == old_workspaces[o]);
                }
                assert forall|k: int| 0 <= k < self.workspaces.len() implies
                    #[trigger] self.workspaces@[k].id.0 < self.next_ids().workspace by {
                    let o = if k < w { k } else { k + 1 };
                    assert(self.workspaces@[k] == old_workspaces[o]);
                }
            }
            return Ok(PaneExitDisposition::WorkspaceClosed);
        }

        Ok(PaneExitDisposition::ExitApplication)
    }
}

/// The layout revision changes with every bump, including when it wraps.
pub proof fn lemma_revision_always_moves(revision: u64)
    ensures
        next_revision(revision) != revision,
        next_revision(revision) >= 1,
{
}

/// A well-formed model always has a focused workspace with a focused
/// window, whose focused tab has a pane: the invariant that every
/// operation keeps.
pub proof fn lemma_model_has_focus<R>(model: MuxModel<R>)
    requires
        model.wf(),
    ensures
        0 <= model.active_index() < model.workspaces.len(),
        model.active_workspace_view().windows.len() > 0,
        0 <= model.active_workspace_view().active_index() < model.active_workspace_view().windows.len(),
        model.active_window_view().tabs.len() > 0,
        0 <= model.active_window_view().active_index() < model.active_window_view().tabs.len(),
        model.active_tab_view().panes.len() > 0,
        model.active_tab_view().wf(),
{
    lemma_first_index_of(workspace_ids(model.workspaces@), model.active_workspace.0);
    let workspace = model.active_workspace_view();
    assert(workspace.wf());
    lemma_first_index_of(window_ids(workspace.windows@), workspace.active_window.0);
    let window = model.active_window_view();
    assert(window.wf());
    lemma_first_index_of(tab_ids(window.tabs@), window.active_tab.0);
    assert(window.tabs@[window.active_index()].wf());
}

/// Closing the pane that a split just added gives the tab back its panes
/// and its layout's pane order.
pub proof fn lemma_close_undoes_split_in_tab<R>(
    before: Tab<R>,
    split: Tab<R>,
    after: Tab<R>,
    new_pane: Pane,
)
    requires
        before.wf(),
        !has_key(before.panes@, new_pane.id.0),
        !before.root.leaves().contains(new_pane.id),
        split.panes@ == inserted_by_key(before.panes@, new_pane),
        split.root.leaves() == inserted_after(before.root.leaves(), before.active_pane, new_pane.id),
        tab_closed_pane(split, after, new_pane.id, Ok(())),
    ensures
        after.panes@ == before.panes@,
        after.root.leaves() == before.root.leaves(),
{
    crate::split_tree::lemma_close_undoes_split(before.root.leaves(), before.active_pane, new_pane.id);
    let position = rank(before.panes@, new_pane.id.0);
    lemma_rank_splits(before.panes@, new_pane.id.0);
    assert(split.panes@ == before.panes@.insert(position, new_pane));
    assert(split.panes@[position].id == new_pane.id);
    assert(split.panes.len() != 1 && split.has_pane(new_pane.id)) by {
        assert(split.panes@[position].key_of() == new_pane.id.0);
        assert(before.panes.len() > 0);
    }
    let k = choose|k: int| 0 <= k < split.panes.len() && split.panes@[k].id == new_pane.id
        && after.panes@ == split.panes@.remove(k)
        && session_removed(split.sessions@, after.sessions@, split.panes@[k].session_id);
    if k < position {
        assert(split.panes@[k] == before.panes@[k]);
        assert(before.panes@[k].key_of() < new_pane.id.0);
    } else if k > position {
        assert(split.panes@[k] == before.panes@[k - 1]);
        assert(before.panes@[k - 1].key_of() >= new_pane.id.0);
        assert(before.panes@[k - 1].key_of() != new_pane.id.0) by {
            if before.panes@[k - 1].key_of() == new_pane.id.0 {
                assert(has_key(before.panes@, new_pane.id.0));
            }
        }
    }
    assert(k == position);
    assert(before.panes@.insert(position, new_pane).remove(position) =~= before.panes@);
}

} // verus!
