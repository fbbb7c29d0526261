//! Multiplexer identities, sessions, panes, actions, and errors.

use vstd::prelude::*;
use crate::platform_core::HostOs;
use crate::text::str_eq;

verus! {

#[derive(Debug, Clone, Copy, PartialEq, Eq, Structural, PartialOrd, Ord, Hash, Default)]
pub struct WorkspaceId(pub u64);

#[derive(Debug, Clone, Copy, PartialEq, Eq, Structural, PartialOrd, Ord, Hash, Default)]
pub struct WindowId(pub u64);

#[derive(Debug, Clone, Copy, PartialEq, Eq, Structural, PartialOrd, Ord, Hash, Default)]
pub struct TabId(pub u64);

#[derive(Debug, Clone, Copy, PartialEq, Eq, Structural, PartialOrd, Ord, Hash, Default)]
pub struct PaneId(pub u64);

#[derive(Debug, Clone, Copy, PartialEq, Eq, Structural, PartialOrd, Ord, Hash, Default)]
pub struct SessionId(pub u64);

#[derive(Debug, Clone, Copy, PartialEq, Eq, Structural)]
pub enum TabTitleSource {
    Default,
    User,
    Session,
}

#[derive(Debug, Clone, PartialEq, Eq)]
pub struct Pane {
    pub id: PaneId,
    pub session_id: SessionId,
    pub title: Option<String>,
    pub last_size: Option<TerminalGridSize>,
}

impl Pane {
    /// A pane with no title and no known size yet.
    pub fn new(id: PaneId, session_id: SessionId) -> (r: Pane)
        ensures
            r.id == id,
            r.session_id == session_id,
            r.title is None,
            r.last_size is None,
    {
        Pane { id, session_id, title: None, last_size: None }
    }
}

#[derive(Debug, Clone, PartialEq, Eq)]
pub struct Session {
    pub id: SessionId,
    pub spec: SessionSpec,
    pub status: SessionStatus,
    pub title: Option<String>,
    pub current_working_directory: Option<String>,
}

impl Session {
    /// A session that has not started yet.
    pub fn new(id: SessionId, spec: SessionSpec) -> (r: Session)
        ensures
            r.id == id,
            r.spec == spec,
            r.status is Pending,
            r.title is None,
            r.current_working_directory is None,
    {
        Session { id, spec, status: SessionStatus::Pending, title: None, current_working_directory: None }
    }
}

#[derive(Debug, Clone, PartialEq, Eq)]
pub enum SessionStatus {
    Pending,
    Running,
    Exited { exit_code: Option<i32> },
    Failed { message: String },
    Detached,
}

#[derive(Debug, Clone, Copy, PartialEq, Eq, Structural)]
pub enum PaneExitDisposition {
    PaneClosed,
    TabClosed,
    WindowClosed,
    WorkspaceClosed,
    ExitApplication,
}

#[derive(Debug, Clone, PartialEq, Eq)]
pub struct SessionSpec {
    pub profile_name: String,
    pub transport: SessionTransportKind,
    pub working_directory: Option<String>,
    pub startup_command: Option<String>,
}

impl SessionSpec {
    /// A local shell: a Windows pseudoconsole on Windows, a PTY elsewhere.
    pub fn local(profile_name: &str, host: HostOs) -> (r: SessionSpec)
        ensures
            r.profile_name@ == profile_name@,
            r.transport == (if host == HostOs::Windows {
                SessionTransportKind::WindowsPseudoconsole
            } else {
                SessionTransportKind::LocalPty
            }),
            r.working_directory is None,
            r.startup_command is None,
    {
        SessionSpec {
            profile_name: profile_name.to_owned(),
            transport: match host {
                HostOs::Windows => SessionTransportKind::WindowsPseudoconsole,
                _ => SessionTransportKind::LocalPty,
            },
            working_directory: None,
            startup_command: None,
        }
    }

    /// An SSH session for a profile.
    pub fn ssh(profile_name: &str) -> (r: SessionSpec)
        ensures
            r.profile_name@ == profile_name@,
            r.transport == SessionTransportKind::Ssh,
            r.working_directory is None,
            r.startup_command is None,
    {
        SessionSpec {
            profile_name: profile_name.to_owned(),
            transport: SessionTransportKind::Ssh,
            working_directory: None,
            startup_command: None,
        }
    }
}

#[derive(Debug, Clone, Copy, PartialEq, Eq, Structural)]
pub enum SessionTransportKind {
    LocalPty,
    WindowsPseudoconsole,
    Ssh,
    FutureMobileSsh,
}

#[derive(Debug, Clone, Copy, PartialEq, Eq, Structural)]
pub enum SplitAxis {
    Horizontal,
    Vertical,
}

#[derive(Debug, Clone, Copy, PartialEq, Eq, Structural)]
pub enum FocusDirection {
    Left,
    Right,
    Up,
    Down,
}

#[derive(Debug, Clone, Copy, PartialEq, Eq, Structural)]
pub enum ResizeDirection {
    Left,
    Right,
    Up,
    Down,
}

impl ResizeDirection {
    /// The split axis a resize acts along.
    pub fn axis(self) -> (r: SplitAxis)
        ensures
            r == (match self {
                ResizeDirection::Left | ResizeDirection::Right => SplitAxis::Horizontal,
                ResizeDirection::Up | ResizeDirection::Down => SplitAxis::Vertical,
            }),
    {
        match self {
            ResizeDirection::Left | ResizeDirection::Right => SplitAxis::Horizontal,
            ResizeDirection::Up | ResizeDirection::Down => SplitAxis::Vertical,
        }
    }
}

#[derive(Debug, Clone, Copy, PartialEq, Eq, Structural)]
pub struct TerminalGridSize {
    pub cols: u16,
    pub rows: u16,
}

impl TerminalGridSize {
    /// A grid size; a zero extent becomes one.
    pub fn new(cols: u16, rows: u16) -> (r: TerminalGridSize)
        ensures
            r.cols == (if cols == 0 { 1 } else { cols }),
            r.rows == (if rows == 0 { 1 } else { rows }),
    {
        TerminalGridSize { cols: if cols == 0 { 1 } else { cols }, rows: if rows == 0 { 1 } else { rows } }
    }
}

#[derive(Debug, Clone, PartialEq, Eq)]
pub enum MuxAction {
    NewWorkspace,
    CloseWorkspace,
    NextWorkspace,
    PreviousWorkspace,
    NewTab,
    CloseTab,
    NextTab,
    PreviousTab,
    RenameTab { name: String },
    MoveTab { target_index: usize },
    SplitHorizontal,
    SplitVertical,
    ClosePane,
    FocusDirection(FocusDirection),
    ResizePane(ResizeDirection),
    ZoomPane,
    MovePane(FocusDirection),
    SwapPaneDirection(FocusDirection),
    SwapPane { other: PaneId },
}

/// The action bound to a key-binding name, except `rename_tab`, whose action
/// carries an empty name.
pub open spec fn named_action(name: Seq<char>) -> Option<MuxAction> {
    if name == "new_workspace"@ {
        Some(MuxAction::NewWorkspace)
    } else if name == "close_workspace"@ {
        Some(MuxAction::CloseWorkspace)
    } else if name == "next_workspace"@ {
        Some(MuxAction::NextWorkspace)
    } else if name == "previous_workspace"@ {
        Some(MuxAction::PreviousWorkspace)
    } else if name == "new_tab"@ {
        Some(MuxAction::NewTab)
    } else if name == "close_tab"@ {
        Some(MuxAction::CloseTab)
    } else if name == "next_tab"@ {
        Some(MuxAction::NextTab)
    } else if name == "previous_tab"@ {
        Some(MuxAction::PreviousTab)
    } else if name == "split_horizontal"@ {
        Some(MuxAction::SplitHorizontal)
    } else if name == "split_vertical"@ {
        Some(MuxAction::SplitVertical)
    } else if name == "close_pane"@ {
        Some(MuxAction::ClosePane)
    } else if name == "focus_left"@ {
        Some(MuxAction::FocusDirection(FocusDirection::Left))
    } else if name == "focus_right"@ {
        Some(MuxAction::FocusDirection(FocusDirection::Right))
    } else if name == "focus_up"@ {
        Some(MuxAction::FocusDirection(FocusDirection::Up))
    } else if name == "focus_down"@ {
        Some(MuxAction::FocusDirection(FocusDirection::Down))
    } else if name == "resize_pane_left"@ {
        Some(MuxAction::ResizePane(ResizeDirection::Left))
    } else if name == "resize_pane_right"@ {
        Some(MuxAction::ResizePane(ResizeDirection::Right))
    } else if name == "resize_pane_up"@ {
        Some(MuxAction::ResizePane(ResizeDirection::Up))
    } else if name == "resize_pane_down"@ {
        Some(MuxAction::ResizePane(ResizeDirection::Down))
    } else if name == "zoom_pane"@ {
        Some(MuxAction::ZoomPane)
    } else if name == "move_pane_left"@ {
        Some(MuxAction::MovePane(FocusDirection::Left))
    } else if name == "move_pane_right"@ {
        Some(MuxAction::MovePane(FocusDirection::Right))
    } else if name == "move_pane_up"@ {
        Some(MuxAction::MovePane(FocusDirection::Up))
    } else if name == "move_pane_down"@ {
        Some(MuxAction::MovePane(FocusDirection::Down))
    } else if name == "move_pane"@ {
        Some(MuxAction::MovePane(FocusDirection::Right))
    } else if name == "swap_pane_left"@ {
        Some(MuxAction::SwapPaneDirection(FocusDirection::Left))
    } else if name == "swap_pane_right"@ {
        Some(MuxAction::SwapPaneDirection(FocusDirection::Right))
    } else if name == "swap_pane_up"@ {
        Some(MuxAction::SwapPaneDirection(FocusDirection::Up))
    } else if name == "swap_pane_down"@ {
        Some(MuxAction::SwapPaneDirection(FocusDirection::Down))
    } else {
        None
    }
}

impl MuxAction {
    /// The action for a key-binding name, if the name is known.
    pub fn named(name: &str) -> (r: Option<MuxAction>)
        ensures
            name@ == "rename_tab"@ ==> (r matches Some(MuxAction::RenameTab { name: n }) && n@.len() == 0),
            name@ != "rename_tab"@ ==> r == named_action(name@),
    {
        if str_eq(name, "rename_tab") {
            return Some(MuxAction::RenameTab { name: String::new() });
        }
        if str_eq(name, "new_workspace") {
            Some(MuxAction::NewWorkspace)
        } else if str_eq(name, "close_workspace") {
            Some(MuxAction::CloseWorkspace)
        } else if str_eq(name, "next_workspace") {
            Some(MuxAction::NextWorkspace)
        } else if str_eq(name, "previous_workspace") {
            Some(MuxAction::PreviousWorkspace)
        } else if str_eq(name, "new_tab") {
            Some(MuxAction::NewTab)
        } else if str_eq(name, "close_tab") {
            Some(MuxAction::CloseTab)
        } else if str_eq(name, "next_tab") {
            Some(MuxAction::NextTab)
        } else if str_eq(name, "previous_tab") {
            Some(MuxAction::PreviousTab)
        } else if str_eq(name, "split_horizontal") {
            Some(MuxAction::SplitHorizontal)
        } else if str_eq(name, "split_vertical") {
            Some(MuxAction::SplitVertical)
        } else if str_eq(name, "close_pane") {
            Some(MuxAction::ClosePane)
        } else if str_eq(name, "focus_left") {
            Some(MuxAction::FocusDirection(FocusDirection::Left))
        } else if str_eq(name, "focus_right") {
            Some(MuxAction::FocusDirection(FocusDirection::Right))
        } else if str_eq(name, "focus_up") {
            Some(MuxAction::FocusDirection(FocusDirection::Up))
        } else if str_eq(name, "focus_down") {
            Some(MuxAction::FocusDirection(FocusDirection::Down))
        } else if str_eq(name, "resize_pane_left") {
            Some(MuxAction::ResizePane(ResizeDirection::Left))
        } else if str_eq(name, "resize_pane_right") {
            Some(MuxAction::ResizePane(ResizeDirection::Right))
        } else if str_eq(name, "resize_pane_up") {
            Some(MuxAction::ResizePane(ResizeDirection::Up))
        } else if str_eq(name, "resize_pane_down") {
            Some(MuxAction::ResizePane(ResizeDirection::Down))
        } else if str_eq(name, "zoom_pane") {
            Some(MuxAction::ZoomPane)
        } else if str_eq(name, "move_pane_left") {
            Some(MuxAction::MovePane(FocusDirection::Left))
        } else if str_eq(name, "move_pane_right") {
            Some(MuxAction::MovePane(FocusDirection::Right))
        } else if str_eq(name, "move_pane_up") {
            Some(MuxAction::MovePane(FocusDirection::Up))
        } else if str_eq(name, "move_pane_down") {
            Some(MuxAction::MovePane(FocusDirection::Down))
        } else if str_eq(name, "move_pane") {
            Some(MuxAction::MovePane(FocusDirection::Right))
        } else if str_eq(name, "swap_pane_left") {
            Some(MuxAction::SwapPaneDirection(FocusDirection::Left))
        } else if str_eq(name, "swap_pane_right") {
            Some(MuxAction::SwapPaneDirection(FocusDirection::Right))
        } else if str_eq(name, "swap_pane_up") {
            Some(MuxAction::SwapPaneDirection(FocusDirection::Up))
        } else if str_eq(name, "swap_pane_down") {
            Some(MuxAction::SwapPaneDirection(FocusDirection::Down))
        } else {
            None
        }
    }
}

#[derive(Debug, Clone, PartialEq, Eq)]
pub struct PaneRestore {
    pub pane_id: PaneId,
    pub session_profile: String,
    pub transport: SessionTransportKind,
    pub working_directory: Option<String>,
}

#[derive(Debug, Clone, PartialEq, Eq)]
pub enum MuxError {
    WorkspaceNotFound(WorkspaceId),
    WindowNotFound(WindowId),
    TabNotFound(TabId),
    PaneNotFound(PaneId),
    SessionNotFound(SessionId),
    CannotCloseLastTab,
    CannotCloseLastWorkspace,
    CannotCloseLastPane,
    CannotRemoveRootPane,
    NoPaneInDirection(FocusDirection),
    InvalidSnapshot(String),
}

/// The policy on tmux, screen, and zellij.
pub open spec fn mux_compatibility_policy() -> Seq<char> {
    "native mux wraps sessions; tmux, screen, and zellij remain ordinary terminal applications inside panes"@
}

/// How the native multiplexer relates to external ones.
pub fn external_mux_compatibility_policy() -> (r: &'static str)
    ensures
        r@ == mux_compatibility_policy(),
{
    "native mux wraps sessions; tmux, screen, and zellij remain ordinary terminal applications inside panes"
}

/// The next identifier of each kind; every counter starts at one.
#[derive(Debug, Clone, Copy, PartialEq, Eq, Structural)]
pub struct IdCounters {
    pub workspace: u64,
    pub window: u64,
    pub tab: u64,
    pub pane: u64,
    pub session: u64,
}

impl IdCounters {
    pub fn new() -> (r: IdCounters)
        ensures
            r == (IdCounters { workspace: 1, window: 1, tab: 1, pane: 1, session: 1 }),
    {
        IdCounters { workspace: 1, window: 1, tab: 1, pane: 1, session: 1 }
    }

    pub fn next_workspace(&mut self) -> (r: WorkspaceId)
        requires
            old(self).workspace < u64::MAX,
        ensures
            r == WorkspaceId(old(self).workspace),
            *final(self) == (IdCounters { workspace: (old(self).workspace + 1) as u64, ..*old(self) }),
    {
        let id = WorkspaceId(self.workspace);
        self.workspace = self.workspace + 1;
        id
    }

    pub fn next_window(&mut self) -> (r: WindowId)
        requires
            old(self).window < u64::MAX,
        ensures
            r == WindowId(old(self).window),
            *final(self) == (IdCounters { window: (old(self).window + 1) as u64, ..*old(self) }),
    {
        let id = WindowId(self.window);
        self.window = self.window + 1;
        id
    }

    pub fn next_tab(&mut self) -> (r: TabId)
        requires
            old(self).tab < u64::MAX,
        ensures
            r == TabId(old(self).tab),
            *final(self) == (IdCounters { tab: (old(self).tab + 1) as u64, ..*old(self) }),
    {
        let id = TabId(self.tab);
        self.tab = self.tab + 1;
        id
    }

    pub fn next_pane(&mut self) -> (r: PaneId)
        requires
            old(self).pane < u64::MAX,
        ensures
            r == PaneId(old(self).pane),
            *final(self) == (IdCounters { pane: (old(self).pane + 1) as u64, ..*old(self) }),
    {
        let id = PaneId(self.pane);
        self.pane = self.pane + 1;
        id
    }

    pub fn next_session(&mut self) -> (r: SessionId)
        requires
            old(self).session < u64::MAX,
        ensures
            r == SessionId(old(self).session),
            *final(self) == (IdCounters { session: (old(self).session + 1) as u64, ..*old(self) }),
    {
        let id = SessionId(self.session);
        self.session = self.session + 1;
        id
    }
}

} // verus!
