use panea::mux::{
    MuxError, PaneExitDisposition, PaneId, PaneRestore, SessionId, SessionSpec, SessionStatus,
    SessionTransportKind, SplitAxis, TabTitleSource,
};
use panea::mux_model::MuxModel;
use panea::mux::TabId;
use panea::mux_restore::{RestoreSnapshot, TabRestore, WindowRestore, WorkspaceRestore};
use panea::platform_core::HostOs;
use panea::split_tree::{SplitRatio, SplitTree};

#[derive(Debug, Clone, Copy, PartialEq)]
struct Weight(f32);

impl SplitRatio for Weight {
    fn usable(&self) -> bool {
        self.is_usable()
    }

    fn forward(&self) -> bool {
        self.grows_forward()
    }

    fn negation(&self) -> Self {
        self.negated()
    }

    fn half_weight() -> Self {
        Self::half()
    }

    fn scaled(&self, factor: &Self) -> Self {
        self.scaled_by(factor)
    }

    fn zero_weight() -> Self {
        Self::zero()
    }

    fn zero() -> Self {
        Weight(-0.0)
    }

    fn added(&self, other: &Self) -> Self {
        self.plus(other)
    }

    fn subtracted(&self, other: &Self) -> Self {
        self.minus(other)
    }

    fn negligible(&self) -> bool {
        self.is_negligible()
    }

    fn equal_part(count: usize) -> Self {
        Self::equal_share(count)
    }

    fn share(&self, total: &Self) -> Self {
        self.share_of(total)
    }

    fn moved(amount: &Self, neighbor: &Self) -> Self {
        Self::transfer(amount, neighbor)
    }

    fn half() -> Self {
        Weight(0.5)
    }

    fn is_usable(&self) -> bool {
        self.0.is_finite() && self.0 > 0.0
    }

    fn scaled_by(&self, factor: &Self) -> Self {
        Weight(self.0 * factor.0)
    }


    fn is_negligible(&self) -> bool {
        self.0 <= f32::EPSILON
    }

    fn equal_share(count: usize) -> Self {
        Weight(1.0 / count as f32)
    }

    fn share_of(&self, total: &Self) -> Self {
        Weight((self.0 / total.0).clamp(0.05, 0.95))
    }

    fn grows_forward(&self) -> bool {
        self.0 >= 0.0
    }

    fn negated(&self) -> Self {
        Weight(-self.0)
    }

    fn transfer(amount: &Self, neighbor: &Self) -> Self {
        Weight(amount.0.abs().clamp(0.01, 0.25).min((neighbor.0 - 0.05).max(0.0)))
    }

    fn plus(&self, other: &Self) -> Self {
        Weight(self.0 + other.0)
    }

    fn minus(&self, other: &Self) -> Self {
        Weight(self.0 - other.0)
    }
}

fn local() -> SessionSpec {
    SessionSpec::local("default", HostOs::Linux)
}

fn model() -> MuxModel<Weight> {
    MuxModel::new(local())
}

fn leaves(tree: &SplitTree<Weight>) -> Vec<PaneId> {
    let mut output = Vec::new();
    tree.collect_panes(&mut output);
    output
}

#[test]
fn model_starts_with_workspace_tab_pane_and_session() {
    let model = model();
    let workspace = model.active_workspace();
    let tab = model.active_tab();

    assert_eq!(workspace.windows.len(), 1);
    assert_eq!(tab.panes.len(), 1);
    assert_eq!(tab.sessions.len(), 1);
    assert_eq!(tab.active_pane().session_id, SessionId(1));
}

#[test]
fn tabs_can_be_created_renamed_moved_switched_and_closed() {
    let mut model = model();
    let first = model.active_tab().id;
    let second = model.new_tab("build", local()).expect("new tab");

    assert_eq!(model.active_tab().id, second);
    model.rename_tab(second, "server").expect("rename");
    assert_eq!(model.active_tab().name, "server");

    model.move_tab(second, 0).expect("move");
    assert_eq!(model.active_workspace().active_window().tabs[0].id, second);

    model.switch_tab(first).expect("switch");
    assert_eq!(model.active_tab().id, first);

    model.close_tab(first).expect("close");
    assert_eq!(model.active_tab().id, second);
}

#[test]
fn active_pane_title_updates_tab_without_overriding_user_title() {
    let mut model = model();
    let pane = model.active_tab().active_pane;
    model.update_pane_title(pane, "vim").expect("title");
    assert_eq!(model.active_tab().name, "vim");
    let tab_id = model.active_tab().id;
    model.rename_tab(tab_id, "editor").expect("user title");
    model.update_pane_title(pane, "nvim").expect("title");
    assert_eq!(model.active_tab().name, "editor");
}

#[test]
fn workspaces_can_be_created_switched_renamed_and_closed() {
    let mut model = model();
    let first = model.active_workspace;
    let second = model.new_workspace("remote", SessionSpec::ssh("prod"));

    assert_eq!(model.active_workspace, second);
    assert_eq!(model.active_tab().active_pane().session_id, SessionId(2));
    model.rename_workspace(second, "ops").expect("rename");
    assert_eq!(model.active_workspace().name, "ops");
    model.switch_workspace(first).expect("switch");
    model.close_workspace(second).expect("close");
    assert_eq!(model.workspaces.len(), 1);
    assert_eq!(model.close_workspace(first), Err(MuxError::CannotCloseLastWorkspace));
}

#[test]
fn restore_snapshot_persists_layout_but_not_process_resurrection() {
    let mut model = model();
    model.split_active_pane(SplitAxis::Horizontal, local()).expect("split");

    let snapshot = model.restore_snapshot();

    assert_eq!(snapshot.workspaces.len(), 1);
    assert_eq!(snapshot.workspaces[0].windows[0].tabs[0].panes.len(), 2);
    assert_eq!(snapshot.workspaces[0].windows[0].tabs[0].panes[0].session_profile, "default");

    let restored = MuxModel::from_restore_snapshot(&snapshot, SessionSpec::local("fallback", HostOs::Linux))
        .expect("restore");
    assert_eq!(restored.active_tab().panes.len(), 2);
    assert_eq!(leaves(&restored.active_tab().root).len(), 2);
    assert!(restored.active_tab().sessions.iter().all(|session| session.spec.profile_name == "default"));
}

#[test]
fn clean_exit_removes_only_the_exited_pane_from_a_split() {
    let mut model = model();
    let original = model.active_tab().active_pane;
    let exited = model.split_active_pane(SplitAxis::Horizontal, local()).expect("split pane");

    let disposition = model.close_exited_pane(exited).expect("close exited pane");

    assert_eq!(disposition, PaneExitDisposition::PaneClosed);
    assert_eq!(model.active_tab().panes.len(), 1);
    assert_eq!(model.active_tab().active_pane, original);
}

#[test]
fn clean_exit_removes_a_single_pane_tab_when_another_tab_exists() {
    let mut model = model();
    let first_tab = model.active_tab().id;
    model.new_tab("2", local()).expect("new tab");
    let exited = model.active_tab().active_pane;

    let disposition = model.close_exited_pane(exited).expect("close exited tab");

    assert_eq!(disposition, PaneExitDisposition::TabClosed);
    assert_eq!(model.active_tab().id, first_tab);
    assert_eq!(model.active_workspace().active_window().tabs.len(), 1);
}

#[test]
fn clean_exit_of_the_final_session_requests_application_exit() {
    let mut model = model();
    let exited = model.active_tab().active_pane;

    let disposition = model.close_exited_pane(exited).expect("classify final exit");

    assert_eq!(disposition, PaneExitDisposition::ExitApplication);
    assert_eq!(model.active_tab().active_pane, exited);
}

#[test]
fn invalid_restore_snapshot_is_rejected_without_panicking() {
    let snapshot: RestoreSnapshot<Weight> = RestoreSnapshot {
        workspaces: vec![WorkspaceRestore { name: "broken".to_owned(), windows: Vec::new() }],
    };

    assert!(matches!(
        MuxModel::from_restore_snapshot(&snapshot, local()),
        Err(MuxError::InvalidSnapshot(_))
    ));

    let pane_id = PaneId(7);
    let duplicate = RestoreSnapshot {
        workspaces: vec![WorkspaceRestore {
            name: "broken".to_owned(),
            windows: vec![WindowRestore {
                active_tab_name: Some("tab".to_owned()),
                tabs: vec![TabRestore {
                    name: "tab".to_owned(),
                    layout: SplitTree::Split {
                        axis: SplitAxis::Horizontal,
                        children: vec![SplitTree::Pane(pane_id), SplitTree::Pane(pane_id)],
                        ratios: vec![Weight(0.5), Weight(0.5)],
                    },
                    active_pane: pane_id,
                    panes: vec![PaneRestore {
                        pane_id,
                        session_profile: "default".to_owned(),
                        transport: SessionTransportKind::LocalPty,
                        working_directory: None,
                    }],
                }],
            }],
        }],
    };
    assert!(matches!(
        MuxModel::from_restore_snapshot(&duplicate, local()),
        Err(MuxError::InvalidSnapshot(_))
    ));
}

#[test]
fn layout_revision_changes_only_for_layout_affecting_mutations() {
    let mut model = model();
    let initial = model.layout_revision();
    let tab_id = model.active_tab().id;

    model.rename_tab(tab_id, "renamed").expect("rename tab");
    assert_eq!(model.layout_revision(), initial);

    model.split_active_pane(SplitAxis::Horizontal, local()).expect("split pane");
    let after_split = model.layout_revision();
    assert_ne!(after_split, initial);

    model.toggle_zoom_active_pane();
    assert_ne!(model.layout_revision(), after_split);
}

#[test]
fn closing_the_pane_a_split_added_restores_the_layout() {
    let mut model = model();
    let first = model.active_tab().active_pane;
    let second = model.split_active_pane(SplitAxis::Vertical, local()).expect("split");
    assert_eq!(leaves(&model.active_tab().root), vec![first, second]);
    assert_eq!(model.active_tab().active_pane, second);

    model.close_pane(second).expect("close");
    assert_eq!(leaves(&model.active_tab().root), vec![first]);
    assert!(matches!(model.active_tab().root, SplitTree::Pane(id) if id == first));
    assert_eq!(model.active_tab().active_pane, first);
    assert_eq!(model.active_tab().sessions.len(), 1);
}

#[test]
fn same_axis_splits_flatten_when_a_pane_closes() {
    let mut model = model();
    let first = model.active_tab().active_pane;
    let second = model.split_active_pane(SplitAxis::Horizontal, local()).expect("second");
    let third = model.split_active_pane(SplitAxis::Horizontal, local()).expect("third");
    let fourth = model.split_active_pane(SplitAxis::Vertical, local()).expect("fourth");
    assert_eq!(leaves(&model.active_tab().root), vec![first, second, third, fourth]);

    model.close_pane(fourth).expect("close");
    assert_eq!(model.active_tab().active_pane, first);
    match &model.active_tab().root {
        SplitTree::Split { axis, children, ratios } => {
            assert_eq!(*axis, SplitAxis::Horizontal);
            assert_eq!(children.len(), 3);
            assert_eq!(ratios.len(), 3);
            assert!(children.iter().all(|child| matches!(child, SplitTree::Pane(_))));
        }
        SplitTree::Pane(_) => panic!("three panes need a split"),
    }
}

#[test]
fn pane_close_errors_leave_the_last_pane_in_place() {
    let mut model = model();
    let only = model.active_tab().active_pane;
    assert_eq!(model.close_pane(only), Err(MuxError::CannotCloseLastPane));
    model.split_active_pane(SplitAxis::Horizontal, local()).expect("split");
    assert_eq!(model.close_pane(PaneId(99)), Err(MuxError::PaneNotFound(PaneId(99))));
    assert_eq!(model.active_tab().panes.len(), 2);
}

#[test]
fn swapping_panes_twice_restores_the_layout() {
    let mut model = model();
    let first = model.active_tab().active_pane;
    let second = model.split_active_pane(SplitAxis::Horizontal, local()).expect("split");
    let revision = model.layout_revision();
    model.swap_panes(first, second).expect("swap");
    assert_eq!(leaves(&model.active_tab().root), vec![second, first]);
    assert_ne!(model.layout_revision(), revision);
    model.swap_panes(first, second).expect("swap back");
    assert_eq!(leaves(&model.active_tab().root), vec![first, second]);
    assert_eq!(model.swap_panes(first, PaneId(42)), Err(MuxError::PaneNotFound(PaneId(42))));
}

#[test]
fn focus_and_zoom_follow_the_focused_pane() {
    let mut model = model();
    let first = model.active_tab().active_pane;
    let second = model.split_active_pane(SplitAxis::Horizontal, local()).expect("split");
    model.focus_pane(first).expect("focus");
    assert_eq!(model.active_tab().active_pane, first);
    assert_eq!(model.focus_pane(PaneId(77)), Err(MuxError::PaneNotFound(PaneId(77))));
    assert_eq!(model.toggle_zoom_active_pane(), first);
    assert_eq!(model.active_tab().zoomed_pane, Some(first));
    model.close_pane(first).expect("close zoomed");
    assert_eq!(model.active_tab().zoomed_pane, None);
    assert_eq!(model.active_tab().active_pane, second);
}

#[test]
fn pane_titles_reach_the_pane_and_its_session() {
    let mut model = model();
    let pane = model.active_tab().active_pane;
    model.update_pane_title(pane, "htop").expect("title");
    let tab = model.active_tab();
    assert_eq!(tab.panes[0].title.as_deref(), Some("htop"));
    assert_eq!(tab.sessions[0].title.as_deref(), Some("htop"));
    assert_eq!(tab.title_source, TabTitleSource::Session);
    assert_eq!(model.update_pane_title(PaneId(5), "x"), Err(MuxError::PaneNotFound(PaneId(5))));

    let session = model.session_for_pane(pane).expect("session");
    assert_eq!(session.id, SessionId(1));
    assert_eq!(session.status, SessionStatus::Pending);
    assert!(matches!(model.session_for_pane(PaneId(9)), Err(MuxError::PaneNotFound(_))));
}

#[test]
fn tab_errors_name_the_problem() {
    let mut model = model();
    let only = model.active_tab().id;
    assert_eq!(model.close_tab(only), Err(MuxError::CannotCloseLastTab));
    let second = model.new_tab("2", local()).expect("tab");
    assert_eq!(model.switch_tab(panea::mux::TabId(50)), Err(MuxError::TabNotFound(panea::mux::TabId(50))));
    assert_eq!(model.move_tab(panea::mux::TabId(50), 0), Err(MuxError::TabNotFound(panea::mux::TabId(50))));
    model.move_tab(only, 10).expect("move to the end");
    assert_eq!(model.active_workspace().active_window().tabs[1].id, only);
    model.close_tab(second).expect("close focused");
    assert_eq!(model.active_tab().id, only);
}

#[test]
fn exited_panes_close_windows_and_workspaces_in_turn() {
    let mut model = model();
    let first_workspace = model.active_workspace;
    model.new_workspace("second", local());
    let exited = model.active_tab().active_pane;
    assert_eq!(model.close_exited_pane(exited), Ok(PaneExitDisposition::WorkspaceClosed));
    assert_eq!(model.active_workspace, first_workspace);
    assert_eq!(model.close_exited_pane(PaneId(1000)), Err(MuxError::PaneNotFound(PaneId(1000))));
}

#[test]
fn restored_tabs_focus_the_recorded_tab_and_rename_panes() {
    let snapshot = RestoreSnapshot {
        workspaces: vec![WorkspaceRestore {
            name: "work".to_owned(),
            windows: vec![WindowRestore {
                active_tab_name: Some("logs".to_owned()),
                tabs: vec![
                    TabRestore {
                        name: "code".to_owned(),
                        layout: SplitTree::Pane(PaneId(40)),
                        active_pane: PaneId(40),
                        panes: vec![PaneRestore {
                            pane_id: PaneId(40),
                            session_profile: "default".to_owned(),
                            transport: SessionTransportKind::LocalPty,
                            working_directory: Some("/src".to_owned()),
                        }],
                    },
                    TabRestore {
                        name: "logs".to_owned(),
                        layout: SplitTree::Split {
                            axis: SplitAxis::Vertical,
                            children: vec![SplitTree::Pane(PaneId(8)), SplitTree::Pane(PaneId(9))],
                            ratios: vec![Weight(0.3), Weight(0.7)],
                        },
                        active_pane: PaneId(9),
                        panes: vec![
                            PaneRestore {
                                pane_id: PaneId(8),
                                session_profile: "default".to_owned(),
                                transport: SessionTransportKind::LocalPty,
                                working_directory: None,
                            },
                            PaneRestore {
                                pane_id: PaneId(9),
                                session_profile: "prod".to_owned(),
                                transport: SessionTransportKind::Ssh,
                                working_directory: None,
                            },
                        ],
                    },
                ],
            }],
        }],
    };
    let restored = MuxModel::from_restore_snapshot(&snapshot, local()).expect("restore");
    let tab = restored.active_tab();
    assert_eq!(tab.name, "logs");
    assert_eq!(leaves(&tab.root), vec![PaneId(2), PaneId(3)]);
    assert_eq!(tab.active_pane, PaneId(3));
    assert_eq!(tab.sessions[1].spec.transport, SessionTransportKind::Ssh);
    assert_eq!(tab.sessions[1].spec.profile_name, "prod");
    let code = &restored.active_workspace().active_window().tabs[0];
    assert_eq!(code.sessions[0].spec.working_directory.as_deref(), Some("/src"));
}

#[test]
fn restoring_rejects_layouts_that_miss_panes() {
    let snapshot: RestoreSnapshot<Weight> = RestoreSnapshot {
        workspaces: vec![WorkspaceRestore {
            name: "work".to_owned(),
            windows: vec![WindowRestore {
                active_tab_name: None,
                tabs: vec![TabRestore {
                    name: "tab".to_owned(),
                    layout: SplitTree::Pane(PaneId(3)),
                    active_pane: PaneId(3),
                    panes: vec![PaneRestore {
                        pane_id: PaneId(4),
                        session_profile: "default".to_owned(),
                        transport: SessionTransportKind::LocalPty,
                        working_directory: None,
                    }],
                }],
            }],
        }],
    };
    assert_eq!(
        MuxModel::from_restore_snapshot(&snapshot, local()).map(|_| ()),
        Err(MuxError::InvalidSnapshot("layout references missing pane PaneId(3)".to_owned()))
    );

    let empty: RestoreSnapshot<Weight> = RestoreSnapshot { workspaces: Vec::new() };
    let fresh = MuxModel::from_restore_snapshot(&empty, local()).expect("empty snapshot");
    assert_eq!(fresh.workspaces.len(), 1);
    assert_eq!(fresh.active_workspace().name, "default");
}

#[test]
fn focused_tab_can_be_changed_in_place() {
    let mut model = model();
    let first_name = model.active_tab().name.clone();
    let second = model.new_tab("build", local()).expect("new tab");
    model.active_tab_mut().name = "renamed".to_string();
    assert_eq!(model.active_tab().id, second);
    assert_eq!(model.active_tab().name, "renamed");
    assert_eq!(model.active_workspace().active_window().tabs[0].name, first_name);

    let window = model.active_workspace_mut().active_window_mut();
    window.active_tab_mut().name = "again".to_string();
    assert_eq!(model.active_tab().name, "again");
}

#[test]
fn tab_lookup_for_change_names_a_missing_tab() {
    let mut model = model();
    let first = model.active_tab().id;
    let window = model.active_workspace_mut().active_window_mut();
    window.tab_mut(first).expect("tab").name = "first".to_string();
    assert_eq!(window.tabs[0].name, "first");
    assert_eq!(window.tab_mut(TabId(99)).err(), Some(MuxError::TabNotFound(TabId(99))));
}

#[test]
fn session_of_a_pane_can_be_changed_in_place() {
    let mut model = model();
    let pane = model.active_tab().active_pane;
    model.session_for_pane_mut(pane).expect("session").title = Some("shell".to_string());
    assert_eq!(model.session_for_pane(pane).expect("session").title.as_deref(), Some("shell"));
    assert_eq!(
        model.session_for_pane_mut(PaneId(42)).err(),
        Some(MuxError::PaneNotFound(PaneId(42)))
    );
}
