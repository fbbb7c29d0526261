use panea::mux::{
    external_mux_compatibility_policy, FocusDirection, IdCounters, MuxAction, ResizeDirection,
    SessionSpec, SessionTransportKind, SplitAxis, TerminalGridSize,
};
use panea::platform_core::HostOs;

#[test]
fn ssh_sessions_are_first_class_mux_specs() {
    let spec = SessionSpec::ssh("prod");

    assert_eq!(spec.profile_name, "prod");
    assert_eq!(spec.transport, SessionTransportKind::Ssh);
}

#[test]
fn local_sessions_pick_the_host_transport() {
    assert_eq!(
        SessionSpec::local("default", HostOs::Windows).transport,
        SessionTransportKind::WindowsPseudoconsole
    );
    assert_eq!(SessionSpec::local("default", HostOs::Linux).transport, SessionTransportKind::LocalPty);
    assert_eq!(SessionSpec::local("default", HostOs::MacOs).profile_name, "default");
}

#[test]
fn action_names_cover_default_mux_keybindings() {
    for action in [
        "new_tab",
        "close_tab",
        "next_tab",
        "previous_tab",
        "split_horizontal",
        "split_vertical",
        "close_pane",
        "focus_left",
        "focus_right",
        "focus_up",
        "focus_down",
        "resize_pane_left",
        "resize_pane_right",
        "resize_pane_up",
        "resize_pane_down",
        "zoom_pane",
        "rename_tab",
        "move_pane_left",
        "move_pane_right",
        "move_pane_up",
        "move_pane_down",
    ] {
        assert!(MuxAction::named(action).is_some(), "{action}");
    }
}

#[test]
fn action_names_map_to_their_actions() {
    assert_eq!(MuxAction::named("new_tab"), Some(MuxAction::NewTab));
    assert_eq!(
        MuxAction::named("focus_left"),
        Some(MuxAction::FocusDirection(FocusDirection::Left))
    );
    assert_eq!(
        MuxAction::named("resize_pane_down"),
        Some(MuxAction::ResizePane(ResizeDirection::Down))
    );
    assert_eq!(MuxAction::named("move_pane_up"), Some(MuxAction::MovePane(FocusDirection::Up)));
    assert_eq!(MuxAction::named("no_such_action"), None);
    assert_eq!(MuxAction::named(""), None);
}

#[test]
fn resize_directions_name_their_split_axis() {
    assert_eq!(ResizeDirection::Left.axis(), SplitAxis::Horizontal);
    assert_eq!(ResizeDirection::Right.axis(), SplitAxis::Horizontal);
    assert_eq!(ResizeDirection::Up.axis(), SplitAxis::Vertical);
    assert_eq!(ResizeDirection::Down.axis(), SplitAxis::Vertical);
}

#[test]
fn native_mux_policy_keeps_external_multiplexers_inside_panes() {
    assert!(external_mux_compatibility_policy().contains("ordinary terminal applications inside panes"));
}

#[test]
fn grid_sizes_are_at_least_one_cell() {
    assert_eq!(TerminalGridSize::new(0, 0), TerminalGridSize { cols: 1, rows: 1 });
    assert_eq!(TerminalGridSize::new(80, 24), TerminalGridSize { cols: 80, rows: 24 });
}

#[test]
fn id_counters_hand_out_increasing_ids() {
    let mut ids = IdCounters::new();
    let first = ids.next_pane();
    let second = ids.next_pane();
    assert_eq!(first.0, 1);
    assert_eq!(second.0, 2);
    assert_eq!(ids.next_tab().0, 1);
    assert_eq!(ids.next_session().0, 1);
    assert_eq!(ids.next_workspace().0, 1);
    assert_eq!(ids.next_window().0, 1);
}
