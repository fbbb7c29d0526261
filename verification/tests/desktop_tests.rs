use panea::desktop::{compositor_info, desktop_platform, dpi_behavior_for, linux_backend_diagnostic};
use panea::platform_core::{DpiBehavior, LinuxWindowBackend};
use panea::desktop::{
    clipboard_capabilities, clipboard_diagnostic, ime_commit_text, notification_backend,
    recovery_action, resolve_decoration_mode, starts_fullscreen, summarize_batteries,
    window_chrome_action_fallback, window_chrome_actions_for, window_chrome_operation,
    window_mode_decorations_visible, BatteryReading, DesktopNotificationProvider, DesktopUrlOpener,
    NotificationDispatch, WindowIcon, WinitWindowChromeOperation,
};
use panea::platform_core::{
    ClipboardAvailability, ClipboardCapability, ClipboardOperation, DecorationMode,
    DesktopPlatform, HostOs, KeyEvent, KeyModifiers, KeyState, NotificationAvailability,
    NotificationBackend, NotificationRequest, PowerSource, WindowAction, WindowChromeAction,
    WindowMode,
};

#[test]
fn window_icon_rejects_invalid_rgba_and_accepts_exact_dimensions() {
    assert!(WindowIcon::from_rgba(vec![0; 15], 2, 2).is_err());
    assert!(WindowIcon::from_rgba(vec![0; 4], 0, 1).is_err());

    let icon = WindowIcon::from_rgba(vec![255; 16], 2, 2)
        .expect("four RGBA pixels should form a valid icon");
    assert_eq!(icon.width(), 2);
    assert_eq!(icon.height(), 2);
    assert_eq!(icon.rgba().len(), 16);
}

#[test]
fn window_icon_errors_name_the_problem() {
    assert_eq!(
        WindowIcon::from_rgba(vec![0; 15], 2, 2).unwrap_err(),
        "window icon contains 15 RGBA bytes; expected 16"
    );
    assert_eq!(
        WindowIcon::from_rgba(vec![0; 4], 0, 1).unwrap_err(),
        "window icon dimensions must be non-zero"
    );
    assert_eq!(
        WindowIcon::from_rgba(Vec::new(), 65536, 65536).unwrap_err(),
        "window icon dimensions overflow"
    );
}

#[test]
fn ime_commit_accepts_composed_text_but_not_command_controls() {
    assert_eq!(ime_commit_text("日本語").as_deref(), Some("日本語"));
    assert_eq!(ime_commit_text("e\u{301}").as_deref(), Some("e\u{301}"));
    assert_eq!(ime_commit_text("\r"), None);
    assert_eq!(ime_commit_text("\n"), None);
    assert_eq!(ime_commit_text(""), None);
}

#[test]
fn disabled_notification_provider_does_not_start_a_worker() {
    let mut provider =
        DesktopNotificationProvider::new(false, notification_backend(HostOs::Linux));

    let diagnostic = provider
        .notify(&NotificationRequest::new("Panea", "session exited"))
        .expect_err("disabled notifications must reject without queueing");
    assert_eq!(diagnostic.availability, NotificationAvailability::Disabled);
    assert!(!provider.worker_running());
}

#[test]
fn enabled_notification_provider_starts_its_worker_once() {
    let mut provider = DesktopNotificationProvider::new(true, NotificationBackend::Freedesktop);
    assert_eq!(provider.diagnostic().availability, NotificationAvailability::Available);
    let request = NotificationRequest::new("Panea", "session exited");
    assert_eq!(provider.notify(&request), Ok(NotificationDispatch::StartWorkerAndSend));
    assert!(provider.worker_running());
    assert_eq!(provider.notify(&request), Ok(NotificationDispatch::Send));

    let refused = provider
        .notify(&NotificationRequest::new(" ", "body"))
        .expect_err("blank titles are refused");
    assert_eq!(refused.availability, NotificationAvailability::Unavailable);
    assert_eq!(refused.message, "notification title cannot be empty");

    provider.record_delivery(Err("bus closed"));
    assert_eq!(
        provider.diagnostic().message,
        "freedesktop D-Bus notification delivery failed: bus closed"
    );
    let dropped = provider.record_send_failure(true);
    assert!(dropped.message.contains("queue is full"));
    assert!(provider.worker_running());
    provider.record_send_failure(false);
    assert!(!provider.worker_running());
    let failed = provider.record_worker_start_failure("no threads");
    assert_eq!(failed.message, "failed to start notification worker: no threads");
}

#[test]
fn unsupported_notification_backend_refuses_requests() {
    let mut provider = DesktopNotificationProvider::new(true, NotificationBackend::Unsupported);
    let diagnostic = provider
        .notify(&NotificationRequest::new("Panea", "body"))
        .expect_err("no backend");
    assert_eq!(diagnostic.availability, NotificationAvailability::Unavailable);
    assert!(!provider.worker_running());
}

#[test]
fn notification_backend_is_explicit_for_supported_desktops() {
    assert_eq!(notification_backend(HostOs::Windows), NotificationBackend::WindowsToast);
    assert_eq!(
        notification_backend(HostOs::MacOs),
        NotificationBackend::MacOsNotificationCenter
    );
    assert_eq!(notification_backend(HostOs::Linux), NotificationBackend::Freedesktop);
    assert_eq!(notification_backend(HostOs::Other), NotificationBackend::Unsupported);
}

fn key_event(logical: &str, ctrl: bool, shift: bool) -> KeyEvent {
    KeyEvent {
        physical_key: Some("KeyF".to_owned()),
        logical_key: logical.to_owned(),
        logical_key_without_modifiers: logical.to_owned(),
        text: Some(logical.to_owned()),
        state: KeyState::Pressed,
        modifiers: KeyModifiers { shift, ctrl, alt: false, super_key: false, alt_graph: false },
        repeat: false,
    }
}

#[test]
fn recovery_shortcuts_translate_to_window_actions() {
    let event = key_event("f", true, true);

    assert_eq!(recovery_action(&event), Some(WindowAction::ToggleFullscreen));
}

#[test]
fn recovery_shortcuts_need_control_and_shift() {
    assert_eq!(recovery_action(&key_event("F", true, true)), Some(WindowAction::ToggleFullscreen));
    assert_eq!(
        recovery_action(&key_event("d", true, true)),
        Some(WindowAction::RestoreWindowDecorations)
    );
    assert_eq!(recovery_action(&key_event("m", true, true)), Some(WindowAction::ToggleFrameless));
    assert_eq!(recovery_action(&key_event("w", true, true)), Some(WindowAction::CloseWindow));
    assert_eq!(
        recovery_action(&key_event("p", true, true)),
        Some(WindowAction::OpenCommandPaletteLater)
    );
    assert_eq!(recovery_action(&key_event("f", true, false)), None);
    assert_eq!(recovery_action(&key_event("f", false, true)), None);
    assert_eq!(recovery_action(&key_event("x", true, true)), None);
    assert_eq!(recovery_action(&key_event("ff", true, true)), None);
}

#[test]
fn clipboard_unavailable_diagnostic_names_operation() {
    let diagnostic = clipboard_diagnostic(
        ClipboardOperation::Paste,
        ClipboardAvailability::Unavailable,
        Some("missing backend".to_owned()),
    );

    assert_eq!(diagnostic.operation, ClipboardOperation::Paste);
    assert_eq!(diagnostic.availability, ClipboardAvailability::Unavailable);
}

#[test]
fn url_opener_rejects_non_web_schemes_before_platform_launch() {
    let opener = DesktopUrlOpener::new();
    let diagnostic = opener.check_url("file:///tmp/not-allowed").expect_err("file URL must be rejected");
    assert!(diagnostic.message.unwrap().contains("http"));
}

#[test]
fn url_opener_accepts_http_and_https_only() {
    let opener = DesktopUrlOpener::new();
    assert!(opener.check_url("http://example.com").is_ok());
    assert!(opener.check_url("https://example.com/a?b").is_ok());
    assert!(opener.check_url("https:/example.com").is_err());
    assert!(opener.check_url("HTTP://example.com").is_err());
    assert!(opener.check_url("").is_err());
}

#[test]
fn primary_selection_capability_is_linux_only() {
    for host in [HostOs::Windows, HostOs::MacOs, HostOs::Linux, HostOs::Other] {
        assert_eq!(
            clipboard_capabilities(host).contains(&ClipboardCapability::PrimarySelection),
            host == HostOs::Linux
        );
        assert_eq!(clipboard_capabilities(host)[0], ClipboardCapability::System);
    }
}

#[test]
fn borderless_fullscreen_suppresses_native_decorations_and_windowed_restores_them() {
    assert!(!window_mode_decorations_visible(
        WindowMode::BorderlessFullscreen,
        DecorationMode::Native,
    ));
    assert!(!window_mode_decorations_visible(
        WindowMode::FramelessFullscreen,
        DecorationMode::Native,
    ));
    assert!(window_mode_decorations_visible(WindowMode::Windowed, DecorationMode::Native));
}

#[test]
fn fullscreen_modes_are_created_fullscreen_before_the_window_is_revealed() {
    assert!(!starts_fullscreen(WindowMode::Windowed));
    for mode in [
        WindowMode::Fullscreen,
        WindowMode::BorderlessFullscreen,
        WindowMode::FramelessFullscreen,
    ] {
        assert!(starts_fullscreen(mode), "{mode:?}");
    }
}

#[test]
fn unsupported_custom_decorations_report_an_explicit_fallback() {
    let resolution = resolve_decoration_mode(DecorationMode::Custom, DesktopPlatform::Windows);

    assert_eq!(resolution.effective, DecorationMode::Native);
    let fallback = resolution.fallback.expect("custom mode must report fallback");
    assert_eq!(fallback.feature, "window_decorations");
    assert!(fallback.reason.contains("cannot guarantee"));
}

#[test]
fn wayland_client_side_request_reports_negotiation() {
    let resolution =
        resolve_decoration_mode(DecorationMode::ClientSide, DesktopPlatform::LinuxWayland);

    assert_eq!(resolution.effective, DecorationMode::Native);
    assert!(
        resolution
            .fallback
            .expect("Wayland negotiation must be visible")
            .reason
            .contains("compositor")
    );
}

#[test]
fn native_and_x11_server_side_decorations_resolve_without_fallback() {
    let native = resolve_decoration_mode(DecorationMode::Native, DesktopPlatform::Windows);
    assert_eq!(native.effective, DecorationMode::Native);
    assert!(native.fallback.is_none());
    let none = resolve_decoration_mode(DecorationMode::Undecorated, DesktopPlatform::MacOs);
    assert_eq!(none.effective, DecorationMode::Undecorated);
    assert!(none.fallback.is_none());
    let x11 = resolve_decoration_mode(DecorationMode::ServerSide, DesktopPlatform::LinuxX11);
    assert!(x11.fallback.is_none());
}

#[test]
fn window_chrome_action_mapping_is_total_and_close_stays_app_owned() {
    assert_eq!(
        window_chrome_operation(WindowChromeAction::BeginDrag),
        WinitWindowChromeOperation::DragWindow
    );
    assert_eq!(
        window_chrome_operation(WindowChromeAction::Minimize),
        WinitWindowChromeOperation::Minimize
    );
    assert_eq!(
        window_chrome_operation(WindowChromeAction::LeaveFullscreen),
        WinitWindowChromeOperation::LeaveFullscreen
    );
    assert_eq!(
        window_chrome_operation(WindowChromeAction::Close),
        WinitWindowChromeOperation::RequestDesktopClose
    );
}

#[test]
fn window_chrome_action_capabilities_cover_every_desktop_backend() {
    let all_actions = vec![
        WindowChromeAction::BeginDrag,
        WindowChromeAction::Minimize,
        WindowChromeAction::LeaveFullscreen,
        WindowChromeAction::Close,
    ];
    for platform in [
        DesktopPlatform::Windows,
        DesktopPlatform::MacOs,
        DesktopPlatform::LinuxX11,
        DesktopPlatform::LinuxWayland,
    ] {
        assert_eq!(window_chrome_actions_for(platform), all_actions);
    }
    assert_eq!(window_chrome_actions_for(DesktopPlatform::Unknown), vec![WindowChromeAction::Close]);
}

#[test]
fn rejected_window_chrome_action_names_the_backend_failure() {
    let fallback = window_chrome_action_fallback(
        WindowChromeAction::BeginDrag,
        "the compositor rejected interactive movement",
    );

    assert_eq!(fallback.feature, "window_chrome_action");
    assert_eq!(fallback.requested, "begin_drag");
    assert_eq!(fallback.effective, "unchanged");
    assert!(fallback.reason.contains("compositor"));
}

#[test]
fn battery_summary_prefers_discharging_and_lowest_charge() {
    let empty = summarize_batteries(&Vec::new());
    assert_eq!(empty.state.source, PowerSource::Unknown);
    assert_eq!(empty.state.battery_count, 0);
    assert_eq!(empty.state.charge_percent, None);

    let readings = vec![
        BatteryReading::Present { discharging: false, charge_percent: 80 },
        BatteryReading::Present { discharging: true, charge_percent: 35 },
        BatteryReading::Failed { error: "busy".to_owned() },
    ];
    let summary = summarize_batteries(&readings);
    assert_eq!(summary.state.source, PowerSource::Battery);
    assert_eq!(summary.state.battery_count, 2);
    assert_eq!(summary.state.charge_percent, Some(35));
    assert_eq!(summary.message.as_deref(), Some("battery read failed: busy"));

    let charging = summarize_batteries(&vec![BatteryReading::Present {
        discharging: false,
        charge_percent: 100,
    }]);
    assert_eq!(charging.state.source, PowerSource::Ac);
}

#[test]
fn linux_platform_follows_the_session_environment() {
    assert_eq!(desktop_platform(HostOs::Linux, true, true), DesktopPlatform::LinuxWayland);
    assert_eq!(desktop_platform(HostOs::Linux, false, true), DesktopPlatform::LinuxX11);
    assert_eq!(desktop_platform(HostOs::Linux, false, false), DesktopPlatform::Unknown);
    assert_eq!(desktop_platform(HostOs::Windows, true, true), DesktopPlatform::Windows);
    assert_eq!(dpi_behavior_for(HostOs::Windows), DpiBehavior::PerMonitor);
    assert_eq!(dpi_behavior_for(HostOs::Linux), DpiBehavior::FractionalScale);
    assert!(compositor_info(HostOs::MacOs, DesktopPlatform::MacOs, None).is_none());
    let compositor = compositor_info(HostOs::Linux, DesktopPlatform::LinuxWayland, Some("sway".to_owned()))
        .expect("Linux reports its compositor");
    assert_eq!(compositor.name.as_deref(), Some("sway"));

    let decoration = resolve_decoration_mode(DecorationMode::Native, DesktopPlatform::LinuxWayland);
    let diagnostic = linux_backend_diagnostic(
        HostOs::Linux,
        LinuxWindowBackend::X11,
        DecorationMode::Native,
        &decoration,
        DesktopPlatform::LinuxWayland,
        None,
    )
    .expect("Linux reports its backend");
    let fallback = diagnostic.fallback.expect("the backend differs from the request");
    assert_eq!(fallback.feature, "linux_window_backend");
    assert_eq!(fallback.requested, "X11");
    assert_eq!(fallback.effective, "LinuxWayland");
    assert!(linux_backend_diagnostic(
        HostOs::Windows,
        LinuxWindowBackend::Auto,
        DecorationMode::Native,
        &decoration,
        DesktopPlatform::Windows,
        None,
    )
    .is_none());
}
