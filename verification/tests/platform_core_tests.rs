use panea::platform_core::{
    execute_window_chrome_action, win32_virtual_key, ClipboardAvailability, ClipboardDiagnostic,
    ClipboardOperation, ClipboardProvider, NotificationRequest, NotificationUrgency, PlatformError,
    PlatformFallback, PowerSource, PowerState, WindowChromeAction, WindowChromeActionExecutor,
    Win32VirtualKey,
};

#[test]
fn win32_virtual_keys_cover_letters_digits_symbols_navigation_and_modifiers() {
    let key = |name: &str| win32_virtual_key(name).unwrap_or_else(|| panic!("{name} must map"));

    assert_eq!(
        key("KeyA"),
        Win32VirtualKey { virtual_key: 0x41, scan_code: 0x1e, enhanced: false }
    );
    assert_eq!(key("Code(KeyA)"), key("KeyA"));
    assert_eq!(
        key("Digit7"),
        Win32VirtualKey { virtual_key: 0x37, scan_code: 0x08, enhanced: false }
    );
    assert_eq!(
        key("Digit0"),
        Win32VirtualKey { virtual_key: 0x30, scan_code: 0x0b, enhanced: false }
    );
    assert_eq!(key("Minus").virtual_key, 0xbd);
    assert_eq!(key("Equal").virtual_key, 0xbb);
    assert_eq!(key("Semicolon").virtual_key, 0xba);
    assert_eq!(key("Quote").virtual_key, 0xde);
    assert_eq!(key("Backquote").virtual_key, 0xc0);
    assert_eq!(key("Backslash").virtual_key, 0xdc);
    assert_eq!(
        key("ArrowUp"),
        Win32VirtualKey { virtual_key: 0x26, scan_code: 0x48, enhanced: true }
    );
    assert!(key("Delete").enhanced && key("Home").enhanced && key("PageDown").enhanced);
    assert_eq!(
        key("Enter"),
        Win32VirtualKey { virtual_key: 0x0d, scan_code: 0x1c, enhanced: false }
    );
    assert!(key("NumpadEnter").enhanced);
    assert_eq!(
        key("ShiftLeft"),
        Win32VirtualKey { virtual_key: 0x10, scan_code: 0x2a, enhanced: false }
    );
    assert_eq!(key("ShiftRight").scan_code, 0x36);
    assert!(key("ControlRight").enhanced && key("AltRight").enhanced);
    assert_eq!(key("F1").virtual_key, 0x70);
    assert_eq!(
        key("F12"),
        Win32VirtualKey { virtual_key: 0x7b, scan_code: 0x58, enhanced: false }
    );
    assert!(win32_virtual_key("Unidentified(0)").is_none());
}

#[test]
fn win32_code_wrapper_needs_both_brackets() {
    assert_eq!(win32_virtual_key("Code(Space)"), win32_virtual_key("Space"));
    assert!(win32_virtual_key("Code(Space").is_none());
    assert!(win32_virtual_key("Code()").is_none());
    assert!(win32_virtual_key("").is_none());
    assert!(win32_virtual_key("keya").is_none());
}

#[derive(Debug)]
struct FakeClipboard {
    value: String,
    diagnostic: ClipboardDiagnostic,
}

impl Default for FakeClipboard {
    fn default() -> Self {
        Self {
            value: String::new(),
            diagnostic: ClipboardDiagnostic {
                operation: ClipboardOperation::Copy,
                availability: ClipboardAvailability::Available,
                message: None,
            },
        }
    }
}

impl ClipboardProvider for FakeClipboard {
    fn copy_text(&mut self, text: &str) -> Result<(), ClipboardDiagnostic> {
        self.value = text.to_owned();
        self.diagnostic = ClipboardDiagnostic {
            operation: ClipboardOperation::Copy,
            availability: ClipboardAvailability::Available,
            message: None,
        };
        Ok(())
    }

    fn paste_text(&mut self) -> Result<String, ClipboardDiagnostic> {
        self.diagnostic = ClipboardDiagnostic {
            operation: ClipboardOperation::Paste,
            availability: ClipboardAvailability::Available,
            message: None,
        };
        Ok(self.value.clone())
    }

    fn last_diagnostic(&self) -> ClipboardDiagnostic {
        self.diagnostic.clone()
    }
}

#[test]
fn clipboard_provider_contract_is_backend_neutral() {
    let mut clipboard = FakeClipboard::default();

    clipboard.copy_text("panea").expect("fake clipboard copy should work");

    assert_eq!(clipboard.paste_text().as_deref(), Ok("panea"));
    assert_eq!(clipboard.last_diagnostic().availability, ClipboardAvailability::Available);
    assert_eq!(
        clipboard
            .paste_primary_text()
            .expect_err("fake provider has no primary selection")
            .availability,
        ClipboardAvailability::Unavailable
    );
}

#[test]
fn default_primary_selection_copy_reports_unavailable_copy() {
    let mut clipboard = FakeClipboard::default();
    let diagnostic = clipboard.copy_primary_text("x").expect_err("no primary selection");
    assert_eq!(diagnostic.operation, ClipboardOperation::Copy);
    assert_eq!(diagnostic.availability, ClipboardAvailability::Unavailable);
    let diagnostic = clipboard.paste_primary_text().expect_err("no primary selection");
    assert_eq!(diagnostic.operation, ClipboardOperation::Paste);
}

#[test]
fn power_state_contract_distinguishes_unknown_from_battery() {
    assert!(!PowerState::unknown().is_on_battery());
    assert!(
        PowerState { source: PowerSource::Battery, battery_count: 1, charge_percent: Some(42) }
            .is_on_battery()
    );
}

#[test]
fn unknown_power_state_has_no_batteries() {
    let state = PowerState::unknown();
    assert_eq!(state.source, PowerSource::Unknown);
    assert_eq!(state.battery_count, 0);
    assert_eq!(state.charge_percent, None);
    assert!(
        !PowerState { source: PowerSource::Ac, battery_count: 2, charge_percent: Some(90) }
            .is_on_battery()
    );
}

#[test]
fn notification_contract_rejects_unbounded_or_empty_requests() {
    assert!(NotificationRequest::new("Panea", "session exited").validate().is_ok());
    assert_eq!(
        NotificationRequest::new(" ", "body").validate(),
        Err("notification title cannot be empty")
    );
    assert!(
        NotificationRequest::new("Panea", &"x".repeat(NotificationRequest::MAX_BODY_CHARS + 1))
            .validate()
            .is_err()
    );
    assert_eq!(
        NotificationRequest::new("Panea\nspoofed", "body").validate(),
        Err("notification title cannot contain control characters")
    );
    assert_eq!(
        NotificationRequest::new("Panea", "body\0spoofed").validate(),
        Err("notification body contains an unsupported control character")
    );
}

#[test]
fn notification_limits_are_inclusive_and_body_may_break_lines() {
    let title = "t".repeat(NotificationRequest::MAX_TITLE_CHARS);
    assert!(NotificationRequest::new(&title, "body").validate().is_ok());
    let long_title = "t".repeat(NotificationRequest::MAX_TITLE_CHARS + 1);
    assert_eq!(
        NotificationRequest::new(&long_title, "body").validate(),
        Err("notification title exceeds the configured safety bound")
    );
    let body = "b".repeat(NotificationRequest::MAX_BODY_CHARS);
    assert!(NotificationRequest::new("Panea", &body).validate().is_ok());
    assert_eq!(
        NotificationRequest::new("Panea", &"b".repeat(NotificationRequest::MAX_BODY_CHARS + 1))
            .validate(),
        Err("notification body exceeds the configured safety bound")
    );
    assert!(NotificationRequest::new("Panea", "line one\nline two\ttabbed").validate().is_ok());
    let request = NotificationRequest::new("Panea", "x").with_urgency(NotificationUrgency::Critical);
    assert_eq!(request.urgency, NotificationUrgency::Critical);
    assert_eq!(request.title, "Panea");
}

#[derive(Debug)]
struct FakeWindowChromeExecutor {
    rejected: Option<WindowChromeAction>,
}

impl WindowChromeActionExecutor for FakeWindowChromeExecutor {
    fn replies(&self, action: WindowChromeAction, fallback: Option<PlatformFallback>) -> bool {
        (self.rejected == Some(action)) == fallback.is_some()
    }

    fn try_apply_window_chrome_action(
        &mut self,
        action: WindowChromeAction,
    ) -> Result<(), PlatformFallback> {
        if self.rejected == Some(action) {
            Err(PlatformFallback {
                feature: "window_chrome_action".to_owned(),
                requested: action.as_str().to_owned(),
                effective: "unchanged".to_owned(),
                reason: "fake backend rejected the action".to_owned(),
            })
        } else {
            Ok(())
        }
    }
}

#[test]
fn window_chrome_action_contract_never_silently_reports_failure() {
    let actions = [
        WindowChromeAction::BeginDrag,
        WindowChromeAction::Minimize,
        WindowChromeAction::LeaveFullscreen,
        WindowChromeAction::Close,
    ];

    for rejected in actions {
        let mut executor = FakeWindowChromeExecutor { rejected: Some(rejected) };
        for action in actions {
            let diagnostic = execute_window_chrome_action(&mut executor, action);
            assert_eq!(diagnostic.action, action);
            assert_ne!(
                diagnostic.applied,
                diagnostic.fallback.is_some(),
                "{action:?} must be applied or carry an explicit fallback"
            );
            if action == rejected {
                assert!(!diagnostic.applied);
                assert_eq!(
                    diagnostic.fallback.as_ref().map(|value| value.requested.as_str()),
                    Some(action.as_str())
                );
            } else {
                assert!(diagnostic.applied);
            }
        }
    }
}

#[test]
fn window_chrome_action_names_are_snake_case() {
    assert_eq!(WindowChromeAction::BeginDrag.as_str(), "begin_drag");
    assert_eq!(WindowChromeAction::Minimize.as_str(), "minimize");
    assert_eq!(WindowChromeAction::LeaveFullscreen.as_str(), "leave_fullscreen");
    assert_eq!(WindowChromeAction::Close.as_str(), "close");
}

#[test]
fn platform_error_keeps_feature_and_message() {
    let error = PlatformError::new("clipboard", "no display");
    assert_eq!(error.feature, "clipboard");
    assert_eq!(error.message, "no display");
}
