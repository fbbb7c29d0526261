use panea::desktop::{BatteryReading, DesktopPowerMonitor, POWER_REFRESH_INTERVAL};
use panea::input::{
    should_forward_key_event, should_suppress_initial_activation_key, InputTranslator,
    TranslatedInput, WindowInput, INITIAL_ACTIVATION_KEY_GUARD,
};
use panea::platform_core::{ImeEvent, KeyModifiers, KeyState, PowerSource, WindowAction};

const MILLIS: u64 = 1_000_000;

#[test]
fn initial_window_activation_key_is_quarantined_until_release() {
    let enter = "Code(Enter)";
    let letter = "Code(KeyA)";
    let mut suppressed = Vec::new();

    assert!(should_suppress_initial_activation_key(&mut suppressed, enter, KeyState::Pressed, 100 * MILLIS));
    assert!(should_suppress_initial_activation_key(&mut suppressed, enter, KeyState::Pressed, 2_000 * MILLIS));
    assert!(should_suppress_initial_activation_key(&mut suppressed, enter, KeyState::Released, 2_000 * MILLIS));
    assert!(suppressed.is_empty());

    assert!(!should_suppress_initial_activation_key(&mut suppressed, letter, KeyState::Pressed, 100 * MILLIS));
    assert!(!should_suppress_initial_activation_key(
        &mut suppressed,
        enter,
        KeyState::Pressed,
        INITIAL_ACTIVATION_KEY_GUARD + MILLIS,
    ));
}

#[test]
fn orphan_key_repeat_is_not_forwarded_as_terminal_input() {
    let key = "Code(Enter)";
    let mut pressed = Vec::new();

    assert!(!should_forward_key_event(&mut pressed, key, KeyState::Pressed, true));
    assert!(pressed.is_empty());

    assert!(should_forward_key_event(&mut pressed, key, KeyState::Pressed, false));
    assert!(should_forward_key_event(&mut pressed, key, KeyState::Pressed, true));
    assert!(should_forward_key_event(&mut pressed, key, KeyState::Released, false));
    assert!(pressed.is_empty());
}

fn keyboard(physical: &str, logical: &str, state: KeyState, repeat: bool) -> WindowInput {
    WindowInput::Keyboard {
        physical_key: physical.to_owned(),
        logical_key: logical.to_owned(),
        logical_key_without_modifiers: logical.to_owned(),
        alt_graph: false,
        text: None,
        state,
        repeat,
    }
}

#[test]
fn initial_focus_handoff_is_rearmed_after_slow_startup() {
    let mut translator = InputTranslator::new(0);
    translator.translate_window_event(WindowInput::Focused(true), 0);
    let start = 10_000 * MILLIS;
    assert_eq!(
        translator.translate_window_event(keyboard("Code(Enter)", "Enter", KeyState::Pressed, false), start).len(),
        1,
        "the guard has long expired"
    );
    translator.arm_initial_focus_handoff(start);
    assert_eq!(
        translator.translate_window_event(WindowInput::Focused(true), start + MILLIS),
        vec![TranslatedInput::Focused(true)]
    );
    assert!(translator
        .translate_window_event(keyboard("Code(Enter)", "Enter", KeyState::Pressed, true), start + 2 * MILLIS)
        .is_empty());
    assert!(translator
        .translate_window_event(keyboard("Code(Enter)", "Enter", KeyState::Released, false), start + 3 * MILLIS)
        .is_empty());
}

#[test]
fn recovery_shortcuts_and_focus_loss_reset_modifiers() {
    let mut translator = InputTranslator::new(0);
    let control_shift = KeyModifiers { shift: true, ctrl: true, ..KeyModifiers::default() };
    assert!(translator.translate_window_event(WindowInput::ModifiersChanged(control_shift), 0).is_empty());
    assert_eq!(
        translator.translate_window_event(keyboard("Code(KeyF)", "F", KeyState::Pressed, false), 0),
        vec![TranslatedInput::WindowAction(WindowAction::ToggleFullscreen)]
    );
    match &translator.translate_window_event(keyboard("Code(KeyF)", "F", KeyState::Released, false), 0)[..] {
        [TranslatedInput::Key(key)] => {
            assert_eq!(key.state, KeyState::Released);
            assert_eq!(key.physical_key.as_deref(), Some("Code(KeyF)"));
            assert_eq!(key.modifiers, control_shift);
        }
        other => panic!("expected a key release, got {other:?}"),
    }
    translator.translate_window_event(WindowInput::Focused(false), 0);
    assert_eq!(translator.modifiers(), KeyModifiers::default());
    assert_eq!(
        translator.translate_window_event(WindowInput::Ime(ImeEvent::Commit { text: "\r".to_owned() }), 0),
        Vec::new()
    );
    assert_eq!(
        translator.translate_window_event(WindowInput::Ime(ImeEvent::Commit { text: "語".to_owned() }), 0),
        vec![TranslatedInput::Ime(ImeEvent::Commit { text: "語".to_owned() })]
    );
    assert_eq!(translator.translate_window_event(WindowInput::CloseRequested, 0), vec![TranslatedInput::CloseRequested]);
}

#[test]
fn disabled_power_monitor_does_not_schedule_provider_work() {
    let mut monitor = DesktopPowerMonitor::with_enabled(false, 0, Ok(()));

    assert!(!monitor.refresh_due(POWER_REFRESH_INTERVAL * 2));
    assert_eq!(monitor.next_refresh_after(0), None);
    assert_eq!(monitor.power_state().state.source, PowerSource::Unknown);
    assert_eq!(monitor.power_state().state.battery_count, 0);
}

#[test]
fn power_monitor_reads_every_interval_and_reports_changes() {
    let mut monitor = DesktopPowerMonitor::with_enabled(true, 0, Ok(()));
    assert_eq!(monitor.next_refresh_after(0), Some(0));
    assert!(monitor.refresh_due(0));
    assert!(!monitor.refresh_due(1));
    assert_eq!(monitor.next_refresh_after(1), Some(POWER_REFRESH_INTERVAL - 1));
    let readings = vec![BatteryReading::Present { discharging: true, charge_percent: 50 }];
    assert!(monitor.record_reading(Some(Ok(readings.clone()))));
    assert!(!monitor.record_reading(Some(Ok(readings))));
    assert_eq!(monitor.power_state().state.source, PowerSource::Battery);
    assert!(monitor.record_reading(Some(Err("busy".to_owned()))));
    assert_eq!(monitor.power_state().message.as_deref(), Some("failed to enumerate batteries: busy"));
    assert!(!monitor.record_reading(None));

    let missing = DesktopPowerMonitor::with_enabled(true, 0, Err("no backend"));
    assert!(!missing.provider_available());
    assert_eq!(missing.power_state().message.as_deref(), Some("power-state provider unavailable: no backend"));
}
