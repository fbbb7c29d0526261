//! Platform capability and event contracts.

use vstd::prelude::*;
use crate::text::{all_whitespace, chars_of, contains_control, has_control, is_blank, is_control, range_eq};
use vstd::string::StrSliceExecFns;

verus! {

#[derive(Debug, Clone, Copy, PartialEq, Eq, Structural)]
pub enum DesktopPlatform {
    MacOs,
    LinuxX11,
    LinuxWayland,
    Windows,
    Unknown,
}

/// The operating system a build targets; the application names it once.
#[derive(Debug, Clone, Copy, PartialEq, Eq, Structural)]
pub enum HostOs {
    Windows,
    MacOs,
    Linux,
    Other,
}

#[derive(Debug, Clone, Copy, PartialEq, Eq, Structural)]
pub enum WindowMode {
    Windowed,
    Maximized,
    Fullscreen,
    BorderlessFullscreen,
    FramelessWindowed,
    FramelessFullscreen,
}

#[derive(Debug, Clone, Copy, PartialEq, Eq, Structural)]
pub enum DecorationMode {
    Auto,
    Native,
    ServerSide,
    ClientSide,
    Custom,
    /// No window decorations at all.
    Undecorated,
    FallbackDecorated,
}

#[derive(Debug, Clone, Copy, PartialEq, Eq, Structural)]
pub enum LinuxWindowBackend {
    Auto,
    X11,
    Wayland,
}

#[derive(Debug, Clone, Copy, PartialEq, Eq, Structural)]
pub enum WindowAction {
    ToggleFullscreen,
    RestoreWindowDecorations,
    ToggleFrameless,
    CloseWindow,
    OpenCommandPaletteLater,
}

#[derive(Debug, Clone, Copy, PartialEq, Eq, Structural)]
pub enum WindowChromeAction {
    BeginDrag,
    Minimize,
    LeaveFullscreen,
    Close,
}

/// The stable name of a window-chrome action.
pub open spec fn chrome_action_name(action: WindowChromeAction) -> Seq<char> {
    match action {
        WindowChromeAction::BeginDrag => "begin_drag"@,
        WindowChromeAction::Minimize => "minimize"@,
        WindowChromeAction::LeaveFullscreen => "leave_fullscreen"@,
        WindowChromeAction::Close => "close"@,
    }
}

impl WindowChromeAction {
    pub fn as_str(self) -> (r: &'static str)
        ensures
            r@ == chrome_action_name(self),
    {
        match self {
            WindowChromeAction::BeginDrag => "begin_drag",
            WindowChromeAction::Minimize => "minimize",
            WindowChromeAction::LeaveFullscreen => "leave_fullscreen",
            WindowChromeAction::Close => "close",
        }
    }
}

#[derive(Debug, Clone, Copy, PartialEq, Eq, Structural)]
pub enum ClipboardCapability {
    System,
    PrimarySelection,
    Osc52,
}

pub type ClipboardMode = ClipboardCapability;

#[derive(Debug, Clone, Copy, PartialEq, Eq, Structural)]
pub enum GpuBackend {
    Vulkan,
    Metal,
    Dx12,
    Gl,
    SoftwareFallback,
}

#[derive(Debug, Clone, Copy, PartialEq, Eq, Structural)]
pub enum PowerSource {
    Ac,
    Battery,
    Unknown,
}

#[derive(Debug, Clone, Copy, PartialEq, Eq, Structural)]
pub struct PowerState {
    pub source: PowerSource,
    pub battery_count: usize,
    pub charge_percent: Option<u8>,
}

impl PowerState {
    /// The state reported before any provider has been read.
    pub fn unknown() -> (r: PowerState)
        ensures
            r.source == PowerSource::Unknown,
            r.battery_count == 0,
            r.charge_percent is None,
    {
        PowerState { source: PowerSource::Unknown, battery_count: 0, charge_percent: None }
    }

    pub fn is_on_battery(self) -> (r: bool)
        ensures
            r == (self.source == PowerSource::Battery),
    {
        match self.source {
            PowerSource::Battery => true,
            _ => false,
        }
    }
}

#[derive(Debug, Clone, PartialEq, Eq)]
pub struct PowerStateDiagnostic {
    pub state: PowerState,
    pub message: Option<String>,
}

/// Power-state contract. Providers are sampled outside render, input, and PTY hot paths.
pub trait PowerStateProvider {
    fn power_state(&mut self) -> PowerStateDiagnostic;
}

#[derive(Debug, Clone, Copy, PartialEq, Eq, Structural)]
pub enum NotificationBackend {
    WindowsToast,
    MacOsNotificationCenter,
    Freedesktop,
    Unsupported,
}

#[derive(Debug, Clone, Copy, PartialEq, Eq, Structural)]
pub enum NotificationAvailability {
    Available,
    Disabled,
    Unavailable,
}

#[derive(Debug, Clone, Copy, PartialEq, Eq, Structural, Default)]
pub enum NotificationUrgency {
    Low,
    #[default]
    Normal,
    Critical,
}

#[derive(Debug, Clone, PartialEq, Eq)]
pub struct NotificationRequest {
    pub title: String,
    pub body: String,
    pub urgency: NotificationUrgency,
}

/// Why a notification request is refused, in the order the checks run.
#[derive(Debug, Clone, Copy, PartialEq, Eq, Structural)]
pub enum NotificationRejection {
    EmptyTitle,
    ControlInTitle,
    ControlInBody,
    TitleTooLong,
    BodyTooLong,
}

/// The message reported for a refused notification.
pub open spec fn rejection_message(reason: NotificationRejection) -> Seq<char> {
    match reason {
        NotificationRejection::EmptyTitle => "notification title cannot be empty"@,
        NotificationRejection::ControlInTitle => "notification title cannot contain control characters"@,
        NotificationRejection::ControlInBody => "notification body contains an unsupported control character"@,
        NotificationRejection::TitleTooLong => "notification title exceeds the configured safety bound"@,
        NotificationRejection::BodyTooLong => "notification body exceeds the configured safety bound"@,
    }
}

/// A body character that notifications refuse: a control code other than newline and tab.
pub open spec fn is_forbidden_body_char(c: char) -> bool {
    crate::text::is_control_spec(c) && c != '\n' && c != '\t'
}

pub open spec fn has_forbidden_body_char(body: Seq<char>) -> bool {
    exists|i: int| 0 <= i < body.len() && is_forbidden_body_char(#[trigger] body[i])
}

/// The first check a notification fails, if any.
pub open spec fn notification_rejection(title: Seq<char>, body: Seq<char>) -> Option<NotificationRejection> {
    if all_whitespace(title) {
        Some(NotificationRejection::EmptyTitle)
    } else if has_control(title) {
        Some(NotificationRejection::ControlInTitle)
    } else if has_forbidden_body_char(body) {
        Some(NotificationRejection::ControlInBody)
    } else if title.len() > 256 {
        Some(NotificationRejection::TitleTooLong)
    } else if body.len() > 4096 {
        Some(NotificationRejection::BodyTooLong)
    } else {
        None
    }
}

fn body_has_forbidden_char(body: &str) -> (r: bool)
    ensures
        r == has_forbidden_body_char(body@),
{
    let v = chars_of(body);
    let mut i: usize = 0;
    while i < v.len()
        invariant
            v@ == body@,
            i <= v.len(),
            forall|j: int| 0 <= j < i ==> !is_forbidden_body_char(#[trigger] v@[j]),
        decreases v.len() - i,
    {
        let c = v[i];
        if is_control(c) && c != '\n' && c != '\t' {
            return true;
        }
        i = i + 1;
    }
    false
}

impl NotificationRequest {
    pub const MAX_TITLE_CHARS: usize = 256;
    pub const MAX_BODY_CHARS: usize = 4096;

    pub fn new(title: &str, body: &str) -> (r: NotificationRequest)
        ensures
            r.title@ == title@,
            r.body@ == body@,
            r.urgency == NotificationUrgency::Normal,
    {
        NotificationRequest {
            title: title.to_owned(),
            body: body.to_owned(),
            urgency: NotificationUrgency::Normal,
        }
    }

    pub fn with_urgency(self, urgency: NotificationUrgency) -> (r: NotificationRequest)
        ensures
            r.title == self.title,
            r.body == self.body,
            r.urgency == urgency,
    {
        let mut request = self;
        request.urgency = urgency;
        request
    }

    /// Accepts a request only when its title is non-blank and free of control
    /// characters, its body holds no control character but newline and tab, and
    /// both fit their character bounds.
    pub fn validate(&self) -> (r: Result<(), &'static str>)
        ensures
            match notification_rejection(self.title@, self.body@) {
                None => r is Ok,
                Some(reason) => r matches Err(message) && message@ == rejection_message(reason),
            },
    {
        if is_blank(self.title.as_str()) {
            return Err("notification title cannot be empty");
        }
        if contains_control(self.title.as_str()) {
            return Err("notification title cannot contain control characters");
        }
        if body_has_forbidden_char(self.body.as_str()) {
            return Err("notification body contains an unsupported control character");
        }
        if self.title.as_str().unicode_len() > 256 {
            return Err("notification title exceeds the configured safety bound");
        }
        if self.body.as_str().unicode_len() > 4096 {
            return Err("notification body exceeds the configured safety bound");
        }
        Ok(())
    }
}

#[derive(Debug, Clone, PartialEq, Eq)]
pub struct NotificationDiagnostic {
    pub backend: NotificationBackend,
    pub availability: NotificationAvailability,
    pub message: String,
}

/// Enqueues native notifications without exposing OS APIs to application code.
/// Implementations must not block the render, input, or terminal-I/O paths.
pub trait NotificationProvider {
    fn notify(&mut self, request: NotificationRequest) -> Result<(), NotificationDiagnostic>;

    fn diagnostic(&self) -> NotificationDiagnostic;
}

#[derive(Debug, Clone, Copy, PartialEq, Eq, Structural)]
pub enum ImeSupport {
    Unsupported,
    Basic,
    Full,
}

#[derive(Debug, Clone, Copy, PartialEq, Eq, Structural)]
pub enum DpiBehavior {
    IntegerScale,
    FractionalScale,
    PerMonitor,
    Unknown,
}

#[derive(Debug, Clone, Copy, PartialEq, Eq, Structural)]
pub enum KeyState {
    Pressed,
    Released,
}

#[derive(Debug, Clone, Copy, PartialEq, Eq, Structural, Default)]
pub struct KeyModifiers {
    pub shift: bool,
    pub ctrl: bool,
    pub alt: bool,
    pub super_key: bool,
    pub alt_graph: bool,
}

#[derive(Debug, Clone, PartialEq, Eq)]
pub struct KeyEvent {
    pub physical_key: Option<String>,
    pub logical_key: String,
    pub logical_key_without_modifiers: String,
    pub text: Option<String>,
    pub state: KeyState,
    pub modifiers: KeyModifiers,
    pub repeat: bool,
}

#[derive(Debug, Clone, Copy, PartialEq, Eq, Structural)]
pub enum MouseButton {
    Left,
    Middle,
    Right,
    Back,
    Forward,
    Other(u16),
}

#[derive(Debug, Clone, PartialEq, Eq)]
pub enum ImeEvent {
    Enabled,
    Disabled,
    Preedit { text: String, cursor: Option<(usize, usize)> },
    Commit { text: String },
}

#[derive(Debug, Clone, PartialEq, Eq)]
pub struct CompositorInfo {
    pub name: Option<String>,
    pub version: Option<String>,
    pub protocol: DesktopPlatform,
    pub notes: Vec<String>,
}

#[derive(Debug, Clone, PartialEq, Eq)]
pub struct ShellEnvironmentInfo {
    pub shell: Option<String>,
    pub term: Option<String>,
    pub color_term: Option<String>,
    pub current_working_directory: Option<String>,
}

#[derive(Debug, Clone, PartialEq, Eq)]
pub struct PlatformFallback {
    pub feature: String,
    pub requested: String,
    pub effective: String,
    pub reason: String,
}

#[derive(Debug, Clone, Copy, PartialEq, Eq, Structural)]
pub enum ClipboardOperation {
    Copy,
    Paste,
    Osc52Write,
}

#[derive(Debug, Clone, Copy, PartialEq, Eq, Structural)]
pub enum ClipboardAvailability {
    Available,
    Unavailable,
    Unknown,
}

#[derive(Debug, Clone, PartialEq, Eq)]
pub struct ClipboardDiagnostic {
    pub operation: ClipboardOperation,
    pub availability: ClipboardAvailability,
    pub message: Option<String>,
}

#[derive(Debug, Clone, PartialEq, Eq)]
pub struct WindowModeDiagnostic {
    pub requested: WindowMode,
    pub effective: WindowMode,
    pub fallback: Option<PlatformFallback>,
}

#[derive(Debug, Clone, PartialEq, Eq)]
pub struct WindowChromeActionDiagnostic {
    pub action: WindowChromeAction,
    pub applied: bool,
    pub fallback: Option<PlatformFallback>,
}

/// Executes window-chrome intent without exposing a concrete window backend.
pub trait WindowChromeActionExecutor {
    /// The executor, in this state, answers `action` by applying it (no
    /// fallback) or with `fallback`.
    spec fn replies(&self, action: WindowChromeAction, fallback: Option<PlatformFallback>) -> bool;

    fn try_apply_window_chrome_action(&mut self, action: WindowChromeAction) -> (r: Result<(), PlatformFallback>)
        ensures
            old(self).replies(
                action,
                match r {
                    Ok(_) => None,
                    Err(f) => Some(f),
                },
            ),
    ;
}

/// Runs an action through an executor and reports it: the action is either
/// applied or carries the executor's explicit fallback, never both, never neither.
pub fn execute_window_chrome_action<E: WindowChromeActionExecutor>(
    executor: &mut E,
    action: WindowChromeAction,
) -> (r: WindowChromeActionDiagnostic)
    ensures
        r.action == action,
        r.applied == r.fallback.is_none(),
        old(executor).replies(action, r.fallback),
{
    match executor.try_apply_window_chrome_action(action) {
        Ok(()) => WindowChromeActionDiagnostic { action, applied: true, fallback: None },
        Err(fallback) => WindowChromeActionDiagnostic {
            action,
            applied: false,
            fallback: Some(fallback),
        },
    }
}

#[derive(Debug, Clone, PartialEq, Eq)]
pub struct DecorationModeDiagnostic {
    pub requested: DecorationMode,
    pub effective: DecorationMode,
    pub fallback: Option<PlatformFallback>,
}

#[derive(Debug, Clone, PartialEq, Eq)]
pub struct LinuxWindowBackendDiagnostic {
    pub requested_backend: LinuxWindowBackend,
    pub backend_used: DesktopPlatform,
    pub compositor: Option<CompositorInfo>,
    pub decoration_requested: DecorationMode,
    pub decoration_used: DecorationMode,
    pub fallback: Option<PlatformFallback>,
}

#[derive(Debug, Clone, PartialEq, Eq)]
pub struct PlatformError {
    pub feature: String,
    pub message: String,
}

impl PlatformError {
    pub fn new(feature: &str, message: &str) -> (r: PlatformError)
        ensures
            r.feature@ == feature@,
            r.message@ == message@,
    {
        PlatformError { feature: feature.to_owned(), message: message.to_owned() }
    }
}

/// The message of a provider that has no primary selection.
pub open spec fn primary_selection_unsupported() -> Seq<char> {
    "primary selection is unsupported by this platform provider"@
}

/// Clipboard contract exposed to app code without leaking a concrete OS backend.
pub trait ClipboardProvider {
    fn copy_text(&mut self, text: &str) -> Result<(), ClipboardDiagnostic>;

    fn paste_text(&mut self) -> Result<String, ClipboardDiagnostic>;

    fn last_diagnostic(&self) -> ClipboardDiagnostic;

    fn copy_primary_text(&mut self, text: &str) -> (r: Result<(), ClipboardDiagnostic>)
        default_ensures
            r is Err,
            r->Err_0.operation == ClipboardOperation::Copy,
            r->Err_0.availability == ClipboardAvailability::Unavailable,
            r->Err_0.message is Some,
            r->Err_0.message->Some_0@ == primary_selection_unsupported(),
    {
        Err(
            ClipboardDiagnostic {
                operation: ClipboardOperation::Copy,
                availability: ClipboardAvailability::Unavailable,
                message: Some("primary selection is unsupported by this platform provider".to_owned()),
            },
        )
    }

    fn paste_primary_text(&mut self) -> (r: Result<String, ClipboardDiagnostic>)
        default_ensures
            r is Err,
            r->Err_0.operation == ClipboardOperation::Paste,
            r->Err_0.availability == ClipboardAvailability::Unavailable,
            r->Err_0.message is Some,
            r->Err_0.message->Some_0@ == primary_selection_unsupported(),
    {
        Err(
            ClipboardDiagnostic {
                operation: ClipboardOperation::Paste,
                availability: ClipboardAvailability::Unavailable,
                message: Some("primary selection is unsupported by this platform provider".to_owned()),
            },
        )
    }
}

#[derive(Debug, Clone, PartialEq, Eq)]
pub struct UrlOpenDiagnostic {
    pub url: String,
    pub message: Option<String>,
}

/// Opens validated URLs without exposing OS-specific launch mechanics to the app runtime.
pub trait UrlOpener {
    fn open_url(&mut self, url: &str) -> Result<(), UrlOpenDiagnostic>;
}

/// A Windows virtual key with the scan code and enhanced-key flag that go with it.
#[derive(Debug, Clone, Copy, PartialEq, Eq, Structural)]
pub struct Win32VirtualKey {
    pub virtual_key: u16,
    pub scan_code: u16,
    /// True for keys the keyboard reports with an `0xE0` prefix.
    pub enhanced: bool,
}

/// The characters of `Code(`.
pub open spec fn code_prefix() -> Seq<char> {
    seq!['C', 'o', 'd', 'e', '(']
}

/// A key name with its `Code(..)` debug wrapper removed, if it has one.
pub open spec fn strip_code_wrapper(name: Seq<char>) -> Seq<char> {
    if name.len() >= 6 && name.subrange(0, 5) == code_prefix() && name[name.len() - 1] == ')' {
        name.subrange(5, name.len() - 1)
    } else {
        name
    }
}

/// The Windows virtual key, set-1 scan code and enhanced flag of a bare key name.
pub open spec fn win32_key_table(name: Seq<char>) -> Option<(u16, u16, bool)> {
    if name == "KeyA"@ {
        Some((0x41u16, 0x1eu16, false))
    } else if name == "KeyB"@ {
        Some((0x42u16, 0x30u16, false))
    } else if name == "KeyC"@ {
        Some((0x43u16, 0x2eu16, false))
    } else if name == "KeyD"@ {
        Some((0x44u16, 0x20u16, false))
    } else if name == "KeyE"@ {
        Some((0x45u16, 0x12u16, false))
    } else if name == "KeyF"@ {
        Some((0x46u16, 0x21u16, false))
    } else if name == "KeyG"@ {
        Some((0x47u16, 0x22u16, false))
    } else if name == "KeyH"@ {
        Some((0x48u16, 0x23u16, false))
    } else if name == "KeyI"@ {
        Some((0x49u16, 0x17u16, false))
    } else if name == "KeyJ"@ {
        Some((0x4au16, 0x24u16, false))
    } else if name == "KeyK"@ {
        Some((0x4bu16, 0x25u16, false))
    } else if name == "KeyL"@ {
        Some((0x4cu16, 0x26u16, false))
    } else if name == "KeyM"@ {
        Some((0x4du16, 0x32u16, false))
    } else if name == "KeyN"@ {
        Some((0x4eu16, 0x31u16, false))
    } else if name == "KeyO"@ {
        Some((0x4fu16, 0x18u16, false))
    } else if name == "KeyP"@ {
        Some((0x50u16, 0x19u16, false))
    } else if name == "KeyQ"@ {
        Some((0x51u16, 0x10u16, false))
    } else if name == "KeyR"@ {
        Some((0x52u16, 0x13u16, false))
    } else if name == "KeyS"@ {
        Some((0x53u16, 0x1fu16, false))
    } else if name == "KeyT"@ {
        Some((0x54u16, 0x14u16, false))
    } else if name == "KeyU"@ {
        Some((0x55u16, 0x16u16, false))
    } else if name == "KeyV"@ {
        Some((0x56u16, 0x2fu16, false))
    } else if name == "KeyW"@ {
        Some((0x57u16, 0x11u16, false))
    } else if name == "KeyX"@ {
        Some((0x58u16, 0x2du16, false))
    } else if name == "KeyY"@ {
        Some((0x59u16, 0x15u16, false))
    } else if name == "KeyZ"@ {
        Some((0x5au16, 0x2cu16, false))
    } else if name == "Digit1"@ {
        Some((0x31u16, 0x02u16, false))
    } else if name == "Digit2"@ {
        Some((0x32u16, 0x03u16, false))
    } else if name == "Digit3"@ {
        Some((0x33u16, 0x04u16, false))
    } else if name == "Digit4"@ {
        Some((0x34u16, 0x05u16, false))
    } else if name == "Digit5"@ {
        Some((0x35u16, 0x06u16, false))
    } else if name == "Digit6"@ {
        Some((0x36u16, 0x07u16, false))
    } else if name == "Digit7"@ {
        Some((0x37u16, 0x08u16, false))
    } else if name == "Digit8"@ {
        Some((0x38u16, 0x09u16, false))
    } else if name == "Digit9"@ {
        Some((0x39u16, 0x0au16, false))
    } else if name == "Digit0"@ {
        Some((0x30u16, 0x0bu16, false))
    } else if name == "Minus"@ {
        Some((0xbdu16, 0x0cu16, false))
    } else if name == "Equal"@ {
        Some((0xbbu16, 0x0du16, false))
    } else if name == "BracketLeft"@ {
        Some((0xdbu16, 0x1au16, false))
    } else if name == "BracketRight"@ {
        Some((0xddu16, 0x1bu16, false))
    } else if name == "Backslash"@ {
        Some((0xdcu16, 0x2bu16, false))
    } else if name == "Semicolon"@ {
        Some((0xbau16, 0x27u16, false))
    } else if name == "Quote"@ {
        Some((0xdeu16, 0x28u16, false))
    } else if name == "Backquote"@ {
        Some((0xc0u16, 0x29u16, false))
    } else if name == "Comma"@ {
        Some((0xbcu16, 0x33u16, false))
    } else if name == "Period"@ {
        Some((0xbeu16, 0x34u16, false))
    } else if name == "Slash"@ {
        Some((0xbfu16, 0x35u16, false))
    } else if name == "IntlBackslash"@ {
        Some((0xe2u16, 0x56u16, false))
    } else if name == "Enter"@ {
        Some((0x0du16, 0x1cu16, false))
    } else if name == "Tab"@ {
        Some((0x09u16, 0x0fu16, false))
    } else if name == "Space"@ {
        Some((0x20u16, 0x39u16, false))
    } else if name == "Backspace"@ {
        Some((0x08u16, 0x0eu16, false))
    } else if name == "Escape"@ {
        Some((0x1bu16, 0x01u16, false))
    } else if name == "Insert"@ {
        Some((0x2du16, 0x52u16, true))
    } else if name == "Delete"@ {
        Some((0x2eu16, 0x53u16, true))
    } else if name == "Home"@ {
        Some((0x24u16, 0x47u16, true))
    } else if name == "End"@ {
        Some((0x23u16, 0x4fu16, true))
    } else if name == "PageUp"@ {
        Some((0x21u16, 0x49u16, true))
    } else if name == "PageDown"@ {
        Some((0x22u16, 0x51u16, true))
    } else if name == "ArrowUp"@ {
        Some((0x26u16, 0x48u16, true))
    } else if name == "ArrowDown"@ {
        Some((0x28u16, 0x50u16, true))
    } else if name == "ArrowLeft"@ {
        Some((0x25u16, 0x4bu16, true))
    } else if name == "ArrowRight"@ {
        Some((0x27u16, 0x4du16, true))
    } else if name == "ShiftLeft"@ {
        Some((0x10u16, 0x2au16, false))
    } else if name == "ShiftRight"@ {
        Some((0x10u16, 0x36u16, false))
    } else if name == "ControlLeft"@ {
        Some((0x11u16, 0x1du16, false))
    } else if name == "ControlRight"@ {
        Some((0x11u16, 0x1du16, true))
    } else if name == "AltLeft"@ {
        Some((0x12u16, 0x38u16, false))
    } else if name == "AltRight"@ {
        Some((0x12u16, 0x38u16, true))
    } else if name == "SuperLeft"@ {
        Some((0x5bu16, 0x5bu16, true))
    } else if name == "SuperRight"@ {
        Some((0x5cu16, 0x5cu16, true))
    } else if name == "CapsLock"@ {
        Some((0x14u16, 0x3au16, false))
    } else if name == "NumLock"@ {
        Some((0x90u16, 0x45u16, true))
    } else if name == "ScrollLock"@ {
        Some((0x91u16, 0x46u16, false))
    } else if name == "ContextMenu"@ {
        Some((0x5du16, 0x5du16, true))
    } else if name == "PrintScreen"@ {
        Some((0x2cu16, 0x37u16, true))
    } else if name == "Pause"@ {
        Some((0x13u16, 0x45u16, false))
    } else if name == "F1"@ {
        Some((0x70u16, 0x3bu16, false))
    } else if name == "F2"@ {
        Some((0x71u16, 0x3cu16, false))
    } else if name == "F3"@ {
        Some((0x72u16, 0x3du16, false))
    } else if name == "F4"@ {
        Some((0x73u16, 0x3eu16, false))
    } else if name == "F5"@ {
        Some((0x74u16, 0x3fu16, false))
    } else if name == "F6"@ {
        Some((0x75u16, 0x40u16, false))
    } else if name == "F7"@ {
        Some((0x76u16, 0x41u16, false))
    } else if name == "F8"@ {
        Some((0x77u16, 0x42u16, false))
    } else if name == "F9"@ {
        Some((0x78u16, 0x43u16, false))
    } else if name == "F10"@ {
        Some((0x79u16, 0x44u16, false))
    } else if name == "F11"@ {
        Some((0x7au16, 0x57u16, false))
    } else if name == "F12"@ {
        Some((0x7bu16, 0x58u16, false))
    } else if name == "F13"@ {
        Some((0x7cu16, 0x64u16, false))
    } else if name == "F14"@ {
        Some((0x7du16, 0x65u16, false))
    } else if name == "F15"@ {
        Some((0x7eu16, 0x66u16, false))
    } else if name == "F16"@ {
        Some((0x7fu16, 0x67u16, false))
    } else if name == "F17"@ {
        Some((0x80u16, 0x68u16, false))
    } else if name == "F18"@ {
        Some((0x81u16, 0x69u16, false))
    } else if name == "F19"@ {
        Some((0x82u16, 0x6au16, false))
    } else if name == "F20"@ {
        Some((0x83u16, 0x6bu16, false))
    } else if name == "F21"@ {
        Some((0x84u16, 0x6cu16, false))
    } else if name == "F22"@ {
        Some((0x85u16, 0x6du16, false))
    } else if name == "F23"@ {
        Some((0x86u16, 0x6eu16, false))
    } else if name == "F24"@ {
        Some((0x87u16, 0x76u16, false))
    } else if name == "Numpad0"@ {
        Some((0x60u16, 0x52u16, false))
    } else if name == "Numpad1"@ {
        Some((0x61u16, 0x4fu16, false))
    } else if name == "Numpad2"@ {
        Some((0x62u16, 0x50u16, false))
    } else if name == "Numpad3"@ {
        Some((0x63u16, 0x51u16, false))
    } else if name == "Numpad4"@ {
        Some((0x64u16, 0x4bu16, false))
    } else if name == "Numpad5"@ {
        Some((0x65u16, 0x4cu16, false))
    } else if name == "Numpad6"@ {
        Some((0x66u16, 0x4du16, false))
    } else if name == "Numpad7"@ {
        Some((0x67u16, 0x47u16, false))
    } else if name == "Numpad8"@ {
        Some((0x68u16, 0x48u16, false))
    } else if name == "Numpad9"@ {
        Some((0x69u16, 0x49u16, false))
    } else if name == "NumpadMultiply"@ {
        Some((0x6au16, 0x37u16, false))
    } else if name == "NumpadAdd"@ {
        Some((0x6bu16, 0x4eu16, false))
    } else if name == "NumpadSubtract"@ {
        Some((0x6du16, 0x4au16, false))
    } else if name == "NumpadDecimal"@ {
        Some((0x6eu16, 0x53u16, false))
    } else if name == "NumpadDivide"@ {
        Some((0x6fu16, 0x35u16, true))
    } else if name == "NumpadEnter"@ {
        Some((0x0du16, 0x1cu16, true))
    } else {
        None
    }
}

/// The Windows key of a physical key name, bare or in the `Code(..)` form.
pub open spec fn win32_virtual_key_spec(physical_key: Seq<char>) -> Option<Win32VirtualKey> {
    match win32_key_table(strip_code_wrapper(physical_key)) {
        Some((virtual_key, scan_code, enhanced)) => Some(
            Win32VirtualKey { virtual_key, scan_code, enhanced },
        ),
        None => None,
    }
}

/// Maps a physical key name to its Windows virtual key and PC set-1 scan code.
///
/// Names come from winit's `KeyCode`, either bare (`"KeyA"`) or in the debug
/// form the platform layer produces (`"Code(KeyA)"`). Returns `None` for keys
/// with no Windows equivalent, including `Unidentified`, where the caller falls
/// back to a character-only record.
pub fn win32_virtual_key(physical_key: &str) -> (r: Option<Win32VirtualKey>)
    ensures
        r == win32_virtual_key_spec(physical_key@),
{
    let chars = chars_of(physical_key);
    let len = chars.len();
    let wrapped = len >= 6 && chars[0] == 'C' && chars[1] == 'o' && chars[2] == 'd' && chars[3]
        == 'e' && chars[4] == '(' && chars[len - 1] == ')';
    proof {
        if len >= 6 {
            assert(chars@.subrange(0, 5) == code_prefix() <==> (chars@[0] == 'C' && chars@[1]
                == 'o' && chars@[2] == 'd' && chars@[3] == 'e' && chars@[4] == '(')) by {
                if chars@[0] == 'C' && chars@[1] == 'o' && chars@[2] == 'd' && chars@[3] == 'e'
                    && chars@[4] == '(' {
                    assert(chars@.subrange(0, 5) =~= code_prefix());
                }
                if chars@.subrange(0, 5) == code_prefix() {
                    assert(chars@.subrange(0, 5)[0] == 'C');
                    assert(chars@.subrange(0, 5)[1] == 'o');
                    assert(chars@.subrange(0, 5)[2] == 'd');
                    assert(chars@.subrange(0, 5)[3] == 'e');
                    assert(chars@.subrange(0, 5)[4] == '(');
                }
            }
        }
    }
    let (lo, hi) = if wrapped {
        (5, len - 1)
    } else {
        (0, len)
    };
    assert(chars@.subrange(lo as int, hi as int) == strip_code_wrapper(physical_key@)) by {
        if !wrapped {
            assert(chars@.subrange(0, len as int) =~= chars@);
        }
    }
    let (virtual_key, scan_code, enhanced): (u16, u16, bool) = if range_eq(&chars, lo, hi, "KeyA") {
        (0x41, 0x1e, false)
    } else if range_eq(&chars, lo, hi, "KeyB") {
        (0x42, 0x30, false)
    } else if range_eq(&chars, lo, hi, "KeyC") {
        (0x43, 0x2e, false)
    } else if range_eq(&chars, lo, hi, "KeyD") {
        (0x44, 0x20, false)
    } else if range_eq(&chars, lo, hi, "KeyE") {
        (0x45, 0x12, false)
    } else if range_eq(&chars, lo, hi, "KeyF") {
        (0x46, 0x21, false)
    } else if range_eq(&chars, lo, hi, "KeyG") {
        (0x47, 0x22, false)
    } else if range_eq(&chars, lo, hi, "KeyH") {
        (0x48, 0x23, false)
    } else if range_eq(&chars, lo, hi, "KeyI") {
        (0x49, 0x17, false)
    } else if range_eq(&chars, lo, hi, "KeyJ") {
        (0x4a, 0x24, false)
    } else if range_eq(&chars, lo, hi, "KeyK") {
        (0x4b, 0x25, false)
    } else if range_eq(&chars, lo, hi, "KeyL") {
        (0x4c, 0x26, false)
    } else if range_eq(&chars, lo, hi, "KeyM") {
        (0x4d, 0x32, false)
    } else if range_eq(&chars, lo, hi, "KeyN") {
        (0x4e, 0x31, false)
    } else if range_eq(&chars, lo, hi, "KeyO") {
        (0x4f, 0x18, false)
    } else if range_eq(&chars, lo, hi, "KeyP") {
        (0x50, 0x19, false)
    } else if range_eq(&chars, lo, hi, "KeyQ") {
        (0x51, 0x10, false)
    } else if range_eq(&chars, lo, hi, "KeyR") {
        (0x52, 0x13, false)
    } else if range_eq(&chars, lo, hi, "KeyS") {
        (0x53, 0x1f, false)
    } else if range_eq(&chars, lo, hi, "KeyT") {
        (0x54, 0x14, false)
    } else if range_eq(&chars, lo, hi, "KeyU") {
        (0x55, 0x16, false)
    } else if range_eq(&chars, lo, hi, "KeyV") {
        (0x56, 0x2f, false)
    } else if range_eq(&chars, lo, hi, "KeyW") {
        (0x57, 0x11, false)
    } else if range_eq(&chars, lo, hi, "KeyX") {
        (0x58, 0x2d, false)
    } else if range_eq(&chars, lo, hi, "KeyY") {
        (0x59, 0x15, false)
    } else if range_eq(&chars, lo, hi, "KeyZ") {
        (0x5a, 0x2c, false)
    } else if range_eq(&chars, lo, hi, "Digit1") {
        (0x31, 0x02, false)
    } else if range_eq(&chars, lo, hi, "Digit2") {
        (0x32, 0x03, false)
    } else if range_eq(&chars, lo, hi, "Digit3") {
        (0x33, 0x04, false)
    } else if range_eq(&chars, lo, hi, "Digit4") {
        (0x34, 0x05, false)
    } else if range_eq(&chars, lo, hi, "Digit5") {
        (0x35, 0x06, false)
    } else if range_eq(&chars, lo, hi, "Digit6") {
        (0x36, 0x07, false)
    } else if range_eq(&chars, lo, hi, "Digit7") {
        (0x37, 0x08, false)
    } else if range_eq(&chars, lo, hi, "Digit8") {
        (0x38, 0x09, false)
    } else if range_eq(&chars, lo, hi, "Digit9") {
        (0x39, 0x0a, false)
    } else if range_eq(&chars, lo, hi, "Digit0") {
        (0x30, 0x0b, false)
    } else if range_eq(&chars, lo, hi, "Minus") {
        (0xbd, 0x0c, false)
    } else if range_eq(&chars, lo, hi, "Equal") {
        (0xbb, 0x0d, false)
    } else if range_eq(&chars, lo, hi, "BracketLeft") {
        (0xdb, 0x1a, false)
    } else if range_eq(&chars, lo, hi, "BracketRight") {
        (0xdd, 0x1b, false)
    } else if range_eq(&chars, lo, hi, "Backslash") {
        (0xdc, 0x2b, false)
    } else if range_eq(&chars, lo, hi, "Semicolon") {
        (0xba, 0x27, false)
    } else if range_eq(&chars, lo, hi, "Quote") {
        (0xde, 0x28, false)
    } else if range_eq(&chars, lo, hi, "Backquote") {
        (0xc0, 0x29, false)
    } else if range_eq(&chars, lo, hi, "Comma") {
        (0xbc, 0x33, false)
    } else if range_eq(&chars, lo, hi, "Period") {
        (0xbe, 0x34, false)
    } else if range_eq(&chars, lo, hi, "Slash") {
        (0xbf, 0x35, false)
    } else if range_eq(&chars, lo, hi, "IntlBackslash") {
        (0xe2, 0x56, false)
    } else if range_eq(&chars, lo, hi, "Enter") {
        (0x0d, 0x1c, false)
    } else if range_eq(&chars, lo, hi, "Tab") {
        (0x09, 0x0f, false)
    } else if range_eq(&chars, lo, hi, "Space") {
        (0x20, 0x39, false)
    } else if range_eq(&chars, lo, hi, "Backspace") {
        (0x08, 0x0e, false)
    } else if range_eq(&chars, lo, hi, "Escape") {
        (0x1b, 0x01, false)
    } else if range_eq(&chars, lo, hi, "Insert") {
        (0x2d, 0x52, true)
    } else if range_eq(&chars, lo, hi, "Delete") {
        (0x2e, 0x53, true)
    } else if range_eq(&chars, lo, hi, "Home") {
        (0x24, 0x47, true)
    } else if range_eq(&chars, lo, hi, "End") {
        (0x23, 0x4f, true)
    } else if range_eq(&chars, lo, hi, "PageUp") {
        (0x21, 0x49, true)
    } else if range_eq(&chars, lo, hi, "PageDown") {
        (0x22, 0x51, true)
    } else if range_eq(&chars, lo, hi, "ArrowUp") {
        (0x26, 0x48, true)
    } else if range_eq(&chars, lo, hi, "ArrowDown") {
        (0x28, 0x50, true)
    } else if range_eq(&chars, lo, hi, "ArrowLeft") {
        (0x25, 0x4b, true)
    } else if range_eq(&chars, lo, hi, "ArrowRight") {
        (0x27, 0x4d, true)
    } else if range_eq(&chars, lo, hi, "ShiftLeft") {
        (0x10, 0x2a, false)
    } else if range_eq(&chars, lo, hi, "ShiftRight") {
        (0x10, 0x36, false)
    } else if range_eq(&chars, lo, hi, "ControlLeft") {
        (0x11, 0x1d, false)
    } else if range_eq(&chars, lo, hi, "ControlRight") {
        (0x11, 0x1d, true)
    } else if range_eq(&chars, lo, hi, "AltLeft") {
        (0x12, 0x38, false)
    } else if range_eq(&chars, lo, hi, "AltRight") {
        (0x12, 0x38, true)
    } else if range_eq(&chars, lo, hi, "SuperLeft") {
        (0x5b, 0x5b, true)
    } else if range_eq(&chars, lo, hi, "SuperRight") {
        (0x5c, 0x5c, true)
    } else if range_eq(&chars, lo, hi, "CapsLock") {
        (0x14, 0x3a, false)
    } else if range_eq(&chars, lo, hi, "NumLock") {
        (0x90, 0x45, true)
    } else if range_eq(&chars, lo, hi, "ScrollLock") {
        (0x91, 0x46, false)
    } else if range_eq(&chars, lo, hi, "ContextMenu") {
        (0x5d, 0x5d, true)
    } else if range_eq(&chars, lo, hi, "PrintScreen") {
        (0x2c, 0x37, true)
    } else if range_eq(&chars, lo, hi, "Pause") {
        (0x13, 0x45, false)
    } else if range_eq(&chars, lo, hi, "F1") {
        (0x70, 0x3b, false)
    } else if range_eq(&chars, lo, hi, "F2") {
        (0x71, 0x3c, false)
    } else if range_eq(&chars, lo, hi, "F3") {
        (0x72, 0x3d, false)
    } else if range_eq(&chars, lo, hi, "F4") {
        (0x73, 0x3e, false)
    } else if range_eq(&chars, lo, hi, "F5") {
        (0x74, 0x3f, false)
    } else if range_eq(&chars, lo, hi, "F6") {
        (0x75, 0x40, false)
    } else if range_eq(&chars, lo, hi, "F7") {
        (0x76, 0x41, false)
    } else if range_eq(&chars, lo, hi, "F8") {
        (0x77, 0x42, false)
    } else if range_eq(&chars, lo, hi, "F9") {
        (0x78, 0x43, false)
    } else if range_eq(&chars, lo, hi, "F10") {
        (0x79, 0x44, false)
    } else if range_eq(&chars, lo, hi, "F11") {
        (0x7a, 0x57, false)
    } else if range_eq(&chars, lo, hi, "F12") {
        (0x7b, 0x58, false)
    } else if range_eq(&chars, lo, hi, "F13") {
        (0x7c, 0x64, false)
    } else if range_eq(&chars, lo, hi, "F14") {
        (0x7d, 0x65, false)
    } else if range_eq(&chars, lo, hi, "F15") {
        (0x7e, 0x66, false)
    } else if range_eq(&chars, lo, hi, "F16") {
        (0x7f, 0x67, false)
    } else if range_eq(&chars, lo, hi, "F17") {
        (0x80, 0x68, false)
    } else if range_eq(&chars, lo, hi, "F18") {
        (0x81, 0x69, false)
    } else if range_eq(&chars, lo, hi, "F19") {
        (0x82, 0x6a, false)
    } else if range_eq(&chars, lo, hi, "F20") {
        (0x83, 0x6b, false)
    } else if range_eq(&chars, lo, hi, "F21") {
        (0x84, 0x6c, false)
    } else if range_eq(&chars, lo, hi, "F22") {
        (0x85, 0x6d, false)
    } else if range_eq(&chars, lo, hi, "F23") {
        (0x86, 0x6e, false)
    } else if range_eq(&chars, lo, hi, "F24") {
        (0x87, 0x76, false)
    } else if range_eq(&chars, lo, hi, "Numpad0") {
        (0x60, 0x52, false)
    } else if range_eq(&chars, lo, hi, "Numpad1") {
        (0x61, 0x4f, false)
    } else if range_eq(&chars, lo, hi, "Numpad2") {
        (0x62, 0x50, false)
    } else if range_eq(&chars, lo, hi, "Numpad3") {
        (0x63, 0x51, false)
    } else if range_eq(&chars, lo, hi, "Numpad4") {
        (0x64, 0x4b, false)
    } else if range_eq(&chars, lo, hi, "Numpad5") {
        (0x65, 0x4c, false)
    } else if range_eq(&chars, lo, hi, "Numpad6") {
        (0x66, 0x4d, false)
    } else if range_eq(&chars, lo, hi, "Numpad7") {
        (0x67, 0x47, false)
    } else if range_eq(&chars, lo, hi, "Numpad8") {
        (0x68, 0x48, false)
    } else if range_eq(&chars, lo, hi, "Numpad9") {
        (0x69, 0x49, false)
    } else if range_eq(&chars, lo, hi, "NumpadMultiply") {
        (0x6a, 0x37, false)
    } else if range_eq(&chars, lo, hi, "NumpadAdd") {
        (0x6b, 0x4e, false)
    } else if range_eq(&chars, lo, hi, "NumpadSubtract") {
        (0x6d, 0x4a, false)
    } else if range_eq(&chars, lo, hi, "NumpadDecimal") {
        (0x6e, 0x53, false)
    } else if range_eq(&chars, lo, hi, "NumpadDivide") {
        (0x6f, 0x35, true)
    } else if range_eq(&chars, lo, hi, "NumpadEnter") {
        (0x0d, 0x1c, true)
    } else {
        return None;
    };

    Some(Win32VirtualKey { virtual_key, scan_code, enhanced })
}

/// A bare key name and its `Code(..)` form map to the same Windows key, for
/// every name that does not itself end in a closing parenthesis.
pub proof fn lemma_code_form_matches_bare_name(name: Seq<char>)
    requires
        name.len() == 0 || name[name.len() - 1] != ')',
    ensures
        win32_virtual_key_spec(code_prefix() + name + seq![')']) == win32_virtual_key_spec(name),
{
    let wrapped = code_prefix() + name + seq![')'];
    assert(wrapped.subrange(0, 5) =~= code_prefix());
    assert(wrapped.subrange(5, wrapped.len() - 1) =~= name);
    assert(strip_code_wrapper(wrapped) == name);
    assert(strip_code_wrapper(name) == name);
}

} // verus!
