//! Desktop integration rules: window icons, decoration and window-mode policy,
//! window-chrome operations, notification dispatch, clipboard and URL checks,
//! recovery shortcuts, IME commits, and battery summaries.

use vstd::prelude::*;
use vstd::string::StringExecFns;
use crate::platform_core::{
    chrome_action_name, notification_rejection, rejection_message, ClipboardAvailability,
    ClipboardCapability, ClipboardDiagnostic, ClipboardOperation, DecorationMode, DesktopPlatform,
    HostOs, KeyEvent, NotificationAvailability, NotificationBackend, NotificationDiagnostic,
    NotificationRequest, PlatformFallback, PowerSource, PowerState, PowerStateDiagnostic,
    UrlOpenDiagnostic, WindowAction, WindowChromeAction, WindowMode, CompositorInfo, DpiBehavior,
    LinuxWindowBackend, LinuxWindowBackendDiagnostic,
};
use crate::text::{append_decimal, ascii_lower, chars_of, contains_control, decimal_text, has_control, str_eq};

verus! {

/// An RGBA window icon whose byte count matches its dimensions.
#[derive(Debug, Clone, PartialEq, Eq)]
pub struct WindowIcon {
    rgba: Vec<u8>,
    width: u32,
    height: u32,
}

impl WindowIcon {
    pub closed spec fn rgba_spec(&self) -> Seq<u8> {
        self.rgba@
    }

    pub closed spec fn width_spec(&self) -> u32 {
        self.width
    }

    pub closed spec fn height_spec(&self) -> u32 {
        self.height
    }

    /// Accepts exactly `width * height * 4` bytes for non-zero dimensions whose
    /// byte count fits in `u32`.
    pub fn from_rgba(rgba: Vec<u8>, width: u32, height: u32) -> (r: Result<WindowIcon, String>)
        ensures
            width * height * 4 > u32::MAX ==> (r matches Err(m) && m@ == "window icon dimensions overflow"@),
            width * height * 4 <= u32::MAX && (width == 0 || height == 0) ==> (r matches Err(m) && m@
                == "window icon dimensions must be non-zero"@),
            width * height * 4 <= u32::MAX && width != 0 && height != 0 && rgba@.len() != width * height * 4
                ==> (r matches Err(m) && m@ == "window icon contains "@ + decimal_text(rgba@.len())
                + " RGBA bytes; expected "@ + decimal_text((width * height * 4) as nat)),
            width * height * 4 <= u32::MAX && width != 0 && height != 0 && rgba@.len() == width * height * 4
                ==> (r matches Ok(icon) && icon.rgba_spec() == rgba@ && icon.width_spec() == width
                && icon.height_spec() == height),
    {
        let pixels = match width.checked_mul(height) {
            Some(p) => p,
            None => {
                proof {
                    assert(width * height * 4 > u32::MAX) by (nonlinear_arith)
                        requires
                            width * height > u32::MAX,
                    ;
                }
                return Err(String::from_str("window icon dimensions overflow"));
            },
        };
        let expected = match pixels.checked_mul(4) {
            Some(e) => e,
            None => return Err(String::from_str("window icon dimensions overflow")),
        };
        if width == 0 || height == 0 {
            return Err(String::from_str("window icon dimensions must be non-zero"));
        }
        if rgba.len() != expected as usize {
            let mut message = String::from_str("window icon contains ");
            append_decimal(&mut message, rgba.len() as u64);
            message.append(" RGBA bytes; expected ");
            append_decimal(&mut message, expected as u64);
            return Err(message);
        }
        Ok(WindowIcon { rgba, width, height })
    }

    pub fn rgba(&self) -> (r: &Vec<u8>)
        ensures
            r@ == self.rgba_spec(),
    {
        &self.rgba
    }

    pub fn width(&self) -> (r: u32)
        ensures
            r == self.width_spec(),
    {
        self.width
    }

    pub fn height(&self) -> (r: u32)
        ensures
            r == self.height_spec(),
    {
        self.height
    }
}

/// The native notification service of each operating system.
pub open spec fn notification_backend_spec(host: HostOs) -> NotificationBackend {
    match host {
        HostOs::Windows => NotificationBackend::WindowsToast,
        HostOs::MacOs => NotificationBackend::MacOsNotificationCenter,
        HostOs::Linux => NotificationBackend::Freedesktop,
        HostOs::Other => NotificationBackend::Unsupported,
    }
}

pub fn notification_backend(host: HostOs) -> (r: NotificationBackend)
    ensures
        r == notification_backend_spec(host),
{
    match host {
        HostOs::Windows => NotificationBackend::WindowsToast,
        HostOs::MacOs => NotificationBackend::MacOsNotificationCenter,
        HostOs::Linux => NotificationBackend::Freedesktop,
        HostOs::Other => NotificationBackend::Unsupported,
    }
}

/// The display name of a notification backend.
pub open spec fn backend_name(backend: NotificationBackend) -> Seq<char> {
    match backend {
        NotificationBackend::WindowsToast => "Windows toast"@,
        NotificationBackend::MacOsNotificationCenter => "macOS Notification Center"@,
        NotificationBackend::Freedesktop => "freedesktop D-Bus"@,
        NotificationBackend::Unsupported => "unsupported"@,
    }
}

pub fn notification_backend_name(backend: NotificationBackend) -> (r: &'static str)
    ensures
        r@ == backend_name(backend),
{
    match backend {
        NotificationBackend::WindowsToast => "Windows toast",
        NotificationBackend::MacOsNotificationCenter => "macOS Notification Center",
        NotificationBackend::Freedesktop => "freedesktop D-Bus",
        NotificationBackend::Unsupported => "unsupported",
    }
}

/// What the application does with an accepted notification.
#[derive(Debug, Clone, Copy, PartialEq, Eq, Structural)]
pub enum NotificationDispatch {
    /// Start the delivery worker, then queue the request.
    StartWorkerAndSend,
    /// Queue the request on the running worker.
    Send,
}

/// Native notifications: decides whether a request is accepted and keeps the
/// latest diagnostic; the application runs the delivery worker.
#[derive(Debug)]
pub struct DesktopNotificationProvider {
    enabled: bool,
    backend: NotificationBackend,
    worker_running: bool,
    diagnostic: NotificationDiagnostic,
}

/// The diagnostic of a provider that has not delivered anything yet.
pub open spec fn initial_notification_diagnostic(enabled: bool, backend: NotificationBackend) -> (NotificationAvailability, Seq<char>) {
    if !enabled {
        (NotificationAvailability::Disabled, "native notifications are disabled by config"@)
    } else if backend == NotificationBackend::Unsupported {
        (NotificationAvailability::Unavailable, "this platform build has no native notification backend"@)
    } else {
        (NotificationAvailability::Available, backend_name(backend) + " notification backend ready; delivery worker starts on first use"@)
    }
}

impl DesktopNotificationProvider {
    pub closed spec fn enabled_spec(&self) -> bool {
        self.enabled
    }

    pub closed spec fn backend_spec(&self) -> NotificationBackend {
        self.backend
    }

    pub closed spec fn worker_running_spec(&self) -> bool {
        self.worker_running
    }

    pub closed spec fn diagnostic_spec(&self) -> NotificationDiagnostic {
        self.diagnostic
    }

    /// A provider for a backend; no worker runs until the first notification.
    pub fn new(enabled: bool, backend: NotificationBackend) -> (r: DesktopNotificationProvider)
        ensures
            r.enabled_spec() == enabled,
            r.backend_spec() == backend,
            !r.worker_running_spec(),
            r.diagnostic_spec().backend == backend,
            r.diagnostic_spec().availability == initial_notification_diagnostic(enabled, backend).0,
            r.diagnostic_spec().message@ == initial_notification_diagnostic(enabled, backend).1,
    {
        let (availability, message) = if !enabled {
            (NotificationAvailability::Disabled, String::from_str("native notifications are disabled by config"))
        } else if backend == NotificationBackend::Unsupported {
            (NotificationAvailability::Unavailable, String::from_str("this platform build has no native notification backend"))
        } else {
            let mut message = String::from_str(notification_backend_name(backend));
            message.append(" notification backend ready; delivery worker starts on first use");
            (NotificationAvailability::Available, message)
        };
        DesktopNotificationProvider {
            enabled,
            backend,
            worker_running: false,
            diagnostic: NotificationDiagnostic { backend, availability, message },
        }
    }

    /// Changing the setting starts over with a fresh provider.
    pub fn set_enabled(&mut self, enabled: bool)
        ensures
            old(self).enabled_spec() == enabled ==> *final(self) == *old(self),
            old(self).enabled_spec() != enabled ==> {
                &&& final(self).enabled_spec() == enabled
                &&& final(self).backend_spec() == old(self).backend_spec()
                &&& !final(self).worker_running_spec()
                &&& final(self).diagnostic_spec().availability == initial_notification_diagnostic(enabled, old(self).backend_spec()).0
                &&& final(self).diagnostic_spec().message@ == initial_notification_diagnostic(enabled, old(self).backend_spec()).1
            },
    {
        if self.enabled == enabled {
            return;
        }
        *self = DesktopNotificationProvider::new(enabled, self.backend);
    }

    /// The latest diagnostic.
    pub fn diagnostic(&self) -> (r: NotificationDiagnostic)
        ensures
            r.backend == self.diagnostic_spec().backend,
            r.availability == self.diagnostic_spec().availability,
            r.message@ == self.diagnostic_spec().message@,
    {
        NotificationDiagnostic {
            backend: self.diagnostic.backend,
            availability: self.diagnostic.availability,
            message: self.diagnostic.message.clone(),
        }
    }

    /// Whether the delivery worker runs.
    pub fn worker_running(&self) -> (r: bool)
        ensures
            r == self.worker_running_spec(),
    {
        self.worker_running
    }

    /// Decides what happens to a request: an invalid one is refused with its
    /// validation message; a disabled or unsupported provider refuses with its
    /// diagnostic; otherwise the request is queued, starting the worker first if
    /// none runs.
    pub fn notify(&mut self, request: &NotificationRequest) -> (r: Result<NotificationDispatch, NotificationDiagnostic>)
        ensures
            final(self).enabled_spec() == old(self).enabled_spec(),
            final(self).backend_spec() == old(self).backend_spec(),
            final(self).diagnostic_spec() == old(self).diagnostic_spec(),
            match notification_rejection(request.title@, request.body@) {
                Some(reason) => r matches Err(d) && d.backend == old(self).backend_spec() && d.availability
                    == NotificationAvailability::Unavailable && d.message@ == rejection_message(reason)
                    && final(self).worker_running_spec() == old(self).worker_running_spec(),
                None => if old(self).worker_running_spec() {
                    r == Ok::<NotificationDispatch, NotificationDiagnostic>(NotificationDispatch::Send)
                        && final(self).worker_running_spec()
                } else if !old(self).enabled_spec() || old(self).backend_spec() == NotificationBackend::Unsupported {
                    r matches Err(d) && d.backend == old(self).diagnostic_spec().backend
                        && d.availability == old(self).diagnostic_spec().availability
                        && d.message@ == old(self).diagnostic_spec().message@
                        && !final(self).worker_running_spec()
                } else {
                    r == Ok::<NotificationDispatch, NotificationDiagnostic>(NotificationDispatch::StartWorkerAndSend)
                        && final(self).worker_running_spec()
                },
            },
    {
        match request.validate() {
            Err(message) => {
                return Err(NotificationDiagnostic {
                    backend: self.backend,
                    availability: NotificationAvailability::Unavailable,
                    message: message.to_owned(),
                });
            },
            Ok(()) => {},
        }
        if self.worker_running {
            return Ok(NotificationDispatch::Send);
        }
        if !self.enabled || self.backend == NotificationBackend::Unsupported {
            return Err(self.diagnostic());
        }
        self.worker_running = true;
        Ok(NotificationDispatch::StartWorkerAndSend)
    }

    /// The worker could not be started.
    pub fn record_worker_start_failure(&mut self, error: &str) -> (r: NotificationDiagnostic)
        ensures
            !final(self).worker_running_spec(),
            final(self).enabled_spec() == old(self).enabled_spec(),
            final(self).backend_spec() == old(self).backend_spec(),
            r.backend == old(self).backend_spec(),
            r.availability == NotificationAvailability::Unavailable,
            r.message@ == "failed to start notification worker: "@ + error@,
            final(self).diagnostic_spec().availability == r.availability,
            final(self).diagnostic_spec().message@ == r.message@,
    {
        self.worker_running = false;
        let mut message = String::from_str("failed to start notification worker: ");
        message.append(error);
        self.diagnostic = NotificationDiagnostic {
            backend: self.backend,
            availability: NotificationAvailability::Unavailable,
            message: message.clone(),
        };
        NotificationDiagnostic { backend: self.backend, availability: NotificationAvailability::Unavailable, message }
    }

    /// The queue was full (the worker keeps running) or the worker had stopped.
    pub fn record_send_failure(&mut self, queue_full: bool) -> (r: NotificationDiagnostic)
        ensures
            final(self).worker_running_spec() == (old(self).worker_running_spec() && queue_full),
            final(self).enabled_spec() == old(self).enabled_spec(),
            final(self).backend_spec() == old(self).backend_spec(),
            r.backend == old(self).backend_spec(),
            r.availability == NotificationAvailability::Unavailable,
            r.message@ == (if queue_full {
                "notification queue is full; newest notification was dropped"@
            } else {
                "notification worker stopped unexpectedly"@
            }),
            final(self).diagnostic_spec().availability == r.availability,
            final(self).diagnostic_spec().message@ == r.message@,
    {
        let message = if queue_full {
            String::from_str("notification queue is full; newest notification was dropped")
        } else {
            self.worker_running = false;
            String::from_str("notification worker stopped unexpectedly")
        };
        self.diagnostic = NotificationDiagnostic {
            backend: self.backend,
            availability: NotificationAvailability::Unavailable,
            message: message.clone(),
        };
        NotificationDiagnostic { backend: self.backend, availability: NotificationAvailability::Unavailable, message }
    }

    /// The worker reports how a delivery went.
    pub fn record_delivery(&mut self, outcome: Result<(), &str>)
        ensures
            final(self).enabled_spec() == old(self).enabled_spec(),
            final(self).backend_spec() == old(self).backend_spec(),
            final(self).worker_running_spec() == old(self).worker_running_spec(),
            final(self).diagnostic_spec().backend == old(self).backend_spec(),
            match outcome {
                Ok(()) => final(self).diagnostic_spec().availability == NotificationAvailability::Available
                    && final(self).diagnostic_spec().message@ == backend_name(old(self).backend_spec())
                    + " notification delivered"@,
                Err(e) => final(self).diagnostic_spec().availability == NotificationAvailability::Unavailable
                    && final(self).diagnostic_spec().message@ == backend_name(old(self).backend_spec())
                    + " notification delivery failed: "@ + e@,
            },
    {
        let mut message = String::from_str(notification_backend_name(self.backend));
        let availability = match outcome {
            Ok(()) => {
                message.append(" notification delivered");
                NotificationAvailability::Available
            },
            Err(e) => {
                message.append(" notification delivery failed: ");
                message.append(e);
                NotificationAvailability::Unavailable
            },
        };
        self.diagnostic = NotificationDiagnostic { backend: self.backend, availability, message };
    }
}

/// Whether the window shows native decorations in a mode.
pub open spec fn decorations_visible(mode: WindowMode, decoration: DecorationMode) -> bool {
    decoration != DecorationMode::Undecorated && mode != WindowMode::BorderlessFullscreen && mode
        != WindowMode::FramelessWindowed && mode != WindowMode::FramelessFullscreen
}

pub fn window_mode_decorations_visible(mode: WindowMode, decoration: DecorationMode) -> (r: bool)
    ensures
        r == decorations_visible(mode, decoration),
{
    !matches!(decoration, DecorationMode::Undecorated) && !matches!(
        mode,
        WindowMode::BorderlessFullscreen | WindowMode::FramelessWindowed | WindowMode::FramelessFullscreen
    )
}

/// Whether a window mode starts fullscreen.
pub fn starts_fullscreen(mode: WindowMode) -> (r: bool)
    ensures
        r == (mode == WindowMode::Fullscreen || mode == WindowMode::BorderlessFullscreen || mode
            == WindowMode::FramelessFullscreen),
{
    matches!(mode, WindowMode::Fullscreen | WindowMode::BorderlessFullscreen | WindowMode::FramelessFullscreen)
}

/// The decoration mode a request resolves to, and an explicit fallback when the
/// request cannot be honoured exactly.
#[derive(Debug, Clone)]
pub struct DecorationResolution {
    pub effective: DecorationMode,
    pub fallback: Option<PlatformFallback>,
}

/// The name a decoration mode is reported under.
pub open spec fn decoration_mode_name(mode: DecorationMode) -> Seq<char> {
    match mode {
        DecorationMode::Auto => "Auto"@,
        DecorationMode::Native => "Native"@,
        DecorationMode::ServerSide => "ServerSide"@,
        DecorationMode::ClientSide => "ClientSide"@,
        DecorationMode::Custom => "Custom"@,
        DecorationMode::Undecorated => "None"@,
        DecorationMode::FallbackDecorated => "FallbackDecorated"@,
    }
}

fn decoration_mode_str(mode: DecorationMode) -> (r: &'static str)
    ensures
        r@ == decoration_mode_name(mode),
{
    match mode {
        DecorationMode::Auto => "Auto",
        DecorationMode::Native => "Native",
        DecorationMode::ServerSide => "ServerSide",
        DecorationMode::ClientSide => "ClientSide",
        DecorationMode::Custom => "Custom",
        DecorationMode::Undecorated => "None",
        DecorationMode::FallbackDecorated => "FallbackDecorated",
    }
}

/// Why a decoration request falls back, if it does.
pub open spec fn decoration_fallback_reason(requested: DecorationMode, platform: DesktopPlatform) -> Option<Seq<char>> {
    match requested {
        DecorationMode::Auto | DecorationMode::Native | DecorationMode::Undecorated => None,
        DecorationMode::ServerSide => if platform == DesktopPlatform::LinuxX11 {
            None
        } else {
            Some("the active window backend cannot guarantee the requested decoration strategy"@)
        },
        DecorationMode::ClientSide => if platform == DesktopPlatform::LinuxWayland {
            Some("winit negotiates Wayland decorations with the compositor; exact client-side selection is not guaranteed"@)
        } else {
            Some("the active window backend cannot guarantee the requested decoration strategy"@)
        },
        DecorationMode::Custom | DecorationMode::FallbackDecorated => Some(
            "the active window backend cannot guarantee the requested decoration strategy"@,
        ),
    }
}

/// Native and undecorated requests stand; everything else becomes native
/// decorations, reporting a fallback unless X11 honours a server-side request.
pub fn resolve_decoration_mode(requested: DecorationMode, platform: DesktopPlatform) -> (r: DecorationResolution)
    ensures
        r.effective == (if requested == DecorationMode::Native || requested == DecorationMode::Undecorated {
            requested
        } else {
            DecorationMode::Native
        }),
        match decoration_fallback_reason(requested, platform) {
            None => r.fallback is None,
            Some(reason) => r.fallback matches Some(f) && f.feature@ == "window_decorations"@
                && f.requested@ == decoration_mode_name(requested) && f.effective@
                == decoration_mode_name(r.effective) && f.reason@ == reason,
        },
{
    let (effective, reason): (DecorationMode, Option<&'static str>) = match requested {
        DecorationMode::Auto => (DecorationMode::Native, None),
        DecorationMode::Native | DecorationMode::Undecorated => (requested, None),
        DecorationMode::ServerSide => if platform == DesktopPlatform::LinuxX11 {
            (DecorationMode::Native, None)
        } else {
            (DecorationMode::Native, Some("the active window backend cannot guarantee the requested decoration strategy"))
        },
        DecorationMode::ClientSide => if platform == DesktopPlatform::LinuxWayland {
            (DecorationMode::Native, Some("winit negotiates Wayland decorations with the compositor; exact client-side selection is not guaranteed"))
        } else {
            (DecorationMode::Native, Some("the active window backend cannot guarantee the requested decoration strategy"))
        },
        DecorationMode::Custom | DecorationMode::FallbackDecorated => (
            DecorationMode::Native,
            Some("the active window backend cannot guarantee the requested decoration strategy"),
        ),
    };
    let fallback = match reason {
        None => None,
        Some(reason) => Some(PlatformFallback {
            feature: String::from_str("window_decorations"),
            requested: String::from_str(decoration_mode_str(requested)),
            effective: String::from_str(decoration_mode_str(effective)),
            reason: String::from_str(reason),
        }),
    };
    DecorationResolution { effective, fallback }
}

/// What the window backend does for each chrome action.
#[derive(Debug, Clone, Copy, PartialEq, Eq, Structural)]
pub enum WinitWindowChromeOperation {
    DragWindow,
    Minimize,
    LeaveFullscreen,
    RequestDesktopClose,
}

/// Every chrome action has an operation; closing stays with the application.
pub fn window_chrome_operation(action: WindowChromeAction) -> (r: WinitWindowChromeOperation)
    ensures
        r == (match action {
            WindowChromeAction::BeginDrag => WinitWindowChromeOperation::DragWindow,
            WindowChromeAction::Minimize => WinitWindowChromeOperation::Minimize,
            WindowChromeAction::LeaveFullscreen => WinitWindowChromeOperation::LeaveFullscreen,
            WindowChromeAction::Close => WinitWindowChromeOperation::RequestDesktopClose,
        }),
{
    match action {
        WindowChromeAction::BeginDrag => WinitWindowChromeOperation::DragWindow,
        WindowChromeAction::Minimize => WinitWindowChromeOperation::Minimize,
        WindowChromeAction::LeaveFullscreen => WinitWindowChromeOperation::LeaveFullscreen,
        WindowChromeAction::Close => WinitWindowChromeOperation::RequestDesktopClose,
    }
}

/// The fallback reported when the backend rejects a chrome action.
pub fn window_chrome_action_fallback(action: WindowChromeAction, reason: &str) -> (r: PlatformFallback)
    ensures
        r.feature@ == "window_chrome_action"@,
        r.requested@ == chrome_action_name(action),
        r.effective@ == "unchanged"@,
        r.reason@ == reason@,
{
    PlatformFallback {
        feature: String::from_str("window_chrome_action"),
        requested: String::from_str(action.as_str()),
        effective: String::from_str("unchanged"),
        reason: String::from_str(reason),
    }
}

/// Every desktop backend supports all chrome actions; an unknown one only closing.
pub fn window_chrome_actions_for(platform: DesktopPlatform) -> (r: Vec<WindowChromeAction>)
    ensures
        platform == DesktopPlatform::Unknown ==> r@ == seq![WindowChromeAction::Close],
        platform != DesktopPlatform::Unknown ==> r@ == seq![
            WindowChromeAction::BeginDrag,
            WindowChromeAction::Minimize,
            WindowChromeAction::LeaveFullscreen,
            WindowChromeAction::Close,
        ],
{
    if platform == DesktopPlatform::Unknown {
        vec![WindowChromeAction::Close]
    } else {
        vec![
            WindowChromeAction::BeginDrag,
            WindowChromeAction::Minimize,
            WindowChromeAction::LeaveFullscreen,
            WindowChromeAction::Close,
        ]
    }
}

/// The system clipboard everywhere, and the primary selection on Linux.
pub fn clipboard_capabilities(host: HostOs) -> (r: Vec<ClipboardCapability>)
    ensures
        host == HostOs::Linux ==> r@ == seq![ClipboardCapability::System, ClipboardCapability::PrimarySelection],
        host != HostOs::Linux ==> r@ == seq![ClipboardCapability::System],
{
    let mut capabilities = vec![ClipboardCapability::System];
    if host == HostOs::Linux {
        capabilities.push(ClipboardCapability::PrimarySelection);
    }
    capabilities
}

pub fn clipboard_diagnostic(
    operation: ClipboardOperation,
    availability: ClipboardAvailability,
    message: Option<String>,
) -> (r: ClipboardDiagnostic)
    ensures
        r == (ClipboardDiagnostic { operation, availability, message }),
{
    ClipboardDiagnostic { operation, availability, message }
}

/// The diagnostic of a clipboard operation whose backend could not be opened.
pub fn clipboard_backend_unavailable(operation: ClipboardOperation) -> (r: ClipboardDiagnostic)
    ensures
        r.operation == operation,
        r.availability == ClipboardAvailability::Unavailable,
        r.message matches Some(m) && m@ == "clipboard backend is unavailable"@,
{
    clipboard_diagnostic(operation, ClipboardAvailability::Unavailable, Some(String::from_str("clipboard backend is unavailable")))
}

/// The diagnostic of an operation that an open clipboard refused: the backend
/// stays available and the error is reported.
pub fn clipboard_operation_failed(operation: ClipboardOperation, error: &str) -> (r: ClipboardDiagnostic)
    ensures
        r.operation == operation,
        r.availability == ClipboardAvailability::Available,
        r.message matches Some(m) && m@ == error@,
{
    clipboard_diagnostic(operation, ClipboardAvailability::Available, Some(error.to_owned()))
}

/// The diagnostic of a primary-selection operation that failed.
pub fn primary_selection_failed(operation: ClipboardOperation, error: &str) -> (r: ClipboardDiagnostic)
    ensures
        r.operation == operation,
        r.availability == ClipboardAvailability::Unavailable,
        r.message matches Some(m) && m@ == "Linux primary selection unavailable: "@ + error@,
{
    let mut message = String::from_str("Linux primary selection unavailable: ");
    message.append(error);
    clipboard_diagnostic(operation, ClipboardAvailability::Unavailable, Some(message))
}

/// The diagnostic of a primary-selection operation on a host without one.
pub fn primary_selection_unsupported_here(operation: ClipboardOperation) -> (r: ClipboardDiagnostic)
    ensures
        r.operation == operation,
        r.availability == ClipboardAvailability::Unavailable,
        r.message matches Some(m) && m@ == "primary selection is available only on Linux"@,
{
    clipboard_diagnostic(
        operation,
        ClipboardAvailability::Unavailable,
        Some(String::from_str("primary selection is available only on Linux")),
    )
}

/// The recovery shortcut bound to Ctrl+Shift and a logical key, if any.
pub open spec fn recovery_action_spec(ctrl: bool, shift: bool, key: Seq<char>) -> Option<WindowAction> {
    if !(ctrl && shift) || key.len() != 1 {
        None
    } else {
        let c = ascii_lower(key[0]);
        if c == 'f' {
            Some(WindowAction::ToggleFullscreen)
        } else if c == 'd' {
            Some(WindowAction::RestoreWindowDecorations)
        } else if c == 'm' {
            Some(WindowAction::ToggleFrameless)
        } else if c == 'w' {
            Some(WindowAction::CloseWindow)
        } else if c == 'p' {
            Some(WindowAction::OpenCommandPaletteLater)
        } else {
            None
        }
    }
}

/// A recovery shortcut does not depend on the letter's case: with any
/// modifiers, an upper-case ASCII letter gives what its lower-case form gives.
pub proof fn lemma_recovery_ignores_letter_case(ctrl: bool, shift: bool, upper: char)
    requires
        'A' <= upper <= 'Z',
    ensures
        recovery_action_spec(ctrl, shift, seq![upper]) == recovery_action_spec(ctrl, shift, seq![((upper as u32) + 32) as char]),
{
    let lower = ((upper as u32) + 32) as char;
    assert(lower as u32 == (upper as u32) + 32);
    assert(!('A' <= lower <= 'Z'));
    assert(ascii_lower(upper) == lower);
    assert(ascii_lower(lower) == lower);
}

/// Only Ctrl+Shift with one of f, d, m, w, p recovers the window: full
/// screen, window decorations, frameless mode, closing, the command palette.
pub proof fn lemma_recovery_bindings(ctrl: bool, shift: bool, key: Seq<char>)
    ensures
        !(ctrl && shift) ==> recovery_action_spec(ctrl, shift, key) is None,
        key.len() != 1 ==> recovery_action_spec(ctrl, shift, key) is None,
        ctrl && shift && key == seq!['f'] ==> recovery_action_spec(ctrl, shift, key) == Some(WindowAction::ToggleFullscreen),
        ctrl && shift && key == seq!['d'] ==> recovery_action_spec(ctrl, shift, key) == Some(WindowAction::RestoreWindowDecorations),
        ctrl && shift && key == seq!['m'] ==> recovery_action_spec(ctrl, shift, key) == Some(WindowAction::ToggleFrameless),
        ctrl && shift && key == seq!['w'] ==> recovery_action_spec(ctrl, shift, key) == Some(WindowAction::CloseWindow),
        ctrl && shift && key == seq!['p'] ==> recovery_action_spec(ctrl, shift, key) == Some(WindowAction::OpenCommandPaletteLater),
        (recovery_action_spec(ctrl, shift, key) is Some) ==> key.len() == 1 && (key[0] == 'f' || key[0] == 'd' || key[0] == 'm'
            || key[0] == 'w' || key[0] == 'p' || key[0] == 'F' || key[0] == 'D' || key[0] == 'M' || key[0] == 'W' || key[0] == 'P'),
{
    if ctrl && shift && key.len() == 1 {
        let c = key[0];
        if 'A' <= c <= 'Z' {
            assert(ascii_lower(c) as u32 == (c as u32) + 32);
        }
    }
}

/// Ctrl+Shift+F, D, M, W or P (any letter case) recover the window.
pub fn recovery_action(event: &KeyEvent) -> (r: Option<WindowAction>)
    ensures
        r == recovery_action_spec(event.modifiers.ctrl, event.modifiers.shift, event.logical_key@),
{
    if !(event.modifiers.ctrl && event.modifiers.shift) {
        return None;
    }
    let chars = chars_of(event.logical_key.as_str());
    if chars.len() != 1 {
        return None;
    }
    let raw = chars[0];
    let c = if 'A' <= raw && raw <= 'Z' {
        if raw == 'F' { 'f' } else if raw == 'D' { 'd' } else if raw == 'M' { 'm' } else if raw == 'W' {
            'w'
        } else if raw == 'P' {
            'p'
        } else {
            ' '
        }
    } else {
        raw
    };
    proof {
        if 'A' <= raw <= 'Z' && raw != 'F' && raw != 'D' && raw != 'M' && raw != 'W' && raw != 'P' {
            assert(ascii_lower(raw) != 'f' && ascii_lower(raw) != 'd' && ascii_lower(raw) != 'm'
                && ascii_lower(raw) != 'w' && ascii_lower(raw) != 'p');
        }
    }
    if c == 'f' {
        Some(WindowAction::ToggleFullscreen)
    } else if c == 'd' {
        Some(WindowAction::RestoreWindowDecorations)
    } else if c == 'm' {
        Some(WindowAction::ToggleFrameless)
    } else if c == 'w' {
        Some(WindowAction::CloseWindow)
    } else if c == 'p' {
        Some(WindowAction::OpenCommandPaletteLater)
    } else {
        None
    }
}

/// Committed IME text is forwarded unless it is empty or holds a control character.
pub fn ime_commit_text(text: &str) -> (r: Option<String>)
    ensures
        (text@.len() > 0 && !has_control(text@)) ==> (r matches Some(t) && t@ == text@),
        !(text@.len() > 0 && !has_control(text@)) ==> r is None,
{
    let chars = chars_of(text);
    if chars.len() > 0 && !contains_control(text) {
        Some(String::from_str(text))
    } else {
        None
    }
}

/// Launches only web URLs.
#[derive(Debug, Default)]
pub struct DesktopUrlOpener;

/// Whether a URL starts with `http://` or `https://`.
pub open spec fn is_web_url(url: Seq<char>) -> bool {
    ||| (url.len() >= 7 && url.subrange(0, 7) == seq!['h', 't', 't', 'p', ':', '/', '/'])
    ||| (url.len() >= 8 && url.subrange(0, 8) == seq!['h', 't', 't', 'p', 's', ':', '/', '/'])
}

impl DesktopUrlOpener {
    pub fn new() -> (r: DesktopUrlOpener) {
        DesktopUrlOpener
    }

    /// Refuses every URL but `http://` and `https://` before anything is launched.
    pub fn check_url(&self, url: &str) -> (r: Result<(), UrlOpenDiagnostic>)
        ensures
            is_web_url(url@) ==> r is Ok,
            !is_web_url(url@) ==> r is Err && r->Err_0.url@ == url@ && r->Err_0.message is Some
                && r->Err_0.message->Some_0@ == "only http:// and https:// URL actions are allowed"@,
    {
        let chars = chars_of(url);
        let n = chars.len();
        let http = n >= 7 && chars[0] == 'h' && chars[1] == 't' && chars[2] == 't' && chars[3] == 'p'
            && chars[4] == ':' && chars[5] == '/' && chars[6] == '/';
        let https = n >= 8 && chars[0] == 'h' && chars[1] == 't' && chars[2] == 't' && chars[3] == 'p'
            && chars[4] == 's' && chars[5] == ':' && chars[6] == '/' && chars[7] == '/';
        proof {
            if n >= 7 {
                if http {
                    assert(url@.subrange(0, 7) =~= seq!['h', 't', 't', 'p', ':', '/', '/']);
                } else if url@.subrange(0, 7) == seq!['h', 't', 't', 'p', ':', '/', '/'] {
                    assert(url@.subrange(0, 7)[0] == 'h' && url@.subrange(0, 7)[1] == 't'
                        && url@.subrange(0, 7)[2] == 't' && url@.subrange(0, 7)[3] == 'p'
                        && url@.subrange(0, 7)[4] == ':' && url@.subrange(0, 7)[5] == '/'
                        && url@.subrange(0, 7)[6] == '/');
                }
            }
            if n >= 8 {
                if https {
                    assert(url@.subrange(0, 8) =~= seq!['h', 't', 't', 'p', 's', ':', '/', '/']);
                } else if url@.subrange(0, 8) == seq!['h', 't', 't', 'p', 's', ':', '/', '/'] {
                    assert(url@.subrange(0, 8)[0] == 'h' && url@.subrange(0, 8)[1] == 't'
                        && url@.subrange(0, 8)[2] == 't' && url@.subrange(0, 8)[3] == 'p'
                        && url@.subrange(0, 8)[4] == 's' && url@.subrange(0, 8)[5] == ':'
                        && url@.subrange(0, 8)[6] == '/' && url@.subrange(0, 8)[7] == '/');
                }
            }
        }
        if http || https {
            Ok(())
        } else {
            Err(UrlOpenDiagnostic {
                url: String::from_str(url),
                message: Some(String::from_str("only http:// and https:// URL actions are allowed")),
            })
        }
    }
}

/// One battery as the power provider reported it.
#[derive(Debug, Clone, PartialEq, Eq)]
pub enum BatteryReading {
    /// A battery whose charge is known, in whole percent (0..=100).
    Present { discharging: bool, charge_percent: u8 },
    /// A battery that could not be read.
    Failed { error: String },
}

/// The power state of a set of battery readings.
pub open spec fn battery_count_of(readings: Seq<BatteryReading>) -> nat
    decreases readings.len(),
{
    if readings.len() == 0 {
        0
    } else {
        battery_count_of(readings.drop_last()) + if readings.last() is Present { 1nat } else { 0nat }
    }
}

pub open spec fn any_discharging(readings: Seq<BatteryReading>) -> bool {
    exists|i: int| 0 <= i < readings.len() && (#[trigger] readings[i] matches BatteryReading::Present { discharging, .. } && discharging)
}

/// The lowest charge among the readable batteries.
pub open spec fn lowest_charge(readings: Seq<BatteryReading>) -> Option<u8>
    decreases readings.len(),
{
    if readings.len() == 0 {
        None
    } else {
        let rest = lowest_charge(readings.drop_last());
        match readings.last() {
            BatteryReading::Present { charge_percent, .. } => match rest {
                Some(c) => Some(if c < charge_percent { c } else { charge_percent }),
                None => Some(charge_percent),
            },
            BatteryReading::Failed { .. } => rest,
        }
    }
}

/// The charge a reading reports, if the battery could be read.
pub open spec fn reading_charge(reading: BatteryReading) -> Option<u8> {
    match reading {
        BatteryReading::Present { charge_percent, .. } => Some(charge_percent),
        BatteryReading::Failed { .. } => None,
    }
}

/// The charge reported for a set of readings is the lowest of the readable
/// batteries' charges: one of them, no higher than any; none when no battery
/// could be read.
pub proof fn lemma_lowest_charge_is_the_minimum(readings: Seq<BatteryReading>)
    ensures
        lowest_charge(readings) is None <==> forall|i: int| 0 <= i < readings.len() ==> #[trigger] reading_charge(readings[i]) is None,
        lowest_charge(readings) matches Some(c) ==> exists|i: int| 0 <= i < readings.len() && #[trigger] reading_charge(readings[i]) == Some(c),
        lowest_charge(readings) matches Some(c) ==> forall|i: int|
            0 <= i < readings.len() ==> (#[trigger] reading_charge(readings[i]) matches Some(x) ==> c <= x),
    decreases readings.len(),
{
    if readings.len() > 0 {
        let rest = readings.drop_last();
        lemma_lowest_charge_is_the_minimum(rest);
        let n = readings.len() - 1;
        assert forall|i: int| 0 <= i < n implies readings[i] == rest[i] by {}
        assert(readings[n] == readings.last());
        assert(reading_charge(readings[n]) == reading_charge(readings.last()));
        match lowest_charge(rest) {
            Some(c) => {
                let k = choose|i: int| 0 <= i < rest.len() && #[trigger] reading_charge(rest[i]) == Some(c);
                assert(reading_charge(readings[k]) == Some(c));
            },
            None => {},
        }
        if lowest_charge(readings) is None {
            assert forall|i: int| 0 <= i < readings.len() implies #[trigger] reading_charge(readings[i]) is None by {
                if i < n {
                    assert(reading_charge(rest[i]) is None);
                }
            }
        }
    }
}

/// The battery count is the number of batteries that could be read.
pub proof fn lemma_battery_count_is_readable(readings: Seq<BatteryReading>)
    ensures
        battery_count_of(readings) == readings.filter(|r: BatteryReading| r is Present).len(),
    decreases readings.len(),
{
    reveal(Seq::filter);
    if readings.len() > 0 {
        lemma_battery_count_is_readable(readings.drop_last());
    }
}

/// The error of the last battery that could not be read.
pub open spec fn last_failure(readings: Seq<BatteryReading>) -> Option<Seq<char>>
    decreases readings.len(),
{
    if readings.len() == 0 {
        None
    } else {
        match readings.last() {
            BatteryReading::Failed { error } => Some(error@),
            _ => last_failure(readings.drop_last()),
        }
    }
}

/// Summarizes battery readings: on battery when any battery discharges, on AC
/// when batteries exist but none discharges, unknown without batteries; the
/// charge is the lowest reported, and the last read failure is reported.
pub fn summarize_batteries(readings: &Vec<BatteryReading>) -> (r: PowerStateDiagnostic)
    requires
        readings@.len() <= usize::MAX,
    ensures
        r.state.battery_count == battery_count_of(readings@),
        r.state.charge_percent == lowest_charge(readings@),
        r.state.source == (if any_discharging(readings@) {
            PowerSource::Battery
        } else if battery_count_of(readings@) > 0 {
            PowerSource::Ac
        } else {
            PowerSource::Unknown
        }),
        match last_failure(readings@) {
            None => r.message is None,
            Some(e) => r.message matches Some(m) && m@ == "battery read failed: "@ + e,
        },
{
    let mut battery_count: usize = 0;
    let mut on_battery = false;
    let mut charge: Option<u8> = None;
    let mut failure: Option<String> = None;
    let mut i: usize = 0;
    while i < readings.len()
        invariant
            i <= readings@.len(),
            battery_count == battery_count_of(readings@.take(i as int)),
            battery_count <= i,
            on_battery == any_discharging(readings@.take(i as int)),
            charge == lowest_charge(readings@.take(i as int)),
            match last_failure(readings@.take(i as int)) {
                None => failure is None,
                Some(e) => failure matches Some(f) && f@ == e,
            },
        decreases readings@.len() - i,
    {
        let ghost prefix = readings@.take((i + 1) as int);
        assert(prefix.drop_last() =~= readings@.take(i as int));
        assert(prefix.last() == readings@[i as int]);
        match &readings[i] {
            BatteryReading::Present { discharging, charge_percent } => {
                battery_count = battery_count + 1;
                if *discharging {
                    on_battery = true;
                }
                charge = match charge {
                    Some(c) => Some(if c < *charge_percent { c } else { *charge_percent }),
                    None => Some(*charge_percent),
                };
            },
            BatteryReading::Failed { error } => {
                failure = Some(error.clone());
            },
        }
        proof {
            let old_prefix = readings@.take(i as int);
            if on_battery {
                if !any_discharging(old_prefix) {
                    assert(prefix[i as int] == readings@[i as int]);
                }
            } else {
                assert forall|j: int| 0 <= j < prefix.len() implies !(#[trigger] prefix[j] matches BatteryReading::Present { discharging, .. } && discharging) by {
                    if j < i {
                        assert(prefix[j] == old_prefix[j]);
                    }
                }
            }
        }
        i = i + 1;
    }
    assert(readings@.take(i as int) =~= readings@);
    let source = if on_battery {
        PowerSource::Battery
    } else if battery_count > 0 {
        PowerSource::Ac
    } else {
        PowerSource::Unknown
    };
    let message = match failure {
        None => None,
        Some(e) => {
            let mut message = String::from_str("battery read failed: ");
            message.append(e.as_str());
            Some(message)
        },
    };
    PowerStateDiagnostic { state: PowerState { source, battery_count, charge_percent: charge }, message }
}

/// How often the power state is read: every thirty seconds, in nanoseconds.
pub const POWER_REFRESH_INTERVAL: u64 = 30_000_000_000;

/// Whether two power diagnostics hold the same values.
pub open spec fn same_power_diagnostic(a: PowerStateDiagnostic, b: PowerStateDiagnostic) -> bool {
    &&& a.state == b.state
    &&& match (a.message, b.message) {
        (None, None) => true,
        (Some(x), Some(y)) => x@ == y@,
        _ => false,
    }
}

fn power_diagnostics_equal(a: &PowerStateDiagnostic, b: &PowerStateDiagnostic) -> (r: bool)
    ensures
        r == same_power_diagnostic(*a, *b),
{
    let messages = match (&a.message, &b.message) {
        (None, None) => true,
        (Some(x), Some(y)) => str_eq(x.as_str(), y.as_str()),
        _ => false,
    };
    a.state == b.state && messages
}

fn copy_power_diagnostic(d: &PowerStateDiagnostic) -> (r: PowerStateDiagnostic)
    ensures
        r == *d,
{
    PowerStateDiagnostic {
        state: d.state,
        message: match &d.message {
            None => None,
            Some(m) => Some(m.clone()),
        },
    }
}

pub open spec fn later(now: u64, delay: u64) -> u64 {
    if now + delay > u64::MAX {
        u64::MAX
    } else {
        (now + delay) as u64
    }
}

/// The power state as last read, and when to read it again. The application
/// owns the battery provider: it reads when `refresh_due` says so and hands the
/// reading to `record_reading`.
#[derive(Debug)]
pub struct DesktopPowerMonitor {
    enabled: bool,
    provider: bool,
    last: PowerStateDiagnostic,
    next_refresh: u64,
}

impl DesktopPowerMonitor {
    pub closed spec fn enabled_spec(&self) -> bool {
        self.enabled
    }

    /// Whether a battery provider could be opened.
    pub closed spec fn provider_spec(&self) -> bool {
        self.provider
    }

    pub closed spec fn last_spec(&self) -> PowerStateDiagnostic {
        self.last
    }

    pub closed spec fn next_refresh_spec(&self) -> u64 {
        self.next_refresh
    }

    /// A monitor made at `now`. A disabled one never reads and waits a whole
    /// interval; an enabled one is due at once and reports a provider that
    /// could not be opened.
    pub fn with_enabled(enabled: bool, now: u64, provider: Result<(), &str>) -> (r: DesktopPowerMonitor)
        ensures
            r.enabled_spec() == enabled,
            r.last_spec().state == (PowerState { source: PowerSource::Unknown, battery_count: 0, charge_percent: None }),
            !enabled ==> !r.provider_spec() && r.last_spec().message is None
                && r.next_refresh_spec() == later(now, POWER_REFRESH_INTERVAL),
            enabled ==> r.next_refresh_spec() == now && match provider {
                Ok(()) => r.provider_spec() && r.last_spec().message is None,
                Err(e) => !r.provider_spec() && (r.last_spec().message matches Some(m)
                    && m@ == "power-state provider unavailable: "@ + e@),
            },
    {
        let unknown = PowerState { source: PowerSource::Unknown, battery_count: 0, charge_percent: None };
        if !enabled {
            return DesktopPowerMonitor {
                enabled: false,
                provider: false,
                last: PowerStateDiagnostic { state: unknown, message: None },
                next_refresh: now.saturating_add(POWER_REFRESH_INTERVAL),
            };
        }
        match provider {
            Ok(()) => DesktopPowerMonitor {
                enabled: true,
                provider: true,
                last: PowerStateDiagnostic { state: unknown, message: None },
                next_refresh: now,
            },
            Err(e) => {
                let mut message = String::from_str("power-state provider unavailable: ");
                message.append(e);
                DesktopPowerMonitor {
                    enabled: true,
                    provider: false,
                    last: PowerStateDiagnostic { state: unknown, message: Some(message) },
                    next_refresh: now,
                }
            },
        }
    }

    /// Whether the monitor reads at all.
    pub fn enabled(&self) -> (r: bool)
        ensures
            r == self.enabled_spec(),
    {
        self.enabled
    }

    /// Whether a battery provider is open to read from.
    pub fn provider_available(&self) -> (r: bool)
        ensures
            r == self.provider_spec(),
    {
        self.provider
    }

    /// Whether to read now; a read schedules the next one an interval later.
    pub fn refresh_due(&mut self, now: u64) -> (r: bool)
        ensures
            r == (old(self).enabled_spec() && now >= old(self).next_refresh_spec()),
            r ==> final(self).next_refresh_spec() == later(now, POWER_REFRESH_INTERVAL)
                && final(self).enabled_spec() == old(self).enabled_spec()
                && final(self).provider_spec() == old(self).provider_spec()
                && final(self).last_spec() == old(self).last_spec(),
            !r ==> *final(self) == *old(self),
    {
        if !self.enabled || now < self.next_refresh {
            return false;
        }
        self.next_refresh = now.saturating_add(POWER_REFRESH_INTERVAL);
        true
    }

    /// Takes a reading: the batteries, or the error listing them; without a
    /// provider (`None`) the last state stands. Reports whether the state changed.
    pub fn record_reading(&mut self, reading: Option<Result<Vec<BatteryReading>, String>>) -> (changed: bool)
        requires
            reading matches Some(Ok(v)) ==> v@.len() <= usize::MAX,
        ensures
            final(self).enabled_spec() == old(self).enabled_spec(),
            final(self).provider_spec() == old(self).provider_spec(),
            final(self).next_refresh_spec() == old(self).next_refresh_spec(),
            match reading {
                None => final(self).last_spec() == old(self).last_spec() && !changed,
                Some(Err(e)) => final(self).last_spec().state == (PowerState {
                    source: PowerSource::Unknown,
                    battery_count: 0,
                    charge_percent: None,
                }) && (final(self).last_spec().message matches Some(m) && m@ == "failed to enumerate batteries: "@ + e@),
                Some(Ok(v)) => final(self).last_spec().state.battery_count == battery_count_of(v@)
                    && final(self).last_spec().state.charge_percent == lowest_charge(v@),
            },
            reading is Some ==> changed == !same_power_diagnostic(final(self).last_spec(), old(self).last_spec()),
    {
        let next = match reading {
            None => return false,
            Some(Err(e)) => {
                let mut message = String::from_str("failed to enumerate batteries: ");
                message.append(e.as_str());
                PowerStateDiagnostic {
                    state: PowerState { source: PowerSource::Unknown, battery_count: 0, charge_percent: None },
                    message: Some(message),
                }
            },
            Some(Ok(readings)) => summarize_batteries(&readings),
        };
        let changed = !power_diagnostics_equal(&next, &self.last);
        self.last = next;
        changed
    }

    /// How long until the next read; none while disabled.
    pub fn next_refresh_after(&self, now: u64) -> (r: Option<u64>)
        ensures
            !self.enabled_spec() ==> r is None,
            self.enabled_spec() ==> r == Some(if self.next_refresh_spec() > now { (self.next_refresh_spec() - now) as u64 } else { 0 }),
    {
        if !self.enabled {
            return None;
        }
        Some(if self.next_refresh > now { self.next_refresh - now } else { 0 })
    }

    /// The power state as last read.
    pub fn power_state(&self) -> (r: PowerStateDiagnostic)
        ensures
            r == self.last_spec(),
    {
        copy_power_diagnostic(&self.last)
    }
}

/// The desktop platform of a host: on Linux, Wayland when `WAYLAND_DISPLAY` is
/// set, else X11 when `DISPLAY` is set.
pub fn desktop_platform(host: HostOs, wayland_display: bool, x11_display: bool) -> (r: DesktopPlatform)
    ensures
        r == (match host {
            HostOs::Windows => DesktopPlatform::Windows,
            HostOs::MacOs => DesktopPlatform::MacOs,
            HostOs::Linux => if wayland_display {
                DesktopPlatform::LinuxWayland
            } else if x11_display {
                DesktopPlatform::LinuxX11
            } else {
                DesktopPlatform::Unknown
            },
            HostOs::Other => DesktopPlatform::Unknown,
        }),
{
    match host {
        HostOs::Windows => DesktopPlatform::Windows,
        HostOs::MacOs => DesktopPlatform::MacOs,
        HostOs::Linux => if wayland_display {
            DesktopPlatform::LinuxWayland
        } else if x11_display {
            DesktopPlatform::LinuxX11
        } else {
            DesktopPlatform::Unknown
        },
        HostOs::Other => DesktopPlatform::Unknown,
    }
}

/// How a host scales for DPI.
pub fn dpi_behavior_for(host: HostOs) -> (r: DpiBehavior)
    ensures
        r == (match host {
            HostOs::Windows => DpiBehavior::PerMonitor,
            HostOs::MacOs | HostOs::Linux => DpiBehavior::FractionalScale,
            HostOs::Other => DpiBehavior::Unknown,
        }),
{
    match host {
        HostOs::Windows => DpiBehavior::PerMonitor,
        HostOs::MacOs | HostOs::Linux => DpiBehavior::FractionalScale,
        HostOs::Other => DpiBehavior::Unknown,
    }
}

/// The compositor a Linux session names (`XDG_CURRENT_DESKTOP`, else
/// `DESKTOP_SESSION`); none elsewhere.
pub fn compositor_info(host: HostOs, platform: DesktopPlatform, desktop_name: Option<String>) -> (r: Option<CompositorInfo>)
    ensures
        host != HostOs::Linux ==> r is None,
        host == HostOs::Linux ==> (r matches Some(info) && info.name == desktop_name && info.version is None
            && info.protocol == platform && info.notes@.len() == 0),
{
    if host != HostOs::Linux {
        return None;
    }
    Some(CompositorInfo { name: desktop_name, version: None, protocol: platform, notes: Vec::new() })
}

pub open spec fn linux_backend_name(backend: LinuxWindowBackend) -> Seq<char> {
    match backend {
        LinuxWindowBackend::Auto => "Auto"@,
        LinuxWindowBackend::X11 => "X11"@,
        LinuxWindowBackend::Wayland => "Wayland"@,
    }
}

pub open spec fn desktop_platform_name(platform: DesktopPlatform) -> Seq<char> {
    match platform {
        DesktopPlatform::MacOs => "MacOs"@,
        DesktopPlatform::LinuxX11 => "LinuxX11"@,
        DesktopPlatform::LinuxWayland => "LinuxWayland"@,
        DesktopPlatform::Windows => "Windows"@,
        DesktopPlatform::Unknown => "Unknown"@,
    }
}

/// Whether the backend requested differs from the one the session offers.
pub open spec fn backend_mismatch(requested: LinuxWindowBackend, used: DesktopPlatform) -> bool {
    (requested == LinuxWindowBackend::X11 && used == DesktopPlatform::LinuxWayland)
        || (requested == LinuxWindowBackend::Wayland && used == DesktopPlatform::LinuxX11)
}

/// The Linux window backend report: a backend other than the one requested is
/// reported as a fallback, else the decoration fallback, if any; none off Linux.
pub fn linux_backend_diagnostic(
    host: HostOs,
    requested_backend: LinuxWindowBackend,
    decoration_requested: DecorationMode,
    decoration: &DecorationResolution,
    backend_used: DesktopPlatform,
    compositor: Option<CompositorInfo>,
) -> (r: Option<LinuxWindowBackendDiagnostic>)
    ensures
        host != HostOs::Linux ==> r is None,
        host == HostOs::Linux ==> (r matches Some(d) && d.requested_backend == requested_backend && d.backend_used
            == backend_used && d.compositor == compositor && d.decoration_requested == decoration_requested
            && d.decoration_used == decoration.effective && if backend_mismatch(requested_backend, backend_used) {
            d.fallback matches Some(f) && f.feature@ == "linux_window_backend"@ && f.requested@ == linux_backend_name(
                requested_backend,
            ) && f.effective@ == desktop_platform_name(backend_used) && f.reason@
                == "winit selected the available backend from the current process environment"@
        } else {
            match decoration.fallback {
                None => d.fallback is None,
                Some(f) => d.fallback matches Some(g) && g.feature@ == f.feature@ && g.requested@ == f.requested@
                    && g.effective@ == f.effective@ && g.reason@ == f.reason@,
            }
        }),
{
    if host != HostOs::Linux {
        return None;
    }
    let mismatch = (requested_backend == LinuxWindowBackend::X11 && backend_used == DesktopPlatform::LinuxWayland)
        || (requested_backend == LinuxWindowBackend::Wayland && backend_used == DesktopPlatform::LinuxX11);
    let fallback = if mismatch {
        let requested = match requested_backend {
            LinuxWindowBackend::Auto => "Auto",
            LinuxWindowBackend::X11 => "X11",
            LinuxWindowBackend::Wayland => "Wayland",
        };
        let effective = match backend_used {
            DesktopPlatform::MacOs => "MacOs",
            DesktopPlatform::LinuxX11 => "LinuxX11",
            DesktopPlatform::LinuxWayland => "LinuxWayland",
            DesktopPlatform::Windows => "Windows",
            DesktopPlatform::Unknown => "Unknown",
        };
        Some(
            PlatformFallback {
                feature: String::from_str("linux_window_backend"),
                requested: String::from_str(requested),
                effective: String::from_str(effective),
                reason: String::from_str("winit selected the available backend from the current process environment"),
            },
        )
    } else {
        match &decoration.fallback {
            None => None,
            Some(f) => Some(
                PlatformFallback {
                    feature: f.feature.clone(),
                    requested: f.requested.clone(),
                    effective: f.effective.clone(),
                    reason: f.reason.clone(),
                },
            ),
        }
    };
    Some(
        LinuxWindowBackendDiagnostic {
            requested_backend,
            backend_used,
            compositor,
            decoration_requested,
            decoration_used: decoration.effective,
            fallback,
        },
    )
}

} // verus!
