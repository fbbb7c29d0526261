//! Renderer configuration: backend and presentation choices, retained-damage
//! status, startup timings, renderer errors, and the per-frame and recovery
//! decisions of the GPU backend.

use vstd::prelude::*;
use crate::platform_core::HostOs;
use crate::render_core::{RenderColor, RenderRecoveryEvent, RenderRecoveryReason, RenderRecoveryStatus};

verus! {

#[derive(Debug, Clone, Copy, PartialEq, Eq, Structural)]
pub enum PresentMode {
    Auto,
    Fifo,
    Mailbox,
    Immediate,
}

#[derive(Debug, Clone, Copy, PartialEq, Eq, Structural, Default)]
pub enum GpuBackendPreference {
    #[default]
    Auto,
    Vulkan,
    Metal,
    Dx12,
    Gl,
}

/// The configuration name of a backend preference.
pub open spec fn backend_preference_name(preference: GpuBackendPreference) -> Seq<char> {
    match preference {
        GpuBackendPreference::Auto => "auto"@,
        GpuBackendPreference::Vulkan => "vulkan"@,
        GpuBackendPreference::Metal => "metal"@,
        GpuBackendPreference::Dx12 => "dx12"@,
        GpuBackendPreference::Gl => "gl"@,
    }
}

impl GpuBackendPreference {
    pub fn as_str(self) -> (r: &'static str)
        ensures
            r@ == backend_preference_name(self),
    {
        match self {
            GpuBackendPreference::Auto => "auto",
            GpuBackendPreference::Vulkan => "vulkan",
            GpuBackendPreference::Metal => "metal",
            GpuBackendPreference::Dx12 => "dx12",
            GpuBackendPreference::Gl => "gl",
        }
    }
}

#[derive(Debug, Clone, Copy, PartialEq, Eq, Structural)]
pub enum NativeBackendFamily {
    Windows,
    Apple,
    Unix,
    Other,
}

/// The graphics-API family of an operating system.
pub fn native_backend_family(host: HostOs) -> (r: NativeBackendFamily)
    ensures
        r == (match host {
            HostOs::Windows => NativeBackendFamily::Windows,
            HostOs::MacOs => NativeBackendFamily::Apple,
            HostOs::Linux => NativeBackendFamily::Unix,
            HostOs::Other => NativeBackendFamily::Other,
        }),
{
    match host {
        HostOs::Windows => NativeBackendFamily::Windows,
        HostOs::MacOs => NativeBackendFamily::Apple,
        HostOs::Linux => NativeBackendFamily::Unix,
        HostOs::Other => NativeBackendFamily::Other,
    }
}

/// The backends tried, in order, for a request.
pub open spec fn backend_candidates(family: NativeBackendFamily, requested: GpuBackendPreference, transparent: bool) -> Seq<GpuBackendPreference> {
    if requested != GpuBackendPreference::Auto {
        seq![requested]
    } else {
        match family {
            NativeBackendFamily::Windows => if transparent {
                seq![GpuBackendPreference::Vulkan, GpuBackendPreference::Dx12, GpuBackendPreference::Gl]
            } else {
                seq![GpuBackendPreference::Dx12, GpuBackendPreference::Vulkan, GpuBackendPreference::Gl]
            },
            NativeBackendFamily::Apple => seq![GpuBackendPreference::Metal, GpuBackendPreference::Vulkan, GpuBackendPreference::Gl],
            NativeBackendFamily::Unix => seq![GpuBackendPreference::Vulkan, GpuBackendPreference::Gl],
            NativeBackendFamily::Other => seq![GpuBackendPreference::Auto],
        }
    }
}

/// An explicit backend is tried alone; automatic selection prefers the native
/// API of the platform (Vulkan first on Windows for transparent windows).
pub fn backend_candidates_for(family: NativeBackendFamily, requested: GpuBackendPreference, transparent: bool) -> (r: Vec<GpuBackendPreference>)
    ensures
        r@ == backend_candidates(family, requested, transparent),
{
    if requested != GpuBackendPreference::Auto {
        return vec![requested];
    }
    match family {
        NativeBackendFamily::Windows => if transparent {
            vec![GpuBackendPreference::Vulkan, GpuBackendPreference::Dx12, GpuBackendPreference::Gl]
        } else {
            vec![GpuBackendPreference::Dx12, GpuBackendPreference::Vulkan, GpuBackendPreference::Gl]
        },
        NativeBackendFamily::Apple => vec![GpuBackendPreference::Metal, GpuBackendPreference::Vulkan, GpuBackendPreference::Gl],
        NativeBackendFamily::Unix => vec![GpuBackendPreference::Vulkan, GpuBackendPreference::Gl],
        NativeBackendFamily::Other => vec![GpuBackendPreference::Auto],
    }
}

fn contains_mode(available: &Vec<PresentMode>, mode: PresentMode) -> (r: bool)
    ensures
        r == available@.contains(mode),
{
    let mut i: usize = 0;
    while i < available.len()
        invariant
            i <= available@.len(),
            forall|j: int| 0 <= j < i ==> available@[j] != mode,
        decreases available@.len() - i,
    {
        if available[i] == mode {
            return true;
        }
        i = i + 1;
    }
    false
}

/// The presentation mode used for a request: mailbox when asked for and
/// available, immediate when asked for and available (else mailbox if
/// available), FIFO otherwise.
pub fn select_present_mode(requested: PresentMode, available: &Vec<PresentMode>) -> (r: PresentMode)
    ensures
        r == (if requested == PresentMode::Mailbox && available@.contains(PresentMode::Mailbox) {
            PresentMode::Mailbox
        } else if requested == PresentMode::Immediate && available@.contains(PresentMode::Immediate) {
            PresentMode::Immediate
        } else if requested == PresentMode::Immediate && available@.contains(PresentMode::Mailbox) {
            PresentMode::Mailbox
        } else {
            PresentMode::Fifo
        }),
{
    if requested == PresentMode::Mailbox && contains_mode(available, PresentMode::Mailbox) {
        PresentMode::Mailbox
    } else if requested == PresentMode::Immediate && contains_mode(available, PresentMode::Immediate) {
        PresentMode::Immediate
    } else if requested == PresentMode::Immediate && contains_mode(available, PresentMode::Mailbox) {
        PresentMode::Mailbox
    } else {
        PresentMode::Fifo
    }
}

/// How a surface composites its alpha channel.
#[derive(Debug, Clone, Copy, PartialEq, Eq, Structural)]
pub enum CompositeAlphaMode {
    Auto,
    Opaque,
    PreMultiplied,
    PostMultiplied,
    Inherit,
}

fn contains_alpha(available: &Vec<CompositeAlphaMode>, mode: CompositeAlphaMode) -> (r: bool)
    ensures
        r == available@.contains(mode),
{
    let mut i: usize = 0;
    while i < available.len()
        invariant
            i <= available@.len(),
            forall|j: int| 0 <= j < i ==> available@[j] != mode,
        decreases available@.len() - i,
    {
        if available[i] == mode {
            return true;
        }
        i = i + 1;
    }
    false
}

/// A transparent window prefers premultiplied, then postmultiplied alpha; an
/// opaque one prefers opaque; failing that, the surface's first mode.
pub fn select_composite_alpha_mode(transparent: bool, available: &Vec<CompositeAlphaMode>) -> (r: CompositeAlphaMode)
    requires
        available@.len() > 0,
    ensures
        r == (if transparent {
            if available@.contains(CompositeAlphaMode::PreMultiplied) {
                CompositeAlphaMode::PreMultiplied
            } else if available@.contains(CompositeAlphaMode::PostMultiplied) {
                CompositeAlphaMode::PostMultiplied
            } else {
                available@[0]
            }
        } else if available@.contains(CompositeAlphaMode::Opaque) {
            CompositeAlphaMode::Opaque
        } else {
            available@[0]
        }),
{
    if transparent {
        if contains_alpha(available, CompositeAlphaMode::PreMultiplied) {
            CompositeAlphaMode::PreMultiplied
        } else if contains_alpha(available, CompositeAlphaMode::PostMultiplied) {
            CompositeAlphaMode::PostMultiplied
        } else {
            available[0]
        }
    } else if contains_alpha(available, CompositeAlphaMode::Opaque) {
        CompositeAlphaMode::Opaque
    } else {
        available[0]
    }
}

#[derive(Debug, Clone, PartialEq, Eq)]
pub enum RetainedDamageStatus {
    Enabled,
    DisabledByConfig,
    Unsupported { reason: String },
    Unverified { reason: String },
}

/// Retained damage runs only when requested and the surface can receive the
/// retained frame.
pub fn retained_damage_status(requested: bool, surface_copy_supported: bool) -> (r: RetainedDamageStatus)
    ensures
        !requested ==> r is DisabledByConfig,
        requested && surface_copy_supported ==> r is Enabled,
        requested && !surface_copy_supported ==> (r matches RetainedDamageStatus::Unsupported { reason }
            && reason@ == "the active WGPU surface cannot receive the retained frame texture"@),
{
    if !requested {
        RetainedDamageStatus::DisabledByConfig
    } else if surface_copy_supported {
        RetainedDamageStatus::Enabled
    } else {
        RetainedDamageStatus::Unsupported {
            reason: "the active WGPU surface cannot receive the retained frame texture".to_owned(),
        }
    }
}

/// Renderer start-up phases, in nanoseconds.
#[derive(Debug, Clone, Copy, PartialEq, Eq, Structural, Default)]
pub struct RendererStartupTimings {
    pub instance_and_surface: u64,
    pub adapter_request: u64,
    pub device_request: u64,
    pub surface_configuration: u64,
    pub pipeline_creation: u64,
    pub total: u64,
}

/// `a + b`, saturated at `u64::MAX`.
pub open spec fn saturating_sum(a: int, b: int) -> int {
    if a + b > u64::MAX {
        u64::MAX as int
    } else {
        a + b
    }
}

impl RendererStartupTimings {
    /// The five measured phases added up, saturating.
    pub fn accounted(self) -> (r: u64)
        ensures
            r == saturating_sum(saturating_sum(saturating_sum(saturating_sum(
                self.instance_and_surface as int,
                self.adapter_request as int,
            ), self.device_request as int), self.surface_configuration as int), self.pipeline_creation as int),
    {
        self.instance_and_surface.saturating_add(self.adapter_request).saturating_add(
            self.device_request,
        ).saturating_add(self.surface_configuration).saturating_add(self.pipeline_creation)
    }
}

#[derive(Debug, Clone, PartialEq, Eq)]
pub struct RendererStartupDiagnostics {
    pub requested_backend: GpuBackendPreference,
    pub effective_backend: String,
    pub adapter: String,
    pub attempted_backends: Vec<GpuBackendPreference>,
    pub fallback_errors: Vec<String>,
    pub timings: RendererStartupTimings,
}

#[derive(Debug, Clone, PartialEq, Eq)]
pub struct GpuAdapterProbe {
    pub backend: String,
    pub adapter: String,
    pub device_type: String,
    pub features: Vec<String>,
}

#[derive(Debug, Clone, PartialEq, Eq)]
pub enum RendererError {
    SurfaceCreation(String),
    AdapterUnavailable { requested: GpuBackendPreference },
    BackendSelection { requested: GpuBackendPreference, attempts: Vec<String> },
    DeviceCreation(String),
    Surface(String),
    DeviceLost { reason: RenderRecoveryReason, message: String },
    DeviceUnavailable(String),
    RecoveryFailed(String),
    Font(String),
    Asset(String),
    EmptySurface,
}

/// What to do with the surface when the window's size is read.
#[derive(Debug, Clone, Copy, PartialEq, Eq, Structural)]
pub enum SurfaceSizeAction {
    Skip,
    Keep,
    Reconfigure(u32, u32),
}

/// A window of zero width or height is skipped; one of the configured size
/// is kept; any other size reconfigures the surface to it.
pub fn surface_size_action(configured: (u32, u32), current: (u32, u32)) -> (r: SurfaceSizeAction)
    ensures
        current.0 == 0 || current.1 == 0 ==> r == SurfaceSizeAction::Skip,
        current.0 != 0 && current.1 != 0 && configured == current ==> r == SurfaceSizeAction::Keep,
        current.0 != 0 && current.1 != 0 && configured != current ==> r == SurfaceSizeAction::Reconfigure(
            current.0,
            current.1,
        ),
{
    if current.0 == 0 || current.1 == 0 {
        SurfaceSizeAction::Skip
    } else if configured.0 == current.0 && configured.1 == current.1 {
        SurfaceSizeAction::Keep
    } else {
        SurfaceSizeAction::Reconfigure(current.0, current.1)
    }
}

/// How presenting a frame ended.
#[derive(Debug, Clone, Copy, PartialEq, Eq, Structural)]
pub enum PresentOutcome {
    Submitted,
    SurfaceReconfigured(RenderRecoveryReason),
    Timeout,
    Skipped,
}

/// A frame that was not submitted leaves the retained frame stale: the next
/// one must be drawn in full.
pub fn present_outcome_requires_full_redraw(outcome: PresentOutcome) -> (r: bool)
    ensures
        r == !(outcome is Submitted),
{
    match outcome {
        PresentOutcome::Submitted => false,
        _ => true,
    }
}

/// A frame is prepared in full when a full redraw is due or when damage
/// tracking or retained damage is off.
pub fn should_prepare_full_frame(
    requires_full_redraw: bool,
    damage_tracking_enabled: bool,
    retained_damage_supported: bool,
) -> (r: bool)
    ensures
        r == (requires_full_redraw || !damage_tracking_enabled || !retained_damage_supported),
{
    requires_full_redraw || !damage_tracking_enabled || !retained_damage_supported
}

/// The retained frame is loaded only when retained damage runs and the frame
/// is not prepared in full.
pub fn should_load_retained_frame(retained_damage_enabled: bool, prepare_full_frame: bool) -> (r: bool)
    ensures
        r == (retained_damage_enabled && !prepare_full_frame),
{
    retained_damage_enabled && !prepare_full_frame
}

/// The draw calls a frame spends clearing: one when it starts from a cleared
/// surface or clears damaged regions, none otherwise.
pub fn frame_clear_extra_draw_calls(load_previous: bool, damage_region_count: usize) -> (r: u32)
    ensures
        r == (if !load_previous || damage_region_count > 0 { 1u32 } else { 0u32 }),
{
    if !load_previous || damage_region_count > 0 {
        1
    } else {
        0
    }
}

/// The color the surface is cleared to: the background, made opaque unless
/// the window is transparent.
pub fn surface_background_color(transparent: bool, background: RenderColor) -> (r: RenderColor)
    ensures
        r == (if transparent { background } else { RenderColor { alpha: 255, ..background } }),
{
    if transparent {
        background
    } else {
        RenderColor { red: background.red, green: background.green, blue: background.blue, alpha: 255 }
    }
}

/// The event recorded when the surface was reconfigured after a recoverable
/// surface event: only the surface was rebuilt, and the terminal state kept.
pub fn surface_recovery_event(reason: RenderRecoveryReason, attempts: u32) -> (r: RenderRecoveryEvent)
    ensures
        r.reason == reason,
        r.attempts == attempts,
        r.rebuilt_surface,
        !r.rebuilt_device && !r.rebuilt_pipelines && !r.rebuilt_glyph_atlas,
        r.preserved_terminal_state,
        r.message@ == "surface was reconfigured after a recoverable surface event"@,
{
    RenderRecoveryEvent {
        reason,
        attempts,
        rebuilt_surface: true,
        rebuilt_device: false,
        rebuilt_pipelines: false,
        rebuilt_glyph_atlas: false,
        preserved_terminal_state: true,
        message: "surface was reconfigured after a recoverable surface event".to_owned(),
    }
}

/// The recovery status once the backend is lost to `error`: the device's
/// own reason and message when the device was lost, a backend error
/// otherwise.
pub fn lost_backend_status(error: &RendererError) -> (r: RenderRecoveryStatus)
    ensures
        match error {
            RendererError::DeviceLost { reason, message } => r matches RenderRecoveryStatus::Lost { reason: q, message: m }
                && q == *reason && m@ == message@,
            _ => r matches RenderRecoveryStatus::Lost { reason: q, message: m } && q == RenderRecoveryReason::BackendError
                && m@ == "renderer backend failed"@,
        },
{
    match error {
        RendererError::DeviceLost { reason, message } => RenderRecoveryStatus::Lost {
            reason: *reason,
            message: message.clone(),
        },
        _ => RenderRecoveryStatus::Lost {
            reason: RenderRecoveryReason::BackendError,
            message: "renderer backend failed".to_owned(),
        },
    }
}

} // verus!
