//! Renderer-independent drawing contracts.
//!
//! Durations are carried as whole nanoseconds (`u64`).

use vstd::prelude::*;

verus! {

#[derive(Debug, Clone, Copy, PartialEq, Eq, Structural)]
pub struct RenderColor {
    pub red: u8,
    pub green: u8,
    pub blue: u8,
    pub alpha: u8,
}

impl RenderColor {
    /// An opaque color.
    pub fn rgb(red: u8, green: u8, blue: u8) -> (r: RenderColor)
        ensures
            r == (RenderColor { red, green, blue, alpha: 255 }),
    {
        RenderColor { red, green, blue, alpha: 255 }
    }
}

#[derive(Debug, Clone, Copy, PartialEq, Eq, Structural, Hash)]
pub struct CellPosition {
    pub row: i64,
    pub col: u16,
}

#[derive(Debug, Clone, PartialEq, Eq)]
pub struct RenderCell {
    pub position: CellPosition,
    pub text: String,
    pub foreground: RenderColor,
    pub background: RenderColor,
    pub style: RenderCellStyle,
}

#[derive(Debug, Clone, Copy, PartialEq, Eq, Structural, Default)]
pub struct RenderCellStyle {
    pub bold: bool,
    pub italic: bool,
    pub underline: bool,
    pub strikethrough: bool,
}

#[derive(Debug, Clone, PartialEq, Eq, Default)]
pub struct RenderGrid {
    pub columns: u16,
    pub rows: u16,
    pub cells: Vec<RenderCell>,
}

#[derive(Debug, Clone, Copy, PartialEq, Eq, Structural)]
pub enum RenderCursorShape {
    Block,
    Beam,
    Underline,
    HollowBlock,
    Custom,
    CustomStaticShape,
}

#[derive(Debug, Clone, Copy, PartialEq, Eq, Structural)]
pub struct CursorVisual {
    pub position: CellPosition,
    pub shape: RenderCursorShape,
    pub color: RenderColor,
    pub visible: bool,
    pub thickness_percent: u8,
    pub corner_radius_px: u8,
    pub inactive: bool,
}

pub type RenderCursor = CursorVisual;

#[derive(Debug, Clone, Copy, PartialEq, Eq, Structural)]
pub struct RenderRect {
    pub x: i32,
    pub y: i32,
    pub width: u32,
    pub height: u32,
}

pub type DamageRegion = RenderRect;

#[derive(Debug, Clone, Copy, PartialEq, Eq, Structural, Default)]
pub struct RenderOffset {
    pub x: i32,
    pub y: i32,
}

#[derive(Debug, Clone, Copy, PartialEq, Eq, Structural)]
pub enum OverlayKind {
    Selection,
    SearchHighlight,
    Semantic,
    Decoration,
    PromptDecoration,
    CommandBlock,
    InputOutputGroup,
    Badge,
    PerformanceOverlay,
}

#[derive(Debug, Clone, PartialEq, Eq)]
pub struct OverlayPrimitive {
    pub kind: OverlayKind,
    pub bounds: RenderRect,
    pub color: RenderColor,
    pub border_color: Option<RenderColor>,
    pub corner_radius_px: u8,
    pub z_index: i16,
    pub label: Option<String>,
}

impl OverlayPrimitive {
    /// A borderless, unlabelled overlay at depth zero.
    pub fn filled(kind: OverlayKind, bounds: RenderRect, color: RenderColor) -> (r: OverlayPrimitive)
        ensures
            r.kind == kind,
            r.bounds == bounds,
            r.color == color,
            r.border_color is None,
            r.corner_radius_px == 0,
            r.z_index == 0,
            r.label is None,
    {
        OverlayPrimitive {
            kind,
            bounds,
            color,
            border_color: None,
            corner_radius_px: 0,
            z_index: 0,
            label: None,
        }
    }
}

pub type RenderOverlay = OverlayPrimitive;

#[derive(Debug, Clone, PartialEq, Eq)]
pub struct SelectionVisual {
    pub cells: Vec<CellPosition>,
    pub color: RenderColor,
}

#[derive(Debug, Clone, PartialEq, Eq)]
pub struct RenderDecoration {
    pub bounds: RenderRect,
    pub color: RenderColor,
    pub border_color: Option<RenderColor>,
}

#[derive(Debug, Clone, Copy, PartialEq, Eq, Structural)]
pub enum AnimationKind {
    CursorSmoothMovement,
    CursorTypingPulse,
    CursorTypingStretch,
    CursorTrail,
    CursorBlinkEasing,
    CursorGlow,
    OverlayTransition,
}

#[derive(Debug, Clone, Copy, PartialEq, Eq, Structural)]
pub struct AnimationHandle {
    pub id: u64,
    pub kind: AnimationKind,
    pub affected_region: RenderRect,
    /// Nanoseconds since the animation started.
    pub elapsed: u64,
    /// Nanoseconds left, when the animation is bounded.
    pub remaining: Option<u64>,
}

pub type RenderAnimation = AnimationHandle;

#[derive(Debug, Clone, Copy, PartialEq, Eq, Structural)]
pub enum FrameRequestReason {
    TerminalContentChanged,
    CursorBlink,
    Animation,
    WindowResized,
    SelectionChanged,
    Explicit,
}

#[derive(Debug, Clone, Copy, PartialEq, Eq, Structural)]
pub struct FrameRequest {
    pub reason: FrameRequestReason,
    pub damage: Option<DamageRegion>,
}

#[derive(Debug, Clone, Copy, PartialEq, Eq, Structural)]
pub enum OptionalFeature {
    CursorAnimation,
    SemanticOverlays,
    CommandBlocks,
    VisualEffects,
}

#[derive(Debug, Clone, Copy, PartialEq, Eq, Structural)]
pub enum OptionalFeatureCostMode {
    Disabled,
    EnabledDefault,
    EnabledHeavy,
}

#[derive(Debug, Clone, Copy, PartialEq, Eq, Structural, Default)]
pub struct GlyphInstrumentation {
    pub cache_hits: u64,
    pub cache_misses: u64,
    pub atlas_uploads: u64,
    pub atlas_used_bytes: u64,
    pub atlas_capacity_bytes: u64,
}

impl GlyphInstrumentation {
    /// Hits plus misses.
    pub fn total_lookups(self) -> (r: u64)
        requires
            self.cache_hits + self.cache_misses <= u64::MAX,
        ensures
            r == self.cache_hits + self.cache_misses,
    {
        self.cache_hits + self.cache_misses
    }
}

#[derive(Debug, Clone, Copy, PartialEq, Eq, Structural, Default)]
pub enum GpuTimingStatus {
    #[default]
    Disabled,
    Unsupported,
    Pending,
    Available,
    Failed,
}

#[derive(Debug, Clone, Copy, PartialEq, Eq, Structural)]
pub struct RenderInstrumentation {
    /// Nanoseconds.
    pub frame_time: u64,
    /// Nanoseconds.
    pub cpu_prepare_time: u64,
    /// Nanoseconds.
    pub gpu_submit_time: Option<u64>,
    /// Nanoseconds.
    pub gpu_time: Option<u64>,
    pub gpu_timing_status: GpuTimingStatus,
    pub glyphs: GlyphInstrumentation,
    pub damage_region_count: usize,
    pub draw_call_count: u32,
    pub animated_region_count: usize,
    pub idle_wakeups: u64,
    pub pty_read_bytes_per_second: u64,
    pub parser_bytes_per_second: u64,
    pub memory_usage_bytes: Option<u64>,
    pub scrollback_memory_bytes: u64,
}

impl Default for RenderInstrumentation {
    fn default() -> (r: RenderInstrumentation)
        ensures
            r.frame_time == 0,
            r.cpu_prepare_time == 0,
            r.gpu_submit_time is None,
            r.gpu_time is None,
            r.gpu_timing_status == GpuTimingStatus::Disabled,
            r.glyphs == (GlyphInstrumentation {
                cache_hits: 0,
                cache_misses: 0,
                atlas_uploads: 0,
                atlas_used_bytes: 0,
                atlas_capacity_bytes: 0,
            }),
            r.damage_region_count == 0,
            r.draw_call_count == 0,
            r.animated_region_count == 0,
            r.idle_wakeups == 0,
            r.pty_read_bytes_per_second == 0,
            r.parser_bytes_per_second == 0,
            r.memory_usage_bytes is None,
            r.scrollback_memory_bytes == 0,
    {
        RenderInstrumentation {
            frame_time: 0,
            cpu_prepare_time: 0,
            gpu_submit_time: None,
            gpu_time: None,
            gpu_timing_status: GpuTimingStatus::Disabled,
            glyphs: GlyphInstrumentation {
                cache_hits: 0,
                cache_misses: 0,
                atlas_uploads: 0,
                atlas_used_bytes: 0,
                atlas_capacity_bytes: 0,
            },
            damage_region_count: 0,
            draw_call_count: 0,
            animated_region_count: 0,
            idle_wakeups: 0,
            pty_read_bytes_per_second: 0,
            parser_bytes_per_second: 0,
            memory_usage_bytes: None,
            scrollback_memory_bytes: 0,
        }
    }
}

impl RenderInstrumentation {
    /// Whether the frame took longer than the budget (both in nanoseconds).
    pub fn over_budget(self, max_frame_time: u64) -> (r: bool)
        ensures
            r == (self.frame_time > max_frame_time),
    {
        self.frame_time > max_frame_time
    }
}

#[derive(Debug, Clone, PartialEq, Eq)]
pub struct FeatureCostSample {
    pub feature: OptionalFeature,
    pub mode: OptionalFeatureCostMode,
    pub instrumentation: RenderInstrumentation,
}

#[derive(Debug, Clone, PartialEq, Eq, Default)]
pub struct RenderScene {
    pub grid: RenderGrid,
    /// Pixel offset of terminal content inside the surface. Window margins and
    /// padding are resolved before reaching the renderer.
    pub content_offset: RenderOffset,
    pub cursor: Option<CursorVisual>,
    pub selections: Vec<SelectionVisual>,
    pub search_highlights: Vec<OverlayPrimitive>,
    pub semantic_overlays: Vec<OverlayPrimitive>,
    pub decorations: Vec<RenderDecoration>,
    pub animations: Vec<AnimationHandle>,
    pub damage_regions: Vec<DamageRegion>,
}

#[derive(Debug, Clone, PartialEq, Eq)]
pub enum RenderSurfaceStatus {
    Ready,
    Recovering,
    Lost,
    Unavailable { reason: String },
}

#[derive(Debug, Clone, Copy, PartialEq, Eq, Structural)]
pub enum RenderRecoveryReason {
    SurfaceLost,
    SurfaceOutdated,
    DeviceLost,
    OutOfMemory,
    BackendError,
    Manual,
}

#[derive(Debug, Clone, PartialEq, Eq)]
pub enum RenderRecoveryStatus {
    Ready,
    Recovering { reason: RenderRecoveryReason, attempts: u32 },
    Lost { reason: RenderRecoveryReason, message: String },
    Failed { reason: RenderRecoveryReason, message: String },
}

impl RenderRecoveryStatus {
    /// The surface status that a recovery status reports; a failure carries its message.
    pub fn surface_status(&self) -> (r: RenderSurfaceStatus)
        ensures
            match *self {
                RenderRecoveryStatus::Ready => r is Ready,
                RenderRecoveryStatus::Recovering { .. } => r is Recovering,
                RenderRecoveryStatus::Lost { .. } => r is Lost,
                RenderRecoveryStatus::Failed { message, .. } => r matches RenderSurfaceStatus::Unavailable { reason } && reason@ == message@,
            },
    {
        match self {
            RenderRecoveryStatus::Ready => RenderSurfaceStatus::Ready,
            RenderRecoveryStatus::Recovering { .. } => RenderSurfaceStatus::Recovering,
            RenderRecoveryStatus::Lost { .. } => RenderSurfaceStatus::Lost,
            RenderRecoveryStatus::Failed { message, .. } => RenderSurfaceStatus::Unavailable {
                reason: message.clone(),
            },
        }
    }
}

#[derive(Debug, Clone, PartialEq, Eq)]
pub struct RenderRecoveryEvent {
    pub reason: RenderRecoveryReason,
    pub attempts: u32,
    pub rebuilt_surface: bool,
    pub rebuilt_device: bool,
    pub rebuilt_pipelines: bool,
    pub rebuilt_glyph_atlas: bool,
    pub preserved_terminal_state: bool,
    pub message: String,
}

impl RenderRecoveryEvent {
    /// A recovery that rebuilt every GPU resource and kept the terminal state.
    pub fn success(reason: RenderRecoveryReason, attempts: u32) -> (r: RenderRecoveryEvent)
        ensures
            r.reason == reason,
            r.attempts == attempts,
            r.rebuilt_surface,
            r.rebuilt_device,
            r.rebuilt_pipelines,
            r.rebuilt_glyph_atlas,
            r.preserved_terminal_state,
            r.message@ == "renderer GPU resources were recreated"@,
    {
        RenderRecoveryEvent {
            reason,
            attempts,
            rebuilt_surface: true,
            rebuilt_device: true,
            rebuilt_pipelines: true,
            rebuilt_glyph_atlas: true,
            preserved_terminal_state: true,
            message: "renderer GPU resources were recreated".to_owned(),
        }
    }

    /// A recovery that rebuilt nothing; the terminal state is still kept.
    pub fn failure(reason: RenderRecoveryReason, attempts: u32, message: &str) -> (r: RenderRecoveryEvent)
        ensures
            r.reason == reason,
            r.attempts == attempts,
            !r.rebuilt_surface,
            !r.rebuilt_device,
            !r.rebuilt_pipelines,
            !r.rebuilt_glyph_atlas,
            r.preserved_terminal_state,
            r.message@ == message@,
    {
        RenderRecoveryEvent {
            reason,
            attempts,
            rebuilt_surface: false,
            rebuilt_device: false,
            rebuilt_pipelines: false,
            rebuilt_glyph_atlas: false,
            preserved_terminal_state: true,
            message: message.to_owned(),
        }
    }
}

#[derive(Debug, Clone, PartialEq, Eq)]
pub struct RenderSurfaceError {
    pub message: String,
}

impl RenderSurfaceError {
    pub fn new(message: &str) -> (r: RenderSurfaceError)
        ensures
            r.message@ == message@,
    {
        RenderSurfaceError { message: message.to_owned() }
    }
}

} // verus!
