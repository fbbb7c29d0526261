//! Cursor blinking and the cursor animation settings.
//!
//! Instants and durations are whole nanoseconds (`u64`); instants count from an
//! origin the caller chooses and never go backwards.

use vstd::prelude::*;
use crate::damage_tracker::CellGeometry;
use crate::split_tree::lemma_concat_contains;
use crate::render_core::{AnimationHandle, AnimationKind, CursorVisual, DamageRegion, RenderRect, RenderScene};

verus! {

/// Cursor moves shorter than this stay snappy (typing keeps the tilt); longer
/// ones -- pane switches, prompt redraws -- glide instead.
pub const PANEA_CURSOR_JUMP_THRESHOLD_CELLS: u16 = 2;

/// One millisecond in nanoseconds: the shortest blink phase.
pub const MIN_BLINK_INTERVAL: u64 = 1_000_000;

#[derive(Debug)]
pub struct CursorBlinkRuntime {
    phase_started: u64,
    visible: bool,
    enabled: bool,
    interval: u64,
}

/// `now - since`, or zero when `since` is later.
pub open spec fn elapsed_since(now: u64, since: u64) -> u64 {
    if now >= since {
        (now - since) as u64
    } else {
        0
    }
}

impl CursorBlinkRuntime {
    /// A cursor that does not blink is shown.
    #[verifier::type_invariant]
    spec fn shown_unless_blinking(self) -> bool {
        !self.enabled ==> self.visible
    }

    pub closed spec fn visible_spec(&self) -> bool {
        self.visible
    }

    pub closed spec fn enabled_spec(&self) -> bool {
        self.enabled
    }

    pub closed spec fn interval_spec(&self) -> u64 {
        self.interval
    }

    pub closed spec fn phase_started_spec(&self) -> u64 {
        self.phase_started
    }

    /// A visible, disabled cursor with a 600 ms phase starting at `now`.
    pub fn new(now: u64) -> (r: CursorBlinkRuntime)
        ensures
            r.visible_spec(),
            !r.enabled_spec(),
            r.interval_spec() == 600_000_000,
            r.phase_started_spec() == now,
    {
        CursorBlinkRuntime { phase_started: now, visible: true, enabled: false, interval: 600_000_000 }
    }

    /// Whether the cursor is shown now; it always is while it does not blink.
    pub fn visible(&self) -> (r: bool)
        ensures
            r == self.visible_spec(),
            !self.enabled_spec() ==> r,
    {
        proof {
            use_type_invariant(self);
        }
        self.visible
    }

    /// Typing shows the cursor and restarts the phase; reports whether it was hidden.
    pub fn record_activity(&mut self, now: u64) -> (r: bool)
        ensures
            r == !old(self).visible_spec(),
            final(self).visible_spec(),
            final(self).phase_started_spec() == now,
            final(self).enabled_spec() == old(self).enabled_spec(),
            final(self).interval_spec() == old(self).interval_spec(),
    {
        proof {
            use_type_invariant(&*self);
        }
        self.phase_started = now;
        let changed = !self.visible;
        self.visible = true;
        changed
    }

    /// Advances the blink at `now`. A change of setting restarts a visible phase;
    /// otherwise an enabled cursor toggles once a whole interval has passed.
    /// Reports whether visibility changed.
    pub fn update(&mut self, now: u64, enabled: bool, interval: u64) -> (r: bool)
        ensures
            !enabled ==> final(self).visible_spec() && !final(self).enabled_spec() && r == !old(self).visible_spec(),
            ({
                let interval = if interval < MIN_BLINK_INTERVAL { MIN_BLINK_INTERVAL } else { interval };
                if old(self).enabled_spec() != enabled || old(self).interval_spec() != interval {
                    &&& final(self).enabled_spec() == enabled
                    &&& final(self).interval_spec() == interval
                    &&& final(self).phase_started_spec() == now
                    &&& final(self).visible_spec()
                    &&& r == !old(self).visible_spec()
                } else if !enabled || elapsed_since(now, old(self).phase_started_spec()) < interval {
                    *final(self) == *old(self) && !r
                } else {
                    &&& final(self).enabled_spec() == enabled
                    &&& final(self).interval_spec() == interval
                    &&& final(self).phase_started_spec() == now
                    &&& final(self).visible_spec() == !old(self).visible_spec()
                    &&& r
                }
            }),
    {
        proof {
            use_type_invariant(&*self);
        }
        let interval = if interval < MIN_BLINK_INTERVAL { MIN_BLINK_INTERVAL } else { interval };
        if self.enabled != enabled || self.interval != interval {
            let changed = !self.visible;
            self.visible = true;
            self.enabled = enabled;
            self.interval = interval;
            self.phase_started = now;
            return changed;
        }
        let elapsed = if now >= self.phase_started { now - self.phase_started } else { 0 };
        if !enabled || elapsed < interval {
            return false;
        }
        self.phase_started = now;
        self.visible = !self.visible;
        true
    }

    /// How long until the next toggle, at least a millisecond; none while disabled.
    pub fn next_frame_after(&self, now: u64) -> (r: Option<u64>)
        ensures
            !self.enabled_spec() ==> r is None,
            self.enabled_spec() ==> r == Some(({
                let elapsed = elapsed_since(now, self.phase_started_spec());
                let left: int = if self.interval_spec() > elapsed { self.interval_spec() - elapsed } else { 0 };
                if left < MIN_BLINK_INTERVAL { MIN_BLINK_INTERVAL } else { left as u64 }
            })),
    {
        if !self.enabled {
            return None;
        }
        let elapsed = if now >= self.phase_started { now - self.phase_started } else { 0 };
        let left = if self.interval > elapsed { self.interval - elapsed } else { 0 };
        Some(if left < MIN_BLINK_INTERVAL { MIN_BLINK_INTERVAL } else { left })
    }
}

#[derive(Debug, Clone, Copy, PartialEq, Eq, Structural)]
pub struct CursorAnimationSettings {
    pub enabled: bool,
    pub tilt: bool,
    pub smooth_movement: bool,
    /// Cells the cursor must travel on either axis before `smooth_movement`
    /// takes over from `tilt`. Zero animates every move.
    pub jump_threshold_cells: u16,
    pub typing_pulse: bool,
    pub typing_stretch: bool,
    pub trail: bool,
    /// Nanoseconds.
    pub trail_delay: u64,
    pub trail_start_threshold_cells: u16,
    /// Nanoseconds.
    pub trail_decay_fast: u64,
    /// Nanoseconds.
    pub trail_decay_slow: u64,
    pub blink_easing: bool,
    pub short_lived_glow: bool,
    pub shadow: bool,
    pub fps: u16,
    pub max_active_animations: u16,
    pub max_animated_region_pixels: u32,
}

impl Default for CursorAnimationSettings {
    fn default() -> (r: CursorAnimationSettings)
        ensures
            r == (CursorAnimationSettings {
                enabled: false,
                tilt: false,
                smooth_movement: false,
                jump_threshold_cells: 0,
                typing_pulse: false,
                typing_stretch: false,
                trail: false,
                trail_delay: 1_000_000,
                trail_start_threshold_cells: 2,
                trail_decay_fast: 100_000_000,
                trail_decay_slow: 400_000_000,
                blink_easing: false,
                short_lived_glow: false,
                shadow: false,
                fps: 60,
                max_active_animations: 8,
                max_animated_region_pixels: 250_000,
            }),
    {
        CursorAnimationSettings {
            enabled: false,
            tilt: false,
            smooth_movement: false,
            jump_threshold_cells: 0,
            typing_pulse: false,
            typing_stretch: false,
            trail: false,
            trail_delay: 1_000_000,
            trail_start_threshold_cells: 2,
            trail_decay_fast: 100_000_000,
            trail_decay_slow: 400_000_000,
            blink_easing: false,
            short_lived_glow: false,
            shadow: false,
            fps: 60,
            max_active_animations: 8,
            max_animated_region_pixels: 250_000,
        }
    }
}

impl CursorAnimationSettings {
    /// Panea's cursor: tilt while typing, glide on jumps of more than two cells.
    pub fn panea(fps: u16, max_active_animations: u16, max_animated_region_pixels: u32) -> (r: CursorAnimationSettings)
        ensures
            r == (CursorAnimationSettings {
                enabled: true,
                tilt: true,
                smooth_movement: true,
                jump_threshold_cells: PANEA_CURSOR_JUMP_THRESHOLD_CELLS,
                typing_pulse: false,
                typing_stretch: false,
                trail: false,
                trail_delay: 0,
                trail_start_threshold_cells: 0,
                trail_decay_fast: 45_000_000,
                trail_decay_slow: 140_000_000,
                blink_easing: false,
                short_lived_glow: false,
                shadow: false,
                fps,
                max_active_animations,
                max_animated_region_pixels,
            }),
    {
        CursorAnimationSettings {
            enabled: true,
            tilt: true,
            smooth_movement: true,
            jump_threshold_cells: PANEA_CURSOR_JUMP_THRESHOLD_CELLS,
            typing_pulse: false,
            typing_stretch: false,
            trail: false,
            trail_delay: 0,
            trail_start_threshold_cells: 0,
            trail_decay_fast: 45_000_000,
            trail_decay_slow: 140_000_000,
            blink_easing: false,
            short_lived_glow: false,
            shadow: false,
            fps,
            max_active_animations,
            max_animated_region_pixels,
        }
    }

    /// Enabled, with at least one effect, room for an animation and a non-empty
    /// pixel budget.
    pub fn any_effect_enabled(self) -> (r: bool)
        ensures
            r == (self.enabled && (self.tilt || self.smooth_movement || self.typing_pulse
                || self.typing_stretch || self.trail || self.blink_easing || self.short_lived_glow
                || self.shadow) && self.max_active_animations > 0 && self.max_animated_region_pixels > 0),
    {
        self.enabled && (self.tilt || self.smooth_movement || self.typing_pulse || self.typing_stretch
            || self.trail || self.blink_easing || self.short_lived_glow || self.shadow)
            && self.max_active_animations > 0 && self.max_animated_region_pixels > 0
    }

    /// One frame at `fps` clamped to 1..=240, in whole microseconds, as nanoseconds.
    pub fn frame_interval(self) -> (r: u64)
        ensures
            ({
                let fps: int = if self.fps < 1 { 1 } else if self.fps > 240 { 240 } else { self.fps as int };
                r == (1_000_000int / fps) * 1000
            }),
    {
        let fps: u64 = if self.fps < 1 { 1 } else if self.fps > 240 { 240 } else { self.fps as u64 };
        (1_000_000 / fps) * 1000
    }
}

/// A rectangle grown by `amount` on every side; a negative amount moves the
/// corner but does not shrink it.
pub fn expand_region(rect: RenderRect, amount: i32) -> (r: RenderRect)
    requires
        i32::MIN <= rect.x - amount <= i32::MAX,
        i32::MIN <= rect.y - amount <= i32::MAX,
    ensures
        r.x == rect.x - amount,
        r.y == rect.y - amount,
        ({
            let grow: int = if amount > 0 { 2 * amount } else { 0 };
            &&& r.width == (if rect.width + grow > u32::MAX { u32::MAX as int } else { rect.width + grow })
            &&& r.height == (if rect.height + grow > u32::MAX { u32::MAX as int } else { rect.height + grow })
        }),
{
    let grow: u32 = if amount > 0 { (amount as u32) * 2 } else { 0 };
    RenderRect {
        x: rect.x - amount,
        y: rect.y - amount,
        width: rect.width.saturating_add(grow),
        height: rect.height.saturating_add(grow),
    }
}

/// The region a cursor animation may touch: its cell grown by four pixels on
/// every side.
pub fn cursor_animation_region(rect: RenderRect) -> (r: RenderRect)
    requires
        rect.x >= i32::MIN + 4,
        rect.y >= i32::MIN + 4,
    ensures
        r == expand_region_spec(rect, 4),
{
    expand_region(rect, 4)
}

/// `rect` grown by `amount` on every side, as [`expand_region`] computes it.
pub open spec fn expand_region_spec(rect: RenderRect, amount: i32) -> RenderRect {
    let grow: int = if amount > 0 { 2 * amount } else { 0 };
    RenderRect {
        x: (rect.x - amount) as i32,
        y: (rect.y - amount) as i32,
        width: (if rect.width + grow > u32::MAX { u32::MAX as int } else { rect.width + grow }) as u32,
        height: (if rect.height + grow > u32::MAX { u32::MAX as int } else { rect.height + grow }) as u32,
    }
}


/// Pixels of a region, saturated at `u32::MAX`.
pub open spec fn region_pixels(region: RenderRect) -> int {
    if region.width * region.height > u32::MAX {
        u32::MAX as int
    } else {
        region.width * region.height
    }
}

/// A fresh cursor animation: no time elapsed, `duration` nanoseconds to run.
pub open spec fn started_animation(id: u64, kind: AnimationKind, affected_region: RenderRect, duration: u64) -> AnimationHandle {
    AnimationHandle { id, kind, affected_region, elapsed: 0, remaining: Some(duration) }
}

/// The first animation of `kind` among `s`.
pub open spec fn first_of_kind(s: Seq<AnimationHandle>, kind: AnimationKind) -> int {
    choose|i: int| 0 <= i < s.len() && s[i].kind == kind && forall|j: int| 0 <= j < i ==> s[j].kind != kind
}

/// The id after `id`, held at `u64::MAX`.
pub open spec fn next_id_after(id: u64) -> u64 {
    if id == u64::MAX { u64::MAX } else { (id + 1) as u64 }
}

/// The running animations and next id after a start of `kind`, as
/// [`push_cursor_animation`] makes it.
pub open spec fn after_push(
    s: Seq<AnimationHandle>,
    next_id: u64,
    settings: CursorAnimationSettings,
    kind: AnimationKind,
    affected_region: RenderRect,
    duration: u64,
) -> (Seq<AnimationHandle>, u64) {
    let animation = started_animation(next_id, kind, affected_region, duration);
    if region_pixels(affected_region) > settings.max_animated_region_pixels {
        (s, next_id)
    } else if exists|i: int| 0 <= i < s.len() && #[trigger] s[i].kind == kind {
        (s.update(first_of_kind(s, kind), animation), next_id_after(next_id))
    } else if s.len() < settings.max_active_animations {
        (s.push(animation), next_id_after(next_id))
    } else {
        (s, next_id)
    }
}

/// Starts a cursor animation of `kind` over `affected_region`, numbered
/// `next_id`. A region over the pixel budget starts nothing; an active
/// animation of the same kind (the first one) is replaced; otherwise the new one
/// is added while fewer than `max_active_animations` run. Each start takes the
/// next id (saturating). Reports whether it started.
pub fn push_cursor_animation(
    active: &mut Vec<AnimationHandle>,
    next_id: &mut u64,
    settings: CursorAnimationSettings,
    kind: AnimationKind,
    affected_region: RenderRect,
    duration: u64,
) -> (r: bool)
    ensures
        ({
            let animation = started_animation(*old(next_id), kind, affected_region, duration);
            let s = old(active)@;
            if region_pixels(affected_region) > settings.max_animated_region_pixels {
                !r
            } else if exists|i: int| 0 <= i < s.len() && #[trigger] s[i].kind == kind {
                &&& r
                &&& exists|i: int|
                    0 <= i < s.len() && #[trigger] s[i].kind == kind
                        && (forall|j: int| 0 <= j < i ==> s[j].kind != kind)
                        && final(active)@ == s.update(i, animation)
            } else if s.len() < settings.max_active_animations {
                r && final(active)@ == s.push(animation)
            } else {
                !r
            }
        }),
        !r ==> final(active)@ == old(active)@ && *final(next_id) == *old(next_id),
        r ==> *final(next_id) == (if *old(next_id) == u64::MAX { u64::MAX } else { (*old(next_id) + 1) as u64 }),
        (final(active)@, *final(next_id)) == after_push(old(active)@, *old(next_id), settings, kind, affected_region, duration),
{
    assert((affected_region.width as u64) * (affected_region.height as u64) <= u64::MAX) by (nonlinear_arith)
        requires
            affected_region.width <= u32::MAX,
            affected_region.height <= u32::MAX,
    ;
    let product = (affected_region.width as u64) * (affected_region.height as u64);
    let pixels: u64 = if product > u32::MAX as u64 { u32::MAX as u64 } else { product };
    if pixels > settings.max_animated_region_pixels as u64 {
        return false;
    }
    let animation = AnimationHandle { id: *next_id, kind, affected_region, elapsed: 0, remaining: Some(duration) };
    let mut i: usize = 0;
    while i < active.len()
        invariant
            i <= active.len(),
            active@ == old(active)@,
            *next_id == *old(next_id),
            animation == started_animation(*old(next_id), kind, affected_region, duration),
            region_pixels(affected_region) <= settings.max_animated_region_pixels,
            forall|j: int| 0 <= j < i ==> active@[j].kind != kind,
        decreases active.len() - i,
    {
        if active[i].kind == kind {
            assert(old(active)@[i as int].kind == kind);
            proof {
                let s = old(active)@;
                let k = first_of_kind(s, kind);
                assert(0 <= i < s.len() && s[i as int].kind == kind && forall|j: int| 0 <= j < i ==> s[j].kind != kind);
                assert(k == i) by {
                    if k < i {
                        assert(s[k].kind != kind);
                    } else if k > i {
                        assert(s[i as int].kind != kind);
                    }
                }
            }
            active.set(i, animation);
            *next_id = next_id.saturating_add(1);
            return true;
        }
        i = i + 1;
    }
    if active.len() < settings.max_active_animations as usize {
        active.push(animation);
        *next_id = next_id.saturating_add(1);
        return true;
    }
    false
}

/// An animation `elapsed` nanoseconds later: its elapsed time grows
/// (saturating) and its remaining time shrinks, stopping at zero.
pub open spec fn advanced_animation(animation: AnimationHandle, elapsed: u64) -> AnimationHandle {
    AnimationHandle {
        elapsed: (if animation.elapsed + elapsed > u64::MAX { u64::MAX as int } else { animation.elapsed + elapsed }) as u64,
        remaining: match animation.remaining {
            Some(left) => Some((if left > elapsed { left - elapsed } else { 0 }) as u64),
            None => None,
        },
        ..animation
    }
}

/// Every animation advanced by `elapsed`, in order, without those that have run out.
pub open spec fn advanced_animations(animations: Seq<AnimationHandle>, elapsed: u64) -> Seq<AnimationHandle>
    decreases animations.len(),
{
    if animations.len() == 0 {
        Seq::empty()
    } else {
        let rest = advanced_animations(animations.drop_last(), elapsed);
        let last = advanced_animation(animations.last(), elapsed);
        if last.remaining == Some(0u64) {
            rest
        } else {
            rest.push(last)
        }
    }
}

/// Advances the running cursor animations by `elapsed` nanoseconds and drops
/// those that have finished. A smooth movement's region follows its
/// interpolated cell, which the caller recomputes; here every region stays.
pub fn advance_cursor_animations(active: &mut Vec<AnimationHandle>, elapsed: u64)
    ensures
        final(active)@ == advanced_animations(old(active)@, elapsed),
{
    let mut kept: Vec<AnimationHandle> = Vec::new();
    let mut i: usize = 0;
    while i < active.len()
        invariant
            i <= active.len(),
            active@ == old(active)@,
            kept@ == advanced_animations(active@.take(i as int), elapsed),
        decreases active.len() - i,
    {
        let animation = active[i];
        let remaining = match animation.remaining {
            Some(left) => Some(if left > elapsed { left - elapsed } else { 0 }),
            None => None,
        };
        let next = AnimationHandle { elapsed: animation.elapsed.saturating_add(elapsed), remaining, ..animation };
        assert(active@.take(i + 1).drop_last() =~= active@.take(i as int));
        if remaining != Some(0u64) {
            kept.push(next);
        }
        i = i + 1;
    }
    assert(active@.take(active.len() as int) =~= active@);
    *active = kept;
}

/// Whether a move from `from` to `to` spans at most `threshold_cells` whole cells
/// of `cell_width` by `cell_height` pixels (at least one) on each axis.
pub open spec fn move_within_threshold(from: RenderRect, to: RenderRect, cell_width: u32, cell_height: u32, threshold_cells: u16) -> bool {
    let w: int = if cell_width < 1 { 1 } else { cell_width as int };
    let h: int = if cell_height < 1 { 1 } else { cell_height as int };
    let dx: int = if from.x >= to.x { from.x - to.x } else { to.x - from.x };
    let dy: int = if from.y >= to.y { from.y - to.y } else { to.y - from.y };
    dx / w <= threshold_cells && dy / h <= threshold_cells
}

/// The cursor animations a frame starts, in the order they start: a glide when
/// the cursor moved further than the jump threshold with smooth movement on; the
/// typing pulse, stretch and glow after typing; the blink easing when the
/// cursor's visibility flipped. Nothing starts while every effect is off.
/// `AnimationKind` names no tilt or shadow, so neither is among these.
pub open spec fn cursor_animation_kinds_spec(
    previous: Option<CursorVisual>,
    cursor: CursorVisual,
    previous_cell: RenderRect,
    current_cell: RenderRect,
    typing: bool,
    settings: CursorAnimationSettings,
) -> Seq<AnimationKind> {
    let any = settings.enabled && (settings.tilt || settings.smooth_movement || settings.typing_pulse
        || settings.typing_stretch || settings.trail || settings.blink_easing || settings.short_lived_glow
        || settings.shadow) && settings.max_active_animations > 0 && settings.max_animated_region_pixels > 0;
    let glide = (previous matches Some(p) && p.position != cursor.position) && settings.smooth_movement
        && !move_within_threshold(previous_cell, current_cell, current_cell.width, current_cell.height, settings.jump_threshold_cells);
    let flipped = previous matches Some(p) && p.visible != cursor.visible;
    if !any {
        Seq::empty()
    } else {
        (if glide { seq![AnimationKind::CursorSmoothMovement] } else { Seq::empty() })
            + (if typing && settings.typing_pulse { seq![AnimationKind::CursorTypingPulse] } else { Seq::empty() })
            + (if typing && settings.typing_stretch { seq![AnimationKind::CursorTypingStretch] } else { Seq::empty() })
            + (if typing && settings.short_lived_glow { seq![AnimationKind::CursorGlow] } else { Seq::empty() })
            + (if settings.blink_easing && flipped { seq![AnimationKind::CursorBlinkEasing] } else { Seq::empty() })
    }
}

/// Which cursor animations a frame starts, given the previous and current cursor
/// and their cells in pixels.
pub fn cursor_animation_kinds(
    previous: Option<CursorVisual>,
    cursor: CursorVisual,
    previous_cell: RenderRect,
    current_cell: RenderRect,
    typing: bool,
    settings: CursorAnimationSettings,
) -> (r: Vec<AnimationKind>)
    ensures
        r@ == cursor_animation_kinds_spec(previous, cursor, previous_cell, current_cell, typing, settings),
{
    let mut kinds: Vec<AnimationKind> = Vec::new();
    if !settings.any_effect_enabled() {
        return kinds;
    }
    let moved = match previous {
        Some(p) => p.position.row != cursor.position.row || p.position.col != cursor.position.col,
        None => false,
    };
    if moved && settings.smooth_movement
        && !cursor_trail_move_within_threshold(previous_cell, current_cell, [current_cell.width, current_cell.height], settings.jump_threshold_cells)
    {
        kinds.push(AnimationKind::CursorSmoothMovement);
    }
    if typing && settings.typing_pulse {
        kinds.push(AnimationKind::CursorTypingPulse);
    }
    if typing && settings.typing_stretch {
        kinds.push(AnimationKind::CursorTypingStretch);
    }
    if typing && settings.short_lived_glow {
        kinds.push(AnimationKind::CursorGlow);
    }
    let flipped = match previous {
        Some(p) => p.visible != cursor.visible,
        None => false,
    };
    if settings.blink_easing && flipped {
        kinds.push(AnimationKind::CursorBlinkEasing);
    }
    proof {
        let glide = (previous matches Some(p) && p.position != cursor.position) && settings.smooth_movement
            && !move_within_threshold(previous_cell, current_cell, current_cell.width, current_cell.height, settings.jump_threshold_cells);
        let e = Seq::<AnimationKind>::empty();
        assert(kinds@ =~= (if glide { seq![AnimationKind::CursorSmoothMovement] } else { e })
            + (if typing && settings.typing_pulse { seq![AnimationKind::CursorTypingPulse] } else { e })
            + (if typing && settings.typing_stretch { seq![AnimationKind::CursorTypingStretch] } else { e })
            + (if typing && settings.short_lived_glow { seq![AnimationKind::CursorGlow] } else { e })
            + (if settings.blink_easing && flipped { seq![AnimationKind::CursorBlinkEasing] } else { e }));
    }
    kinds
}

/// Whether a cursor moved at most `threshold_cells` cells on each axis, in
/// whole cells of `cell_size` pixels (at least one on each axis).
pub fn cursor_trail_move_within_threshold(from: RenderRect, to: RenderRect, cell_size: [u32; 2], threshold_cells: u16) -> (r: bool)
    ensures
        r == move_within_threshold(from, to, cell_size@[0], cell_size@[1], threshold_cells),
{
    let w: u32 = if cell_size[0] < 1 { 1 } else { cell_size[0] };
    let h: u32 = if cell_size[1] < 1 { 1 } else { cell_size[1] };
    let dx: u32 = if from.x >= to.x { (from.x as i64 - to.x as i64) as u32 } else { (to.x as i64 - from.x as i64) as u32 };
    let dy: u32 = if from.y >= to.y { (from.y as i64 - to.y as i64) as u32 } else { (to.y as i64 - from.y as i64) as u32 };
    dx / w <= threshold_cells as u32 && dy / h <= threshold_cells as u32
}


/// Where an animation of `kind` starts: a glide over the previous cell, a glow
/// over the cursor's region grown once more, the others over the cursor's
/// region (its cell grown by four pixels).
pub open spec fn kind_region(kind: AnimationKind, previous_cell: RenderRect, current_cell: RenderRect) -> RenderRect {
    match kind {
        AnimationKind::CursorSmoothMovement => expand_region_spec(previous_cell, 4),
        AnimationKind::CursorGlow => expand_region_spec(expand_region_spec(current_cell, 4), 4),
        _ => expand_region_spec(current_cell, 4),
    }
}

/// How long an animation of `kind` runs, in nanoseconds.
pub open spec fn kind_duration(kind: AnimationKind) -> u64 {
    match kind {
        AnimationKind::CursorSmoothMovement => 120_000_000,
        AnimationKind::CursorTypingPulse => 140_000_000,
        AnimationKind::CursorTypingStretch => 100_000_000,
        AnimationKind::CursorGlow => 160_000_000,
        AnimationKind::CursorBlinkEasing => 120_000_000,
        _ => 0,
    }
}

/// The running animations and next id after starting each of `kinds` in turn.
pub open spec fn started_all(
    s: Seq<AnimationHandle>,
    next_id: u64,
    settings: CursorAnimationSettings,
    kinds: Seq<AnimationKind>,
    previous_cell: RenderRect,
    current_cell: RenderRect,
) -> (Seq<AnimationHandle>, u64)
    decreases kinds.len(),
{
    if kinds.len() == 0 {
        (s, next_id)
    } else {
        let (before, id) = started_all(s, next_id, settings, kinds.drop_last(), previous_cell, current_cell);
        let kind = kinds.last();
        after_push(before, id, settings, kind, kind_region(kind, previous_cell, current_cell), kind_duration(kind))
    }
}

/// What the cursor animations keep between frames. The trail and the tilt,
/// which interpolate in floating point, are kept by the host.
pub struct CursorAnimationState {
    pub previous_cursor: Option<CursorVisual>,
    pub active: Vec<AnimationHandle>,
    pub next_id: u64,
    /// When the last frame was populated, in nanoseconds.
    pub last_tick: u64,
    pub typing_requested: bool,
}

/// Whether the settings turn on any cursor effect with room to run it (what
/// `any_effect_enabled` reports).
pub open spec fn any_effect_on(settings: CursorAnimationSettings) -> bool {
    settings.enabled && (settings.tilt || settings.smooth_movement || settings.typing_pulse || settings.typing_stretch
        || settings.trail || settings.blink_easing || settings.short_lived_glow || settings.shadow)
        && settings.max_active_animations > 0 && settings.max_animated_region_pixels > 0
}

/// The cell of the previous cursor, or the current cell when there was none.
pub open spec fn previous_cell_of<G: CellGeometry>(geometry: G, previous: Option<CursorVisual>, current_cell: RenderRect) -> RenderRect {
    match previous {
        Some(p) => geometry.cell_region_spec(p.position),
        None => current_cell,
    }
}

/// The animations a frame runs after the step: the running ones advanced
/// to `now`, then, with a cursor, those its movement, typing and blinking start.
pub open spec fn stepped_animations<G: CellGeometry>(
    state: CursorAnimationState,
    scene: RenderScene,
    geometry: G,
    now: u64,
    settings: CursorAnimationSettings,
) -> (Seq<AnimationHandle>, u64) {
    let advanced = advanced_animations(state.active@, elapsed_since(now, state.last_tick));
    match scene.cursor {
        Some(cursor) => {
            let current_cell = geometry.cell_region_spec(cursor.position);
            let previous_cell = previous_cell_of(geometry, state.previous_cursor, current_cell);
            started_all(
                advanced,
                state.next_id,
                settings,
                cursor_animation_kinds_spec(state.previous_cursor, cursor, previous_cell, current_cell, state.typing_requested, settings),
                previous_cell,
                current_cell,
            )
        },
        None => (advanced, state.next_id),
    }
}

/// A cell whose animation regions can be grown twice within `i32`.
pub open spec fn cell_can_grow(cell: RenderRect) -> bool {
    cell.x >= i32::MIN + 8 && cell.y >= i32::MIN + 8
}

impl CursorAnimationState {
    /// No cursor seen yet, nothing running, ids from one, the clock at `now`.
    pub fn new(now: u64) -> (r: CursorAnimationState)
        ensures
            r.previous_cursor is None,
            r.active@.len() == 0,
            r.next_id == 1,
            r.last_tick == now,
            !r.typing_requested,
    {
        CursorAnimationState { previous_cursor: None, active: Vec::new(), next_id: 1, last_tick: now, typing_requested: false }
    }

    /// The user typed: the next frame starts the typing animations.
    pub fn record_typing(&mut self)
        ensures
            final(self).typing_requested,
            final(self).previous_cursor == old(self).previous_cursor,
            final(self).active@ == old(self).active@,
            final(self).next_id == old(self).next_id,
            final(self).last_tick == old(self).last_tick,
    {
        self.typing_requested = true;
    }

    /// Whether an animation still runs, so another frame is owed.
    pub fn needs_frame(&self) -> (r: bool)
        ensures
            r == (self.active@.len() > 0),
    {
        self.active.len() > 0
    }

    /// How long until the next frame the running animations need: one frame
    /// interval while any runs, none otherwise. A trail the host keeps may
    /// need one sooner.
    pub fn next_frame_after(&self, settings: CursorAnimationSettings) -> (r: Option<u64>)
        ensures
            r == (if self.active@.len() > 0 {
                let fps: int = if settings.fps < 1 { 1 } else if settings.fps > 240 { 240 } else { settings.fps as int };
                Some(((1_000_000int / fps) * 1000) as u64)
            } else {
                None
            }),
    {
        if self.active.len() > 0 {
            Some(settings.frame_interval())
        } else {
            None
        }
    }

    /// Populates `scene` with the cursor animations of the frame at `now`.
    /// With every effect off nothing is drawn: the scene stays as it was, the
    /// running animations are dropped and the cursor is remembered. Otherwise
    /// the running animations advance to `now`, the cursor's glide, typing and
    /// blink animations start, and every running animation joins the scene's
    /// animations with its region added to the scene's damage.
    pub fn populate_scene_step<G: CellGeometry>(&mut self, scene: &mut RenderScene, geometry: &G, now: u64, settings: CursorAnimationSettings)
        requires
            old(scene).cursor matches Some(c) ==> cell_can_grow(geometry.cell_region_spec(c.position)),
            old(self).previous_cursor matches Some(p) ==> cell_can_grow(geometry.cell_region_spec(p.position)),
        ensures
            final(self).previous_cursor == old(scene).cursor,
            !final(self).typing_requested,
            !any_effect_on(settings) ==> {
                &&& *final(scene) == *old(scene)
                &&& final(self).active@.len() == 0
                &&& final(self).next_id == old(self).next_id
                &&& final(self).last_tick == old(self).last_tick
            },
            any_effect_on(settings) ==> {
                let (active, next_id) = stepped_animations(*old(self), *old(scene), *geometry, now, settings);
                &&& final(self).active@ == active
                &&& final(self).next_id == next_id
                &&& final(self).last_tick == now
                &&& final(scene).animations@ == old(scene).animations@ + active
                &&& final(scene).damage_regions@ == old(scene).damage_regions@ + active.map_values(
                    |a: AnimationHandle| a.affected_region,
                )
                &&& final(scene).grid == old(scene).grid
                &&& final(scene).content_offset == old(scene).content_offset
                &&& final(scene).cursor == old(scene).cursor
                &&& final(scene).selections == old(scene).selections
                &&& final(scene).search_highlights == old(scene).search_highlights
                &&& final(scene).semantic_overlays == old(scene).semantic_overlays
                &&& final(scene).decorations == old(scene).decorations
            },
    {
        if !settings.any_effect_enabled() {
            self.previous_cursor = scene.cursor;
            self.active = Vec::new();
            self.typing_requested = false;
            return;
        }
        let ghost before = *self;
        let elapsed = if now >= self.last_tick { now - self.last_tick } else { 0 };
        proof {
            assert(elapsed == elapsed_since(now, before.last_tick));
        }
        self.last_tick = now;
        advance_cursor_animations(&mut self.active, elapsed);
        if let Some(cursor) = scene.cursor {
            let current_cell = geometry.cell_region(cursor.position);
            let previous_cell = match self.previous_cursor {
                Some(previous) => geometry.cell_region(previous.position),
                None => current_cell,
            };
            let kinds = cursor_animation_kinds(self.previous_cursor, cursor, previous_cell, current_cell, self.typing_requested, settings);
            let ghost advanced = self.active@;
            let mut i: usize = 0;
            while i < kinds.len()
                invariant
                    i <= kinds.len(),
                    cell_can_grow(current_cell),
                    cell_can_grow(previous_cell),
                    self.last_tick == now,
                    (self.active@, self.next_id) == started_all(advanced, before.next_id, settings, kinds@.take(i as int), previous_cell, current_cell),
                decreases kinds.len() - i,
            {
                let kind = kinds[i];
                let region = match kind {
                    AnimationKind::CursorSmoothMovement => cursor_animation_region(previous_cell),
                    AnimationKind::CursorGlow => cursor_animation_region(cursor_animation_region(current_cell)),
                    _ => cursor_animation_region(current_cell),
                };
                let duration: u64 = match kind {
                    AnimationKind::CursorSmoothMovement => 120_000_000,
                    AnimationKind::CursorTypingPulse => 140_000_000,
                    AnimationKind::CursorTypingStretch => 100_000_000,
                    AnimationKind::CursorGlow => 160_000_000,
                    AnimationKind::CursorBlinkEasing => 120_000_000,
                    _ => 0,
                };
                proof {
                    assert(kinds@.take(i + 1).drop_last() =~= kinds@.take(i as int));
                    assert(kinds@.take(i + 1).last() == kind);
                }
                push_cursor_animation(&mut self.active, &mut self.next_id, settings, kind, region, duration);
                i = i + 1;
            }
            proof {
                assert(kinds@.take(kinds.len() as int) =~= kinds@);
            }
        }
        proof {
            assert(before == *old(self));
            assert((self.active@, self.next_id) == stepped_animations(before, *old(scene), *geometry, now, settings));
        }
        self.previous_cursor = scene.cursor;
        self.typing_requested = false;
        let ghost start_regions = scene.damage_regions@;
        let ghost start_animations = scene.animations@;
        let ghost done = *self;
        let mut j: usize = 0;
        while j < self.active.len()
            invariant
                j <= self.active.len(),
                scene.animations@ == start_animations + self.active@.take(j as int),
                scene.damage_regions@ == start_regions + self.active@.take(j as int).map_values(|a: AnimationHandle| a.affected_region),
                scene.grid == old(scene).grid,
                scene.content_offset == old(scene).content_offset,
                scene.cursor == old(scene).cursor,
                scene.selections == old(scene).selections,
                scene.search_highlights == old(scene).search_highlights,
                scene.semantic_overlays == old(scene).semantic_overlays,
                scene.decorations == old(scene).decorations,
                start_animations == old(scene).animations@,
                start_regions == old(scene).damage_regions@,
                *self == done,
            decreases self.active.len() - j,
        {
            let animation = self.active[j];
            scene.animations.push(animation);
            scene.damage_regions.push(animation.affected_region);
            proof {
                assert(self.active@.take(j + 1) =~= self.active@.take(j as int).push(animation));
                assert(self.active@.take(j + 1).map_values(|a: AnimationHandle| a.affected_region) =~= self.active@.take(
                    j as int,
                ).map_values(|a: AnimationHandle| a.affected_region).push(animation.affected_region));
            }
            j = j + 1;
        }
        proof {
            assert(self.active@.take(self.active.len() as int) =~= self.active@);
        }
    }
}


/// With the effects on and blink easing among them, a frame starts the blink
/// easing exactly when there was a cursor before and its visibility differs
/// from the current cursor's, whether it blinked on or off.
pub proof fn lemma_blink_easing_starts_on_any_flip(
    previous: Option<CursorVisual>,
    cursor: CursorVisual,
    previous_cell: RenderRect,
    current_cell: RenderRect,
    typing: bool,
    settings: CursorAnimationSettings,
)
    requires
        settings.enabled,
        settings.blink_easing,
        settings.max_active_animations > 0,
        settings.max_animated_region_pixels > 0,
    ensures
        cursor_animation_kinds_spec(previous, cursor, previous_cell, current_cell, typing, settings).contains(
            AnimationKind::CursorBlinkEasing,
        ) <==> (previous matches Some(p) && p.visible != cursor.visible),
{
    let kinds = cursor_animation_kinds_spec(previous, cursor, previous_cell, current_cell, typing, settings);
    let turned = previous matches Some(p) && p.visible != cursor.visible;
    let glide = (previous matches Some(p) && p.position != cursor.position) && settings.smooth_movement
        && !move_within_threshold(previous_cell, current_cell, current_cell.width, current_cell.height, settings.jump_threshold_cells);
    let e = Seq::<AnimationKind>::empty();
    let head = (if glide { seq![AnimationKind::CursorSmoothMovement] } else { e })
        + (if typing && settings.typing_pulse { seq![AnimationKind::CursorTypingPulse] } else { e })
        + (if typing && settings.typing_stretch { seq![AnimationKind::CursorTypingStretch] } else { e })
        + (if typing && settings.short_lived_glow { seq![AnimationKind::CursorGlow] } else { e });
    let tail = if settings.blink_easing && turned { seq![AnimationKind::CursorBlinkEasing] } else { e };
    assert(kinds == head + tail);
    assert forall|i: int| 0 <= i < head.len() implies head[i] != AnimationKind::CursorBlinkEasing by {}
    if turned {
        assert(kinds[head.len() as int] == AnimationKind::CursorBlinkEasing);
    } else {
        assert(kinds =~= head);
    }
}


/// Which cursor animations a frame starts: none while every effect is off;
/// otherwise the typing pulse, stretch and glow exactly when the user typed
/// with that effect on, and the glide exactly when smooth movement is on and
/// the cursor moved further than the jump threshold allows.
pub proof fn lemma_started_kinds(
    previous: Option<CursorVisual>,
    cursor: CursorVisual,
    previous_cell: RenderRect,
    current_cell: RenderRect,
    typing: bool,
    settings: CursorAnimationSettings,
)
    ensures
        !(settings.enabled && (settings.tilt || settings.smooth_movement || settings.typing_pulse || settings.typing_stretch
            || settings.trail || settings.blink_easing || settings.short_lived_glow || settings.shadow)
            && settings.max_active_animations > 0 && settings.max_animated_region_pixels > 0) ==> cursor_animation_kinds_spec(
            previous,
            cursor,
            previous_cell,
            current_cell,
            typing,
            settings,
        ).len() == 0,
        any_effect_on(settings) ==> {
            let kinds = cursor_animation_kinds_spec(previous, cursor, previous_cell, current_cell, typing, settings);
            &&& kinds.contains(AnimationKind::CursorTypingPulse) <==> typing && settings.typing_pulse
            &&& kinds.contains(AnimationKind::CursorTypingStretch) <==> typing && settings.typing_stretch
            &&& kinds.contains(AnimationKind::CursorGlow) <==> typing && settings.short_lived_glow
            &&& kinds.contains(AnimationKind::CursorSmoothMovement) <==> (previous matches Some(p) && p.position != cursor.position
                && settings.smooth_movement && !move_within_threshold(
                previous_cell,
                current_cell,
                current_cell.width,
                current_cell.height,
                settings.jump_threshold_cells,
            ))
        },
{
    let kinds = cursor_animation_kinds_spec(previous, cursor, previous_cell, current_cell, typing, settings);
    let moved = (previous matches Some(p) && p.position != cursor.position) && settings.smooth_movement
        && !move_within_threshold(previous_cell, current_cell, current_cell.width, current_cell.height, settings.jump_threshold_cells);
    let shown_change = previous matches Some(p) && p.visible != cursor.visible;
    let s0 = optional_kind(moved, AnimationKind::CursorSmoothMovement);
    let s1 = optional_kind(typing && settings.typing_pulse, AnimationKind::CursorTypingPulse);
    let s2 = optional_kind(typing && settings.typing_stretch, AnimationKind::CursorTypingStretch);
    let s3 = optional_kind(typing && settings.short_lived_glow, AnimationKind::CursorGlow);
    let s4 = optional_kind(settings.blink_easing && shown_change, AnimationKind::CursorBlinkEasing);
    if any_effect_on(settings) {
        assert(kinds =~= s0 + s1 + s2 + s3 + s4);
        let x0 = AnimationKind::CursorSmoothMovement;
        let x1 = AnimationKind::CursorTypingPulse;
        let x2 = AnimationKind::CursorTypingStretch;
        let x3 = AnimationKind::CursorGlow;
        lemma_kinds_contain(s0, s1, s2, s3, s4, x0);
        lemma_kinds_contain(s0, s1, s2, s3, s4, x1);
        lemma_kinds_contain(s0, s1, s2, s3, s4, x2);
        lemma_kinds_contain(s0, s1, s2, s3, s4, x3);
        lemma_optional_kind(moved, x0, x0);
        lemma_optional_kind(moved, x0, x1);
        lemma_optional_kind(moved, x0, x2);
        lemma_optional_kind(moved, x0, x3);
        lemma_optional_kind(typing && settings.typing_pulse, x1, x0);
        lemma_optional_kind(typing && settings.typing_pulse, x1, x1);
        lemma_optional_kind(typing && settings.typing_pulse, x1, x2);
        lemma_optional_kind(typing && settings.typing_pulse, x1, x3);
        lemma_optional_kind(typing && settings.typing_stretch, x2, x0);
        lemma_optional_kind(typing && settings.typing_stretch, x2, x1);
        lemma_optional_kind(typing && settings.typing_stretch, x2, x2);
        lemma_optional_kind(typing && settings.typing_stretch, x2, x3);
        lemma_optional_kind(typing && settings.short_lived_glow, x3, x0);
        lemma_optional_kind(typing && settings.short_lived_glow, x3, x1);
        lemma_optional_kind(typing && settings.short_lived_glow, x3, x2);
        lemma_optional_kind(typing && settings.short_lived_glow, x3, x3);
        lemma_optional_kind(settings.blink_easing && shown_change, AnimationKind::CursorBlinkEasing, x0);
        lemma_optional_kind(settings.blink_easing && shown_change, AnimationKind::CursorBlinkEasing, x1);
        lemma_optional_kind(settings.blink_easing && shown_change, AnimationKind::CursorBlinkEasing, x2);
        lemma_optional_kind(settings.blink_easing && shown_change, AnimationKind::CursorBlinkEasing, x3);
    }
}

/// `kind` alone when `on`, nothing otherwise.
pub open spec fn optional_kind(on: bool, kind: AnimationKind) -> Seq<AnimationKind> {
    if on { seq![kind] } else { Seq::empty() }
}

proof fn lemma_optional_kind(on: bool, kind: AnimationKind, x: AnimationKind)
    ensures
        optional_kind(on, kind).contains(x) <==> on && x == kind,
{
    if on && x == kind {
        assert(optional_kind(on, kind)[0] == x);
    }
}

proof fn lemma_kinds_contain(
    s0: Seq<AnimationKind>,
    s1: Seq<AnimationKind>,
    s2: Seq<AnimationKind>,
    s3: Seq<AnimationKind>,
    s4: Seq<AnimationKind>,
    x: AnimationKind,
)
    ensures
        (s0 + s1 + s2 + s3 + s4).contains(x) <==> s0.contains(x) || s1.contains(x) || s2.contains(x) || s3.contains(x)
            || s4.contains(x),
{
    lemma_concat_contains(s0, s1, x);
    lemma_concat_contains(s0 + s1, s2, x);
    lemma_concat_contains(s0 + s1 + s2, s3, x);
    lemma_concat_contains(s0 + s1 + s2 + s3, s4, x);
}

} // verus!
