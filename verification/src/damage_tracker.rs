//! Damage discovery: which parts of the surface a new scene changed since
//! the scene before it.
//!
//! Cell geometry comes from the font's cell metrics, which are fractional
//! (floating point in the desktop build), so the tracker asks a
//! [`CellGeometry`] where cells lie, and the damage it reports is stated over
//! the geometry's own answers; [`WholePixelCells`] is a geometry of cells of
//! whole pixels. Which cells, cursors, overlays, and animations changed, and
//! the regions reported for them, is proved here.

use vstd::prelude::*;
use crate::damage::{clamp_i32, ligature_context_columns, merge_regions, merged_regions, offset_region, offset_spec, LIGATURE_CONTEXT_CELLS};
use crate::render_core::{
    AnimationHandle, CellPosition, CursorVisual, DamageRegion, OverlayPrimitive, RenderCell,
    RenderCellStyle, RenderColor, RenderDecoration, RenderOffset, RenderRect, RenderScene, SelectionVisual,
};
use crate::text::str_eq;

verus! {

/// Where cells lie on the surface.
pub trait CellGeometry {
    /// The pixels of the cell at `position`, before the content offset.
    spec fn cell_region_spec(&self, position: CellPosition) -> DamageRegion;

    /// The width and height, in pixels, of a grid of `columns` by `rows` cells.
    spec fn grid_extent_spec(&self, columns: u16, rows: u16) -> (u32, u32);

    /// Whether cells have a size on both axes.
    spec fn sized_spec(&self) -> bool;

    /// The index of the cell holding the pixel `distance` pixels past the
    /// content origin, along the vertical axis or the horizontal one.
    spec fn cell_index_spec(&self, distance: i64, vertical: bool) -> i64;

    /// The band that an underline, or with `strikethrough` a strike line,
    /// covers in the cell whose pixels are `cell`.
    spec fn decoration_rect_spec(&self, cell: RenderRect, strikethrough: bool) -> RenderRect;

    fn cell_region(&self, position: CellPosition) -> (r: DamageRegion)
        ensures
            r == self.cell_region_spec(position),
    ;

    fn has_cell_size(&self) -> (r: bool)
        ensures
            r == self.sized_spec(),
    ;

    fn cell_index(&self, distance: i64, vertical: bool) -> (r: i64)
        ensures
            r == self.cell_index_spec(distance, vertical),
    ;

    fn decoration_rect(&self, cell: RenderRect, strikethrough: bool) -> (r: RenderRect)
        ensures
            r == self.decoration_rect_spec(cell, strikethrough),
    ;

    fn grid_extent(&self, columns: u16, rows: u16) -> (r: (u32, u32))
        ensures
            r == self.grid_extent_spec(columns, rows),
    ;
}

/// `v` held within `0..=i32::MAX`.
pub open spec fn held_i32(v: int) -> i32 {
    if v > i32::MAX {
        i32::MAX
    } else if v < 0 {
        0
    } else {
        v as i32
    }
}

/// `d` divided by a positive `a`, rounded down.
pub open spec fn floor_div(d: int, a: int) -> int {
    if d >= 0 {
        d / a
    } else {
        -((-d + a - 1) / a)
    }
}

/// Cells of a whole number of pixels, laid out from the origin: the cell in
/// column `c` and row `r` (rows above the first count as the first) starts at
/// `c * cell_width`, `r * cell_height`, each held at `i32::MAX`. Text
/// decorations are one pixel high: an underline on the cell's last row, a
/// strike line on its middle row.
#[derive(Debug, Clone, Copy, PartialEq, Eq)]
pub struct WholePixelCells {
    pub cell_width: u32,
    pub cell_height: u32,
}

impl CellGeometry for WholePixelCells {
    open spec fn cell_region_spec(&self, position: CellPosition) -> DamageRegion {
        let row: int = if position.row > 0 { position.row as int } else { 0 };
        RenderRect {
            x: held_i32(position.col * self.cell_width),
            y: held_i32(row * self.cell_height),
            width: self.cell_width,
            height: self.cell_height,
        }
    }

    open spec fn sized_spec(&self) -> bool {
        self.cell_width > 0 && self.cell_height > 0
    }

    open spec fn cell_index_spec(&self, distance: i64, vertical: bool) -> i64 {
        let advance: int = if vertical { self.cell_height as int } else { self.cell_width as int };
        if advance == 0 {
            0
        } else {
            floor_div(distance as int, advance) as i64
        }
    }

    open spec fn decoration_rect_spec(&self, cell: RenderRect, strikethrough: bool) -> RenderRect {
        let last: int = if cell.height > 0 { cell.height - 1 } else { 0 };
        let half: int = cell.height as int / 2;
        let row: int = if strikethrough { if half < last { half } else { last } } else { last };
        RenderRect { x: cell.x, y: clamp_i32(cell.y + row), width: cell.width, height: 1 }
    }

    open spec fn grid_extent_spec(&self, columns: u16, rows: u16) -> (u32, u32) {
        (held_u32(columns * self.cell_width) as u32, held_u32(rows * self.cell_height) as u32)
    }

    fn cell_region(&self, position: CellPosition) -> (r: DamageRegion) {
        assert((position.col as u64) * (self.cell_width as u64) <= u64::MAX) by (nonlinear_arith)
            requires
                position.col <= u16::MAX,
                self.cell_width <= u32::MAX,
        ;
        let x = (position.col as u64) * (self.cell_width as u64);
        let row: u128 = if position.row > 0 { position.row as u128 } else { 0 };
        assert(row * (self.cell_height as u128) <= u128::MAX) by (nonlinear_arith)
            requires
                row <= i64::MAX,
                self.cell_height <= u32::MAX,
        ;
        let y = row * (self.cell_height as u128);
        RenderRect {
            x: if x > i32::MAX as u64 { i32::MAX } else { x as i32 },
            y: if y > i32::MAX as u128 { i32::MAX } else { y as i32 },
            width: self.cell_width,
            height: self.cell_height,
        }
    }

    fn has_cell_size(&self) -> (r: bool) {
        self.cell_width > 0 && self.cell_height > 0
    }

    fn cell_index(&self, distance: i64, vertical: bool) -> (r: i64) {
        let advance: i128 = if vertical { self.cell_height as i128 } else { self.cell_width as i128 };
        if advance == 0 {
            return 0;
        }
        let d = distance as i128;
        proof {
            let di = d as int;
            let ai = advance as int;
            if di >= 0 {
                assert(di / ai <= di) by (nonlinear_arith)
                    requires
                        di >= 0,
                        ai >= 1,
                ;
            } else {
                assert((-di + ai - 1) / ai <= -di) by (nonlinear_arith)
                    requires
                        di < 0,
                        ai >= 1,
                ;
            }
        }
        let q: i128 = if d >= 0 { d / advance } else { -((-d + advance - 1) / advance) };
        q as i64
    }

    fn decoration_rect(&self, cell: RenderRect, strikethrough: bool) -> (r: RenderRect) {
        let last: u32 = if cell.height > 0 { cell.height - 1 } else { 0 };
        let row: u32 = if strikethrough { if cell.height / 2 < last { cell.height / 2 } else { last } } else { last };
        let y: i64 = cell.y as i64 + row as i64;
        RenderRect { x: cell.x, y: if y > i32::MAX as i64 { i32::MAX } else { y as i32 }, width: cell.width, height: 1 }
    }

    fn grid_extent(&self, columns: u16, rows: u16) -> (r: (u32, u32)) {
        assert((columns as u64) * (self.cell_width as u64) <= u64::MAX) by (nonlinear_arith)
            requires
                columns <= u16::MAX,
                self.cell_width <= u32::MAX,
        ;
        assert((rows as u64) * (self.cell_height as u64) <= u64::MAX) by (nonlinear_arith)
            requires
                rows <= u16::MAX,
                self.cell_height <= u32::MAX,
        ;
        let width = (columns as u64) * (self.cell_width as u64);
        let height = (rows as u64) * (self.cell_height as u64);
        (
            if width > u32::MAX as u64 { u32::MAX } else { width as u32 },
            if height > u32::MAX as u64 { u32::MAX } else { height as u32 },
        )
    }
}

/// What a cell showed: enough to tell whether it must be drawn again.
#[derive(Debug)]
pub struct CellFingerprint {
    pub text: String,
    pub foreground: RenderColor,
    pub background: RenderColor,
    pub style: RenderCellStyle,
}

/// The fingerprint shows what `cell` shows.
pub open spec fn fingerprint_matches(fingerprint: CellFingerprint, cell: RenderCell) -> bool {
    &&& fingerprint.text@ == cell.text@
    &&& fingerprint.foreground == cell.foreground
    &&& fingerprint.background == cell.background
    &&& fingerprint.style == cell.style
}

impl CellFingerprint {
    /// The fingerprint of a cell.
    pub fn of(cell: &RenderCell) -> (r: CellFingerprint)
        ensures
            fingerprint_matches(r, *cell),
    {
        CellFingerprint {
            text: cell.text.clone(),
            foreground: cell.foreground,
            background: cell.background,
            style: cell.style,
        }
    }

    /// Whether `cell` still shows what the fingerprint recorded.
    pub fn matches(&self, cell: &RenderCell) -> (r: bool)
        ensures
            r == fingerprint_matches(*self, *cell),
    {
        str_eq(self.text.as_str(), cell.text.as_str()) && self.foreground == cell.foreground
            && self.background == cell.background && self.style == cell.style
    }
}

/// Two optional labels read the same.
pub open spec fn same_label(a: Option<String>, b: Option<String>) -> bool {
    match (a, b) {
        (Some(x), Some(y)) => x@ == y@,
        (None, None) => true,
        _ => false,
    }
}

/// Two overlays look the same.
pub open spec fn same_overlay(a: OverlayPrimitive, b: OverlayPrimitive) -> bool {
    &&& a.kind == b.kind
    &&& a.bounds == b.bounds
    &&& a.color == b.color
    &&& a.border_color == b.border_color
    &&& a.corner_radius_px == b.corner_radius_px
    &&& a.z_index == b.z_index
    &&& same_label(a.label, b.label)
}

/// Two overlay lists look the same, overlay by overlay.
pub open spec fn same_overlays(a: Seq<OverlayPrimitive>, b: Seq<OverlayPrimitive>) -> bool {
    &&& a.len() == b.len()
    &&& forall|i: int| 0 <= i < a.len() ==> #[trigger] same_overlay(a[i], b[i])
}

/// Two decoration lists look the same.
pub open spec fn same_decorations(a: Seq<RenderDecoration>, b: Seq<RenderDecoration>) -> bool {
    &&& a.len() == b.len()
    &&& forall|i: int| 0 <= i < a.len() ==> (#[trigger] a[i]).bounds == b[i].bounds && a[i].color == b[i].color
        && a[i].border_color == b[i].border_color
}

/// Two selection lists look the same.
pub open spec fn same_selections(a: Seq<SelectionVisual>, b: Seq<SelectionVisual>) -> bool {
    &&& a.len() == b.len()
    &&& forall|i: int| 0 <= i < a.len() ==> (#[trigger] a[i]).cells@ == b[i].cells@ && a[i].color == b[i].color
}

fn labels_equal(a: &Option<String>, b: &Option<String>) -> (r: bool)
    ensures
        r == same_label(*a, *b),
{
    match (a, b) {
        (Some(x), Some(y)) => str_eq(x.as_str(), y.as_str()),
        (None, None) => true,
        _ => false,
    }
}

fn colors_equal(a: &Option<RenderColor>, b: &Option<RenderColor>) -> (r: bool)
    ensures
        r == (*a == *b),
{
    match (a, b) {
        (Some(x), Some(y)) => *x == *y,
        (None, None) => true,
        _ => false,
    }
}

fn overlays_equal(a: &Vec<OverlayPrimitive>, b: &Vec<OverlayPrimitive>) -> (r: bool)
    ensures
        r == same_overlays(a@, b@),
{
    if a.len() != b.len() {
        return false;
    }
    let mut i: usize = 0;
    while i < a.len()
        invariant
            0 <= i <= a.len(),
            a.len() == b.len(),
            forall|k: int| 0 <= k < i ==> #[trigger] same_overlay(a@[k], b@[k]),
        decreases a.len() - i,
    {
        let x = &a[i];
        let y = &b[i];
        if !(x.kind == y.kind && x.bounds == y.bounds && x.color == y.color
            && colors_equal(&x.border_color, &y.border_color) && x.corner_radius_px == y.corner_radius_px
            && x.z_index == y.z_index && labels_equal(&x.label, &y.label)) {
            proof {
                assert(!same_overlay(a@[i as int], b@[i as int]));
            }
            return false;
        }
        i = i + 1;
    }
    true
}

fn decorations_equal(a: &Vec<RenderDecoration>, b: &Vec<RenderDecoration>) -> (r: bool)
    ensures
        r == same_decorations(a@, b@),
{
    if a.len() != b.len() {
        return false;
    }
    let mut i: usize = 0;
    while i < a.len()
        invariant
            0 <= i <= a.len(),
            a.len() == b.len(),
            forall|k: int| 0 <= k < i ==> (#[trigger] a@[k]).bounds == b@[k].bounds && a@[k].color == b@[k].color
                && a@[k].border_color == b@[k].border_color,
        decreases a.len() - i,
    {
        if !(a[i].bounds == b[i].bounds && a[i].color == b[i].color
            && colors_equal(&a[i].border_color, &b[i].border_color)) {
            return false;
        }
        i = i + 1;
    }
    true
}

fn positions_equal(a: &Vec<CellPosition>, b: &Vec<CellPosition>) -> (r: bool)
    ensures
        r == (a@ == b@),
{
    if a.len() != b.len() {
        return false;
    }
    let mut i: usize = 0;
    while i < a.len()
        invariant
            0 <= i <= a.len(),
            a.len() == b.len(),
            forall|k: int| 0 <= k < i ==> a@[k] == b@[k],
        decreases a.len() - i,
    {
        if a[i] != b[i] {
            return false;
        }
        i = i + 1;
    }
    proof {
        assert(a@ =~= b@);
    }
    true
}

fn selections_equal(a: &Vec<SelectionVisual>, b: &Vec<SelectionVisual>) -> (r: bool)
    ensures
        r == same_selections(a@, b@),
{
    if a.len() != b.len() {
        return false;
    }
    let mut i: usize = 0;
    while i < a.len()
        invariant
            0 <= i <= a.len(),
            a.len() == b.len(),
            forall|k: int| 0 <= k < i ==> (#[trigger] a@[k]).cells@ == b@[k].cells@ && a@[k].color == b@[k].color,
        decreases a.len() - i,
    {
        if !(positions_equal(&a[i].cells, &b[i].cells) && a[i].color == b[i].color) {
            return false;
        }
        i = i + 1;
    }
    true
}

fn animations_equal(a: &Vec<AnimationHandle>, b: &Vec<AnimationHandle>) -> (r: bool)
    ensures
        r == (a@ == b@),
{
    if a.len() != b.len() {
        return false;
    }
    let mut i: usize = 0;
    while i < a.len()
        invariant
            0 <= i <= a.len(),
            a.len() == b.len(),
            forall|k: int| 0 <= k < i ==> a@[k] == b@[k],
        decreases a.len() - i,
    {
        if a[i] != b[i] {
            return false;
        }
        i = i + 1;
    }
    proof {
        assert(a@ =~= b@);
    }
    true
}

fn cursors_equal(a: &Option<CursorVisual>, b: &Option<CursorVisual>) -> (r: bool)
    ensures
        r == (*a == *b),
{
    match (a, b) {
        (Some(x), Some(y)) => *x == *y,
        (None, None) => true,
        _ => false,
    }
}

fn copy_label(label: &Option<String>) -> (r: Option<String>)
    ensures
        r == *label,
{
    match label {
        Some(text) => Some(text.clone()),
        None => None,
    }
}

fn copy_overlays(overlays: &Vec<OverlayPrimitive>) -> (r: Vec<OverlayPrimitive>)
    ensures
        r@ == overlays@,
{
    let mut copies: Vec<OverlayPrimitive> = Vec::new();
    let mut i: usize = 0;
    while i < overlays.len()
        invariant
            0 <= i <= overlays.len(),
            copies@ == overlays@.take(i as int),
        decreases overlays.len() - i,
    {
        let overlay = &overlays[i];
        copies.push(OverlayPrimitive {
            kind: overlay.kind,
            bounds: overlay.bounds,
            color: overlay.color,
            border_color: overlay.border_color,
            corner_radius_px: overlay.corner_radius_px,
            z_index: overlay.z_index,
            label: copy_label(&overlay.label),
        });
        i = i + 1;
        proof {
            assert(copies@ =~= overlays@.take(i as int));
        }
    }
    proof {
        assert(overlays@.take(i as int) =~= overlays@);
    }
    copies
}

fn copy_decorations(decorations: &Vec<RenderDecoration>) -> (r: Vec<RenderDecoration>)
    ensures
        r@ == decorations@,
{
    let mut copies: Vec<RenderDecoration> = Vec::new();
    let mut i: usize = 0;
    while i < decorations.len()
        invariant
            0 <= i <= decorations.len(),
            copies@ == decorations@.take(i as int),
        decreases decorations.len() - i,
    {
        let decoration = &decorations[i];
        copies.push(RenderDecoration {
            bounds: decoration.bounds,
            color: decoration.color,
            border_color: decoration.border_color,
        });
        i = i + 1;
        proof {
            assert(copies@ =~= decorations@.take(i as int));
        }
    }
    proof {
        assert(decorations@.take(i as int) =~= decorations@);
    }
    copies
}

fn copy_positions(positions: &Vec<CellPosition>) -> (r: Vec<CellPosition>)
    ensures
        r@ == positions@,
{
    let mut copies: Vec<CellPosition> = Vec::new();
    let mut i: usize = 0;
    while i < positions.len()
        invariant
            0 <= i <= positions.len(),
            copies@ == positions@.take(i as int),
        decreases positions.len() - i,
    {
        copies.push(positions[i]);
        i = i + 1;
        proof {
            assert(copies@ =~= positions@.take(i as int));
        }
    }
    proof {
        assert(positions@.take(i as int) =~= positions@);
    }
    copies
}

fn copy_selections(selections: &Vec<SelectionVisual>) -> (r: Vec<SelectionVisual>)
    ensures
        same_selections(r@, selections@),
{
    let mut copies: Vec<SelectionVisual> = Vec::new();
    let mut i: usize = 0;
    while i < selections.len()
        invariant
            0 <= i <= selections.len(),
            copies.len() == i,
            forall|k: int| 0 <= k < i ==> (#[trigger] copies@[k]).cells@ == selections@[k].cells@
                && copies@[k].color == selections@[k].color,
        decreases selections.len() - i,
    {
        copies.push(SelectionVisual { cells: copy_positions(&selections[i].cells), color: selections[i].color });
        i = i + 1;
    }
    copies
}

fn copy_animations(animations: &Vec<AnimationHandle>) -> (r: Vec<AnimationHandle>)
    ensures
        r@ == animations@,
{
    let mut copies: Vec<AnimationHandle> = Vec::new();
    let mut i: usize = 0;
    while i < animations.len()
        invariant
            0 <= i <= animations.len(),
            copies@ == animations@.take(i as int),
        decreases animations.len() - i,
    {
        copies.push(animations[i]);
        i = i + 1;
        proof {
            assert(copies@ =~= animations@.take(i as int));
        }
    }
    proof {
        assert(animations@.take(i as int) =~= animations@);
    }
    copies
}

/// No two cells of the grid share a position.
pub open spec fn positions_distinct(cells: Seq<RenderCell>) -> bool {
    forall|i: int, j: int| 0 <= i < j < cells.len() ==> cells[i].position != cells[j].position
}

/// Some cell sits at `position`.
pub open spec fn position_in(cells: Seq<RenderCell>, position: CellPosition) -> bool {
    exists|c: int| 0 <= c < cells.len() && cells[c].position == position
}

/// A fingerprint at the position of `cell` matches it.
pub open spec fn entry_for(entries: Seq<(CellPosition, CellFingerprint)>, cell: RenderCell) -> bool {
    exists|k: int| 0 <= k < entries.len() && entries[k].0 == cell.position && fingerprint_matches(entries[k].1, cell)
}

/// The fingerprint `entry`, with its position, is remembered.
pub open spec fn has_entry(entries: Seq<(CellPosition, CellFingerprint)>, entry: (CellPosition, CellFingerprint)) -> bool {
    exists|k: int| 0 <= k < entries.len() && entries[k] == entry
}

/// No two fingerprints share a position.
pub open spec fn entries_distinct(entries: Seq<(CellPosition, CellFingerprint)>) -> bool {
    forall|i: int, j: int| 0 <= i < j < entries.len() ==> entries[i].0 != entries[j].0
}

/// The remembered fingerprints are exactly the cells': one per position,
/// each matching the cell there.
pub open spec fn cells_remembered(entries: Seq<(CellPosition, CellFingerprint)>, cells: Seq<RenderCell>) -> bool {
    &&& entries_distinct(entries)
    &&& forall|k: int| 0 <= k < entries.len() ==> #[trigger] position_in(cells, entries[k].0)
    &&& forall|c: int| 0 <= c < cells.len() ==> #[trigger] entry_for(entries, cells[c])
}

/// A merge of no regions is no region.
proof fn lemma_merge_nothing()
    ensures
        merged_regions(Seq::<DamageRegion>::empty()).len() == 0,
{
    reveal_with_fuel(Seq::filter, 1);
    let empty = Seq::<DamageRegion>::empty();
    assert(crate::damage::with_area(empty) =~= empty);
}

#[derive(Debug)]
pub struct DamageTracker {
    previous_cells: Vec<(CellPosition, CellFingerprint)>,
    previous_cursor: Option<CursorVisual>,
    previous_size: Option<(u16, u16)>,
    previous_offset: RenderOffset,
    previous_visuals: Vec<DamageRegion>,
    previous_search_highlights: Vec<OverlayPrimitive>,
    previous_semantic_overlays: Vec<OverlayPrimitive>,
    previous_decorations: Vec<RenderDecoration>,
    previous_selections: Vec<SelectionVisual>,
    previous_animations: Vec<AnimationHandle>,
    force_full: bool,
}

/// The pixels of the cell at `position`, shifted by the content offset.
pub(crate) fn cell_region_at<G: CellGeometry>(position: CellPosition, geometry: &G, offset: RenderOffset) -> (r: DamageRegion)
    ensures
        r == cell_damage(*geometry, position, offset),
{
    let cell = geometry.cell_region(position);
    offset_region(cell, offset)
}

/// The pixels of the cell at `position`, shifted by the content offset.
pub open spec fn cell_damage<G: CellGeometry>(geometry: G, position: CellPosition, offset: RenderOffset) -> DamageRegion {
    offset_spec(geometry.cell_region_spec(position), offset)
}

/// The cells of the row of `position` that a ligature through it may touch,
/// in a grid of `columns`: two columns on each side, clipped to the grid.
pub open spec fn context_damage<G: CellGeometry>(geometry: G, position: CellPosition, columns: u16, offset: RenderOffset) -> Seq<DamageRegion> {
    let col = position.col;
    let start: int = if col >= LIGATURE_CONTEXT_CELLS { col - LIGATURE_CONTEXT_CELLS } else { 0 };
    let reach: int = if col + LIGATURE_CONTEXT_CELLS > u16::MAX { u16::MAX as int } else { col + LIGATURE_CONTEXT_CELLS };
    let end: int = if reach <= columns - 1 { reach } else { columns - 1 };
    if columns == 0 || start > end {
        Seq::empty()
    } else {
        Seq::new((end - start + 1) as nat, |k: int| cell_damage(geometry, CellPosition { row: position.row, col: (start + k) as u16 }, offset))
    }
}

/// Damages the cells of the row of `position` that a ligature through it
/// may touch.
fn push_text_damage_context<G: CellGeometry>(
    regions: &mut Vec<DamageRegion>,
    position: CellPosition,
    columns: u16,
    geometry: &G,
    offset: RenderOffset,
)
    ensures
        final(regions)@ == old(regions)@ + context_damage(*geometry, position, columns, offset),
{
    match ligature_context_columns(position.col, columns) {
        Some((start, end)) => {
            let mut col = start;
            while col <= end
                invariant
                    start <= col,
                    col <= end + 1 || col == start,
                    end < u16::MAX,
                    columns > 0,
                    start == (if position.col >= LIGATURE_CONTEXT_CELLS { position.col - LIGATURE_CONTEXT_CELLS } else { 0 }),
                    end == ({
                        let reach: int = if position.col + LIGATURE_CONTEXT_CELLS > u16::MAX { u16::MAX as int } else { position.col + LIGATURE_CONTEXT_CELLS };
                        if reach <= columns - 1 { reach } else { columns - 1 }
                    }),
                    regions@ == old(regions)@ + Seq::new((col - start) as nat, |k: int| cell_damage(*geometry, CellPosition { row: position.row, col: (start + k) as u16 }, offset)),
                decreases end - col + 1,
            {
                let ghost before = regions@;
                regions.push(cell_region_at(CellPosition { row: position.row, col }, geometry, offset));
                col = col + 1;
                proof {
                    assert(regions@ =~= old(regions)@ + Seq::new((col - start) as nat, |k: int| cell_damage(*geometry, CellPosition { row: position.row, col: (start + k) as u16 }, offset)));
                }
            }
            proof {
                if start <= end {
                    assert(regions@ =~= old(regions)@ + context_damage(*geometry, position, columns, offset));
                } else {
                    assert(regions@ =~= old(regions)@ + context_damage(*geometry, position, columns, offset));
                }
            }
        },
        None => {
            proof {
                assert(old(regions)@ + context_damage(*geometry, position, columns, offset) =~= old(regions)@);
            }
        },
    }
}

/// `v` held at `u32::MAX`.
pub open spec fn held_u32(v: int) -> int {
    if v > u32::MAX {
        u32::MAX as int
    } else {
        v
    }
}

/// The region of the whole content: from the origin, a grid of `width` by
/// `height` pixels widened by twice the content offset, where it is
/// positive, on each axis; each size held at `u32::MAX`.
pub open spec fn content_region(width: u32, height: u32, offset: RenderOffset) -> DamageRegion {
    let margin_x: int = if offset.x > 0 { 2 * offset.x } else { 0 };
    let margin_y: int = if offset.y > 0 { 2 * offset.y } else { 0 };
    RenderRect { x: 0, y: 0, width: held_u32(width + margin_x) as u32, height: held_u32(height + margin_y) as u32 }
}

/// The region of the whole content of `scene`.
pub open spec fn scene_content_region<G: CellGeometry>(geometry: G, scene: RenderScene) -> DamageRegion {
    let extent = geometry.grid_extent_spec(scene.grid.columns, scene.grid.rows);
    content_region(extent.0, extent.1, scene.content_offset)
}

/// The whole content: the grid from the origin, widened by the content
/// offset on both sides.
fn scene_grid_region<G: CellGeometry>(scene: &RenderScene, geometry: &G) -> (r: DamageRegion)
    ensures
        r == scene_content_region(*geometry, *scene),
{
    let (width, height) = geometry.grid_extent(scene.grid.columns, scene.grid.rows);
    let margin_x: u32 = if scene.content_offset.x > 0 { scene.content_offset.x as u32 * 2 } else { 0 };
    let margin_y: u32 = if scene.content_offset.y > 0 { scene.content_offset.y as u32 * 2 } else { 0 };
    let region = RenderRect { x: 0, y: 0, width: width.saturating_add(margin_x), height: height.saturating_add(margin_y) };
    proof {
        assert(region == content_region(width, height, scene.content_offset));
    }
    region
}

/// The regions a frame redraws: the scene's own damage, merged, or the whole
/// content when the scene names none.
pub fn effective_damage_regions<G: CellGeometry>(scene: &RenderScene, geometry: &G) -> (r: Vec<DamageRegion>)
    ensures
        scene.damage_regions.len() == 0 ==> r.len() == 1 && r@[0] == scene_content_region(*geometry, *scene),
        scene.damage_regions.len() > 0 ==> r@ == merged_regions(scene.damage_regions@),
{
    if scene.damage_regions.len() == 0 {
        return vec![scene_grid_region(scene, geometry)];
    }
    let mut regions: Vec<DamageRegion> = Vec::new();
    push_regions(&mut regions, &scene.damage_regions);
    proof {
        assert(regions@ =~= scene.damage_regions@);
    }
    merge_regions(regions)
}

/// The overlays' bounds, shifted by the content offset.
pub open spec fn overlay_damage(overlays: Seq<OverlayPrimitive>, offset: RenderOffset) -> Seq<DamageRegion> {
    overlays.map_values(|o: OverlayPrimitive| offset_spec(o.bounds, offset))
}

/// The decorations' bounds, shifted by the content offset.
pub open spec fn decoration_damage(decorations: Seq<RenderDecoration>, offset: RenderOffset) -> Seq<DamageRegion> {
    decorations.map_values(|d: RenderDecoration| offset_spec(d.bounds, offset))
}

/// The regions of overlays and decorations, which the cell geometry does not
/// enter: search highlights, then semantic overlays, then decorations.
pub open spec fn fixed_visual_damage(scene: RenderScene) -> Seq<DamageRegion> {
    overlay_damage(scene.search_highlights@, scene.content_offset) + overlay_damage(
        scene.semantic_overlays@,
        scene.content_offset,
    ) + decoration_damage(scene.decorations@, scene.content_offset)
}

/// Appends `overlays`' bounds, shifted by `offset`.
fn push_overlay_regions(regions: &mut Vec<DamageRegion>, overlays: &Vec<OverlayPrimitive>, offset: RenderOffset)
    ensures
        final(regions)@ == old(regions)@ + overlay_damage(overlays@, offset),
{
    let mut i: usize = 0;
    while i < overlays.len()
        invariant
            0 <= i <= overlays.len(),
            regions@ == old(regions)@ + overlay_damage(overlays@.take(i as int), offset),
        decreases overlays.len() - i,
    {
        regions.push(offset_region(overlays[i].bounds, offset));
        i = i + 1;
        proof {
            assert(overlay_damage(overlays@.take(i as int), offset) =~= overlay_damage(overlays@.take(i - 1), offset).push(
                offset_spec(overlays@[i - 1].bounds, offset),
            ));
        }
    }
    proof {
        assert(overlays@.take(i as int) =~= overlays@);
    }
}

/// The cells of the selections, selection by selection, shifted by the
/// content offset.
pub open spec fn selection_damage<G: CellGeometry>(geometry: G, selections: Seq<SelectionVisual>, offset: RenderOffset) -> Seq<DamageRegion>
    decreases selections.len(),
{
    if selections.len() == 0 {
        Seq::empty()
    } else {
        selection_damage(geometry, selections.drop_last(), offset) + selections.last().cells@.map_values(
            |p: CellPosition| cell_damage(geometry, p, offset),
        )
    }
}

/// The regions that overlays, decorations, and selections of `scene` cover.
pub open spec fn static_damage<G: CellGeometry>(geometry: G, scene: RenderScene) -> Seq<DamageRegion> {
    fixed_visual_damage(scene) + selection_damage(geometry, scene.selections@, scene.content_offset)
}

/// The regions that overlays, decorations, and selections cover: the
/// overlays' and decorations' bounds shifted by the content offset, then,
/// selection by selection, each selected cell's region.
fn static_visual_regions<G: CellGeometry>(scene: &RenderScene, geometry: &G) -> (r: Vec<DamageRegion>)
    ensures
        r@ == static_damage(*geometry, *scene),
{
    let offset = scene.content_offset;
    let mut regions: Vec<DamageRegion> = Vec::new();
    push_overlay_regions(&mut regions, &scene.search_highlights, offset);
    push_overlay_regions(&mut regions, &scene.semantic_overlays, offset);
    let mut i: usize = 0;
    while i < scene.decorations.len()
        invariant
            0 <= i <= scene.decorations.len(),
            offset == scene.content_offset,
            regions@ == overlay_damage(scene.search_highlights@, offset) + overlay_damage(scene.semantic_overlays@, offset)
                + decoration_damage(scene.decorations@.take(i as int), offset),
        decreases scene.decorations.len() - i,
    {
        regions.push(offset_region(scene.decorations[i].bounds, offset));
        i = i + 1;
        proof {
            assert(decoration_damage(scene.decorations@.take(i as int), offset) =~= decoration_damage(
                scene.decorations@.take(i - 1),
                offset,
            ).push(offset_spec(scene.decorations@[i - 1].bounds, offset)));
        }
    }
    proof {
        assert(scene.decorations@.take(i as int) =~= scene.decorations@);
        assert(regions@ =~= fixed_visual_damage(*scene));
    }
    let ghost fixed = regions@;
    let mut i: usize = 0;
    while i < scene.selections.len()
        invariant
            0 <= i <= scene.selections.len(),
            offset == scene.content_offset,
            fixed == fixed_visual_damage(*scene),
            regions@ == fixed + selection_damage(*geometry, scene.selections@.take(i as int), offset),
        decreases scene.selections.len() - i,
    {
        let cells = &scene.selections[i].cells;
        let ghost start = regions@;
        let mut j: usize = 0;
        while j < cells.len()
            invariant
                0 <= j <= cells.len(),
                regions@ == start + cells@.take(j as int).map_values(|p: CellPosition| cell_damage(*geometry, p, offset)),
            decreases cells.len() - j,
        {
            let region = cell_region_at(cells[j], geometry, offset);
            regions.push(region);
            j = j + 1;
            proof {
                assert(regions@ =~= start + cells@.take(j as int).map_values(|p: CellPosition| cell_damage(*geometry, p, offset)));
            }
        }
        proof {
            assert(cells@.take(j as int) =~= cells@);
            assert(scene.selections@.take(i + 1).drop_last() =~= scene.selections@.take(i as int));
            assert(scene.selections@.take(i + 1).last() == scene.selections@[i as int]);
            assert(regions@ =~= fixed + selection_damage(*geometry, scene.selections@.take(i + 1), offset));
        }
        i = i + 1;
    }
    proof {
        assert(scene.selections@.take(i as int) =~= scene.selections@);
    }
    regions
}

/// The regions that animations touch, shifted by the content offset.
pub open spec fn animation_damage(animations: Seq<AnimationHandle>, offset: RenderOffset) -> Seq<DamageRegion> {
    animations.map_values(|a: AnimationHandle| offset_spec(a.affected_region, offset))
}

/// Appends the regions that animations touch, shifted by the content offset.
fn push_animation_regions(regions: &mut Vec<DamageRegion>, animations: &Vec<AnimationHandle>, offset: RenderOffset)
    ensures
        final(regions)@ == old(regions)@ + animation_damage(animations@, offset),
{
    let mut i: usize = 0;
    while i < animations.len()
        invariant
            0 <= i <= animations.len(),
            regions@ == old(regions)@ + animation_damage(animations@.take(i as int), offset),
        decreases animations.len() - i,
    {
        regions.push(offset_region(animations[i].affected_region, offset));
        i = i + 1;
        proof {
            assert(animation_damage(animations@.take(i as int), offset) =~= animation_damage(
                animations@.take(i - 1),
                offset,
            ).push(offset_spec(animations@[i - 1].affected_region, offset)));
        }
    }
    proof {
        assert(animations@.take(i as int) =~= animations@);
    }
}

/// Appends `extra` to `regions`.
fn push_regions(regions: &mut Vec<DamageRegion>, extra: &Vec<DamageRegion>)
    ensures
        final(regions)@ == old(regions)@ + extra@,
{
    let mut i: usize = 0;
    while i < extra.len()
        invariant
            0 <= i <= extra.len(),
            regions@ == old(regions)@ + extra@.take(i as int),
        decreases extra.len() - i,
    {
        regions.push(extra[i]);
        i = i + 1;
        proof {
            assert(extra@.take(i as int) =~= extra@.take(i - 1).push(extra@[i - 1]));
        }
    }
    proof {
        assert(extra@.take(i as int) =~= extra@);
    }
}

/// Whether some cell sits at `position`; `hint` is where it most likely
/// sits.
fn position_present(cells: &Vec<RenderCell>, position: CellPosition, hint: usize) -> (r: bool)
    ensures
        r == position_in(cells@, position),
{
    if hint < cells.len() && cells[hint].position == position {
        return true;
    }
    let mut c: usize = 0;
    while c < cells.len()
        invariant
            0 <= c <= cells.len(),
            forall|j: int| 0 <= j < c ==> cells@[j].position != position,
        decreases cells.len() - c,
    {
        if cells[c].position == position {
            return true;
        }
        c = c + 1;
    }
    false
}

/// The position of the fingerprint for `position`, trying `hint` first.
fn find_entry_near(entries: &Vec<(CellPosition, CellFingerprint)>, position: CellPosition, hint: usize) -> (r: Option<
    usize,
>)
    ensures
        match r {
            Some(k) => k < entries.len() && entries@[k as int].0 == position,
            None => forall|k: int| 0 <= k < entries.len() ==> entries@[k].0 != position,
        },
{
    if hint < entries.len() && entries[hint].0 == position {
        return Some(hint);
    }
    find_entry(entries, position)
}

/// The fingerprints of the cells, one per position; a later cell at a
/// position replaces an earlier one.
fn fingerprints_of(cells: &Vec<RenderCell>) -> (r: Vec<(CellPosition, CellFingerprint)>)
    ensures
        entries_distinct(r@),
        positions_distinct(cells@) ==> cells_remembered(r@, cells@),
{
    let mut entries: Vec<(CellPosition, CellFingerprint)> = Vec::new();
    let mut i: usize = 0;
    while i < cells.len()
        invariant
            0 <= i <= cells.len(),
            entries_distinct(entries@),
            forall|k: int| 0 <= k < entries.len() ==> #[trigger] position_in(cells@, entries@[k].0),
            positions_distinct(cells@) ==> forall|c: int| 0 <= c < i ==> #[trigger] entry_for(entries@, cells@[c]),
        decreases cells.len() - i,
    {
        let ghost before = entries@;
        let cell = &cells[i];
        remember_cell(&mut entries, cell);
        proof {
            assert forall|k: int| 0 <= k < entries.len() implies #[trigger] position_in(cells@, entries@[k].0) by {
                if entries@[k].0 == cell.position {
                    assert(cells@[i as int].position == entries@[k].0);
                } else {
                    assert(has_entry(before, entries@[k]));
                    let j = choose|j: int| 0 <= j < before.len() && before[j] == entries@[k];
                    assert(position_in(cells@, before[j].0));
                }
            }
            if positions_distinct(cells@) {
                assert forall|c: int| 0 <= c < i + 1 implies #[trigger] entry_for(entries@, cells@[c]) by {
                    if c < i {
                        assert(cells@[c].position != cells@[i as int].position);
                        assert(entry_for(before, cells@[c]));
                        let j = choose|j: int| 0 <= j < before.len() && before[j].0 == cells@[c].position
                            && fingerprint_matches(before[j].1, cells@[c]);
                        assert(has_entry(entries@, before[j]));
                        let m = choose|m: int| 0 <= m < entries.len() && entries@[m] == before[j];
                        assert(entries@[m].0 == cells@[c].position);
                    }
                }
            }
        }
        i = i + 1;
    }
    proof {
        if positions_distinct(cells@) {
            assert forall|c: int| 0 <= c < cells.len() implies #[trigger] entry_for(entries@, cells@[c]) by {
                assert(c < i);
            }
        }
    }
    entries
}

/// The position of the fingerprint for `position`.
fn find_entry(entries: &Vec<(CellPosition, CellFingerprint)>, position: CellPosition) -> (r: Option<usize>)
    ensures
        match r {
            Some(k) => k < entries.len() && entries@[k as int].0 == position,
            None => forall|k: int| 0 <= k < entries.len() ==> entries@[k].0 != position,
        },
{
    let mut k: usize = 0;
    while k < entries.len()
        invariant
            0 <= k <= entries.len(),
            forall|j: int| 0 <= j < k ==> entries@[j].0 != position,
        decreases entries.len() - k,
    {
        if entries[k].0 == position {
            return Some(k);
        }
        k = k + 1;
    }
    None
}

/// Records the fingerprint of `cell`, replacing the one for its position.
fn remember_cell(entries: &mut Vec<(CellPosition, CellFingerprint)>, cell: &RenderCell)
    requires
        entries_distinct(old(entries)@),
    ensures
        entries_distinct(final(entries)@),
        entry_for(final(entries)@, *cell),
        forall|k: int| 0 <= k < final(entries).len() && final(entries)@[k].0 != cell.position ==>
            #[trigger] has_entry(old(entries)@, final(entries)@[k]),
        forall|j: int| 0 <= j < old(entries).len() && old(entries)@[j].0 != cell.position ==>
            #[trigger] has_entry(final(entries)@, old(entries)@[j]),
{
    let fingerprint = CellFingerprint::of(cell);
    match find_entry(entries, cell.position) {
        Some(k) => {
            entries.set(k, (cell.position, fingerprint));
            proof {
                assert(entries@[k as int].0 == cell.position);
                assert forall|j: int| 0 <= j < old(entries).len() && old(entries)@[j].0 != cell.position implies
                    #[trigger] has_entry(entries@, old(entries)@[j]) by {
                    assert(entries@[j] == old(entries)@[j]);
                }
                assert forall|m: int| 0 <= m < entries.len() && entries@[m].0 != cell.position implies
                    #[trigger] has_entry(old(entries)@, entries@[m]) by {
                    assert(entries@[m] == old(entries)@[m]);
                }
            }
        },
        None => {
            entries.push((cell.position, fingerprint));
            proof {
                let last = entries.len() - 1;
                assert(entries@[last].0 == cell.position);
                assert forall|j: int| 0 <= j < old(entries).len() && old(entries)@[j].0 != cell.position implies
                    #[trigger] has_entry(entries@, old(entries)@[j]) by {
                    assert(entries@[j] == old(entries)@[j]);
                }
                assert forall|m: int| 0 <= m < entries.len() && entries@[m].0 != cell.position implies
                    #[trigger] has_entry(old(entries)@, entries@[m]) by {
                    assert(entries@[m] == old(entries)@[m]);
                }
            }
        },
    }
}


/// The damage of the remembered cells that `cells` no longer has, each with its
/// ligature context, the last remembered first.
pub open spec fn removed_damage<G: CellGeometry>(
    geometry: G,
    entries: Seq<(CellPosition, CellFingerprint)>,
    cells: Seq<RenderCell>,
    columns: u16,
    offset: RenderOffset,
) -> Seq<DamageRegion>
    decreases entries.len(),
{
    if entries.len() == 0 {
        Seq::empty()
    } else {
        let last = entries.last().0;
        (if position_in(cells, last) { Seq::empty() } else { context_damage(geometry, last, columns, offset) })
            + removed_damage(geometry, entries.drop_last(), cells, columns, offset)
    }
}

/// Damages the cells whose positions the new grid no longer has and keeps
/// the fingerprints of the others.
fn drop_removed_cells<G: CellGeometry>(
    previous: Vec<(CellPosition, CellFingerprint)>,
    cells: &Vec<RenderCell>,
    columns: u16,
    geometry: &G,
    offset: RenderOffset,
    regions: &mut Vec<DamageRegion>,
) -> (kept: Vec<(CellPosition, CellFingerprint)>)
    requires
        entries_distinct(previous@),
    ensures
        entries_distinct(kept@),
        forall|m: int| 0 <= m < kept.len() ==> #[trigger] position_in(cells@, kept@[m].0),
        forall|m: int| 0 <= m < kept.len() ==> #[trigger] has_entry(previous@, kept@[m]),
        forall|j: int| 0 <= j < previous.len() && position_in(cells@, previous@[j].0) ==> #[trigger] has_entry(kept@, previous@[j]),
        final(regions)@ == old(regions)@ + removed_damage(*geometry, previous@, cells@, columns, offset),
        (forall|j: int| 0 <= j < previous.len() ==> #[trigger] position_in(cells@, previous@[j].0)) ==> {
            &&& final(regions)@ == old(regions)@
            &&& forall|j: int| 0 <= j < previous.len() ==> #[trigger] has_entry(kept@, previous@[j])
        },
{
    let ghost all = previous@;
    let mut previous = previous;
    let mut kept: Vec<(CellPosition, CellFingerprint)> = Vec::new();
    while previous.len() > 0
        invariant
            previous@ == all.take(previous.len() as int),
            previous.len() <= all.len(),
            entries_distinct(all),
            entries_distinct(kept@),
            forall|m: int| 0 <= m < kept.len() ==> #[trigger] position_in(cells@, kept@[m].0),
            forall|m: int|
                0 <= m < kept.len() ==> exists|j: int| previous.len() <= j < all.len() && all[j] == #[trigger] kept@[m],
            (forall|j: int| 0 <= j < all.len() ==> #[trigger] position_in(cells@, all[j].0)) ==> {
                &&& regions@ == old(regions)@
                &&& forall|j: int| previous.len() <= j < all.len() ==> #[trigger] has_entry(kept@, all[j])
            },
            forall|j: int| previous.len() <= j < all.len() && position_in(cells@, all[j].0) ==> #[trigger] has_entry(kept@, all[j]),
            regions@ + removed_damage(*geometry, all.take(previous.len() as int), cells@, columns, offset)
                == old(regions)@ + removed_damage(*geometry, all, cells@, columns, offset),
        decreases previous.len(),
    {
        let ghost regions_before = regions@;
        let hint = previous.len() - 1;
        let ghost before = kept@;
        let ghost p = hint as int;
        let entry = previous.pop().unwrap();
        proof {
            assert(entry == all[p]);
            assert(previous@ =~= all.take(p));
            assert(all.take(p + 1).drop_last() =~= all.take(p));
            assert(all.take(p + 1).last() == all[p]);
        }
        if position_present(cells, entry.0, hint) {
            kept.push(entry);
            proof {
                assert forall|m: int| 0 <= m < kept.len() implies exists|j: int|
                    p <= j < all.len() && all[j] == #[trigger] kept@[m] by {
                    if m < before.len() {
                        assert(kept@[m] == before[m]);
                    } else {
                        assert(all[p] == kept@[m]);
                    }
                }
                assert forall|i: int, j: int| 0 <= i < j < kept.len() implies kept@[i].0 != kept@[j].0 by {
                    if j == before.len() {
                        let w = choose|w: int| p + 1 <= w < all.len() && all[w] == #[trigger] before[i];
                        assert(kept@[i] == all[w]);
                    }
                }
                assert forall|j: int| p <= j < all.len() && position_in(cells@, all[j].0) implies #[trigger] has_entry(kept@, all[j]) by {
                    if j == p {
                        assert(kept@[before.len() as int] == all[j]);
                    } else {
                        assert(has_entry(before, all[j]));
                        let w = choose|w: int| 0 <= w < before.len() && before[w] == all[j];
                        assert(kept@[w] == all[j]);
                    }
                }
                if forall|j: int| 0 <= j < all.len() ==> #[trigger] position_in(cells@, all[j].0) {
                    assert forall|j: int| p <= j < all.len() implies #[trigger] has_entry(kept@, all[j]) by {
                        assert(position_in(cells@, all[j].0));
                    }
                }
                assert(regions@ + removed_damage(*geometry, all.take(p), cells@, columns, offset)
                    =~= regions_before + removed_damage(*geometry, all.take(p + 1), cells@, columns, offset));
            }
        } else {
            push_text_damage_context(regions, entry.0, columns, geometry, offset);
            proof {
                assert(!position_in(cells@, all[p].0));
                assert(regions@ + removed_damage(*geometry, all.take(p), cells@, columns, offset)
                    =~= regions_before + removed_damage(*geometry, all.take(p + 1), cells@, columns, offset));
                assert forall|j: int| p <= j < all.len() && position_in(cells@, all[j].0) implies #[trigger] has_entry(kept@, all[j]) by {
                    assert(j != p);
                }
                assert forall|m: int| 0 <= m < kept.len() implies exists|j: int|
                    p <= j < all.len() && all[j] == #[trigger] kept@[m] by {
                    let w = choose|w: int| p + 1 <= w < all.len() && all[w] == #[trigger] kept@[m];
                }
            }
        }
    }
    proof {
        assert(all.take(0) =~= Seq::<(CellPosition, CellFingerprint)>::empty());
        assert(regions@ =~= old(regions)@ + removed_damage(*geometry, all, cells@, columns, offset));
        assert forall|m: int| 0 <= m < kept.len() implies #[trigger] has_entry(all, kept@[m]) by {
            let j = choose|j: int| 0 <= j < all.len() && all[j] == #[trigger] kept@[m];
        }
    }
    kept
}

/// The damage of the cells that show something other than what `entries`
/// remembers at their position, each with its ligature context, in order.
pub open spec fn changed_damage<G: CellGeometry>(
    geometry: G,
    entries: Seq<(CellPosition, CellFingerprint)>,
    cells: Seq<RenderCell>,
    columns: u16,
    offset: RenderOffset,
) -> Seq<DamageRegion>
    decreases cells.len(),
{
    if cells.len() == 0 {
        Seq::empty()
    } else {
        changed_damage(geometry, entries, cells.drop_last(), columns, offset) + (if entry_for(entries, cells.last()) {
            Seq::empty()
        } else {
            context_damage(geometry, cells.last().position, columns, offset)
        })
    }
}

/// Damages the cells that show something new and records their
/// fingerprints.
fn refresh_cells<G: CellGeometry>(
    kept: &mut Vec<(CellPosition, CellFingerprint)>,
    cells: &Vec<RenderCell>,
    columns: u16,
    geometry: &G,
    offset: RenderOffset,
    regions: &mut Vec<DamageRegion>,
)
    requires
        entries_distinct(old(kept)@),
        forall|m: int| 0 <= m < old(kept).len() ==> #[trigger] position_in(cells@, old(kept)@[m].0),
    ensures
        entries_distinct(final(kept)@),
        forall|m: int| 0 <= m < final(kept).len() ==> #[trigger] position_in(cells@, final(kept)@[m].0),
        positions_distinct(cells@) ==> forall|c: int| 0 <= c < cells.len() ==> #[trigger] entry_for(final(kept)@, cells@[c]),
        (forall|c: int| 0 <= c < cells.len() ==> #[trigger] entry_for(old(kept)@, cells@[c])) ==> {
            &&& final(regions)@ == old(regions)@
            &&& final(kept)@ == old(kept)@
        },
        positions_distinct(cells@) ==> final(regions)@ == old(regions)@ + changed_damage(*geometry, old(kept)@, cells@, columns, offset),
{
    let ghost start = kept@;
    let mut i: usize = 0;
    while i < cells.len()
        invariant
            0 <= i <= cells.len(),
            entries_distinct(kept@),
            forall|m: int| 0 <= m < kept.len() ==> #[trigger] position_in(cells@, kept@[m].0),
            positions_distinct(cells@) ==> forall|c: int| 0 <= c < i ==> #[trigger] entry_for(kept@, cells@[c]),
            (forall|c: int| 0 <= c < cells.len() ==> #[trigger] entry_for(start, cells@[c])) ==> {
                &&& regions@ == old(regions)@
                &&& kept@ == start
            },
            positions_distinct(cells@) ==> regions@ == old(regions)@ + changed_damage(*geometry, start, cells@.take(i as int), columns, offset),
            positions_distinct(cells@) ==> forall|c: int| i <= c < cells.len() ==> (#[trigger] entry_for(kept@, cells@[c]) <==> entry_for(start, cells@[c])),
        decreases cells.len() - i,
    {
        let ghost regions_before = regions@;
        proof {
            assert(cells@.take(i + 1).drop_last() =~= cells@.take(i as int));
            assert(cells@.take(i + 1).last() == cells@[i as int]);
        }
        let cell = &cells[i];
        let found = find_entry_near(kept, cell.position, i);
        let unchanged = match found {
            Some(k) => kept[k].1.matches(cell),
            None => false,
        };
        let ghost before = kept@;
        proof {
            if entry_for(kept@, *cell) {
                let k2 = choose|k2: int| 0 <= k2 < kept.len() && kept@[k2].0 == cell.position
                    && fingerprint_matches(kept@[k2].1, *cell);
                match found {
                    Some(k) => {
                        if k2 != k as int {
                            assert(kept@[k2].0 == kept@[k as int].0);
                        }
                    },
                    None => {
                        assert(kept@[k2].0 != cell.position);
                    },
                }
            }
            assert(unchanged == entry_for(kept@, *cell));
        }
        if unchanged {
            proof {
                let k = choose|k: int| 0 <= k < kept.len() && kept@[k].0 == cell.position
                    && fingerprint_matches(kept@[k].1, *cell);
                assert(entry_for(kept@, cells@[i as int]));
                if positions_distinct(cells@) {
                    assert(regions@ =~= old(regions)@ + changed_damage(*geometry, start, cells@.take(i + 1), columns, offset));
                }
            }
        } else {
            proof {
                if forall|c: int| 0 <= c < cells.len() ==> #[trigger] entry_for(start, cells@[c]) {
                    assert(entry_for(start, cells@[i as int]));
                    let k = choose|k: int| 0 <= k < start.len() && start[k].0 == cell.position
                        && fingerprint_matches(start[k].1, *cell);
                    assert(false);
                }
            }
            push_text_damage_context(regions, cell.position, columns, geometry, offset);
            remember_cell(kept, cell);
            proof {
                if positions_distinct(cells@) {
                    assert(!entry_for(start, cells@[i as int]));
                    assert(regions@ =~= old(regions)@ + changed_damage(*geometry, start, cells@.take(i + 1), columns, offset));
                    assert forall|c: int| i + 1 <= c < cells.len() implies (#[trigger] entry_for(kept@, cells@[c]) <==> entry_for(start, cells@[c])) by {
                        let other = cells@[c];
                        assert(other.position != cell.position);
                        if entry_for(kept@, other) {
                            let m = choose|m: int| 0 <= m < kept.len() && kept@[m].0 == other.position
                                && fingerprint_matches(kept@[m].1, other);
                            assert(has_entry(before, kept@[m]));
                            let j = choose|j: int| 0 <= j < before.len() && before[j] == kept@[m];
                            assert(entry_for(before, other));
                        }
                        if entry_for(before, other) {
                            let j = choose|j: int| 0 <= j < before.len() && before[j].0 == other.position
                                && fingerprint_matches(before[j].1, other);
                            assert(has_entry(kept@, before[j]));
                            let m = choose|m: int| 0 <= m < kept.len() && kept@[m] == before[j];
                            assert(entry_for(kept@, other));
                        }
                    }
                }
                assert forall|m: int| 0 <= m < kept.len() implies #[trigger] position_in(cells@, kept@[m].0) by {
                    if kept@[m].0 == cell.position {
                        assert(cells@[i as int].position == kept@[m].0);
                    } else {
                        assert(has_entry(before, kept@[m]));
                        let j = choose|j: int| 0 <= j < before.len() && before[j] == kept@[m];
                        assert(position_in(cells@, before[j].0));
                    }
                }
                if positions_distinct(cells@) {
                    assert forall|c: int| 0 <= c < i + 1 implies #[trigger] entry_for(kept@, cells@[c]) by {
                        if c < i {
                            assert(cells@[c].position != cells@[i as int].position);
                            assert(entry_for(before, cells@[c]));
                            let j = choose|j: int| 0 <= j < before.len() && before[j].0 == cells@[c].position
                                && fingerprint_matches(before[j].1, cells@[c]);
                            assert(has_entry(kept@, before[j]));
                            let m = choose|m: int| 0 <= m < kept.len() && kept@[m] == before[j];
                            assert(kept@[m].0 == cells@[c].position);
                        }
                    }
                }
            }
        }
        i = i + 1;
    }
    proof {
        assert(cells@.take(i as int) =~= cells@);
    }
}

/// The old and new cursor cells when the cursor changed.
pub open spec fn cursor_damage<G: CellGeometry>(
    geometry: G,
    before: Option<CursorVisual>,
    after: Option<CursorVisual>,
    offset: RenderOffset,
) -> Seq<DamageRegion> {
    if before == after {
        Seq::empty()
    } else {
        (match before {
            Some(c) => seq![cell_damage(geometry, c.position, offset)],
            None => Seq::empty(),
        }) + (match after {
            Some(c) => seq![cell_damage(geometry, c.position, offset)],
            None => Seq::empty(),
        })
    }
}

/// The damage an update of `scene` finds when no full redraw is due, before
/// merging: the remembered cells the grid no longer has, then the cells that
/// show something new, each with its ligature context; the old and new cursor
/// cells when the cursor changed; the old and new overlays, decorations and
/// selections when any of them changed; and the old and new animation regions
/// when the animations changed.
pub open spec fn incremental_damage<G: CellGeometry>(tracker: DamageTracker, scene: RenderScene, geometry: G) -> Seq<DamageRegion> {
    let offset = scene.content_offset;
    let columns = scene.grid.columns;
    let cells = scene.grid.cells@;
    removed_damage(geometry, tracker.remembered_cells(), cells, columns, offset)
        + changed_damage(geometry, tracker.remembered_cells(), cells, columns, offset)
        + cursor_damage(geometry, tracker.remembered_cursor(), scene.cursor, offset)
        + (if tracker.static_visuals_same(scene) {
            Seq::empty()
        } else {
            tracker.remembered_visuals() + static_damage(geometry, scene)
        })
        + (if tracker.remembered_animations() == scene.animations@ {
            Seq::empty()
        } else {
            animation_damage(tracker.remembered_animations(), offset) + animation_damage(scene.animations@, offset)
        })
}

/// Damage computed against entries that agree on every cell is the same.
proof fn lemma_changed_damage_agrees<G: CellGeometry>(
    geometry: G,
    a: Seq<(CellPosition, CellFingerprint)>,
    b: Seq<(CellPosition, CellFingerprint)>,
    cells: Seq<RenderCell>,
    columns: u16,
    offset: RenderOffset,
)
    requires
        forall|c: int| 0 <= c < cells.len() ==> (#[trigger] entry_for(a, cells[c]) <==> entry_for(b, cells[c])),
    ensures
        changed_damage(geometry, a, cells, columns, offset) == changed_damage(geometry, b, cells, columns, offset),
    decreases cells.len(),
{
    if cells.len() > 0 {
        let front = cells.drop_last();
        assert forall|c: int| 0 <= c < front.len() implies (#[trigger] entry_for(a, front[c]) <==> entry_for(b, front[c])) by {
            assert(front[c] == cells[c]);
        }
        lemma_changed_damage_agrees(geometry, a, b, front, columns, offset);
        assert(entry_for(a, cells[cells.len() - 1]) <==> entry_for(b, cells[cells.len() - 1]));
    }
}

impl DamageTracker {
    /// The tracker's own invariant: one fingerprint per position.
    pub closed spec fn wf(self) -> bool {
        entries_distinct(self.previous_cells@)
    }

    /// The next update of `scene` redraws the whole content: a redraw was
    /// requested, nothing was drawn yet, or the grid's size or content offset
    /// changed.
    pub closed spec fn full_redraw_due(self, scene: RenderScene) -> bool {
        ||| self.force_full
        ||| self.previous_size != Some((scene.grid.columns, scene.grid.rows))
        ||| self.previous_offset != scene.content_offset
    }

    /// The overlays, decorations, and selections of `scene` are the ones
    /// last drawn.
    pub closed spec fn static_visuals_same(self, scene: RenderScene) -> bool {
        &&& same_overlays(self.previous_search_highlights@, scene.search_highlights@)
        &&& same_overlays(self.previous_semantic_overlays@, scene.semantic_overlays@)
        &&& same_decorations(self.previous_decorations@, scene.decorations@)
        &&& same_selections(self.previous_selections@, scene.selections@)
    }

    /// The animations last drawn.
    pub closed spec fn remembered_animations(self) -> Seq<AnimationHandle> {
        self.previous_animations@
    }

    /// The fingerprints of the cells last drawn.
    pub closed spec fn remembered_cells(self) -> Seq<(CellPosition, CellFingerprint)> {
        self.previous_cells@
    }

    /// The cursor last drawn.
    pub closed spec fn remembered_cursor(self) -> Option<CursorVisual> {
        self.previous_cursor
    }

    /// The regions the overlays, decorations, and selections last drawn cover.
    pub closed spec fn remembered_visuals(self) -> Seq<DamageRegion> {
        self.previous_visuals@
    }

    /// Only the animations of `scene` can differ from what was last drawn.
    pub closed spec fn only_animations_pending(self, scene: RenderScene) -> bool {
        &&& !self.full_redraw_due(scene)
        &&& self.previous_cursor == scene.cursor
        &&& self.static_visuals_same(scene)
    }

    /// The tracker holds exactly what `scene` shows: its size and offset,
    /// one matching fingerprint per cell, its cursor, overlays, decorations,
    /// selections, and animations; and no redraw is pending.
    pub closed spec fn remembers(self, scene: RenderScene) -> bool {
        &&& !self.full_redraw_due(scene)
        &&& cells_remembered(self.previous_cells@, scene.grid.cells@)
        &&& self.previous_cursor == scene.cursor
        &&& self.static_visuals_same(scene)
        &&& self.previous_animations@ == scene.animations@
    }

    /// A tracker that has drawn nothing: its first update redraws everything.
    pub fn new() -> (r: DamageTracker)
        ensures
            r.wf(),
            forall|scene: RenderScene| #[trigger] r.full_redraw_due(scene),
    {
        DamageTracker {
            previous_cells: Vec::new(),
            previous_cursor: None,
            previous_size: None,
            previous_offset: RenderOffset { x: 0, y: 0 },
            previous_visuals: Vec::new(),
            previous_search_highlights: Vec::new(),
            previous_semantic_overlays: Vec::new(),
            previous_decorations: Vec::new(),
            previous_selections: Vec::new(),
            previous_animations: Vec::new(),
            force_full: false,
        }
    }

    /// Makes the next update redraw everything.
    pub fn request_full_redraw(&mut self)
        requires
            old(self).wf(),
        ensures
            final(self).wf(),
            forall|scene: RenderScene| #[trigger] final(self).full_redraw_due(scene),
    {
        self.force_full = true;
    }

    /// The regions of the surface that `scene` changed since the last update,
    /// merged; and the tracker now remembers `scene`.
    ///
    /// A due full redraw reports the whole content as one region. Otherwise
    /// the damage is: each cell that disappeared or shows something new,
    /// with the ligature context around it; the old and new cursor cells
    /// when the cursor changed; the old and new overlays, decorations, and
    /// selections when any of them changed; and the old and new animation
    /// regions when the animations changed. Nothing changed, nothing is
    /// reported.
    pub fn update<G: CellGeometry>(&mut self, scene: &RenderScene, geometry: &G) -> (r: Vec<DamageRegion>)
        requires
            old(self).wf(),
        ensures
            final(self).wf(),
            positions_distinct(scene.grid.cells@) ==> final(self).remembers(*scene),
            old(self).full_redraw_due(*scene) ==> r.len() == 1 && r@[0] == scene_content_region(*geometry, *scene),
            !old(self).full_redraw_due(*scene) ==> exists|damage: Seq<DamageRegion>| r@ == merged_regions(damage),
            !old(self).full_redraw_due(*scene) && positions_distinct(scene.grid.cells@) ==> r@ == merged_regions(
                incremental_damage(*old(self), *scene, *geometry),
            ),
            old(self).remembers(*scene) ==> r.len() == 0,
            final(self).remembered_visuals() == (if old(self).full_redraw_due(*scene) || !old(self).static_visuals_same(*scene) {
                static_damage(*geometry, *scene)
            } else {
                old(self).remembered_visuals()
            }),
    {
        let size = (scene.grid.columns, scene.grid.rows);
        let same_size = match self.previous_size {
            Some((columns, rows)) => columns == size.0 && rows == size.1,
            None => false,
        };
        if self.force_full || !same_size || self.previous_offset != scene.content_offset {
            self.force_full = false;
            self.previous_size = Some(size);
            self.previous_offset = scene.content_offset;
            self.previous_cells = fingerprints_of(&scene.grid.cells);
            self.previous_cursor = scene.cursor;
            self.previous_visuals = static_visual_regions(scene, geometry);
            self.remember_static_visuals(scene);
            self.previous_animations = copy_animations(&scene.animations);
            return vec![scene_grid_region(scene, geometry)];
        }
        let ghost was_remembered = self.remembers(*scene);
        let ghost old_cells = self.previous_cells@;
        let offset = scene.content_offset;
        let columns = scene.grid.columns;
        let mut regions: Vec<DamageRegion> = Vec::new();
        let mut previous: Vec<(CellPosition, CellFingerprint)> = Vec::new();
        std::mem::swap(&mut previous, &mut self.previous_cells);
        let mut kept = drop_removed_cells(previous, &scene.grid.cells, columns, geometry, offset, &mut regions);
        proof {
            if was_remembered {
                assert forall|c: int| 0 <= c < scene.grid.cells.len() implies #[trigger] entry_for(
                    kept@,
                    scene.grid.cells@[c],
                ) by {
                    let cell = scene.grid.cells@[c];
                    assert(entry_for(old_cells, cell));
                    let k = choose|k: int| 0 <= k < old_cells.len() && old_cells[k].0 == cell.position
                        && fingerprint_matches(old_cells[k].1, cell);
                    assert(has_entry(kept@, old_cells[k]));
                    let m = choose|m: int| 0 <= m < kept.len() && kept@[m] == old_cells[k];
                    assert(kept@[m].0 == cell.position);
                }
            }
        }
        let ghost kept_before = kept@;
        proof {
            let cells = scene.grid.cells@;
            assert forall|c: int| 0 <= c < cells.len() implies (#[trigger] entry_for(kept@, cells[c]) <==> entry_for(old_cells, cells[c])) by {
                let cell = cells[c];
                if entry_for(kept@, cell) {
                    let m = choose|m: int| 0 <= m < kept.len() && kept@[m].0 == cell.position && fingerprint_matches(kept@[m].1, cell);
                    assert(has_entry(old_cells, kept@[m]));
                    let j = choose|j: int| 0 <= j < old_cells.len() && old_cells[j] == kept@[m];
                    assert(old_cells[j].0 == cell.position);
                }
                if entry_for(old_cells, cell) {
                    let j = choose|j: int| 0 <= j < old_cells.len() && old_cells[j].0 == cell.position && fingerprint_matches(old_cells[j].1, cell);
                    assert(position_in(cells, old_cells[j].0));
                    assert(has_entry(kept@, old_cells[j]));
                    let m = choose|m: int| 0 <= m < kept.len() && kept@[m] == old_cells[j];
                    assert(kept@[m].0 == cell.position);
                }
            }
            lemma_changed_damage_agrees(*geometry, kept@, old_cells, cells, columns, offset);
        }
        refresh_cells(&mut kept, &scene.grid.cells, columns, geometry, offset, &mut regions);
        self.previous_cells = kept;
        let ghost cell_regions = regions@;

        if !cursors_equal(&self.previous_cursor, &scene.cursor) {
            match self.previous_cursor {
                Some(cursor) => regions.push(cell_region_at(cursor.position, geometry, offset)),
                None => {},
            }
            match scene.cursor {
                Some(cursor) => regions.push(cell_region_at(cursor.position, geometry, offset)),
                None => {},
            }
            self.previous_cursor = scene.cursor;
        }
        proof {
            assert(regions@ =~= cell_regions + cursor_damage(*geometry, old(self).previous_cursor, scene.cursor, offset));
        }
        let ghost cursor_regions = regions@;

        if self.static_visuals_changed(scene) {
            push_regions(&mut regions, &self.previous_visuals);
            self.previous_visuals = static_visual_regions(scene, geometry);
            push_regions(&mut regions, &self.previous_visuals);
            self.remember_static_visuals(scene);
        }
        proof {
            assert(regions@ =~= cursor_regions + (if old(self).static_visuals_same(*scene) {
                Seq::<DamageRegion>::empty()
            } else {
                old(self).previous_visuals@ + static_damage(*geometry, *scene)
            }));
        }
        let ghost visual_regions = regions@;

        if !animations_equal(&self.previous_animations, &scene.animations) {
            push_animation_regions(&mut regions, &self.previous_animations, offset);
            push_animation_regions(&mut regions, &scene.animations, offset);
            self.previous_animations = copy_animations(&scene.animations);
        }
        proof {
            assert(regions@ =~= visual_regions + (if old(self).previous_animations@ == scene.animations@ {
                Seq::<DamageRegion>::empty()
            } else {
                animation_damage(old(self).previous_animations@, offset) + animation_damage(scene.animations@, offset)
            }));
            if positions_distinct(scene.grid.cells@) {
                assert(regions@ =~= incremental_damage(*old(self), *scene, *geometry));
            }
            if was_remembered {
                assert(regions@ =~= Seq::<DamageRegion>::empty());
                lemma_merge_nothing();
            }
        }
        merge_regions(regions)
    }

    /// The damage of `scene` when only its animations may have moved: a
    /// full [`update`](Self::update) when anything else changed, nothing when
    /// the animations did not change either, and otherwise the old and new
    /// animation regions, merged.
    pub fn update_animations_only<G: CellGeometry>(&mut self, scene: &RenderScene, geometry: &G) -> (r: Vec<
        DamageRegion,
    >)
        requires
            old(self).wf(),
        ensures
            final(self).wf(),
            old(self).full_redraw_due(*scene) ==> r.len() == 1 && r@[0] == scene_content_region(*geometry, *scene),
            !old(self).only_animations_pending(*scene) && positions_distinct(scene.grid.cells@)
                ==> final(self).remembers(*scene),
            !old(self).only_animations_pending(*scene) && !old(self).full_redraw_due(*scene)
                && positions_distinct(scene.grid.cells@) ==> r@ == merged_regions(incremental_damage(*old(self), *scene, *geometry)),
            old(self).only_animations_pending(*scene) ==> {
                &&& final(self).only_animations_pending(*scene)
                &&& final(self).remembered_animations() == scene.animations@
                &&& old(self).remembered_animations() == scene.animations@ ==> r.len() == 0
                &&& old(self).remembered_animations() != scene.animations@ ==> r@ == merged_regions(
                    animation_damage(old(self).remembered_animations(), scene.content_offset) + animation_damage(
                        scene.animations@,
                        scene.content_offset,
                    ),
                )
            },
            old(self).remembers(*scene) ==> r.len() == 0 && final(self).remembers(*scene),
    {
        let same_size = match self.previous_size {
            Some((columns, rows)) => columns == scene.grid.columns && rows == scene.grid.rows,
            None => false,
        };
        if self.force_full || !same_size || self.previous_offset != scene.content_offset
            || !cursors_equal(&self.previous_cursor, &scene.cursor) || self.static_visuals_changed(scene) {
            return self.update(scene, geometry);
        }
        if animations_equal(&self.previous_animations, &scene.animations) {
            proof {
                lemma_merge_nothing();
            }
            return Vec::new();
        }
        let mut regions: Vec<DamageRegion> = Vec::new();
        push_animation_regions(&mut regions, &self.previous_animations, scene.content_offset);
        push_animation_regions(&mut regions, &scene.animations, scene.content_offset);
        self.previous_animations = copy_animations(&scene.animations);
        proof {
            assert(regions@ =~= animation_damage(old(self).previous_animations@, scene.content_offset)
                + animation_damage(scene.animations@, scene.content_offset));
        }
        merge_regions(regions)
    }

    fn static_visuals_changed(&self, scene: &RenderScene) -> (r: bool)
        ensures
            r == !self.static_visuals_same(*scene),
    {
        !(overlays_equal(&self.previous_search_highlights, &scene.search_highlights)
            && overlays_equal(&self.previous_semantic_overlays, &scene.semantic_overlays)
            && decorations_equal(&self.previous_decorations, &scene.decorations)
            && selections_equal(&self.previous_selections, &scene.selections))
    }

    fn remember_static_visuals(&mut self, scene: &RenderScene)
        ensures
            final(self).static_visuals_same(*scene),
            final(self).previous_cells == old(self).previous_cells,
            final(self).previous_cursor == old(self).previous_cursor,
            final(self).previous_size == old(self).previous_size,
            final(self).previous_offset == old(self).previous_offset,
            final(self).previous_visuals == old(self).previous_visuals,
            final(self).previous_animations == old(self).previous_animations,
            final(self).force_full == old(self).force_full,
    {
        self.previous_search_highlights = copy_overlays(&scene.search_highlights);
        self.previous_semantic_overlays = copy_overlays(&scene.semantic_overlays);
        self.previous_decorations = copy_decorations(&scene.decorations);
        self.previous_selections = copy_selections(&scene.selections);
        proof {
            assert(same_overlays(self.previous_search_highlights@, scene.search_highlights@));
            assert(same_overlays(self.previous_semantic_overlays@, scene.semantic_overlays@));
        }
    }
}

impl Default for DamageTracker {
    fn default() -> (r: DamageTracker)
        ensures
            r.wf(),
            forall|scene: RenderScene| #[trigger] r.full_redraw_due(scene),
    {
        DamageTracker::new()
    }
}

} // verus!
