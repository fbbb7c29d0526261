//! Batch planning: which cells, overlays, decorations, selections, and cursor
//! quads a frame draws, culled by its damage, and which text runs need glyphs.
//!
//! Quads are whole-pixel rectangles with a color, and for rounded quads a
//! corner radius and a stroke width; turning them into vertices is the GPU
//! side's business. Where cells lie comes from a [`CellGeometry`].

use vstd::prelude::*;
use crate::damage::{clamp_i32, merge_regions, merged_regions, offset_region, offset_spec};
use crate::damage_tracker::{cell_damage, effective_damage_regions, scene_content_region, CellGeometry};
use crate::planner::{behind_text, intersects_any, rects_meet};
use crate::render_core::{
    AnimationHandle, AnimationKind, CellPosition, CursorVisual, DamageRegion, OverlayPrimitive, RenderCell, RenderColor,
    RenderCursorShape, RenderDecoration, RenderOffset, RenderRect, RenderScene, SelectionVisual,
};
use crate::planner::{cell_row_bounds, row_bounds_spec, run_view, terminal_text_runs, text_runs};

verus! {

/// A quad to draw: a rectangle and its color. A quad with neither radius nor
/// stroke is a plain fill; with a radius it has rounded corners, and with a
/// stroke only a band of that width along its edge is drawn.
#[derive(Debug, Clone, Copy, PartialEq, Eq, Structural)]
pub struct PlannedQuad {
    pub rect: RenderRect,
    pub color: RenderColor,
    pub radius: u32,
    pub line: u32,
}

pub open spec fn min3(a: int, b: int, c: int) -> int {
    if a <= b && a <= c {
        a
    } else if b <= c {
        b
    } else {
        c
    }
}

/// A plain quad over `rect`; nothing for an empty rectangle.
pub open spec fn solid_quad(rect: RenderRect, color: RenderColor) -> Seq<PlannedQuad> {
    if rect.width == 0 || rect.height == 0 {
        Seq::empty()
    } else {
        seq![PlannedQuad { rect, color, radius: 0, line: 0 }]
    }
}

/// The four edge bands of `rect`, `width` pixels wide (at least one, at most
/// the rectangle's smaller side): top, bottom, left, right.
pub open spec fn stroke_quads(rect: RenderRect, width: u32, color: RenderColor) -> Seq<PlannedQuad> {
    if rect.width == 0 || rect.height == 0 {
        Seq::empty()
    } else {
        let w = min3(if width < 1 { 1 } else { width as int }, rect.width as int, rect.height as int);
        solid_quad(RenderRect { height: w as u32, ..rect }, color)
            + solid_quad(RenderRect { y: clamp_i32(rect.y + (rect.height - w)), height: w as u32, ..rect }, color)
            + solid_quad(RenderRect { width: w as u32, ..rect }, color)
            + solid_quad(RenderRect { x: clamp_i32(rect.x + (rect.width - w)), width: w as u32, ..rect }, color)
    }
}

/// A rounded quad; nothing for an empty rectangle.
pub open spec fn rounded_quad(rect: RenderRect, radius: int, line: int, color: RenderColor) -> Seq<PlannedQuad> {
    if rect.width == 0 || rect.height == 0 {
        Seq::empty()
    } else {
        seq![PlannedQuad { rect, color, radius: radius as u32, line: line as u32 }]
    }
}

/// A filled quad with corners rounded by `radius`, held to half the smaller
/// side; a plain quad when that is zero.
pub open spec fn rounded_quads(rect: RenderRect, radius: u32, color: RenderColor) -> Seq<PlannedQuad> {
    let r = min3(radius as int, rect.width as int / 2, rect.height as int / 2);
    if r == 0 {
        solid_quad(rect, color)
    } else {
        rounded_quad(rect, r, 0, color)
    }
}

/// The outline of a rounded quad, `line` pixels wide (at least one, at most
/// half the smaller side); the four edge bands when the radius is zero.
pub open spec fn rounded_stroke_quads(rect: RenderRect, line: u32, radius: u32, color: RenderColor) -> Seq<PlannedQuad> {
    let r = min3(radius as int, rect.width as int / 2, rect.height as int / 2);
    let l0 = min3(line as int, rect.width as int / 2, rect.height as int / 2);
    let l = if l0 < 1 { 1 } else { l0 };
    if r == 0 {
        stroke_quads(rect, l as u32, color)
    } else {
        rounded_quad(rect, r, l, color)
    }
}

pub(crate) fn min3_u32(a: u32, b: u32, c: u32) -> (r: u32)
    ensures
        r == min3(a as int, b as int, c as int),
{
    if a <= b && a <= c {
        a
    } else if b <= c {
        b
    } else {
        c
    }
}

pub(crate) fn shift_held(start: i32, by: u32) -> (r: i32)
    ensures
        r == clamp_i32(start + by),
{
    let v: i64 = start as i64 + by as i64;
    if v > i32::MAX as i64 {
        i32::MAX
    } else {
        v as i32
    }
}

pub(crate) fn push_solid_quad(batch: &mut Vec<PlannedQuad>, rect: RenderRect, color: RenderColor)
    ensures
        final(batch)@ == old(batch)@ + solid_quad(rect, color),
{
    if rect.width == 0 || rect.height == 0 {
        proof {
            assert(old(batch)@ + solid_quad(rect, color) =~= old(batch)@);
        }
        return;
    }
    batch.push(PlannedQuad { rect, color, radius: 0, line: 0 });
    proof {
        assert(batch@ =~= old(batch)@ + solid_quad(rect, color));
    }
}

fn push_stroke_quads(batch: &mut Vec<PlannedQuad>, rect: RenderRect, width: u32, color: RenderColor)
    ensures
        final(batch)@ == old(batch)@ + stroke_quads(rect, width, color),
{
    if rect.width == 0 || rect.height == 0 {
        proof {
            assert(old(batch)@ + stroke_quads(rect, width, color) =~= old(batch)@);
        }
        return;
    }
    let w = min3_u32(if width < 1 { 1 } else { width }, rect.width, rect.height);
    let ghost start = batch@;
    push_solid_quad(batch, RenderRect { height: w, ..rect }, color);
    push_solid_quad(batch, RenderRect { y: shift_held(rect.y, rect.height - w), height: w, ..rect }, color);
    push_solid_quad(batch, RenderRect { width: w, ..rect }, color);
    push_solid_quad(batch, RenderRect { x: shift_held(rect.x, rect.width - w), width: w, ..rect }, color);
    proof {
        assert(batch@ =~= start + stroke_quads(rect, width, color));
    }
}

pub(crate) fn push_rounded_quads(batch: &mut Vec<PlannedQuad>, rect: RenderRect, radius: u32, color: RenderColor)
    ensures
        final(batch)@ == old(batch)@ + rounded_quads(rect, radius, color),
{
    let r = min3_u32(radius, rect.width / 2, rect.height / 2);
    if r == 0 {
        push_solid_quad(batch, rect, color);
    } else {
        batch.push(PlannedQuad { rect, color, radius: r, line: 0 });
        proof {
            assert(batch@ =~= old(batch)@ + rounded_quads(rect, radius, color));
        }
    }
}

pub(crate) fn push_rounded_stroke_quads(batch: &mut Vec<PlannedQuad>, rect: RenderRect, line: u32, radius: u32, color: RenderColor)
    ensures
        final(batch)@ == old(batch)@ + rounded_stroke_quads(rect, line, radius, color),
{
    let r = min3_u32(radius, rect.width / 2, rect.height / 2);
    let l0 = min3_u32(line, rect.width / 2, rect.height / 2);
    let l = if l0 < 1 { 1 } else { l0 };
    if r == 0 {
        push_stroke_quads(batch, rect, l, color);
    } else {
        batch.push(PlannedQuad { rect, color, radius: r, line: l });
        proof {
            assert(batch@ =~= old(batch)@ + rounded_stroke_quads(rect, line, radius, color));
        }
    }
}

/// `v` held within `u16`, for a `v` that is not negative.
pub open spec fn held_u16(v: int) -> u16 {
    if v > u16::MAX {
        u16::MAX
    } else {
        v as u16
    }
}

/// The columns and rows of cells that a damage region reaches, with rows held
/// between `first_row` and `last_row`; nothing for a region without area,
/// one left of the grid, or one outside those rows.
pub open spec fn region_cells<G: CellGeometry>(
    geometry: G,
    region: DamageRegion,
    offset: RenderOffset,
    first_row: i64,
    last_row: i64,
) -> Option<(u16, u16, i64, i64)> {
    if region.width == 0 || region.height == 0 {
        None
    } else {
        let x0 = geometry.cell_index_spec((region.x - offset.x) as i64, false);
        let x1 = geometry.cell_index_spec((region.x + region.width - 1 - offset.x) as i64, false);
        if x1 < 0 {
            None
        } else {
            let top = geometry.cell_index_spec((region.y - offset.y) as i64, true);
            let bottom = geometry.cell_index_spec((region.y + region.height - 1 - offset.y) as i64, true);
            let row0 = if top > first_row { top } else { first_row };
            let row1 = if bottom < last_row { bottom } else { last_row };
            if row0 > row1 {
                None
            } else {
                Some((held_u16(if x0 > 0 { x0 as int } else { 0 }), held_u16(x1 as int), row0, row1))
            }
        }
    }
}

/// The smallest span of columns holding the columns of every region that
/// reaches `row`.
pub open spec fn row_span<G: CellGeometry>(
    geometry: G,
    regions: Seq<DamageRegion>,
    offset: RenderOffset,
    first_row: i64,
    last_row: i64,
    row: i64,
) -> Option<(u16, u16)>
    decreases regions.len(),
{
    if regions.len() == 0 {
        None
    } else {
        let before = row_span(geometry, regions.drop_last(), offset, first_row, last_row, row);
        match region_cells(geometry, regions.last(), offset, first_row, last_row) {
            Some((c0, c1, r0, r1)) => if r0 <= row && row <= r1 {
                match before {
                    Some((a, b)) => Some((if a < c0 { a } else { c0 }, if b > c1 { b } else { c1 })),
                    None => Some((c0, c1)),
                }
            } else {
                before
            },
            None => before,
        }
    }
}

/// The last of `row_count` rows from `first_row`, held within `i64`.
pub open spec fn last_row_of(first_row: i64, row_count: usize) -> i64 {
    let last: int = first_row + row_count - 1;
    if last > i64::MAX {
        i64::MAX
    } else {
        last as i64
    }
}

/// The damaged columns of `row` among the `row_count` rows of cells from
/// `first_row`: none for a row outside them, or when cells have no size.
pub open spec fn damage_span<G: CellGeometry>(
    geometry: G,
    regions: Seq<DamageRegion>,
    offset: RenderOffset,
    first_row: i64,
    row_count: usize,
    row: i64,
) -> Option<(u16, u16)> {
    if row_count == 0 || !geometry.sized_spec() || row < first_row || row - first_row >= row_count {
        None
    } else {
        row_span(geometry, regions, offset, first_row, last_row_of(first_row, row_count), row)
    }
}

/// The damage reaches the cell at `position`.
pub open spec fn span_holds(span: Option<(u16, u16)>, col: u16) -> bool {
    span matches Some((start, end)) && start <= col && col <= end
}

/// The damage reaches a column between `start` and `end`.
pub open spec fn span_meets(span: Option<(u16, u16)>, start: u16, end: u16) -> bool {
    span matches Some((s, e)) && start <= e && end >= s
}

/// Where the damage falls, in rows of cells.
pub struct DamageRows<'a, G: CellGeometry> {
    pub geometry: &'a G,
    pub regions: &'a Vec<DamageRegion>,
    pub offset: RenderOffset,
    pub first_row: i64,
    pub row_count: usize,
}

fn cells_reached<G: CellGeometry>(
    geometry: &G,
    region: DamageRegion,
    offset: RenderOffset,
    first_row: i64,
    last_row: i64,
) -> (r: Option<(u16, u16, i64, i64)>)
    ensures
        r == region_cells(*geometry, region, offset, first_row, last_row),
{
    if region.width == 0 || region.height == 0 {
        return None;
    }
    let x0 = geometry.cell_index(region.x as i64 - offset.x as i64, false);
    let x1 = geometry.cell_index(region.x as i64 + region.width as i64 - 1 - offset.x as i64, false);
    if x1 < 0 {
        return None;
    }
    let top = geometry.cell_index(region.y as i64 - offset.y as i64, true);
    let bottom = geometry.cell_index(region.y as i64 + region.height as i64 - 1 - offset.y as i64, true);
    let row0 = if top > first_row { top } else { first_row };
    let row1 = if bottom < last_row { bottom } else { last_row };
    if row0 > row1 {
        return None;
    }
    let c0: u16 = if x0 <= 0 { 0 } else if x0 > u16::MAX as i64 { u16::MAX } else { x0 as u16 };
    let c1: u16 = if x1 > u16::MAX as i64 { u16::MAX } else { x1 as u16 };
    Some((c0, c1, row0, row1))
}

impl<'a, G: CellGeometry> DamageRows<'a, G> {
    /// The damaged columns of `row`.
    pub fn span(&self, row: i64) -> (r: Option<(u16, u16)>)
        ensures
            r == damage_span(*self.geometry, self.regions@, self.offset, self.first_row, self.row_count, row),
    {
        if self.row_count == 0 || !self.geometry.has_cell_size() || row < self.first_row {
            return None;
        }
        let distance: i128 = row as i128 - self.first_row as i128;
        if distance >= self.row_count as i128 {
            return None;
        }
        let last: i128 = self.first_row as i128 + self.row_count as i128 - 1;
        let last_row: i64 = if last > i64::MAX as i128 { i64::MAX } else { last as i64 };
        let mut span: Option<(u16, u16)> = None;
        let mut i: usize = 0;
        while i < self.regions.len()
            invariant
                0 <= i <= self.regions.len(),
                last_row == last_row_of(self.first_row, self.row_count),
                span == row_span(*self.geometry, self.regions@.take(i as int), self.offset, self.first_row, last_row, row),
            decreases self.regions.len() - i,
        {
            proof {
                assert(self.regions@.take(i + 1).drop_last() =~= self.regions@.take(i as int));
                assert(self.regions@.take(i + 1).last() == self.regions@[i as int]);
            }
            match cells_reached(self.geometry, self.regions[i], self.offset, self.first_row, last_row) {
                Some((c0, c1, r0, r1)) => {
                    if r0 <= row && row <= r1 {
                        span = match span {
                            Some((a, b)) => Some((if a < c0 { a } else { c0 }, if b > c1 { b } else { c1 })),
                            None => Some((c0, c1)),
                        };
                    }
                },
                None => {},
            }
            i = i + 1;
        }
        proof {
            assert(self.regions@.take(i as int) =~= self.regions@);
        }
        span
    }

    /// The damage reaches the cell at `position`.
    pub fn intersects_cell(&self, position: CellPosition) -> (r: bool)
        ensures
            r == span_holds(damage_span(*self.geometry, self.regions@, self.offset, self.first_row, self.row_count, position.row), position.col),
    {
        match self.span(position.row) {
            Some((start, end)) => position.col >= start && position.col <= end,
            None => false,
        }
    }

    /// The damage reaches a column of `row` between `start` and `end`.
    pub fn intersects_columns(&self, row: i64, start: u16, end: u16) -> (r: bool)
        ensures
            r == span_meets(damage_span(*self.geometry, self.regions@, self.offset, self.first_row, self.row_count, row), start, end),
    {
        match self.span(row) {
            Some((s, e)) => start <= e && end >= s,
            None => false,
        }
    }
}

/// The first row of the cells and how many rows they span, as
/// `cell_row_bounds` gives them.
pub open spec fn cell_rows(cells: Seq<RenderCell>) -> (i64, usize) {
    if cells.len() == 0 {
        (0, 0)
    } else {
        let b = row_bounds_spec(cells);
        (b.0 as i64, (if b.1 > usize::MAX { usize::MAX as int } else { b.1 }) as usize)
    }
}

/// The damaged columns of `row` in `scene`.
pub open spec fn scene_span<G: CellGeometry>(geometry: G, scene: RenderScene, damage: Seq<DamageRegion>, row: i64) -> Option<(u16, u16)> {
    let rows = cell_rows(scene.grid.cells@);
    damage_span(geometry, damage, scene.content_offset, rows.0, rows.1, row)
}

/// The damage reaches the cell at `position`.
pub open spec fn cell_reached<G: CellGeometry>(geometry: G, scene: RenderScene, damage: Seq<DamageRegion>, position: CellPosition) -> bool {
    span_holds(scene_span(geometry, scene, damage, position.row), position.col)
}

/// The cell backgrounds the damage reaches, in cell order.
pub open spec fn cell_backgrounds<G: CellGeometry>(geometry: G, scene: RenderScene, damage: Seq<DamageRegion>, cells: Seq<RenderCell>) -> Seq<PlannedQuad>
    decreases cells.len(),
{
    if cells.len() == 0 {
        Seq::empty()
    } else {
        let cell = cells.last();
        cell_backgrounds(geometry, scene, damage, cells.drop_last()) + (if cell_reached(geometry, scene, damage, cell.position) {
            solid_quad(cell_damage(geometry, cell.position, scene.content_offset), cell.background)
        } else {
            Seq::empty()
        })
    }
}

/// The underline and strike line of a cell's text, in its foreground color.
pub open spec fn text_decorations<G: CellGeometry>(geometry: G, cell: RenderCell, rect: RenderRect) -> Seq<PlannedQuad> {
    (if cell.style.underline { solid_quad(geometry.decoration_rect_spec(rect, false), cell.foreground) } else { Seq::empty() })
        + (if cell.style.strikethrough { solid_quad(geometry.decoration_rect_spec(rect, true), cell.foreground) } else { Seq::empty() })
}

/// The text decorations of the cells the damage reaches, in cell order.
pub open spec fn cell_decorations<G: CellGeometry>(geometry: G, scene: RenderScene, damage: Seq<DamageRegion>, cells: Seq<RenderCell>) -> Seq<PlannedQuad>
    decreases cells.len(),
{
    if cells.len() == 0 {
        Seq::empty()
    } else {
        let cell = cells.last();
        cell_decorations(geometry, scene, damage, cells.drop_last()) + (if cell_reached(geometry, scene, damage, cell.position) {
            text_decorations(geometry, cell, cell_damage(geometry, cell.position, scene.content_offset))
        } else {
            Seq::empty()
        })
    }
}

/// `rect` shares a pixel with one of the damage regions.
pub open spec fn meets_any(rect: RenderRect, damage: Seq<DamageRegion>) -> bool {
    exists|k: int| 0 <= k < damage.len() && rects_meet(rect, #[trigger] damage[k])
}

/// `order` with overlay `i` placed after every overlay of no greater depth:
/// one step of a stable sort by depth.
pub open spec fn insert_by_depth(order: Seq<usize>, depths: Seq<i16>, i: usize) -> Seq<usize>
    decreases order.len(),
{
    if order.len() == 0 || depths[order.last() as int] <= depths[i as int] {
        order.push(i)
    } else {
        insert_by_depth(order.drop_last(), depths, i).push(order.last())
    }
}

/// The first `n` overlays, stably sorted by depth.
pub open spec fn depth_order(depths: Seq<i16>, n: nat) -> Seq<usize>
    decreases n,
{
    if n == 0 {
        Seq::empty()
    } else {
        insert_by_depth(depth_order(depths, (n - 1) as nat), depths, (n - 1) as usize)
    }
}

/// The search highlights, then the semantic overlays.
pub open spec fn scene_overlays(scene: RenderScene) -> Seq<OverlayPrimitive> {
    scene.search_highlights@ + scene.semantic_overlays@
}

/// The overlays' depths, in the order of `scene_overlays`.
pub open spec fn overlay_depths(scene: RenderScene) -> Seq<i16> {
    scene_overlays(scene).map_values(|o: OverlayPrimitive| o.z_index)
}

/// The overlays, drawn from the lowest depth up.
pub open spec fn overlay_order(scene: RenderScene) -> Seq<usize> {
    depth_order(overlay_depths(scene), scene_overlays(scene).len())
}

/// An overlay's quads: its rounded fill, and its outline when it has a border.
pub open spec fn overlay_quads(overlay: OverlayPrimitive, bounds: RenderRect) -> Seq<PlannedQuad> {
    rounded_quads(bounds, overlay.corner_radius_px as u32, overlay.color) + match overlay.border_color {
        Some(border) => rounded_stroke_quads(bounds, 1, overlay.corner_radius_px as u32, border),
        None => Seq::empty(),
    }
}

/// The quads of the overlays in `order` that the damage reaches and that are
/// drawn behind the text (or, with `behind` false, over it).
pub open spec fn overlay_batch(overlays: Seq<OverlayPrimitive>, order: Seq<usize>, offset: RenderOffset, damage: Seq<DamageRegion>, behind: bool) -> Seq<PlannedQuad>
    decreases order.len(),
{
    if order.len() == 0 {
        Seq::empty()
    } else {
        let overlay = overlays[order.last() as int];
        let bounds = offset_spec(overlay.bounds, offset);
        overlay_batch(overlays, order.drop_last(), offset, damage, behind) + (if meets_any(bounds, damage) && behind_text(overlay.kind) == behind {
            overlay_quads(overlay, bounds)
        } else {
            Seq::empty()
        })
    }
}

/// The overlays in `order` that the damage reaches and that carry a label, by
/// their position in `scene_overlays`.
pub open spec fn labelled_overlays(overlays: Seq<OverlayPrimitive>, order: Seq<usize>, offset: RenderOffset, damage: Seq<DamageRegion>) -> Seq<usize>
    decreases order.len(),
{
    if order.len() == 0 {
        Seq::empty()
    } else {
        let overlay = overlays[order.last() as int];
        labelled_overlays(overlays, order.drop_last(), offset, damage) + (if meets_any(offset_spec(overlay.bounds, offset), damage) && overlay.label is Some {
            seq![order.last()]
        } else {
            Seq::empty()
        })
    }
}

/// The decorations the damage reaches: each filled, and outlined one pixel
/// wide when it has a border.
pub open spec fn decoration_batch(decorations: Seq<RenderDecoration>, offset: RenderOffset, damage: Seq<DamageRegion>) -> Seq<PlannedQuad>
    decreases decorations.len(),
{
    if decorations.len() == 0 {
        Seq::empty()
    } else {
        let d = decorations.last();
        let bounds = offset_spec(d.bounds, offset);
        decoration_batch(decorations.drop_last(), offset, damage) + (if meets_any(bounds, damage) {
            solid_quad(bounds, d.color) + match d.border_color {
                Some(border) => stroke_quads(bounds, 1, border),
                None => Seq::empty(),
            }
        } else {
            Seq::empty()
        })
    }
}

/// The selected cells the damage reaches, in one color.
pub open spec fn selection_cells<G: CellGeometry>(geometry: G, scene: RenderScene, damage: Seq<DamageRegion>, cells: Seq<CellPosition>, color: RenderColor) -> Seq<PlannedQuad>
    decreases cells.len(),
{
    if cells.len() == 0 {
        Seq::empty()
    } else {
        selection_cells(geometry, scene, damage, cells.drop_last(), color) + (if cell_reached(geometry, scene, damage, cells.last()) {
            solid_quad(cell_damage(geometry, cells.last(), scene.content_offset), color)
        } else {
            Seq::empty()
        })
    }
}

/// The selections' cells the damage reaches, selection by selection.
pub open spec fn selection_batch<G: CellGeometry>(geometry: G, scene: RenderScene, damage: Seq<DamageRegion>, selections: Seq<SelectionVisual>) -> Seq<PlannedQuad>
    decreases selections.len(),
{
    if selections.len() == 0 {
        Seq::empty()
    } else {
        selection_batch(geometry, scene, damage, selections.drop_last()) + selection_cells(
            geometry,
            scene,
            damage,
            selections.last().cells@,
            selections.last().color,
        )
    }
}

/// The cursor's thickness in percent, held between one and a hundred.
pub open spec fn thickness_of(cursor: CursorVisual) -> int {
    if cursor.thickness_percent < 1 {
        1
    } else if cursor.thickness_percent > 100 {
        100
    } else {
        cursor.thickness_percent as int
    }
}

/// `size * thickness / 100`, at least one.
pub open spec fn thinned(size: u32, thickness: int) -> int {
    let v = size * thickness / 100;
    if v < 1 { 1 } else { v }
}

/// The pixels a cursor covers in its cell: all of it, a beam on its left
/// side, or an underline along its bottom, as thick as the cursor says.
pub open spec fn cursor_region<G: CellGeometry>(geometry: G, cursor: CursorVisual) -> RenderRect {
    let cell = geometry.cell_region_spec(cursor.position);
    let thickness = thickness_of(cursor);
    match cursor.shape {
        RenderCursorShape::Beam => RenderRect { width: thinned(cell.width, thickness) as u32, ..cell },
        RenderCursorShape::Underline => {
            let h = thinned(cell.height, thickness);
            RenderRect { y: clamp_i32(cell.y + (if cell.height >= h { cell.height - h } else { 0 })), height: h as u32, ..cell }
        },
        _ => cell,
    }
}

/// A smooth movement animates the cursor, which then is not drawn in place.
pub open spec fn cursor_gliding(animations: Seq<AnimationHandle>) -> bool {
    exists|k: int| 0 <= k < animations.len() && #[trigger] animations[k].kind == AnimationKind::CursorSmoothMovement
}

/// The cursor's quads: none when it is hidden, gliding, or outside the
/// damage; an outline for a hollow block; a rounded fill otherwise.
pub open spec fn cursor_batch<G: CellGeometry>(geometry: G, scene: RenderScene, damage: Seq<DamageRegion>) -> Seq<PlannedQuad> {
    match scene.cursor {
        Some(cursor) => {
            let rect = offset_spec(cursor_region(geometry, cursor), scene.content_offset);
            if !cursor.visible || cursor_gliding(scene.animations@) || !meets_any(rect, damage) {
                Seq::empty()
            } else if cursor.shape == RenderCursorShape::HollowBlock {
                let smaller: u32 = if rect.width < rect.height { rect.width } else { rect.height };
                rounded_stroke_quads(rect, thinned(smaller, thickness_of(cursor)) as u32, cursor.corner_radius_px as u32, cursor.color)
            } else {
                rounded_quads(rect, cursor.corner_radius_px as u32, cursor.color)
            }
        },
        None => Seq::empty(),
    }
}

/// The damage rows of `scene` over `damage`.
fn scene_rows<'a, G: CellGeometry>(scene: &RenderScene, geometry: &'a G, damage: &'a Vec<DamageRegion>) -> (r: DamageRows<'a, G>)
    ensures
        *r.geometry == *geometry,
        r.regions@ == damage@,
        r.offset == scene.content_offset,
        (r.first_row, r.row_count) == cell_rows(scene.grid.cells@),
{
    let (first_row, row_count) = cell_row_bounds(&scene.grid.cells);
    DamageRows { geometry, regions: damage, offset: scene.content_offset, first_row, row_count }
}

/// Pushes the backgrounds and text decorations of the cells the damage reaches.
fn push_cell_quads<G: CellGeometry>(
    background: &mut Vec<PlannedQuad>,
    decorations: &mut Vec<PlannedQuad>,
    scene: &RenderScene,
    geometry: &G,
    damage: &Vec<DamageRegion>,
    rows: &DamageRows<G>,
)
    requires
        *rows.geometry == *geometry,
        rows.regions@ == damage@,
        rows.offset == scene.content_offset,
        (rows.first_row, rows.row_count) == cell_rows(scene.grid.cells@),
    ensures
        final(background)@ == old(background)@ + cell_backgrounds(*geometry, *scene, damage@, scene.grid.cells@),
        final(decorations)@ == old(decorations)@ + cell_decorations(*geometry, *scene, damage@, scene.grid.cells@),
{
    let cells = &scene.grid.cells;
    let mut i: usize = 0;
    while i < cells.len()
        invariant
            0 <= i <= cells.len(),
            cells@ == scene.grid.cells@,
            *rows.geometry == *geometry,
            rows.regions@ == damage@,
            rows.offset == scene.content_offset,
            (rows.first_row, rows.row_count) == cell_rows(scene.grid.cells@),
            background@ == old(background)@ + cell_backgrounds(*geometry, *scene, damage@, cells@.take(i as int)),
            decorations@ == old(decorations)@ + cell_decorations(*geometry, *scene, damage@, cells@.take(i as int)),
        decreases cells.len() - i,
    {
        proof {
            assert(cells@.take(i + 1).drop_last() =~= cells@.take(i as int));
            assert(cells@.take(i + 1).last() == cells@[i as int]);
        }
        let cell = &cells[i];
        let ghost bg = background@;
        let ghost dec = decorations@;
        if rows.intersects_cell(cell.position) {
            let rect = offset_region(geometry.cell_region(cell.position), scene.content_offset);
            push_solid_quad(background, rect, cell.background);
            if cell.style.underline {
                push_solid_quad(decorations, geometry.decoration_rect(rect, false), cell.foreground);
            }
            let ghost mid = decorations@;
            if cell.style.strikethrough {
                push_solid_quad(decorations, geometry.decoration_rect(rect, true), cell.foreground);
            }
            proof {
                assert(mid =~= dec + (if cell.style.underline { solid_quad(geometry.decoration_rect_spec(rect, false), cell.foreground) } else { Seq::empty() }));
                assert(decorations@ =~= dec + text_decorations(*geometry, *cell, rect));
            }
        }
        proof {
            assert(background@ =~= old(background)@ + cell_backgrounds(*geometry, *scene, damage@, cells@.take(i + 1)));
            assert(decorations@ =~= old(decorations)@ + cell_decorations(*geometry, *scene, damage@, cells@.take(i + 1)));
        }
        i = i + 1;
    }
    proof {
        assert(cells@.take(i as int) =~= cells@);
    }
}

fn insert_overlay_by_depth(order: &mut Vec<usize>, depths: &Vec<i16>, i: usize)
    requires
        i < depths.len(),
        forall|k: int| 0 <= k < old(order).len() ==> #[trigger] old(order)@[k] < depths.len(),
    ensures
        final(order)@ == insert_by_depth(old(order)@, depths@, i),
        forall|k: int| 0 <= k < final(order).len() ==> #[trigger] final(order)@[k] < depths.len(),
    decreases old(order).len(),
{
    let n = order.len();
    if n == 0 || depths[order[n - 1]] <= depths[i] {
        order.push(i);
    } else {
        let last = order.pop().unwrap();
        proof {
            assert(order@ == old(order)@.drop_last());
        }
        insert_overlay_by_depth(order, depths, i);
        order.push(last);
    }
}

/// The overlay at `index` of the search highlights followed by the semantic
/// overlays.
pub(crate) fn overlay_at(scene: &RenderScene, index: usize) -> (r: &OverlayPrimitive)
    requires
        index < scene_overlays(*scene).len(),
    ensures
        *r == scene_overlays(*scene)[index as int],
{
    if index < scene.search_highlights.len() {
        &scene.search_highlights[index]
    } else {
        &scene.semantic_overlays[index - scene.search_highlights.len()]
    }
}

/// The overlays' positions, stably sorted by depth.
pub(crate) fn sorted_overlays(scene: &RenderScene) -> (r: Vec<usize>)
    requires
        scene.search_highlights.len() + scene.semantic_overlays.len() <= usize::MAX,
    ensures
        r@ == overlay_order(*scene),
        forall|k: int| 0 <= k < r.len() ==> #[trigger] r@[k] < scene_overlays(*scene).len(),
{
    let total = scene.search_highlights.len() + scene.semantic_overlays.len();
    let mut depths: Vec<i16> = Vec::new();
    let mut i: usize = 0;
    while i < total
        invariant
            0 <= i <= total,
            total == scene_overlays(*scene).len(),
            depths@ == overlay_depths(*scene).take(i as int),
        decreases total - i,
    {
        depths.push(overlay_at(scene, i).z_index);
        i = i + 1;
        proof {
            assert(depths@ =~= overlay_depths(*scene).take(i as int));
        }
    }
    proof {
        assert(depths@ =~= overlay_depths(*scene));
    }
    let mut order: Vec<usize> = Vec::new();
    let mut j: usize = 0;
    while j < total
        invariant
            0 <= j <= total,
            total == scene_overlays(*scene).len(),
            depths@ == overlay_depths(*scene),
            depths.len() == total,
            order@ == depth_order(depths@, j as nat),
            forall|k: int| 0 <= k < order.len() ==> #[trigger] order@[k] < total,
        decreases total - j,
    {
        insert_overlay_by_depth(&mut order, &depths, j);
        j = j + 1;
    }
    order
}

/// Pushes the quads of the overlays the damage reaches, in depth order, into
/// the batch under the text or the one over it, and lists those with labels.
fn push_overlay_quads(
    background: &mut Vec<PlannedQuad>,
    decorations: &mut Vec<PlannedQuad>,
    labels: &mut Vec<usize>,
    scene: &RenderScene,
    damage: &Vec<DamageRegion>,
)
    requires
        scene.search_highlights.len() + scene.semantic_overlays.len() <= usize::MAX,
    ensures
        final(background)@ == old(background)@ + overlay_batch(scene_overlays(*scene), overlay_order(*scene), scene.content_offset, damage@, true),
        final(decorations)@ == old(decorations)@ + overlay_batch(scene_overlays(*scene), overlay_order(*scene), scene.content_offset, damage@, false),
        final(labels)@ == old(labels)@ + labelled_overlays(scene_overlays(*scene), overlay_order(*scene), scene.content_offset, damage@),
{
    let order = sorted_overlays(scene);
    let ghost all = scene_overlays(*scene);
    let ghost offset = scene.content_offset;
    let mut j: usize = 0;
    while j < order.len()
        invariant
            0 <= j <= order.len(),
            all == scene_overlays(*scene),
            offset == scene.content_offset,
            order@ == overlay_order(*scene),
            forall|k: int| 0 <= k < order.len() ==> #[trigger] order@[k] < all.len(),
            background@ == old(background)@ + overlay_batch(all, order@.take(j as int), offset, damage@, true),
            decorations@ == old(decorations)@ + overlay_batch(all, order@.take(j as int), offset, damage@, false),
            labels@ == old(labels)@ + labelled_overlays(all, order@.take(j as int), offset, damage@),
        decreases order.len() - j,
    {
        proof {
            assert(order@.take(j + 1).drop_last() =~= order@.take(j as int));
            assert(order@.take(j + 1).last() == order@[j as int]);
        }
        let index = order[j];
        let overlay = overlay_at(scene, index);
        let bounds = offset_region(overlay.bounds, scene.content_offset);
        let ghost bg = background@;
        let ghost dec = decorations@;
        let ghost lab = labels@;
        if intersects_any(bounds, damage) {
            let behind = crate::planner::overlay_draws_behind_terminal_text(overlay.kind);
            let radius = overlay.corner_radius_px as u32;
            if behind {
                push_rounded_quads(background, bounds, radius, overlay.color);
                match overlay.border_color {
                    Some(border) => push_rounded_stroke_quads(background, bounds, 1, radius, border),
                    None => {},
                }
                proof {
                    assert(background@ =~= bg + overlay_quads(*overlay, bounds));
                }
            } else {
                push_rounded_quads(decorations, bounds, radius, overlay.color);
                match overlay.border_color {
                    Some(border) => push_rounded_stroke_quads(decorations, bounds, 1, radius, border),
                    None => {},
                }
                proof {
                    assert(decorations@ =~= dec + overlay_quads(*overlay, bounds));
                }
            }
            if overlay.label.is_some() {
                labels.push(index);
            }
        }
        proof {
            assert(background@ =~= old(background)@ + overlay_batch(all, order@.take(j + 1), offset, damage@, true));
            assert(decorations@ =~= old(decorations)@ + overlay_batch(all, order@.take(j + 1), offset, damage@, false));
            assert(labels@ =~= old(labels)@ + labelled_overlays(all, order@.take(j + 1), offset, damage@));
        }
        j = j + 1;
    }
    proof {
        assert(order@.take(j as int) =~= order@);
    }
}

/// Pushes the decorations the damage reaches.
fn push_decoration_quads(decorations: &mut Vec<PlannedQuad>, scene: &RenderScene, damage: &Vec<DamageRegion>)
    ensures
        final(decorations)@ == old(decorations)@ + decoration_batch(scene.decorations@, scene.content_offset, damage@),
{
    let items = &scene.decorations;
    let mut i: usize = 0;
    while i < items.len()
        invariant
            0 <= i <= items.len(),
            items@ == scene.decorations@,
            decorations@ == old(decorations)@ + decoration_batch(items@.take(i as int), scene.content_offset, damage@),
        decreases items.len() - i,
    {
        proof {
            assert(items@.take(i + 1).drop_last() =~= items@.take(i as int));
            assert(items@.take(i + 1).last() == items@[i as int]);
        }
        let d = &items[i];
        let bounds = offset_region(d.bounds, scene.content_offset);
        let ghost dec = decorations@;
        if intersects_any(bounds, damage) {
            push_solid_quad(decorations, bounds, d.color);
            match d.border_color {
                Some(border) => push_stroke_quads(decorations, bounds, 1, border),
                None => {},
            }
        }
        proof {
            assert(decorations@ =~= old(decorations)@ + decoration_batch(items@.take(i + 1), scene.content_offset, damage@));
        }
        i = i + 1;
    }
    proof {
        assert(items@.take(i as int) =~= items@);
    }
}

/// Pushes the selected cells the damage reaches.
fn push_selection_quads<G: CellGeometry>(
    selections: &mut Vec<PlannedQuad>,
    scene: &RenderScene,
    geometry: &G,
    damage: &Vec<DamageRegion>,
    rows: &DamageRows<G>,
)
    requires
        *rows.geometry == *geometry,
        rows.regions@ == damage@,
        rows.offset == scene.content_offset,
        (rows.first_row, rows.row_count) == cell_rows(scene.grid.cells@),
    ensures
        final(selections)@ == old(selections)@ + selection_batch(*geometry, *scene, damage@, scene.selections@),
{
    let items = &scene.selections;
    let mut i: usize = 0;
    while i < items.len()
        invariant
            0 <= i <= items.len(),
            items@ == scene.selections@,
            *rows.geometry == *geometry,
            rows.regions@ == damage@,
            rows.offset == scene.content_offset,
            (rows.first_row, rows.row_count) == cell_rows(scene.grid.cells@),
            selections@ == old(selections)@ + selection_batch(*geometry, *scene, damage@, items@.take(i as int)),
        decreases items.len() - i,
    {
        proof {
            assert(items@.take(i + 1).drop_last() =~= items@.take(i as int));
            assert(items@.take(i + 1).last() == items@[i as int]);
        }
        let selection = &items[i];
        let cells = &selection.cells;
        let ghost start = selections@;
        let mut j: usize = 0;
        while j < cells.len()
            invariant
                0 <= j <= cells.len(),
                *rows.geometry == *geometry,
                rows.regions@ == damage@,
                rows.offset == scene.content_offset,
                (rows.first_row, rows.row_count) == cell_rows(scene.grid.cells@),
                selections@ == start + selection_cells(*geometry, *scene, damage@, cells@.take(j as int), selection.color),
            decreases cells.len() - j,
        {
            proof {
                assert(cells@.take(j + 1).drop_last() =~= cells@.take(j as int));
                assert(cells@.take(j + 1).last() == cells@[j as int]);
            }
            let position = cells[j];
            let ghost before = selections@;
            if rows.intersects_cell(position) {
                let rect = offset_region(geometry.cell_region(position), scene.content_offset);
                push_solid_quad(selections, rect, selection.color);
            }
            proof {
                assert(selections@ =~= start + selection_cells(*geometry, *scene, damage@, cells@.take(j + 1), selection.color));
            }
            j = j + 1;
        }
        proof {
            assert(cells@.take(j as int) =~= cells@);
            assert(selections@ =~= old(selections)@ + selection_batch(*geometry, *scene, damage@, items@.take(i + 1)));
        }
        i = i + 1;
    }
    proof {
        assert(items@.take(i as int) =~= items@);
    }
}

pub(crate) fn thinned_exec(size: u32, thickness: u32) -> (r: u32)
    requires
        1 <= thickness <= 100,
    ensures
        r == thinned(size, thickness as int),
        r <= (if size < 1 { 1 } else { size as int }),
{
    assert(size as u64 * thickness as u64 / 100 <= size) by (nonlinear_arith)
        requires
            thickness <= 100,
    ;
    let v: u64 = size as u64 * thickness as u64 / 100;
    if v < 1 { 1 } else { v as u32 }
}

/// Pushes the cursor's quads.
fn push_cursor_quads<G: CellGeometry>(cursor_batch_out: &mut Vec<PlannedQuad>, scene: &RenderScene, geometry: &G, damage: &Vec<DamageRegion>)
    ensures
        final(cursor_batch_out)@ == old(cursor_batch_out)@ + cursor_batch(*geometry, *scene, damage@),
{
    let cursor = match scene.cursor {
        Some(cursor) => cursor,
        None => {
            proof {
                assert(old(cursor_batch_out)@ + cursor_batch(*geometry, *scene, damage@) =~= old(cursor_batch_out)@);
            }
            return;
        },
    };
    let mut gliding = false;
    let mut k: usize = 0;
    while k < scene.animations.len()
        invariant
            0 <= k <= scene.animations.len(),
            gliding == exists|m: int| 0 <= m < k && #[trigger] scene.animations@[m].kind == AnimationKind::CursorSmoothMovement,
        decreases scene.animations.len() - k,
    {
        if scene.animations[k].kind == AnimationKind::CursorSmoothMovement {
            gliding = true;
        }
        k = k + 1;
    }
    let cell = geometry.cell_region(cursor.position);
    let thickness: u32 = if cursor.thickness_percent < 1 { 1 } else if cursor.thickness_percent > 100 { 100 } else { cursor.thickness_percent as u32 };
    let region = match cursor.shape {
        RenderCursorShape::Beam => RenderRect { width: thinned_exec(cell.width, thickness), ..cell },
        RenderCursorShape::Underline => {
            let h = thinned_exec(cell.height, thickness);
            RenderRect { y: shift_held(cell.y, if cell.height >= h { cell.height - h } else { 0 }), height: h, ..cell }
        },
        _ => cell,
    };
    proof {
        assert(region == cursor_region(*geometry, cursor));
    }
    let rect = offset_region(region, scene.content_offset);
    if !cursor.visible || gliding || !intersects_any(rect, damage) {
        proof {
            assert(old(cursor_batch_out)@ + cursor_batch(*geometry, *scene, damage@) =~= old(cursor_batch_out)@);
        }
        return;
    }
    if cursor.shape == RenderCursorShape::HollowBlock {
        let smaller: u32 = if rect.width < rect.height { rect.width } else { rect.height };
        push_rounded_stroke_quads(cursor_batch_out, rect, thinned_exec(smaller, thickness), cursor.corner_radius_px as u32, cursor.color);
    } else {
        push_rounded_quads(cursor_batch_out, rect, cursor.corner_radius_px as u32, cursor.color);
    }
}

/// A cell as a text run sees it.
pub type RunView = (CellPosition, Seq<char>, RenderColor, RenderColor, crate::render_core::RenderCellStyle);

/// How many columns `unicode_width` gives a text.
pub uninterp spec fn display_width(text: Seq<char>) -> usize;

/// `UnicodeWidthStr::width`: the text's width in terminal columns.
#[verifier::external_body]
fn text_columns(text: &str) -> (r: usize)
    ensures
        r == display_width(text@),
{
    unicode_width::UnicodeWidthStr::width(text)
}

/// The last column a run covers: its width in columns (at least one) past its
/// start, held at `u16::MAX`.
pub open spec fn run_end(run: RunView) -> u16 {
    let width = display_width(run.1);
    let more: int = if width < 1 { 0 } else { width - 1 };
    held_u16(run.0.col + (if more > u16::MAX { u16::MAX as int } else { more }))
}

/// The cells on the rows the damage reaches, in order.
pub open spec fn cells_on_damaged_rows<G: CellGeometry>(geometry: G, scene: RenderScene, damage: Seq<DamageRegion>, cells: Seq<RenderCell>) -> Seq<RenderCell>
    decreases cells.len(),
{
    if cells.len() == 0 {
        Seq::empty()
    } else {
        cells_on_damaged_rows(geometry, scene, damage, cells.drop_last()) + (if scene_span(geometry, scene, damage, cells.last().position.row) is Some {
            seq![cells.last()]
        } else {
            Seq::empty()
        })
    }
}

/// The runs that reach a damaged column of their row.
pub open spec fn runs_in_damage<G: CellGeometry>(geometry: G, scene: RenderScene, damage: Seq<DamageRegion>, runs: Seq<RunView>) -> Seq<RunView>
    decreases runs.len(),
{
    if runs.len() == 0 {
        Seq::empty()
    } else {
        let run = runs.last();
        runs_in_damage(geometry, scene, damage, runs.drop_last()) + (if span_meets(scene_span(geometry, scene, damage, run.0.row), run.0.col, run_end(run)) {
            seq![run]
        } else {
            Seq::empty()
        })
    }
}

/// The text runs a frame draws glyphs for: the cells on damaged rows joined
/// into runs, then only the runs that reach a damaged column.
pub open spec fn damaged_text_runs<G: CellGeometry>(geometry: G, scene: RenderScene, damage: Seq<DamageRegion>) -> Seq<RunView> {
    runs_in_damage(geometry, scene, damage, text_runs(cells_on_damaged_rows(geometry, scene, damage, scene.grid.cells@)))
}

/// Cells that look the same to a text run give the same runs.
proof fn lemma_text_runs_by_view(a: Seq<RenderCell>, b: Seq<RenderCell>)
    requires
        a.len() == b.len(),
        forall|i: int| 0 <= i < a.len() ==> #[trigger] run_view(a[i]) == run_view(b[i]),
    ensures
        text_runs(a) == text_runs(b),
    decreases a.len(),
{
    if a.len() > 0 {
        assert forall|i: int| 0 <= i < a.drop_last().len() implies #[trigger] run_view(a.drop_last()[i]) == run_view(b.drop_last()[i]) by {
            assert(run_view(a[i]) == run_view(b[i]));
        }
        lemma_text_runs_by_view(a.drop_last(), b.drop_last());
        assert(run_view(a[a.len() - 1]) == run_view(b[b.len() - 1]));
    }
}

fn copy_cell(cell: &RenderCell) -> (r: RenderCell)
    ensures
        run_view(r) == run_view(*cell),
{
    RenderCell { position: cell.position, text: cell.text.clone(), foreground: cell.foreground, background: cell.background, style: cell.style }
}

/// The text runs the damage reaches.
fn damaged_runs<G: CellGeometry>(scene: &RenderScene, geometry: &G, damage: &Vec<DamageRegion>, rows: &DamageRows<G>) -> (r: Vec<RenderCell>)
    requires
        *rows.geometry == *geometry,
        rows.regions@ == damage@,
        rows.offset == scene.content_offset,
        (rows.first_row, rows.row_count) == cell_rows(scene.grid.cells@),
    ensures
        r@.map_values(|c: RenderCell| run_view(c)) == damaged_text_runs(*geometry, *scene, damage@),
{
    let cells = &scene.grid.cells;
    let mut selected: Vec<RenderCell> = Vec::new();
    let ghost mut chosen: Seq<RenderCell> = Seq::empty();
    let mut i: usize = 0;
    while i < cells.len()
        invariant
            0 <= i <= cells.len(),
            cells@ == scene.grid.cells@,
            *rows.geometry == *geometry,
            rows.regions@ == damage@,
            rows.offset == scene.content_offset,
            (rows.first_row, rows.row_count) == cell_rows(scene.grid.cells@),
            chosen == cells_on_damaged_rows(*geometry, *scene, damage@, cells@.take(i as int)),
            selected.len() == chosen.len(),
            forall|k: int| 0 <= k < selected.len() ==> #[trigger] run_view(selected@[k]) == run_view(chosen[k]),
        decreases cells.len() - i,
    {
        proof {
            assert(cells@.take(i + 1).drop_last() =~= cells@.take(i as int));
            assert(cells@.take(i + 1).last() == cells@[i as int]);
        }
        if rows.span(cells[i].position.row).is_some() {
            let ghost before = selected@;
            selected.push(copy_cell(&cells[i]));
            proof {
                chosen = chosen.push(cells@[i as int]);
                assert forall|k: int| 0 <= k < selected.len() implies #[trigger] run_view(selected@[k]) == run_view(chosen[k]) by {
                    if k < selected.len() - 1 {
                        assert(selected@[k] == before[k]);
                    }
                }
            }
        }
        proof {
            assert(chosen =~= cells_on_damaged_rows(*geometry, *scene, damage@, cells@.take(i + 1)));
        }
        i = i + 1;
    }
    proof {
        assert(cells@.take(i as int) =~= cells@);
        lemma_text_runs_by_view(selected@, chosen);
    }
    let runs = terminal_text_runs(&selected);
    let ghost views = runs@.map_values(|c: RenderCell| run_view(c));
    let mut kept: Vec<RenderCell> = Vec::new();
    let mut j: usize = 0;
    while j < runs.len()
        invariant
            0 <= j <= runs.len(),
            views == runs@.map_values(|c: RenderCell| run_view(c)),
            *rows.geometry == *geometry,
            rows.regions@ == damage@,
            rows.offset == scene.content_offset,
            (rows.first_row, rows.row_count) == cell_rows(scene.grid.cells@),
            kept@.map_values(|c: RenderCell| run_view(c)) == runs_in_damage(*geometry, *scene, damage@, views.take(j as int)),
        decreases runs.len() - j,
    {
        proof {
            assert(views.take(j + 1).drop_last() =~= views.take(j as int));
            assert(views.take(j + 1).last() == views[j as int]);
        }
        let run = &runs[j];
        let width = text_columns(run.text.as_str());
        let more: usize = if width < 1 { 0 } else { width - 1 };
        let more: u16 = if more > u16::MAX as usize { u16::MAX } else { more as u16 };
        let end: u32 = run.position.col as u32 + more as u32;
        let end: u16 = if end > u16::MAX as u32 { u16::MAX } else { end as u16 };
        proof {
            assert(end == run_end(views[j as int]));
        }
        let ghost before = kept@;
        if rows.intersects_columns(run.position.row, run.position.col, end) {
            kept.push(copy_cell(run));
        }
        proof {
            assert(kept@.map_values(|c: RenderCell| run_view(c)) =~= runs_in_damage(*geometry, *scene, damage@, views.take(j + 1)));
        }
        j = j + 1;
    }
    proof {
        assert(views.take(j as int) =~= views);
    }
    kept
}

/// What a frame draws, culled by its damage.
#[derive(Debug)]
pub struct PlannedBatches {
    /// The merged damage regions the frame redraws.
    pub damage_regions: Vec<DamageRegion>,
    /// Cell backgrounds, then the overlays drawn under the text.
    pub background: Vec<PlannedQuad>,
    /// Text decorations, then the overlays drawn over the text, then the
    /// scene's decorations.
    pub decorations: Vec<PlannedQuad>,
    pub selections: Vec<PlannedQuad>,
    pub cursor: Vec<PlannedQuad>,
    /// The text runs whose glyphs are drawn.
    pub text_runs: Vec<RenderCell>,
    /// The drawn overlays with a label, by position among the search
    /// highlights followed by the semantic overlays, in depth order.
    pub labelled_overlays: Vec<usize>,
}

/// One draw call for a batch that holds anything, none for an empty one.
pub open spec fn batch_calls(non_empty: bool) -> int {
    if non_empty { 1 } else { 0 }
}

impl PlannedBatches {
    /// The draw calls the quad batches cost: one for each of the background,
    /// decoration, selection and cursor batches that holds a quad. The glyph
    /// batches add one each when they hold a glyph.
    pub fn quad_draw_calls(&self) -> (r: u32)
        ensures
            r == batch_calls(self.background@.len() > 0) + batch_calls(self.decorations@.len() > 0)
                + batch_calls(self.selections@.len() > 0) + batch_calls(self.cursor@.len() > 0),
    {
        let mut calls: u32 = 0;
        if self.background.len() > 0 {
            calls = calls + 1;
        }
        if self.decorations.len() > 0 {
            calls = calls + 1;
        }
        if self.selections.len() > 0 {
            calls = calls + 1;
        }
        if self.cursor.len() > 0 {
            calls = calls + 1;
        }
        calls
    }
}

/// The damage a frame redraws: the given regions merged; without any, the
/// scene's own damage merged, or the whole content when it names none.
pub open spec fn planned_damage<G: CellGeometry>(geometry: G, scene: RenderScene, damage: Option<Seq<DamageRegion>>) -> Seq<DamageRegion> {
    match damage {
        Some(regions) => merged_regions(regions),
        None => if scene.damage_regions.len() == 0 {
            seq![scene_content_region(geometry, scene)]
        } else {
            merged_regions(scene.damage_regions@)
        },
    }
}

fn copy_regions(regions: &Vec<DamageRegion>) -> (r: Vec<DamageRegion>)
    ensures
        r@ == regions@,
{
    let mut copy: Vec<DamageRegion> = Vec::new();
    let mut i: usize = 0;
    while i < regions.len()
        invariant
            0 <= i <= regions.len(),
            copy@ == regions@.take(i as int),
        decreases regions.len() - i,
    {
        copy.push(regions[i]);
        i = i + 1;
        proof {
            assert(copy@ =~= regions@.take(i as int));
        }
    }
    proof {
        assert(regions@.take(i as int) =~= regions@);
    }
    copy
}

/// Plans the quads and text runs of a frame of `scene`, culled by `damage`
/// (or, without it, by the scene's own damage). Cell backgrounds, text
/// decorations, and selections are kept on the damaged columns of their rows;
/// overlays, decorations, and the cursor when they meet a damage region.
/// Overlays go in depth order, under or over the text by their kind.
pub fn plan_batches<G: CellGeometry>(scene: &RenderScene, geometry: &G, damage: Option<&Vec<DamageRegion>>) -> (r: PlannedBatches)
    requires
        scene.search_highlights.len() + scene.semantic_overlays.len() <= usize::MAX,
    ensures
        ({
            let d = planned_damage(*geometry, *scene, match damage {
                Some(v) => Some(v@),
                None => None::<Seq<DamageRegion>>,
            });
            let overlays = scene_overlays(*scene);
            let order = overlay_order(*scene);
            let offset = scene.content_offset;
            &&& r.damage_regions@ == d
            &&& r.background@ == cell_backgrounds(*geometry, *scene, d, scene.grid.cells@) + overlay_batch(overlays, order, offset, d, true)
            &&& r.decorations@ == cell_decorations(*geometry, *scene, d, scene.grid.cells@) + overlay_batch(overlays, order, offset, d, false)
                + decoration_batch(scene.decorations@, offset, d)
            &&& r.selections@ == selection_batch(*geometry, *scene, d, scene.selections@)
            &&& r.cursor@ == cursor_batch(*geometry, *scene, d)
            &&& r.text_runs@.map_values(|c: RenderCell| run_view(c)) == damaged_text_runs(*geometry, *scene, d)
            &&& r.labelled_overlays@ == labelled_overlays(overlays, order, offset, d)
        }),
{
    let damage_regions = match damage {
        Some(regions) => merge_regions(copy_regions(regions)),
        None => effective_damage_regions(scene, geometry),
    };
    let rows = scene_rows(scene, geometry, &damage_regions);
    let mut background: Vec<PlannedQuad> = Vec::new();
    let mut decorations: Vec<PlannedQuad> = Vec::new();
    let mut selections: Vec<PlannedQuad> = Vec::new();
    let mut cursor: Vec<PlannedQuad> = Vec::new();
    let mut labelled_overlays: Vec<usize> = Vec::new();
    push_cell_quads(&mut background, &mut decorations, scene, geometry, &damage_regions, &rows);
    let text_runs = damaged_runs(scene, geometry, &damage_regions, &rows);
    push_overlay_quads(&mut background, &mut decorations, &mut labelled_overlays, scene, &damage_regions);
    push_decoration_quads(&mut decorations, scene, &damage_regions);
    push_selection_quads(&mut selections, scene, geometry, &damage_regions, &rows);
    push_cursor_quads(&mut cursor, scene, geometry, &damage_regions);
    proof {
        assert(labelled_overlays@ =~= Seq::<usize>::empty() + labelled_overlays@);
    }
    PlannedBatches { damage_regions, background, decorations, selections, cursor, text_runs, labelled_overlays }
}

} // verus!
