//! The screenshot fixtures: small 24 by 8 terminal scenes, each named, that
//! the conformance captures draw and compare with reference images.

use vstd::prelude::*;
use vstd::string::StrSliceExecFns;
use crate::planner::run_view;
use crate::ppm::{
    fixture_descriptions, fixture_kinds, fixture_names, screenshot_fixture_descriptions,
    screenshot_fixture_kinds, screenshot_fixture_names, ScreenshotError, ScreenshotFixtureKind,
};
use crate::render_core::{
    CellPosition, CursorVisual, OverlayKind, OverlayPrimitive, RenderCell, RenderCellStyle,
    RenderColor, RenderCursorShape, RenderDecoration, RenderGrid, RenderOffset, RenderRect,
    RenderScene, SelectionVisual,
};
use crate::text::{str_eq, string_views};

verus! {

/// A cell as the fixtures describe it: position, text, colors and style.
pub type CellView = (CellPosition, Seq<char>, RenderColor, RenderColor, RenderCellStyle);

/// A selection as the fixtures describe it.
pub type SelectionView = (Seq<CellPosition>, RenderColor);

/// An overlay as the fixtures describe it: kind, bounds, fill, border, corner
/// radius, depth and label.
pub type OverlayView = (OverlayKind, RenderRect, RenderColor, Option<RenderColor>, u8, i16, Option<Seq<char>>);

/// The cells of a grid, each as a text run sees it.
pub open spec fn cell_views(cells: Seq<RenderCell>) -> Seq<CellView> {
    cells.map_values(|c: RenderCell| run_view(c))
}

pub open spec fn selection_view(s: SelectionVisual) -> SelectionView {
    (s.cells@, s.color)
}

pub open spec fn overlay_view(o: OverlayPrimitive) -> OverlayView {
    (o.kind, o.bounds, o.color, o.border_color, o.corner_radius_px, o.z_index, match o.label {
        Some(l) => Some(l@),
        None => None,
    })
}

pub open spec fn rgb(red: u8, green: u8, blue: u8) -> RenderColor {
    RenderColor { red, green, blue, alpha: 255 }
}

pub open spec fn plain_style() -> RenderCellStyle {
    RenderCellStyle { bold: false, italic: false, underline: false, strikethrough: false }
}

/// A fixture scene: a 24 by 8 grid with the given cells at the origin, the
/// given cursor, selections, semantic overlays and decorations, and nothing
/// else (no search highlights, animations or damage).
pub open spec fn fixture_scene(
    s: RenderScene,
    cells: Seq<CellView>,
    cursor: Option<CursorVisual>,
    selections: Seq<SelectionView>,
    overlays: Seq<OverlayView>,
    decorations: Seq<RenderDecoration>,
) -> bool {
    &&& s.grid.columns == 24
    &&& s.grid.rows == 8
    &&& cell_views(s.grid.cells@) == cells
    &&& s.content_offset == (RenderOffset { x: 0, y: 0 })
    &&& s.cursor == cursor
    &&& s.selections@.map_values(|v: SelectionVisual| selection_view(v)) == selections
    &&& s.search_highlights@.len() == 0
    &&& s.semantic_overlays@.map_values(|o: OverlayPrimitive| overlay_view(o)) == overlays
    &&& s.decorations@ == decorations
    &&& s.animations@.len() == 0
    &&& s.damage_regions@.len() == 0
}

/// The fixtures' cursor: light when active, grey when not, 16% thick, square.
pub open spec fn fixture_cursor(row: i64, col: u16, shape: RenderCursorShape, inactive: bool) -> CursorVisual {
    CursorVisual {
        position: CellPosition { row, col },
        shape,
        color: if inactive { rgb(120, 120, 128) } else { rgb(245, 245, 235) },
        visible: true,
        thickness_percent: 16,
        corner_radius_px: 0,
        inactive,
    }
}

/// The background of a text row: darker on even rows.
pub open spec fn text_background(row: int) -> RenderColor {
    if row % 2 == 0 { rgb(11, 14, 18) } else { rgb(17, 21, 27) }
}

/// The cell at `col` of a text row: the text's character there in the row's
/// style, or a blank in the plain style past the text's end.
pub open spec fn text_cell(row: int, col: int, text: Seq<char>, style: RenderCellStyle) -> CellView {
    let written = col < text.len();
    (
        CellPosition { row: row as i64, col: col as u16 },
        if written { text.subrange(col, col + 1) } else { " "@ },
        rgb(232, 232, 226),
        text_background(row),
        if written { style } else { plain_style() },
    )
}

/// The 24 cells of a text row.
pub open spec fn text_row(row: int, text: Seq<char>, style: RenderCellStyle) -> Seq<CellView> {
    Seq::new(24, |col: int| text_cell(row, col, text, style))
}

/// The first `n` rows of a text grid: row `i` shows `rows[i]` in `styles[i]`,
/// and the rows past the texts are blank.
pub open spec fn text_grid(rows: Seq<Seq<char>>, styles: Seq<RenderCellStyle>, n: nat) -> Seq<CellView>
    decreases n,
{
    if n == 0 {
        Seq::empty()
    } else {
        let row = n - 1;
        text_grid(rows, styles, (n - 1) as nat) + if row < rows.len() {
            text_row(row, rows[row], styles[row])
        } else {
            text_row(row, Seq::empty(), plain_style())
        }
    }
}

/// The background of a patterned row: darker on even rows.
pub open spec fn pattern_background(row: int) -> RenderColor {
    if row % 2 == 0 { rgb(12, 14, 16) } else { rgb(18, 20, 24) }
}

/// The truecolor foreground: red grows down the rows, green falls and blue
/// grows across the columns.
pub open spec fn truecolor_foreground(row: int, col: int) -> RenderColor {
    rgb((80 + row * 16) as u8, (180 - col * 3) as u8, (120 + col * 4) as u8)
}

/// The truecolor background: red grows across the columns, green down the rows.
pub open spec fn truecolor_background(row: int, col: int) -> RenderColor {
    rgb((8 + col * 4) as u8, (18 + row * 8) as u8, 42)
}

/// The cell at `col` of a patterned row: the sample repeated along the row.
pub open spec fn pattern_cell(row: int, col: int, sample: Seq<char>, truecolor: bool) -> CellView {
    let i = col % (sample.len() as int);
    (
        CellPosition { row: row as i64, col: col as u16 },
        sample.subrange(i, i + 1),
        if truecolor { truecolor_foreground(row, col) } else { rgb(226, 226, 220) },
        if truecolor { truecolor_background(row, col) } else { pattern_background(row) },
        plain_style(),
    )
}

pub open spec fn pattern_row(row: int, sample: Seq<char>, truecolor: bool) -> Seq<CellView> {
    Seq::new(24, |col: int| pattern_cell(row, col, sample, truecolor))
}

/// The first `n` rows of a patterned grid: row `i` repeats the sample
/// `samples[i % samples.len()]`.
pub open spec fn pattern_grid(samples: Seq<Seq<char>>, truecolor: bool, n: nat) -> Seq<CellView>
    decreases n,
{
    if n == 0 {
        Seq::empty()
    } else {
        let row = n - 1;
        pattern_grid(samples, truecolor, (n - 1) as nat) + pattern_row(row, samples[row % (samples.len() as int)], truecolor)
    }
}

fn plain_cell_style() -> (r: RenderCellStyle)
    ensures
        r == plain_style(),
{
    RenderCellStyle { bold: false, italic: false, underline: false, strikethrough: false }
}

fn color(red: u8, green: u8, blue: u8, alpha: u8) -> (r: RenderColor)
    ensures
        r == (RenderColor { red, green, blue, alpha }),
{
    RenderColor { red, green, blue, alpha }
}

fn cursor(row: i64, col: u16, shape: RenderCursorShape, inactive: bool) -> (r: CursorVisual)
    ensures
        r == fixture_cursor(row, col, shape, inactive),
{
    CursorVisual {
        position: CellPosition { row, col },
        shape,
        color: if inactive { RenderColor::rgb(120, 120, 128) } else { RenderColor::rgb(245, 245, 235) },
        visible: true,
        thickness_percent: 16,
        corner_radius_px: 0,
        inactive,
    }
}

/// Appends the 24 cells of text row `row`.
fn push_text_row(cells: &mut Vec<RenderCell>, row: u16, text: &str, style: RenderCellStyle)
    requires
        row < 8,
    ensures
        cell_views(final(cells)@) == cell_views(old(cells)@) + text_row(row as int, text@, style),
{
    let n = text.unicode_len();
    let background = if row % 2 == 0 { RenderColor::rgb(11, 14, 18) } else { RenderColor::rgb(17, 21, 27) };
    let mut col: u16 = 0;
    while col < 24
        invariant
            row < 8,
            col <= 24,
            n == text@.len(),
            background == text_background(row as int),
            cell_views(cells@) == cell_views(old(cells)@) + text_row(row as int, text@, style).take(col as int),
        decreases 24 - col,
    {
        let written = (col as usize) < n;
        let piece = if written {
            text.substring_char(col as usize, col as usize + 1).to_owned()
        } else {
            " ".to_owned()
        };
        let cell = RenderCell {
            position: CellPosition { row: row as i64, col },
            text: piece,
            foreground: RenderColor::rgb(232, 232, 226),
            background,
            style: if written { style } else { plain_cell_style() },
        };
        let ghost before = cells@;
        cells.push(cell);
        proof {
            assert(run_view(cell) == text_cell(row as int, col as int, text@, style));
            assert(cell_views(cells@) =~= cell_views(before).push(run_view(cell)));
            assert(text_row(row as int, text@, style).take(col + 1) =~= text_row(row as int, text@, style).take(col as int).push(
                text_cell(row as int, col as int, text@, style),
            ));
        }
        col = col + 1;
    }
    assert(text_row(row as int, text@, style).take(24) =~= text_row(row as int, text@, style));
}

/// The 24 by 8 cells showing `rows` (at most 8), row `i` in `styles[i]`.
fn text_grid_cells(rows: &Vec<String>, styles: &Vec<RenderCellStyle>) -> (r: Vec<RenderCell>)
    requires
        rows.len() <= 8,
        styles.len() == rows.len(),
    ensures
        cell_views(r@) == text_grid(string_views(rows@), styles@, 8),
{
    let mut cells: Vec<RenderCell> = Vec::new();
    let mut row: u16 = 0;
    while row < 8
        invariant
            row <= 8,
            rows.len() <= 8,
            styles.len() == rows.len(),
            cell_views(cells@) == text_grid(string_views(rows@), styles@, row as nat),
        decreases 8 - row,
    {
        if (row as usize) < rows.len() {
            push_text_row(&mut cells, row, rows[row as usize].as_str(), styles[row as usize]);
        } else {
            proof {
                reveal_strlit("");
                assert(""@ =~= Seq::<char>::empty());
            }
            push_text_row(&mut cells, row, "", plain_cell_style());
        }
        proof {
            assert(string_views(rows@).len() == rows@.len());
        }
        row = row + 1;
    }
    cells
}

/// Appends the 24 cells of patterned row `row`.
fn push_pattern_row(cells: &mut Vec<RenderCell>, row: u16, sample: &str, truecolor: bool)
    requires
        row < 8,
        sample@.len() > 0,
    ensures
        cell_views(final(cells)@) == cell_views(old(cells)@) + pattern_row(row as int, sample@, truecolor),
{
    let n = sample.unicode_len();
    let mut col: u16 = 0;
    while col < 24
        invariant
            row < 8,
            col <= 24,
            n == sample@.len(),
            n > 0,
            cell_views(cells@) == cell_views(old(cells)@) + pattern_row(row as int, sample@, truecolor).take(col as int),
        decreases 24 - col,
    {
        let i = (col as usize) % n;
        let (foreground, background) = if truecolor {
            let r8: u8 = (row as u8) * 16 + 80;
            let c3: u8 = 180 - (col as u8) * 3;
            let c4: u8 = (col as u8) * 4 + 120;
            let b4: u8 = (col as u8) * 4 + 8;
            let g8: u8 = (row as u8) * 8 + 18;
            (RenderColor::rgb(r8, c3, c4), RenderColor::rgb(b4, g8, 42))
        } else if row % 2 == 0 {
            (RenderColor::rgb(226, 226, 220), RenderColor::rgb(12, 14, 16))
        } else {
            (RenderColor::rgb(226, 226, 220), RenderColor::rgb(18, 20, 24))
        };
        let cell = RenderCell {
            position: CellPosition { row: row as i64, col },
            text: sample.substring_char(i, i + 1).to_owned(),
            foreground,
            background,
            style: plain_cell_style(),
        };
        let ghost before = cells@;
        cells.push(cell);
        proof {
            assert(run_view(cell) == pattern_cell(row as int, col as int, sample@, truecolor));
            assert(cell_views(cells@) =~= cell_views(before).push(run_view(cell)));
            assert(pattern_row(row as int, sample@, truecolor).take(col + 1) =~= pattern_row(row as int, sample@, truecolor).take(
                col as int,
            ).push(pattern_cell(row as int, col as int, sample@, truecolor)));
        }
        col = col + 1;
    }
    assert(pattern_row(row as int, sample@, truecolor).take(24) =~= pattern_row(row as int, sample@, truecolor));
}

/// The 24 by 8 cells repeating `samples` down the rows.
fn pattern_grid_cells(samples: &Vec<String>, truecolor: bool) -> (r: Vec<RenderCell>)
    requires
        samples.len() > 0,
        forall|i: int| 0 <= i < samples.len() ==> (#[trigger] samples@[i])@.len() > 0,
    ensures
        cell_views(r@) == pattern_grid(string_views(samples@), truecolor, 8),
{
    let mut cells: Vec<RenderCell> = Vec::new();
    let mut row: u16 = 0;
    while row < 8
        invariant
            row <= 8,
            samples.len() > 0,
            forall|i: int| 0 <= i < samples.len() ==> (#[trigger] samples@[i])@.len() > 0,
            cell_views(cells@) == pattern_grid(string_views(samples@), truecolor, row as nat),
        decreases 8 - row,
    {
        let k = (row as usize) % samples.len();
        proof {
            assert(samples@[k as int]@.len() > 0);
            assert(string_views(samples@)[k as int] == samples@[k as int]@);
        }
        push_pattern_row(&mut cells, row, samples[k].as_str(), truecolor);
        row = row + 1;
    }
    cells
}

fn strings4(a: &str, b: &str, c: &str, d: &str) -> (r: Vec<String>)
    ensures
        string_views(r@) == seq![a@, b@, c@, d@],
{
    let mut v: Vec<String> = Vec::new();
    v.push(a.to_owned());
    v.push(b.to_owned());
    v.push(c.to_owned());
    v.push(d.to_owned());
    assert(string_views(v@) =~= seq![a@, b@, c@, d@]);
    v
}

fn plain_styles4() -> (r: Vec<RenderCellStyle>)
    ensures
        r@ == seq![plain_style(), plain_style(), plain_style(), plain_style()],
{
    let mut v: Vec<RenderCellStyle> = Vec::new();
    v.push(plain_cell_style());
    v.push(plain_cell_style());
    v.push(plain_cell_style());
    v.push(plain_cell_style());
    assert(v@ =~= seq![plain_style(), plain_style(), plain_style(), plain_style()]);
    v
}

pub open spec fn plain_styles() -> Seq<RenderCellStyle> {
    seq![plain_style(), plain_style(), plain_style(), plain_style()]
}

/// Four plain text rows.
pub open spec fn plain_rows(a: Seq<char>, b: Seq<char>, c: Seq<char>, d: Seq<char>) -> Seq<CellView> {
    text_grid(seq![a, b, c, d], plain_styles(), 8)
}

/// A scene of four plain text rows with the given cursor and nothing more.
fn text_rows_scene(a: &str, b: &str, c: &str, d: &str, cursor: Option<CursorVisual>) -> (r: RenderScene)
    ensures
        fixture_scene(r, plain_rows(a@, b@, c@, d@), cursor, Seq::empty(), Seq::empty(), Seq::empty()),
{
    let rows = strings4(a, b, c, d);
    let styles = plain_styles4();
    let cells = text_grid_cells(&rows, &styles);
    let r = RenderScene {
        grid: RenderGrid { columns: 24, rows: 8, cells },
        content_offset: RenderOffset { x: 0, y: 0 },
        cursor,
        selections: Vec::new(),
        search_highlights: Vec::new(),
        semantic_overlays: Vec::new(),
        decorations: Vec::new(),
        animations: Vec::new(),
        damage_regions: Vec::new(),
    };
    assert(r.selections@.map_values(|v: SelectionVisual| selection_view(v)) =~= Seq::<SelectionView>::empty());
    assert(r.semantic_overlays@.map_values(|o: OverlayPrimitive| overlay_view(o)) =~= Seq::<OverlayView>::empty());
    r
}

/// A patterned scene with no cursor and nothing more.
fn patterned_scene(samples: &Vec<String>, truecolor: bool) -> (r: RenderScene)
    requires
        samples.len() > 0,
        forall|i: int| 0 <= i < samples.len() ==> (#[trigger] samples@[i])@.len() > 0,
    ensures
        fixture_scene(r, pattern_grid(string_views(samples@), truecolor, 8), None, Seq::empty(), Seq::empty(), Seq::empty()),
{
    let cells = pattern_grid_cells(samples, truecolor);
    let r = RenderScene {
        grid: RenderGrid { columns: 24, rows: 8, cells },
        content_offset: RenderOffset { x: 0, y: 0 },
        cursor: None,
        selections: Vec::new(),
        search_highlights: Vec::new(),
        semantic_overlays: Vec::new(),
        decorations: Vec::new(),
        animations: Vec::new(),
        damage_regions: Vec::new(),
    };
    assert(r.selections@.map_values(|v: SelectionVisual| selection_view(v)) =~= Seq::<SelectionView>::empty());
    assert(r.semantic_overlays@.map_values(|o: OverlayPrimitive| overlay_view(o)) =~= Seq::<OverlayView>::empty());
    r
}

/// The text-styles rows, each in its own style.
pub open spec fn styled_rows() -> Seq<CellView> {
    text_grid(
        seq!["bold text sample"@, "italic text sample"@, "underline sample"@, "strike text sample"@],
        seq![
            RenderCellStyle { bold: true, ..plain_style() },
            RenderCellStyle { italic: true, ..plain_style() },
            RenderCellStyle { underline: true, ..plain_style() },
            RenderCellStyle { strikethrough: true, ..plain_style() },
        ],
        8,
    )
}

pub open spec fn ascii_samples() -> Seq<Seq<char>> {
    seq!["Panea "@, "ASCII "@, "grid  "@]
}

pub open spec fn truecolor_samples() -> Seq<Seq<char>> {
    seq!["red   "@, "green "@, "blue  "@, "cyan  "@]
}

pub open spec fn mark(x: i32, y: i32, width: u32, height: u32, color: RenderColor) -> RenderDecoration {
    RenderDecoration { bounds: RenderRect { x, y, width, height }, color, border_color: None }
}

/// Where a beam at (1, 6), an underline at (2, 10) and a hollow block at
/// (3, 7) start on 8 by 16 cells: the beam one pixel wide, the underline two
/// pixels high on the cell's bottom, the hollow block's top edge.
pub open spec fn cursor_state_marks() -> Seq<RenderDecoration> {
    seq![
        mark(48, 16, 1, 16, rgb(245, 245, 235)),
        mark(80, 46, 8, 2, rgb(245, 245, 235)),
        mark(56, 48, 8, 1, rgb(245, 245, 235)),
    ]
}

/// The selected cells: columns 0 to 11 of row 1, then columns 7 to 11 of row 0.
pub open spec fn selected_cells() -> Seq<CellPosition> {
    Seq::new(12, |c: int| CellPosition { row: 1, col: c as u16 }) + Seq::new(5, |c: int| CellPosition { row: 0, col: (c + 7) as u16 })
}

pub open spec fn pane_borders() -> Seq<RenderDecoration> {
    seq![mark(0, 61, 200, 2, rgb(110, 110, 118)), mark(100, 0, 2, 128, rgb(110, 110, 118))]
}

pub open spec fn prompt_overlays() -> Seq<OverlayView> {
    seq![(
        OverlayKind::PromptDecoration,
        RenderRect { x: 4, y: 2, width: 150, height: 20 },
        RenderColor { red: 46, green: 88, blue: 98, alpha: 72 },
        Some(rgb(92, 170, 180)),
        4u8,
        5i16,
        Some("prompt"@),
    )]
}

/// A command block overlay: the color at a quarter strength, its border
/// stronger, with the label "command".
pub open spec fn command_block(x: i32, y: i32, width: u32, height: u32, c: RenderColor) -> OverlayView {
    (
        OverlayKind::CommandBlock,
        RenderRect { x, y, width, height },
        RenderColor { alpha: 62, ..c },
        Some(RenderColor { alpha: 150, ..c }),
        4u8,
        8i16,
        Some("command"@),
    )
}

pub open spec fn command_overlays() -> Seq<OverlayView> {
    seq![command_block(0, 0, 190, 62, rgb(72, 112, 76)), command_block(0, 66, 190, 44, rgb(120, 80, 70))]
}

pub open spec fn transparency_overlays() -> Seq<OverlayView> {
    seq![
        (
            OverlayKind::Decoration,
            RenderRect { x: 18, y: 18, width: 112, height: 42 },
            RenderColor { red: 180, green: 80, blue: 120, alpha: 96 },
            Some(RenderColor { red: 255, green: 220, blue: 180, alpha: 180 }),
            3u8,
            2i16,
            Some("opacity"@),
        ),
        (
            OverlayKind::Badge,
            RenderRect { x: 58, y: 44, width: 116, height: 34 },
            RenderColor { red: 40, green: 160, blue: 180, alpha: 88 },
            None,
            2u8,
            3i16,
            Some("badge"@),
        ),
    ]
}

/// The scene of fixture `i`, in the order of `fixture_names`. A scene holds
/// what `RenderScene` carries: the cursor-image fixture's image cursor and the
/// fullscreen fixtures' window chrome are not part of it.
pub open spec fn fixture_scene_at(i: int, s: RenderScene) -> bool {
    let none_sel = Seq::<SelectionView>::empty();
    let none_ov = Seq::<OverlayView>::empty();
    let none_dec = Seq::<RenderDecoration>::empty();
    let beam = Some(fixture_cursor(0, 0, RenderCursorShape::Beam, false));
    if i == 0 {
        fixture_scene(s, pattern_grid(ascii_samples(), false, 8), Some(fixture_cursor(2, 8, RenderCursorShape::Block, false)), none_sel, none_ov, none_dec)
    } else if i == 1 {
        fixture_scene(s, pattern_grid(truecolor_samples(), true, 8), None, none_sel, none_ov, none_dec)
    } else if i == 2 {
        fixture_scene(s, styled_rows(), None, none_sel, none_ov, none_dec)
    } else if i == 3 {
        fixture_scene(s, plain_rows("Panea terminal"@, "wide CJK: 端末 性能"@, "mixed: build 測定 ok"@, "copy keeps cells"@), beam, none_sel, none_ov, none_dec)
    } else if i == 4 {
        fixture_scene(s, plain_rows("emoji: 🚀 ✅ ⚠️"@, "skin tone: 👍🏽"@, "zwj: 👩‍💻"@, "variant: ✨ ✈️"@), beam, none_sel, none_ov, none_dec)
    } else if i == 5 {
        fixture_scene(s, plain_rows("block cursor"@, "beam cursor"@, "underline cursor"@, "hollow inactive"@), Some(fixture_cursor(0, 6, RenderCursorShape::Block, false)), none_sel, none_ov, cursor_state_marks())
    } else if i == 6 {
        fixture_scene(s, plain_rows("custom image cursor"@, "RGBA overlay asset"@, "raw cells unchanged"@, "bounded GPU upload"@), beam, none_sel, none_ov, none_dec)
    } else if i == 7 {
        fixture_scene(s, plain_rows("select these words"@, "selection line two"@, "normal terminal text"@, "copy range stable"@), None, seq![(selected_cells(), RenderColor { red: 60, green: 120, blue: 210, alpha: 150 })], none_ov, none_dec)
    } else if i == 8 {
        fixture_scene(s, plain_rows("panea ~/work main"@, "$ cargo test -q"@, "running tests..."@, "ok"@), beam, none_sel, prompt_overlays(), none_dec)
    } else if i == 9 {
        fixture_scene(s, plain_rows("$ rg render"@, "render-core/src/lib.rs"@, "render-wgpu/src/lib.rs"@, "$ cargo test"@), beam, none_sel, command_overlays(), none_dec)
    } else if i == 10 {
        fixture_scene(s, plain_rows("pane 1 build"@, "pane 1 output"@, "pane 2 shell"@, "pane 2 logs"@), beam, none_sel, none_ov, pane_borders())
    } else if i == 11 {
        fixture_scene(s, pattern_grid(truecolor_samples(), true, 8), None, none_sel, transparency_overlays(), none_dec)
    } else {
        fixture_scene(s, plain_rows("PS C:\\Users\\panea>"@, "cargo test -q"@, "running 42 tests"@, "test result: ok"@), Some(fixture_cursor(1, 13, RenderCursorShape::Beam, false)), none_sel, none_ov, none_dec)
    }
}

fn ascii_grid_scene() -> (r: RenderScene)
    ensures
        fixture_scene_at(0, r),
{
    let mut samples: Vec<String> = Vec::new();
    samples.push("Panea ".to_owned());
    samples.push("ASCII ".to_owned());
    samples.push("grid  ".to_owned());
    proof {
        reveal_strlit("Panea ");
        reveal_strlit("ASCII ");
        reveal_strlit("grid  ");
        assert(string_views(samples@) =~= ascii_samples());
    }
    let mut scene = patterned_scene(&samples, false);
    scene.cursor = Some(cursor(2, 8, RenderCursorShape::Block, false));
    scene
}

fn truecolor_grid_scene() -> (r: RenderScene)
    ensures
        fixture_scene_at(1, r),
        fixture_scene(r, pattern_grid(truecolor_samples(), true, 8), None, Seq::empty(), Seq::empty(), Seq::empty()),
{
    let mut samples: Vec<String> = Vec::new();
    samples.push("red   ".to_owned());
    samples.push("green ".to_owned());
    samples.push("blue  ".to_owned());
    samples.push("cyan  ".to_owned());
    proof {
        reveal_strlit("red   ");
        reveal_strlit("green ");
        reveal_strlit("blue  ");
        reveal_strlit("cyan  ");
        assert(string_views(samples@) =~= truecolor_samples());
    }
    patterned_scene(&samples, true)
}

fn text_styles_scene() -> (r: RenderScene)
    ensures
        fixture_scene_at(2, r),
{
    let rows = strings4("bold text sample", "italic text sample", "underline sample", "strike text sample");
    let mut styles: Vec<RenderCellStyle> = Vec::new();
    styles.push(RenderCellStyle { bold: true, italic: false, underline: false, strikethrough: false });
    styles.push(RenderCellStyle { bold: false, italic: true, underline: false, strikethrough: false });
    styles.push(RenderCellStyle { bold: false, italic: false, underline: true, strikethrough: false });
    styles.push(RenderCellStyle { bold: false, italic: false, underline: false, strikethrough: true });
    let cells = text_grid_cells(&rows, &styles);
    proof {
        assert(string_views(rows@) =~= seq!["bold text sample"@, "italic text sample"@, "underline sample"@, "strike text sample"@]);
        assert(styles@ =~= seq![
            RenderCellStyle { bold: true, ..plain_style() },
            RenderCellStyle { italic: true, ..plain_style() },
            RenderCellStyle { underline: true, ..plain_style() },
            RenderCellStyle { strikethrough: true, ..plain_style() },
        ]);
    }
    let mut scene = text_rows_scene("", "", "", "", None);
    scene.grid.cells = cells;
    scene
}

fn cjk_scene() -> (r: RenderScene)
    ensures
        fixture_scene_at(3, r),
{
    let scene = text_rows_scene("Panea terminal", "wide CJK: 端末 性能", "mixed: build 測定 ok", "copy keeps cells", Some(cursor(0, 0, RenderCursorShape::Beam, false)));
    scene
}

fn emoji_scene() -> (r: RenderScene)
    ensures
        fixture_scene_at(4, r),
{
    let scene = text_rows_scene("emoji: 🚀 ✅ ⚠️", "skin tone: 👍🏽", "zwj: 👩‍💻", "variant: ✨ ✈️", Some(cursor(0, 0, RenderCursorShape::Beam, false)));
    scene
}

fn cursor_states_scene() -> (r: RenderScene)
    ensures
        fixture_scene_at(5, r),
{
    let mut scene = text_rows_scene("block cursor", "beam cursor", "underline cursor", "hollow inactive", Some(cursor(0, 6, RenderCursorShape::Block, false)));
    let white = RenderColor::rgb(245, 245, 235);
    scene.decorations = vec![
        RenderDecoration { bounds: RenderRect { x: 48, y: 16, width: 1, height: 16 }, color: white, border_color: None },
        RenderDecoration { bounds: RenderRect { x: 80, y: 46, width: 8, height: 2 }, color: white, border_color: None },
        RenderDecoration { bounds: RenderRect { x: 56, y: 48, width: 8, height: 1 }, color: white, border_color: None },
    ];
    assert(scene.decorations@ =~= cursor_state_marks());
    scene
}

fn cursor_image_scene() -> (r: RenderScene)
    ensures
        fixture_scene_at(6, r),
{
    let scene = text_rows_scene("custom image cursor", "RGBA overlay asset", "raw cells unchanged", "bounded GPU upload", Some(cursor(0, 0, RenderCursorShape::Beam, false)));
    scene
}

fn selection_scene() -> (r: RenderScene)
    ensures
        fixture_scene_at(7, r),
{
    let mut cells: Vec<CellPosition> = Vec::new();
    let mut col: u16 = 0;
    while col < 12
        invariant
            col <= 12,
            cells@ =~= Seq::new(col as nat, |c: int| CellPosition { row: 1, col: c as u16 }),
        decreases 12 - col,
    {
        cells.push(CellPosition { row: 1, col });
        col = col + 1;
    }
    let mut tail: u16 = 7;
    while tail < 12
        invariant
            7 <= tail <= 12,
            cells@ =~= Seq::new(12, |c: int| CellPosition { row: 1, col: c as u16 })
                + Seq::new((tail - 7) as nat, |c: int| CellPosition { row: 0, col: (c + 7) as u16 }),
        decreases 12 - tail,
    {
        cells.push(CellPosition { row: 0, col: tail });
        tail = tail + 1;
    }
    let mut scene = text_rows_scene("select these words", "selection line two", "normal terminal text", "copy range stable", None);
    scene.selections = vec![SelectionVisual { cells, color: color(60, 120, 210, 150) }];
    assert(scene.selections@.map_values(|v: SelectionVisual| selection_view(v)) =~= seq![
        (selected_cells(), RenderColor { red: 60, green: 120, blue: 210, alpha: 150 }),
    ]);
    scene
}

fn prompt_decoration_scene() -> (r: RenderScene)
    ensures
        fixture_scene_at(8, r),
{
    let mut scene = text_rows_scene("panea ~/work main", "$ cargo test -q", "running tests...", "ok", Some(cursor(0, 0, RenderCursorShape::Beam, false)));
    scene.semantic_overlays = vec![OverlayPrimitive {
        kind: OverlayKind::PromptDecoration,
        bounds: RenderRect { x: 4, y: 2, width: 150, height: 20 },
        color: color(46, 88, 98, 72),
        border_color: Some(RenderColor::rgb(92, 170, 180)),
        corner_radius_px: 4,
        z_index: 5,
        label: Some("prompt".to_owned()),
    }];
    assert(scene.semantic_overlays@.map_values(|o: OverlayPrimitive| overlay_view(o)) =~= prompt_overlays());
    scene
}

fn command_block_overlay(x: i32, y: i32, width: u32, height: u32, c: RenderColor) -> (r: OverlayPrimitive)
    ensures
        overlay_view(r) == command_block(x, y, width, height, c),
{
    OverlayPrimitive {
        kind: OverlayKind::CommandBlock,
        bounds: RenderRect { x, y, width, height },
        color: color(c.red, c.green, c.blue, 62),
        border_color: Some(color(c.red, c.green, c.blue, 150)),
        corner_radius_px: 4,
        z_index: 8,
        label: Some("command".to_owned()),
    }
}

fn command_blocks_scene() -> (r: RenderScene)
    ensures
        fixture_scene_at(9, r),
{
    let mut scene = text_rows_scene("$ rg render", "render-core/src/lib.rs", "render-wgpu/src/lib.rs", "$ cargo test", Some(cursor(0, 0, RenderCursorShape::Beam, false)));
    let first = command_block_overlay(0, 0, 190, 62, RenderColor::rgb(72, 112, 76));
    let second = command_block_overlay(0, 66, 190, 44, RenderColor::rgb(120, 80, 70));
    scene.semantic_overlays = vec![first, second];
    assert(scene.semantic_overlays@.map_values(|o: OverlayPrimitive| overlay_view(o)) =~= command_overlays());
    scene
}

fn multiple_panes_scene() -> (r: RenderScene)
    ensures
        fixture_scene_at(10, r),
{
    let mut scene = text_rows_scene("pane 1 build", "pane 1 output", "pane 2 shell", "pane 2 logs", Some(cursor(0, 0, RenderCursorShape::Beam, false)));
    let grey = RenderColor::rgb(110, 110, 118);
    scene.decorations = vec![
        RenderDecoration { bounds: RenderRect { x: 0, y: 61, width: 200, height: 2 }, color: grey, border_color: None },
        RenderDecoration { bounds: RenderRect { x: 100, y: 0, width: 2, height: 128 }, color: grey, border_color: None },
    ];
    assert(scene.decorations@ =~= pane_borders());
    scene
}

fn transparency_scene() -> (r: RenderScene)
    ensures
        fixture_scene_at(11, r),
{
    let mut scene = truecolor_grid_scene();
    scene.semantic_overlays = vec![
        OverlayPrimitive {
            kind: OverlayKind::Decoration,
            bounds: RenderRect { x: 18, y: 18, width: 112, height: 42 },
            color: color(180, 80, 120, 96),
            border_color: Some(color(255, 220, 180, 180)),
            corner_radius_px: 3,
            z_index: 2,
            label: Some("opacity".to_owned()),
        },
        OverlayPrimitive {
            kind: OverlayKind::Badge,
            bounds: RenderRect { x: 58, y: 44, width: 116, height: 34 },
            color: color(40, 160, 180, 88),
            border_color: None,
            corner_radius_px: 2,
            z_index: 3,
            label: Some("badge".to_owned()),
        },
    ];
    assert(scene.semantic_overlays@.map_values(|o: OverlayPrimitive| overlay_view(o)) =~= transparency_overlays());
    scene
}

fn fullscreen_chrome_scene() -> (r: RenderScene)
    ensures
        fixture_scene_at(12, r),
{
    text_rows_scene("PS C:\\Users\\panea>", "cargo test -q", "running 42 tests", "test result: ok", Some(cursor(1, 13, RenderCursorShape::Beam, false)))
}


/// A named screenshot fixture and the scene it draws.
#[derive(Debug, Clone, PartialEq, Eq)]
pub struct ScreenshotFixture {
    pub name: String,
    pub description: String,
    pub kind: ScreenshotFixtureKind,
    pub scene: RenderScene,
}

/// Fixture `i` as `screenshot_fixtures` lists it.
pub open spec fn is_fixture(i: int, f: ScreenshotFixture) -> bool {
    &&& f.name@ == fixture_names()[i]
    &&& f.description@ == fixture_descriptions()[i]
    &&& f.kind == fixture_kinds()[i]
    &&& fixture_scene_at(i, f.scene)
}

fn scene_at(i: usize) -> (r: RenderScene)
    requires
        i < 17,
    ensures
        fixture_scene_at(i as int, r),
{
    if i == 0 {
        ascii_grid_scene()
    } else if i == 1 {
        truecolor_grid_scene()
    } else if i == 2 {
        text_styles_scene()
    } else if i == 3 {
        cjk_scene()
    } else if i == 4 {
        emoji_scene()
    } else if i == 5 {
        cursor_states_scene()
    } else if i == 6 {
        cursor_image_scene()
    } else if i == 7 {
        selection_scene()
    } else if i == 8 {
        prompt_decoration_scene()
    } else if i == 9 {
        command_blocks_scene()
    } else if i == 10 {
        multiple_panes_scene()
    } else if i == 11 {
        transparency_scene()
    } else {
        let r = fullscreen_chrome_scene();
        assert(fixture_scene_at(i as int, r));
        r
    }
}

/// Every screenshot fixture, in capture order. The five fullscreen-chrome
/// fixtures differ only in the window chrome they reveal, which these scenes
/// do not carry, so their scenes are alike.
pub fn screenshot_fixtures() -> (r: Vec<ScreenshotFixture>)
    ensures
        r.len() == fixture_names().len(),
        forall|i: int| 0 <= i < r.len() ==> is_fixture(i, #[trigger] r@[i]),
{
    let names = screenshot_fixture_names();
    let descriptions = screenshot_fixture_descriptions();
    let kinds = screenshot_fixture_kinds();
    let mut fixtures: Vec<ScreenshotFixture> = Vec::new();
    assert(string_views(names@).len() == names@.len());
    assert(string_views(descriptions@).len() == descriptions@.len());
    let mut i: usize = 0;
    while i < 17
        invariant
            i <= 17,
            names.len() == 17,
            descriptions.len() == 17,
            kinds.len() == 17,
            string_views(names@) == fixture_names(),
            string_views(descriptions@) == fixture_descriptions(),
            kinds@ == fixture_kinds(),
            fixtures.len() == i,
            forall|j: int| 0 <= j < i ==> is_fixture(j, #[trigger] fixtures@[j]),
        decreases 17 - i,
    {
        proof {
            assert(string_views(names@)[i as int] == names@[i as int]@);
            assert(string_views(descriptions@)[i as int] == descriptions@[i as int]@);
        }
        let fixture = ScreenshotFixture {
            name: names[i].clone(),
            description: descriptions[i].clone(),
            kind: kinds[i],
            scene: scene_at(i),
        };
        fixtures.push(fixture);
        i = i + 1;
    }
    fixtures
}

/// The fixture named `name`; an unknown name is refused with
/// `ScreenshotError::UnknownFixture` carrying the name, before anything is drawn.
pub fn screenshot_fixture(name: &str) -> (r: Result<ScreenshotFixture, ScreenshotError>)
    ensures
        r is Ok <==> fixture_names().contains(name@),
        r matches Ok(f) ==> exists|i: int| 0 <= i < fixture_names().len() && f.name@ == name@ && is_fixture(i, f),
        r matches Err(e) ==> e matches ScreenshotError::UnknownFixture(n) && n@ == name@,
{
    let mut fixtures = screenshot_fixtures();
    let mut i: usize = 0;
    while i < fixtures.len()
        invariant
            i <= fixtures.len(),
            fixtures.len() == fixture_names().len(),
            forall|j: int| 0 <= j < fixtures.len() ==> is_fixture(j, #[trigger] fixtures@[j]),
            forall|j: int| 0 <= j < i ==> fixture_names()[j] != name@,
        decreases fixtures.len() - i,
    {
        proof {
            assert(is_fixture(i as int, fixtures@[i as int]));
        }
        if str_eq(fixtures[i].name.as_str(), name) {
            let found = fixtures.remove(i);
            return Ok(found);
        }
        i = i + 1;
    }
    proof {
        assert forall|j: int| 0 <= j < fixture_names().len() implies fixture_names()[j] != name@ by {}
    }
    Err(ScreenshotError::UnknownFixture(name.to_owned()))
}


/// The cells cover a grid of 24 columns and `n` rows once each, in row-major
/// order: cell `k` stands at row `k / 24`, column `k % 24`.
pub open spec fn row_major(cells: Seq<CellView>, n: nat) -> bool {
    &&& cells.len() == 24 * n
    &&& forall|k: int| 0 <= k < cells.len() ==> (#[trigger] cells[k]).0 == (CellPosition { row: (k / 24) as i64, col: (k % 24) as u16 })
}

proof fn lemma_row_step(k: int, n: int)
    requires
        24 * (n - 1) <= k < 24 * n,
    ensures
        k / 24 == n - 1,
        k % 24 == k - 24 * (n - 1),
{
    assert(k / 24 == n - 1 && k % 24 == k - 24 * (n - 1)) by (nonlinear_arith)
        requires
            24 * (n - 1) <= k < 24 * n,
    ;
}

proof fn lemma_text_grid_row_major(rows: Seq<Seq<char>>, styles: Seq<RenderCellStyle>, n: nat)
    requires
        n <= 8,
    ensures
        row_major(text_grid(rows, styles, n), n),
    decreases n,
{
    if n > 0 {
        lemma_text_grid_row_major(rows, styles, (n - 1) as nat);
        let g = text_grid(rows, styles, n);
        assert forall|k: int| 0 <= k < g.len() implies (#[trigger] g[k]).0 == (CellPosition { row: (k / 24) as i64, col: (k % 24) as u16 }) by {
            if k >= 24 * (n - 1) {
                lemma_row_step(k, n as int);
            }
        }
    }
}

proof fn lemma_pattern_grid_row_major(samples: Seq<Seq<char>>, truecolor: bool, n: nat)
    requires
        n <= 8,
    ensures
        row_major(pattern_grid(samples, truecolor, n), n),
    decreases n,
{
    if n > 0 {
        lemma_pattern_grid_row_major(samples, truecolor, (n - 1) as nat);
        let g = pattern_grid(samples, truecolor, n);
        assert forall|k: int| 0 <= k < g.len() implies (#[trigger] g[k]).0 == (CellPosition { row: (k / 24) as i64, col: (k % 24) as u16 }) by {
            if k >= 24 * (n - 1) {
                lemma_row_step(k, n as int);
            }
        }
    }
}

/// Every fixture's grid holds one cell for each of its 24 by 8 positions, in
/// row-major order.
pub proof fn lemma_fixture_grids_row_major(i: int, s: RenderScene)
    requires
        0 <= i < fixture_names().len(),
        fixture_scene_at(i, s),
    ensures
        row_major(cell_views(s.grid.cells@), 8),
        s.grid.cells.len() == s.grid.columns * s.grid.rows,
{
    if i == 0 {
        lemma_pattern_grid_row_major(ascii_samples(), false, 8);
    } else if i == 1 || i == 11 {
        lemma_pattern_grid_row_major(truecolor_samples(), true, 8);
    } else if i == 2 {
        lemma_text_grid_row_major(
            seq!["bold text sample"@, "italic text sample"@, "underline sample"@, "strike text sample"@],
            seq![
                RenderCellStyle { bold: true, ..plain_style() },
                RenderCellStyle { italic: true, ..plain_style() },
                RenderCellStyle { underline: true, ..plain_style() },
                RenderCellStyle { strikethrough: true, ..plain_style() },
            ],
            8,
        );
    } else {
        assert forall|rows: Seq<Seq<char>>| #[trigger] row_major(
            text_grid(rows, plain_styles(), 8),
            8,
        ) by {
            lemma_text_grid_row_major(rows, plain_styles(), 8);
        }
    }
    assert(cell_views(s.grid.cells@).len() == s.grid.cells@.len());
}

} // verus!
