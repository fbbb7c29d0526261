use panea::fixtures::{screenshot_fixture, screenshot_fixtures};
use panea::ppm::{screenshot_fixture_names, ScreenshotError, ScreenshotFixtureKind};
use panea::render_core::{OverlayKind, RenderColor, RenderCursorShape};

fn cell_text(fixture: &panea::fixtures::ScreenshotFixture, row: i64, col: u16) -> String {
    let cell = fixture
        .scene
        .grid
        .cells
        .iter()
        .find(|cell| cell.position.row == row && cell.position.col == col)
        .expect("cell present");
    cell.text.clone()
}

#[test]
fn fixtures_follow_the_name_list() {
    let fixtures = screenshot_fixtures();
    let names = screenshot_fixture_names();
    assert_eq!(fixtures.len(), 17);
    for (fixture, name) in fixtures.iter().zip(names.iter()) {
        assert_eq!(&fixture.name, name);
        assert_eq!(fixture.scene.grid.columns, 24);
        assert_eq!(fixture.scene.grid.rows, 8);
        assert_eq!(fixture.scene.grid.cells.len(), 24 * 8);
    }
    assert_eq!(fixtures[0].description, "plain ASCII grid with cursor");
    assert_eq!(fixtures[16].kind, ScreenshotFixtureKind::FullscreenChrome);
}

#[test]
fn fixture_cells_are_row_major_and_padded() {
    let fixture = screenshot_fixture("cursor-states").unwrap();
    for (index, cell) in fixture.scene.grid.cells.iter().enumerate() {
        assert_eq!(cell.position.row, (index / 24) as i64);
        assert_eq!(usize::from(cell.position.col), index % 24);
    }
    assert_eq!(cell_text(&fixture, 0, 0), "b");
    assert_eq!(cell_text(&fixture, 0, 11), "r");
    assert_eq!(cell_text(&fixture, 0, 12), " ");
    assert_eq!(cell_text(&fixture, 7, 23), " ");
    let even = &fixture.scene.grid.cells[0];
    let odd = &fixture.scene.grid.cells[24];
    assert_eq!(even.background, RenderColor::rgb(11, 14, 18));
    assert_eq!(odd.background, RenderColor::rgb(17, 21, 27));
    assert_eq!(even.foreground, RenderColor::rgb(232, 232, 226));
    let cursor = fixture.scene.cursor.unwrap();
    assert_eq!((cursor.position.row, cursor.position.col), (0, 6));
    assert_eq!(cursor.shape, RenderCursorShape::Block);
    assert_eq!(fixture.scene.decorations.len(), 3);
    assert_eq!(fixture.scene.decorations[1].bounds.y, 46);
}

#[test]
fn wide_text_fixture_keeps_one_character_per_cell() {
    let fixture = screenshot_fixture("cjk-wide").unwrap();
    assert_eq!(cell_text(&fixture, 1, 10), "端");
    assert_eq!(cell_text(&fixture, 1, 11), "末");
    assert_eq!(cell_text(&fixture, 1, 12), " ");
    let emoji = screenshot_fixture("emoji").unwrap();
    assert_eq!(cell_text(&emoji, 2, 5), "👩");
    assert_eq!(cell_text(&emoji, 2, 6), "\u{200d}");
}

#[test]
fn patterned_fixtures_repeat_their_samples() {
    let ascii = screenshot_fixture("ascii-grid").unwrap();
    assert_eq!(cell_text(&ascii, 0, 0), "P");
    assert_eq!(cell_text(&ascii, 0, 6), "P");
    assert_eq!(cell_text(&ascii, 1, 1), "S");
    assert_eq!(cell_text(&ascii, 3, 0), "P");
    assert_eq!(ascii.scene.grid.cells[0].background, RenderColor::rgb(12, 14, 16));
    let cursor = ascii.scene.cursor.unwrap();
    assert_eq!((cursor.position.row, cursor.position.col), (2, 8));

    let truecolor = screenshot_fixture("truecolor-grid").unwrap();
    let cell = &truecolor.scene.grid.cells[3 * 24 + 5];
    assert_eq!(cell.foreground, RenderColor::rgb(128, 165, 140));
    assert_eq!(cell.background, RenderColor::rgb(28, 42, 42));
    assert_eq!(cell.text, " ");
    assert_eq!(truecolor.scene.grid.cells[3 * 24 + 2].text, "a");
    assert!(truecolor.scene.cursor.is_none());
}

#[test]
fn overlay_fixtures_carry_their_overlays() {
    let blocks = screenshot_fixture("command-blocks").unwrap();
    assert_eq!(blocks.scene.semantic_overlays.len(), 2);
    let first = &blocks.scene.semantic_overlays[0];
    assert_eq!(first.kind, OverlayKind::CommandBlock);
    assert_eq!(first.color.alpha, 62);
    assert_eq!(first.border_color.unwrap().alpha, 150);
    assert_eq!(first.label.as_deref(), Some("command"));

    let selection = screenshot_fixture("selection-states").unwrap();
    assert_eq!(selection.scene.selections[0].cells.len(), 17);
    assert_eq!(selection.scene.selections[0].cells[12].col, 7);
    assert_eq!(selection.scene.selections[0].cells[12].row, 0);
}

#[test]
fn unknown_fixture_name_is_refused() {
    assert_eq!(
        screenshot_fixture("no-such-fixture"),
        Err(ScreenshotError::UnknownFixture("no-such-fixture".to_owned()))
    );
}
