use retach::screen::cell::Cell;
use retach::screen::grid::{CursorShape, Grid};
use retach::screen::render::{
    render_line, render_screen, render_screen_impl, render_screen_with_scrollback,
};
use retach::screen::style::{Color, Style, UnderlineStyle};
use retach::screen::RenderCache;

#[test]
fn render_line_blank() {
    let row = vec![Cell::default(); 80];
    let result = render_line(&row);
    assert!(result.is_empty(), "blank line should produce empty vec");
}

#[test]
fn render_line_with_text() {
    let mut row = vec![Cell::default(); 10];
    row[0].c = 'H';
    row[1].c = 'i';
    let result = render_line(&row);
    assert_eq!(result, b"Hi");
}

#[test]
fn render_line_with_style() {
    let mut row = vec![Cell::default(); 10];
    row[0].c = 'R';
    row[0].style.fg = Some(Color::Indexed(1));
    let result = render_line(&row);
    // Should have combined reset+set SGR, then 'R', then reset
    assert!(result.starts_with(b"\x1b[0;31mR"),
        "expected combined reset+set, got: {:?}", String::from_utf8_lossy(&result));
    assert!(result.ends_with(b"\x1b[0m"));
}

#[test]
fn render_screen_full() {
    let grid = Grid::new(10, 3);
    let mut cache = RenderCache::new();
    let result = render_screen(&grid, "", true, &mut cache);
    let text = String::from_utf8_lossy(&result);
    // Should contain clear screen sequence
    assert!(text.contains("\x1b[2J\x1b[H"));
    // Should contain cursor position
    assert!(text.contains("\x1b[1;1H"));
}

#[test]
fn render_screen_incremental() {
    let grid = Grid::new(10, 3);
    let mut cache = RenderCache::new();
    let result = render_screen(&grid, "", false, &mut cache);
    let text = String::from_utf8_lossy(&result);
    // Should NOT contain clear screen
    assert!(!text.contains("\x1b[2J"));
}

#[test]
fn render_line_skips_wide_char_continuation() {
    let mut row = vec![Cell::default(); 10];
    row[0] = Cell { c: '你', combining: Vec::new(), style: Style::default(), width: 2 };
    row[1] = Cell { c: '\0', combining: Vec::new(), style: Style::default(), width: 0 };
    row[2].c = 'A';
    let result = render_line(&row);
    let text = String::from_utf8_lossy(&result);
    assert!(text.contains('你'));
    assert!(text.contains('A'));
    // Should not contain null bytes
    assert!(!text.contains('\0'));
}

#[test]
fn render_screen_includes_title() {
    let grid = Grid::new(10, 3);
    let mut cache = RenderCache::new();
    let result = render_screen(&grid, "My Title", false, &mut cache);
    let text = String::from_utf8_lossy(&result);
    assert!(text.contains("\x1b]2;My Title\x07"));
}

#[test]
fn render_screen_no_title_when_empty() {
    let grid = Grid::new(10, 3);
    let mut cache = RenderCache::new();
    let result = render_screen(&grid, "", false, &mut cache);
    let text = String::from_utf8_lossy(&result);
    assert!(!text.contains("\x1b]2;"));
}

#[test]
fn render_screen_hidden_cursor() {
    let mut grid = Grid::new(10, 3);
    grid.cursor_visible = false;
    let mut cache = RenderCache::new();
    let result = render_screen(&grid, "", false, &mut cache);
    let text = String::from_utf8_lossy(&result);
    // Should hide cursor at top
    assert!(text.contains("\x1b[?25l"));
    // Should NOT restore cursor (it was hidden)
    assert!(!text.contains("\x1b[?25h"));
}

#[test]
fn render_screen_incremental_dirty_tracking() {
    let mut grid = Grid::new(10, 5);
    // Move cursor to a unique position so cursor-position output doesn't
    // collide with row-position sequences we're checking.
    grid.cursor_x = 3;
    grid.cursor_y = 4;
    let mut cache = RenderCache::new();
    // First render: all rows are drawn
    let result1 = render_screen(&grid, "", false, &mut cache);
    let text1 = String::from_utf8_lossy(&result1);
    // All 5 rows should be positioned
    assert!(text1.contains("\x1b[1;1H"), "row 1 should be drawn on first render");
    assert!(text1.contains("\x1b[2;1H"), "row 2 should be drawn on first render");
    assert!(text1.contains("\x1b[3;1H"), "row 3 should be drawn on first render");

    // Second render without changes: content rows should be skipped
    let result2 = render_screen(&grid, "", false, &mut cache);
    let text2 = String::from_utf8_lossy(&result2);
    // Row-content positioning should NOT appear (cache hit)
    // (Note: \x1b[5;4H will still appear for cursor positioning)
    assert!(!text2.contains("\x1b[1;1H"),
        "unchanged rows should be skipped in incremental render");
    assert!(!text2.contains("\x1b[2;1H"),
        "unchanged rows should be skipped in incremental render");

    // Now change row 2 (0-indexed=1) and render again
    grid.visible_row_mut(1)[0].c = 'X';
    let result3 = render_screen(&grid, "", false, &mut cache);
    let text3 = String::from_utf8_lossy(&result3);
    // Row 2 (1-indexed) should be redrawn
    assert!(text3.contains("\x1b[2;1H"),
        "changed row should be redrawn in incremental render");
    // Other rows should still be skipped
    assert!(!text3.contains("\x1b[1;1H"),
        "unchanged row 1 should be skipped");
    assert!(!text3.contains("\x1b[3;1H"),
        "unchanged row 3 should be skipped");
}

#[test]
fn render_screen_synchronized_output() {
    let grid = Grid::new(10, 3);
    let mut cache = RenderCache::new();
    let result = render_screen(&grid, "", false, &mut cache);
    let text = String::from_utf8_lossy(&result);
    // Must start with sync begin and end with sync end
    assert!(text.starts_with("\x1b[?2026h"),
        "render should start with synchronized output begin");
    assert!(text.ends_with("\x1b[?2026l"),
        "render should end with synchronized output end");
}

#[test]
fn render_screen_cursor_position() {
    let mut grid = Grid::new(10, 5);
    grid.cursor_x = 4;
    grid.cursor_y = 2;
    let mut cache = RenderCache::new();
    let result = render_screen(&grid, "", true, &mut cache);
    let text = String::from_utf8_lossy(&result);
    // Cursor should be positioned at row 3, col 5 (1-indexed)
    assert!(text.contains("\x1b[3;5H"),
        "cursor should be at row 3, col 5 (1-indexed), got: {:?}",
        text.matches("\x1b[").collect::<Vec<_>>());
}

#[test]
fn render_screen_title_cached() {
    let grid = Grid::new(10, 3);
    let mut cache = RenderCache::new();
    // First render with title
    let result1 = render_screen(&grid, "Title1", false, &mut cache);
    assert!(String::from_utf8_lossy(&result1).contains("\x1b]2;Title1\x07"));

    // Second render with same title: should NOT re-emit
    let result2 = render_screen(&grid, "Title1", false, &mut cache);
    assert!(!String::from_utf8_lossy(&result2).contains("\x1b]2;"),
        "same title should not be re-emitted");

    // Third render with different title: should emit
    let result3 = render_screen(&grid, "Title2", false, &mut cache);
    assert!(String::from_utf8_lossy(&result3).contains("\x1b]2;Title2\x07"),
        "changed title should be emitted");
}

#[test]
fn render_screen_title_sanitized() {
    let grid = Grid::new(10, 3);
    let mut cache = RenderCache::new();
    // Title with BEL (0x07) that would break OSC
    let evil_title = "bad\x07title";
    let result = render_screen(&grid, evil_title, false, &mut cache);
    let text = String::from_utf8_lossy(&result);
    // The OSC should contain "badtitle" (BEL stripped), not terminate early
    assert!(text.contains("\x1b]2;badtitle\x07"),
        "control chars should be stripped from title");
}

#[test]
fn render_line_multiple_style_changes() {
    let mut row = vec![Cell::default(); 10];
    row[0].c = 'R';
    row[0].style.fg = Some(Color::Indexed(1)); // red
    row[1].c = 'G';
    row[1].style.fg = Some(Color::Indexed(2)); // green
    row[2].c = 'N'; // default style
    let result = render_line(&row);
    let text = String::from_utf8_lossy(&result);
    // Should have red, then reset+green, then reset
    assert!(text.contains("R"), "should contain 'R'");
    assert!(text.contains("G"), "should contain 'G'");
    assert!(text.contains("N"), "should contain 'N'");
    // With to_sgr_with_reset, style changes use combined reset+set (e.g., \x1b[0;31m)
    // Only transitions back to default produce a bare \x1b[0m
    let combined_sgr_count = text.matches("\x1b[0;").count() + text.matches("\x1b[0m").count();
    assert!(combined_sgr_count >= 2,
        "expected at least 2 combined reset+set SGR sequences, got {}", combined_sgr_count);
}

#[test]
fn render_screen_full_mode_emits_mouse_modes() {
    let mut grid = Grid::new(10, 3);
    grid.modes.mouse_mode = 1003;
    let mut cache = RenderCache::new();
    let result = render_screen(&grid, "", true, &mut cache);
    let text = String::from_utf8_lossy(&result);
    // Full render should disable inactive modes and enable active
    assert!(text.contains("\x1b[?1000l"),
        "full render should disable mouse mode 1000");
    assert!(text.contains("\x1b[?1002l"),
        "full render should disable mouse mode 1002");
    assert!(text.contains("\x1b[?1003h"),
        "full render should enable active mouse mode 1003");
}

#[test]
fn render_screen_mode_delta_mouse_switch() {
    let mut grid = Grid::new(10, 3);
    grid.modes.mouse_mode = 1000;
    let mut cache = RenderCache::new();
    // Initial render (full)
    let _ = render_screen(&grid, "", true, &mut cache);

    // Switch: disable click, enable any
    grid.modes.mouse_mode = 1003;
    let result = render_screen(&grid, "", false, &mut cache);
    let text = String::from_utf8_lossy(&result);
    // Should disable old mode
    assert!(text.contains("\x1b[?1000l"),
        "delta should disable old mouse mode 1000");
    // Should enable new mode
    assert!(text.contains("\x1b[?1003h"),
        "delta should enable new mouse mode 1003");
}

#[test]
fn render_screen_mode_delta_bracketed_paste() {
    let mut grid = Grid::new(10, 3);
    let mut cache = RenderCache::new();
    let _ = render_screen(&grid, "", true, &mut cache);

    // Enable bracketed paste
    grid.modes.bracketed_paste = true;
    let result = render_screen(&grid, "", false, &mut cache);
    let text = String::from_utf8_lossy(&result);
    assert!(text.contains("\x1b[?2004h"),
        "delta should emit bracketed paste enable");
}

#[test]
fn render_cache_invalidate() {
    let grid = Grid::new(10, 3);
    let mut cache = RenderCache::new();
    // Populate cache
    let _ = render_screen(&grid, "test", false, &mut cache);
    assert!(!cache.last_rows.is_empty());
    assert!(cache.last_modes.is_some());

    // Invalidate
    cache.invalidate();
    assert!(cache.last_rows.is_empty());
    assert!(cache.last_modes.is_none());
    assert!(cache.last_title.is_empty());

    // Next render should redraw everything (all rows emitted)
    let result = render_screen(&grid, "", false, &mut cache);
    let text = String::from_utf8_lossy(&result);
    assert!(text.contains("\x1b[1;1H"), "after invalidate, all rows should be redrawn");
    assert!(text.contains("\x1b[2;1H"), "after invalidate, all rows should be redrawn");
    assert!(text.contains("\x1b[3;1H"), "after invalidate, all rows should be redrawn");
}

// --- New tests ---

#[test]
fn render_line_styled_spaces_not_blank() {
    // Row of spaces with colored bg should render SGR, not b" "
    let mut row = vec![Cell::default(); 10];
    for cell in row.iter_mut() {
        cell.c = ' ';
        cell.style.bg = Some(Color::Indexed(1)); // red bg
    }
    let result = render_line(&row);
    // Should contain SGR for the background color, not just a plain space
    let text = String::from_utf8_lossy(&result);
    assert!(text.contains("\x1b["), "styled spaces should produce SGR sequences");
    assert!(text.contains("41m"), "red bg should produce code 41");
}

#[test]
fn render_line_styled_trailing_space() {
    // Trailing styled space should be included in output
    let mut row = vec![Cell::default(); 5];
    row[0].c = 'A';
    row[4].c = ' ';
    row[4].style.bg = Some(Color::Indexed(4)); // blue bg
    let result = render_line(&row);
    let text = String::from_utf8_lossy(&result);
    assert!(text.contains("44m"), "trailing styled space should include blue bg SGR");
}

#[test]
fn render_line_wide_char_at_end() {
    // Wide char at last two positions renders correctly
    let mut row = vec![Cell::default(); 10];
    row[8] = Cell { c: '\u{4e16}', combining: Vec::new(), style: Style::default(), width: 2 }; // 世
    row[9] = Cell { c: '\0', combining: Vec::new(), style: Style::default(), width: 0 }; // continuation
    let result = render_line(&row);
    let text = String::from_utf8_lossy(&result);
    assert!(text.contains('\u{4e16}'), "wide char at end should be rendered");
    assert!(!text.contains('\0'), "continuation cell should not produce output");
}

#[test]
fn render_line_rgb_color() {
    let mut row = vec![Cell::default(); 5];
    row[0].c = 'X';
    row[0].style.fg = Some(Color::Rgb(100, 150, 200));
    let result = render_line(&row);
    let text = String::from_utf8_lossy(&result);
    assert!(text.contains("38;2;100;150;200m"), "RGB color should produce 38;2;R;G;B");
}

#[test]
fn render_line_combined_attributes() {
    let mut row = vec![Cell::default(); 5];
    row[0].c = 'Z';
    row[0].style.bold = true;
    row[0].style.italic = true;
    row[0].style.underline = UnderlineStyle::Single;
    row[0].style.fg = Some(Color::Indexed(3)); // yellow
    row[0].style.bg = Some(Color::Indexed(4)); // blue
    let result = render_line(&row);
    let text = String::from_utf8_lossy(&result);
    assert!(text.contains("1;"), "bold should be present");
    assert!(text.contains("3;"), "italic should be present");
    assert!(text.contains(";4;"), "underline should be present");
    assert!(text.contains("33"), "yellow fg should be present");
    assert!(text.contains("44"), "blue bg should be present");
}

#[test]
fn render_line_256_color() {
    let mut row = vec![Cell::default(); 5];
    row[0].c = 'P';
    row[0].style.fg = Some(Color::Indexed(200));
    let result = render_line(&row);
    let text = String::from_utf8_lossy(&result);
    assert!(text.contains("38;5;200m"), "palette index 200 should produce 38;5;200");
}

#[test]
fn render_screen_title_cleared() {
    // Bug 1 regression test: title change to "" should emit empty OSC
    let grid = Grid::new(10, 3);
    let mut cache = RenderCache::new();
    // First render with a non-empty title
    let _ = render_screen(&grid, "Hello", false, &mut cache);
    // Now clear the title
    let result = render_screen(&grid, "", false, &mut cache);
    let text = String::from_utf8_lossy(&result);
    assert!(text.contains("\x1b]2;\x07"),
        "clearing title should emit empty OSC, got: {:?}", text);
}

#[test]
fn render_screen_after_resize() {
    // When row count changes, all rows should be redrawn
    let grid = Grid::new(10, 3);
    let mut cache = RenderCache::new();
    let _ = render_screen(&grid, "", false, &mut cache);

    // Simulate resize: new grid with more rows
    let grid2 = Grid::new(10, 5);
    let result = render_screen(&grid2, "", false, &mut cache);
    let text = String::from_utf8_lossy(&result);
    // Cache had 3 rows, now 5 — last_rows resized with sentinels, all should redraw
    assert!(text.contains("\x1b[1;1H"), "row 1 should be redrawn after resize");
    assert!(text.contains("\x1b[4;1H"), "row 4 should be redrawn after resize");
    assert!(text.contains("\x1b[5;1H"), "row 5 should be redrawn after resize");
}

#[test]
fn render_screen_style_only_change_detected() {
    // Cell changes color but same char → row should be redrawn
    let mut grid = Grid::new(10, 3);
    let mut cache = RenderCache::new();
    let _ = render_screen(&grid, "", false, &mut cache);

    // Change style of a cell without changing the char
    grid.visible_row_mut(1)[0].style.fg = Some(Color::Indexed(1));
    let result = render_screen(&grid, "", false, &mut cache);
    let text = String::from_utf8_lossy(&result);
    assert!(text.contains("\x1b[2;1H"),
        "row with style-only change should be redrawn");
}

#[test]
fn render_screen_1x1_grid() {
    let grid = Grid::new(1, 1);
    let mut cache = RenderCache::new();
    // Should not panic
    let result = render_screen(&grid, "", true, &mut cache);
    let text = String::from_utf8_lossy(&result);
    assert!(text.contains("\x1b[1;1H"), "1x1 grid should position at 1,1");
}

#[test]
fn render_screen_cursor_bottom_right() {
    let mut grid = Grid::new(80, 24);
    grid.cursor_x = 79;
    grid.cursor_y = 23;
    let mut cache = RenderCache::new();
    let result = render_screen(&grid, "", true, &mut cache);
    let text = String::from_utf8_lossy(&result);
    assert!(text.contains("\x1b[24;80H"),
        "cursor at bottom-right should position at row 24, col 80");
}

#[test]
fn render_screen_mouse_encoding_1006() {
    let mut grid = Grid::new(10, 3);
    grid.modes.mouse_encoding = 1006;
    let mut cache = RenderCache::new();
    let result = render_screen(&grid, "", true, &mut cache);
    let text = String::from_utf8_lossy(&result);
    assert!(text.contains("\x1b[?1006h"), "SGR mouse encoding should be enabled");
}

#[test]
fn render_screen_mouse_encoding_1005() {
    let mut grid = Grid::new(10, 3);
    grid.modes.mouse_encoding = 1005;
    let mut cache = RenderCache::new();
    let result = render_screen(&grid, "", true, &mut cache);
    let text = String::from_utf8_lossy(&result);
    assert!(text.contains("\x1b[?1005h"), "UTF-8 mouse encoding should be enabled");
}

#[test]
fn render_screen_cursor_shape_delta() {
    let mut grid = Grid::new(10, 3);
    let mut cache = RenderCache::new();
    let _ = render_screen(&grid, "", true, &mut cache);

    // Change cursor shape to blinking bar (5)
    grid.modes.cursor_shape = CursorShape::BlinkBar;
    let result = render_screen(&grid, "", false, &mut cache);
    let text = String::from_utf8_lossy(&result);
    assert!(text.contains("\x1b[5 q"), "cursor shape change should emit DECSCUSR");
}

#[test]
fn render_screen_keypad_mode_delta() {
    let mut grid = Grid::new(10, 3);
    let mut cache = RenderCache::new();
    let _ = render_screen(&grid, "", true, &mut cache);

    // Enable keypad app mode
    grid.modes.keypad_app_mode = true;
    let result = render_screen(&grid, "", false, &mut cache);
    let text = String::from_utf8_lossy(&result);
    assert!(text.contains("\x1b="), "keypad app mode should emit ESC =");

    // Disable keypad app mode
    grid.modes.keypad_app_mode = false;
    let result2 = render_screen(&grid, "", false, &mut cache);
    let text2 = String::from_utf8_lossy(&result2);
    assert!(text2.contains("\x1b>"), "keypad normal mode should emit ESC >");
}

#[test]
fn render_line_combining_mark() {
    let mut row = vec![Cell::default(); 10];
    row[0].c = 'e';
    row[0].combining = vec!['\u{0301}']; // combining acute accent → é
    let result = render_line(&row);
    let text = String::from_utf8_lossy(&result);
    assert!(text.contains("e\u{0301}"), "combining mark should be rendered after base char");
}

#[test]
fn render_line_combining_on_wide_char() {
    let mut row = vec![Cell::default(); 10];
    row[0] = Cell { c: '\u{4e16}', combining: vec!['\u{0308}'], style: Style::default(), width: 2 };
    row[1] = Cell { c: '\0', combining: Vec::new(), style: Style::default(), width: 0 };
    let result = render_line(&row);
    let text = String::from_utf8_lossy(&result);
    assert!(text.contains("\u{4e16}\u{0308}"), "combining mark on wide char should render");
}

// --- Scrollback injection tests ---

#[test]
fn scrollback_positions_cursor_at_bottom() {
    let grid = Grid::new(80, 24);
    let mut cache = RenderCache::new();
    let scrollback = vec![b"line one".to_vec()];
    let result = render_screen_with_scrollback(&grid, "", &scrollback, &mut cache);
    let text = String::from_utf8_lossy(&result);
    // Cursor must be positioned at the last row (24) before scrollback content
    assert!(text.contains("\x1b[24;1H"),
        "scrollback should position cursor at bottom row");
}

#[test]
fn scrollback_lines_appear_before_screen_clear() {
    let grid = Grid::new(80, 24);
    let mut cache = RenderCache::new();
    let scrollback = vec![b"old prompt".to_vec(), b"ls output".to_vec()];
    let result = render_screen_with_scrollback(&grid, "", &scrollback, &mut cache);
    let text = String::from_utf8_lossy(&result);

    let pos_line1 = text.find("old prompt").expect("scrollback line 1 missing");
    let pos_line2 = text.find("ls output").expect("scrollback line 2 missing");
    let pos_clear = text.find("\x1b[2J").expect("screen clear missing");

    assert!(pos_line1 < pos_line2, "scrollback lines must be in order");
    assert!(pos_line2 < pos_clear, "scrollback must precede screen clear");
}

#[test]
fn scrollback_lines_use_cursor_positioning() {
    let grid = Grid::new(80, 24);
    let mut cache = RenderCache::new();
    let scrollback = vec![b"AAA".to_vec(), b"BBB".to_vec()];
    let result = render_screen_with_scrollback(&grid, "", &scrollback, &mut cache);
    let text = String::from_utf8_lossy(&result);

    // Lines should be written at rows 1 and 2 via CUP
    assert!(text.contains("AAA"), "AAA should be present");
    assert!(text.contains("BBB"), "BBB should be present");
    // Should end each line with EL (erase to end of line)
    let raw = &result;
    let pos_a = raw.windows(3).position(|w| w == b"AAA").expect("AAA missing");
    // After "AAA" there should be \x1b[K (erase to end of line)
    assert_eq!(&raw[pos_a + 3..pos_a + 6], b"\x1b[K",
        "scrollback line should end with EL");
}

#[test]
fn scrollback_outside_sync_block() {
    let grid = Grid::new(80, 24);
    let mut cache = RenderCache::new();
    let scrollback = vec![b"scroll line".to_vec()];
    let result = render_screen_with_scrollback(&grid, "", &scrollback, &mut cache);
    let text = String::from_utf8_lossy(&result);

    let sync_begin = text.find("\x1b[?2026h").expect("sync begin missing");
    let pos_scroll = text.find("scroll line").expect("scrollback content missing");
    let sync_end = text.rfind("\x1b[?2026l").expect("sync end missing");

    // Scrollback injection must be BEFORE the sync block
    assert!(pos_scroll < sync_begin,
        "scrollback must be before sync begin (scrollback at {}, sync at {})",
        pos_scroll, sync_begin);
    assert!(sync_begin < sync_end, "sync begin must precede sync end");
}

#[test]
fn scrollback_forces_full_redraw() {
    let mut grid = Grid::new(10, 3);
    let mut cache = RenderCache::new();
    // Populate cache with an initial render
    let _ = render_screen(&grid, "", false, &mut cache);
    assert!(!cache.last_rows.is_empty());

    // Modify only row 2 — normally only row 2 would be redrawn
    grid.visible_row_mut(1)[0].c = 'X';

    // Render with scrollback — all rows must be redrawn (full redraw)
    let scrollback = vec![b"old".to_vec()];
    let result = render_screen_with_scrollback(&grid, "", &scrollback, &mut cache);
    let text = String::from_utf8_lossy(&result);

    assert!(text.contains("\x1b[1;1H"), "row 1 must be redrawn after scrollback");
    assert!(text.contains("\x1b[2;1H"), "row 2 must be redrawn after scrollback");
    assert!(text.contains("\x1b[3;1H"), "row 3 must be redrawn after scrollback");
}

#[test]
fn no_scrollback_no_crlf_in_output() {
    let grid = Grid::new(80, 24);
    let mut cache = RenderCache::new();
    let result = render_screen(&grid, "", false, &mut cache);
    // Normal render must never contain \r\n — that's only emitted for scrollback
    assert!(!result.windows(2).any(|w| w == b"\r\n"),
        "render without scrollback must not contain \\r\\n");
}

/// Simulates the reattach scenario: history lines are written by the
/// client with `\r\n`, leaving the last `rows - 1` lines on screen.
/// The server prepends exactly `rows - 1` newlines to the ScreenUpdate
/// to flush them into the real terminal's scrollback buffer.
///
/// If too few `\n`s are sent, some history lines are lost (cleared by
/// `\x1b[2J`).  If too many, a blank line leaks into the scrollback.
#[test]
fn reattach_history_flush_count() {
    let rows: u16 = 5;
    let grid = Grid::new(80, rows);
    let mut cache = RenderCache::new();
    let render = render_screen(&grid, "", true, &mut cache);

    // Build the ScreenUpdate data the same way send_initial_state does:
    // prepend (rows - 1) newlines, then the full render.
    let mut reattach_data = Vec::new();
    let flush_count = rows.saturating_sub(1) as usize;
    reattach_data.extend(std::iter::repeat(b'\n').take(flush_count));
    reattach_data.extend_from_slice(&render);

    // Count leading \n bytes before any escape sequence
    let leading_newlines = reattach_data.iter().take_while(|&&b| b == b'\n').count();
    assert_eq!(leading_newlines, (rows - 1) as usize,
        "reattach should prepend exactly rows-1 newlines, got {}", leading_newlines);

    // The render portion must still start with sync begin
    assert_eq!(&reattach_data[flush_count..flush_count + 8], b"\x1b[?2026h",
        "render must start with synchronized output after flush newlines");
}

#[test]
fn reattach_no_flush_without_history() {
    let grid = Grid::new(80, 5);
    let mut cache = RenderCache::new();
    let render = render_screen(&grid, "", true, &mut cache);
    // Without history, no leading newlines should be added
    assert_eq!(render[0], b'\x1b',
        "render without history must start directly with escape, not newline");
}

// --- BEL-in-render tests ---

/// Every BEL (0x07) in render output must be inside an OSC sequence,
/// never a standalone bell that would trigger an audible beep.
#[test]
fn render_no_standalone_bell() {
    let grid = Grid::new(80, 24);
    let mut cache = RenderCache::new();
    let result = render_screen(&grid, "My Title", true, &mut cache);
    // Find all BEL bytes and verify each is preceded by an OSC intro
    for (i, &byte) in result.iter().enumerate() {
        if byte == 0x07 {
            // This BEL must be a terminator for an OSC sequence.
            // Scan backward to find \x1b] (ESC ])
            let prefix = &result[..i];
            let osc_start = prefix.windows(2).rposition(|w| w == b"\x1b]");
            assert!(osc_start.is_some(),
                "BEL at byte offset {} is standalone (not inside an OSC sequence)", i);
        }
    }
}

/// Full redraw should not produce standalone BEL even with title changes.
#[test]
fn render_full_redraw_no_standalone_bell() {
    let grid = Grid::new(80, 24);
    let mut cache = RenderCache::new();
    // First render with title
    let _ = render_screen(&grid, "Title1", false, &mut cache);
    // Full redraw with different title
    cache.invalidate();
    let result = render_screen(&grid, "Title2", true, &mut cache);
    for (i, &byte) in result.iter().enumerate() {
        if byte == 0x07 {
            let prefix = &result[..i];
            let osc_start = prefix.windows(2).rposition(|w| w == b"\x1b]");
            assert!(osc_start.is_some(),
                "BEL at byte offset {} is standalone after cache invalidate", i);
        }
    }
}

/// Render without title should produce zero BEL bytes.
#[test]
fn render_no_title_no_bell_bytes() {
    let grid = Grid::new(80, 24);
    let mut cache = RenderCache::new();
    let result = render_screen(&grid, "", false, &mut cache);
    let bell_count = result.iter().filter(|&&b| b == 0x07).count();
    assert_eq!(bell_count, 0,
        "render with empty title should produce zero BEL bytes, got {}", bell_count);
}

/// Repeated renders with the same title should not produce BEL on second render.
#[test]
fn render_cached_title_no_bell() {
    let grid = Grid::new(80, 24);
    let mut cache = RenderCache::new();
    let _ = render_screen(&grid, "Hello", false, &mut cache);
    // Second render with same title — should skip title OSC entirely
    let result = render_screen(&grid, "Hello", false, &mut cache);
    let bell_count = result.iter().filter(|&&b| b == 0x07).count();
    assert_eq!(bell_count, 0,
        "cached title should produce zero BEL bytes, got {}", bell_count);
}

#[test]
fn lines_before_a_frame_make_it_full() {
    let mut grid = Grid::new(4, 2);
    grid.cells[0][0].c = 'x';
    let lines = vec![b"old".to_vec()];
    let mut cache = RenderCache::new();
    render_screen_impl(&grid, "t", &[], true, &mut cache);
    let mut other = RenderCache::new();
    let frame = render_screen_impl(&grid, "t", &lines, false, &mut cache);
    assert_eq!(frame, render_screen_with_scrollback(&grid, "t", &lines, &mut other));
    // Nothing changed since: only the cursor
    let again = render_screen_impl(&grid, "t", &[], false, &mut cache);
    assert_eq!(again, b"\x1b[?2026h\x1b[?25l\x1b[1;1H\x1b[?25h\x1b[?2026l");
    assert_eq!(again, render_screen_impl(&grid, "t", &[], false, &mut other));
}
