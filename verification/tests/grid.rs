use std::collections::VecDeque;

use retach::screen::cell::Cell;
use retach::screen::grid::{CursorShape, Grid, TerminalModes, sanitize_dimensions};

#[test]
fn sanitize_zero_dimensions() {
    assert_eq!(sanitize_dimensions(0, 0), (1, 1));
    assert_eq!(sanitize_dimensions(80, 0), (80, 1));
    assert_eq!(sanitize_dimensions(0, 24), (1, 24));
}

#[test]
fn grid_new_creates_correct_size() {
    let grid = Grid::new(80, 24);
    assert_eq!(grid.cells.len(), 24);
    assert_eq!(grid.cells[0].len(), 80);
}

#[test]
fn grid_new_zero_dimensions() {
    let grid = Grid::new(0, 0);
    assert_eq!(grid.cols, 1);
    assert_eq!(grid.rows, 1);
    assert_eq!(grid.cells.len(), 1);
    assert_eq!(grid.cells[0].len(), 1);
}

#[test]
fn grid_resize() {
    let mut grid = Grid::new(80, 24);
    grid.cursor_x = 79;
    grid.cursor_y = 23;
    grid.resize(40, 12);
    assert_eq!(grid.cells.len(), 12);
    assert_eq!(grid.cells[0].len(), 40);
    assert_eq!(grid.cursor_x, 39);
    assert_eq!(grid.cursor_y, 11);
}

#[test]
fn grid_resize_zero() {
    let mut grid = Grid::new(80, 24);
    grid.resize(0, 0);
    assert_eq!(grid.cols, 1);
    assert_eq!(grid.rows, 1);
}

#[test]
fn grid_scroll_up() {
    let mut grid = Grid::new(10, 3);
    grid.cells[0][0].c = 'A';
    let mut scrollback = VecDeque::new();
    let mut pending = VecDeque::new();
    grid.scroll_up(false, &mut scrollback, 100, &mut pending, Cell::default());
    assert_eq!(scrollback.len(), 1);
    assert_eq!(pending.len(), 1);
    assert_eq!(grid.cells.len(), 3);
    // Row 0 should now be what was row 1 (blank)
    assert_eq!(grid.cells[0][0].c, ' ');
}

#[test]
fn grid_scroll_up_alt_screen_no_scrollback() {
    let mut grid = Grid::new(10, 3);
    grid.cells[0][0].c = 'A';
    let mut scrollback = VecDeque::new();
    let mut pending = VecDeque::new();
    grid.scroll_up(true, &mut scrollback, 100, &mut pending, Cell::default());
    assert_eq!(scrollback.len(), 0);
    assert_eq!(pending.len(), 0);
}

#[test]
fn grid_scroll_up_respects_limit() {
    let mut grid = Grid::new(10, 3);
    let mut scrollback = VecDeque::new();
    let mut pending = VecDeque::new();
    for _ in 0..5 {
        grid.scroll_up(false, &mut scrollback, 3, &mut pending, Cell::default());
    }
    assert_eq!(scrollback.len(), 3);
}

#[test]
fn pending_scrollback_respects_limit() {
    let mut grid = Grid::new(10, 3);
    let mut scrollback = VecDeque::new();
    let mut pending = VecDeque::new();
    for _ in 0..20 {
        grid.scroll_up(false, &mut scrollback, 5, &mut pending, Cell::default());
    }
    assert!(pending.len() <= 5, "pending_scrollback should be bounded, got {}", pending.len());
}

#[test]
fn terminal_modes_default() {
    let modes = TerminalModes::default();
    assert!(modes.autowrap_mode);
    assert!(!modes.cursor_key_mode);
    assert!(!modes.bracketed_paste);
    assert_eq!(modes.mouse_mode, 0);
    assert_eq!(modes.cursor_shape, CursorShape::Default);
}
