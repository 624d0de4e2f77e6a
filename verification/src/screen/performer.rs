//! Control functions carried out on a screen.

use std::collections::VecDeque;

use vstd::prelude::*;
use vstd::string::*;

use crate::bytes;
use crate::bytes::{low_byte, parse_number, push_str, utf8_text};

use super::cell;
use super::cell::{
    add_mark, clone_rows, delete_cells, fill_range, fit_rows, insert_cells, put_cell, unpair, Cell,
};
use super::grid::{ActiveCharset, Charset, CursorShape, Grid, TerminalModes};
use super::model;
use super::model::{EventView, ScreenView};
use super::style;
use super::style::{write_u16, Style};
use super::width::char_width;
use super::{SavedCursor, ScreenState};

verus! {

/// Carries out control functions on the parts of a screen.
pub struct ScreenPerformer<'a> {
    pub grid: &'a mut Grid,
    pub state: &'a mut ScreenState,
    pub scrollback: &'a mut VecDeque<Vec<Cell>>,
    pub scrollback_limit: usize,
    pub pending_scrollback: &'a mut VecDeque<Vec<Cell>>,
}

impl<'a> ScreenPerformer<'a> {
    /// The terminal as it is now.
    pub open spec fn view(&self) -> ScreenView {
        super::screen_view(
            *self.grid,
            *self.state,
            *self.scrollback,
            self.scrollback_limit,
            *self.pending_scrollback,
        )
    }

    /// Blank cell with current background color (BCE, background color erase).
    fn blank_cell(&self) -> (res: Cell)
        ensures
            res@ == self@.fill(),
    {
        Cell {
            c: ' ',
            combining: Vec::new(),
            style: Style { bg: self.state.current_style.bg, ..Style::default() },
            width: 1,
        }
    }

    fn scroll_up(&mut self)
        requires
            old(self)@.wf(),
        ensures
            final(self)@.wf(),
            final(self)@ == old(self)@.scrolled_up(),
            final(self).scrollback_limit == old(self).scrollback_limit,
            *final(final(self).grid) == *final(old(self).grid),
            *final(final(self).state) == *final(old(self).state),
            *final(final(self).scrollback) == *final(old(self).scrollback),
            *final(final(self).pending_scrollback) == *final(old(self).pending_scrollback),
    {
        let fill = self.blank_cell();
        self.grid.scroll_up(
            self.state.in_alt_screen,
            self.scrollback,
            self.scrollback_limit,
            self.pending_scrollback,
            fill,
        );
    }

    fn scroll_down(&mut self)
        requires
            old(self)@.wf(),
        ensures
            final(self)@.wf(),
            final(self)@ == old(self)@.scrolled_down(),
            final(self).scrollback_limit == old(self).scrollback_limit,
            *final(final(self).grid) == *final(old(self).grid),
            *final(final(self).state) == *final(old(self).state),
            *final(final(self).scrollback) == *final(old(self).scrollback),
            *final(final(self).pending_scrollback) == *final(old(self).pending_scrollback),
    {
        let fill = self.blank_cell();
        self.grid.scroll_down(fill);
    }

    /// Move the cursor one row down, scrolling at the bottom of the region.
    fn line_feed(&mut self)
        requires
            old(self)@.wf(),
        ensures
            final(self)@.wf(),
            final(self)@ == old(self)@.next_line(),
            final(self).scrollback_limit == old(self).scrollback_limit,
            *final(final(self).grid) == *final(old(self).grid),
            *final(final(self).state) == *final(old(self).state),
            *final(final(self).scrollback) == *final(old(self).scrollback),
            *final(final(self).pending_scrollback) == *final(old(self).pending_scrollback),
    {
        if self.grid.cursor_y == self.grid.scroll_bottom {
            self.scroll_up();
        } else if self.grid.cursor_y < self.grid.rows - 1 {
            self.grid.cursor_y += 1;
        }
    }

    /// Map a character through the active DEC charset (line drawing)
    fn map_charset(&self, c: char) -> (res: char)
        ensures
            res == model::mapped(self@.grid.modes, c),
    {
        let charset = match self.grid.modes.active_charset {
            ActiveCharset::G0 => self.grid.modes.g0_charset,
            ActiveCharset::G1 => self.grid.modes.g1_charset,
        };
        match charset {
            Charset::LineDrawing => match c {
                'j' => '┘',
                'k' => '┐',
                'l' => '┌',
                'm' => '└',
                'n' => '┼',
                'q' => '─',
                't' => '├',
                'u' => '┤',
                'v' => '┴',
                'w' => '┬',
                'x' => '│',
                'a' => '▒',
                '`' => '◆',
                _ => c,
            },
            Charset::Ascii => c,
        }
    }

    /// Save full cursor state: position, style, charsets, autowrap mode.
    /// Used by CSI s, ESC 7, and mode 1048h.
    pub fn save_cursor(&mut self)
        ensures
            old(self)@.wf() ==> final(self)@.wf(),
            final(self)@ == old(self)@.cursor_saved(),
            final(self).scrollback_limit == old(self).scrollback_limit,
            *final(final(self).grid) == *final(old(self).grid),
            *final(final(self).state) == *final(old(self).state),
            *final(final(self).scrollback) == *final(old(self).scrollback),
            *final(final(self).pending_scrollback) == *final(old(self).pending_scrollback),
    {
        self.state.saved_cursor_state = Some(
            SavedCursor {
                x: self.grid.cursor_x,
                y: self.grid.cursor_y,
                style: self.state.current_style,
                g0_charset: self.grid.modes.g0_charset,
                g1_charset: self.grid.modes.g1_charset,
                active_charset: self.grid.modes.active_charset,
                autowrap_mode: self.grid.modes.autowrap_mode,
            },
        );
    }

    /// Restore full cursor state saved by `save_cursor`.
    /// Used by CSI u, ESC 8, and mode 1048l.
    pub fn restore_cursor(&mut self)
        requires
            old(self)@.wf(),
        ensures
            final(self)@.wf(),
            final(self)@ == old(self)@.cursor_restored(),
            final(self).scrollback_limit == old(self).scrollback_limit,
            *final(final(self).grid) == *final(old(self).grid),
            *final(final(self).state) == *final(old(self).state),
            *final(final(self).scrollback) == *final(old(self).scrollback),
            *final(final(self).pending_scrollback) == *final(old(self).pending_scrollback),
    {
        if let Some(saved) = self.state.saved_cursor_state {
            self.grid.wrap_pending = false;
            let last_x: u16 = self.grid.cols - 1;
            let last_y: u16 = self.grid.rows - 1;
            self.grid.cursor_x = if saved.x < last_x {
                saved.x
            } else {
                last_x
            };
            self.grid.cursor_y = if saved.y < last_y {
                saved.y
            } else {
                last_y
            };
            self.state.current_style = saved.style;
            self.grid.modes.g0_charset = saved.g0_charset;
            self.grid.modes.g1_charset = saved.g1_charset;
            self.grid.modes.active_charset = saved.active_charset;
            self.grid.modes.autowrap_mode = saved.autowrap_mode;
        }
    }

    /// Enter alt screen: save grid/modes, clear screen, reset cursor and scroll region.
    /// If `save_cursor` is true, also save cursor state (mode 1049).
    pub fn enter_alt_screen(&mut self, save_cursor: bool)
        requires
            old(self)@.wf(),
        ensures
            final(self)@.wf(),
            final(self)@ == old(self)@.alt_entered(save_cursor),
            final(self).scrollback_limit == old(self).scrollback_limit,
            *final(final(self).grid) == *final(old(self).grid),
            *final(final(self).state) == *final(old(self).state),
            *final(final(self).scrollback) == *final(old(self).scrollback),
            *final(final(self).pending_scrollback) == *final(old(self).pending_scrollback),
    {
        if save_cursor {
            self.save_cursor();
        }
        self.state.saved_grid = Some(clone_rows(&self.grid.cells));
        self.state.saved_modes = Some(self.grid.modes);
        self.state.in_alt_screen = true;
        let rows: usize = self.grid.rows as usize;
        self.grid.fill_rows(0, rows, &Cell::default());
        self.grid.cursor_x = 0;
        self.grid.cursor_y = 0;
        self.grid.scroll_top = 0;
        self.grid.scroll_bottom = self.grid.rows - 1;
        self.grid.wrap_pending = false;
    }

    /// Exit alt screen: restore grid/modes, reset scroll region.
    /// If `do_restore_cursor` is true, also restore cursor state (mode 1049).
    pub fn exit_alt_screen(&mut self, do_restore_cursor: bool)
        requires
            old(self)@.wf(),
        ensures
            final(self)@.wf(),
            final(self)@ == old(self)@.alt_left(do_restore_cursor),
            final(self).scrollback_limit == old(self).scrollback_limit,
            *final(final(self).grid) == *final(old(self).grid),
            *final(final(self).state) == *final(old(self).state),
            *final(final(self).scrollback) == *final(old(self).scrollback),
            *final(final(self).pending_scrollback) == *final(old(self).pending_scrollback),
    {
        self.state.in_alt_screen = false;
        if let Some(saved) = self.state.saved_grid.take() {
            let mut cells: Vec<Vec<Cell>> = saved;
            fit_rows(&mut cells, self.grid.cols as usize, self.grid.rows as usize);
            self.grid.cells = cells;
        }
        if let Some(modes) = self.state.saved_modes.take() {
            self.grid.modes = modes;
        }
        if do_restore_cursor {
            self.restore_cursor();
        }
        self.grid.scroll_top = 0;
        self.grid.scroll_bottom = self.grid.rows - 1;
    }

    // Cursor movements

    fn csi_cursor_up(&mut self, n: u16)
        requires
            old(self)@.wf(),
        ensures
            final(self)@.wf(),
            final(self)@ == old(self)@.moved(old(self)@.grid.cursor_x, old(self)@.row_up(n as int)),
            final(self).scrollback_limit == old(self).scrollback_limit,
            *final(final(self).grid) == *final(old(self).grid),
            *final(final(self).state) == *final(old(self).state),
            *final(final(self).scrollback) == *final(old(self).scrollback),
            *final(final(self).pending_scrollback) == *final(old(self).pending_scrollback),
    {
        self.grid.wrap_pending = false;
        let top: u16 = if self.grid.cursor_y >= self.grid.scroll_top {
            self.grid.scroll_top
        } else {
            0
        };
        let y: u16 = self.grid.cursor_y.saturating_sub(n);
        self.grid.cursor_y = if y > top {
            y
        } else {
            top
        };
    }

    fn csi_cursor_down(&mut self, n: u16)
        requires
            old(self)@.wf(),
        ensures
            final(self)@.wf(),
            final(self)@ == old(self)@.moved(
                old(self)@.grid.cursor_x,
                old(self)@.row_down(n as int),
            ),
            final(self).scrollback_limit == old(self).scrollback_limit,
            *final(final(self).grid) == *final(old(self).grid),
            *final(final(self).state) == *final(old(self).state),
            *final(final(self).scrollback) == *final(old(self).scrollback),
            *final(final(self).pending_scrollback) == *final(old(self).pending_scrollback),
    {
        self.grid.wrap_pending = false;
        let bottom: u16 = if self.grid.cursor_y <= self.grid.scroll_bottom {
            self.grid.scroll_bottom
        } else {
            self.grid.rows - 1
        };
        let y: u16 = self.grid.cursor_y.saturating_add(n);
        self.grid.cursor_y = if y < bottom {
            y
        } else {
            bottom
        };
    }

    fn csi_cursor_forward(&mut self, n: u16)
        requires
            old(self)@.wf(),
        ensures
            final(self)@.wf(),
            final(self)@ == old(self)@.moved(
                model::min(old(self)@.grid.cursor_x + n, old(self)@.grid.cols - 1),
                old(self)@.grid.cursor_y,
            ),
            final(self).scrollback_limit == old(self).scrollback_limit,
            *final(final(self).grid) == *final(old(self).grid),
            *final(final(self).state) == *final(old(self).state),
            *final(final(self).scrollback) == *final(old(self).scrollback),
            *final(final(self).pending_scrollback) == *final(old(self).pending_scrollback),
    {
        self.grid.wrap_pending = false;
        let x: u16 = self.grid.cursor_x.saturating_add(n);
        let last: u16 = self.grid.cols - 1;
        self.grid.cursor_x = if x < last {
            x
        } else {
            last
        };
    }

    fn csi_cursor_back(&mut self, n: u16)
        requires
            old(self)@.wf(),
        ensures
            final(self)@.wf(),
            final(self)@ == old(self)@.moved(
                model::max(old(self)@.grid.cursor_x - n, 0),
                old(self)@.grid.cursor_y,
            ),
            final(self).scrollback_limit == old(self).scrollback_limit,
            *final(final(self).grid) == *final(old(self).grid),
            *final(final(self).state) == *final(old(self).state),
            *final(final(self).scrollback) == *final(old(self).scrollback),
            *final(final(self).pending_scrollback) == *final(old(self).pending_scrollback),
    {
        self.grid.wrap_pending = false;
        self.grid.cursor_x = self.grid.cursor_x.saturating_sub(n);
    }

    fn csi_cursor_next_line(&mut self, n: u16)
        requires
            old(self)@.wf(),
        ensures
            final(self)@.wf(),
            final(self)@ == old(self)@.moved(0, old(self)@.row_down(n as int)),
            final(self).scrollback_limit == old(self).scrollback_limit,
            *final(final(self).grid) == *final(old(self).grid),
            *final(final(self).state) == *final(old(self).state),
            *final(final(self).scrollback) == *final(old(self).scrollback),
            *final(final(self).pending_scrollback) == *final(old(self).pending_scrollback),
    {
        self.csi_cursor_down(n);
        self.grid.cursor_x = 0;
    }

    fn csi_cursor_prev_line(&mut self, n: u16)
        requires
            old(self)@.wf(),
        ensures
            final(self)@.wf(),
            final(self)@ == old(self)@.moved(0, old(self)@.row_up(n as int)),
            final(self).scrollback_limit == old(self).scrollback_limit,
            *final(final(self).grid) == *final(old(self).grid),
            *final(final(self).state) == *final(old(self).state),
            *final(final(self).scrollback) == *final(old(self).scrollback),
            *final(final(self).pending_scrollback) == *final(old(self).pending_scrollback),
    {
        self.csi_cursor_up(n);
        self.grid.cursor_x = 0;
    }

    fn csi_cursor_horizontal_absolute(&mut self, col: u16)
        requires
            old(self)@.wf(),
        ensures
            final(self)@.wf(),
            final(self)@ == old(self)@.moved(
                old(self)@.col_number(col as int),
                old(self)@.grid.cursor_y,
            ),
            final(self).scrollback_limit == old(self).scrollback_limit,
            *final(final(self).grid) == *final(old(self).grid),
            *final(final(self).state) == *final(old(self).state),
            *final(final(self).scrollback) == *final(old(self).scrollback),
            *final(final(self).pending_scrollback) == *final(old(self).pending_scrollback),
    {
        self.grid.wrap_pending = false;
        let x: u16 = col.saturating_sub(1);
        let last: u16 = self.grid.cols - 1;
        self.grid.cursor_x = if x < last {
            x
        } else {
            last
        };
    }

    fn csi_cursor_position(&mut self, row: u16, col: u16)
        requires
            old(self)@.wf(),
        ensures
            final(self)@.wf(),
            final(self)@ == old(self)@.moved(
                old(self)@.col_number(col as int),
                old(self)@.row_number(row as int),
            ),
            final(self).scrollback_limit == old(self).scrollback_limit,
            *final(final(self).grid) == *final(old(self).grid),
            *final(final(self).state) == *final(old(self).state),
            *final(final(self).scrollback) == *final(old(self).scrollback),
            *final(final(self).pending_scrollback) == *final(old(self).pending_scrollback),
    {
        self.csi_line_position_absolute(row);
        self.csi_cursor_horizontal_absolute(col);
    }

    fn csi_line_position_absolute(&mut self, row: u16)
        requires
            old(self)@.wf(),
        ensures
            final(self)@.wf(),
            final(self)@ == old(self)@.moved(
                old(self)@.grid.cursor_x,
                old(self)@.row_number(row as int),
            ),
            final(self).scrollback_limit == old(self).scrollback_limit,
            *final(final(self).grid) == *final(old(self).grid),
            *final(final(self).state) == *final(old(self).state),
            *final(final(self).scrollback) == *final(old(self).scrollback),
            *final(final(self).pending_scrollback) == *final(old(self).pending_scrollback),
    {
        self.grid.wrap_pending = false;
        let y: u16 = row.saturating_sub(1);
        let last: u16 = self.grid.rows - 1;
        self.grid.cursor_y = if y < last {
            y
        } else {
            last
        };
    }

    // Erasing, inserting and deleting

    /// Erase the current row from the cursor on.
    fn erase_right(&mut self, blank: &Cell)
        requires
            old(self)@.wf(),
            blank@ == old(self)@.fill(),
        ensures
            final(self)@.wf(),
            final(self)@ == old(self)@.with_line(old(self)@.erased_right()),
            final(self).scrollback_limit == old(self).scrollback_limit,
            *final(final(self).grid) == *final(old(self).grid),
            *final(final(self).state) == *final(old(self).state),
            *final(final(self).scrollback) == *final(old(self).scrollback),
            *final(final(self).pending_scrollback) == *final(old(self).pending_scrollback),
    {
        let x: usize = self.grid.cursor_x as usize;
        let y: usize = self.grid.cursor_y as usize;
        let cols: usize = self.grid.cols as usize;
        let row: &mut Vec<Cell> = self.grid.visible_row_mut(y);
        unpair(row, x, blank);
        fill_range(row, x, cols, blank);
    }

    /// Erase the current row up to the cursor.
    fn erase_left(&mut self, blank: &Cell)
        requires
            old(self)@.wf(),
            blank@ == old(self)@.fill(),
        ensures
            final(self)@.wf(),
            final(self)@ == old(self)@.with_line(old(self)@.erased_left()),
            final(self).scrollback_limit == old(self).scrollback_limit,
            *final(final(self).grid) == *final(old(self).grid),
            *final(final(self).state) == *final(old(self).state),
            *final(final(self).scrollback) == *final(old(self).scrollback),
            *final(final(self).pending_scrollback) == *final(old(self).pending_scrollback),
    {
        let x: usize = self.grid.cursor_x as usize;
        let y: usize = self.grid.cursor_y as usize;
        let row: &mut Vec<Cell> = self.grid.visible_row_mut(y);
        unpair(row, x, blank);
        fill_range(row, 0, x + 1, blank);
    }

    fn csi_erase_display(&mut self, mode: u16)
        requires
            old(self)@.wf(),
        ensures
            final(self)@.wf(),
            final(self)@ == old(self)@.display_erased(mode),
            final(self).scrollback_limit == old(self).scrollback_limit,
            *final(final(self).grid) == *final(old(self).grid),
            *final(final(self).state) == *final(old(self).state),
            *final(final(self).scrollback) == *final(old(self).scrollback),
            *final(final(self).pending_scrollback) == *final(old(self).pending_scrollback),
    {
        let blank = self.blank_cell();
        let y: usize = self.grid.cursor_y as usize;
        let rows: usize = self.grid.rows as usize;
        match mode {
            0 => {
                self.erase_right(&blank);
                self.grid.fill_rows(y + 1, rows, &blank);
            },
            1 => {
                self.erase_left(&blank);
                self.grid.fill_rows(0, y, &blank);
            },
            2 => {
                self.grid.fill_rows(0, rows, &blank);
            },
            3 => {
                self.grid.fill_rows(0, rows, &blank);
                self.scrollback.clear();
                self.pending_scrollback.clear();
                // The outer terminal clears its own scrollback too
                let mut sequence: Vec<u8> = Vec::new();
                push_str(&mut sequence, "\x1b[3J");
                self.pass_through(sequence);
                assert(cell::rows_view(self.scrollback@) =~= seq![]);
                assert(cell::rows_view(self.pending_scrollback@) =~= seq![]);
            },
            _ => {},
        }
    }

    /// Queue a sequence for the outer terminal.
    fn pass_through(&mut self, sequence: Vec<u8>)
        ensures
            final(self)@ == (ScreenView {
                passthrough: old(self)@.passthrough.push(sequence@),
                ..old(self)@
            }),
            final(self).scrollback_limit == old(self).scrollback_limit,
            *final(final(self).grid) == *final(old(self).grid),
            *final(final(self).state) == *final(old(self).state),
            *final(final(self).scrollback) == *final(old(self).scrollback),
            *final(final(self).pending_scrollback) == *final(old(self).pending_scrollback),
    {
        self.state.pending_passthrough.push(sequence);
        assert(bytes::lines_view(self.state.pending_passthrough@) =~= old(self)@.passthrough.push(
            sequence@,
        ));
    }

    /// Queue a reply for the program.
    fn respond(&mut self, reply: Vec<u8>)
        ensures
            final(self)@ == old(self)@.responded(reply@),
            final(self).scrollback_limit == old(self).scrollback_limit,
            *final(final(self).grid) == *final(old(self).grid),
            *final(final(self).state) == *final(old(self).state),
            *final(final(self).scrollback) == *final(old(self).scrollback),
            *final(final(self).pending_scrollback) == *final(old(self).pending_scrollback),
    {
        self.state.pending_responses.push(reply);
        assert(bytes::lines_view(self.state.pending_responses@) =~= old(self)@.responses.push(
            reply@,
        ));
    }

    fn csi_erase_line(&mut self, mode: u16)
        requires
            old(self)@.wf(),
        ensures
            final(self)@.wf(),
            final(self)@ == old(self)@.line_erased(mode),
            final(self).scrollback_limit == old(self).scrollback_limit,
            *final(final(self).grid) == *final(old(self).grid),
            *final(final(self).state) == *final(old(self).state),
            *final(final(self).scrollback) == *final(old(self).scrollback),
            *final(final(self).pending_scrollback) == *final(old(self).pending_scrollback),
    {
        let blank = self.blank_cell();
        let y: usize = self.grid.cursor_y as usize;
        match mode {
            0 => {
                self.erase_right(&blank);
            },
            1 => {
                self.erase_left(&blank);
            },
            2 => {
                self.grid.fill_rows(y, y + 1, &blank);
                assert(self@.grid.cells =~= old(self)@.grid.cells.update(
                    y as int,
                    old(self)@.fill_row(),
                ));
            },
            _ => {},
        }
    }

    fn csi_erase_character(&mut self, n: u16)
        requires
            old(self)@.wf(),
        ensures
            final(self)@.wf(),
            final(self)@ == old(self)@.cells_erased(n as int),
            final(self).scrollback_limit == old(self).scrollback_limit,
            *final(final(self).grid) == *final(old(self).grid),
            *final(final(self).state) == *final(old(self).state),
            *final(final(self).scrollback) == *final(old(self).scrollback),
            *final(final(self).pending_scrollback) == *final(old(self).pending_scrollback),
    {
        let blank = self.blank_cell();
        let y: usize = self.grid.cursor_y as usize;
        let x: usize = self.grid.cursor_x as usize;
        let cols: usize = self.grid.cols as usize;
        let end: usize = if x + (n as usize) < cols {
            x + n as usize
        } else {
            cols
        };
        let row: &mut Vec<Cell> = self.grid.visible_row_mut(y);
        unpair(row, x, &blank);
        if end < cols {
            unpair(row, end, &blank);
        }
        fill_range(row, x, end, &blank);
    }

    fn csi_delete_character(&mut self, n: u16)
        requires
            old(self)@.wf(),
        ensures
            final(self)@.wf(),
            final(self)@ == old(self)@.cells_deleted(n as int),
            final(self).scrollback_limit == old(self).scrollback_limit,
            *final(final(self).grid) == *final(old(self).grid),
            *final(final(self).state) == *final(old(self).state),
            *final(final(self).scrollback) == *final(old(self).scrollback),
            *final(final(self).pending_scrollback) == *final(old(self).pending_scrollback),
    {
        let blank = self.blank_cell();
        let y: usize = self.grid.cursor_y as usize;
        let x: usize = self.grid.cursor_x as usize;
        let cols: usize = self.grid.cols as usize;
        let count: usize = if (n as usize) < cols - x {
            n as usize
        } else {
            cols - x
        };
        let row: &mut Vec<Cell> = self.grid.visible_row_mut(y);
        unpair(row, x, &blank);
        delete_cells(row, x, count, &blank);
        if row[x].width == 0 {
            put_cell(row, x, blank);
        }
    }

    fn csi_insert_character(&mut self, n: u16)
        requires
            old(self)@.wf(),
        ensures
            final(self)@.wf(),
            final(self)@ == old(self)@.cells_inserted(n as int),
            final(self).scrollback_limit == old(self).scrollback_limit,
            *final(final(self).grid) == *final(old(self).grid),
            *final(final(self).state) == *final(old(self).state),
            *final(final(self).scrollback) == *final(old(self).scrollback),
            *final(final(self).pending_scrollback) == *final(old(self).pending_scrollback),
    {
        let blank = self.blank_cell();
        let y: usize = self.grid.cursor_y as usize;
        let x: usize = self.grid.cursor_x as usize;
        let cols: usize = self.grid.cols as usize;
        let count: usize = if (n as usize) < cols - x {
            n as usize
        } else {
            cols - x
        };
        let row: &mut Vec<Cell> = self.grid.visible_row_mut(y);
        unpair(row, x, &blank);
        insert_cells(row, x, count, &blank);
        if row[cols - 1].width == 2 {
            put_cell(row, cols - 1, blank);
        }
    }

    fn csi_scroll_up_n(&mut self, n: u16)
        requires
            old(self)@.wf(),
        ensures
            final(self)@.wf(),
            final(self)@ == old(self)@.scrolled_up_by(model::min(n as int, old(self)@.grid.rows)),
            final(self).scrollback_limit == old(self).scrollback_limit,
            *final(final(self).grid) == *final(old(self).grid),
            *final(final(self).state) == *final(old(self).state),
            *final(final(self).scrollback) == *final(old(self).scrollback),
            *final(final(self).pending_scrollback) == *final(old(self).pending_scrollback),
    {
        let count: u16 = if n < self.grid.rows {
            n
        } else {
            self.grid.rows
        };
        let mut i: u16 = 0;
        while i < count
            invariant
                i <= count,
                self@.wf(),
                self@ == old(self)@.scrolled_up_by(i as int),
                self.scrollback_limit == old(self).scrollback_limit,
                *final(self.grid) == *final(old(self).grid),
                *final(self.state) == *final(old(self).state),
                *final(self.scrollback) == *final(old(self).scrollback),
                *final(self.pending_scrollback) == *final(old(self).pending_scrollback),
            decreases count - i,
        {
            self.scroll_up();
            i += 1;
        }
    }

    fn csi_scroll_down_n(&mut self, n: u16)
        requires
            old(self)@.wf(),
        ensures
            final(self)@.wf(),
            final(self)@ == old(self)@.scrolled_down_by(model::min(n as int, old(self)@.grid.rows)),
            final(self).scrollback_limit == old(self).scrollback_limit,
            *final(final(self).grid) == *final(old(self).grid),
            *final(final(self).state) == *final(old(self).state),
            *final(final(self).scrollback) == *final(old(self).scrollback),
            *final(final(self).pending_scrollback) == *final(old(self).pending_scrollback),
    {
        let count: u16 = if n < self.grid.rows {
            n
        } else {
            self.grid.rows
        };
        let mut i: u16 = 0;
        while i < count
            invariant
                i <= count,
                self@.wf(),
                self@ == old(self)@.scrolled_down_by(i as int),
                self.scrollback_limit == old(self).scrollback_limit,
                *final(self.grid) == *final(old(self).grid),
                *final(self.state) == *final(old(self).state),
                *final(self.scrollback) == *final(old(self).scrollback),
                *final(self.pending_scrollback) == *final(old(self).pending_scrollback),
            decreases count - i,
        {
            self.scroll_down();
            i += 1;
        }
    }

    fn csi_delete_lines(&mut self, n: u16)
        requires
            old(self)@.wf(),
        ensures
            final(self)@.wf(),
            final(self)@ == old(self)@.lines_deleted(n as int),
            final(self).scrollback_limit == old(self).scrollback_limit,
            *final(final(self).grid) == *final(old(self).grid),
            *final(final(self).state) == *final(old(self).state),
            *final(final(self).scrollback) == *final(old(self).scrollback),
            *final(final(self).pending_scrollback) == *final(old(self).pending_scrollback),
    {
        let blank = self.blank_cell();
        let y: usize = self.grid.cursor_y as usize;
        let top: usize = self.grid.scroll_top as usize;
        let bottom: usize = self.grid.scroll_bottom as usize;
        if y >= top && y <= bottom {
            self.grid.wrap_pending = false;
            let count: usize = if (n as usize) < bottom - y + 1 {
                n as usize
            } else {
                bottom - y + 1
            };
            self.grid.delete_rows(y, count, bottom, &blank);
        }
    }

    fn csi_insert_lines(&mut self, n: u16)
        requires
            old(self)@.wf(),
        ensures
            final(self)@.wf(),
            final(self)@ == old(self)@.lines_inserted(n as int),
            final(self).scrollback_limit == old(self).scrollback_limit,
            *final(final(self).grid) == *final(old(self).grid),
            *final(final(self).state) == *final(old(self).state),
            *final(final(self).scrollback) == *final(old(self).scrollback),
            *final(final(self).pending_scrollback) == *final(old(self).pending_scrollback),
    {
        let blank = self.blank_cell();
        let y: usize = self.grid.cursor_y as usize;
        let top: usize = self.grid.scroll_top as usize;
        let bottom: usize = self.grid.scroll_bottom as usize;
        if y >= top && y <= bottom {
            self.grid.wrap_pending = false;
            let count: usize = if (n as usize) < bottom - y + 1 {
                n as usize
            } else {
                bottom - y + 1
            };
            self.grid.insert_rows(y, count, bottom, &blank);
        }
    }

    fn csi_set_scrolling_region(&mut self, top: u16, bottom: u16)
        requires
            old(self)@.wf(),
        ensures
            final(self)@.wf(),
            final(self)@ == old(self)@.region_set(top as int, bottom as int),
            final(self).scrollback_limit == old(self).scrollback_limit,
            *final(final(self).grid) == *final(old(self).grid),
            *final(final(self).state) == *final(old(self).state),
            *final(final(self).scrollback) == *final(old(self).scrollback),
            *final(final(self).pending_scrollback) == *final(old(self).pending_scrollback),
    {
        let first: u16 = top.saturating_sub(1);
        let wanted: u16 = bottom.saturating_sub(1);
        let last: u16 = if wanted < self.grid.rows - 1 {
            wanted
        } else {
            self.grid.rows - 1
        };
        if first < last {
            self.grid.scroll_top = first;
            self.grid.scroll_bottom = last;
        }
        self.grid.cursor_x = 0;
        self.grid.cursor_y = 0;
        self.grid.wrap_pending = false;
    }

    // Modes

    fn csi_set_dec_private_mode(&mut self, ps: &[Vec<u16>], enable: bool)
        requires
            old(self)@.wf(),
        ensures
            final(self)@.wf(),
            final(self)@ == old(self)@.modes_set(style::params_view(ps@), enable),
            final(self).scrollback_limit == old(self).scrollback_limit,
            *final(final(self).grid) == *final(old(self).grid),
            *final(final(self).state) == *final(old(self).state),
            *final(final(self).scrollback) == *final(old(self).scrollback),
            *final(final(self).pending_scrollback) == *final(old(self).pending_scrollback),
    {
        let ghost params = style::params_view(ps@);
        let mut i: usize = 0;
        assert(params.take(0) =~= seq![]);
        while i < ps.len()
            invariant
                i <= ps.len(),
                params == style::params_view(ps@),
                self@.wf(),
                self@ == old(self)@.modes_set(params.take(i as int), enable),
                self.scrollback_limit == old(self).scrollback_limit,
                *final(self.grid) == *final(old(self).grid),
                *final(self.state) == *final(old(self).state),
                *final(self.scrollback) == *final(old(self).scrollback),
                *final(self.pending_scrollback) == *final(old(self).pending_scrollback),
            decreases ps.len() - i,
        {
            proof {
                assert(params.take(i + 1).drop_last() =~= params.take(i as int));
                assert(params.take(i + 1).last() == ps@[i as int]@);
            }
            if ps[i].len() > 0 {
                self.set_mode(ps[i][0], enable);
            }
            i += 1;
        }
        assert(params.take(i as int) =~= params);
    }

    /// Set or reset one DEC private mode.
    fn set_mode(&mut self, mode: u16, enable: bool)
        requires
            old(self)@.wf(),
        ensures
            final(self)@.wf(),
            final(self)@ == old(self)@.mode_set(mode, enable),
            final(self).scrollback_limit == old(self).scrollback_limit,
            *final(final(self).grid) == *final(old(self).grid),
            *final(final(self).state) == *final(old(self).state),
            *final(final(self).scrollback) == *final(old(self).scrollback),
            *final(final(self).pending_scrollback) == *final(old(self).pending_scrollback),
    {
        match mode {
            1048 => {
                if enable {
                    self.save_cursor();
                } else {
                    self.restore_cursor();
                }
            },
            47 | 1047 | 1049 => {
                if enable {
                    self.enter_alt_screen(mode == 1049);
                } else {
                    self.exit_alt_screen(mode == 1049);
                }
            },
            25 => {
                self.grid.cursor_visible = enable;
            },
            _ => {
                self.grid.modes = set_flag(self.grid.modes, mode, enable);
            },
        }
    }

    // Printing

    /// Add a combining mark to the character before the cursor.
    fn combine(&mut self, c: char)
        requires
            old(self)@.wf(),
        ensures
            final(self)@.wf(),
            final(self)@ == old(self)@.marked(c),
            final(self).scrollback_limit == old(self).scrollback_limit,
            *final(final(self).grid) == *final(old(self).grid),
            *final(final(self).state) == *final(old(self).state),
            *final(final(self).scrollback) == *final(old(self).scrollback),
            *final(final(self).pending_scrollback) == *final(old(self).pending_scrollback),
    {
        let x: usize = self.grid.cursor_x as usize;
        let y: usize = self.grid.cursor_y as usize;
        // While a wrap is deferred the cursor sits on the last cell that was
        // written; otherwise that cell is one column back.
        let near: usize = if self.grid.wrap_pending {
            x
        } else if x > 0 {
            x - 1
        } else {
            return;
        };
        assert(self@.line().len() == self@.grid.cols);
        let row: &mut Vec<Cell> = self.grid.visible_row_mut(y);
        // A continuation cell belongs to the wide character before it
        let at: usize = if row[near].width == 0 && near > 0 {
            near - 1
        } else {
            near
        };
        add_mark(row, at, c);
    }

    /// Write a character at the cursor and move the cursor behind it.
    fn put_char(&mut self, c: char, char_width: u16)
        requires
            old(self)@.wf(),
            char_width <= 255,
        ensures
            final(self)@.wf(),
            final(self)@ == old(self)@.put(c, char_width as int),
            final(self).scrollback_limit == old(self).scrollback_limit,
            *final(final(self).grid) == *final(old(self).grid),
            *final(final(self).state) == *final(old(self).state),
            *final(final(self).scrollback) == *final(old(self).scrollback),
            *final(final(self).pending_scrollback) == *final(old(self).pending_scrollback),
    {
        let blank = self.blank_cell();
        let style = self.state.current_style;
        let x: usize = self.grid.cursor_x as usize;
        let y: usize = self.grid.cursor_y as usize;
        let cols: usize = self.grid.cols as usize;
        let row: &mut Vec<Cell> = self.grid.visible_row_mut(y);
        unpair(row, x, &blank);
        put_cell(row, x, Cell { c, combining: Vec::new(), style, width: char_width as u8 });
        if char_width == 2 && x + 1 < cols {
            unpair(row, x + 1, &blank);
            put_cell(row, x + 1, Cell { c: '\0', combining: Vec::new(), style, width: 0 });
        }
        self.state.last_printed_char = c;
        let next: usize = x + char_width as usize;
        if next >= cols {
            self.grid.cursor_x = self.grid.cols - 1;
            // Without autowrap the cursor just stays at the right margin
            if self.grid.modes.autowrap_mode {
                self.grid.wrap_pending = true;
            }
        } else {
            self.grid.cursor_x = next as u16;
        }
    }

    /// Print a character that takes `char_width` columns.
    pub fn print_wide(&mut self, c: char, char_width: u16)
        requires
            old(self)@.wf(),
            char_width <= 255,
        ensures
            final(self)@.wf(),
            final(self)@ == old(self)@.printed_wide(c, char_width as int),
            final(self).scrollback_limit == old(self).scrollback_limit,
            *final(final(self).grid) == *final(old(self).grid),
            *final(final(self).state) == *final(old(self).state),
            *final(final(self).scrollback) == *final(old(self).scrollback),
            *final(final(self).pending_scrollback) == *final(old(self).pending_scrollback),
    {
        // Zero-width characters attach to the previous cell
        if char_width == 0 {
            self.combine(c);
            return;
        }
        // A wrap that an earlier character left due happens now
        if self.grid.wrap_pending && self.grid.modes.autowrap_mode {
            self.grid.wrap_pending = false;
            self.grid.cursor_x = 0;
            self.line_feed();
        }
        let ghost ready = self@;
        assert(ready == old(self)@.unwrapped());
        // A wide character that does not fit goes to the next line
        if char_width == 2 && self.grid.cursor_x >= self.grid.cols - 1 {
            if self.grid.modes.autowrap_mode {
                let x: usize = self.grid.cursor_x as usize;
                let y: usize = self.grid.cursor_y as usize;
                let blank = self.blank_cell();
                put_cell(self.grid.visible_row_mut(y), x, blank);
                self.grid.cursor_x = 0;
                self.line_feed();
            } else {
                return;
            }
        }
        self.put_char(c, char_width);
    }

    /// Print a character.
    pub fn print(&mut self, c: char)
        requires
            old(self)@.wf(),
        ensures
            final(self)@.wf(),
            final(self)@ == old(self)@.printed(c),
            final(self).scrollback_limit == old(self).scrollback_limit,
            *final(final(self).grid) == *final(old(self).grid),
            *final(final(self).state) == *final(old(self).state),
            *final(final(self).scrollback) == *final(old(self).scrollback),
            *final(final(self).pending_scrollback) == *final(old(self).pending_scrollback),
    {
        let shown: char = self.map_charset(c);
        self.print_wide(shown, char_width(shown));
    }

    /// Print a character several times.
    fn repeat(&mut self, c: char, n: u16)
        requires
            old(self)@.wf(),
        ensures
            final(self)@.wf(),
            final(self)@ == old(self)@.printed_times(c, n as int),
            final(self).scrollback_limit == old(self).scrollback_limit,
            *final(final(self).grid) == *final(old(self).grid),
            *final(final(self).state) == *final(old(self).state),
            *final(final(self).scrollback) == *final(old(self).scrollback),
            *final(final(self).pending_scrollback) == *final(old(self).pending_scrollback),
    {
        let mut i: u16 = 0;
        while i < n
            invariant
                i <= n,
                self@.wf(),
                self@ == old(self)@.printed_times(c, i as int),
                self.scrollback_limit == old(self).scrollback_limit,
                *final(self.grid) == *final(old(self).grid),
                *final(self.state) == *final(old(self).state),
                *final(self.scrollback) == *final(old(self).scrollback),
                *final(self.pending_scrollback) == *final(old(self).pending_scrollback),
            decreases n - i,
        {
            self.print(c);
            i += 1;
        }
    }

    // Events

    /// Move the cursor to the next tab stop, every eight columns.
    fn tab(&mut self)
        requires
            old(self)@.wf(),
        ensures
            final(self)@.wf(),
            final(self)@ == old(self)@.tabbed(),
            final(self).scrollback_limit == old(self).scrollback_limit,
            *final(final(self).grid) == *final(old(self).grid),
            *final(final(self).state) == *final(old(self).state),
            *final(final(self).scrollback) == *final(old(self).scrollback),
            *final(final(self).pending_scrollback) == *final(old(self).pending_scrollback),
    {
        self.grid.wrap_pending = false;
        let stop: u32 = (self.grid.cursor_x as u32 / 8 + 1) * 8;
        self.grid.cursor_x = if stop >= self.grid.cols as u32 {
            self.grid.cols - 1
        } else {
            stop as u16
        };
    }

    /// Move the cursor one column back.
    fn backspace(&mut self)
        requires
            old(self)@.wf(),
        ensures
            final(self)@.wf(),
            final(self)@ == old(self)@.moved(
                model::max(old(self)@.grid.cursor_x - 1, 0),
                old(self)@.grid.cursor_y,
            ),
            final(self).scrollback_limit == old(self).scrollback_limit,
            *final(final(self).grid) == *final(old(self).grid),
            *final(final(self).state) == *final(old(self).state),
            *final(final(self).scrollback) == *final(old(self).scrollback),
            *final(final(self).pending_scrollback) == *final(old(self).pending_scrollback),
    {
        self.grid.wrap_pending = false;
        if self.grid.cursor_x > 0 {
            self.grid.cursor_x -= 1;
        }
    }

    /// Move the cursor to the start of the row.
    fn carriage_return(&mut self)
        requires
            old(self)@.wf(),
        ensures
            final(self)@.wf(),
            final(self)@ == old(self)@.moved(0, old(self)@.grid.cursor_y),
            final(self).scrollback_limit == old(self).scrollback_limit,
            *final(final(self).grid) == *final(old(self).grid),
            *final(final(self).state) == *final(old(self).state),
            *final(final(self).scrollback) == *final(old(self).scrollback),
            *final(final(self).pending_scrollback) == *final(old(self).pending_scrollback),
    {
        self.grid.cursor_x = 0;
        self.grid.wrap_pending = false;
    }

    /// Move the cursor one row down, cancelling a deferred wrap.
    fn new_line(&mut self)
        requires
            old(self)@.wf(),
        ensures
            final(self)@.wf(),
            final(self)@ == old(self)@.fed(),
            final(self).scrollback_limit == old(self).scrollback_limit,
            *final(final(self).grid) == *final(old(self).grid),
            *final(final(self).state) == *final(old(self).state),
            *final(final(self).scrollback) == *final(old(self).scrollback),
            *final(final(self).pending_scrollback) == *final(old(self).pending_scrollback),
    {
        self.grid.wrap_pending = false;
        self.line_feed();
    }

    /// Ring the bell of the outer terminal.
    fn bell(&mut self)
        ensures
            old(self)@.wf() ==> final(self)@.wf(),
            final(self)@ == old(self)@.rung(),
            final(self).scrollback_limit == old(self).scrollback_limit,
            *final(final(self).grid) == *final(old(self).grid),
            *final(final(self).state) == *final(old(self).state),
            *final(final(self).scrollback) == *final(old(self).scrollback),
            *final(final(self).pending_scrollback) == *final(old(self).pending_scrollback),
    {
        let mut bell: Vec<u8> = Vec::new();
        bell.push(7);
        assert(bell@ =~= seq![7u8]);
        self.pass_through(bell);
    }

    /// Select the active character set slot.
    fn shift(&mut self, slot: ActiveCharset)
        ensures
            old(self)@.wf() ==> final(self)@.wf(),
            final(self)@ == old(self)@.with_modes(
                TerminalModes { active_charset: slot, ..old(self)@.grid.modes },
            ),
            final(self).scrollback_limit == old(self).scrollback_limit,
            *final(final(self).grid) == *final(old(self).grid),
            *final(final(self).state) == *final(old(self).state),
            *final(final(self).scrollback) == *final(old(self).scrollback),
            *final(final(self).pending_scrollback) == *final(old(self).pending_scrollback),
    {
        self.grid.modes.active_charset = slot;
    }

    /// Carry out a control character.
    #[verifier::rlimit(50)]
    pub fn execute(&mut self, byte: u8)
        requires
            old(self)@.wf(),
        ensures
            final(self)@.wf(),
            final(self)@ == old(self)@.executed(byte),
            final(self).scrollback_limit == old(self).scrollback_limit,
            *final(final(self).grid) == *final(old(self).grid),
            *final(final(self).state) == *final(old(self).state),
            *final(final(self).scrollback) == *final(old(self).scrollback),
            *final(final(self).pending_scrollback) == *final(old(self).pending_scrollback),
    {
        match byte {
            0x0D => self.carriage_return(),
            // LF, VT and FF are all line feeds
            0x0A..=0x0C => self.new_line(),
            0x08 => self.backspace(),
            0x09 => self.tab(),
            0x0E => self.shift(ActiveCharset::G1),
            0x0F => self.shift(ActiveCharset::G0),
            // The bell rings at the outer terminal
            0x07 => self.bell(),
            _ => {},
        }
    }

    /// Carry out a control sequence that moves the cursor.
    fn csi_move(&mut self, params: &[Vec<u16>], action: char)
        requires
            old(self)@.wf(),
            ScreenView::is_movement(action),
        ensures
            final(self)@.wf(),
            final(self)@ == old(self)@.csi_moved(style::params_view(params@), action),
            final(self).scrollback_limit == old(self).scrollback_limit,
            *final(final(self).grid) == *final(old(self).grid),
            *final(final(self).state) == *final(old(self).state),
            *final(final(self).scrollback) == *final(old(self).scrollback),
            *final(final(self).pending_scrollback) == *final(old(self).pending_scrollback),
    {
        let n: u16 = param_or(params, 0, 1);
        match action {
            'A' => self.csi_cursor_up(n),
            'B' => self.csi_cursor_down(n),
            'C' => self.csi_cursor_forward(n),
            'D' => self.csi_cursor_back(n),
            'E' => self.csi_cursor_next_line(n),
            'F' => self.csi_cursor_prev_line(n),
            'G' => self.csi_cursor_horizontal_absolute(n),
            'd' => self.csi_line_position_absolute(n),
            _ => self.csi_cursor_position(n, param_or(params, 1, 1)),
        }
    }

    /// Carry out a control sequence that changes cells.
    fn csi_edit(&mut self, params: &[Vec<u16>], action: char)
        requires
            old(self)@.wf(),
            ScreenView::is_edit(action),
        ensures
            final(self)@.wf(),
            final(self)@ == old(self)@.csi_edited(style::params_view(params@), action),
            final(self).scrollback_limit == old(self).scrollback_limit,
            *final(final(self).grid) == *final(old(self).grid),
            *final(final(self).state) == *final(old(self).state),
            *final(final(self).scrollback) == *final(old(self).scrollback),
            *final(final(self).pending_scrollback) == *final(old(self).pending_scrollback),
    {
        let n: u16 = param_or(params, 0, 1);
        match action {
            'J' => self.csi_erase_display(param_or(params, 0, 0)),
            'K' => self.csi_erase_line(param_or(params, 0, 0)),
            'X' => self.csi_erase_character(n),
            'P' => self.csi_delete_character(n),
            '@' => self.csi_insert_character(n),
            'M' => self.csi_delete_lines(n),
            'L' => self.csi_insert_lines(n),
            'S' => self.csi_scroll_up_n(n),
            _ => {
                let c: char = self.state.last_printed_char;
                self.repeat(c, n);
            },
        }
    }

    /// Carry out a control sequence that asks for a reply.
    fn csi_report(&mut self, params: &[Vec<u16>], intermediates: &[u8], action: char)
        requires
            old(self)@.wf(),
            action == 'n' || action == 'c',
        ensures
            final(self)@.wf(),
            final(self)@ == old(self)@.csi(
                style::params_view(params@),
                intermediates@,
                action,
            ),
            final(self).scrollback_limit == old(self).scrollback_limit,
            *final(final(self).grid) == *final(old(self).grid),
            *final(final(self).state) == *final(old(self).state),
            *final(final(self).scrollback) == *final(old(self).scrollback),
            *final(final(self).pending_scrollback) == *final(old(self).pending_scrollback),
    {
        let n: u16 = param_or(params, 0, 0);
        let mut reply: Vec<u8> = Vec::new();
        if action == 'n' {
            if intermediates.len() == 0 && n == 6 {
                push_str(&mut reply, "\x1b[");
                write_u16(&mut reply, self.grid.cursor_y + 1);
                push_str(&mut reply, ";");
                write_u16(&mut reply, self.grid.cursor_x + 1);
                push_str(&mut reply, "R");
                assert(reply@ =~= model::cursor_report(
                    self@.grid.cursor_x,
                    self@.grid.cursor_y,
                ));
                self.respond(reply);
            }
        } else if n == 0 {
            if intermediates.len() == 0 {
                push_str(&mut reply, "\x1b[?62;c");
                self.respond(reply);
            } else if is_byte(intermediates, 0x3e) {
                push_str(&mut reply, "\x1b[>0;10;1c");
                self.respond(reply);
            }
        }
    }

    /// Carry out a control sequence.
    #[verifier::rlimit(50)]
    pub fn csi_dispatch(&mut self, params: &[Vec<u16>], intermediates: &[u8], action: char)
        requires
            old(self)@.wf(),
        ensures
            final(self)@.wf(),
            final(self)@ == old(self)@.csi(
                style::params_view(params@),
                intermediates@,
                action,
            ),
            final(self).scrollback_limit == old(self).scrollback_limit,
            *final(final(self).grid) == *final(old(self).grid),
            *final(final(self).state) == *final(old(self).state),
            *final(final(self).scrollback) == *final(old(self).scrollback),
            *final(final(self).pending_scrollback) == *final(old(self).pending_scrollback),
    {
        match action {
            'A' | 'B' | 'C' | 'D' | 'E' | 'F' | 'G' | 'H' | 'f' | 'd' => {
                self.csi_move(params, action);
            },
            'J' | 'K' | 'X' | 'P' | '@' | 'M' | 'L' | 'S' | 'b' => {
                self.csi_edit(params, action);
            },
            'm' => {
                self.state.current_style.apply_sgr(params);
            },
            'n' | 'c' => {
                self.csi_report(params, intermediates, action);
            },
            'q' => {
                if is_byte(intermediates, 0x20) {
                    self.grid.modes.cursor_shape = CursorShape::from_sgr(
                        low_byte(param_or(params, 0, 0)),
                    );
                }
            },
            'T' => {
                if params.len() <= 1 {
                    self.csi_scroll_down_n(param_or(params, 0, 1));
                }
            },
            'r' => {
                if intermediates.len() == 0 {
                    let rows: u16 = self.grid.rows;
                    self.csi_set_scrolling_region(param_or(params, 0, 1), param_or(params, 1, rows));
                }
            },
            's' => {
                if intermediates.len() == 0 {
                    self.save_cursor();
                }
            },
            'u' => {
                if intermediates.len() == 0 {
                    self.restore_cursor();
                }
            },
            'h' | 'l' => {
                if is_byte(intermediates, 0x3f) {
                    self.csi_set_dec_private_mode(params, action == 'h');
                }
            },
            _ => {},
        }
    }

    /// Reset the terminal (RIS).
    fn full_reset(&mut self)
        requires
            old(self)@.wf(),
        ensures
            final(self)@.wf(),
            final(self)@ == old(self)@.reset(),
            final(self).scrollback_limit == old(self).scrollback_limit,
            *final(final(self).grid) == *final(old(self).grid),
            *final(final(self).state) == *final(old(self).state),
            *final(final(self).scrollback) == *final(old(self).scrollback),
            *final(final(self).pending_scrollback) == *final(old(self).pending_scrollback),
    {
        self.grid.cursor_x = 0;
        self.grid.cursor_y = 0;
        self.grid.scroll_top = 0;
        self.grid.scroll_bottom = self.grid.rows - 1;
        self.grid.cursor_visible = true;
        self.grid.wrap_pending = false;
        self.grid.modes = TerminalModes::default();
        self.state.current_style = Style::default();
        self.state.in_alt_screen = false;
        self.state.saved_grid = None;
        self.state.saved_cursor_state = None;
        self.state.title = String::new();
        self.state.last_printed_char = ' ';
        let rows: usize = self.grid.rows as usize;
        self.grid.fill_rows(0, rows, &Cell::default());
    }

    /// Move the cursor one row up, scrolling down at the top of the region (RI).
    fn reverse_index(&mut self)
        requires
            old(self)@.wf(),
        ensures
            final(self)@.wf(),
            final(self)@ == old(self)@.previous_line(),
            final(self).scrollback_limit == old(self).scrollback_limit,
            *final(final(self).grid) == *final(old(self).grid),
            *final(final(self).state) == *final(old(self).state),
            *final(final(self).scrollback) == *final(old(self).scrollback),
            *final(final(self).pending_scrollback) == *final(old(self).pending_scrollback),
    {
        if self.grid.cursor_y == self.grid.scroll_top {
            self.scroll_down();
        } else if self.grid.cursor_y > 0 {
            self.grid.cursor_y -= 1;
        }
    }

    /// Carry out an escape sequence.
    #[verifier::rlimit(50)]
    pub fn esc_dispatch(&mut self, intermediates: &[u8], byte: u8)
        requires
            old(self)@.wf(),
        ensures
            final(self)@.wf(),
            final(self)@ == old(self)@.esc(intermediates@, byte),
            final(self).scrollback_limit == old(self).scrollback_limit,
            *final(final(self).grid) == *final(old(self).grid),
            *final(final(self).state) == *final(old(self).state),
            *final(final(self).scrollback) == *final(old(self).scrollback),
            *final(final(self).pending_scrollback) == *final(old(self).pending_scrollback),
    {
        if intermediates.len() == 0 {
            match byte {
                0x4d => self.reverse_index(),
                0x37 => self.save_cursor(),
                0x38 => self.restore_cursor(),
                0x63 => self.full_reset(),
                0x3d => {
                    self.grid.modes.keypad_app_mode = true;
                },
                0x3e => {
                    self.grid.modes.keypad_app_mode = false;
                },
                _ => {},
            }
        } else if byte == 0x42 || byte == 0x30 {
            let charset = if byte == 0x42 {
                Charset::Ascii
            } else {
                Charset::LineDrawing
            };
            if is_byte(intermediates, 0x28) {
                self.grid.modes.g0_charset = charset;
            } else if is_byte(intermediates, 0x29) {
                self.grid.modes.g1_charset = charset;
            }
        }
    }

    /// Carry out an operating system command.
    pub fn osc_dispatch(&mut self, params: &[Vec<u8>])
        requires
            old(self)@.wf(),
        ensures
            final(self)@.wf(),
            final(self)@ == old(self)@.osc(bytes::lines_view(params@)),
            final(self).scrollback_limit == old(self).scrollback_limit,
            *final(final(self).grid) == *final(old(self).grid),
            *final(final(self).state) == *final(old(self).state),
            *final(final(self).scrollback) == *final(old(self).scrollback),
            *final(final(self).pending_scrollback) == *final(old(self).pending_scrollback),
    {
        if params.len() == 0 {
            return;
        }
        let ghost fields = bytes::lines_view(params@);
        assert(fields[0] == params@[0]@);
        let number: Option<u64> = parse_number(params[0].as_slice(), 65535);
        let title = match number {
            Some(n) => n == 0 || n == 2,
            None => false,
        };
        // Commands 0 and 2 set the window title
        if title {
            if params.len() >= 2 {
                assert(fields[1] == params@[1]@);
                if let Some(text) = utf8_text(params[1].as_slice()) {
                    self.state.title = text;
                }
            }
            return;
        }
        // All others (notifications, clipboard, hyperlinks) are for the outer terminal
        let mut sequence: Vec<u8> = Vec::new();
        push_str(&mut sequence, "\x1b]");
        push_joined(&mut sequence, params);
        sequence.push(7);
        assert(sequence@ =~= model::osc_bytes(fields));
        self.pass_through(sequence);
    }

    /// Carry out one event.
    #[verifier::rlimit(50)]
    pub fn perform(&mut self, event: &Event)
        requires
            old(self)@.wf(),
        ensures
            final(self)@.wf(),
            match event@ {
                EventView::Print(c) => final(self)@ == old(self)@.printed(c),
                EventView::Execute(byte) => final(self)@ == old(self)@.executed(byte),
                EventView::Csi { params, intermediates, action } => final(self)@ == old(self)@.csi(
                    params,
                    intermediates,
                    action,
                ),
                EventView::Esc { intermediates, byte } => final(self)@ == old(self)@.esc(
                    intermediates,
                    byte,
                ),
                EventView::Osc { fields } => final(self)@ == old(self)@.osc(fields),
            },
            final(self).scrollback_limit == old(self).scrollback_limit,
            *final(final(self).grid) == *final(old(self).grid),
            *final(final(self).state) == *final(old(self).state),
            *final(final(self).scrollback) == *final(old(self).scrollback),
            *final(final(self).pending_scrollback) == *final(old(self).pending_scrollback),
    {
        match event {
            Event::Print(c) => self.print(*c),
            Event::Execute(byte) => self.execute(*byte),
            Event::Csi { params, intermediates, action } => self.csi_dispatch(
                params.as_slice(),
                intermediates.as_slice(),
                *action,
            ),
            Event::Esc { intermediates, byte } => self.esc_dispatch(
                intermediates.as_slice(),
                *byte,
            ),
            Event::Osc { fields } => self.osc_dispatch(fields.as_slice()),
        }
    }

    /// Carry out one event of a list.
    #[verifier::rlimit(50)]
    fn step(&mut self, event: &Event)
        requires
            old(self)@.wf(),
        ensures
            final(self)@.wf(),
            final(self)@ == old(self)@.performed(event@),
            final(self).scrollback_limit == old(self).scrollback_limit,
            *final(final(self).grid) == *final(old(self).grid),
            *final(final(self).state) == *final(old(self).state),
            *final(final(self).scrollback) == *final(old(self).scrollback),
            *final(final(self).pending_scrollback) == *final(old(self).pending_scrollback),
    {
        proof {
            reveal(ScreenView::performed);
        }
        self.perform(event);
    }

    /// Carry out events in order.
    pub fn perform_all(&mut self, events: &[Event])
        requires
            old(self)@.wf(),
        ensures
            final(self)@.wf(),
            final(self)@ == old(self)@.performed_all(events_view(events@)),
            final(self).scrollback_limit == old(self).scrollback_limit,
            *final(final(self).grid) == *final(old(self).grid),
            *final(final(self).state) == *final(old(self).state),
            *final(final(self).scrollback) == *final(old(self).scrollback),
            *final(final(self).pending_scrollback) == *final(old(self).pending_scrollback),
    {
        let ghost all = events_view(events@);
        let mut i: usize = 0;
        assert(all.take(0) =~= seq![]);
        while i < events.len()
            invariant
                i <= events.len(),
                all == events_view(events@),
                self@.wf(),
                self@ == old(self)@.performed_all(all.take(i as int)),
                self.scrollback_limit == old(self).scrollback_limit,
                *final(self.grid) == *final(old(self).grid),
                *final(self.state) == *final(old(self).state),
                *final(self.scrollback) == *final(old(self).scrollback),
                *final(self.pending_scrollback) == *final(old(self).pending_scrollback),
            decreases events.len() - i,
        {
            self.step(&events[i]);
            proof {
                assert(all.take(i + 1).drop_last() =~= all.take(i as int));
                assert(all.take(i + 1).last() == events@[i as int]@);
            }
            i += 1;
        }
        assert(all.take(i as int) =~= all);
    }
}

/// What the escape sequence parser reports.
#[derive(Debug)]
pub enum Event {
    /// A printable character.
    Print(char),
    /// A control character.
    Execute(u8),
    /// A control sequence.
    Csi { params: Vec<Vec<u16>>, intermediates: Vec<u8>, action: char },
    /// An escape sequence.
    Esc { intermediates: Vec<u8>, byte: u8 },
    /// An operating system command.
    Osc { fields: Vec<Vec<u8>> },
}

impl View for Event {
    type V = EventView;

    open spec fn view(&self) -> EventView {
        match self {
            Event::Print(c) => EventView::Print(*c),
            Event::Execute(byte) => EventView::Execute(*byte),
            Event::Csi { params, intermediates, action } => EventView::Csi {
                params: style::params_view(params@),
                intermediates: intermediates@,
                action: *action,
            },
            Event::Esc { intermediates, byte } => EventView::Esc {
                intermediates: intermediates@,
                byte: *byte,
            },
            Event::Osc { fields } => EventView::Osc { fields: bytes::lines_view(fields@) },
        }
    }
}

/// What a list of events says.
pub open spec fn events_view(events: Seq<Event>) -> Seq<EventView> {
    events.map_values(|e: Event| e@)
}

/// Value of the parameter `i`; a missing or a zero one is `default`.
fn param_or(params: &[Vec<u16>], i: usize, default: u16) -> (res: u16)
    ensures
        res == model::param(style::params_view(params@), i as int, default),
{
    if i < params.len() && params[i].len() > 0 && params[i][0] != 0 {
        params[i][0]
    } else {
        default
    }
}

/// Whether a byte string is the single byte `b`.
fn is_byte(text: &[u8], b: u8) -> (res: bool)
    ensures
        res == (text@ == seq![b]),
{
    let res = text.len() == 1 && text[0] == b;
    assert(res ==> text@ =~= seq![b]);
    res
}

/// Append byte strings separated by semicolons.
fn push_joined(out: &mut Vec<u8>, params: &[Vec<u8>])
    ensures
        final(out)@ == old(out)@ + model::joined(bytes::lines_view(params@)),
{
    let ghost all = bytes::lines_view(params@);
    let mut i: usize = 0;
    assert(all.take(0) =~= seq![]);
    assert(out@ =~= old(out)@ + model::joined(all.take(0)));
    while i < params.len()
        invariant
            i <= params.len(),
            all == bytes::lines_view(params@),
            out@ == old(out)@ + model::joined(all.take(i as int)),
        decreases params.len() - i,
    {
        if i > 0 {
            push_str(out, ";");
        }
        out.extend_from_slice(params[i].as_slice());
        proof {
            assert(all.take(i + 1).drop_last() =~= all.take(i as int));
            assert(all.take(i + 1).last() == params@[i as int]@);
            assert(out@ =~= old(out)@ + model::joined(all.take(i + 1)));
        }
        i += 1;
    }
    assert(all.take(i as int) =~= all);
}

/// Set or reset one DEC private mode that is a flag or a choice.
fn set_flag(modes: TerminalModes, mode: u16, enable: bool) -> (res: TerminalModes)
    ensures
        res == model::flag_set(modes, mode, enable),
{
    let choice: u16 = if enable {
        mode
    } else {
        0
    };
    match mode {
        1 => TerminalModes { cursor_key_mode: enable, ..modes },
        7 => TerminalModes { autowrap_mode: enable, ..modes },
        1000 | 1002 | 1003 => TerminalModes { mouse_mode: choice, ..modes },
        1004 => TerminalModes { focus_reporting: enable, ..modes },
        1005 | 1006 => TerminalModes { mouse_encoding: choice, ..modes },
        2004 => TerminalModes { bracketed_paste: enable, ..modes },
        _ => modes,
    }
}

} // verus!
