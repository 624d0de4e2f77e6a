//! What a terminal is, and what each control function does to it.

use vstd::prelude::*;
use vstd::string::*;
use vstd::utf8::*;

use crate::bytes;

use super::cell;
use super::cell::CellView;
use super::grid;
use super::grid::{ActiveCharset, Charset, GridView, TerminalModes};
use super::style;
use super::style::Style;
use super::width;
use super::SavedCursor;

verus! {

/// A terminal: its grid, its rendition and saved state, what it owes to the
/// program and to the outer terminal, and the rows that scrolled off its top.
pub struct ScreenView {
    pub grid: GridView,
    pub style: Style,
    pub in_alt_screen: bool,
    pub saved_grid: Option<Seq<Seq<CellView>>>,
    pub saved_cursor: Option<SavedCursor>,
    pub saved_modes: Option<TerminalModes>,
    pub responses: Seq<Seq<u8>>,
    pub passthrough: Seq<Seq<u8>>,
    pub title: Seq<char>,
    pub last_printed_char: char,
    pub scrollback: Seq<Seq<CellView>>,
    pub scrollback_limit: int,
    pub pending_scrollback: Seq<Seq<CellView>>,
}

/// What the escape sequence parser reports.
#[verifier::ext_equal]
pub enum EventView {
    Print(char),
    Execute(u8),
    Csi { params: Seq<Seq<u16>>, intermediates: Seq<u8>, action: char },
    Esc { intermediates: Seq<u8>, byte: u8 },
    Osc { fields: Seq<Seq<u8>> },
}

/// The smaller of two numbers.
pub open spec fn min(a: int, b: int) -> int {
    if a < b {
        a
    } else {
        b
    }
}

/// The larger of two numbers.
pub open spec fn max(a: int, b: int) -> int {
    if a < b {
        b
    } else {
        a
    }
}

/// The DEC special graphics character for `c`.
pub open spec fn line_drawing(c: char) -> char {
    match c {
        'j' => '┘',
        'k' => '┐',
        'l' => '┌',
        'm' => '└',
        'n' => '┼',
        'q' => '─',
        't' => '├',
        'u' => '┤',
        'v' => '┴',
        'w' => '┬',
        'x' => '│',
        'a' => '▒',
        '`' => '◆',
        _ => c,
    }
}

/// The character set that the active slot holds.
pub open spec fn active_set(modes: TerminalModes) -> Charset {
    match modes.active_charset {
        ActiveCharset::G0 => modes.g0_charset,
        ActiveCharset::G1 => modes.g1_charset,
    }
}

/// The character that `c` stands for in the active character set.
pub open spec fn mapped(modes: TerminalModes, c: char) -> char {
    match active_set(modes) {
        Charset::LineDrawing => line_drawing(c),
        Charset::Ascii => c,
    }
}

/// The value of the parameter `i`; a missing or a zero one is `default`.
pub open spec fn param(params: Seq<Seq<u16>>, i: int, default: u16) -> u16 {
    if i < params.len() && params[i].len() > 0 && params[i][0] != 0 {
        params[i][0]
    } else {
        default
    }
}

/// An operating system command as it is sent: its parameters separated by
/// semicolons, ended by BEL.
pub open spec fn osc_bytes(params: Seq<Seq<u8>>) -> Seq<u8> {
    "\x1b]".spec_bytes() + joined(params) + seq![7u8]
}

/// Byte strings separated by semicolons.
pub open spec fn joined(params: Seq<Seq<u8>>) -> Seq<u8>
    decreases params.len(),
{
    if params.len() == 0 {
        seq![]
    } else if params.len() == 1 {
        params[0]
    } else {
        joined(params.drop_last()) + ";".spec_bytes() + params.last()
    }
}

/// A report of the cursor position, counted from one.
pub open spec fn cursor_report(x: int, y: int) -> Seq<u8> {
    "\x1b[".spec_bytes() + bytes::decimal((y + 1) as nat) + ";".spec_bytes() + bytes::decimal(
        (x + 1) as nat,
    ) + "R".spec_bytes()
}

impl ScreenView {
    /// The invariant of a terminal: that of its grid.
    pub open spec fn wf(self) -> bool {
        &&& self.grid.wf()
        &&& 0 <= self.scrollback_limit
    }

    pub open spec fn with_grid(self, grid: GridView) -> ScreenView {
        ScreenView { grid, ..self }
    }

    pub open spec fn with_modes(self, modes: TerminalModes) -> ScreenView {
        self.with_grid(GridView { modes, ..self.grid })
    }

    /// The terminal with the cursor moved, which cancels a deferred wrap.
    pub open spec fn moved(self, x: int, y: int) -> ScreenView {
        self.with_grid(
            GridView { cursor_x: x, cursor_y: y, wrap_pending: false, ..self.grid },
        )
    }

    /// The row that the cursor is on.
    pub open spec fn line(self) -> Seq<CellView> {
        self.grid.cells[self.grid.cursor_y]
    }

    /// The terminal with another row under the cursor.
    pub open spec fn with_line(self, row: Seq<CellView>) -> ScreenView {
        self.with_grid(self.grid.with_row(self.grid.cursor_y, row))
    }

    /// The cell that erasing leaves behind: empty, with the current background.
    pub open spec fn fill(self) -> CellView {
        cell::space(Style { bg: self.style.bg, ..style::plain() })
    }

    /// A row of such cells.
    pub open spec fn fill_row(self) -> Seq<CellView> {
        cell::uniform_row(self.fill(), self.grid.cols)
    }

    /// The scroll region moved up by one row. On the main screen a row that leaves
    /// the top of the screen is remembered.
    pub open spec fn scrolled_up(self) -> ScreenView {
        let keeps = !self.in_alt_screen && self.grid.scroll_top == 0;
        ScreenView {
            grid: self.grid.with_cells(
                grid::row_moved(
                    self.grid.cells,
                    self.grid.scroll_top,
                    self.grid.scroll_bottom,
                    self.fill_row(),
                ),
            ),
            scrollback: if keeps {
                grid::remembered(self.scrollback, self.scrollback_limit, self.grid.cells[0])
            } else {
                self.scrollback
            },
            pending_scrollback: if keeps {
                grid::remembered(
                    self.pending_scrollback,
                    self.scrollback_limit,
                    self.grid.cells[0],
                )
            } else {
                self.pending_scrollback
            },
            ..self
        }
    }

    /// The scroll region moved down by one row.
    pub open spec fn scrolled_down(self) -> ScreenView {
        self.with_grid(
            self.grid.with_cells(
                grid::row_moved(
                    self.grid.cells,
                    self.grid.scroll_bottom,
                    self.grid.scroll_top,
                    self.fill_row(),
                ),
            ),
        )
    }

    /// The scroll region moved up by `n` rows.
    pub open spec fn scrolled_up_by(self, n: int) -> ScreenView
        decreases n,
    {
        if n <= 0 {
            self
        } else {
            self.scrolled_up_by(n - 1).scrolled_up()
        }
    }

    /// The scroll region moved down by `n` rows.
    pub open spec fn scrolled_down_by(self, n: int) -> ScreenView
        decreases n,
    {
        if n <= 0 {
            self
        } else {
            self.scrolled_down_by(n - 1).scrolled_down()
        }
    }

    /// The cursor one row down; at the bottom of the scroll region the region
    /// scrolls, at the bottom of the screen nothing moves.
    pub open spec fn next_line(self) -> ScreenView {
        if self.grid.cursor_y == self.grid.scroll_bottom {
            self.scrolled_up()
        } else if self.grid.cursor_y < self.grid.rows - 1 {
            self.with_grid(GridView { cursor_y: self.grid.cursor_y + 1, ..self.grid })
        } else {
            self
        }
    }

    /// The cursor at the start of the next line.
    pub open spec fn wrapped(self) -> ScreenView {
        self.with_grid(GridView { cursor_x: 0, ..self.grid }).next_line()
    }

    /// A combining mark added to the character before the cursor, or to the one
    /// under it while a wrap is deferred. Of a wide character it goes to the
    /// first half. At the start of a line there is nothing to add it to.
    pub open spec fn marked(self, c: char) -> ScreenView {
        let x = self.grid.cursor_x;
        if !self.grid.wrap_pending && x == 0 {
            self
        } else {
            let near = if self.grid.wrap_pending {
                x
            } else {
                x - 1
            };
            let at = if self.line()[near].width == 0 && near > 0 {
                near - 1
            } else {
                near
            };
            self.with_line(self.line().update(at, cell::marked(self.line()[at], c)))
        }
    }

    /// The current row with a character of width `w` at the cursor. A wide
    /// character takes a second, continuation cell where there is room.
    pub open spec fn line_with(self, c: char, w: int) -> Seq<CellView> {
        let x = self.grid.cursor_x;
        let first = cell::unpaired(self.line(), x, self.fill()).update(
            x,
            CellView { c, combining: seq![], style: self.style, width: w as u8 },
        );
        if w == 2 && x + 1 < self.grid.cols {
            cell::unpaired(first, x + 1, self.fill()).update(
                x + 1,
                CellView { c: '\0', combining: seq![], style: self.style, width: 0 },
            )
        } else {
            first
        }
    }

    /// A character of width `w` written at the cursor, which moves behind it. At
    /// the right margin the cursor stays on the last column, and with autowrap
    /// the next character will wrap.
    pub open spec fn put(self, c: char, w: int) -> ScreenView {
        let x = self.grid.cursor_x + w;
        let g = self.grid.with_row(self.grid.cursor_y, self.line_with(c, w));
        ScreenView {
            grid: if x >= self.grid.cols {
                GridView {
                    cursor_x: self.grid.cols - 1,
                    wrap_pending: g.wrap_pending || g.modes.autowrap_mode,
                    ..g
                }
            } else {
                GridView { cursor_x: x, ..g }
            },
            last_printed_char: c,
            ..self
        }
    }

    /// A deferred wrap carried out.
    pub open spec fn unwrapped(self) -> ScreenView {
        if self.grid.wrap_pending && self.grid.modes.autowrap_mode {
            self.with_grid(GridView { wrap_pending: false, ..self.grid }).wrapped()
        } else {
            self
        }
    }

    /// A character of `w` columns printed, as it is in the active character set.
    /// One without width is added to the character before it. A wide one that
    /// does not fit on the line goes to the next line, or nowhere without
    /// autowrap.
    pub open spec fn printed_wide(self, c: char, w: int) -> ScreenView {
        if w == 0 {
            self.marked(c)
        } else {
            let ready = self.unwrapped();
            if w == 2 && ready.grid.cursor_x >= ready.grid.cols - 1 {
                if ready.grid.modes.autowrap_mode {
                    ready.with_line(
                        ready.line().update(ready.grid.cursor_x, ready.fill()),
                    ).wrapped().put(c, w)
                } else {
                    ready
                }
            } else {
                ready.put(c, w)
            }
        }
    }

    /// A character printed.
    pub open spec fn printed(self, c: char) -> ScreenView {
        let shown = mapped(self.grid.modes, c);
        self.printed_wide(shown, width::columns(shown))
    }

    /// A character printed `n` times.
    pub open spec fn printed_times(self, c: char, n: int) -> ScreenView
        decreases n,
    {
        if n <= 0 {
            self
        } else {
            self.printed_times(c, n - 1).printed(c)
        }
    }

    /// The cursor at the next tab stop, every eight columns, or at the right margin.
    pub open spec fn tabbed(self) -> ScreenView {
        self.moved(
            min((self.grid.cursor_x / 8 + 1) * 8, self.grid.cols - 1),
            self.grid.cursor_y,
        )
    }

    /// A line feed, which cancels a deferred wrap.
    pub open spec fn fed(self) -> ScreenView {
        self.with_grid(GridView { wrap_pending: false, ..self.grid }).next_line()
    }

    /// The bell, which rings at the outer terminal.
    pub open spec fn rung(self) -> ScreenView {
        ScreenView { passthrough: self.passthrough.push(seq![7u8]), ..self }
    }

    /// A control character carried out.
    pub open spec fn executed(self, byte: u8) -> ScreenView {
        let g = self.grid;
        if byte == 0x0D {
            self.moved(0, g.cursor_y)
        } else if 0x0A <= byte <= 0x0C {
            self.fed()
        } else if byte == 0x08 {
            self.moved(max(g.cursor_x - 1, 0), g.cursor_y)
        } else if byte == 0x09 {
            self.tabbed()
        } else if byte == 0x0E {
            self.with_modes(TerminalModes { active_charset: ActiveCharset::G1, ..g.modes })
        } else if byte == 0x0F {
            self.with_modes(TerminalModes { active_charset: ActiveCharset::G0, ..g.modes })
        } else if byte == 0x07 {
            self.rung()
        } else {
            self
        }
    }

    /// The row that bounds an upward movement: the top of the scroll region from
    /// inside or below it, else the top of the screen.
    pub open spec fn upper_bound(self) -> int {
        if self.grid.cursor_y >= self.grid.scroll_top {
            self.grid.scroll_top
        } else {
            0
        }
    }

    /// The row that bounds a downward movement.
    pub open spec fn lower_bound(self) -> int {
        if self.grid.cursor_y <= self.grid.scroll_bottom {
            self.grid.scroll_bottom
        } else {
            self.grid.rows - 1
        }
    }

    /// The row `n` rows up.
    pub open spec fn row_up(self, n: int) -> int {
        max(self.grid.cursor_y - n, self.upper_bound())
    }

    /// The row `n` rows down.
    pub open spec fn row_down(self, n: int) -> int {
        min(self.grid.cursor_y + n, self.lower_bound())
    }

    /// A row number counted from one, on the screen.
    pub open spec fn row_number(self, n: int) -> int {
        min(max(n - 1, 0), self.grid.rows - 1)
    }

    /// A column number counted from one, on the screen.
    pub open spec fn col_number(self, n: int) -> int {
        min(max(n - 1, 0), self.grid.cols - 1)
    }

    /// The current row from the cursor to its end erased.
    pub open spec fn erased_right(self) -> Seq<CellView> {
        cell::filled(
            cell::unpaired(self.line(), self.grid.cursor_x, self.fill()),
            self.grid.cursor_x,
            self.grid.cols,
            self.fill(),
        )
    }

    /// The current row from its start to the cursor erased.
    pub open spec fn erased_left(self) -> Seq<CellView> {
        cell::filled(
            cell::unpaired(self.line(), self.grid.cursor_x, self.fill()),
            0,
            self.grid.cursor_x + 1,
            self.fill(),
        )
    }

    /// The rows `from..to` erased.
    pub open spec fn rows_erased(self, from: int, to: int) -> ScreenView {
        self.with_grid(
            self.grid.with_cells(grid::rows_filled(self.grid.cells, from, to, self.fill_row())),
        )
    }

    /// Part of the display erased: from the cursor on (0), up to the cursor (1),
    /// all of it (2), or all of it with the history (3), which the outer terminal
    /// is told too.
    pub open spec fn display_erased(self, mode: u16) -> ScreenView {
        let y = self.grid.cursor_y;
        if mode == 0 {
            self.with_line(self.erased_right()).rows_erased(y + 1, self.grid.rows)
        } else if mode == 1 {
            self.with_line(self.erased_left()).rows_erased(0, y)
        } else if mode == 2 {
            self.rows_erased(0, self.grid.rows)
        } else if mode == 3 {
            ScreenView {
                scrollback: seq![],
                pending_scrollback: seq![],
                passthrough: self.passthrough.push("\x1b[3J".spec_bytes()),
                ..self.rows_erased(0, self.grid.rows)
            }
        } else {
            self
        }
    }

    /// Part of the current row erased: from the cursor on (0), up to the cursor
    /// (1), or all of it (2).
    pub open spec fn line_erased(self, mode: u16) -> ScreenView {
        if mode == 0 {
            self.with_line(self.erased_right())
        } else if mode == 1 {
            self.with_line(self.erased_left())
        } else if mode == 2 {
            self.with_line(self.fill_row())
        } else {
            self
        }
    }

    /// The `n` cells from the cursor on erased in place.
    pub open spec fn cells_erased(self, n: int) -> ScreenView {
        let x = self.grid.cursor_x;
        let end = min(x + n, self.grid.cols);
        let first = cell::unpaired(self.line(), x, self.fill());
        let both = if end < self.grid.cols {
            cell::unpaired(first, end, self.fill())
        } else {
            first
        };
        self.with_line(cell::filled(both, x, end, self.fill()))
    }

    /// The `n` cells at the cursor taken out. Half a wide character that comes to
    /// stand under the cursor is erased.
    pub open spec fn cells_deleted(self, n: int) -> ScreenView {
        let x = self.grid.cursor_x;
        let row = cell::cells_deleted(
            cell::unpaired(self.line(), x, self.fill()),
            x,
            min(n, self.grid.cols - x),
            self.fill(),
        );
        self.with_line(
            if row[x].width == 0 {
                row.update(x, self.fill())
            } else {
                row
            },
        )
    }

    /// `n` empty cells put in at the cursor. Half a wide character that comes to
    /// stand at the right margin is erased.
    pub open spec fn cells_inserted(self, n: int) -> ScreenView {
        let x = self.grid.cursor_x;
        let last = self.grid.cols - 1;
        let row = cell::cells_inserted(
            cell::unpaired(self.line(), x, self.fill()),
            x,
            min(n, self.grid.cols - x),
            self.fill(),
        );
        self.with_line(
            if row[last].width == 2 {
                row.update(last, self.fill())
            } else {
                row
            },
        )
    }

    /// Whether the cursor is inside the scroll region.
    pub open spec fn in_region(self) -> bool {
        self.grid.scroll_top <= self.grid.cursor_y <= self.grid.scroll_bottom
    }

    /// The `n` rows at the cursor taken out of the scroll region.
    pub open spec fn lines_deleted(self, n: int) -> ScreenView {
        let y = self.grid.cursor_y;
        let bottom = self.grid.scroll_bottom;
        if self.in_region() {
            self.with_grid(
                GridView {
                    wrap_pending: false,
                    cells: grid::rows_deleted(
                        self.grid.cells,
                        y,
                        min(n, bottom - y + 1),
                        bottom,
                        self.fill_row(),
                    ),
                    ..self.grid
                },
            )
        } else {
            self
        }
    }

    /// `n` empty rows put in at the cursor, inside the scroll region.
    pub open spec fn lines_inserted(self, n: int) -> ScreenView {
        let y = self.grid.cursor_y;
        let bottom = self.grid.scroll_bottom;
        if self.in_region() {
            self.with_grid(
                GridView {
                    wrap_pending: false,
                    cells: grid::rows_inserted(
                        self.grid.cells,
                        y,
                        min(n, bottom - y + 1),
                        bottom,
                        self.fill_row(),
                    ),
                    ..self.grid
                },
            )
        } else {
            self
        }
    }

    /// The scroll region set to the rows `top` to `bottom`, counted from one, if
    /// that is more than one row. The cursor goes home either way.
    pub open spec fn region_set(self, top: int, bottom: int) -> ScreenView {
        let t = max(top - 1, 0);
        let b = self.row_number(bottom);
        let home = self.moved(0, 0);
        if t < b {
            home.with_grid(GridView { scroll_top: t, scroll_bottom: b, ..home.grid })
        } else {
            home
        }
    }

    /// What saving the cursor keeps.
    pub open spec fn cursor_saved(self) -> ScreenView {
        ScreenView {
            saved_cursor: Some(
                SavedCursor {
                    x: self.grid.cursor_x as u16,
                    y: self.grid.cursor_y as u16,
                    style: self.style,
                    g0_charset: self.grid.modes.g0_charset,
                    g1_charset: self.grid.modes.g1_charset,
                    active_charset: self.grid.modes.active_charset,
                    autowrap_mode: self.grid.modes.autowrap_mode,
                },
            ),
            ..self
        }
    }

    /// The saved cursor brought back, moved onto the screen; nothing without one.
    pub open spec fn cursor_restored(self) -> ScreenView {
        match self.saved_cursor {
            None => self,
            Some(saved) => ScreenView {
                style: saved.style,
                ..self.moved(
                    min(saved.x as int, self.grid.cols - 1),
                    min(saved.y as int, self.grid.rows - 1),
                ).with_modes(
                    TerminalModes {
                        g0_charset: saved.g0_charset,
                        g1_charset: saved.g1_charset,
                        active_charset: saved.active_charset,
                        autowrap_mode: saved.autowrap_mode,
                        ..self.grid.modes
                    },
                )
            },
        }
    }

    /// The alternate screen entered: cells and modes are put aside, and it starts
    /// blank with the cursor home.
    pub open spec fn alt_entered(self, save_cursor: bool) -> ScreenView {
        let kept = if save_cursor {
            self.cursor_saved()
        } else {
            self
        };
        ScreenView {
            saved_grid: Some(self.grid.cells),
            saved_modes: Some(self.grid.modes),
            in_alt_screen: true,
            grid: GridView {
                cells: grid::rows_filled(
                    self.grid.cells,
                    0,
                    self.grid.rows,
                    cell::uniform_row(cell::blank(), self.grid.cols),
                ),
                cursor_x: 0,
                cursor_y: 0,
                scroll_top: 0,
                scroll_bottom: self.grid.rows - 1,
                wrap_pending: false,
                ..self.grid
            },
            ..kept
        }
    }

    /// The alternate screen left: the cells and modes that were put aside come
    /// back, fitted to the screen as it is now.
    pub open spec fn alt_left(self, restore_cursor: bool) -> ScreenView {
        let back = ScreenView {
            in_alt_screen: false,
            saved_grid: None,
            saved_modes: None,
            grid: GridView {
                cells: match self.saved_grid {
                    Some(cells) => cell::fitted(cells, self.grid.cols, self.grid.rows),
                    None => self.grid.cells,
                },
                modes: match self.saved_modes {
                    Some(modes) => modes,
                    None => self.grid.modes,
                },
                ..self.grid
            },
            ..self
        };
        let placed = if restore_cursor {
            back.cursor_restored()
        } else {
            back
        };
        placed.with_grid(
            GridView { scroll_top: 0, scroll_bottom: self.grid.rows - 1, ..placed.grid },
        )
    }

    /// One DEC private mode set or reset.
    pub open spec fn mode_set(self, mode: u16, enable: bool) -> ScreenView {
        if mode == 25 {
            self.with_grid(GridView { cursor_visible: enable, ..self.grid })
        } else if mode == 1048 {
            if enable {
                self.cursor_saved()
            } else {
                self.cursor_restored()
            }
        } else if mode == 1049 || mode == 1047 || mode == 47 {
            if enable {
                self.alt_entered(mode == 1049)
            } else {
                self.alt_left(mode == 1049)
            }
        } else {
            self.with_modes(flag_set(self.grid.modes, mode, enable))
        }
    }

    /// The DEC private modes in `params` set or reset, in order.
    pub open spec fn modes_set(self, params: Seq<Seq<u16>>, enable: bool) -> ScreenView
        decreases params.len(),
    {
        if params.len() == 0 {
            self
        } else {
            let before = self.modes_set(params.drop_last(), enable);
            if params.last().len() > 0 {
                before.mode_set(params.last()[0], enable)
            } else {
                before
            }
        }
    }

    /// A reply owed to the program.
    pub open spec fn responded(self, reply: Seq<u8>) -> ScreenView {
        ScreenView { responses: self.responses.push(reply), ..self }
    }

    /// A control sequence that moves the cursor.
    pub open spec fn csi_moved(self, params: Seq<Seq<u16>>, action: char) -> ScreenView {
        let g = self.grid;
        let n = param(params, 0, 1) as int;
        if action == 'A' {
            self.moved(g.cursor_x, self.row_up(n))
        } else if action == 'B' {
            self.moved(g.cursor_x, self.row_down(n))
        } else if action == 'C' {
            self.moved(min(g.cursor_x + n, g.cols - 1), g.cursor_y)
        } else if action == 'D' {
            self.moved(max(g.cursor_x - n, 0), g.cursor_y)
        } else if action == 'E' {
            self.moved(0, self.row_down(n))
        } else if action == 'F' {
            self.moved(0, self.row_up(n))
        } else if action == 'G' {
            self.moved(self.col_number(n), g.cursor_y)
        } else if action == 'd' {
            self.moved(g.cursor_x, self.row_number(n))
        } else {
            self.moved(
                self.col_number(param(params, 1, 1) as int),
                self.row_number(n),
            )
        }
    }

    /// Whether a final character names a cursor movement.
    pub open spec fn is_movement(action: char) -> bool {
        action == 'A' || action == 'B' || action == 'C' || action == 'D' || action == 'E' || action
            == 'F' || action == 'G' || action == 'H' || action == 'f' || action == 'd'
    }

    /// A control sequence that changes cells.
    pub open spec fn csi_edited(self, params: Seq<Seq<u16>>, action: char) -> ScreenView {
        let n = param(params, 0, 1) as int;
        if action == 'J' {
            self.display_erased(param(params, 0, 0))
        } else if action == 'K' {
            self.line_erased(param(params, 0, 0))
        } else if action == 'X' {
            self.cells_erased(n)
        } else if action == 'P' {
            self.cells_deleted(n)
        } else if action == '@' {
            self.cells_inserted(n)
        } else if action == 'M' {
            self.lines_deleted(n)
        } else if action == 'L' {
            self.lines_inserted(n)
        } else if action == 'S' {
            self.scrolled_up_by(min(n, self.grid.rows))
        } else {
            self.printed_times(self.last_printed_char, n)
        }
    }

    /// Whether a final character names a change of cells.
    pub open spec fn is_edit(action: char) -> bool {
        action == 'J' || action == 'K' || action == 'X' || action == 'P' || action == '@' || action
            == 'M' || action == 'L' || action == 'S' || action == 'b'
    }

    /// A control sequence carried out.
    pub open spec fn csi(
        self,
        params: Seq<Seq<u16>>,
        intermediates: Seq<u8>,
        action: char,
    ) -> ScreenView {
        let g = self.grid;
        if ScreenView::is_movement(action) {
            self.csi_moved(params, action)
        } else if ScreenView::is_edit(action) {
            self.csi_edited(params, action)
        } else if action == 'm' {
            ScreenView { style: style::sgr_applied(self.style, params), ..self }
        } else if action == 'n' && intermediates.len() == 0 && param(params, 0, 0) == 6 {
            self.responded(cursor_report(g.cursor_x, g.cursor_y))
        } else if action == 'c' && intermediates.len() == 0 && param(params, 0, 0) == 0 {
            self.responded("\x1b[?62;c".spec_bytes())
        } else if action == 'c' && intermediates == seq![0x3eu8] && param(params, 0, 0) == 0 {
            self.responded("\x1b[>0;10;1c".spec_bytes())
        } else if action == 'q' && intermediates == seq![0x20u8] {
            self.with_modes(
                TerminalModes {
                    cursor_shape: grid::shape_of(style::component(param(params, 0, 0))),
                    ..g.modes
                },
            )
        } else if action == 'T' && params.len() <= 1 {
            self.scrolled_down_by(min(param(params, 0, 1) as int, g.rows))
        } else if action == 'r' && intermediates.len() == 0 {
            self.region_set(
                param(params, 0, 1) as int,
                param(params, 1, g.rows as u16) as int,
            )
        } else if action == 's' && intermediates.len() == 0 {
            self.cursor_saved()
        } else if action == 'u' && intermediates.len() == 0 {
            self.cursor_restored()
        } else if (action == 'h' || action == 'l') && intermediates == seq![0x3fu8] {
            self.modes_set(params, action == 'h')
        } else {
            self
        }
    }

    /// The terminal after a full reset. History and what is still owed are kept.
    pub open spec fn reset(self) -> ScreenView {
        ScreenView {
            grid: GridView {
                cells: grid::rows_filled(
                    self.grid.cells,
                    0,
                    self.grid.rows,
                    cell::uniform_row(cell::blank(), self.grid.cols),
                ),
                cursor_x: 0,
                cursor_y: 0,
                scroll_top: 0,
                scroll_bottom: self.grid.rows - 1,
                cursor_visible: true,
                wrap_pending: false,
                modes: grid::initial_modes(),
                ..self.grid
            },
            style: style::plain(),
            in_alt_screen: false,
            saved_grid: None,
            saved_cursor: None,
            title: seq![],
            last_printed_char: ' ',
            ..self
        }
    }

    /// The cursor one row up; at the top of the scroll region the region scrolls
    /// down, at the top of the screen nothing moves.
    pub open spec fn previous_line(self) -> ScreenView {
        if self.grid.cursor_y == self.grid.scroll_top {
            self.scrolled_down()
        } else if self.grid.cursor_y > 0 {
            self.with_grid(GridView { cursor_y: self.grid.cursor_y - 1, ..self.grid })
        } else {
            self
        }
    }

    /// An escape sequence carried out.
    pub open spec fn esc(self, intermediates: Seq<u8>, byte: u8) -> ScreenView {
        let m = self.grid.modes;
        if intermediates.len() == 0 {
            if byte == 0x4d {
                self.previous_line()
            } else if byte == 0x37 {
                self.cursor_saved()
            } else if byte == 0x38 {
                self.cursor_restored()
            } else if byte == 0x63 {
                self.reset()
            } else if byte == 0x3d {
                self.with_modes(TerminalModes { keypad_app_mode: true, ..m })
            } else if byte == 0x3e {
                self.with_modes(TerminalModes { keypad_app_mode: false, ..m })
            } else {
                self
            }
        } else if intermediates == seq![0x28u8] && (byte == 0x42 || byte == 0x30) {
            self.with_modes(TerminalModes { g0_charset: designated(byte), ..m })
        } else if intermediates == seq![0x29u8] && (byte == 0x42 || byte == 0x30) {
            self.with_modes(TerminalModes { g1_charset: designated(byte), ..m })
        } else {
            self
        }
    }

    /// An operating system command carried out: commands 0 and 2 set the title,
    /// if it is valid text; all others go to the outer terminal.
    pub open spec fn osc(self, params: Seq<Seq<u8>>) -> ScreenView {
        if params.len() == 0 {
            self
        } else if sets_title(params[0]) {
            if params.len() >= 2 && valid_utf8(params[1]) {
                ScreenView { title: decode_utf8(params[1]), ..self }
            } else {
                self
            }
        } else {
            ScreenView { passthrough: self.passthrough.push(osc_bytes(params)), ..self }
        }
    }

    /// One event carried out.
    #[verifier::opaque]
    pub open spec fn performed(self, event: EventView) -> ScreenView {
        match event {
            EventView::Print(c) => self.printed(c),
            EventView::Execute(byte) => self.executed(byte),
            EventView::Csi { params, intermediates, action } => self.csi(
                params,
                intermediates,
                action,
            ),
            EventView::Esc { intermediates, byte } => self.esc(intermediates, byte),
            EventView::Osc { fields } => self.osc(fields),
        }
    }

    /// Events carried out in order.
    pub open spec fn performed_all(self, events: Seq<EventView>) -> ScreenView
        decreases events.len(),
    {
        if events.len() == 0 {
            self
        } else {
            self.performed_all(events.drop_last()).performed(events.last())
        }
    }
}

/// The modes after a DEC private mode that is a flag or a choice is set or reset.
/// One choice of mouse tracking, or of mouse encoding, replaces another.
pub open spec fn flag_set(m: TerminalModes, mode: u16, enable: bool) -> TerminalModes {
    let choice: u16 = if enable {
        mode
    } else {
        0
    };
    if mode == 1 {
        TerminalModes { cursor_key_mode: enable, ..m }
    } else if mode == 7 {
        TerminalModes { autowrap_mode: enable, ..m }
    } else if mode == 1000 || mode == 1002 || mode == 1003 {
        TerminalModes { mouse_mode: choice, ..m }
    } else if mode == 1005 || mode == 1006 {
        TerminalModes { mouse_encoding: choice, ..m }
    } else if mode == 1004 {
        TerminalModes { focus_reporting: enable, ..m }
    } else if mode == 2004 {
        TerminalModes { bracketed_paste: enable, ..m }
    } else {
        m
    }
}

/// The character set that a designation ends in: `B` for ASCII, `0` for line
/// drawing.
pub open spec fn designated(byte: u8) -> Charset {
    if byte == 0x42 {
        Charset::Ascii
    } else {
        Charset::LineDrawing
    }
}

/// Whether an operating system command number asks for a new title.
pub open spec fn sets_title(number: Seq<u8>) -> bool {
    bytes::is_number(number) && (bytes::number_value(number) == 0 || bytes::number_value(number)
        == 2)
}

} // verus!
