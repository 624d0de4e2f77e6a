//! Cell storage with cursor, scroll region and terminal modes.

use std::collections::VecDeque;

use vstd::prelude::*;

use super::cell;
use super::cell::{clone_row, fit_rows, make_row, Cell, CellView};

verus! {

/// DEC character set designator.
#[derive(Copy, Clone, Debug, PartialEq, Eq, Hash, Structural)]
pub enum Charset {
    Ascii,
    LineDrawing,
}

impl Default for Charset {
    fn default() -> (res: Self)
        ensures
            res == Charset::Ascii,
    {
        Charset::Ascii
    }
}

/// Which character set slot (G0/G1) is active.
#[derive(Copy, Clone, Debug, PartialEq, Eq, Hash, Structural)]
pub enum ActiveCharset {
    G0,
    G1,
}

impl Default for ActiveCharset {
    fn default() -> (res: Self)
        ensures
            res == ActiveCharset::G0,
    {
        ActiveCharset::G0
    }
}

/// DECSCUSR cursor shape.
#[derive(Copy, Clone, Debug, PartialEq, Eq, Hash, Structural)]
pub enum CursorShape {
    Default,
    BlinkBlock,
    SteadyBlock,
    BlinkUnderline,
    SteadyUnderline,
    BlinkBar,
    SteadyBar,
}

impl Default for CursorShape {
    fn default() -> (res: Self)
        ensures
            res == CursorShape::Default,
    {
        CursorShape::Default
    }
}

/// The DECSCUSR parameter that stands for a cursor shape.
pub open spec fn shape_code(shape: CursorShape) -> u8 {
    match shape {
        CursorShape::Default => 0,
        CursorShape::BlinkBlock => 1,
        CursorShape::SteadyBlock => 2,
        CursorShape::BlinkUnderline => 3,
        CursorShape::SteadyUnderline => 4,
        CursorShape::BlinkBar => 5,
        CursorShape::SteadyBar => 6,
    }
}

/// The cursor shape that a DECSCUSR parameter selects; an unknown one selects
/// the default shape.
pub open spec fn shape_of(n: u8) -> CursorShape {
    if n == 1 {
        CursorShape::BlinkBlock
    } else if n == 2 {
        CursorShape::SteadyBlock
    } else if n == 3 {
        CursorShape::BlinkUnderline
    } else if n == 4 {
        CursorShape::SteadyUnderline
    } else if n == 5 {
        CursorShape::BlinkBar
    } else if n == 6 {
        CursorShape::SteadyBar
    } else {
        CursorShape::Default
    }
}

impl CursorShape {
    /// Convert from raw DECSCUSR parameter.
    pub fn from_sgr(n: u8) -> (res: Self)
        ensures
            res == shape_of(n),
    {
        match n {
            1 => Self::BlinkBlock,
            2 => Self::SteadyBlock,
            3 => Self::BlinkUnderline,
            4 => Self::SteadyUnderline,
            5 => Self::BlinkBar,
            6 => Self::SteadyBar,
            _ => Self::Default,
        }
    }

    /// Raw DECSCUSR parameter value.
    pub fn to_param(self) -> (res: u8)
        ensures
            res == shape_code(self),
    {
        match self {
            Self::Default => 0,
            Self::BlinkBlock => 1,
            Self::SteadyBlock => 2,
            Self::BlinkUnderline => 3,
            Self::SteadyUnderline => 4,
            Self::BlinkBar => 5,
            Self::SteadyBar => 6,
        }
    }
}

/// Reading back the parameter of a cursor shape gives the shape.
pub proof fn law_shape_round_trip(shape: CursorShape)
    ensures
        shape_of(shape_code(shape)) == shape,
        shape_code(shape) <= 6,
{
}

/// Terminal mode flags and character set state, separated from cell storage.
#[derive(Copy, Clone, Debug, PartialEq, Eq, Structural)]
pub struct TerminalModes {
    /// ?1 DECCKM
    pub cursor_key_mode: bool,
    /// ?2004
    pub bracketed_paste: bool,
    /// ?7 DECAWM (default true)
    pub autowrap_mode: bool,
    /// ?1004
    pub focus_reporting: bool,
    /// 0 for off, else 1000, 1002 or 1003
    pub mouse_mode: u16,
    /// 0 for X10, else 1005 (UTF-8) or 1006 (SGR)
    pub mouse_encoding: u16,
    /// ESC = / ESC >
    pub keypad_app_mode: bool,
    pub cursor_shape: CursorShape,
    pub g0_charset: Charset,
    pub g1_charset: Charset,
    pub active_charset: ActiveCharset,
}

/// The modes of a fresh terminal.
pub open spec fn initial_modes() -> TerminalModes {
    TerminalModes {
        cursor_key_mode: false,
        bracketed_paste: false,
        autowrap_mode: true,
        focus_reporting: false,
        mouse_mode: 0,
        mouse_encoding: 0,
        keypad_app_mode: false,
        cursor_shape: CursorShape::Default,
        g0_charset: Charset::Ascii,
        g1_charset: Charset::Ascii,
        active_charset: ActiveCharset::G0,
    }
}

impl Default for TerminalModes {
    fn default() -> (res: Self)
        ensures
            res == initial_modes(),
    {
        TerminalModes {
            cursor_key_mode: false,
            bracketed_paste: false,
            autowrap_mode: true,
            focus_reporting: false,
            mouse_mode: 0,
            mouse_encoding: 0,
            keypad_app_mode: false,
            cursor_shape: CursorShape::Default,
            g0_charset: Charset::Ascii,
            g1_charset: Charset::Ascii,
            active_charset: ActiveCharset::G0,
        }
    }
}

/// Two-dimensional cell storage with cursor position, scroll region, and terminal modes.
pub struct Grid {
    pub cols: u16,
    pub rows: u16,
    pub cells: Vec<Vec<Cell>>,
    pub cursor_x: u16,
    pub cursor_y: u16,
    /// Deferred wrap: cursor is at the right margin, next printable char triggers wrap
    pub wrap_pending: bool,
    /// Scroll region top (inclusive, 0-based)
    pub scroll_top: u16,
    /// Scroll region bottom (inclusive, 0-based)
    pub scroll_bottom: u16,
    /// Cursor visibility (DECTCEM ?25h/?25l)
    pub cursor_visible: bool,
    /// Terminal modes and character set state
    pub modes: TerminalModes,
}

/// What a grid holds.
#[verifier::ext_equal]
pub struct GridView {
    pub cols: int,
    pub rows: int,
    pub cells: Seq<Seq<CellView>>,
    pub cursor_x: int,
    pub cursor_y: int,
    pub wrap_pending: bool,
    pub scroll_top: int,
    pub scroll_bottom: int,
    pub cursor_visible: bool,
    pub modes: TerminalModes,
}

impl View for Grid {
    type V = GridView;

    open spec fn view(&self) -> GridView {
        GridView {
            cols: self.cols as int,
            rows: self.rows as int,
            cells: cell::rows_view(self.cells@),
            cursor_x: self.cursor_x as int,
            cursor_y: self.cursor_y as int,
            wrap_pending: self.wrap_pending,
            scroll_top: self.scroll_top as int,
            scroll_bottom: self.scroll_bottom as int,
            cursor_visible: self.cursor_visible,
            modes: self.modes,
        }
    }
}

impl GridView {
    /// The invariant of a grid: at least one cell, every row as wide as the grid,
    /// the cursor on the grid, and a non-empty scroll region on the grid.
    pub open spec fn wf(self) -> bool {
        &&& 1 <= self.cols <= u16::MAX
        &&& 1 <= self.rows <= u16::MAX
        &&& self.cells.len() == self.rows
        &&& forall|y: int| 0 <= y < self.rows ==> #[trigger] self.cells[y].len() == self.cols
        &&& 0 <= self.cursor_x < self.cols
        &&& 0 <= self.cursor_y < self.rows
        &&& 0 <= self.scroll_top <= self.scroll_bottom < self.rows
    }

    /// The grid with other cells.
    pub open spec fn with_cells(self, cells: Seq<Seq<CellView>>) -> GridView {
        GridView { cells, ..self }
    }

    /// The grid with another row `y`.
    pub open spec fn with_row(self, y: int, row: Seq<CellView>) -> GridView {
        self.with_cells(self.cells.update(y, row))
    }
}

/// The larger of a dimension and one.
pub open spec fn at_least_one(n: int) -> int {
    if n < 1 {
        1
    } else {
        n
    }
}

/// A fresh grid.
pub open spec fn empty_grid(cols: int, rows: int) -> GridView {
    GridView {
        cols,
        rows,
        cells: Seq::new(rows as nat, |y: int| cell::uniform_row(cell::blank(), cols)),
        cursor_x: 0,
        cursor_y: 0,
        wrap_pending: false,
        scroll_top: 0,
        scroll_bottom: rows - 1,
        cursor_visible: true,
        modes: initial_modes(),
    }
}

/// The row taken out at `from` and another one put in at `to`.
pub open spec fn row_moved(
    cells: Seq<Seq<CellView>>,
    from: int,
    to: int,
    row: Seq<CellView>,
) -> Seq<Seq<CellView>> {
    cells.remove(from).insert(to, row)
}

/// A bounded history after one more row: a full one drops its oldest row first.
pub open spec fn remembered(
    history: Seq<Seq<CellView>>,
    limit: int,
    row: Seq<CellView>,
) -> Seq<Seq<CellView>> {
    if history.len() >= limit && history.len() > 0 {
        history.drop_first().push(row)
    } else {
        history.push(row)
    }
}

/// A history never grows beyond its limit (a limit of zero holds one row).
pub proof fn law_history_bounded(history: Seq<Seq<CellView>>, limit: int, row: Seq<CellView>)
    requires
        history.len() <= limit || history.len() <= 1,
    ensures
        remembered(history, limit, row).len() <= limit || remembered(history, limit, row).len()
            <= 1,
        remembered(history, limit, row).last() == row,
{
}

/// A grid fitted to new dimensions: cells are kept where they are, the cursor is
/// moved onto the grid, and the scroll region is the whole grid.
pub open spec fn resized(g: GridView, cols: int, rows: int) -> GridView {
    GridView {
        cols,
        rows,
        cells: cell::fitted(g.cells, cols, rows),
        cursor_x: if g.cursor_x >= cols {
            cols - 1
        } else {
            g.cursor_x
        },
        cursor_y: if g.cursor_y >= rows {
            rows - 1
        } else {
            g.cursor_y
        },
        wrap_pending: false,
        scroll_top: 0,
        scroll_bottom: rows - 1,
        ..g
    }
}

/// Add a row to a bounded history.
pub fn remember(history: &mut VecDeque<Vec<Cell>>, limit: usize, row: Vec<Cell>)
    ensures
        cell::rows_view(final(history)@) == remembered(
            cell::rows_view(old(history)@),
            limit as int,
            cell::row_view(row@),
        ),
{
    if history.len() >= limit {
        history.pop_front();
    }
    history.push_back(row);
    assert(cell::rows_view(history@) =~= remembered(
        cell::rows_view(old(history)@),
        limit as int,
        cell::row_view(row@),
    ));
}

impl Grid {
    /// Create a grid with the given dimensions, sanitized to at least 1x1.
    pub fn new(cols: u16, rows: u16) -> (grid: Self)
        ensures
            grid@ == empty_grid(at_least_one(cols as int), at_least_one(rows as int)),
            grid@.wf(),
    {
        let (cols, rows) = sanitize_dimensions(cols, rows);
        let mut cells: Vec<Vec<Cell>> = Vec::new();
        fit_rows(&mut cells, cols as usize, rows as usize);
        assert(cell::rows_view(cells@) =~= empty_grid(cols as int, rows as int).cells);
        Grid {
            cols,
            rows,
            cells,
            cursor_x: 0,
            cursor_y: 0,
            wrap_pending: false,
            scroll_top: 0,
            scroll_bottom: rows - 1,
            cursor_visible: true,
            modes: TerminalModes::default(),
        }
    }

    /// Number of rows on display.
    pub fn visible_row_count(&self) -> (res: usize)
        ensures
            res == self@.cells.len(),
    {
        self.cells.len()
    }

    /// The rows on display, from the top.
    pub fn visible_rows(&self) -> (res: &Vec<Vec<Cell>>)
        ensures
            cell::rows_view(res@) == self@.cells,
    {
        &self.cells
    }

    /// The row `y` on display, for changing it.
    pub fn visible_row_mut(&mut self, y: usize) -> (res: &mut Vec<Cell>)
        requires
            y < old(self)@.cells.len(),
        ensures
            cell::row_view(res@) == old(self)@.cells[y as int],
            final(self)@ == old(self)@.with_row(y as int, cell::row_view(final(res)@)),
    {
        proof {
            let before = self.cells@;
            assert forall|v: Vec<Cell>| #[trigger]
                cell::rows_view(before.update(y as int, v)) == cell::rows_view(before).update(
                    y as int,
                    cell::row_view(v@),
                ) by {
                assert(cell::rows_view(before.update(y as int, v)) =~= cell::rows_view(
                    before,
                ).update(y as int, cell::row_view(v@)));
            }
        }
        &mut self.cells[y]
    }

    /// Scroll the region up by one line, capturing scrollback on the main screen.
    pub fn scroll_up(
        &mut self,
        in_alt_screen: bool,
        scrollback: &mut VecDeque<Vec<Cell>>,
        scrollback_limit: usize,
        pending_scrollback: &mut VecDeque<Vec<Cell>>,
        fill: Cell,
    )
        requires
            old(self)@.wf(),
        ensures
            final(self)@.wf(),
            final(self)@ == old(self)@.with_cells(
                row_moved(
                    old(self)@.cells,
                    old(self)@.scroll_top,
                    old(self)@.scroll_bottom,
                    cell::uniform_row(fill@, old(self)@.cols),
                ),
            ),
            !in_alt_screen && old(self)@.scroll_top == 0 ==> {
                &&& cell::rows_view(final(scrollback)@) == remembered(
                    cell::rows_view(old(scrollback)@),
                    scrollback_limit as int,
                    old(self)@.cells[0],
                )
                &&& cell::rows_view(final(pending_scrollback)@) == remembered(
                    cell::rows_view(old(pending_scrollback)@),
                    scrollback_limit as int,
                    old(self)@.cells[0],
                )
            },
            in_alt_screen || old(self)@.scroll_top != 0 ==> {
                &&& cell::rows_view(final(scrollback)@) == cell::rows_view(old(scrollback)@)
                &&& cell::rows_view(final(pending_scrollback)@) == cell::rows_view(
                    old(pending_scrollback)@,
                )
            },
    {
        let top: usize = self.scroll_top as usize;
        let bottom: usize = self.scroll_bottom as usize;

        // A line that scrolls off the top of the main screen is remembered
        if !in_alt_screen && top == 0 {
            assert(self@.cells[0] == cell::row_view(self.cells@[0]@));
            remember(scrollback, scrollback_limit, clone_row(&self.cells[0]));
            remember(pending_scrollback, scrollback_limit, clone_row(&self.cells[0]));
        }
        self.move_row(top, bottom, &fill);
    }

    /// Scroll the region down by one line, inserting a blank row at the top.
    pub fn scroll_down(&mut self, fill: Cell)
        requires
            old(self)@.wf(),
        ensures
            final(self)@.wf(),
            final(self)@ == old(self)@.with_cells(
                row_moved(
                    old(self)@.cells,
                    old(self)@.scroll_bottom,
                    old(self)@.scroll_top,
                    cell::uniform_row(fill@, old(self)@.cols),
                ),
            ),
    {
        let top: usize = self.scroll_top as usize;
        let bottom: usize = self.scroll_bottom as usize;
        self.move_row(bottom, top, &fill);
    }

    /// Take out the row `from` and put in a row of `fill` at `to`.
    pub fn move_row(&mut self, from: usize, to: usize, fill: &Cell)
        requires
            old(self)@.wf(),
            from < old(self)@.rows,
            to < old(self)@.rows,
        ensures
            final(self)@.wf(),
            final(self)@ == old(self)@.with_cells(
                row_moved(
                    old(self)@.cells,
                    from as int,
                    to as int,
                    cell::uniform_row(fill@, old(self)@.cols),
                ),
            ),
    {
        let row: Vec<Cell> = make_row(fill, self.cols as usize);
        self.cells.remove(from);
        self.cells.insert(to, row);
        assert(cell::rows_view(self.cells@) =~= row_moved(
            old(self)@.cells,
            from as int,
            to as int,
            cell::row_view(row@),
        ));
    }

    /// Resize the grid, clamping cursor position and resetting scroll region.
    pub fn resize(&mut self, cols: u16, rows: u16)
        ensures
            final(self)@ == resized(
                old(self)@,
                at_least_one(cols as int),
                at_least_one(rows as int),
            ),
            final(self)@.wf(),
    {
        let (cols, rows) = sanitize_dimensions(cols, rows);
        self.cols = cols;
        self.rows = rows;
        fit_rows(&mut self.cells, cols as usize, rows as usize);
        if self.cursor_x >= cols {
            self.cursor_x = cols - 1;
        }
        if self.cursor_y >= rows {
            self.cursor_y = rows - 1;
        }
        self.wrap_pending = false;
        self.scroll_top = 0;
        self.scroll_bottom = rows - 1;
    }
}

/// Clamp dimensions to at least 1x1.
pub fn sanitize_dimensions(cols: u16, rows: u16) -> (res: (u16, u16))
    ensures
        res.0 == at_least_one(cols as int),
        res.1 == at_least_one(rows as int),
{
    (if cols < 1 { 1 } else { cols }, if rows < 1 { 1 } else { rows })
}

/// The rows `from..to` replaced by `row`.
pub open spec fn rows_filled(
    cells: Seq<Seq<CellView>>,
    from: int,
    to: int,
    row: Seq<CellView>,
) -> Seq<Seq<CellView>> {
    Seq::new(
        cells.len(),
        |y: int|
            if from <= y < to {
                row
            } else {
                cells[y]
            },
    )
}

/// The `n` rows at `y` taken out: what follows moves up as far as `bottom`, where
/// copies of `row` come in.
pub open spec fn rows_deleted(
    cells: Seq<Seq<CellView>>,
    y: int,
    n: int,
    bottom: int,
    row: Seq<CellView>,
) -> Seq<Seq<CellView>> {
    cells.take(y) + cells.subrange(y + n, bottom + 1) + Seq::new(n as nat, |i: int| row)
        + cells.skip(bottom + 1)
}

/// Copies of `row` put in at `y`: what was there moves down, and drops out at
/// `bottom`.
pub open spec fn rows_inserted(
    cells: Seq<Seq<CellView>>,
    y: int,
    n: int,
    bottom: int,
    row: Seq<CellView>,
) -> Seq<Seq<CellView>> {
    cells.take(y) + Seq::new(n as nat, |i: int| row) + cells.subrange(y, bottom + 1 - n)
        + cells.skip(bottom + 1)
}

impl Grid {
    /// Replace the rows `from..to` by rows of `fill`.
    pub fn fill_rows(&mut self, from: usize, to: usize, fill: &Cell)
        requires
            old(self)@.wf(),
            from <= to <= old(self)@.rows,
        ensures
            final(self)@.wf(),
            final(self)@ == old(self)@.with_cells(
                rows_filled(
                    old(self)@.cells,
                    from as int,
                    to as int,
                    cell::uniform_row(fill@, old(self)@.cols),
                ),
            ),
    {
        let cols: usize = self.cols as usize;
        let mut y: usize = from;
        while y < to
            invariant
                from <= y <= to <= old(self)@.rows,
                cols == old(self)@.cols,
                old(self)@.wf(),
                self@ == old(self)@.with_cells(
                    rows_filled(
                        old(self)@.cells,
                        from as int,
                        y as int,
                        cell::uniform_row(fill@, cols as int),
                    ),
                ),
            decreases to - y,
        {
            let row: &mut Vec<Cell> = self.visible_row_mut(y);
            *row = make_row(fill, cols);
            y += 1;
        }
    }

    /// Take out the `n` rows at `y`, filling up at `bottom`.
    pub fn delete_rows(&mut self, y: usize, n: usize, bottom: usize, fill: &Cell)
        requires
            old(self)@.wf(),
            y + n <= bottom + 1,
            bottom < old(self)@.rows,
        ensures
            final(self)@.wf(),
            final(self)@ == old(self)@.with_cells(
                rows_deleted(
                    old(self)@.cells,
                    y as int,
                    n as int,
                    bottom as int,
                    cell::uniform_row(fill@, old(self)@.cols),
                ),
            ),
    {
        let ghost row = cell::uniform_row(fill@, self@.cols);
        let mut i: usize = 0;
        assert(self@.cells =~= rows_deleted(self@.cells, y as int, 0, bottom as int, row));
        while i < n
            invariant
                i <= n,
                y + n <= bottom + 1,
                bottom < old(self)@.rows,
                row == cell::uniform_row(fill@, old(self)@.cols),
                self@.wf(),
                self@ == old(self)@.with_cells(
                    rows_deleted(old(self)@.cells, y as int, i as int, bottom as int, row),
                ),
                old(self)@.wf(),
            decreases n - i,
        {
            self.move_row(y, bottom, fill);
            i += 1;
            assert(self@.cells =~= rows_deleted(
                old(self)@.cells,
                y as int,
                i as int,
                bottom as int,
                row,
            ));
        }
    }

    /// Put in `n` rows at `y`, dropping rows at `bottom`.
    pub fn insert_rows(&mut self, y: usize, n: usize, bottom: usize, fill: &Cell)
        requires
            old(self)@.wf(),
            y + n <= bottom + 1,
            bottom < old(self)@.rows,
        ensures
            final(self)@.wf(),
            final(self)@ == old(self)@.with_cells(
                rows_inserted(
                    old(self)@.cells,
                    y as int,
                    n as int,
                    bottom as int,
                    cell::uniform_row(fill@, old(self)@.cols),
                ),
            ),
    {
        let ghost row = cell::uniform_row(fill@, self@.cols);
        let mut i: usize = 0;
        assert(self@.cells =~= rows_inserted(self@.cells, y as int, 0, bottom as int, row));
        while i < n
            invariant
                i <= n,
                y + n <= bottom + 1,
                bottom < old(self)@.rows,
                row == cell::uniform_row(fill@, old(self)@.cols),
                self@.wf(),
                self@ == old(self)@.with_cells(
                    rows_inserted(old(self)@.cells, y as int, i as int, bottom as int, row),
                ),
                old(self)@.wf(),
            decreases n - i,
        {
            self.move_row(bottom, y, fill);
            i += 1;
            assert(self@.cells =~= rows_inserted(
                old(self)@.cells,
                y as int,
                i as int,
                bottom as int,
                row,
            ));
        }
    }
}

} // verus!
