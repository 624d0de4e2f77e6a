//! What holds of every terminal, whatever is carried out on it.

use vstd::prelude::*;

use super::cell;
use super::cell::CellView;
use super::grid;
use super::grid::{GridView, TerminalModes};
use super::model;
use super::model::{EventView, ScreenView};
use super::width;

verus! {

/// A history within its limit (a limit of zero holds one row).
pub open spec fn bounded(history: Seq<Seq<CellView>>, limit: int) -> bool {
    history.len() <= limit || history.len() <= 1
}

/// What every control function keeps: the invariant, the dimensions, the bounds of
/// the histories, and what is still owed to the program and the outer terminal.
pub open spec fn steady(s: ScreenView, t: ScreenView) -> bool {
    &&& t.wf()
    &&& t.grid.cols == s.grid.cols
    &&& t.grid.rows == s.grid.rows
    &&& t.scrollback_limit == s.scrollback_limit
    &&& bounded(s.scrollback, s.scrollback_limit) ==> bounded(t.scrollback, t.scrollback_limit)
    &&& bounded(s.pending_scrollback, s.scrollback_limit) ==> bounded(
        t.pending_scrollback,
        t.scrollback_limit,
    )
    &&& s.responses.is_prefix_of(t.responses)
    &&& s.passthrough.is_prefix_of(t.passthrough)
}

proof fn lemma_steady_trans(a: ScreenView, b: ScreenView, c: ScreenView)
    requires
        steady(a, b),
        steady(b, c),
    ensures
        steady(a, c),
{
    assert(a.responses =~= b.responses.take(a.responses.len() as int));
    assert(b.responses =~= c.responses.take(b.responses.len() as int));
    assert(a.responses =~= c.responses.take(a.responses.len() as int));
    assert(a.passthrough =~= b.passthrough.take(a.passthrough.len() as int));
    assert(b.passthrough =~= c.passthrough.take(b.passthrough.len() as int));
    assert(a.passthrough =~= c.passthrough.take(a.passthrough.len() as int));
}

proof fn lemma_prefixes(s: ScreenView)
    ensures
        s.responses.is_prefix_of(s.responses),
        s.passthrough.is_prefix_of(s.passthrough),
        forall|r: Seq<u8>| s.responses.is_prefix_of(#[trigger] s.responses.push(r)),
        forall|r: Seq<u8>| s.passthrough.is_prefix_of(#[trigger] s.passthrough.push(r)),
{
    assert(s.responses =~= s.responses.take(s.responses.len() as int));
    assert(s.passthrough =~= s.passthrough.take(s.passthrough.len() as int));
    assert forall|r: Seq<u8>| s.responses.is_prefix_of(#[trigger] s.responses.push(r)) by {
        assert(s.responses =~= s.responses.push(r).take(s.responses.len() as int));
    }
    assert forall|r: Seq<u8>| s.passthrough.is_prefix_of(#[trigger] s.passthrough.push(r)) by {
        assert(s.passthrough =~= s.passthrough.push(r).take(s.passthrough.len() as int));
    }
}

/// A terminal that differs in cursor, modes, rendition or saved state alone.
proof fn lemma_same_cells(s: ScreenView, t: ScreenView)
    requires
        s.wf(),
        t.grid.wf(),
        t.grid.cols == s.grid.cols,
        t.grid.rows == s.grid.rows,
        t.scrollback_limit == s.scrollback_limit,
        t.scrollback == s.scrollback,
        t.pending_scrollback == s.pending_scrollback,
        t.responses == s.responses,
        t.passthrough == s.passthrough,
    ensures
        steady(s, t),
{
    lemma_prefixes(s);
}

pub(crate) proof fn lemma_scrolled_up(s: ScreenView)
    requires
        s.wf(),
    ensures
        steady(s, s.scrolled_up()),
        s.scrolled_up().grid.modes == s.grid.modes,
{
    lemma_prefixes(s);
    if bounded(s.scrollback, s.scrollback_limit) {
        grid::law_history_bounded(s.scrollback, s.scrollback_limit, s.grid.cells[0]);
    }
    if bounded(s.pending_scrollback, s.scrollback_limit) {
        grid::law_history_bounded(s.pending_scrollback, s.scrollback_limit, s.grid.cells[0]);
    }
    let cells = s.scrolled_up().grid.cells;
    assert forall|y: int| 0 <= y < s.grid.rows implies #[trigger] cells[y].len() == s.grid.cols by {
        assert(cells.len() == s.grid.rows);
    }
}

pub(crate) proof fn lemma_scrolled_down(s: ScreenView)
    requires
        s.wf(),
    ensures
        steady(s, s.scrolled_down()),
{
    let t = s.scrolled_down();
    assert forall|y: int| 0 <= y < s.grid.rows implies #[trigger] t.grid.cells[y].len()
        == s.grid.cols by {
        assert(t.grid.cells.len() == s.grid.rows);
    }
    lemma_same_cells(s, t);
}

pub(crate) proof fn lemma_scrolled_up_by(s: ScreenView, n: int)
    requires
        s.wf(),
    ensures
        steady(s, s.scrolled_up_by(n)),
    decreases n,
{
    if n <= 0 {
        lemma_same_cells(s, s);
    } else {
        lemma_scrolled_up_by(s, n - 1);
        lemma_scrolled_up(s.scrolled_up_by(n - 1));
        lemma_steady_trans(s, s.scrolled_up_by(n - 1), s.scrolled_up_by(n));
    }
}

pub(crate) proof fn lemma_scrolled_down_by(s: ScreenView, n: int)
    requires
        s.wf(),
    ensures
        steady(s, s.scrolled_down_by(n)),
    decreases n,
{
    if n <= 0 {
        lemma_same_cells(s, s);
    } else {
        lemma_scrolled_down_by(s, n - 1);
        lemma_scrolled_down(s.scrolled_down_by(n - 1));
        lemma_steady_trans(s, s.scrolled_down_by(n - 1), s.scrolled_down_by(n));
    }
}

pub(crate) proof fn lemma_next_line(s: ScreenView)
    requires
        s.wf(),
    ensures
        steady(s, s.next_line()),
{
    if s.grid.cursor_y == s.grid.scroll_bottom {
        lemma_scrolled_up(s);
    } else {
        lemma_same_cells(s, s.next_line());
    }
}

/// A terminal with another row under the cursor.
pub(crate) proof fn lemma_with_line(s: ScreenView, row: Seq<CellView>)
    requires
        s.wf(),
        row.len() == s.grid.cols,
    ensures
        steady(s, s.with_line(row)),
{
    lemma_same_cells(s, s.with_line(row));
}

pub(crate) proof fn lemma_wrapped(s: ScreenView)
    requires
        s.wf(),
    ensures
        steady(s, s.wrapped()),
{
    let t = s.with_grid(GridView { cursor_x: 0, ..s.grid });
    lemma_same_cells(s, t);
    lemma_next_line(t);
    lemma_steady_trans(s, t, s.wrapped());
}

pub(crate) proof fn lemma_put(s: ScreenView, c: char, w: int)
    requires
        s.wf(),
        0 <= w,
    ensures
        steady(s, s.put(c, w)),
{
    let t = s.put(c, w);
    assert(s.line().len() == s.grid.cols);
    assert(s.line_with(c, w).len() == s.grid.cols);
    assert(t.grid.cells == s.grid.cells.update(s.grid.cursor_y, s.line_with(c, w)));
    lemma_same_cells(s, t);
}

proof fn lemma_marked(s: ScreenView, c: char)
    requires
        s.wf(),
    ensures
        steady(s, s.marked(c)),
{
    assert(s.line().len() == s.grid.cols);
    lemma_same_cells(s, s.marked(c));
}

proof fn lemma_printed_wide(s: ScreenView, c: char, w: int)
    requires
        s.wf(),
        0 <= w,
    ensures
        steady(s, s.printed_wide(c, w)),
{
    if w == 0 {
        lemma_marked(s, c);
    } else {
        let ready = s.unwrapped();
        let flat = s.with_grid(GridView { wrap_pending: false, ..s.grid });
        lemma_same_cells(s, s);
        lemma_same_cells(s, flat);
        lemma_wrapped(flat);
        lemma_steady_trans(s, flat, flat.wrapped());
        assert(steady(s, ready));
        if w == 2 && ready.grid.cursor_x >= ready.grid.cols - 1 {
            let row = ready.line().update(ready.grid.cursor_x, ready.fill());
            assert(ready.line().len() == ready.grid.cols);
            let cut = ready.with_line(row);
            lemma_with_line(ready, row);
            lemma_wrapped(cut);
            lemma_put(cut.wrapped(), c, w);
            lemma_steady_trans(s, ready, cut);
            lemma_steady_trans(s, cut, cut.wrapped());
            lemma_steady_trans(s, cut.wrapped(), cut.wrapped().put(c, w));
        } else {
            lemma_put(ready, c, w);
            lemma_steady_trans(s, ready, ready.put(c, w));
        }
    }
}

pub(crate) proof fn lemma_printed(s: ScreenView, c: char)
    requires
        s.wf(),
    ensures
        steady(s, s.printed(c)),
{
    let shown = model::mapped(s.grid.modes, c);
    lemma_printed_wide(s, shown, width::columns(shown));
}

pub(crate) proof fn lemma_printed_times(s: ScreenView, c: char, n: int)
    requires
        s.wf(),
    ensures
        steady(s, s.printed_times(c, n)),
    decreases n,
{
    if n <= 0 {
        lemma_same_cells(s, s);
    } else {
        let t = s.printed_times(c, n - 1);
        lemma_printed_times(s, c, n - 1);
        lemma_printed(t, c);
        lemma_steady_trans(s, t, t.printed(c));
    }
}

#[verifier::rlimit(50)]
proof fn lemma_executed(s: ScreenView, byte: u8)
    requires
        s.wf(),
    ensures
        steady(s, s.executed(byte)),
{
    if 0x0A <= byte <= 0x0C {
        let flat = s.with_grid(GridView { wrap_pending: false, ..s.grid });
        lemma_same_cells(s, flat);
        lemma_next_line(flat);
        lemma_steady_trans(s, flat, s.executed(byte));
    } else if byte == 0x07 {
        lemma_prefixes(s);
    } else {
        lemma_same_cells(s, s.executed(byte));
    }
}

proof fn lemma_csi_moved(s: ScreenView, params: Seq<Seq<u16>>, action: char)
    requires
        s.wf(),
    ensures
        steady(s, s.csi_moved(params, action)),
{
    lemma_same_cells(s, s.csi_moved(params, action));
}

pub(crate) proof fn lemma_rows_erased(s: ScreenView, from: int, to: int)
    requires
        s.wf(),
    ensures
        steady(s, s.rows_erased(from, to)),
{
    lemma_same_cells(s, s.rows_erased(from, to));
}

proof fn lemma_display_erased(s: ScreenView, mode: u16)
    requires
        s.wf(),
    ensures
        steady(s, s.display_erased(mode)),
{
    assert(s.line().len() == s.grid.cols);
    if mode == 0 {
        let t = s.with_line(s.erased_right());
        lemma_with_line(s, s.erased_right());
        lemma_rows_erased(t, s.grid.cursor_y + 1, s.grid.rows);
        lemma_steady_trans(s, t, s.display_erased(mode));
    } else if mode == 1 {
        let t = s.with_line(s.erased_left());
        lemma_with_line(s, s.erased_left());
        lemma_rows_erased(t, 0, s.grid.cursor_y);
        lemma_steady_trans(s, t, s.display_erased(mode));
    } else if mode == 2 || mode == 3 {
        lemma_rows_erased(s, 0, s.grid.rows);
        lemma_prefixes(s);
    } else {
        lemma_same_cells(s, s);
    }
}

proof fn lemma_line_edited(s: ScreenView, mode: u16, n: int)
    requires
        s.wf(),
        0 <= n,
    ensures
        steady(s, s.line_erased(mode)),
        steady(s, s.cells_erased(n)),
        steady(s, s.cells_deleted(n)),
        steady(s, s.cells_inserted(n)),
{
    assert(s.line().len() == s.grid.cols);
    lemma_same_cells(s, s.line_erased(mode));
    lemma_same_cells(s, s.cells_erased(n));
    let x = s.grid.cursor_x;
    let k = model::min(n, s.grid.cols - x);
    let row = cell::unpaired(s.line(), x, s.fill());
    assert(cell::cells_deleted(row, x, k, s.fill()).len() == s.grid.cols);
    assert(cell::cells_inserted(row, x, k, s.fill()).len() == s.grid.cols);
    lemma_same_cells(s, s.cells_deleted(n));
    lemma_same_cells(s, s.cells_inserted(n));
}

proof fn lemma_lines_edited(s: ScreenView, n: int)
    requires
        s.wf(),
        0 <= n,
    ensures
        steady(s, s.lines_deleted(n)),
        steady(s, s.lines_inserted(n)),
{
    let t = s.lines_deleted(n);
    let u = s.lines_inserted(n);
    assert forall|y: int| 0 <= y < s.grid.rows implies #[trigger] t.grid.cells[y].len()
        == s.grid.cols by {}
    assert forall|y: int| 0 <= y < s.grid.rows implies #[trigger] u.grid.cells[y].len()
        == s.grid.cols by {}
    lemma_same_cells(s, t);
    lemma_same_cells(s, u);
}

proof fn lemma_csi_edited(s: ScreenView, params: Seq<Seq<u16>>, action: char)
    requires
        s.wf(),
    ensures
        steady(s, s.csi_edited(params, action)),
{
    let n = model::param(params, 0, 1) as int;
    if action == 'J' {
        lemma_display_erased(s, model::param(params, 0, 0));
    } else if action == 'M' || action == 'L' {
        lemma_lines_edited(s, n);
    } else if action == 'S' {
        lemma_scrolled_up_by(s, model::min(n, s.grid.rows));
    } else if action == 'K' || action == 'X' || action == 'P' || action == '@' {
        lemma_line_edited(s, model::param(params, 0, 0), n);
    } else {
        lemma_printed_times(s, s.last_printed_char, n);
    }
}

pub(crate) proof fn lemma_mode_set(s: ScreenView, mode: u16, enable: bool)
    requires
        s.wf(),
    ensures
        steady(s, s.mode_set(mode, enable)),
{
    lemma_same_cells(s, s.mode_set(mode, enable));
}

pub(crate) proof fn lemma_modes_set(s: ScreenView, params: Seq<Seq<u16>>, enable: bool)
    requires
        s.wf(),
    ensures
        steady(s, s.modes_set(params, enable)),
    decreases params.len(),
{
    if params.len() == 0 {
        lemma_same_cells(s, s);
    } else {
        let t = s.modes_set(params.drop_last(), enable);
        lemma_modes_set(s, params.drop_last(), enable);
        if params.last().len() > 0 {
            lemma_mode_set(t, params.last()[0], enable);
            lemma_steady_trans(s, t, s.modes_set(params, enable));
        }
    }
}

#[verifier::rlimit(50)]
proof fn lemma_csi(s: ScreenView, params: Seq<Seq<u16>>, intermediates: Seq<u8>, action: char)
    requires
        s.wf(),
    ensures
        steady(s, s.csi(params, intermediates, action)),
{
    let t = s.csi(params, intermediates, action);
    if ScreenView::is_movement(action) {
        lemma_csi_moved(s, params, action);
    } else if ScreenView::is_edit(action) {
        lemma_csi_edited(s, params, action);
    } else if action == 'n' || action == 'c' {
        lemma_prefixes(s);
    } else if action == 'T' {
        lemma_scrolled_down_by(s, model::min(model::param(params, 0, 1) as int, s.grid.rows));
        lemma_same_cells(s, s);
    } else if action == 'h' || action == 'l' {
        lemma_modes_set(s, params, action == 'h');
        lemma_same_cells(s, s);
    } else {
        lemma_same_cells(s, t);
    }
}

proof fn lemma_previous_line(s: ScreenView)
    requires
        s.wf(),
    ensures
        steady(s, s.previous_line()),
{
    if s.grid.cursor_y == s.grid.scroll_top {
        lemma_scrolled_down(s);
    } else {
        lemma_same_cells(s, s.previous_line());
    }
}

proof fn lemma_reset(s: ScreenView)
    requires
        s.wf(),
    ensures
        steady(s, s.reset()),
{
    lemma_same_cells(s, s.reset());
}

#[verifier::rlimit(50)]
proof fn lemma_esc(s: ScreenView, intermediates: Seq<u8>, byte: u8)
    requires
        s.wf(),
    ensures
        steady(s, s.esc(intermediates, byte)),
{
    if intermediates.len() == 0 && byte == 0x4d {
        lemma_previous_line(s);
    } else if intermediates.len() == 0 && byte == 0x63 {
        lemma_reset(s);
    } else if intermediates.len() == 0 && byte == 0x38 {
        lemma_same_cells(s, s.cursor_restored());
    } else {
        assert(s.esc(intermediates, byte).grid.cells == s.grid.cells);
        lemma_same_cells(s, s.esc(intermediates, byte));
    }
}

/// No event breaks the invariant of a terminal or changes its dimensions, no
/// history outgrows its limit, and nothing that is owed is lost.
#[verifier::rlimit(50)]
pub proof fn law_event_is_steady(s: ScreenView, event: EventView)
    requires
        s.wf(),
    ensures
        steady(s, s.performed(event)),
{
    reveal(ScreenView::performed);
    match event {
        EventView::Print(c) => lemma_printed(s, c),
        EventView::Execute(byte) => lemma_executed(s, byte),
        EventView::Csi { params, intermediates, action } => lemma_csi(
            s,
            params,
            intermediates,
            action,
        ),
        EventView::Esc { intermediates, byte } => lemma_esc(s, intermediates, byte),
        EventView::Osc { fields } => lemma_prefixes(s),
    }
}

/// The same holds of any list of events.
pub proof fn law_events_are_steady(s: ScreenView, events: Seq<EventView>)
    requires
        s.wf(),
    ensures
        steady(s, s.performed_all(events)),
    decreases events.len(),
{
    if events.len() == 0 {
        lemma_same_cells(s, s);
    } else {
        let t = s.performed_all(events.drop_last());
        law_events_are_steady(s, events.drop_last());
        law_event_is_steady(t, events.last());
        lemma_steady_trans(s, t, s.performed_all(events));
    }
}

/// A saved cursor comes back as it was, wherever the cursor has been since: its
/// position, rendition, character sets and autowrap.
pub proof fn law_cursor_save_restore(s: ScreenView, t: ScreenView)
    requires
        s.wf(),
        t.wf(),
        t.saved_cursor == s.cursor_saved().saved_cursor,
        t.grid.cols == s.grid.cols,
        t.grid.rows == s.grid.rows,
    ensures
        t.cursor_restored().grid.cursor_x == s.grid.cursor_x,
        t.cursor_restored().grid.cursor_y == s.grid.cursor_y,
        t.cursor_restored().style == s.style,
        t.cursor_restored().grid.modes.g0_charset == s.grid.modes.g0_charset,
        t.cursor_restored().grid.modes.g1_charset == s.grid.modes.g1_charset,
        t.cursor_restored().grid.modes.active_charset == s.grid.modes.active_charset,
        t.cursor_restored().grid.modes.autowrap_mode == s.grid.modes.autowrap_mode,
        t.cursor_restored().grid.cells == t.grid.cells,
{
}

/// A saved cursor is moved onto the screen where that has shrunk.
pub proof fn law_restored_cursor_is_on_screen(t: ScreenView)
    requires
        t.wf(),
    ensures
        t.cursor_restored().wf(),
{
}

/// Leaving the alternate screen brings back what was on the main screen when it
/// was entered: cells and modes, and with mode 1049 the cursor, whatever happened
/// to the cells in between.
pub proof fn law_alt_screen_round_trip(s: ScreenView, t: ScreenView, with_cursor: bool)
    requires
        s.wf(),
        t.wf(),
        t.saved_grid == s.alt_entered(with_cursor).saved_grid,
        t.saved_modes == s.alt_entered(with_cursor).saved_modes,
        t.saved_cursor == s.alt_entered(with_cursor).saved_cursor,
        t.grid.cols == s.grid.cols,
        t.grid.rows == s.grid.rows,
    ensures
        t.alt_left(with_cursor).grid.cells == s.grid.cells,
        t.alt_left(with_cursor).grid.modes == s.grid.modes,
        !t.alt_left(with_cursor).in_alt_screen,
        with_cursor ==> {
            &&& t.alt_left(true).grid.cursor_x == s.grid.cursor_x
            &&& t.alt_left(true).grid.cursor_y == s.grid.cursor_y
            &&& t.alt_left(true).style == s.style
            &&& !t.alt_left(true).grid.wrap_pending
        },
        t.alt_left(with_cursor).grid.scroll_top == 0,
        t.alt_left(with_cursor).grid.scroll_bottom == s.grid.rows - 1,
        t.alt_left(with_cursor).scrollback == t.scrollback,
{
    let back = t.alt_left(with_cursor);
    let cells = cell::fitted(s.grid.cells, s.grid.cols, s.grid.rows);
    assert forall|y: int| 0 <= y < s.grid.rows implies #[trigger] cells[y] == s.grid.cells[y] by {
        assert(s.grid.cells[y].len() == s.grid.cols);
        assert(cells[y] =~= s.grid.cells[y]);
    }
    assert(cells =~= s.grid.cells);
    if with_cursor {
        assert(s.cursor_saved().saved_cursor == t.saved_cursor);
    }
}

/// Entering the alternate screen shows a blank screen with the cursor home.
pub proof fn law_alt_screen_starts_blank(s: ScreenView, save_cursor: bool, x: int, y: int)
    requires
        s.wf(),
        0 <= x < s.grid.cols,
        0 <= y < s.grid.rows,
    ensures
        s.alt_entered(save_cursor).grid.cells[y][x] == cell::blank(),
        s.alt_entered(save_cursor).grid.cursor_x == 0,
        s.alt_entered(save_cursor).grid.cursor_y == 0,
        s.alt_entered(save_cursor).in_alt_screen,
{
}

/// Nothing that scrolls on the alternate screen, or inside a scroll region below
/// the top of the screen, goes to the history.
pub proof fn law_history_takes_main_screen_only(s: ScreenView)
    requires
        s.in_alt_screen || s.grid.scroll_top > 0,
    ensures
        s.scrolled_up().scrollback == s.scrollback,
        s.scrolled_up().pending_scrollback == s.pending_scrollback,
{
}

/// A full reset leaves a grid as a new one of its size.
pub proof fn law_reset_is_fresh(s: ScreenView)
    requires
        s.wf(),
    ensures
        s.reset().grid == grid::empty_grid(s.grid.cols, s.grid.rows),
        s.reset().scrollback == s.scrollback,
{
    assert(s.reset().grid.cells =~= grid::empty_grid(s.grid.cols, s.grid.rows).cells);
}

/// Resizing a terminal to the size that it has keeps its cells, its cursor and its
/// history.
pub proof fn law_resize_to_same_size(s: ScreenView)
    requires
        s.wf(),
    ensures
        super::screen_resized(s, s.grid.cols, s.grid.rows).grid.cells == s.grid.cells,
        super::screen_resized(s, s.grid.cols, s.grid.rows).grid.cursor_x == s.grid.cursor_x,
        super::screen_resized(s, s.grid.cols, s.grid.rows).grid.cursor_y == s.grid.cursor_y,
        super::screen_resized(s, s.grid.cols, s.grid.rows).scrollback == s.scrollback,
{
    let n = s.scrollback.len() as int;
    assert(s.scrollback.skip(n) + s.grid.cells =~= s.grid.cells);
    assert(s.scrollback.take(n) =~= s.scrollback);
    let cells = cell::fitted(s.grid.cells, s.grid.cols, s.grid.rows);
    assert forall|y: int| 0 <= y < s.grid.rows implies #[trigger] cells[y] == s.grid.cells[y] by {
        assert(s.grid.cells[y].len() == s.grid.cols);
        assert(cells[y] =~= s.grid.cells[y]);
    }
    assert(cells =~= s.grid.cells);
}

/// Resizing keeps the invariant and gives the dimensions asked for, at least one
/// by one.
pub proof fn law_resize_gives_dimensions(s: ScreenView, cols: int, rows: int)
    requires
        s.wf(),
        0 <= cols <= u16::MAX,
        0 <= rows <= u16::MAX,
    ensures
        super::screen_resized(s, cols, rows).wf(),
        super::screen_resized(s, cols, rows).grid.cols == grid::at_least_one(cols),
        super::screen_resized(s, cols, rows).grid.rows == grid::at_least_one(rows),
{
}

/// No line is lost when a terminal grows: the rows of its history followed by its
/// screen are the same before and after, but for their width and blank rows below.
pub proof fn law_grow_keeps_lines(s: ScreenView, rows: int, i: int)
    requires
        s.wf(),
        !s.in_alt_screen,
        s.grid.rows <= rows <= u16::MAX,
        0 <= i < s.scrollback.len() + s.grid.rows,
    ensures
        ({
            let t = super::screen_resized(s, s.grid.cols, rows);
            let before = s.scrollback + s.grid.cells;
            let after = t.scrollback + t.grid.cells;
            after[i] == (if i < t.scrollback.len() {
                before[i]
            } else {
                cell::fitted_row(before[i], s.grid.cols)
            })
        }),
{
}

/// Whether setting or resetting a mode saves the cursor.
pub open spec fn mode_saves(mode: u16, on: bool) -> bool {
    on && (mode == 1048 || mode == 1049)
}

/// Whether a mode switches between the two screens.
pub open spec fn mode_switches(mode: u16) -> bool {
    mode == 47 || mode == 1047 || mode == 1049
}

/// Whether one of several modes saves the cursor.
pub open spec fn modes_save(params: Seq<Seq<u16>>, on: bool) -> bool {
    exists|i: int|
        0 <= i < params.len() && (#[trigger] params[i]).len() > 0 && mode_saves(params[i][0], on)
}

/// Whether one of several modes switches between the two screens.
pub open spec fn modes_switch(params: Seq<Seq<u16>>) -> bool {
    exists|i: int|
        0 <= i < params.len() && (#[trigger] params[i]).len() > 0 && mode_switches(params[i][0])
}

/// Whether an event saves the cursor.
pub open spec fn saves_cursor(event: EventView) -> bool {
    match event {
        EventView::Csi { params, intermediates, action } => {
            ||| action == 's' && intermediates.len() == 0
            ||| action == 'h' && intermediates == seq![0x3fu8] && modes_save(params, true)
        },
        EventView::Esc { intermediates, byte } => intermediates.len() == 0 && byte == 0x37,
        _ => false,
    }
}

/// Whether an event switches between the two screens.
pub open spec fn switches_screen(event: EventView) -> bool {
    match event {
        EventView::Csi { params, intermediates, action } => (action == 'h' || action == 'l')
            && intermediates == seq![0x3fu8] && modes_switch(params),
        _ => false,
    }
}

/// Whether an event resets the terminal.
pub open spec fn resets(event: EventView) -> bool {
    match event {
        EventView::Esc { intermediates, byte } => intermediates.len() == 0 && byte == 0x63,
        _ => false,
    }
}

/// Whether an event may change what is put aside: it saves the cursor, switches
/// screens, or resets.
pub open spec fn puts_aside(event: EventView) -> bool {
    saves_cursor(event) || switches_screen(event) || resets(event)
}

/// Whether an event erases the history.
pub open spec fn erases_history(event: EventView) -> bool {
    match event {
        EventView::Csi { params, intermediates, action } => action == 'J' && model::param(
            params,
            0,
            0,
        ) == 3,
        _ => false,
    }
}

/// Whether `t` holds what `s` put aside, on the same of the two screens.
pub open spec fn same_saved(s: ScreenView, t: ScreenView) -> bool {
    &&& t.saved_grid == s.saved_grid
    &&& t.saved_modes == s.saved_modes
    &&& t.saved_cursor == s.saved_cursor
    &&& t.in_alt_screen == s.in_alt_screen
}

proof fn lemma_scrolled_saved(s: ScreenView, n: int)
    ensures
        same_saved(s, s.scrolled_up_by(n)),
        same_saved(s, s.scrolled_down_by(n)),
    decreases n,
{
    if n > 0 {
        lemma_scrolled_saved(s, n - 1);
    }
}

proof fn lemma_printed_saved(s: ScreenView, c: char)
    ensures
        same_saved(s, s.printed(c)),
{
}

proof fn lemma_times_saved(s: ScreenView, c: char, n: int)
    ensures
        same_saved(s, s.printed_times(c, n)),
    decreases n,
{
    if n > 0 {
        lemma_times_saved(s, c, n - 1);
        lemma_printed_saved(s.printed_times(c, n - 1), c);
    }
}

proof fn lemma_modes_saved(s: ScreenView, params: Seq<Seq<u16>>, on: bool)
    requires
        !modes_save(params, on),
        !modes_switch(params),
    ensures
        same_saved(s, s.modes_set(params, on)),
    decreases params.len(),
{
    if params.len() > 0 {
        let before = params.drop_last();
        assert forall|i: int| 0 <= i < before.len() implies #[trigger] before[i] == params[i] by {
        }
        lemma_modes_saved(s, before, on);
        assert(params.last() == params[params.len() - 1]);
    }
}

#[verifier::rlimit(50)]
proof fn lemma_edited_saved(s: ScreenView, params: Seq<Seq<u16>>, action: char)
    ensures
        same_saved(s, s.csi_edited(params, action)),
{
    lemma_scrolled_saved(s, model::min(model::param(params, 0, 1) as int, s.grid.rows));
    lemma_times_saved(s, s.last_printed_char, model::param(params, 0, 1) as int);
}

proof fn lemma_moved_saved(s: ScreenView, params: Seq<Seq<u16>>, action: char)
    ensures
        same_saved(s, s.csi_moved(params, action)),
{
}

#[verifier::rlimit(50)]
proof fn lemma_csi_saved(
    s: ScreenView,
    params: Seq<Seq<u16>>,
    intermediates: Seq<u8>,
    action: char,
)
    requires
        !puts_aside(EventView::Csi { params, intermediates, action }),
    ensures
        same_saved(s, s.csi(params, intermediates, action)),
{
    if ScreenView::is_movement(action) {
        lemma_moved_saved(s, params, action);
    } else if ScreenView::is_edit(action) {
        lemma_edited_saved(s, params, action);
    } else {
        lemma_scrolled_saved(s, model::min(model::param(params, 0, 1) as int, s.grid.rows));
        if (action == 'h' || action == 'l') && intermediates == seq![0x3fu8] {
            lemma_modes_saved(s, params, action == 'h');
        }
    }
}

proof fn lemma_executed_saved(s: ScreenView, byte: u8)
    ensures
        same_saved(s, s.executed(byte)),
{
}

#[verifier::rlimit(50)]
proof fn lemma_esc_saved(s: ScreenView, intermediates: Seq<u8>, byte: u8)
    requires
        !puts_aside(EventView::Esc { intermediates, byte }),
    ensures
        same_saved(s, s.esc(intermediates, byte)),
{
}

proof fn lemma_osc_saved(s: ScreenView, fields: Seq<Seq<u8>>)
    ensures
        same_saved(s, s.osc(fields)),
{
}

/// Nothing that was put aside changes but by an event that saves the cursor, switches
/// screens or resets.
#[verifier::rlimit(50)]
pub proof fn law_event_keeps_saved(s: ScreenView, event: EventView)
    requires
        !puts_aside(event),
    ensures
        same_saved(s, s.performed(event)),
{
    reveal(ScreenView::performed);
    match event {
        EventView::Print(c) => lemma_printed_saved(s, c),
        EventView::Execute(byte) => lemma_executed_saved(s, byte),
        EventView::Csi { params, intermediates, action } => lemma_csi_saved(
            s,
            params,
            intermediates,
            action,
        ),
        EventView::Esc { intermediates, byte } => lemma_esc_saved(s, intermediates, byte),
        EventView::Osc { fields } => lemma_osc_saved(s, fields),
    }
}

/// The same holds of any list of such events.
pub proof fn law_events_keep_saved(s: ScreenView, events: Seq<EventView>)
    requires
        forall|i: int| 0 <= i < events.len() ==> !puts_aside(#[trigger] events[i]),
    ensures
        same_saved(s, s.performed_all(events)),
    decreases events.len(),
{
    if events.len() > 0 {
        let before = events.drop_last();
        assert forall|i: int| 0 <= i < before.len() implies !puts_aside(
            #[trigger] before[i],
        ) by {
            assert(before[i] == events[i]);
        }
        law_events_keep_saved(s, before);
        assert(events.last() == events[events.len() - 1]);
        law_event_keeps_saved(s.performed_all(before), events.last());
    }
}

proof fn lemma_modes_keep_cursor(s: ScreenView, params: Seq<Seq<u16>>, on: bool)
    requires
        !modes_save(params, on),
    ensures
        s.modes_set(params, on).saved_cursor == s.saved_cursor,
    decreases params.len(),
{
    if params.len() > 0 {
        let before = params.drop_last();
        assert forall|i: int| 0 <= i < before.len() implies #[trigger] before[i] == params[i] by {
        }
        lemma_modes_keep_cursor(s, before, on);
        assert(params.last() == params[params.len() - 1]);
    }
}

/// A saved cursor is kept by every event that does not save one or reset.
pub proof fn law_event_keeps_saved_cursor(s: ScreenView, event: EventView)
    requires
        !saves_cursor(event),
        !resets(event),
    ensures
        s.performed(event).saved_cursor == s.saved_cursor,
{
    if switches_screen(event) {
        reveal(ScreenView::performed);
        match event {
            EventView::Csi { params, intermediates, action } => {
                lemma_modes_keep_cursor(s, params, action == 'h');
            },
            _ => {},
        }
    } else {
        law_event_keeps_saved(s, event);
    }
}

proof fn lemma_events_keep_cursor(s: ScreenView, events: Seq<EventView>)
    requires
        forall|i: int|
            0 <= i < events.len() ==> !saves_cursor(#[trigger] events[i]) && !resets(events[i]),
    ensures
        s.performed_all(events).saved_cursor == s.saved_cursor,
    decreases events.len(),
{
    if events.len() > 0 {
        let before = events.drop_last();
        assert forall|i: int| 0 <= i < before.len() implies !saves_cursor(#[trigger] before[i])
            && !resets(before[i]) by {
            assert(before[i] == events[i]);
        }
        lemma_events_keep_cursor(s, before);
        assert(events.last() == events[events.len() - 1]);
        law_event_keeps_saved_cursor(s.performed_all(before), events.last());
    }
}

/// Whether two terminals have the same history.
pub open spec fn same_history(s: ScreenView, t: ScreenView) -> bool {
    &&& t.scrollback == s.scrollback
    &&& t.pending_scrollback == s.pending_scrollback
}

proof fn lemma_scrolled_history(s: ScreenView, n: int)
    requires
        s.in_alt_screen,
    ensures
        same_history(s, s.scrolled_up_by(n)),
        same_history(s, s.scrolled_down_by(n)),
    decreases n,
{
    lemma_scrolled_saved(s, n - 1);
    if n > 0 {
        lemma_scrolled_history(s, n - 1);
    }
}

proof fn lemma_printed_history(s: ScreenView, c: char)
    requires
        s.in_alt_screen,
    ensures
        same_history(s, s.printed(c)),
{
}

proof fn lemma_times_history(s: ScreenView, c: char, n: int)
    requires
        s.in_alt_screen,
    ensures
        same_history(s, s.printed_times(c, n)),
    decreases n,
{
    if n > 0 {
        lemma_times_history(s, c, n - 1);
        lemma_times_saved(s, c, n - 1);
        lemma_printed_history(s.printed_times(c, n - 1), c);
    }
}

#[verifier::rlimit(50)]
proof fn lemma_edited_history(s: ScreenView, params: Seq<Seq<u16>>, action: char)
    requires
        s.in_alt_screen,
        !(action == 'J' && model::param(params, 0, 0) == 3),
    ensures
        same_history(s, s.csi_edited(params, action)),
{
    lemma_scrolled_history(s, model::min(model::param(params, 0, 1) as int, s.grid.rows));
    lemma_times_history(s, s.last_printed_char, model::param(params, 0, 1) as int);
}

proof fn lemma_moved_history(s: ScreenView, params: Seq<Seq<u16>>, action: char)
    ensures
        same_history(s, s.csi_moved(params, action)),
{
}

proof fn lemma_modes_history(s: ScreenView, params: Seq<Seq<u16>>, on: bool)
    ensures
        same_history(s, s.modes_set(params, on)),
    decreases params.len(),
{
    if params.len() > 0 {
        lemma_modes_history(s, params.drop_last(), on);
    }
}

#[verifier::rlimit(50)]
proof fn lemma_csi_history(
    s: ScreenView,
    params: Seq<Seq<u16>>,
    intermediates: Seq<u8>,
    action: char,
)
    requires
        s.in_alt_screen,
        !(action == 'J' && model::param(params, 0, 0) == 3),
    ensures
        same_history(s, s.csi(params, intermediates, action)),
{
    if ScreenView::is_movement(action) {
        lemma_moved_history(s, params, action);
    } else if ScreenView::is_edit(action) {
        lemma_edited_history(s, params, action);
    } else {
        lemma_scrolled_history(s, model::min(model::param(params, 0, 1) as int, s.grid.rows));
        lemma_modes_history(s, params, action == 'h');
    }
}

proof fn lemma_executed_history(s: ScreenView, byte: u8)
    requires
        s.in_alt_screen,
    ensures
        same_history(s, s.executed(byte)),
{
}

#[verifier::rlimit(50)]
proof fn lemma_esc_history(s: ScreenView, intermediates: Seq<u8>, byte: u8)
    ensures
        same_history(s, s.esc(intermediates, byte)),
{
}

/// On the alternate screen nothing is added to the history: an event leaves it as it
/// is, unless it erases it.
#[verifier::rlimit(50)]
pub proof fn law_alt_screen_keeps_history(s: ScreenView, event: EventView)
    requires
        s.in_alt_screen,
    ensures
        !erases_history(event) ==> same_history(s, s.performed(event)),
        erases_history(event) ==> s.performed(event).scrollback == Seq::<Seq<CellView>>::empty(),
{
    reveal(ScreenView::performed);
    match event {
        EventView::Print(c) => lemma_printed_history(s, c),
        EventView::Execute(byte) => lemma_executed_history(s, byte),
        EventView::Csi { params, intermediates, action } => {
            if !erases_history(event) {
                lemma_csi_history(s, params, intermediates, action);
            }
        },
        EventView::Esc { intermediates, byte } => lemma_esc_history(s, intermediates, byte),
        EventView::Osc { fields } => {},
    }
}

/// The history of a terminal after events on its alternate screen.
pub open spec fn history_after(
    history: Seq<Seq<CellView>>,
    events: Seq<EventView>,
) -> Seq<Seq<CellView>> {
    if exists|i: int| 0 <= i < events.len() && erases_history(#[trigger] events[i]) {
        seq![]
    } else {
        history
    }
}

proof fn lemma_alt_history(s: ScreenView, events: Seq<EventView>)
    requires
        s.in_alt_screen,
        forall|i: int| 0 <= i < events.len() ==> !puts_aside(#[trigger] events[i]),
    ensures
        s.performed_all(events).scrollback == history_after(s.scrollback, events),
    decreases events.len(),
{
    if events.len() > 0 {
        let before = events.drop_last();
        assert forall|i: int| 0 <= i < before.len() implies !puts_aside(#[trigger] before[i])
            && before[i] == events[i] by {
            assert(before[i] == events[i]);
        }
        lemma_alt_history(s, before);
        law_events_keep_saved(s, before);
        assert(events.last() == events[events.len() - 1]);
        law_alt_screen_keeps_history(s.performed_all(before), events.last());
        if exists|i: int| 0 <= i < before.len() && erases_history(#[trigger] before[i]) {
            let i = choose|i: int| 0 <= i < before.len() && erases_history(#[trigger] before[i]);
            assert(erases_history(events[i]));
        } else if exists|i: int| 0 <= i < events.len() && erases_history(#[trigger] events[i]) {
            let i = choose|i: int| 0 <= i < events.len() && erases_history(#[trigger] events[i]);
            if i < before.len() {
                assert(erases_history(before[i]));
            }
        }
    }
}

/// A program on the alternate screen cannot harm the main screen: whatever it does
/// there, short of saving the cursor, switching screens or resetting itself, leaving
/// brings back the cells and modes of the main screen, and with mode 1049 the cursor
/// and its style. The scroll region is the whole screen then, and the history holds
/// nothing more than before: it is the same, or empty if the program erased it.
pub proof fn law_main_screen_outlives_events(
    s: ScreenView,
    events: Seq<EventView>,
    with_cursor: bool,
)
    requires
        s.wf(),
        forall|i: int| 0 <= i < events.len() ==> !puts_aside(#[trigger] events[i]),
    ensures
        ({
            let back = s.alt_entered(with_cursor).performed_all(events).alt_left(with_cursor);
            &&& back.grid.cells == s.grid.cells
            &&& back.grid.modes == s.grid.modes
            &&& !back.in_alt_screen
            &&& back.grid.scroll_top == 0
            &&& back.grid.scroll_bottom == s.grid.rows - 1
            &&& back.scrollback == history_after(s.scrollback, events)
            &&& with_cursor ==> {
                &&& back.grid.cursor_x == s.grid.cursor_x
                &&& back.grid.cursor_y == s.grid.cursor_y
                &&& back.style == s.style
                &&& !back.grid.wrap_pending
            }
        }),
{
    let entered = s.alt_entered(with_cursor);
    law_events_are_steady(entered, events);
    law_events_keep_saved(entered, events);
    lemma_alt_history(entered, events);
    law_alt_screen_round_trip(s, entered.performed_all(events), with_cursor);
}

/// A saved cursor outlives every event that does not save one or reset: restoring it
/// brings back its position, style, character sets and autowrap, and changes nothing
/// else.
pub proof fn law_saved_cursor_outlives_events(s: ScreenView, events: Seq<EventView>)
    requires
        s.wf(),
        forall|i: int|
            0 <= i < events.len() ==> !saves_cursor(#[trigger] events[i]) && !resets(events[i]),
    ensures
        ({
            let t = s.cursor_saved().performed_all(events);
            t.cursor_restored() == (ScreenView {
                grid: GridView {
                    cursor_x: s.grid.cursor_x,
                    cursor_y: s.grid.cursor_y,
                    wrap_pending: false,
                    modes: TerminalModes {
                        g0_charset: s.grid.modes.g0_charset,
                        g1_charset: s.grid.modes.g1_charset,
                        active_charset: s.grid.modes.active_charset,
                        autowrap_mode: s.grid.modes.autowrap_mode,
                        ..t.grid.modes
                    },
                    ..t.grid
                },
                style: s.style,
                ..t
            })
        }),
{
    law_events_are_steady(s.cursor_saved(), events);
    lemma_events_keep_cursor(s.cursor_saved(), events);
}

/// Without a saved cursor, restoring it changes nothing.
pub proof fn law_nothing_to_restore(t: ScreenView)
    requires
        t.saved_cursor is None,
    ensures
        t.cursor_restored() == t,
{
}

/// Whether the mouse settings are among those there are.
pub open spec fn mouse_known(m: TerminalModes) -> bool {
    &&& m.mouse_mode == 0 || m.mouse_mode == 1000 || m.mouse_mode == 1002 || m.mouse_mode == 1003
    &&& m.mouse_encoding == 0 || m.mouse_encoding == 1005 || m.mouse_encoding == 1006
}

/// Whether the modes of a terminal, and those put aside, have such mouse settings.
pub open spec fn settings_known(s: ScreenView) -> bool {
    &&& mouse_known(s.grid.modes)
    &&& s.saved_modes matches Some(m) ==> mouse_known(m)
}

proof fn lemma_scrolled_modes(s: ScreenView, n: int)
    ensures
        s.scrolled_up_by(n).grid.modes == s.grid.modes,
        s.scrolled_down_by(n).grid.modes == s.grid.modes,
    decreases n,
{
    if n > 0 {
        lemma_scrolled_modes(s, n - 1);
    }
}

pub(crate) proof fn lemma_printed_modes(s: ScreenView, c: char)
    ensures
        s.printed(c).grid.modes == s.grid.modes,
{
}

proof fn lemma_times_modes(s: ScreenView, c: char, n: int)
    ensures
        s.printed_times(c, n).grid.modes == s.grid.modes,
    decreases n,
{
    if n > 0 {
        lemma_times_modes(s, c, n - 1);
        lemma_printed_modes(s.printed_times(c, n - 1), c);
    }
}

#[verifier::rlimit(50)]
proof fn lemma_edited_modes(s: ScreenView, params: Seq<Seq<u16>>, action: char)
    ensures
        s.csi_edited(params, action).grid.modes == s.grid.modes,
{
    lemma_scrolled_modes(s, model::min(model::param(params, 0, 1) as int, s.grid.rows));
    lemma_times_modes(s, s.last_printed_char, model::param(params, 0, 1) as int);
}

proof fn lemma_mode_known(s: ScreenView, mode: u16, on: bool)
    requires
        settings_known(s),
    ensures
        settings_known(s.mode_set(mode, on)),
{
}

proof fn lemma_modes_known(s: ScreenView, params: Seq<Seq<u16>>, on: bool)
    requires
        settings_known(s),
    ensures
        settings_known(s.modes_set(params, on)),
    decreases params.len(),
{
    if params.len() > 0 {
        lemma_modes_known(s, params.drop_last(), on);
        if params.last().len() > 0 {
            lemma_mode_known(s.modes_set(params.drop_last(), on), params.last()[0], on);
        }
    }
}

proof fn lemma_moved_modes(s: ScreenView, params: Seq<Seq<u16>>, action: char)
    ensures
        s.csi_moved(params, action).grid.modes == s.grid.modes,
{
}

#[verifier::rlimit(50)]
proof fn lemma_csi_known(
    s: ScreenView,
    params: Seq<Seq<u16>>,
    intermediates: Seq<u8>,
    action: char,
)
    requires
        settings_known(s),
    ensures
        settings_known(s.csi(params, intermediates, action)),
{
    if ScreenView::is_movement(action) {
        lemma_moved_modes(s, params, action);
        lemma_moved_saved(s, params, action);
    } else if ScreenView::is_edit(action) {
        lemma_edited_modes(s, params, action);
        lemma_edited_saved(s, params, action);
    } else {
        lemma_scrolled_modes(s, model::min(model::param(params, 0, 1) as int, s.grid.rows));
        lemma_scrolled_saved(s, model::min(model::param(params, 0, 1) as int, s.grid.rows));
        lemma_modes_known(s, params, action == 'h');
    }
}

#[verifier::rlimit(50)]
proof fn lemma_executed_known(s: ScreenView, byte: u8)
    requires
        settings_known(s),
    ensures
        settings_known(s.executed(byte)),
{
}

proof fn lemma_previous_known(s: ScreenView)
    requires
        settings_known(s),
    ensures
        settings_known(s.previous_line()),
{
}

proof fn lemma_restored_known(s: ScreenView)
    requires
        settings_known(s),
    ensures
        settings_known(s.cursor_saved()),
        settings_known(s.cursor_restored()),
        settings_known(s.reset()),
{
}

#[verifier::rlimit(50)]
proof fn lemma_esc_known(s: ScreenView, intermediates: Seq<u8>, byte: u8)
    requires
        settings_known(s),
    ensures
        settings_known(s.esc(intermediates, byte)),
{
    if intermediates.len() == 0 && byte == 0x4d {
        lemma_previous_known(s);
    } else if intermediates.len() == 0 && (byte == 0x37 || byte == 0x38 || byte == 0x63) {
        lemma_restored_known(s);
    } else {
        let m = s.esc(intermediates, byte).grid.modes;
        assert(m.mouse_mode == s.grid.modes.mouse_mode);
        assert(m.mouse_encoding == s.grid.modes.mouse_encoding);
        assert(s.esc(intermediates, byte).saved_modes == s.saved_modes);
    }
}

/// No event brings about mouse settings that are not among those there are.
#[verifier::rlimit(50)]
pub proof fn law_mouse_settings_stay_known(s: ScreenView, event: EventView)
    requires
        settings_known(s),
    ensures
        settings_known(s.performed(event)),
{
    reveal(ScreenView::performed);
    match event {
        EventView::Print(c) => {
            lemma_printed_modes(s, c);
            lemma_printed_saved(s, c);
        },
        EventView::Execute(byte) => lemma_executed_known(s, byte),
        EventView::Csi { params, intermediates, action } => lemma_csi_known(
            s,
            params,
            intermediates,
            action,
        ),
        EventView::Esc { intermediates, byte } => lemma_esc_known(s, intermediates, byte),
        EventView::Osc { fields } => lemma_osc_saved(s, fields),
    }
}

} // verus!
