//! Which rows a terminal comes to hold: those that printing leaves.

use vstd::prelude::*;

use super::cell;
use super::cell::CellView;
use super::grid;
use super::grid::GridView;
use super::laws;
use super::model;
use super::model::{EventView, ScreenView};
use super::render;
use super::restore;
use super::scrollback;
use super::style::Style;
use super::width;
use super::{fresh, screen_resized};

verus! {

// Rows

/// Whether every cell of a row is what printing its text leaves, so that no half of a
/// wide character stands alone.
#[verifier::opaque]
pub open spec fn whole(row: Seq<CellView>) -> bool {
    forall|x: int| 0 <= x < row.len() ==> #[trigger] restore::printed_cell(row, x)
}

/// Whether a row can be cut before the column `x`: no wide character stands across it.
pub open spec fn cuttable(row: Seq<CellView>, x: int) -> bool {
    0 <= x <= row.len() && (x < row.len() ==> row[x].width != 0)
}

proof fn lemma_whole_at(row: Seq<CellView>, x: int)
    requires
        whole(row),
        0 <= x < row.len(),
    ensures
        restore::printed_cell(row, x),
{
    reveal(whole);
}

proof fn lemma_join(a: Seq<CellView>, b: Seq<CellView>)
    requires
        whole(a),
        whole(b),
    ensures
        whole(a + b),
{
    reveal(whole);
    let row = a + b;
    assert forall|x: int| 0 <= x < row.len() implies #[trigger] restore::printed_cell(row, x) by {
        if x < a.len() {
            assert(restore::printed_cell(a, x));
        } else {
            assert(restore::printed_cell(b, x - a.len()));
        }
    }
}

proof fn lemma_cut(row: Seq<CellView>, x: int)
    requires
        whole(row),
        cuttable(row, x),
    ensures
        whole(row.take(x)),
        whole(row.skip(x)),
{
    reveal(whole);
    let (a, b) = (row.take(x), row.skip(x));
    assert forall|k: int| 0 <= k < a.len() implies #[trigger] restore::printed_cell(a, k) by {
        assert(restore::printed_cell(row, k));
    }
    assert forall|k: int| 0 <= k < b.len() implies #[trigger] restore::printed_cell(b, k) by {
        assert(restore::printed_cell(row, k + x));
    }
}

proof fn lemma_blank_whole(style: Style, n: int)
    ensures
        whole(cell::uniform_row(cell::space(style), n)),
{
    reveal(whole);
    let row = cell::uniform_row(cell::space(style), n);
    assert forall|x: int| 0 <= x < row.len() implies #[trigger] restore::printed_cell(row, x) by {
    }
}

/// A wide character can be cut neither inside nor anywhere else than at its ends.
proof fn lemma_cut_behind(row: Seq<CellView>, x: int)
    requires
        whole(row),
        0 <= x < row.len(),
    ensures
        row[x].width != 2 ==> cuttable(row, x + 1),
        row[x].width == 2 ==> x + 1 < row.len() && row[x + 1].width == 0 && cuttable(row, x + 2),
        row[x].width == 0 ==> x > 0 && row[x - 1].width == 2 && cuttable(row, x - 1),
        row[x].width <= 2,
{
    reveal(whole);
    assert(restore::printed_cell(row, x));
    if x > 0 {
        assert(restore::printed_cell(row, x - 1));
    }
    if x + 1 < row.len() {
        assert(restore::printed_cell(row, x + 1));
    }
    if x + 2 < row.len() {
        assert(restore::printed_cell(row, x + 2));
    }
}

/// A part of a row between two places where it can be cut, replaced.
proof fn lemma_replaced(row: Seq<CellView>, from: int, part: Seq<CellView>, to: int)
    requires
        whole(row),
        whole(part),
        cuttable(row, from),
        cuttable(row, to),
    ensures
        whole(row.take(from) + part + row.skip(to)),
{
    lemma_cut(row, from);
    lemma_cut(row, to);
    lemma_join(row.take(from), part);
    lemma_join(row.take(from) + part, row.skip(to));
}

proof fn lemma_filled_whole(row: Seq<CellView>, from: int, to: int, style: Style)
    requires
        whole(row),
        cuttable(row, from),
        cuttable(row, to),
        from <= to,
    ensures
        whole(cell::filled(row, from, to, cell::space(style))),
{
    let part = cell::uniform_row(cell::space(style), to - from);
    lemma_blank_whole(style, to - from);
    lemma_replaced(row, from, part, to);
    assert(cell::filled(row, from, to, cell::space(style)) =~= row.take(from) + part + row.skip(to));
}

proof fn lemma_unpaired_whole(row: Seq<CellView>, x: int, style: Style)
    requires
        whole(row),
        0 <= x < row.len(),
    ensures
        ({
            let r = cell::unpaired(row, x, cell::space(style));
            &&& whole(r)
            &&& r.len() == row.len()
            &&& r[x].width == 1
            &&& cuttable(r, x)
            &&& cuttable(r, x + 1)
        }),
{
    let fill = cell::space(style);
    let r = cell::unpaired(row, x, fill);
    lemma_cut_behind(row, x);
    let two = cell::uniform_row(fill, 2);
    lemma_blank_whole(style, 2);
    if row[x].width == 2 {
        lemma_replaced(row, x, two, x + 2);
        assert(r =~= row.take(x) + two + row.skip(x + 2));
    } else if row[x].width == 0 {
        lemma_replaced(row, x - 1, two, x + 1);
        assert(r =~= row.take(x - 1) + two + row.skip(x + 1));
    }
    lemma_cut_behind(r, x);
}

proof fn lemma_one_whole(c: CellView)
    requires
        c.width == 1,
        width::columns(c.c) == 1,
        restore::marks_combine(c.combining),
    ensures
        whole(seq![c]),
{
    reveal(whole);
    let row = seq![c];
    assert forall|x: int| 0 <= x < row.len() implies #[trigger] restore::printed_cell(row, x) by {
    }
}

proof fn lemma_wide_whole(c: CellView)
    requires
        c.width == 2,
        width::columns(c.c) == 2,
        restore::marks_combine(c.combining),
    ensures
        whole(seq![c, restore::continuation(c.style)]),
{
    reveal(whole);
    let row = seq![c, restore::continuation(c.style)];
    assert forall|x: int| 0 <= x < row.len() implies #[trigger] restore::printed_cell(row, x) by {
    }
}

proof fn lemma_deleted_whole(row: Seq<CellView>, x: int, n: int, style: Style)
    requires
        whole(row),
        0 <= x < row.len(),
        cuttable(row, x),
        0 < n <= row.len() - x,
    ensures
        ({
            let fill = cell::space(style);
            let r = cell::cells_deleted(row, x, n, fill);
            &&& r.len() == row.len()
            &&& whole(
                if r[x].width == 0 {
                    r.update(x, fill)
                } else {
                    r
                },
            )
        }),
{
    let fill = cell::space(style);
    let r = cell::cells_deleted(row, x, n, fill);
    let tail = cell::uniform_row(fill, n);
    lemma_blank_whole(style, n);
    lemma_blank_whole(style, 1);
    let one = cell::uniform_row(fill, 1);
    if x + n < row.len() && row[x + n].width == 0 {
        lemma_cut_behind(row, x + n);
        lemma_replaced(row, x, one, x + n + 1);
        lemma_join(row.take(x) + one + row.skip(x + n + 1), tail);
        assert(r.update(x, fill) =~= row.take(x) + one + row.skip(x + n + 1) + tail);
    } else {
        lemma_blank_whole(style, 0);
        let none = cell::uniform_row(fill, 0);
        lemma_replaced(row, x, none, x + n);
        lemma_join(row.take(x) + none + row.skip(x + n), tail);
        assert(r =~= row.take(x) + none + row.skip(x + n) + tail);
    }
}

proof fn lemma_inserted_whole(row: Seq<CellView>, x: int, n: int, style: Style)
    requires
        whole(row),
        0 <= x < row.len(),
        cuttable(row, x),
        0 < n <= row.len() - x,
    ensures
        ({
            let fill = cell::space(style);
            let last = row.len() - 1;
            let r = cell::cells_inserted(row, x, n, fill);
            &&& r.len() == row.len()
            &&& whole(
                if r[last].width == 2 {
                    r.update(last, fill)
                } else {
                    r
                },
            )
        }),
{
    let fill = cell::space(style);
    let last = row.len() - 1;
    let r = cell::cells_inserted(row, x, n, fill);
    let part = cell::uniform_row(fill, n);
    let one = cell::uniform_row(fill, 1);
    lemma_blank_whole(style, n);
    lemma_blank_whole(style, 1);
    lemma_cut(row, x);
    lemma_join(row.take(x), part);
    let end = row.len() - n;
    if end < row.len() && row[end].width == 0 {
        lemma_cut_behind(row, end);
        lemma_cut(row, end - 1);
        let kept = row.take(end - 1);
        assert(kept.skip(x) =~= row.subrange(x, end - 1));
        lemma_cut(kept, x);
        lemma_join(row.take(x) + part, kept.skip(x));
        lemma_join(row.take(x) + part + kept.skip(x), one);
        assert(r[last] == row[end - 1]);
        assert(r.update(last, fill) =~= row.take(x) + part + kept.skip(x) + one);
    } else {
        lemma_cut(row, end);
        let kept = row.take(end);
        assert(kept.skip(x) =~= row.subrange(x, end));
        lemma_cut(kept, x);
        lemma_join(row.take(x) + part, kept.skip(x));
        assert(r =~= row.take(x) + part + kept.skip(x));
        if r[last].width == 2 {
            assert(last - n >= x);
            assert(r[last] == row[last - n]);
            lemma_cut_behind(row, last - n);
        }
    }
}

proof fn lemma_marked_whole(row: Seq<CellView>, x: int, mark: char)
    requires
        whole(row),
        0 <= x < row.len(),
        row[x].width != 0,
        width::columns(mark) == 0,
    ensures
        whole(row.update(x, cell::marked(row[x], mark))),
{
    reveal(whole);
    let r = row.update(x, cell::marked(row[x], mark));
    assert forall|k: int| 0 <= k < r.len() implies #[trigger] restore::printed_cell(r, k) by {
        assert(restore::printed_cell(row, k));
        if k == x {
            let marks = r[x].combining;
            assert forall|i: int| 0 <= i < marks.len() implies width::columns(#[trigger] marks[i])
                == 0 by {
                if i < row[x].combining.len() {
                    assert(marks[i] == row[x].combining[i]);
                }
            }
        }
    }
}

proof fn lemma_fitted_whole(row: Seq<CellView>, cols: int)
    requires
        whole(row),
        row.len() <= cols,
    ensures
        whole(cell::fitted_row(row, cols)),
{
    let tail = cell::uniform_row(cell::blank(), cols - row.len());
    lemma_blank_whole(super::style::plain(), cols - row.len());
    lemma_join(row, tail);
    assert(cell::fitted_row(row, cols) =~= row + tail);
}

// Terminals

/// Whether rows are such rows and no wider than `cols` columns.
pub open spec fn sound_rows(rows: Seq<Seq<CellView>>, cols: int) -> bool {
    forall|i: int| 0 <= i < rows.len() ==> whole(#[trigger] rows[i]) && rows[i].len() <= cols
}

/// Whether all rows of a terminal are such rows: on its screen, on the screen that it
/// put aside, and in its history.
pub open spec fn sound(s: ScreenView) -> bool {
    &&& sound_rows(s.grid.cells, s.grid.cols)
    &&& s.saved_grid matches Some(cells) ==> sound_rows(cells, s.grid.cols)
    &&& sound_rows(s.scrollback, s.grid.cols)
    &&& sound_rows(s.pending_scrollback, s.grid.cols)
}

proof fn lemma_line_whole(s: ScreenView)
    requires
        s.wf(),
        sound(s),
    ensures
        whole(s.line()),
        s.line().len() == s.grid.cols,
{
}

proof fn lemma_with_line_sound(s: ScreenView, row: Seq<CellView>)
    requires
        s.wf(),
        sound(s),
        whole(row),
        row.len() == s.grid.cols,
    ensures
        sound(s.with_line(row)),
{
}

proof fn lemma_fill_row_whole(s: ScreenView)
    requires
        s.wf(),
    ensures
        whole(s.fill_row()),
        s.fill_row().len() == s.grid.cols,
{
    lemma_blank_whole(Style { bg: s.style.bg, ..super::style::plain() }, s.grid.cols);
}

proof fn lemma_remembered_sound(
    history: Seq<Seq<CellView>>,
    limit: int,
    row: Seq<CellView>,
    cols: int,
)
    requires
        sound_rows(history, cols),
        whole(row),
        row.len() <= cols,
    ensures
        sound_rows(grid::remembered(history, limit, row), cols),
{
    let r = grid::remembered(history, limit, row);
    assert forall|i: int| 0 <= i < r.len() implies whole(#[trigger] r[i]) && r[i].len() <= cols by {
        if history.len() >= limit && history.len() > 0 && i < history.len() - 1 {
            assert(r[i] == history[i + 1]);
        } else if i < history.len() && !(history.len() >= limit && history.len() > 0) {
            assert(r[i] == history[i]);
        }
    }
}

proof fn lemma_row_moved_sound(
    cells: Seq<Seq<CellView>>,
    from: int,
    to: int,
    row: Seq<CellView>,
    cols: int,
)
    requires
        sound_rows(cells, cols),
        0 <= from < cells.len(),
        0 <= to < cells.len(),
        whole(row),
        row.len() <= cols,
    ensures
        sound_rows(grid::row_moved(cells, from, to, row), cols),
{
    let rest = cells.remove(from);
    assert forall|i: int| 0 <= i < rest.len() implies whole(#[trigger] rest[i]) && rest[i].len()
        <= cols by {
        if i < from {
            assert(rest[i] == cells[i]);
        } else {
            assert(rest[i] == cells[i + 1]);
        }
    }
    let r = rest.insert(to, row);
    assert forall|i: int| 0 <= i < r.len() implies whole(#[trigger] r[i]) && r[i].len() <= cols by {
        if i < to {
            assert(r[i] == rest[i]);
        } else if i > to {
            assert(r[i] == rest[i - 1]);
        }
    }
}

proof fn lemma_scrolled_up_sound(s: ScreenView)
    requires
        s.wf(),
        sound(s),
    ensures
        sound(s.scrolled_up()),
{
    lemma_fill_row_whole(s);
    lemma_row_moved_sound(
        s.grid.cells,
        s.grid.scroll_top,
        s.grid.scroll_bottom,
        s.fill_row(),
        s.grid.cols,
    );
    assert(whole(s.grid.cells[0]) && s.grid.cells[0].len() <= s.grid.cols);
    lemma_remembered_sound(s.scrollback, s.scrollback_limit, s.grid.cells[0], s.grid.cols);
    lemma_remembered_sound(
        s.pending_scrollback,
        s.scrollback_limit,
        s.grid.cells[0],
        s.grid.cols,
    );
}

proof fn lemma_scrolled_down_sound(s: ScreenView)
    requires
        s.wf(),
        sound(s),
    ensures
        sound(s.scrolled_down()),
{
    lemma_fill_row_whole(s);
    lemma_row_moved_sound(
        s.grid.cells,
        s.grid.scroll_bottom,
        s.grid.scroll_top,
        s.fill_row(),
        s.grid.cols,
    );
}

proof fn lemma_scrolled_up_by_sound(s: ScreenView, n: int)
    requires
        s.wf(),
        sound(s),
    ensures
        sound(s.scrolled_up_by(n)),
    decreases n,
{
    if n > 0 {
        lemma_scrolled_up_by_sound(s, n - 1);
        laws::lemma_scrolled_up_by(s, n - 1);
        lemma_scrolled_up_sound(s.scrolled_up_by(n - 1));
    }
}

proof fn lemma_scrolled_down_by_sound(s: ScreenView, n: int)
    requires
        s.wf(),
        sound(s),
    ensures
        sound(s.scrolled_down_by(n)),
    decreases n,
{
    if n > 0 {
        lemma_scrolled_down_by_sound(s, n - 1);
        laws::lemma_scrolled_down_by(s, n - 1);
        lemma_scrolled_down_sound(s.scrolled_down_by(n - 1));
    }
}

proof fn lemma_next_line_sound(s: ScreenView)
    requires
        s.wf(),
        sound(s),
    ensures
        sound(s.next_line()),
{
    lemma_scrolled_up_sound(s);
}

proof fn lemma_line_with_whole(s: ScreenView, c: char, w: int)
    requires
        s.wf(),
        sound(s),
        width::columns(c) == w,
        w == 1 || (w == 2 && s.grid.cursor_x + 1 < s.grid.cols),
    ensures
        whole(s.line_with(c, w)),
        s.line_with(c, w).len() == s.grid.cols,
        w == 2 && s.grid.cursor_x + 2 < s.grid.cols ==> s.line_with(c, w)[s.grid.cursor_x
            + 2].width != 0,
{
    let x = s.grid.cursor_x;
    let st = Style { bg: s.style.bg, ..super::style::plain() };
    let fill = s.fill();
    lemma_line_whole(s);
    lemma_unpaired_whole(s.line(), x, st);
    let r = cell::unpaired(s.line(), x, fill);
    let shown = CellView { c, combining: seq![], style: s.style, width: w as u8 };
    let line = s.line_with(c, w);
    if w == 1 {
        lemma_one_whole(shown);
        lemma_replaced(r, x, seq![shown], x + 1);
        assert(line =~= r.take(x) + seq![shown] + r.skip(x + 1));
    } else {
        let pair = seq![shown, restore::continuation(s.style)];
        lemma_wide_whole(shown);
        lemma_cut_behind(r, x + 1);
        if r[x + 1].width == 2 {
            lemma_blank_whole(st, 1);
            let one = cell::uniform_row(fill, 1);
            lemma_join(pair, one);
            lemma_replaced(r, x, pair + one, x + 3);
            assert(line =~= r.take(x) + (pair + one) + r.skip(x + 3));
        } else {
            lemma_replaced(r, x, pair, x + 2);
            assert(line =~= r.take(x) + pair + r.skip(x + 2));
        }
        lemma_cut_behind(line, x + 1);
    }
}

proof fn lemma_put_sound(s: ScreenView, c: char, w: int)
    requires
        s.wf(),
        sound(s),
        width::columns(c) == w,
        w == 1 || (w == 2 && s.grid.cursor_x + 1 < s.grid.cols),
    ensures
        sound(s.put(c, w)),
{
    lemma_line_with_whole(s, c, w);
    lemma_with_line_sound(s, s.line_with(c, w));
}

/// Whether a wide character that is printed next would take the place of the second
/// half of another at the right margin: the first half would stand alone there.
pub open spec fn cuts_at_margin(s: ScreenView) -> bool {
    &&& s.grid.modes.autowrap_mode
    &&& !s.grid.wrap_pending
    &&& s.grid.cursor_x == s.grid.cols - 1
    &&& s.line()[s.grid.cursor_x].width == 0
}

/// Whether a character of `w` columns can be printed whole: it takes at most two, and
/// one that takes two needs a screen as wide, and must not cut another one.
pub open spec fn room_for(s: ScreenView, w: int) -> bool {
    &&& w <= 2
    &&& w == 2 ==> s.grid.cols >= 2 && !cuts_at_margin(s)
}

proof fn lemma_marked_sound(s: ScreenView, c: char)
    requires
        s.wf(),
        sound(s),
        width::columns(c) == 0,
    ensures
        sound(s.marked(c)),
{
    let x = s.grid.cursor_x;
    lemma_line_whole(s);
    if s.grid.wrap_pending || x > 0 {
        let near = if s.grid.wrap_pending {
            x
        } else {
            x - 1
        };
        lemma_cut_behind(s.line(), near);
        let at = if s.line()[near].width == 0 && near > 0 {
            near - 1
        } else {
            near
        };
        lemma_marked_whole(s.line(), at, c);
        lemma_with_line_sound(s, s.line().update(at, cell::marked(s.line()[at], c)));
    }
}

proof fn lemma_wrapped_sound(s: ScreenView)
    requires
        s.wf(),
        sound(s),
    ensures
        sound(s.wrapped()),
        s.wrapped().wf(),
        s.wrapped().grid.cursor_x == 0,
        s.wrapped().grid.cols == s.grid.cols,
        s.wrapped().grid.wrap_pending == s.grid.wrap_pending,
        s.wrapped().grid.modes == s.grid.modes,
{
    let t = s.with_grid(GridView { cursor_x: 0, ..s.grid });
    laws::lemma_wrapped(s);
    lemma_next_line_sound(t);
}

proof fn lemma_put_leaves_room(s: ScreenView, c: char)
    requires
        s.wf(),
        sound(s),
        width::columns(c) == 2,
        s.grid.cursor_x + 1 < s.grid.cols,
    ensures
        room_for(s.put(c, 2), 2),
{
    lemma_line_with_whole(s, c, 2);
}

proof fn lemma_printed_wide_sound(s: ScreenView, c: char, w: int)
    requires
        s.wf(),
        sound(s),
        width::columns(c) == w,
        0 <= w,
        room_for(s, w),
    ensures
        sound(s.printed_wide(c, w)),
        room_for(s.printed_wide(c, w), w),
{
    if w == 0 {
        lemma_marked_sound(s, c);
    } else {
        let flat = s.with_grid(GridView { wrap_pending: false, ..s.grid });
        lemma_wrapped_sound(flat);
        let ready = s.unwrapped();
        if w == 2 && ready.grid.cursor_x >= ready.grid.cols - 1 {
            if ready.grid.modes.autowrap_mode {
                let x = ready.grid.cursor_x;
                let st = Style { bg: s.style.bg, ..super::style::plain() };
                lemma_line_whole(ready);
                lemma_blank_whole(st, 1);
                lemma_replaced(ready.line(), x, cell::uniform_row(ready.fill(), 1), x + 1);
                let row = ready.line().update(x, ready.fill());
                assert(row =~= ready.line().take(x) + cell::uniform_row(ready.fill(), 1)
                    + ready.line().skip(x + 1));
                lemma_with_line_sound(ready, row);
                laws::lemma_with_line(ready, row);
                let t = ready.with_line(row);
                lemma_wrapped_sound(t);
                lemma_put_sound(t.wrapped(), c, w);
                lemma_put_leaves_room(t.wrapped(), c);
            }
        } else {
            lemma_put_sound(ready, c, w);
            if w == 2 {
                lemma_put_leaves_room(ready, c);
            }
        }
    }
}

/// Whether a character can be printed whole, as it is shown in the active character
/// set.
pub open spec fn prints_whole(s: ScreenView, c: char) -> bool {
    room_for(s, width::columns(model::mapped(s.grid.modes, c)))
}

proof fn lemma_printed_sound(s: ScreenView, c: char)
    requires
        s.wf(),
        sound(s),
        prints_whole(s, c),
    ensures
        sound(s.printed(c)),
        prints_whole(s.printed(c), c),
{
    let shown = model::mapped(s.grid.modes, c);
    lemma_printed_wide_sound(s, shown, width::columns(shown));
    laws::lemma_printed_modes(s, c);
}

proof fn lemma_times_sound(s: ScreenView, c: char, n: int)
    requires
        s.wf(),
        sound(s),
        prints_whole(s, c),
    ensures
        sound(s.printed_times(c, n)),
        prints_whole(s.printed_times(c, n), c),
    decreases n,
{
    if n > 0 {
        lemma_times_sound(s, c, n - 1);
        laws::lemma_printed_times(s, c, n - 1);
        lemma_printed_sound(s.printed_times(c, n - 1), c);
    }
}

proof fn lemma_rows_erased_sound(s: ScreenView, from: int, to: int)
    requires
        s.wf(),
        sound(s),
    ensures
        sound(s.rows_erased(from, to)),
{
    lemma_fill_row_whole(s);
    let t = s.rows_erased(from, to);
    assert forall|y: int| 0 <= y < t.grid.cells.len() implies whole(#[trigger] t.grid.cells[y])
        && t.grid.cells[y].len() <= s.grid.cols by {
        assert(whole(s.grid.cells[y]) && s.grid.cells[y].len() <= s.grid.cols);
    }
}

proof fn lemma_erased_whole(s: ScreenView)
    requires
        s.wf(),
        sound(s),
    ensures
        whole(s.erased_right()),
        whole(s.erased_left()),
        s.erased_right().len() == s.grid.cols,
        s.erased_left().len() == s.grid.cols,
{
    let x = s.grid.cursor_x;
    let st = Style { bg: s.style.bg, ..super::style::plain() };
    lemma_line_whole(s);
    lemma_unpaired_whole(s.line(), x, st);
    let r = cell::unpaired(s.line(), x, s.fill());
    lemma_whole_at(r, 0);
    lemma_filled_whole(r, x, s.grid.cols, st);
    lemma_filled_whole(r, 0, x + 1, st);
}

proof fn lemma_display_erased_sound(s: ScreenView, mode: u16)
    requires
        s.wf(),
        sound(s),
    ensures
        sound(s.display_erased(mode)),
{
    let y = s.grid.cursor_y;
    lemma_erased_whole(s);
    let (right, left) = (s.with_line(s.erased_right()), s.with_line(s.erased_left()));
    lemma_with_line_sound(s, s.erased_right());
    lemma_with_line_sound(s, s.erased_left());
    laws::lemma_with_line(s, s.erased_right());
    laws::lemma_with_line(s, s.erased_left());
    lemma_rows_erased_sound(right, y + 1, s.grid.rows);
    lemma_rows_erased_sound(left, 0, y);
    lemma_rows_erased_sound(s, 0, s.grid.rows);
}

proof fn lemma_line_erased_sound(s: ScreenView, mode: u16)
    requires
        s.wf(),
        sound(s),
    ensures
        sound(s.line_erased(mode)),
{
    lemma_erased_whole(s);
    lemma_fill_row_whole(s);
    lemma_with_line_sound(s, s.erased_right());
    lemma_with_line_sound(s, s.erased_left());
    lemma_with_line_sound(s, s.fill_row());
}

proof fn lemma_cells_erased_sound(s: ScreenView, n: int)
    requires
        s.wf(),
        sound(s),
        0 < n,
    ensures
        sound(s.cells_erased(n)),
{
    let x = s.grid.cursor_x;
    let end = model::min(x + n, s.grid.cols);
    let st = Style { bg: s.style.bg, ..super::style::plain() };
    lemma_line_whole(s);
    lemma_unpaired_whole(s.line(), x, st);
    let first = cell::unpaired(s.line(), x, s.fill());
    let both = if end < s.grid.cols {
        cell::unpaired(first, end, s.fill())
    } else {
        first
    };
    if end < s.grid.cols {
        lemma_unpaired_whole(first, end, st);
    }
    assert(both[x].width == 1);
    lemma_filled_whole(both, x, end, st);
    lemma_with_line_sound(s, cell::filled(both, x, end, s.fill()));
}

proof fn lemma_cells_deleted_sound(s: ScreenView, n: int)
    requires
        s.wf(),
        sound(s),
        0 < n,
    ensures
        sound(s.cells_deleted(n)),
{
    let x = s.grid.cursor_x;
    let k = model::min(n, s.grid.cols - x);
    let st = Style { bg: s.style.bg, ..super::style::plain() };
    lemma_line_whole(s);
    lemma_unpaired_whole(s.line(), x, st);
    let r = cell::unpaired(s.line(), x, s.fill());
    lemma_deleted_whole(r, x, k, st);
    let row = cell::cells_deleted(r, x, k, s.fill());
    lemma_with_line_sound(
        s,
        if row[x].width == 0 {
            row.update(x, s.fill())
        } else {
            row
        },
    );
}

proof fn lemma_cells_inserted_sound(s: ScreenView, n: int)
    requires
        s.wf(),
        sound(s),
        0 < n,
    ensures
        sound(s.cells_inserted(n)),
{
    let x = s.grid.cursor_x;
    let last = s.grid.cols - 1;
    let k = model::min(n, s.grid.cols - x);
    let st = Style { bg: s.style.bg, ..super::style::plain() };
    lemma_line_whole(s);
    lemma_unpaired_whole(s.line(), x, st);
    let r = cell::unpaired(s.line(), x, s.fill());
    lemma_inserted_whole(r, x, k, st);
    let row = cell::cells_inserted(r, x, k, s.fill());
    lemma_with_line_sound(
        s,
        if row[last].width == 2 {
            row.update(last, s.fill())
        } else {
            row
        },
    );
}

proof fn lemma_lines_edited_sound(s: ScreenView, n: int)
    requires
        s.wf(),
        sound(s),
        0 < n,
    ensures
        sound(s.lines_deleted(n)),
        sound(s.lines_inserted(n)),
{
    lemma_fill_row_whole(s);
    let cols = s.grid.cols;
    let (y, bottom) = (s.grid.cursor_y, s.grid.scroll_bottom);
    if s.in_region() {
        let k = model::min(n, bottom - y + 1);
        let cells = s.grid.cells;
        let d = grid::rows_deleted(cells, y, k, bottom, s.fill_row());
        let i = grid::rows_inserted(cells, y, k, bottom, s.fill_row());
        assert forall|r: int| 0 <= r < d.len() implies whole(#[trigger] d[r]) && d[r].len()
            <= cols by {
            if r < y {
                assert(d[r] == cells[r]);
            } else if r < bottom + 1 - k {
                assert(d[r] == cells[r + k]);
            } else if r > bottom {
                assert(d[r] == cells[r]);
            }
        }
        assert forall|r: int| 0 <= r < i.len() implies whole(#[trigger] i[r]) && i[r].len()
            <= cols by {
            if r < y {
                assert(i[r] == cells[r]);
            } else if y + k <= r <= bottom {
                assert(i[r] == cells[r - k]);
            } else if r > bottom {
                assert(i[r] == cells[r]);
            }
        }
    }
}

#[verifier::rlimit(50)]
proof fn lemma_edited_sound(s: ScreenView, params: Seq<Seq<u16>>, action: char)
    requires
        s.wf(),
        sound(s),
        ScreenView::is_edit(action),
        action == 'b' ==> prints_whole(s, s.last_printed_char),
    ensures
        sound(s.csi_edited(params, action)),
{
    let n = model::param(params, 0, 1) as int;
    if action == 'J' {
        lemma_display_erased_sound(s, model::param(params, 0, 0));
    } else if action == 'K' {
        lemma_line_erased_sound(s, model::param(params, 0, 0));
    } else if action == 'X' {
        lemma_cells_erased_sound(s, n);
    } else if action == 'P' {
        lemma_cells_deleted_sound(s, n);
    } else if action == '@' {
        lemma_cells_inserted_sound(s, n);
    } else if action == 'M' || action == 'L' {
        lemma_lines_edited_sound(s, n);
    } else if action == 'S' {
        lemma_scrolled_up_by_sound(s, model::min(n, s.grid.rows));
    } else {
        lemma_times_sound(s, s.last_printed_char, n);
    }
}

proof fn lemma_blank_rows_sound(s: ScreenView)
    requires
        s.wf(),
    ensures
        sound_rows(
            grid::rows_filled(
                s.grid.cells,
                0,
                s.grid.rows,
                cell::uniform_row(cell::blank(), s.grid.cols),
            ),
            s.grid.cols,
        ),
{
    lemma_blank_whole(super::style::plain(), s.grid.cols);
}

proof fn lemma_fitted_sound(cells: Seq<Seq<CellView>>, from: int, cols: int, rows: int)
    requires
        sound_rows(cells, from),
        0 <= from <= cols,
    ensures
        sound_rows(cell::fitted(cells, cols, rows), cols),
{
    let r = cell::fitted(cells, cols, rows);
    lemma_blank_whole(super::style::plain(), cols);
    assert forall|y: int| 0 <= y < r.len() implies whole(#[trigger] r[y]) && r[y].len()
        <= cols by {
        if y < cells.len() {
            assert(whole(cells[y]) && cells[y].len() <= from);
            lemma_fitted_whole(cells[y], cols);
        }
    }
}

proof fn lemma_restored_sound(s: ScreenView)
    requires
        sound(s),
    ensures
        sound(s.cursor_saved()),
        sound(s.cursor_restored()),
{
}

proof fn lemma_mode_sound(s: ScreenView, mode: u16, on: bool)
    requires
        s.wf(),
        sound(s),
    ensures
        sound(s.mode_set(mode, on)),
{
    lemma_restored_sound(s);
    if mode == 1049 || mode == 1047 || mode == 47 {
        if on {
            lemma_blank_rows_sound(s);
        } else {
            if s.saved_grid is Some {
                lemma_fitted_sound(s.saved_grid->0, s.grid.cols, s.grid.cols, s.grid.rows);
            }
        }
    }
}

proof fn lemma_modes_sound(s: ScreenView, params: Seq<Seq<u16>>, on: bool)
    requires
        s.wf(),
        sound(s),
    ensures
        sound(s.modes_set(params, on)),
    decreases params.len(),
{
    if params.len() > 0 {
        let before = s.modes_set(params.drop_last(), on);
        lemma_modes_sound(s, params.drop_last(), on);
        laws::lemma_modes_set(s, params.drop_last(), on);
        if params.last().len() > 0 {
            lemma_mode_sound(before, params.last()[0], on);
        }
    }
}

proof fn lemma_moved_sound(s: ScreenView, params: Seq<Seq<u16>>, action: char)
    requires
        sound(s),
    ensures
        sound(s.csi_moved(params, action)),
{
}

#[verifier::rlimit(50)]
proof fn lemma_csi_sound(
    s: ScreenView,
    params: Seq<Seq<u16>>,
    intermediates: Seq<u8>,
    action: char,
)
    requires
        s.wf(),
        sound(s),
        action == 'b' ==> prints_whole(s, s.last_printed_char),
    ensures
        sound(s.csi(params, intermediates, action)),
{
    if ScreenView::is_movement(action) {
        lemma_moved_sound(s, params, action);
    } else if ScreenView::is_edit(action) {
        lemma_edited_sound(s, params, action);
    } else {
        lemma_restored_sound(s);
        lemma_scrolled_down_by_sound(
            s,
            model::min(model::param(params, 0, 1) as int, s.grid.rows),
        );
        lemma_modes_sound(s, params, action == 'h');
    }
}

proof fn lemma_executed_sound(s: ScreenView, byte: u8)
    requires
        s.wf(),
        sound(s),
    ensures
        sound(s.executed(byte)),
{
    let flat = s.with_grid(GridView { wrap_pending: false, ..s.grid });
    lemma_next_line_sound(flat);
}

#[verifier::rlimit(50)]
proof fn lemma_esc_sound(s: ScreenView, intermediates: Seq<u8>, byte: u8)
    requires
        s.wf(),
        sound(s),
    ensures
        sound(s.esc(intermediates, byte)),
{
    lemma_scrolled_down_sound(s);
    lemma_restored_sound(s);
    lemma_blank_rows_sound(s);
}

/// Whether an event prints only characters that can be printed whole, if any.
pub open spec fn prints_only_whole(s: ScreenView, event: EventView) -> bool {
    match event {
        EventView::Print(c) => prints_whole(s, c),
        EventView::Csi { params, intermediates, action } => action == 'b' ==> prints_whole(
            s,
            s.last_printed_char,
        ),
        _ => true,
    }
}

/// Every control function keeps the rows of a terminal such as printing leaves them:
/// printing, cursor movement, styles, erasing, inserting, deleting, scrolling,
/// switching screens and all others. No half of a wide character comes to stand alone,
/// but for what is printed cut at the right margin.
#[verifier::rlimit(50)]
pub proof fn law_event_keeps_rows_whole(s: ScreenView, event: EventView)
    requires
        s.wf(),
        sound(s),
        prints_only_whole(s, event),
    ensures
        sound(s.performed(event)),
{
    reveal(ScreenView::performed);
    match event {
        EventView::Print(c) => lemma_printed_sound(s, c),
        EventView::Execute(byte) => lemma_executed_sound(s, byte),
        EventView::Csi { params, intermediates, action } => lemma_csi_sound(
            s,
            params,
            intermediates,
            action,
        ),
        EventView::Esc { intermediates, byte } => lemma_esc_sound(s, intermediates, byte),
        EventView::Osc { fields } => {},
    }
}

/// The same holds of any list of events.
pub proof fn law_events_keep_rows_whole(s: ScreenView, events: Seq<EventView>)
    requires
        s.wf(),
        sound(s),
        forall|i: int|
            0 <= i < events.len() ==> prints_only_whole(
                s.performed_all(events.take(i)),
                #[trigger] events[i],
            ),
    ensures
        sound(s.performed_all(events)),
    decreases events.len(),
{
    if events.len() > 0 {
        let before = events.drop_last();
        assert forall|i: int| 0 <= i < before.len() implies prints_only_whole(
            s.performed_all(before.take(i)),
            #[trigger] before[i],
        ) by {
            assert(before.take(i) =~= events.take(i));
            assert(before[i] == events[i]);
        }
        law_events_keep_rows_whole(s, before);
        laws::law_events_are_steady(s, before);
        assert(events.take(events.len() - 1) =~= before);
        assert(events.last() == events[events.len() - 1]);
        law_event_keeps_rows_whole(s.performed_all(before), events.last());
    }
}

/// A fresh terminal holds such rows.
pub proof fn law_fresh_rows_are_whole(cols: int, rows: int, limit: int)
    ensures
        sound(fresh(cols, rows, limit)),
{
    let s = fresh(cols, rows, limit);
    lemma_blank_whole(super::style::plain(), s.grid.cols);
}

/// So does one that is resized to at least its width; a narrower one may cut wide
/// characters at its margin.
pub proof fn law_resize_keeps_rows_whole(s: ScreenView, cols: int, rows: int)
    requires
        s.wf(),
        sound(s),
        s.grid.cols <= cols,
    ensures
        sound(screen_resized(s, cols, rows)),
{
    let t = screen_resized(s, cols, rows);
    let n = super::restored_count(s, rows);
    let kept = s.scrollback.len() - n;
    let all = s.scrollback.skip(kept) + s.grid.cells;
    assert forall|i: int| 0 <= i < all.len() implies whole(#[trigger] all[i]) && all[i].len()
        <= s.grid.cols by {
        if i < n {
            assert(all[i] == s.scrollback[kept + i]);
        } else {
            assert(all[i] == s.grid.cells[i - n]);
        }
    }
    lemma_fitted_sound(all, s.grid.cols, cols, grid::at_least_one(rows));
    assert forall|i: int| 0 <= i < t.scrollback.len() implies whole(#[trigger] t.scrollback[i])
        && t.scrollback[i].len() <= cols by {
        assert(t.scrollback[i] == s.scrollback[i]);
    }
}

proof fn lemma_whole_is_printed(row: Seq<CellView>)
    requires
        whole(row),
    ensures
        restore::printed_row(row),
        restore::paired_from(row, 0),
{
    restore::lemma_written_len(row);
    assert forall|x: int| 0 <= x < row.len() implies restore::printed_cell(row, x)
        && #[trigger] restore::paired_at(row, 0, x) by {
        lemma_whole_at(row, x);
        lemma_cut_behind(row, x);
    }
    assert forall|x: int| 0 <= x < render::written_len(row) implies
        #[trigger] restore::printed_cell(row, x) by {
        lemma_whole_at(row, x);
    }
}

/// Such a terminal meets what the laws on frames and scrollback ask of it: its rows can
/// be drawn, its history and the lines that wait fit, and no half of a wide character
/// stands alone.
pub proof fn law_whole_rows_can_be_sent(s: ScreenView)
    requires
        s.wf(),
        sound(s),
    ensures
        forall|y: int| 0 <= y < s.grid.rows ==> restore::printed_row(#[trigger] s.grid.cells[y]),
        forall|i: int|
            0 <= i < s.scrollback.len() ==> scrollback::fits(
                #[trigger] s.scrollback[i],
                s.grid.cols,
            ),
        forall|i: int|
            0 <= i < s.pending_scrollback.len() ==> scrollback::fits(
                #[trigger] s.pending_scrollback[i],
                s.grid.cols,
            ),
        scrollback::paired(s),
{
    assert forall|y: int| 0 <= y < s.grid.rows implies restore::printed_row(
        #[trigger] s.grid.cells[y],
    ) && restore::paired_from(s.grid.cells[y], 0) by {
        lemma_whole_is_printed(s.grid.cells[y]);
    }
    assert forall|i: int| 0 <= i < s.scrollback.len() implies scrollback::fits(
        #[trigger] s.scrollback[i],
        s.grid.cols,
    ) by {
        lemma_line_fits(s.scrollback[i], s.grid.cols);
    }
    assert forall|i: int| 0 <= i < s.pending_scrollback.len() implies scrollback::fits(
        #[trigger] s.pending_scrollback[i],
        s.grid.cols,
    ) by {
        lemma_line_fits(s.pending_scrollback[i], s.grid.cols);
    }
}

proof fn lemma_line_fits(row: Seq<CellView>, cols: int)
    requires
        whole(row),
        row.len() <= cols,
    ensures
        scrollback::fits(row, cols),
{
    restore::lemma_written_len(row);
    lemma_fitted_whole(row, cols);
    lemma_whole_is_printed(cell::fitted_row(row, cols));
}

} // verus!
