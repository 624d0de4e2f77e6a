//! How lines reach the scrollback of the terminal that a client runs in.

use vstd::prelude::*;
use vstd::string::*;
use vstd::utf8::*;

use crate::bytes;

use super::cell;
use super::cell::CellView;
use super::grid;
use super::grid::{Charset, GridView};
use super::model;
use super::model::{EventView, ScreenView};
use super::render;
use super::replay;
use super::restore;
use super::style;
use super::{history_bytes, law_events_in_parts};

verus! {

// Lines

/// A line of the history, read as events.
pub open spec fn line_events(row: Seq<CellView>) -> Seq<EventView> {
    let (events, current) = replay::cells_events(render::written(row));
    if current != style::plain() {
        events + seq![replay::control(seq![seq![0u16]], 'm')]
    } else {
        events
    }
}

/// Whether the right margin leaves room for a line, and its cells are what printing
/// them leaves.
pub open spec fn fits(row: Seq<CellView>, cols: int) -> bool {
    &&& render::written_len(row) <= cols
    &&& restore::printed_row(cell::fitted_row(row, cols))
}

/// The row that drawing a line leaves on a terminal of `cols` columns.
pub open spec fn drawn_line(row: Seq<CellView>, cols: int) -> Seq<CellView> {
    restore::drawn(cell::fitted_row(row, cols))
}

/// The rows that drawing lines leaves.
pub open spec fn drawn_lines(lines: Seq<Seq<CellView>>, cols: int) -> Seq<Seq<CellView>> {
    Seq::new(lines.len(), |i: int| drawn_line(lines[i], cols))
}

proof fn lemma_written_end(row: Seq<CellView>)
    ensures
        render::written_len(row) <= row.len(),
        render::written_len(row) > 0 ==> render::shows(row[render::written_len(row) - 1]),
        forall|x: int|
            render::written_len(row) <= x < row.len() ==> !render::shows(#[trigger] row[x]),
    decreases row.len(),
{
    if row.len() > 0 && !render::shows(row.last()) {
        let before = row.drop_last();
        lemma_written_end(before);
        assert forall|x: int| render::written_len(row) <= x < row.len() implies !render::shows(
            #[trigger] row[x],
        ) by {
            if x < before.len() {
                assert(before[x] == row[x]);
            }
        }
    }
}

proof fn lemma_written_is(row: Seq<CellView>, n: nat)
    requires
        n <= row.len(),
        n > 0 ==> render::shows(row[n - 1]),
        forall|x: int| n <= x < row.len() ==> !render::shows(#[trigger] row[x]),
    ensures
        render::written_len(row) == n,
    decreases row.len(),
{
    if row.len() > n {
        let before = row.drop_last();
        assert(!render::shows(row[row.len() - 1]));
        assert forall|x: int| n <= x < before.len() implies !render::shows(#[trigger] before[x]) by {
            assert(before[x] == row[x]);
        }
        lemma_written_is(before, n);
    }
}

/// A line is drawn in the same way as the row of the terminal's width that shows the
/// same.
proof fn lemma_fitted_line(row: Seq<CellView>, cols: int)
    requires
        render::written_len(row) <= cols,
    ensures
        render::written(cell::fitted_row(row, cols)) == render::written(row),
        render::written_len(cell::fitted_row(row, cols)) == render::written_len(row),
{
    lemma_written_end(row);
    let n = render::written_len(row);
    let fitted = cell::fitted_row(row, cols);
    assert forall|x: int| n <= x < fitted.len() implies !render::shows(#[trigger] fitted[x]) by {
        if x < row.len() {
            assert(fitted[x] == row[x]);
        }
    }
    lemma_written_is(fitted, n);
    assert(render::written(fitted) =~= render::written(row));
}

/// A line printed on the row of the cursor, from its start, in the reset style.
proof fn lemma_line(s: ScreenView, t: ScreenView, y: int, line: Seq<CellView>)
    requires
        restore::ready(s, y, cell::fitted_row(line, s.grid.cols)),
        fits(line, s.grid.cols),
        restore::at(s, t, y, cell::fitted_row(line, s.grid.cols), 0),
        t.style == style::plain(),
    ensures
        ({
            let row = cell::fitted_row(line, s.grid.cols);
            let u = t.performed_all(line_events(line));
            &&& restore::at(s, u, y, row, restore::behind(row, render::written_len(row) as int))
            &&& u.style == style::plain()
        }),
{
    let row = cell::fitted_row(line, s.grid.cols);
    let n = render::written_len(row) as int;
    lemma_fitted_line(line, s.grid.cols);
    restore::lemma_written_len(row);
    let (events, current) = replay::cells_events(render::written(line));
    let reset = replay::control(seq![seq![0u16]], 'm');
    restore::lemma_cells(s, t, y, row, n);
    law_events_in_parts(t, events, seq![reset]);
    let u = t.performed_all(events);
    restore::lemma_one(u, reset);
    restore::lemma_style_reset(u);
}

// A screenful of lines

/// A line drawn over the row `y`.
pub open spec fn over_one(y: int, line: Seq<CellView>) -> Seq<EventView> {
    seq![replay::cursor_event(0, y), replay::control(seq![seq![0u16]], 'm')] + line_events(line)
        + seq![replay::control(seq![], 'K')]
}

/// Lines drawn over the rows from the top of the screen.
pub open spec fn over_events(lines: Seq<Seq<CellView>>) -> Seq<EventView>
    decreases lines.len(),
{
    if lines.len() == 0 {
        seq![]
    } else {
        over_events(lines.drop_last()) + over_one(lines.len() - 1, lines.last())
    }
}

/// The rows `from..to` erased.
pub open spec fn cleared_events(from: int, to: int) -> Seq<EventView>
    decreases to - from,
{
    if to <= from {
        seq![]
    } else {
        cleared_events(from, to - 1) + seq![
            replay::cursor_event(0, to - 1),
            replay::control(seq![seq![2u16]], 'K'),
        ]
    }
}

/// Line feeds.
pub open spec fn feed_events(n: int) -> Seq<EventView>
    decreases n,
{
    if n <= 0 {
        seq![]
    } else {
        feed_events(n - 1).push(EventView::Execute(10))
    }
}

/// Whether lines can be drawn on a terminal as they are: it wraps lines, prints ASCII
/// as it is, and shows its main screen.
pub open spec fn native(s: ScreenView) -> bool {
    &&& s.wf()
    &&& s.grid.modes.autowrap_mode
    &&& model::active_set(s.grid.modes) == Charset::Ascii
    &&& !s.in_alt_screen
}

/// Whether no half of a wide character stands alone on a terminal.
pub open spec fn paired(s: ScreenView) -> bool {
    forall|y: int| 0 <= y < s.grid.rows ==> restore::paired_from(#[trigger] s.grid.cells[y], 0)
}

proof fn lemma_over_one(s: ScreenView, y: int, line: Seq<CellView>)
    requires
        native(s),
        0 <= y < s.grid.rows,
        fits(line, s.grid.cols),
        restore::paired_from(s.grid.cells[y], 0),
    ensures
        ({
            let t = s.performed_all(over_one(y, line));
            &&& restore::only_drawn(s, t)
            &&& t.grid.cells == s.grid.cells.update(y, drawn_line(line, s.grid.cols))
            &&& t.style == style::plain()
            &&& t.grid.wf()
        }),
{
    let row = cell::fitted_row(line, s.grid.cols);
    let (place, reset) = (
        replay::cursor_event(0, y),
        replay::control(seq![seq![0u16]], 'm'),
    );
    let erase = replay::control(seq![], 'K');
    law_events_in_parts(s, seq![place, reset] + line_events(line), seq![erase]);
    law_events_in_parts(s, seq![place, reset], line_events(line));
    restore::lemma_two(s, place, reset);
    restore::lemma_moved(s, 0, y);
    restore::lemma_style_reset(s.performed(place));
    let t = s.performed_all(seq![place, reset]);
    assert(s.grid.cells.update(y, s.grid.cells[y]) =~= s.grid.cells);
    assert(s.grid.cells[y].take(0) =~= row.take(0));
    lemma_line(s, t, y, line);
    let u = t.performed_all(line_events(line));
    restore::lemma_one(u, erase);
    restore::lemma_line_end_erased(u);
    restore::lemma_erased_behind(s, u, y, row);
    assert(u == (ScreenView { style: style::plain(), ..u }));
}

proof fn lemma_over(s: ScreenView, lines: Seq<Seq<CellView>>)
    requires
        native(s),
        paired(s),
        lines.len() <= s.grid.rows,
        forall|i: int| 0 <= i < lines.len() ==> fits(#[trigger] lines[i], s.grid.cols),
    ensures
        ({
            let t = s.performed_all(over_events(lines));
            &&& restore::only_drawn(s, t)
            &&& t.grid.cells == drawn_lines(lines, s.grid.cols) + s.grid.cells.skip(
                lines.len() as int,
            )
            &&& lines.len() > 0 ==> t.style == style::plain()
            &&& t.grid.wf()
        }),
    decreases lines.len(),
{
    let n = lines.len() as int;
    let cols = s.grid.cols;
    if n == 0 {
        assert(drawn_lines(lines, cols) + s.grid.cells.skip(0) =~= s.grid.cells);
    } else {
        let before = lines.drop_last();
        assert forall|i: int| 0 <= i < before.len() implies fits(#[trigger] before[i], cols) by {
            assert(before[i] == lines[i]);
        }
        lemma_over(s, before);
        let t = s.performed_all(over_events(before));
        law_events_in_parts(s, over_events(before), over_one(n - 1, lines.last()));
        assert(fits(lines[n - 1], cols));
        assert(t.grid.cells[n - 1] == s.grid.cells[n - 1]);
        lemma_over_one(t, n - 1, lines.last());
        assert(t.grid.cells.update(n - 1, drawn_line(lines.last(), cols)) =~= drawn_lines(
            lines,
            cols,
        ) + s.grid.cells.skip(n));
    }
}

/// A screen of blank rows.
pub open spec fn blank_rows(cols: int, rows: int) -> Seq<Seq<CellView>> {
    Seq::new(rows as nat, |y: int| cell::uniform_row(cell::blank(), cols))
}

proof fn lemma_row_erased(t: ScreenView)
    ensures
        t.performed(replay::control(seq![seq![2u16]], 'K')) == t.with_line(t.fill_row()),
{
    reveal(ScreenView::performed);
}

proof fn lemma_cleared(s: ScreenView, from: int, to: int)
    requires
        s.wf(),
        0 <= from <= to <= s.grid.rows,
        s.style == style::plain(),
    ensures
        ({
            let t = s.performed_all(cleared_events(from, to));
            &&& restore::only_drawn(s, t)
            &&& t.grid.cells == s.grid.cells.take(from) + blank_rows(s.grid.cols, to - from)
                + s.grid.cells.skip(to)
            &&& t.style == style::plain()
            &&& t.grid.wf()
        }),
    decreases to - from,
{
    let cols = s.grid.cols;
    if to <= from {
        assert(s.grid.cells.take(from) + blank_rows(cols, 0) + s.grid.cells.skip(to)
            =~= s.grid.cells);
    } else {
        lemma_cleared(s, from, to - 1);
        let t = s.performed_all(cleared_events(from, to - 1));
        let (place, erase) = (
            replay::cursor_event(0, to - 1),
            replay::control(seq![seq![2u16]], 'K'),
        );
        law_events_in_parts(s, cleared_events(from, to - 1), seq![place, erase]);
        restore::lemma_two(t, place, erase);
        restore::lemma_moved(t, 0, to - 1);
        lemma_row_erased(t.moved(0, to - 1));
        assert(t.moved(0, to - 1).fill() == cell::blank());
        assert(t.grid.cells.update(to - 1, cell::uniform_row(cell::blank(), cols))
            =~= s.grid.cells.take(from) + blank_rows(cols, to - from) + s.grid.cells.skip(to));
    }
}

/// A bounded history after more rows.
pub open spec fn remembered_all(
    history: Seq<Seq<CellView>>,
    limit: int,
    rows: Seq<Seq<CellView>>,
) -> Seq<Seq<CellView>>
    decreases rows.len(),
{
    if rows.len() == 0 {
        history
    } else {
        grid::remembered(remembered_all(history, limit, rows.drop_last()), limit, rows.last())
    }
}

/// The terminal after `n` rows scrolled off the top of its screen.
pub open spec fn scrolled_off(s: ScreenView, n: int) -> ScreenView {
    ScreenView {
        grid: s.grid.with_cells(s.grid.cells.skip(n) + blank_rows(s.grid.cols, n)),
        scrollback: remembered_all(s.scrollback, s.scrollback_limit, s.grid.cells.take(n)),
        pending_scrollback: remembered_all(
            s.pending_scrollback,
            s.scrollback_limit,
            s.grid.cells.take(n),
        ),
        ..s
    }
}

/// Whether a line feed scrolls the whole screen.
spec fn at_bottom(s: ScreenView) -> bool {
    &&& s.wf()
    &&& !s.in_alt_screen
    &&& s.style == style::plain()
    &&& s.grid.scroll_top == 0
    &&& s.grid.scroll_bottom == s.grid.rows - 1
    &&& s.grid.cursor_y == s.grid.rows - 1
    &&& !s.grid.wrap_pending
}

proof fn lemma_feed(t: ScreenView)
    requires
        at_bottom(t),
    ensures
        t.performed(EventView::Execute(10)) == t.scrolled_up(),
{
    reveal(ScreenView::performed);
}

proof fn lemma_feeds(s: ScreenView, n: int)
    requires
        at_bottom(s),
        0 <= n <= s.grid.rows,
    ensures
        s.performed_all(feed_events(n)) == scrolled_off(s, n),
        at_bottom(scrolled_off(s, n)),
    decreases n,
{
    let (cells, cols) = (s.grid.cells, s.grid.cols);
    if n == 0 {
        assert(cells.skip(0) + blank_rows(cols, 0) =~= cells);
        assert(cells.take(0) =~= seq![]);
    } else {
        lemma_feeds(s, n - 1);
        let t = scrolled_off(s, n - 1);
        lemma_feed(t);
        assert(feed_events(n).drop_last() =~= feed_events(n - 1));
        assert(t.fill() == cell::blank());
        assert(t.grid.cells[0] == cells[n - 1]);
        assert(cells.take(n).drop_last() =~= cells.take(n - 1));
        assert(cells.take(n).last() == cells[n - 1]);
        assert(t.scrolled_up().grid.cells =~= cells.skip(n) + blank_rows(cols, n));
    }
}

/// At most a screenful of lines drawn and scrolled off the top of the screen.
pub open spec fn chunk_events(lines: Seq<Seq<CellView>>, rows: int) -> Seq<EventView> {
    over_events(lines) + cleared_events(lines.len() as int, rows) + seq![
        replay::cursor_event(0, rows - 1),
    ] + feed_events(lines.len() as int)
}

/// Lines drawn and scrolled off, one screenful after the other.
pub open spec fn chunks_events(lines: Seq<Seq<CellView>>, rows: int) -> Seq<EventView>
    decreases lines.len(),
{
    if lines.len() == 0 || rows <= 0 {
        seq![]
    } else if lines.len() <= rows {
        chunk_events(lines, rows)
    } else {
        chunk_events(lines.take(rows), rows) + chunks_events(lines.skip(rows), rows)
    }
}

/// Lines put into the scrollback of a terminal, read as events.
pub open spec fn scrollback_events(lines: Seq<Seq<CellView>>, rows: int) -> Seq<EventView> {
    if lines.len() == 0 {
        seq![]
    } else {
        seq![replay::dec_event(25, false), replay::control(seq![], 'r')] + chunks_events(
            lines,
            rows,
        )
    }
}

/// Whether `t` is `s` with `rows` added to its history and a blank screen.
pub open spec fn taken_in(s: ScreenView, t: ScreenView, rows: Seq<Seq<CellView>>) -> bool {
    t == ScreenView {
        grid: GridView {
            cells: blank_rows(s.grid.cols, s.grid.rows),
            cursor_x: 0,
            cursor_y: s.grid.rows - 1,
            wrap_pending: false,
            ..s.grid
        },
        style: style::plain(),
        last_printed_char: t.last_printed_char,
        scrollback: remembered_all(s.scrollback, s.scrollback_limit, rows),
        pending_scrollback: remembered_all(s.pending_scrollback, s.scrollback_limit, rows),
        ..s
    }
}

proof fn lemma_chunk(s: ScreenView, lines: Seq<Seq<CellView>>)
    requires
        native(s),
        paired(s),
        s.grid.scroll_top == 0,
        s.grid.scroll_bottom == s.grid.rows - 1,
        0 < lines.len() <= s.grid.rows,
        forall|i: int| 0 <= i < lines.len() ==> fits(#[trigger] lines[i], s.grid.cols),
    ensures
        taken_in(
            s,
            s.performed_all(chunk_events(lines, s.grid.rows)),
            drawn_lines(lines, s.grid.cols),
        ),
{
    let (n, cols, rows) = (lines.len() as int, s.grid.cols, s.grid.rows);
    let (a, b) = (over_events(lines), cleared_events(n, rows));
    let c = replay::cursor_event(0, rows - 1);
    law_events_in_parts(s, a + b + seq![c], feed_events(n));
    law_events_in_parts(s, a + b, seq![c]);
    law_events_in_parts(s, a, b);
    lemma_over(s, lines);
    let t = s.performed_all(a);
    lemma_cleared(t, n, rows);
    let u = t.performed_all(b);
    restore::lemma_one(u, c);
    restore::lemma_moved(u, 0, rows - 1);
    let v = u.moved(0, rows - 1);
    lemma_feeds(v, n);
    assert(v.grid.cells.take(n) =~= drawn_lines(lines, cols));
    assert(v.grid.cells.skip(n) + blank_rows(cols, n) =~= blank_rows(cols, rows));
}

proof fn lemma_remembered_append(
    history: Seq<Seq<CellView>>,
    limit: int,
    a: Seq<Seq<CellView>>,
    b: Seq<Seq<CellView>>,
)
    ensures
        remembered_all(remembered_all(history, limit, a), limit, b) == remembered_all(
            history,
            limit,
            a + b,
        ),
    decreases b.len(),
{
    if b.len() == 0 {
        assert(a + b =~= a);
    } else {
        lemma_remembered_append(history, limit, a, b.drop_last());
        assert((a + b).drop_last() =~= a + b.drop_last());
    }
}

proof fn lemma_blank_is_paired(s: ScreenView)
    requires
        s.wf(),
        s.grid.cells == blank_rows(s.grid.cols, s.grid.rows),
    ensures
        paired(s),
{
    restore::lemma_blank_paired(s.grid.cols);
}

proof fn lemma_chunks(s: ScreenView, lines: Seq<Seq<CellView>>)
    requires
        native(s),
        paired(s),
        s.grid.scroll_top == 0,
        s.grid.scroll_bottom == s.grid.rows - 1,
        0 < lines.len(),
        forall|i: int| 0 <= i < lines.len() ==> fits(#[trigger] lines[i], s.grid.cols),
    ensures
        taken_in(
            s,
            s.performed_all(chunks_events(lines, s.grid.rows)),
            drawn_lines(lines, s.grid.cols),
        ),
    decreases lines.len(),
{
    let (cols, rows) = (s.grid.cols, s.grid.rows);
    if lines.len() <= rows {
        lemma_chunk(s, lines);
    } else {
        let (first, rest) = (lines.take(rows), lines.skip(rows));
        assert forall|i: int| 0 <= i < first.len() implies fits(#[trigger] first[i], cols) by {
            assert(first[i] == lines[i]);
        }
        assert forall|i: int| 0 <= i < rest.len() implies fits(#[trigger] rest[i], cols) by {
            assert(rest[i] == lines[i + rows]);
        }
        lemma_chunk(s, first);
        law_events_in_parts(s, chunk_events(first, rows), chunks_events(rest, rows));
        let t = s.performed_all(chunk_events(first, rows));
        lemma_blank_is_paired(t);
        lemma_chunks(t, rest);
        assert(drawn_lines(first, cols) + drawn_lines(rest, cols) =~= drawn_lines(lines, cols));
        lemma_remembered_append(
            s.scrollback,
            s.scrollback_limit,
            drawn_lines(first, cols),
            drawn_lines(rest, cols),
        );
        lemma_remembered_append(
            s.pending_scrollback,
            s.scrollback_limit,
            drawn_lines(first, cols),
            drawn_lines(rest, cols),
        );
    }
}

proof fn lemma_whole_region(t: ScreenView)
    requires
        t.wf(),
    ensures
        t.performed(replay::control(seq![], 'r')) == t.moved(0, 0).with_grid(
            GridView {
                scroll_top: 0,
                scroll_bottom: t.grid.rows - 1,
                ..t.moved(0, 0).grid
            },
        ),
{
    reveal(ScreenView::performed);
}

/// Lines that are sent for it reach the scrollback of a terminal: all of them, in
/// order, as they are drawn, and nothing else. The screen is blank then, to be drawn
/// anew.
pub proof fn law_lines_reach_scrollback(s: ScreenView, lines: Seq<Seq<CellView>>)
    requires
        native(s),
        paired(s),
        lines.len() > 0,
        forall|i: int| 0 <= i < lines.len() ==> fits(#[trigger] lines[i], s.grid.cols),
    ensures
        ({
            let t = s.performed_all(scrollback_events(lines, s.grid.rows));
            let rows = drawn_lines(lines, s.grid.cols);
            t == ScreenView {
                grid: GridView {
                    cells: blank_rows(s.grid.cols, s.grid.rows),
                    cursor_x: 0,
                    cursor_y: s.grid.rows - 1,
                    cursor_visible: false,
                    wrap_pending: false,
                    scroll_top: 0,
                    scroll_bottom: s.grid.rows - 1,
                    ..s.grid
                },
                style: style::plain(),
                last_printed_char: t.last_printed_char,
                scrollback: remembered_all(s.scrollback, s.scrollback_limit, rows),
                pending_scrollback: remembered_all(s.pending_scrollback, s.scrollback_limit, rows),
                ..s
            }
        }),
{
    let (hide, whole) = (replay::dec_event(25, false), replay::control(seq![], 'r'));
    law_events_in_parts(s, seq![hide, whole], chunks_events(lines, s.grid.rows));
    restore::lemma_two(s, hide, whole);
    restore::lemma_mode(s, 25, false);
    lemma_whole_region(s.performed(hide));
    lemma_chunks(s.performed_all(seq![hide, whole]), lines);
}

/// A history that has room for all of them holds the rows that came, behind those it
/// had.
pub proof fn law_roomy_history_keeps_all(
    history: Seq<Seq<CellView>>,
    limit: int,
    rows: Seq<Seq<CellView>>,
)
    requires
        history.len() + rows.len() <= limit,
    ensures
        remembered_all(history, limit, rows) == history + rows,
    decreases rows.len(),
{
    if rows.len() == 0 {
        assert(history + rows =~= history);
    } else {
        law_roomy_history_keeps_all(history, limit, rows.drop_last());
        assert((history + rows.drop_last()).push(rows.last()) =~= history + rows);
    }
}

// A history written line by line

/// The row that writing a line on a blank row leaves.
pub open spec fn shown_line(row: Seq<CellView>, cols: int) -> Seq<CellView> {
    let fitted = cell::fitted_row(row, cols);
    restore::partial(fitted, restore::behind(fitted, render::written_len(fitted) as int))
}

/// The rows that writing lines on blank rows leaves.
pub open spec fn shown_lines(lines: Seq<Seq<CellView>>, cols: int) -> Seq<Seq<CellView>> {
    Seq::new(lines.len(), |i: int| shown_line(lines[i], cols))
}

/// Lines written one below the other.
pub open spec fn written_events(lines: Seq<Seq<CellView>>) -> Seq<EventView>
    decreases lines.len(),
{
    if lines.len() == 0 {
        seq![]
    } else {
        written_events(lines.drop_last()) + (line_events(lines.last()) + seq![
            EventView::Execute(13),
            EventView::Execute(10),
        ])
    }
}

/// What is left of a history on the screen moved off its top.
pub open spec fn flush_events(rows: int) -> Seq<EventView> {
    seq![replay::cursor_event(0, rows - 1)] + feed_events(rows - 1)
}

/// The number of rows that left a screen of `rows` rows when `n` lines were written
/// from its top.
pub open spec fn rows_off(n: int, rows: int) -> int {
    model::max(n - (rows - 1), 0)
}

/// A terminal that writes from the top of a blank screen.
pub open spec fn at_top(s: ScreenView) -> bool {
    &&& native(s)
    &&& s.grid.cells == blank_rows(s.grid.cols, s.grid.rows)
    &&& s.grid.cursor_x == 0
    &&& s.grid.cursor_y == 0
    &&& !s.grid.wrap_pending
    &&& s.grid.scroll_top == 0
    &&& s.grid.scroll_bottom == s.grid.rows - 1
    &&& s.style == style::plain()
}

/// Whether `t` is `s` with `all` written from the top of its screen: the last rows
/// are on the screen, and those before them in the history.
spec fn written_from_top(s: ScreenView, t: ScreenView, all: Seq<Seq<CellView>>) -> bool {
    let rows = s.grid.rows;
    let off = rows_off(all.len() as int, rows);
    let on = all.len() - off;
    t == ScreenView {
        grid: GridView {
            cells: all.skip(off) + blank_rows(s.grid.cols, rows - on),
            cursor_y: on,
            ..s.grid
        },
        last_printed_char: t.last_printed_char,
        scrollback: remembered_all(s.scrollback, s.scrollback_limit, all.take(off)),
        pending_scrollback: remembered_all(
            s.pending_scrollback,
            s.scrollback_limit,
            all.take(off),
        ),
        ..s
    }
}

proof fn lemma_line_break(t: ScreenView)
    ensures
        t.performed(EventView::Execute(13)) == t.moved(0, t.grid.cursor_y),
        t.performed(EventView::Execute(10)) == t.fed(),
{
    reveal(ScreenView::performed);
}

proof fn lemma_behind(row: Seq<CellView>)
    requires
        restore::printed_row(row),
    ensures
        0 <= restore::behind(row, render::written_len(row) as int) <= row.len(),
{
    restore::lemma_written_len(row);
    if render::written_len(row) > 0 {
        assert(restore::printed_cell(row, render::written_len(row) - 1));
    }
}

/// One line written on the blank row of the cursor, with its line break.
proof fn lemma_written_one(t: ScreenView, line: Seq<CellView>)
    requires
        native(t),
        t.style == style::plain(),
        t.grid.cursor_x == 0,
        !t.grid.wrap_pending,
        t.line() == cell::uniform_row(cell::blank(), t.grid.cols),
        fits(line, t.grid.cols),
    ensures
        ({
            let u = t.performed_all(
                line_events(line) + seq![EventView::Execute(13), EventView::Execute(10)],
            );
            u == (ScreenView {
                last_printed_char: u.last_printed_char,
                ..t.with_line(shown_line(line, t.grid.cols)).next_line()
            })
        }),
{
    let (cols, y) = (t.grid.cols, t.grid.cursor_y);
    let row = cell::fitted_row(line, cols);
    let (cr, lf) = (EventView::Execute(13), EventView::Execute(10));
    law_events_in_parts(t, line_events(line), seq![cr, lf]);
    restore::lemma_blank_paired(cols);
    assert(t.grid.cells.update(y, t.grid.cells[y]) =~= t.grid.cells);
    assert(t.grid.cells[y].take(0) =~= row.take(0));
    lemma_line(t, t, y, line);
    let u = t.performed_all(line_events(line));
    let n = restore::behind(row, render::written_len(row) as int);
    lemma_behind(row);
    assert(restore::narrow(t.grid.cells[y]));
    let now = u.grid.cells[y];
    assert(now =~= now.take(n) + now.skip(n));
    assert(now.skip(n) =~= cell::uniform_row(cell::blank(), cols - n));
    assert(now =~= shown_line(line, cols));
    restore::lemma_two(u, cr, lf);
    lemma_line_break(u);
    lemma_line_break(u.performed(cr));
}

proof fn lemma_written_wf(s: ScreenView, t: ScreenView, lines: Seq<Seq<CellView>>)
    requires
        at_top(s),
        forall|i: int| 0 <= i < lines.len() ==> fits(#[trigger] lines[i], s.grid.cols),
        written_from_top(s, t, shown_lines(lines, s.grid.cols)),
    ensures
        t.grid.wf(),
{
    let cols = s.grid.cols;
    assert forall|i: int| 0 <= i < lines.len() implies (#[trigger] shown_lines(
        lines,
        cols,
    )[i]).len() == cols by {
        assert(fits(lines[i], cols));
        lemma_behind(cell::fitted_row(lines[i], cols));
    }
}

#[verifier::rlimit(50)]
proof fn lemma_written(s: ScreenView, lines: Seq<Seq<CellView>>)
    requires
        at_top(s),
        forall|i: int| 0 <= i < lines.len() ==> fits(#[trigger] lines[i], s.grid.cols),
    ensures
        written_from_top(
            s,
            s.performed_all(written_events(lines)),
            shown_lines(lines, s.grid.cols),
        ),
    decreases lines.len(),
{
    let (cols, rows, n) = (s.grid.cols, s.grid.rows, lines.len() as int);
    let all = shown_lines(lines, cols);
    if n == 0 {
        assert(all.skip(0) + blank_rows(cols, rows) =~= s.grid.cells);
        assert(all.take(0) =~= seq![]);
    } else {
        let before = lines.drop_last();
        let line = lines.last();
        assert forall|i: int| 0 <= i < before.len() implies fits(#[trigger] before[i], cols) by {
            assert(before[i] == lines[i]);
        }
        lemma_written(s, before);
        let events = line_events(line) + seq![EventView::Execute(13), EventView::Execute(10)];
        law_events_in_parts(s, written_events(before), events);
        let t = s.performed_all(written_events(before));
        let seen = shown_lines(before, cols);
        let off = rows_off(n - 1, rows);
        let on = n - 1 - off;
        assert(all.drop_last() =~= seen);
        assert(t.line() == cell::uniform_row(cell::blank(), cols));
        assert(fits(lines[n - 1], cols));
        lemma_written_wf(s, t, before);
        lemma_written_one(t, line);
        let u = t.with_line(shown_line(line, cols));
        assert(u.grid.cells =~= all.skip(off) + blank_rows(cols, rows - on - 1));
        if on < rows - 1 {
            assert(all.take(off) =~= seen.take(off));
        } else {
            assert(u.fill() == cell::blank());
            assert(u.scrolled_up().grid.cells =~= all.skip(off + 1) + blank_rows(cols, 1));
            assert(u.grid.cells[0] == all[off]);
            assert(all.take(off + 1).drop_last() =~= seen.take(off));
            assert(all.take(off + 1).last() == all[off]);
        }
    }
}

/// A history that is written to a fresh terminal line by line, and then moved off its
/// screen, is in the terminal's scrollback: all of its lines in order, and below
/// them the rows of the screen that they did not fill.
pub proof fn law_history_reaches_scrollback(s: ScreenView, lines: Seq<Seq<CellView>>)
    requires
        at_top(s),
        forall|i: int| 0 <= i < lines.len() ==> fits(#[trigger] lines[i], s.grid.cols),
    ensures
        ({
            let t = s.performed_all(written_events(lines) + flush_events(s.grid.rows));
            let rows = shown_lines(lines, s.grid.cols) + blank_rows(
                s.grid.cols,
                model::max(s.grid.rows - 1 - lines.len(), 0),
            );
            t == ScreenView {
                grid: GridView { cursor_y: s.grid.rows - 1, ..s.grid },
                last_printed_char: t.last_printed_char,
                scrollback: remembered_all(s.scrollback, s.scrollback_limit, rows),
                pending_scrollback: remembered_all(s.pending_scrollback, s.scrollback_limit, rows),
                ..s
            }
        }),
{
    let (cols, rows, n) = (s.grid.cols, s.grid.rows, lines.len() as int);
    let all = shown_lines(lines, cols);
    let off = rows_off(n, rows);
    let place = replay::cursor_event(0, rows - 1);
    law_events_in_parts(s, written_events(lines), flush_events(rows));
    lemma_written(s, lines);
    let t = s.performed_all(written_events(lines));
    law_events_in_parts(t, seq![place], feed_events(rows - 1));
    restore::lemma_one(t, place);
    lemma_written_wf(s, t, lines);
    restore::lemma_moved(t, 0, rows - 1);
    let u = t.moved(0, rows - 1);
    lemma_feeds(u, rows - 1);
    let rest = all.skip(off) + blank_rows(cols, rows - 1 - (n - off));
    assert(u.grid.cells.take(rows - 1) =~= rest);
    assert(u.grid.cells.skip(rows - 1) + blank_rows(cols, rows - 1) =~= blank_rows(cols, rows));
    lemma_remembered_append(s.scrollback, s.scrollback_limit, all.take(off), rest);
    lemma_remembered_append(s.pending_scrollback, s.scrollback_limit, all.take(off), rest);
    assert(all.take(off) + rest =~= all + blank_rows(cols, model::max(rows - 1 - n, 0)));
}

// The text of these events

proof fn lemma_short_texts()
    ensures
        replay::event_text(replay::control(seq![seq![0u16]], 'm')) == "\x1b[0m".spec_bytes(),
        replay::event_text(replay::control(seq![], 'K')) == "\x1b[K".spec_bytes(),
        replay::event_text(replay::control(seq![seq![2u16]], 'K')) == "\x1b[2K".spec_bytes(),
        replay::event_text(replay::dec_event(25, false)) + replay::event_text(
            replay::control(seq![], 'r'),
        ) == "\x1b[?25l\x1b[r".spec_bytes(),
{
    replay::lemma_groups_one(0);
    replay::lemma_groups_one(2);
    replay::lemma_groups_one(25);
    reveal_strlit("\x1b[0m");
    reveal_strlit("\x1b[K");
    reveal_strlit("\x1b[2K");
    reveal_strlit("\x1b[?25l\x1b[r");
    reveal_strlit("\x1b[");
    reveal_strlit("?");
    reveal_with_fuel(bytes::decimal, 3);
    is_ascii_chars_encode_utf8("\x1b[0m"@);
    is_ascii_chars_encode_utf8("\x1b[K"@);
    is_ascii_chars_encode_utf8("\x1b[2K"@);
    is_ascii_chars_encode_utf8("\x1b[?25l\x1b[r"@);
    is_ascii_chars_encode_utf8("\x1b["@);
    is_ascii_chars_encode_utf8("?"@);
    is_ascii_chars_encode_utf8(seq!['m']);
    is_ascii_chars_encode_utf8(seq!['K']);
    is_ascii_chars_encode_utf8(seq!['r']);
    is_ascii_chars_encode_utf8(seq!['l']);
    assert("\x1b[".spec_bytes() =~= seq![0x1bu8, 0x5b]);
    assert("?".spec_bytes() =~= seq![0x3fu8]);
    assert(bytes::decimal(0) =~= seq![0x30u8]);
    assert(bytes::decimal(2) =~= seq![0x32u8]);
    assert(bytes::decimal(25) =~= seq![0x32u8, 0x35]);
    assert(replay::ascii('m') =~= seq![0x6du8]);
    assert(replay::ascii('K') =~= seq![0x4bu8]);
    assert(replay::ascii('r') =~= seq![0x72u8]);
    assert(replay::ascii('l') =~= seq![0x6cu8]);
    assert(seq![0x3fu8][0] != seq![0x20u8][0]);
    assert(replay::event_text(replay::control(seq![seq![0u16]], 'm'))
        =~= "\x1b[0m".spec_bytes());
    assert(replay::event_text(replay::control(seq![], 'K')) =~= "\x1b[K".spec_bytes());
    assert(replay::event_text(replay::control(seq![seq![2u16]], 'K'))
        =~= "\x1b[2K".spec_bytes());
    assert(replay::event_text(replay::dec_event(25, false)) =~= seq![
        0x1bu8,
        0x5b,
        0x3f,
        0x32,
        0x35,
        0x6c,
    ]);
    assert(replay::event_text(replay::control(seq![], 'r')) =~= seq![0x1bu8, 0x5b, 0x72]);
    assert("\x1b[?25l\x1b[r".spec_bytes() =~= replay::event_text(replay::dec_event(25, false))
        + replay::event_text(replay::control(seq![], 'r')));
}

/// A line of the history is the text of its events.
pub proof fn law_line_is_text_of_events(row: Seq<CellView>)
    ensures
        replay::events_text(line_events(row)) == render::line_bytes(row),
{
    let reset = replay::control(seq![seq![0u16]], 'm');
    replay::lemma_cells_text(render::written(row));
    replay::lemma_text_append(replay::cells_events(render::written(row)).0, seq![reset]);
    replay::lemma_text_one(reset);
    lemma_short_texts();
}

proof fn lemma_over_one_text(y: int, row: Seq<CellView>)
    requires
        0 <= y < u16::MAX,
    ensures
        replay::events_text(over_one(y, row)) == render::at_row(
            y,
            ";1H\x1b[0m".spec_bytes() + render::line_bytes(row) + "\x1b[K".spec_bytes(),
        ),
{
    let (place, reset) = (
        replay::cursor_event(0, y),
        replay::control(seq![seq![0u16]], 'm'),
    );
    let erase = replay::control(seq![], 'K');
    replay::lemma_text_append(seq![place, reset] + line_events(row), seq![erase]);
    replay::lemma_text_append(seq![place, reset], line_events(row));
    replay::lemma_two_texts(place, reset);
    replay::lemma_text_one(erase);
    replay::lemma_row_start_text(y);
    law_line_is_text_of_events(row);
    lemma_short_texts();
    reveal_strlit(";1H\x1b[0m");
    reveal_strlit(";1H");
    reveal_strlit("\x1b[0m");
    bytes::lemma_encode_append(";1H"@, "\x1b[0m"@);
    assert(";1H\x1b[0m"@ =~= ";1H"@ + "\x1b[0m"@);
    assert(replay::events_text(over_one(y, row)) =~= render::at_row(
        y,
        ";1H\x1b[0m".spec_bytes() + render::line_bytes(row) + "\x1b[K".spec_bytes(),
    ));
}

proof fn lemma_over_text(lines: Seq<Seq<CellView>>)
    requires
        lines.len() <= u16::MAX,
    ensures
        replay::events_text(over_events(lines)) == render::overwritten(history_bytes(lines)),
    decreases lines.len(),
{
    if lines.len() == 0 {
        replay::lemma_text_none();
    } else {
        lemma_over_text(lines.drop_last());
        lemma_over_one_text(lines.len() - 1, lines.last());
        replay::lemma_text_append(
            over_events(lines.drop_last()),
            over_one(lines.len() - 1, lines.last()),
        );
        assert(history_bytes(lines).drop_last() =~= history_bytes(lines.drop_last()));
        assert(history_bytes(lines).last() == render::line_bytes(lines.last()));
    }
}

proof fn lemma_cleared_text(from: int, to: int)
    requires
        0 <= from,
        to <= u16::MAX,
    ensures
        replay::events_text(cleared_events(from, to)) == render::rows_cleared(from, to),
    decreases to - from,
{
    if to <= from {
        replay::lemma_text_none();
    } else {
        let (place, erase) = (
            replay::cursor_event(0, to - 1),
            replay::control(seq![seq![2u16]], 'K'),
        );
        lemma_cleared_text(from, to - 1);
        replay::lemma_text_append(cleared_events(from, to - 1), seq![place, erase]);
        replay::lemma_two_texts(place, erase);
        replay::lemma_row_start_text(to - 1);
        lemma_short_texts();
        reveal_strlit(";1H\x1b[2K");
        reveal_strlit(";1H");
        reveal_strlit("\x1b[2K");
        bytes::lemma_encode_append(";1H"@, "\x1b[2K"@);
        assert(";1H\x1b[2K"@ =~= ";1H"@ + "\x1b[2K"@);
        assert(replay::event_text(place) + replay::event_text(erase) =~= render::at_row(
            to - 1,
            ";1H\x1b[2K".spec_bytes(),
        ));
    }
}

pub(crate) proof fn lemma_feed_text(n: int)
    requires
        0 <= n,
    ensures
        replay::events_text(feed_events(n)) == Seq::new(n as nat, |i: int| 10u8),
    decreases n,
{
    if n == 0 {
        replay::lemma_text_none();
        assert(Seq::new(0, |i: int| 10u8) =~= seq![]);
    } else {
        let feed = EventView::Execute(10);
        lemma_feed_text(n - 1);
        replay::lemma_text_append(feed_events(n - 1), seq![feed]);
        replay::lemma_text_one(feed);
        assert(feed_events(n) =~= feed_events(n - 1) + seq![feed]);
        assert(Seq::new(n as nat, |i: int| 10u8) =~= Seq::new((n - 1) as nat, |i: int| 10u8)
            + seq![10u8]);
    }
}

proof fn lemma_chunk_text(lines: Seq<Seq<CellView>>, rows: int)
    requires
        lines.len() <= rows,
        1 <= rows <= u16::MAX,
    ensures
        replay::events_text(chunk_events(lines, rows)) == render::chunk_bytes(
            history_bytes(lines),
            rows,
        ),
{
    let n = lines.len() as int;
    let (a, b) = (over_events(lines), cleared_events(n, rows));
    let c = replay::cursor_event(0, rows - 1);
    replay::lemma_text_append(a + b + seq![c], feed_events(n));
    replay::lemma_text_append(a + b, seq![c]);
    replay::lemma_text_append(a, b);
    replay::lemma_text_one(c);
    replay::lemma_row_start_text(rows - 1);
    lemma_over_text(lines);
    lemma_cleared_text(n, rows);
    lemma_feed_text(n);
}

proof fn lemma_chunks_text(lines: Seq<Seq<CellView>>, rows: int)
    requires
        1 <= rows <= u16::MAX,
    ensures
        replay::events_text(chunks_events(lines, rows)) == render::chunks_bytes(
            history_bytes(lines),
            rows,
        ),
    decreases lines.len(),
{
    if lines.len() == 0 {
        replay::lemma_text_none();
    } else if lines.len() <= rows {
        lemma_chunk_text(lines, rows);
    } else {
        let (first, rest) = (lines.take(rows), lines.skip(rows));
        lemma_chunk_text(first, rows);
        lemma_chunks_text(rest, rows);
        replay::lemma_text_append(chunk_events(first, rows), chunks_events(rest, rows));
        assert(history_bytes(lines).take(rows) =~= history_bytes(first));
        assert(history_bytes(lines).skip(rows) =~= history_bytes(rest));
    }
}

/// What puts lines into the scrollback is the text of these events.
pub proof fn law_scrollback_is_text_of_events(lines: Seq<Seq<CellView>>, rows: int)
    requires
        1 <= rows <= u16::MAX,
    ensures
        render::scrollback_bytes(history_bytes(lines), rows) == replay::events_text(
            scrollback_events(lines, rows),
        ),
{
    if lines.len() == 0 {
        replay::lemma_text_none();
    } else {
        let (hide, whole) = (replay::dec_event(25, false), replay::control(seq![], 'r'));
        lemma_chunks_text(lines, rows);
        lemma_short_texts();
        replay::lemma_two_texts(hide, whole);
        replay::lemma_text_append(seq![hide, whole], chunks_events(lines, rows));
    }
}

} // verus!
