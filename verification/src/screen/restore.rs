//! What a full frame does to the terminal that receives it.

use vstd::prelude::*;
use vstd::utf8::*;

use crate::bytes;

use super::cell;
use super::cell::CellView;
use super::grid;
use super::grid::{Charset, GridView, TerminalModes};
use super::{fresh, law_events_in_parts};
use super::model;
use super::model::{EventView, ScreenView};
use super::render;
use super::replay;
use super::style;
use super::style::Style;
use super::width;

verus! {

// Rows as they are drawn

/// Whether every mark of a cell is added to its character when it is printed.
pub open spec fn marks_combine(marks: Seq<char>) -> bool {
    forall|i: int| 0 <= i < marks.len() ==> width::columns(#[trigger] marks[i]) == 0
}

/// The second half of a wide character with the given style.
pub open spec fn continuation(style: Style) -> CellView {
    CellView { c: '\0', combining: seq![], style, width: 0 }
}

/// Whether the cell `x` of a row is what printing its text leaves: a character as
/// wide as the cell says, with marks that combine, or half of a wide character.
pub open spec fn printed_cell(row: Seq<CellView>, x: int) -> bool {
    let c = row[x];
    if c.width == 0 {
        x > 0 && row[x - 1].width == 2
    } else {
        &&& c.width <= 2
        &&& width::columns(c.c) == c.width
        &&& marks_combine(c.combining)
        &&& c.width == 2 ==> x + 1 < row.len() && row[x + 1] == continuation(c.style)
    }
}

/// Whether the cells of a row that a frame draws are such cells.
pub open spec fn printed_row(row: Seq<CellView>) -> bool {
    forall|x: int| 0 <= x < render::written_len(row) ==> #[trigger] printed_cell(row, x)
}

/// The column behind the first `n` cells of a row and behind the wide character
/// that ends there.
pub open spec fn behind(row: Seq<CellView>, n: int) -> int {
    if n > 0 && row[n - 1].width == 2 {
        n + 1
    } else {
        n
    }
}

/// The first `n` cells of a row, and blanks.
pub open spec fn partial(row: Seq<CellView>, n: int) -> Seq<CellView> {
    row.take(n) + cell::uniform_row(cell::blank(), row.len() - n)
}

/// The row that drawing a row leaves. Cells that show nothing come back blank
/// behind the last one that does. A row that is drawn up to the right margin loses
/// its last character, because the cursor waits on that column for the next
/// character when the rest of the row is erased.
pub open spec fn drawn(row: Seq<CellView>) -> Seq<CellView> {
    let n = behind(row, render::written_len(row) as int);
    let last = row.len() - 1;
    if n < row.len() {
        partial(row, n)
    } else {
        cell::filled(
            cell::unpaired(row, last, cell::blank()),
            last,
            row.len() as int,
            cell::blank(),
        )
    }
}

/// Whether `t` is `s` but for cells, cursor position, style and the character that
/// was printed last.
pub open spec fn only_drawn(s: ScreenView, t: ScreenView) -> bool {
    t == ScreenView {
        grid: GridView {
            cells: t.grid.cells,
            cursor_x: t.grid.cursor_x,
            cursor_y: t.grid.cursor_y,
            wrap_pending: t.grid.wrap_pending,
            ..s.grid
        },
        style: t.style,
        last_printed_char: t.last_printed_char,
        ..s
    }
}

/// Whether the cell `x` is no half of a wide character, or the other half is there
/// too, from the column `n` on; but the right margin may have cut one off.
pub open spec fn paired_at(row: Seq<CellView>, n: int, x: int) -> bool {
    &&& row[x].width == 0 ==> x > n && row[x - 1].width == 2
    &&& row[x].width == 2 && x + 1 < row.len() ==> row[x + 1].width == 0
}

/// Whether no half of a wide character stands alone from the column `n` on.
pub open spec fn paired_from(row: Seq<CellView>, n: int) -> bool {
    forall|x: int| n <= x < row.len() ==> #[trigger] paired_at(row, n, x)
}

/// Whether a row holds no wide character.
pub open spec fn narrow(row: Seq<CellView>) -> bool {
    forall|x: int| 0 <= x < row.len() ==> (#[trigger] row[x]).width == 1
}

/// Only the cells from the column `n` on matter.
proof fn lemma_paired_same(a: Seq<CellView>, b: Seq<CellView>, n: int)
    requires
        paired_from(a, n),
        0 <= n <= a.len(),
        a.skip(n) == b.skip(n),
        a.len() == b.len(),
    ensures
        paired_from(b, n),
{
    assert forall|x: int| n <= x < b.len() implies #[trigger] paired_at(b, n, x) by {
        assert(paired_at(a, n, x));
        assert(a.skip(n)[x - n] == b.skip(n)[x - n]);
        assert(x > n ==> a.skip(n)[x - 1 - n] == b.skip(n)[x - 1 - n]);
        assert(x + 1 < b.len() ==> a.skip(n)[x + 1 - n] == b.skip(n)[x + 1 - n]);
    }
}

/// Writing over a cell leaves what follows in pairs.
proof fn lemma_paired_step(before: Seq<CellView>, x: int, fill: CellView, c: CellView)
    requires
        paired_from(before, x),
        0 <= x < before.len(),
        fill.width == 1,
    ensures
        ({
            let line = cell::unpaired(before, x, fill).update(x, c);
            &&& line.len() == before.len()
            &&& line.take(x) == before.take(x)
            &&& line[x] == c
            &&& paired_from(line, x + 1)
            &&& before[x].width == 1 ==> line.skip(x + 1) == before.skip(x + 1)
        }),
{
    let line = cell::unpaired(before, x, fill).update(x, c);
    assert(paired_at(before, x, x));
    assert(line.take(x) =~= before.take(x));
    if before[x].width == 1 {
        assert(line.skip(x + 1) =~= before.skip(x + 1));
    }
    assert forall|k: int| x + 1 <= k < line.len() implies #[trigger] paired_at(
        line,
        x + 1,
        k,
    ) by {
        assert(paired_at(before, x, k));
        assert(paired_at(before, x, k - 1));
    }
}

/// Whether `t` is `s` with the first `n` cells of `row` drawn over the row `y`.
pub open spec fn at(s: ScreenView, t: ScreenView, y: int, row: Seq<CellView>, n: int) -> bool {
    let line = t.grid.cells[y];
    &&& only_drawn(s, t)
    &&& t.grid.cells == s.grid.cells.update(y, line)
    &&& line.len() == row.len()
    &&& line.take(n) == row.take(n)
    &&& paired_from(line, n)
    &&& narrow(s.grid.cells[y]) ==> line.skip(n) == s.grid.cells[y].skip(n)
    &&& t.grid.cursor_y == y
    &&& t.grid.cursor_x == if n < row.len() {
        n
    } else {
        row.len() - 1
    }
    &&& t.grid.wrap_pending == (n == row.len())
}

/// Whether `row` can be drawn on the row `y` of `s`.
pub open spec fn ready(s: ScreenView, y: int, row: Seq<CellView>) -> bool {
    &&& s.grid.wf()
    &&& 0 <= y < s.grid.rows
    &&& row.len() == s.grid.cols
    &&& s.grid.modes.autowrap_mode
    &&& model::active_set(s.grid.modes) == Charset::Ascii
}

pub(crate) proof fn lemma_one(s: ScreenView, e: EventView)
    ensures
        s.performed_all(seq![e]) == s.performed(e),
{
    assert(seq![e].drop_last() =~= seq![]);
    reveal_with_fuel(ScreenView::performed_all, 2);
}

/// A character printed in the ASCII set is printed as it is.
proof fn lemma_performed_print(t: ScreenView, c: char)
    requires
        model::active_set(t.grid.modes) == Charset::Ascii,
    ensures
        t.performed(EventView::Print(c)) == t.printed_wide(c, width::columns(c)),
{
    reveal(ScreenView::performed);
}

#[verifier::rlimit(50)]
proof fn lemma_mark(
    s: ScreenView,
    t: ScreenView,
    y: int,
    row: Seq<CellView>,
    x: int,
    mark: char,
)
    requires
        ready(s, y, row),
        0 <= x < row.len(),
        1 <= row[x].width <= 2,
        row[x].width == 2 ==> x + 1 < row.len() && row[x + 1].width == 0,
        at(s, t, y, row, x + row[x].width),
        width::columns(mark) == 0,
    ensures
        at(
            s,
            t.performed(EventView::Print(mark)),
            y,
            row.update(x, cell::marked(row[x], mark)),
            x + row[x].width,
        ),
        t.performed(EventView::Print(mark)).style == t.style,
{
    lemma_performed_print(t, mark);
    let n = x + row[x].width;
    let line = t.grid.cells[y];
    let marked = row.update(x, cell::marked(row[x], mark));
    assert(line[n - 1] == line.take(n)[n - 1] && row[n - 1] == row.take(n)[n - 1]);
    assert(line[x] == line.take(n)[x] && row[x] == row.take(n)[x]);
    let next = line.update(x, cell::marked(line[x], mark));
    assert(t.marked(mark) == t.with_line(next));
    assert(next.skip(n) =~= line.skip(n));
    lemma_paired_same(line, next, n);
    assert(next.take(n) =~= marked.take(n)) by {
        assert forall|k: int| 0 <= k < n implies next[k] == marked[k] by {
            assert(line.take(n)[k] == row.take(n)[k]);
        }
    }
    assert(t.grid.cells.update(y, next) =~= s.grid.cells.update(y, next));
}

/// The row with the marks of the cell `x` replaced.
spec fn with_marks(row: Seq<CellView>, x: int, marks: Seq<char>) -> Seq<CellView> {
    row.update(x, CellView { combining: marks, ..row[x] })
}

proof fn lemma_marks(
    s: ScreenView,
    t: ScreenView,
    y: int,
    row: Seq<CellView>,
    x: int,
    marks: Seq<char>,
)
    requires
        ready(s, y, row),
        0 <= x < row.len(),
        1 <= row[x].width <= 2,
        row[x].width == 2 ==> x + 1 < row.len() && row[x + 1].width == 0,
        at(s, t, y, with_marks(row, x, seq![]), x + row[x].width),
        marks_combine(marks),
    ensures
        at(
            s,
            t.performed_all(replay::marks_events(marks)),
            y,
            with_marks(row, x, marks),
            x + row[x].width,
        ),
        t.performed_all(replay::marks_events(marks)).style == t.style,
    decreases marks.len(),
{
    if marks.len() == 0 {
        assert(marks =~= seq![]);
    } else {
        let before = marks.drop_last();
        let mark = marks.last();
        let event = replay::lemma_print(mark);
        assert forall|i: int| 0 <= i < before.len() implies width::columns(#[trigger] before[i])
            == 0 by {
            assert(before[i] == marks[i]);
        }
        lemma_marks(s, t, y, row, x, before);
        let u = t.performed_all(replay::marks_events(before));
        let done = with_marks(row, x, before);
        assert(width::columns(marks[marks.len() - 1]) == 0);
        lemma_mark(s, u, y, done, x, mark);
        assert(before.push(mark) =~= marks);
        assert(done.update(x, cell::marked(done[x], mark)) =~= with_marks(row, x, marks));
        assert(replay::marks_events(marks).drop_last() =~= replay::marks_events(before));
        assert(t.performed_all(replay::marks_events(marks)) == u.performed(event));
    }
}

#[verifier::rlimit(50)]
proof fn lemma_put(s: ScreenView, t: ScreenView, y: int, row: Seq<CellView>, x: int)
    requires
        ready(s, y, row),
        0 <= x < row.len(),
        row[x].width > 0,
        printed_cell(row, x),
        at(s, t, y, row, x),
        t.style == row[x].style,
    ensures
        at(
            s,
            t.performed(EventView::Print(row[x].c)),
            y,
            with_marks(row, x, seq![]),
            x + row[x].width,
        ),
        t.performed(EventView::Print(row[x].c)).style == t.style,
{
    let c = row[x];
    lemma_performed_print(t, c.c);
    let n = x + c.width;
    let bare = with_marks(row, x, seq![]);
    let before = t.grid.cells[y];
    let fill = t.fill();
    let shown = CellView { c: c.c, combining: seq![], style: t.style, width: c.width };
    let line = t.line_with(c.c, c.width as int);
    lemma_paired_step(before, x, fill, shown);
    let first = cell::unpaired(before, x, fill).update(x, shown);
    let base = s.grid.cells[y];
    if narrow(base) {
        assert(before.skip(x)[0] == base.skip(x)[0]);
        assert(base[x].width == 1);
        assert(first.skip(x + 1) =~= base.skip(x + 1)) by {
            assert(before.skip(x + 1) =~= before.skip(x).skip(1));
            assert(base.skip(x + 1) =~= base.skip(x).skip(1));
        }
        if c.width == 2 {
            assert(first.skip(x + 1)[0] == base.skip(x + 1)[0]);
            assert(base[x + 1].width == 1);
        }
    }
    if c.width == 2 {
        lemma_paired_step(first, x + 1, fill, continuation(t.style));
        assert(first.skip(x + 2) =~= first.skip(x + 1).skip(1));
        assert(base.skip(x + 2) =~= base.skip(x + 1).skip(1));
        assert(line.take(n) =~= first.take(x + 1).push(continuation(t.style)));
        assert(first.take(x + 1) =~= before.take(x).push(shown));
        assert(bare.take(n) =~= row.take(x).push(shown).push(continuation(t.style)));
    } else {
        assert(line.take(n) =~= before.take(x).push(shown));
        assert(bare.take(n) =~= row.take(x).push(shown));
    }
    assert(t.grid.cells.update(y, line) =~= s.grid.cells.update(y, line));
    assert(t.performed(EventView::Print(c.c)) == t.put(c.c, c.width as int));
}

proof fn lemma_styled(t: ScreenView, to: Style)
    ensures
        t.performed(replay::style_event(to)) == (ScreenView { style: to, ..t }),
{
    reveal(ScreenView::performed);
    style::law_sgr_round_trip(t.style, to);
}

proof fn lemma_cell(s: ScreenView, t: ScreenView, y: int, row: Seq<CellView>, x: int)
    requires
        ready(s, y, row),
        0 <= x < row.len(),
        row[x].width > 0,
        printed_cell(row, x),
        at(s, t, y, row, x),
        t.style == row[x].style,
    ensures
        at(s, t.performed_all(replay::cell_events(row[x])), y, row, x + row[x].width),
        t.performed_all(replay::cell_events(row[x])).style == t.style,
{
    let c = row[x];
    let event = replay::lemma_print(c.c);
    lemma_one(t, event);
    law_events_in_parts(t, seq![event], replay::marks_events(c.combining));
    lemma_put(s, t, y, row, x);
    lemma_marks(s, t.performed(event), y, row, x, c.combining);
    assert(with_marks(row, x, c.combining) =~= row);
}

pub(crate) proof fn lemma_cells(s: ScreenView, t: ScreenView, y: int, row: Seq<CellView>, n: int)
    requires
        ready(s, y, row),
        0 <= n <= row.len(),
        forall|x: int| 0 <= x < n ==> #[trigger] printed_cell(row, x),
        at(s, t, y, row, 0),
        t.style == style::plain(),
    ensures
        at(s, t.performed_all(replay::cells_events(row.take(n)).0), y, row, behind(row, n)),
        t.performed_all(replay::cells_events(row.take(n)).0).style == replay::cells_events(
            row.take(n),
        ).1,
    decreases n,
{
    if n > 0 {
        lemma_cells(s, t, y, row, n - 1);
        let c = row[n - 1];
        assert(row.take(n).drop_last() =~= row.take(n - 1));
        assert(row.take(n).last() == c);
        let (events, current) = replay::cells_events(row.take(n - 1));
        let u = t.performed_all(events);
        assert(printed_cell(row, n - 1));
        if n > 1 {
            assert(printed_cell(row, n - 2));
        }
        if c.width != 0 {
            assert(behind(row, n - 1) == n - 1);
            law_events_in_parts(t, events, replay::cell_events(c));
            law_events_in_parts(t, events, seq![replay::style_event(c.style)]);
            law_events_in_parts(
                t,
                events + seq![replay::style_event(c.style)],
                replay::cell_events(c),
            );
            lemma_one(u, replay::style_event(c.style));
            lemma_styled(u, c.style);
            if c.style != current {
                lemma_cell(s, u.performed(replay::style_event(c.style)), y, row, n - 1);
            } else {
                lemma_cell(s, u, y, row, n - 1);
            }
        }
    }
}

pub(crate) proof fn lemma_written_len(row: Seq<CellView>)
    ensures
        render::written_len(row) <= row.len(),
    decreases row.len(),
{
    if row.len() > 0 {
        lemma_written_len(row.drop_last());
    }
}

pub(crate) proof fn lemma_moved(t: ScreenView, x: int, y: int)
    requires
        t.grid.wf(),
        0 <= x < t.grid.cols,
        0 <= y < t.grid.rows,
    ensures
        t.performed(replay::cursor_event(x, y)) == t.moved(x, y),
{
    reveal(ScreenView::performed);
}

pub(crate) proof fn lemma_style_reset(t: ScreenView)
    ensures
        t.performed(replay::control(seq![seq![0u16]], 'm')) == (ScreenView {
            style: style::plain(),
            ..t
        }),
{
    reveal(ScreenView::performed);
    style::lemma_reset(t.style);
}

pub(crate) proof fn lemma_line_end_erased(t: ScreenView)
    ensures
        t.performed(replay::control(seq![], 'K')) == t.with_line(t.erased_right()),
{
    reveal(ScreenView::performed);
}

/// The style reset and the rest of the row erased.
proof fn lemma_row_end(t: ScreenView)
    ensures
        t.performed_all(replay::row_end_events()) == ({
            let plain = ScreenView { style: style::plain(), ..t };
            plain.with_line(plain.erased_right())
        }),
{
    let (a, b) = (
        replay::control(seq![seq![0u16]], 'm'),
        replay::control(seq![], 'K'),
    );
    lemma_style_reset(t);
    lemma_line_end_erased(t.performed(a));
    assert(replay::row_end_events() =~= seq![a] + seq![b]);
    law_events_in_parts(t, seq![a], seq![b]);
    lemma_one(t, a);
    lemma_one(t.performed(a), b);
}

/// One row drawn over a row.
pub(crate) proof fn lemma_row(s: ScreenView, y: int, row: Seq<CellView>)
    requires
        ready(s, y, row),
        printed_row(row),
        paired_from(s.grid.cells[y], 0),
        s.style == style::plain(),
    ensures
        ({
            let t = s.performed_all(replay::row_events(y, row));
            &&& only_drawn(s, t)
            &&& t.grid.cells == s.grid.cells.update(y, drawn(row))
            &&& t.style == style::plain()
            &&& t.grid.wf()
        }),
{
    let start = seq![replay::cursor_event(0, y)];
    let n = render::written_len(row) as int;
    let cells = replay::cells_events(row.take(n)).0;
    law_events_in_parts(s, start + cells, replay::row_end_events());
    law_events_in_parts(s, start, cells);
    lemma_one(s, start[0]);
    lemma_moved(s, 0, y);
    let t = s.performed_all(start);
    assert(s.grid.cells.update(y, s.grid.cells[y]) =~= s.grid.cells);
    assert(s.grid.cells[y].take(0) =~= row.take(0));
    lemma_written_len(row);
    lemma_cells(s, t, y, row, n);
    let u = t.performed_all(cells);
    lemma_row_end(u);
    lemma_erased_behind(s, u, y, row);
}

/// Erasing behind what a row shows leaves the row as it is drawn.
pub(crate) proof fn lemma_erased_behind(s: ScreenView, u: ScreenView, y: int, row: Seq<CellView>)
    requires
        ready(s, y, row),
        printed_row(row),
        at(s, u, y, row, behind(row, render::written_len(row) as int)),
    ensures
        ({
            let plain = ScreenView { style: style::plain(), ..u };
            let t = plain.with_line(plain.erased_right());
            &&& only_drawn(s, t)
            &&& t.grid.cells == s.grid.cells.update(y, drawn(row))
            &&& t.style == style::plain()
            &&& t.grid.wf()
        }),
{
    let n = render::written_len(row) as int;
    lemma_written_len(row);
    if n > 0 {
        assert(printed_cell(row, n - 1));
    }
    let end = behind(row, n);
    let line = u.grid.cells[y];
    let plain = ScreenView { style: style::plain(), ..u };
    assert(plain.fill() == cell::blank());
    assert forall|k: int| 0 <= k < end implies line[k] == row[k] by {
        assert(line.take(end)[k] == row.take(end)[k]);
    }
    if end < row.len() {
        assert(paired_at(line, end, end));
        assert(plain.erased_right() =~= partial(row, end));
    } else {
        assert(line =~= row);
        assert(plain.erased_right() =~= drawn(row));
    }
    assert(u.grid.cells.update(y, drawn(row)) =~= s.grid.cells.update(y, drawn(row)));
}

/// The rows that drawing rows leaves.
pub open spec fn drawn_rows(cells: Seq<Seq<CellView>>) -> Seq<Seq<CellView>> {
    Seq::new(cells.len(), |y: int| drawn(cells[y]))
}

pub(crate) proof fn lemma_blank_paired(cols: int)
    ensures
        paired_from(cell::uniform_row(cell::blank(), cols), 0),
{
    let row = cell::uniform_row(cell::blank(), cols);
    assert forall|x: int| 0 <= x < row.len() implies #[trigger] paired_at(row, 0, x) by {
    }
}

/// The first `n` rows drawn on a blank screen.
proof fn lemma_rows(s: ScreenView, cells: Seq<Seq<CellView>>, n: int)
    requires
        s.grid.wf(),
        cells.len() == s.grid.rows,
        forall|y: int| 0 <= y < cells.len() ==> ready(s, y, #[trigger] cells[y]),
        forall|y: int| 0 <= y < cells.len() ==> printed_row(#[trigger] cells[y]),
        forall|y: int|
            0 <= y < cells.len() ==> #[trigger] s.grid.cells[y] == cell::uniform_row(
                cell::blank(),
                s.grid.cols,
            ),
        s.style == style::plain(),
        0 <= n <= cells.len(),
    ensures
        ({
            let t = s.performed_all(replay::rows_events(cells, n));
            &&& only_drawn(s, t)
            &&& t.grid.cells == drawn_rows(cells).take(n) + s.grid.cells.skip(n)
            &&& t.style == style::plain()
            &&& t.grid.wf()
        }),
    decreases n,
{
    if n <= 0 {
        assert(drawn_rows(cells).take(n) + s.grid.cells.skip(n) =~= s.grid.cells);
    } else {
        lemma_rows(s, cells, n - 1);
        let t = s.performed_all(replay::rows_events(cells, n - 1));
        law_events_in_parts(
            s,
            replay::rows_events(cells, n - 1),
            replay::row_events(n - 1, cells[n - 1]),
        );
        assert(ready(s, n - 1, cells[n - 1]));
        assert(t.grid.cells[n - 1] == s.grid.cells[n - 1]);
        lemma_blank_paired(s.grid.cols);
        lemma_row(t, n - 1, cells[n - 1]);
        assert(t.grid.cells.update(n - 1, drawn(cells[n - 1])) =~= drawn_rows(cells).take(n)
            + s.grid.cells.skip(n));
    }
}

// Modes and the rest of the state

pub(crate) proof fn lemma_two(s: ScreenView, a: EventView, b: EventView)
    ensures
        s.performed_all(seq![a, b]) == s.performed(a).performed(b),
{
    law_events_in_parts(s, seq![a], seq![b]);
    lemma_one(s, a);
    lemma_one(s.performed(a), b);
    assert(seq![a] + seq![b] =~= seq![a, b]);
}

proof fn lemma_four(s: ScreenView, a: EventView, b: EventView, c: EventView, d: EventView)
    ensures
        s.performed_all(seq![a, b] + seq![c, d]) == s.performed(a).performed(b).performed(
            c,
        ).performed(d),
{
    law_events_in_parts(s, seq![a, b], seq![c, d]);
    lemma_two(s, a, b);
    lemma_two(s.performed(a).performed(b), c, d);
}

proof fn lemma_three(s: ScreenView, a: EventView, b: EventView, c: EventView)
    ensures
        s.performed_all(seq![a, b] + seq![c]) == s.performed(a).performed(b).performed(c),
{
    law_events_in_parts(s, seq![a, b], seq![c]);
    lemma_two(s, a, b);
    lemma_one(s.performed(a).performed(b), c);
}

#[verifier::rlimit(50)]
pub(crate) proof fn lemma_mode(t: ScreenView, code: u16, on: bool)
    ensures
        t.performed(replay::dec_event(code, on)) == t.mode_set(code, on),
{
    reveal(ScreenView::performed);
    let params = seq![seq![code]];
    assert(params.drop_last() =~= seq![]);
    reveal_with_fuel(ScreenView::modes_set, 2);
    assert(t.modes_set(params, on) == t.mode_set(code, on));
}

/// The terminal with other modes.
#[verifier::opaque]
pub open spec fn set_modes(t: ScreenView, modes: TerminalModes) -> ScreenView {
    t.with_modes(modes)
}

pub(crate) proof fn lemma_set_modes(t: ScreenView, a: TerminalModes, b: TerminalModes)
    ensures
        set_modes(t, a).grid.modes == a,
        set_modes(set_modes(t, a), b) == set_modes(t, b),
        set_modes(t, t.grid.modes) == t,
{
    reveal(set_modes);
}

proof fn lemma_flag(t: ScreenView, code: u16, on: bool)
    requires
        code != 25,
        code != 47,
        code != 1047,
        code != 1048,
        code != 1049,
    ensures
        t.performed(replay::dec_event(code, on)) == set_modes(
            t,
            model::flag_set(t.grid.modes, code, on),
        ),
{
    reveal(set_modes);
    lemma_mode(t, code, on);
}

/// The terminal that the start of a full frame leaves: blank, the cursor home and
/// hidden, the style reset.
spec fn cleared(s: ScreenView) -> ScreenView {
    ScreenView {
        grid: GridView {
            cells: Seq::new(
                s.grid.cells.len(),
                |y: int| cell::uniform_row(cell::blank(), s.grid.cols),
            ),
            cursor_x: 0,
            cursor_y: 0,
            wrap_pending: false,
            cursor_visible: false,
            ..s.grid
        },
        style: style::plain(),
        ..s
    }
}

#[verifier::rlimit(50)]
proof fn lemma_erased(t: ScreenView)
    ensures
        t.performed(replay::control(seq![seq![2u16]], 'J')) == t.rows_erased(0, t.grid.rows),
        t.performed(replay::control(seq![], 'H')) == t.moved(
            t.col_number(1),
            t.row_number(1),
        ),
{
    reveal(ScreenView::performed);
}

proof fn lemma_start(s: ScreenView)
    requires
        s.grid.wf(),
    ensures
        s.performed_all(replay::start_events()) == cleared(s),
        cleared(s).grid.wf(),
{
    let (a, b) = (replay::dec_event(2026, true), replay::dec_event(25, false));
    let (c, d) = (
        replay::control(seq![seq![0u16]], 'm'),
        replay::control(seq![seq![2u16]], 'J'),
    );
    let e = replay::control(seq![], 'H');
    law_events_in_parts(s, seq![a, b] + seq![c, d], seq![e]);
    law_events_in_parts(s, seq![a, b], seq![c, d]);
    lemma_two(s, a, b);
    lemma_flag(s, 2026, true);
    reveal(set_modes);
    assert(s.performed(a) == s);
    lemma_mode(s, 25, false);
    let hidden = s.performed_all(seq![a, b]);
    lemma_two(hidden, c, d);
    lemma_style_reset(hidden);
    lemma_erased(hidden.performed(c));
    let erased = hidden.performed_all(seq![c, d]);
    lemma_one(erased, e);
    lemma_erased(erased);
    assert(hidden.performed(c).fill() == cell::blank());
    assert(erased.grid.cells =~= cleared(s).grid.cells);
}

/// The modes that a full frame leaves. Of the ways of mouse tracking only the last
/// one survives, because a frame resets those that are off, and each reset turns
/// tracking off.
pub open spec fn restored_modes(m: TerminalModes) -> TerminalModes {
    TerminalModes {
        mouse_mode: if m.mouse_mode == 1003 {
            1003
        } else {
            0
        },
        mouse_encoding: if m.mouse_encoding == 1005 || m.mouse_encoding == 1006 {
            m.mouse_encoding
        } else {
            0
        },
        ..m
    }
}

pub(crate) proof fn lemma_flag_step(t: ScreenView, m: TerminalModes, code: u16, on: bool)
    requires
        code != 25,
        code != 47,
        code != 1047,
        code != 1048,
        code != 1049,
    ensures
        set_modes(t, m).performed(replay::dec_event(code, on)) == set_modes(
            t,
            model::flag_set(m, code, on),
        ),
{
    lemma_flag(set_modes(t, m), code, on);
    lemma_set_modes(t, m, model::flag_set(m, code, on));
}

#[verifier::rlimit(50)]
pub(crate) proof fn lemma_shape_step(t: ScreenView, m: TerminalModes, shape: grid::CursorShape)
    ensures
        set_modes(t, m).performed(replay::shape_event(shape)) == set_modes(
            t,
            TerminalModes { cursor_shape: shape, ..m },
        ),
{
    reveal(set_modes);
    reveal(ScreenView::performed);
    grid::law_shape_round_trip(shape);
    let code = grid::shape_code(shape);
    let params = seq![seq![code as u16]];
    assert(model::param(params, 0, 0) == code);
    assert(style::component(code as u16) == code);
}

#[verifier::rlimit(50)]
pub(crate) proof fn lemma_keypad_step(t: ScreenView, m: TerminalModes, application: bool)
    ensures
        set_modes(t, m).performed(replay::keypad_event(application)) == set_modes(
            t,
            TerminalModes { keypad_app_mode: application, ..m },
        ),
{
    reveal(set_modes);
    reveal(ScreenView::performed);
}

#[verifier::rlimit(50)]
pub(crate) proof fn lemma_charset_step(t: ScreenView, m: TerminalModes, charset: Charset)
    ensures
        set_modes(t, m).performed(replay::charset_event(0x28, charset)) == set_modes(
            t,
            TerminalModes { g0_charset: charset, ..m },
        ),
        set_modes(t, m).performed(replay::charset_event(0x29, charset)) == set_modes(
            t,
            TerminalModes { g1_charset: charset, ..m },
        ),
{
    reveal(set_modes);
    reveal(ScreenView::performed);
    assert(seq![0x28u8][0] != seq![0x29u8][0]);
}

pub(crate) proof fn lemma_shift_step(t: ScreenView, m: TerminalModes, active: grid::ActiveCharset)
    ensures
        set_modes(t, m).performed(replay::shift_event(active)) == set_modes(
            t,
            TerminalModes { active_charset: active, ..m },
        ),
{
    reveal(set_modes);
    reveal(ScreenView::performed);
}

/// The modes after the events that set keyboard and screen.
spec fn keyboard_set(m0: TerminalModes, m: TerminalModes) -> TerminalModes {
    TerminalModes {
        cursor_shape: m.cursor_shape,
        cursor_key_mode: m.cursor_key_mode,
        autowrap_mode: m.autowrap_mode,
        bracketed_paste: m.bracketed_paste,
        ..m0
    }
}

/// The modes after the events that set mouse and focus.
spec fn mouse_set(m0: TerminalModes, m: TerminalModes) -> TerminalModes {
    TerminalModes {
        mouse_mode: restored_modes(m).mouse_mode,
        mouse_encoding: restored_modes(m).mouse_encoding,
        focus_reporting: m.focus_reporting,
        ..m0
    }
}

/// The modes after the events that set keypad and character sets.
spec fn charsets_set(m0: TerminalModes, m: TerminalModes) -> TerminalModes {
    TerminalModes {
        keypad_app_mode: m.keypad_app_mode,
        g0_charset: m.g0_charset,
        g1_charset: m.g1_charset,
        active_charset: m.active_charset,
        ..m0
    }
}

proof fn lemma_keyboard(t: ScreenView, m0: TerminalModes, m: TerminalModes)
    ensures
        set_modes(t, m0).performed_all(replay::keyboard_events(m)) == set_modes(
            t,
            keyboard_set(m0, m),
        ),
{
    let m1 = TerminalModes { cursor_shape: m.cursor_shape, ..m0 };
    let m2 = model::flag_set(m1, 1, m.cursor_key_mode);
    let m3 = model::flag_set(m2, 7, m.autowrap_mode);
    lemma_four(
        set_modes(t, m0),
        replay::shape_event(m.cursor_shape),
        replay::dec_event(1, m.cursor_key_mode),
        replay::dec_event(7, m.autowrap_mode),
        replay::dec_event(2004, m.bracketed_paste),
    );
    lemma_shape_step(t, m0, m.cursor_shape);
    lemma_flag_step(t, m1, 1, m.cursor_key_mode);
    lemma_flag_step(t, m2, 7, m.autowrap_mode);
    lemma_flag_step(t, m3, 2004, m.bracketed_paste);
}

proof fn lemma_tracking(t: ScreenView, m0: TerminalModes, mode: u16)
    ensures
        set_modes(t, m0).performed_all(
            seq![replay::dec_event(1000, mode == 1000), replay::dec_event(1002, mode == 1002)]
                + seq![replay::dec_event(1003, mode == 1003)],
        ) == set_modes(t, model::flag_set(m0, 1003, mode == 1003)),
{
    let m1 = model::flag_set(m0, 1000, mode == 1000);
    let m2 = model::flag_set(m1, 1002, mode == 1002);
    lemma_three(
        set_modes(t, m0),
        replay::dec_event(1000, mode == 1000),
        replay::dec_event(1002, mode == 1002),
        replay::dec_event(1003, mode == 1003),
    );
    lemma_flag_step(t, m0, 1000, mode == 1000);
    lemma_flag_step(t, m1, 1002, mode == 1002);
    lemma_flag_step(t, m2, 1003, mode == 1003);
}

pub(crate) proof fn lemma_encoding(t: ScreenView, m0: TerminalModes, encoding: u16)
    ensures
        set_modes(t, m0).performed_all(replay::encoding_events(encoding)) == set_modes(
            t,
            TerminalModes {
                mouse_encoding: if encoding == 1005 || encoding == 1006 {
                    encoding
                } else {
                    0
                },
                ..m0
            },
        ),
{
    let first = if encoding == 1006 {
        1005u16
    } else {
        1006u16
    };
    let second = if encoding == 1006 {
        1006u16
    } else {
        1005u16
    };
    let m1 = model::flag_set(m0, first, false);
    lemma_two(
        set_modes(t, m0),
        replay::dec_event(first, false),
        replay::dec_event(second, encoding == second),
    );
    lemma_flag_step(t, m0, first, false);
    lemma_flag_step(t, m1, second, encoding == second);
}

proof fn lemma_mouse(t: ScreenView, m0: TerminalModes, m: TerminalModes)
    ensures
        set_modes(t, m0).performed_all(replay::mouse_events(m)) == set_modes(t, mouse_set(m0, m)),
{
    let tracking = seq![
        replay::dec_event(1000, m.mouse_mode == 1000),
        replay::dec_event(1002, m.mouse_mode == 1002),
    ] + seq![replay::dec_event(1003, m.mouse_mode == 1003)];
    let encoding = replay::encoding_events(m.mouse_encoding);
    let focus = replay::dec_event(1004, m.focus_reporting);
    let m1 = model::flag_set(m0, 1003, m.mouse_mode == 1003);
    let m2 = TerminalModes { mouse_encoding: restored_modes(m).mouse_encoding, ..m1 };
    let s = set_modes(t, m0);
    law_events_in_parts(s, tracking + encoding, seq![focus]);
    law_events_in_parts(s, tracking, encoding);
    lemma_tracking(t, m0, m.mouse_mode);
    lemma_encoding(t, m1, m.mouse_encoding);
    lemma_one(set_modes(t, m2), focus);
    lemma_flag_step(t, m2, 1004, m.focus_reporting);
}

proof fn lemma_charsets(t: ScreenView, m0: TerminalModes, m: TerminalModes)
    ensures
        set_modes(t, m0).performed_all(replay::charsets_events(m)) == set_modes(
            t,
            charsets_set(m0, m),
        ),
{
    let m1 = TerminalModes { keypad_app_mode: m.keypad_app_mode, ..m0 };
    let m2 = TerminalModes { g0_charset: m.g0_charset, ..m1 };
    let m3 = TerminalModes { g1_charset: m.g1_charset, ..m2 };
    lemma_four(
        set_modes(t, m0),
        replay::keypad_event(m.keypad_app_mode),
        replay::charset_event(0x28, m.g0_charset),
        replay::charset_event(0x29, m.g1_charset),
        replay::shift_event(m.active_charset),
    );
    lemma_keypad_step(t, m0, m.keypad_app_mode);
    lemma_charset_step(t, m1, m.g0_charset);
    lemma_charset_step(t, m2, m.g1_charset);
    lemma_shift_step(t, m3, m.active_charset);
}

proof fn lemma_modes(t: ScreenView, m: TerminalModes)
    ensures
        t.performed_all(replay::modes_events(m)) == set_modes(t, restored_modes(m)),
{
    let m0 = t.grid.modes;
    let (a, b) = (replay::keyboard_events(m), replay::mouse_events(m));
    let c = replay::charsets_events(m);
    let m1 = keyboard_set(m0, m);
    let m2 = mouse_set(m1, m);
    law_events_in_parts(t, a + b, c);
    law_events_in_parts(t, a, b);
    lemma_set_modes(t, m0, m0);
    lemma_keyboard(t, m0, m);
    lemma_mouse(t, m1, m);
    lemma_charsets(t, m2, m);
    assert(charsets_set(m2, m) == restored_modes(m));
}

pub(crate) proof fn lemma_region(t: ScreenView, g: GridView)
    requires
        t.grid.wf(),
        g.wf(),
        t.grid.rows == g.rows,
    ensures
        t.performed(replay::region_event(g)) == t.region_set(
            g.scroll_top + 1,
            g.scroll_bottom + 1,
        ),
{
    reveal(ScreenView::performed);
}

pub(crate) proof fn lemma_title(t: ScreenView, title: Seq<char>)
    ensures
        t.performed(replay::title_event(title)) == (ScreenView {
            title: t.performed(replay::title_event(title)).title,
            ..t
        }),
        render::printable(encode_utf8(title)) == encode_utf8(title) ==> t.performed(
            replay::title_event(title),
        ).title == title,
{
    reveal(ScreenView::performed);
    let number = seq![0x32u8];
    let fields = seq![number, render::printable(encode_utf8(title))];
    assert(bytes::number_digits(number) == number);
    assert(number.drop_last() =~= seq![]);
    reveal_with_fuel(bytes::digits_value, 2);
    assert(bytes::is_digit(number[0]));
    assert(model::sets_title(number));
    assert(fields[0] == number);
    encode_utf8_valid_utf8(title);
    encode_utf8_decode_utf8(title);
}

/// The terminal with the scroll region and the cursor of `g`, and its modes as a
/// frame restores them. A region of one row is not set.
spec fn arranged(t: ScreenView, g: GridView) -> ScreenView {
    let several = g.scroll_top < g.scroll_bottom;
    t.with_grid(
        GridView {
            cursor_x: g.cursor_x,
            cursor_y: g.cursor_y,
            wrap_pending: false,
            scroll_top: if several {
                g.scroll_top
            } else {
                t.grid.scroll_top
            },
            scroll_bottom: if several {
                g.scroll_bottom
            } else {
                t.grid.scroll_bottom
            },
            modes: restored_modes(g.modes),
            ..t.grid
        },
    )
}

proof fn lemma_arranged(t: ScreenView, g: GridView)
    requires
        t.grid.wf(),
        g.wf(),
        t.grid.cols == g.cols,
        t.grid.rows == g.rows,
    ensures
        t.performed_all(
            seq![replay::region_event(g), replay::cursor_event(g.cursor_x, g.cursor_y)]
                + replay::modes_events(g.modes),
        ) == arranged(t, g),
{
    let (a, b) = (replay::region_event(g), replay::cursor_event(g.cursor_x, g.cursor_y));
    law_events_in_parts(t, seq![a, b], replay::modes_events(g.modes));
    lemma_two(t, a, b);
    lemma_region(t, g);
    lemma_moved(t.performed(a), g.cursor_x, g.cursor_y);
    lemma_modes(t.performed(a).performed(b), g.modes);
    reveal(set_modes);
}

/// The title and what ends a frame.
proof fn lemma_finish(t: ScreenView, g: GridView, title: Seq<char>)
    requires
        t.grid.wf(),
        g.wf(),
        t.grid.cols == g.cols,
        t.grid.rows == g.rows,
        !t.grid.cursor_visible,
    ensures
        ({
            let u = t.performed_all(
                replay::state_events(g, title) + replay::end_events(g.cursor_visible),
            );
            let a = arranged(t, g);
            &&& u == ScreenView {
                grid: GridView { cursor_visible: g.cursor_visible, ..a.grid },
                title: u.title,
                ..t
            }
            &&& title.len() == 0 ==> u.title == t.title
            &&& title.len() > 0 && render::printable(encode_utf8(title)) == encode_utf8(title)
                ==> u.title == title
        }),
{
    let head = seq![replay::region_event(g), replay::cursor_event(g.cursor_x, g.cursor_y)]
        + replay::modes_events(g.modes);
    let named = if title.len() > 0 {
        seq![replay::title_event(title)]
    } else {
        seq![]
    };
    let a = arranged(t, g);
    law_events_in_parts(t, head + named, replay::end_events(g.cursor_visible));
    law_events_in_parts(t, head, named);
    lemma_arranged(t, g);
    lemma_one(a, replay::title_event(title));
    lemma_title(a, title);
    let b = a.performed_all(named);
    let (on, off) = (replay::dec_event(25, true), replay::dec_event(2026, false));
    lemma_two(b, on, off);
    lemma_one(b, off);
    lemma_mode(b, 25, true);
    lemma_mode(b, 2026, false);
    lemma_mode(b.performed(on), 2026, false);
}

/// What a full frame of the grid `g` does to a terminal of the same size that
/// wraps lines and prints ASCII as it is, as a fresh one does: it shows the rows of
/// `g`, and has its cursor, its scroll region, its modes, and the title, if there
/// is one. What else the terminal holds stays: its history, what it saved, and
/// what it owes.
pub proof fn law_frame_restores_screen(outer: ScreenView, g: GridView, title: Seq<char>)
    requires
        outer.wf(),
        g.wf(),
        outer.grid.cols == g.cols,
        outer.grid.rows == g.rows,
        outer.grid.modes.autowrap_mode,
        model::active_set(outer.grid.modes) == Charset::Ascii,
        forall|y: int| 0 <= y < g.rows ==> printed_row(#[trigger] g.cells[y]),
    ensures
        ({
            let t = outer.performed_all(replay::frame_events(g, title));
            let several = g.scroll_top < g.scroll_bottom;
            &&& t == ScreenView {
                grid: GridView {
                    cells: drawn_rows(g.cells),
                    wrap_pending: false,
                    scroll_top: if several {
                        g.scroll_top
                    } else {
                        outer.grid.scroll_top
                    },
                    scroll_bottom: if several {
                        g.scroll_bottom
                    } else {
                        outer.grid.scroll_bottom
                    },
                    modes: restored_modes(g.modes),
                    ..g
                },
                style: style::plain(),
                title: t.title,
                last_printed_char: t.last_printed_char,
                ..outer
            }
            &&& title.len() == 0 ==> t.title == outer.title
            &&& title.len() > 0 && render::printable(encode_utf8(title)) == encode_utf8(title)
                ==> t.title == title
        }),
{
    let (a, b) = (replay::start_events(), replay::rows_events(g.cells, g.rows));
    let (c, d) = (replay::state_events(g, title), replay::end_events(g.cursor_visible));
    law_events_in_parts(outer, a + b, c + d);
    law_events_in_parts(outer, a, b);
    assert(replay::frame_events(g, title) =~= (a + b) + (c + d));
    lemma_start(outer);
    let s = cleared(outer);
    assert forall|y: int| 0 <= y < g.cells.len() implies ready(s, y, #[trigger] g.cells[y]) by {
    }
    lemma_rows(s, g.cells, g.rows);
    let t = s.performed_all(b);
    assert(drawn_rows(g.cells).take(g.rows) + s.grid.cells.skip(g.rows) =~= drawn_rows(g.cells));
    lemma_finish(t, g, title);
}

/// A row that is not drawn up to the right margin and is blank behind what it
/// shows comes back as it is.
pub proof fn law_row_comes_back(row: Seq<CellView>)
    requires
        behind(row, render::written_len(row) as int) < row.len(),
        forall|x: int|
            behind(row, render::written_len(row) as int) <= x < row.len() ==> #[trigger] row[x]
                == cell::blank(),
    ensures
        drawn(row) == row,
{
    assert(drawn(row) =~= row);
}

/// The modes come back, if the mouse is not tracked or tracked in every movement,
/// and its encoding is one of those there are.
pub proof fn law_modes_come_back(m: TerminalModes)
    requires
        m.mouse_mode == 0 || m.mouse_mode == 1003,
        m.mouse_encoding == 0 || m.mouse_encoding == 1005 || m.mouse_encoding == 1006,
    ensures
        restored_modes(m) == m,
{
}

/// Whether a row comes back as it is when a frame draws it.
pub open spec fn comes_back(row: Seq<CellView>) -> bool {
    let end = behind(row, render::written_len(row) as int);
    &&& printed_row(row)
    &&& end < row.len()
    &&& forall|x: int| end <= x < row.len() ==> #[trigger] row[x] == cell::blank()
}

/// A client that attaches with a fresh terminal sees the session's screen: the full
/// frame turns it into the grid that the frame was rendered from, with its title.
pub proof fn law_fresh_terminal_shows_screen(g: GridView, title: Seq<char>, limit: int)
    requires
        g.wf(),
        0 <= limit,
        forall|y: int| 0 <= y < g.rows ==> comes_back(#[trigger] g.cells[y]),
        g.scroll_top < g.scroll_bottom || g.rows == 1,
        g.modes.mouse_mode == 0 || g.modes.mouse_mode == 1003,
        g.modes.mouse_encoding == 0 || g.modes.mouse_encoding == 1005 || g.modes.mouse_encoding
            == 1006,
        render::printable(encode_utf8(title)) == encode_utf8(title),
    ensures
        ({
            let t = fresh(g.cols, g.rows, limit).performed_all(replay::frame_events(g, title));
            &&& t.grid == GridView { wrap_pending: false, ..g }
            &&& t.title == title
            &&& t.style == style::plain()
            &&& t.passthrough == Seq::<Seq<u8>>::empty()
            &&& t.responses == Seq::<Seq<u8>>::empty()
        }),
{
    let outer = fresh(g.cols, g.rows, limit);
    assert forall|y: int| 0 <= y < g.rows implies printed_row(#[trigger] g.cells[y]) && drawn(
        g.cells[y],
    ) == g.cells[y] by {
        assert(comes_back(g.cells[y]));
        law_row_comes_back(g.cells[y]);
    }
    law_frame_restores_screen(outer, g, title);
    law_modes_come_back(g.modes);
    assert(drawn_rows(g.cells) =~= g.cells);
    if title.len() == 0 {
        assert(title =~= seq![]);
    }
}

// Leaving a terminal

/// What a client sends to a terminal that it leaves, read as events.
pub open spec fn cleanup_events() -> Seq<EventView> {
    seq![replay::dec_event(25, true), replay::dec_event(7, true)] + seq![
        replay::dec_event(1, false),
        replay::dec_event(2004, false),
    ] + seq![replay::dec_event(1000, false), replay::dec_event(1002, false)] + seq![
        replay::dec_event(1003, false),
        replay::dec_event(1005, false),
    ] + seq![replay::dec_event(1006, false), replay::dec_event(1004, false)] + seq![
        replay::dec_event(2026, false),
        replay::keypad_event(false),
    ] + seq![
        replay::shape_event(grid::CursorShape::Default),
        replay::control(seq![seq![0u16]], 'm'),
    ]
}

/// The modes of a terminal that a client left: those of a fresh terminal, but for
/// the character sets.
pub open spec fn left_modes(m: TerminalModes) -> TerminalModes {
    TerminalModes {
        g0_charset: m.g0_charset,
        g1_charset: m.g1_charset,
        active_charset: m.active_charset,
        ..grid::initial_modes()
    }
}

proof fn lemma_flags_step(t: ScreenView, m: TerminalModes, a: u16, b: u16, on: bool)
    requires
        a != 25 && a != 47 && a != 1047 && a != 1048 && a != 1049,
        b != 25 && b != 47 && b != 1047 && b != 1048 && b != 1049,
    ensures
        set_modes(t, m).performed_all(seq![replay::dec_event(a, on), replay::dec_event(b, on)])
            == set_modes(t, model::flag_set(model::flag_set(m, a, on), b, on)),
{
    lemma_two(set_modes(t, m), replay::dec_event(a, on), replay::dec_event(b, on));
    lemma_flag_step(t, m, a, on);
    lemma_flag_step(t, model::flag_set(m, a, on), b, on);
}

proof fn lemma_shown(s: ScreenView)
    ensures
        s.performed_all(seq![replay::dec_event(25, true), replay::dec_event(7, true)])
            == set_modes(
            s.with_grid(GridView { cursor_visible: true, ..s.grid }),
            model::flag_set(s.grid.modes, 7, true),
        ),
{
    let shown = s.with_grid(GridView { cursor_visible: true, ..s.grid });
    lemma_two(s, replay::dec_event(25, true), replay::dec_event(7, true));
    lemma_mode(s, 25, true);
    lemma_flag(shown, 7, true);
}

/// Whatever a session did to the outer terminal, the client leaves it with a visible
/// cursor of the default shape, without attributes, and with the modes of a fresh
/// terminal. Nothing else changes.
#[verifier::rlimit(50)]
pub proof fn law_cleanup_resets_terminal(s: ScreenView)
    ensures
        s.performed_all(cleanup_events()) == (ScreenView {
            grid: GridView {
                cursor_visible: true,
                modes: left_modes(s.grid.modes),
                ..s.grid
            },
            style: style::plain(),
            ..s
        }),
{
    let shown = s.with_grid(GridView { cursor_visible: true, ..s.grid });
    let e1 = seq![replay::dec_event(25, true), replay::dec_event(7, true)];
    let e2 = seq![replay::dec_event(1, false), replay::dec_event(2004, false)];
    let e3 = seq![replay::dec_event(1000, false), replay::dec_event(1002, false)];
    let e4 = seq![replay::dec_event(1003, false), replay::dec_event(1005, false)];
    let e5 = seq![replay::dec_event(1006, false), replay::dec_event(1004, false)];
    let e6 = seq![replay::dec_event(2026, false), replay::keypad_event(false)];
    let shape = replay::shape_event(grid::CursorShape::Default);
    let reset = replay::control(seq![seq![0u16]], 'm');
    law_events_in_parts(s, e1 + e2 + e3 + e4 + e5 + e6, seq![shape, reset]);
    law_events_in_parts(s, e1 + e2 + e3 + e4 + e5, e6);
    law_events_in_parts(s, e1 + e2 + e3 + e4, e5);
    law_events_in_parts(s, e1 + e2 + e3, e4);
    law_events_in_parts(s, e1 + e2, e3);
    law_events_in_parts(s, e1, e2);
    let m1 = model::flag_set(s.grid.modes, 7, true);
    let m2 = model::flag_set(model::flag_set(m1, 1, false), 2004, false);
    let m3 = model::flag_set(model::flag_set(m2, 1000, false), 1002, false);
    let m4 = model::flag_set(model::flag_set(m3, 1003, false), 1005, false);
    let m5 = model::flag_set(model::flag_set(m4, 1006, false), 1004, false);
    let m6 = TerminalModes { keypad_app_mode: false, ..m5 };
    let m7 = TerminalModes { cursor_shape: grid::CursorShape::Default, ..m6 };
    lemma_shown(s);
    lemma_flags_step(shown, m1, 1, 2004, false);
    lemma_flags_step(shown, m2, 1000, 1002, false);
    lemma_flags_step(shown, m3, 1003, 1005, false);
    lemma_flags_step(shown, m4, 1006, 1004, false);
    lemma_two(set_modes(shown, m5), replay::dec_event(2026, false), replay::keypad_event(false));
    lemma_flag_step(shown, m5, 2026, false);
    lemma_keypad_step(shown, m5, false);
    lemma_two(set_modes(shown, m6), shape, reset);
    lemma_shape_step(shown, m6, grid::CursorShape::Default);
    lemma_style_reset(set_modes(shown, m7));
    assert(m7 == left_modes(s.grid.modes));
    reveal(set_modes);
}

} // verus!
