//! How text flows: printing, wrapping, scrolling into the history, and resizing.

use vstd::prelude::*;

use super::cell;
use super::cell::CellView;
use super::edits::{erased, same_but_cells};
use super::fresh;
use super::grid;
use super::grid::{ActiveCharset, Charset, CursorShape, GridView, TerminalModes};
use super::model;
use super::model::{EventView, ScreenView};
use super::motion;
use super::screen_resized;
use super::style::{Style, UnderlineStyle};
use super::width;

verus! {

// Character sets

/// In the ASCII set a character stands for itself. In the line drawing set thirteen
/// characters stand for others, and the rest for themselves. The active slot decides
/// which set it is.
pub proof fn law_character_sets(m: TerminalModes, c: char)
    ensures
        ({
            let set = if m.active_charset == ActiveCharset::G0 {
                m.g0_charset
            } else {
                m.g1_charset
            };
            let shown = model::mapped(m, c);
            let drawing = set == Charset::LineDrawing;
            &&& !drawing ==> shown == c
            &&& drawing && c == 'j' ==> shown == '\u{2518}'
            &&& drawing && c == 'k' ==> shown == '\u{2510}'
            &&& drawing && c == 'l' ==> shown == '\u{250c}'
            &&& drawing && c == 'm' ==> shown == '\u{2514}'
            &&& drawing && c == 'n' ==> shown == '\u{253c}'
            &&& drawing && c == 'q' ==> shown == '\u{2500}'
            &&& drawing && c == 't' ==> shown == '\u{251c}'
            &&& drawing && c == 'u' ==> shown == '\u{2524}'
            &&& drawing && c == 'v' ==> shown == '\u{2534}'
            &&& drawing && c == 'w' ==> shown == '\u{252c}'
            &&& drawing && c == 'x' ==> shown == '\u{2502}'
            &&& drawing && c == 'a' ==> shown == '\u{2592}'
            &&& drawing && c == '`' ==> shown == '\u{25c6}'
            &&& drawing && !(0x6a <= c as u32 <= 0x6e) && !(0x74 <= c as u32 <= 0x78) && c != 'q'
                && c != 'a' && c != '`' ==> shown == c
        }),
{
}

/// A printable ASCII character takes one column and a control character none; what other
/// characters take, the width table says.
pub proof fn law_columns(c: char)
    ensures
        0x20 <= c as u32 <= 0x7e ==> width::columns(c) == 1,
        (c as u32) < 0x20 || 0x7f <= c as u32 <= 0x9f ==> width::columns(c) == 0,
        c as u32 > 0x9f ==> width::columns(c) == match width::char_columns(c) {
            Some(w) => w as int,
            None => 0,
        },
{
}

// Printing

/// A character of one column is written over the cell at the cursor in the style in
/// effect, and the cursor moves one column right; from the right margin it does not move,
/// but with autowrap the next character wraps. Of a wide character that it is written
/// into, the other half is erased. No other cell changes.
pub proof fn law_print(s: ScreenView, c: char, x: int, y: int)
    requires
        s.wf(),
        width::columns(model::mapped(s.grid.modes, c)) == 1,
        !(s.grid.wrap_pending && s.grid.modes.autowrap_mode),
        0 <= x < s.grid.cols,
        0 <= y < s.grid.rows,
    ensures
        ({
            let t = s.performed(EventView::Print(c));
            let shown = model::mapped(s.grid.modes, c);
            let (cx, cy) = (s.grid.cursor_x, s.grid.cursor_y);
            let row = s.grid.cells[cy];
            let at_margin = cx + 1 == s.grid.cols;
            let moved = ScreenView {
                grid: GridView {
                    cursor_x: if at_margin {
                        cx
                    } else {
                        cx + 1
                    },
                    wrap_pending: s.grid.wrap_pending || (at_margin && s.grid.modes.autowrap_mode),
                    ..s.grid
                },
                last_printed_char: shown,
                ..s
            };
            &&& same_but_cells(moved, t)
            &&& t.grid.cells[y][x] == if y == cy && x == cx {
                CellView { c: shown, combining: seq![], style: s.style, width: 1 }
            } else if y == cy && ((x == cx - 1 && row[cx].width == 0) || (x == cx + 1
                && row[cx].width == 2)) {
                erased(s)
            } else {
                s.grid.cells[y][x]
            }
        }),
{
    motion::lemma_prints(s, c);
    let shown = model::mapped(s.grid.modes, c);
    assert(s.grid.cells[y].len() == s.grid.cols);
    assert(s.line().len() == s.grid.cols);
    assert(s.printed(c) == s.put(shown, 1));
}

/// A deferred wrap is a CR and an LF before the next character.
pub proof fn law_deferred_wrap(s: ScreenView, c: char)
    requires
        s.wf(),
        s.grid.wrap_pending,
        s.grid.modes.autowrap_mode,
        width::columns(model::mapped(s.grid.modes, c)) >= 1,
    ensures
        s.performed(EventView::Print(c)) == s.performed(EventView::Execute(0x0d)).performed(
            EventView::Execute(0x0a),
        ).performed(EventView::Print(c)),
{
    motion::lemma_executes(s, 0x0d);
    let home = s.executed(0x0d);
    motion::lemma_executes(home, 0x0a);
    let next = home.executed(0x0a);
    motion::lemma_prints(s, c);
    motion::lemma_prints(next, c);
    assert(home == s.moved(0, s.grid.cursor_y));
    assert(next == home.fed());
    assert(next == s.unwrapped());
    assert(next.grid.modes == s.grid.modes);
    assert(!next.grid.wrap_pending);
    assert(next.unwrapped() == next);
}

/// A character of two columns is written over the cell at the cursor and the next one,
/// and the cursor moves two columns right, to the right margin at most. The halves of wide
/// characters that stand across either end are erased. No other cell changes.
pub proof fn law_print_two_columns(s: ScreenView, c: char, x: int, y: int)
    requires
        s.wf(),
        width::columns(model::mapped(s.grid.modes, c)) == 2,
        !(s.grid.wrap_pending && s.grid.modes.autowrap_mode),
        s.grid.cursor_x + 1 < s.grid.cols,
        ({
            let row = s.grid.cells[s.grid.cursor_y];
            row[s.grid.cursor_x + 1].width == 0 ==> row[s.grid.cursor_x].width == 2
        }),
        0 <= x < s.grid.cols,
        0 <= y < s.grid.rows,
    ensures
        ({
            let t = s.performed(EventView::Print(c));
            let shown = model::mapped(s.grid.modes, c);
            let (cx, cy) = (s.grid.cursor_x, s.grid.cursor_y);
            let row = s.grid.cells[cy];
            let at_margin = cx + 2 == s.grid.cols;
            let moved = ScreenView {
                grid: GridView {
                    cursor_x: if at_margin {
                        cx + 1
                    } else {
                        cx + 2
                    },
                    wrap_pending: s.grid.wrap_pending || (at_margin && s.grid.modes.autowrap_mode),
                    ..s.grid
                },
                last_printed_char: shown,
                ..s
            };
            &&& same_but_cells(moved, t)
            &&& t.grid.cells[y][x] == if y == cy && x == cx {
                CellView { c: shown, combining: seq![], style: s.style, width: 2 }
            } else if y == cy && x == cx + 1 {
                CellView { c: '\0', combining: seq![], style: s.style, width: 0 }
            } else if y == cy && ((x == cx - 1 && row[cx].width == 0) || (x == cx + 2 && row[cx
                + 1].width == 2 && row[cx].width != 2)) {
                erased(s)
            } else {
                s.grid.cells[y][x]
            }
        }),
{
    motion::lemma_prints(s, c);
    let shown = model::mapped(s.grid.modes, c);
    assert(s.grid.cells[y].len() == s.grid.cols);
    assert(s.line().len() == s.grid.cols);
    assert(s.printed(c) == s.put(shown, 2));
}

/// A character of two columns at the right margin leaves an erased cell there and goes to
/// the next line; without autowrap it is not printed at all.
pub proof fn law_print_two_columns_at_margin(s: ScreenView, c: char)
    requires
        s.wf(),
        width::columns(model::mapped(s.grid.modes, c)) == 2,
        !(s.grid.wrap_pending && s.grid.modes.autowrap_mode),
        s.grid.cursor_x + 1 == s.grid.cols,
        s.grid.cols >= 2,
    ensures
        ({
            let (cx, cy) = (s.grid.cursor_x, s.grid.cursor_y);
            let cut = ScreenView {
                grid: GridView {
                    cells: s.grid.cells.update(cy, s.grid.cells[cy].update(cx, erased(s))),
                    ..s.grid
                },
                ..s
            };
            &&& !s.grid.modes.autowrap_mode ==> s.performed(EventView::Print(c)) == s
            &&& s.grid.modes.autowrap_mode ==> s.performed(EventView::Print(c)) == cut.performed(
                EventView::Execute(0x0d),
            ).performed(EventView::Execute(0x0a)).performed(EventView::Print(c))
        }),
{
    motion::lemma_prints(s, c);
    if s.grid.modes.autowrap_mode {
        let cut = s.with_line(s.line().update(s.grid.cursor_x, s.fill()));
        motion::lemma_executes(cut, 0x0d);
        let home = cut.executed(0x0d);
        motion::lemma_executes(home, 0x0a);
        let next = home.executed(0x0a);
        motion::lemma_prints(next, c);
        assert(home == cut.moved(0, cut.grid.cursor_y));
        assert(next == home.fed());
        assert(!s.grid.wrap_pending);
        assert(next == cut.wrapped());
        assert(next.grid.modes == s.grid.modes);
        assert(next.unwrapped() == next);
        assert(next.grid.cursor_x == 0);
    }
}

/// A character without width is added to the marks of the character before the cursor, or
/// of the one under it while a wrap is deferred; of a wide character to its first half.
/// At the left margin it is dropped. Nothing else changes.
pub proof fn law_print_mark(s: ScreenView, c: char, x: int, y: int)
    requires
        s.wf(),
        width::columns(model::mapped(s.grid.modes, c)) == 0,
        0 <= x < s.grid.cols,
        0 <= y < s.grid.rows,
    ensures
        ({
            let t = s.performed(EventView::Print(c));
            let shown = model::mapped(s.grid.modes, c);
            let (cx, cy) = (s.grid.cursor_x, s.grid.cursor_y);
            let row = s.grid.cells[cy];
            let near = if s.grid.wrap_pending {
                cx
            } else {
                cx - 1
            };
            let at = if near > 0 && row[near].width == 0 {
                near - 1
            } else {
                near
            };
            &&& near < 0 ==> t == s
            &&& near >= 0 ==> same_but_cells(s, t)
            &&& near >= 0 && y == cy && x == at ==> t.grid.cells[y][x] == (CellView {
                combining: row[at].combining + seq![shown],
                ..row[at]
            })
            &&& near >= 0 && !(y == cy && x == at) ==> t.grid.cells[y][x] == s.grid.cells[y][x]
        }),
{
    motion::lemma_prints(s, c);
    assert(s.grid.cells[y].len() == s.grid.cols);
    assert(s.line().len() == s.grid.cols);
    assert forall|marks: Seq<char>| #[trigger]
        marks.push(model::mapped(s.grid.modes, c)) == marks + seq![
            model::mapped(s.grid.modes, c),
        ] by {
        assert(marks.push(model::mapped(s.grid.modes, c)) =~= marks + seq![
            model::mapped(s.grid.modes, c),
        ]);
    }
}

/// REP prints the character that was printed last `n` times more.
pub proof fn law_repeat(s: ScreenView, intermediates: Seq<u8>, n: u16)
    requires
        n >= 1,
    ensures
        s.performed(EventView::Csi { params: seq![seq![n]], intermediates, action: 'b' })
            == s.performed_all(Seq::new(n as nat, |i: int| EventView::Print(s.last_printed_char))),
{
    motion::lemma_edits(s, seq![seq![n]], intermediates, 'b');
    assert(model::param(seq![seq![n]], 0, 1) == n);
    lemma_printed_times(s, s.last_printed_char, n as nat);
}

proof fn lemma_printed_times(s: ScreenView, c: char, n: nat)
    ensures
        s.printed_times(c, n as int) == s.performed_all(Seq::new(n, |i: int| EventView::Print(c))),
    decreases n,
{
    let events = Seq::new(n, |i: int| EventView::Print(c));
    if n > 0 {
        lemma_printed_times(s, c, (n - 1) as nat);
        assert(events.drop_last() =~= Seq::new((n - 1) as nat, |i: int| EventView::Print(c)));
        motion::lemma_prints(s.printed_times(c, n - 1), c);
    }
}

// Scrolling

/// Whether `t` is `s` with other cells and another history.
pub open spec fn only_scrolled(s: ScreenView, t: ScreenView) -> bool {
    &&& t == ScreenView {
        grid: GridView { cells: t.grid.cells, ..s.grid },
        scrollback: t.scrollback,
        pending_scrollback: t.pending_scrollback,
        ..s
    }
    &&& t.grid.wf()
}

proof fn lemma_one_up(s: ScreenView, y: int)
    requires
        s.wf(),
        0 <= y < s.grid.rows,
    ensures
        only_scrolled(s, s.scrolled_up()),
        s.scrolled_up().grid.cells[y] == if y < s.grid.scroll_top || y > s.grid.scroll_bottom {
            s.grid.cells[y]
        } else if y == s.grid.scroll_bottom {
            s.fill_row()
        } else {
            s.grid.cells[y + 1]
        },
{
    let t = s.scrolled_up();
    assert forall|k: int| 0 <= k < t.grid.rows implies (#[trigger] t.grid.cells[k]).len()
        == t.grid.cols by {
        assert(t.grid.cells[k] == if k < s.grid.scroll_top || k > s.grid.scroll_bottom {
            s.grid.cells[k]
        } else if k == s.grid.scroll_bottom {
            s.fill_row()
        } else {
            s.grid.cells[k + 1]
        });
    }
}

proof fn lemma_up_by(s: ScreenView, n: int, y: int)
    requires
        s.wf(),
        0 <= n,
        0 <= y < s.grid.rows,
    ensures
        only_scrolled(s, s.scrolled_up_by(n)),
        s.scrolled_up_by(n).grid.cells[y] == if y < s.grid.scroll_top || y > s.grid.scroll_bottom {
            s.grid.cells[y]
        } else if y + n > s.grid.scroll_bottom {
            if n == 0 {
                s.grid.cells[y]
            } else {
                s.fill_row()
            }
        } else {
            s.grid.cells[y + n]
        },
    decreases n,
{
    if n > 0 {
        lemma_up_by(s, n - 1, y);
        let t = s.scrolled_up_by(n - 1);
        lemma_one_up(t, y);
        if y < s.grid.scroll_bottom {
            lemma_up_by(s, n - 1, y + 1);
        }
        assert(t.fill_row() == s.fill_row());
    }
}

/// SU: the rows of the scroll region move up by `n`, and erased rows come in at its
/// bottom. Rows outside the region stay, and so does the cursor.
pub proof fn law_scroll_up(s: ScreenView, intermediates: Seq<u8>, n: u16, x: int, y: int)
    requires
        s.wf(),
        n >= 1,
        0 <= x < s.grid.cols,
        0 <= y < s.grid.rows,
    ensures
        ({
            let t = s.performed(
                EventView::Csi { params: seq![seq![n]], intermediates, action: 'S' },
            );
            &&& only_scrolled(s, t)
            &&& t.grid.cells[y][x] == if y < s.grid.scroll_top || y > s.grid.scroll_bottom {
                s.grid.cells[y][x]
            } else if y + n > s.grid.scroll_bottom {
                erased(s)
            } else {
                s.grid.cells[y + n][x]
            }
        }),
{
    motion::lemma_scrolls_up(s, seq![seq![n]], intermediates);
    assert(model::param(seq![seq![n]], 0, 1) == n);
    lemma_up_by(s, model::min(n as int, s.grid.rows), y);
    assert(s.fill_row()[x] == erased(s));
}

/// Scrolling by several rows is scrolling by one row several times, as often as the
/// screen has rows at most.
pub proof fn law_scroll_up_step_by_step(s: ScreenView, intermediates: Seq<u8>, n: u16)
    requires
        s.wf(),
        n >= 1,
    ensures
        ({
            let up = |t: ScreenView, n: u16|
                t.performed(EventView::Csi { params: seq![seq![n]], intermediates, action: 'S' });
            &&& n < s.grid.rows ==> up(s, (n + 1) as u16) == up(up(s, n), 1)
            &&& n > s.grid.rows ==> up(s, n) == up(s, s.grid.rows as u16)
        }),
{
    let k = (n + 1) as u16;
    let last = s.grid.rows as u16;
    let t = s.scrolled_up_by(model::min(n as int, s.grid.rows));
    motion::lemma_scrolls_up(s, seq![seq![n]], intermediates);
    motion::lemma_scrolls_up(s, seq![seq![last]], intermediates);
    assert(model::param(seq![seq![n]], 0, 1) == n);
    assert(model::param(seq![seq![last]], 0, 1) == last);
    if n < s.grid.rows {
        motion::lemma_scrolls_up(s, seq![seq![k]], intermediates);
        motion::lemma_scrolls_up(t, seq![seq![1]], intermediates);
        assert(model::param(seq![seq![k]], 0, 1) == k);
        assert(model::param(seq![seq![1u16]], 0, 1) == 1);
        lemma_up_by(s, n as int, 0);
        reveal_with_fuel(ScreenView::scrolled_up_by, 2);
    }
}

/// A row that scrolls off the top of the main screen goes to the end of the history, and
/// to the rows that wait for the client. Either drops its oldest row first where it is
/// full. Rows that leave a region further down, or the alternate screen, are gone.
pub proof fn law_scrolled_row_is_remembered(s: ScreenView, intermediates: Seq<u8>)
    requires
        s.wf(),
    ensures
        ({
            let t = s.performed(
                EventView::Csi { params: seq![seq![1]], intermediates, action: 'S' },
            );
            let keeps = !s.in_alt_screen && s.grid.scroll_top == 0;
            let (old, new) = (s.scrollback, t.scrollback);
            let (before, after) = (s.pending_scrollback, t.pending_scrollback);
            let row = s.grid.cells[0];
            &&& !keeps ==> new == old && after == before
            &&& keeps && (old.len() < s.scrollback_limit || old.len() == 0) ==> new == old + seq![
                row,
            ]
            &&& keeps && old.len() >= s.scrollback_limit && old.len() > 0 ==> new == old.skip(1)
                + seq![row]
            &&& keeps && (before.len() < s.scrollback_limit || before.len() == 0) ==> after
                == before + seq![row]
            &&& keeps && before.len() >= s.scrollback_limit && before.len() > 0 ==> after
                == before.skip(1) + seq![row]
        }),
{
    motion::lemma_scrolls_up(s, seq![seq![1]], intermediates);
    assert(model::param(seq![seq![1u16]], 0, 1) == 1);
    reveal_with_fuel(ScreenView::scrolled_up_by, 2);
    let t = s.scrolled_up();
    let row = s.grid.cells[0];
    assert(s.scrollback.push(row) =~= s.scrollback + seq![row]);
    assert(s.pending_scrollback.push(row) =~= s.pending_scrollback + seq![row]);
    if s.scrollback.len() > 0 {
        assert(s.scrollback.drop_first().push(row) =~= s.scrollback.skip(1) + seq![row]);
    }
    if s.pending_scrollback.len() > 0 {
        assert(s.pending_scrollback.drop_first().push(row) =~= s.pending_scrollback.skip(1)
            + seq![row]);
    }
}

proof fn lemma_one_down(s: ScreenView, y: int)
    requires
        s.wf(),
        0 <= y < s.grid.rows,
    ensures
        same_but_cells(s, s.scrolled_down()),
        s.scrolled_down().grid.cells[y] == if y < s.grid.scroll_top || y > s.grid.scroll_bottom {
            s.grid.cells[y]
        } else if y == s.grid.scroll_top {
            s.fill_row()
        } else {
            s.grid.cells[y - 1]
        },
{
    let t = s.scrolled_down();
    assert forall|k: int| 0 <= k < t.grid.rows implies (#[trigger] t.grid.cells[k]).len()
        == t.grid.cols by {
        assert(t.grid.cells[k] == if k < s.grid.scroll_top || k > s.grid.scroll_bottom {
            s.grid.cells[k]
        } else if k == s.grid.scroll_top {
            s.fill_row()
        } else {
            s.grid.cells[k - 1]
        });
    }
}

proof fn lemma_down_by(s: ScreenView, n: int, y: int)
    requires
        s.wf(),
        0 <= n,
        0 <= y < s.grid.rows,
    ensures
        same_but_cells(s, s.scrolled_down_by(n)),
        s.scrolled_down_by(n).grid.cells[y] == if y < s.grid.scroll_top || y
            > s.grid.scroll_bottom {
            s.grid.cells[y]
        } else if y - n < s.grid.scroll_top {
            if n == 0 {
                s.grid.cells[y]
            } else {
                s.fill_row()
            }
        } else {
            s.grid.cells[y - n]
        },
    decreases n,
{
    if n > 0 {
        lemma_down_by(s, n - 1, y);
        let t = s.scrolled_down_by(n - 1);
        lemma_one_down(t, y);
        if y > s.grid.scroll_top {
            lemma_down_by(s, n - 1, y - 1);
        }
        assert(t.fill_row() == s.fill_row());
    }
}

/// SD: the rows of the scroll region move down by `n`, and erased rows come in at its
/// top. What leaves the region is gone. Without a count it is one; with more than one
/// parameter it is another function, which does nothing.
pub proof fn law_scroll_down(s: ScreenView, intermediates: Seq<u8>, n: u16, x: int, y: int)
    requires
        s.wf(),
        n >= 1,
        0 <= x < s.grid.cols,
        0 <= y < s.grid.rows,
    ensures
        ({
            let t = s.performed(
                EventView::Csi { params: seq![seq![n]], intermediates, action: 'T' },
            );
            &&& same_but_cells(s, t)
            &&& t.grid.cells[y][x] == if y < s.grid.scroll_top || y > s.grid.scroll_bottom {
                s.grid.cells[y][x]
            } else if y - n < s.grid.scroll_top {
                erased(s)
            } else {
                s.grid.cells[y - n][x]
            }
        }),
{
    motion::lemma_scrolls_down(s, seq![seq![n]], intermediates);
    assert(model::param(seq![seq![n]], 0, 1) == n);
    lemma_down_by(s, model::min(n as int, s.grid.rows), y);
    assert(s.fill_row()[x] == erased(s));
}

/// The defaults of SD.
pub proof fn law_scroll_down_defaults(
    s: ScreenView,
    params: Seq<Seq<u16>>,
    intermediates: Seq<u8>,
)
    ensures
        ({
            let one = s.performed(
                EventView::Csi { params: seq![seq![1]], intermediates, action: 'T' },
            );
            &&& s.performed(EventView::Csi { params: seq![], intermediates, action: 'T' }) == one
            &&& s.performed(EventView::Csi { params: seq![seq![0]], intermediates, action: 'T' })
                == one
            &&& params.len() > 1 ==> s.performed(
                EventView::Csi { params, intermediates, action: 'T' },
            ) == s
        }),
{
    motion::lemma_scrolls_down(s, seq![seq![1]], intermediates);
    motion::lemma_scrolls_down(s, seq![], intermediates);
    motion::lemma_scrolls_down(s, seq![seq![0]], intermediates);
    assert(model::param(seq![seq![1u16]], 0, 1) == 1);
    assert(model::param(seq![seq![0u16]], 0, 1) == 1);
    if params.len() > 1 {
        lemma_not_scrolled(s, params, intermediates);
    }
}

proof fn lemma_not_scrolled(s: ScreenView, params: Seq<Seq<u16>>, intermediates: Seq<u8>)
    requires
        params.len() > 1,
    ensures
        s.performed(EventView::Csi { params, intermediates, action: 'T' }) == s,
{
    reveal(ScreenView::performed);
}

// Sizes

/// An empty cell: a space without attributes.
pub open spec fn empty() -> CellView {
    CellView {
        c: ' ',
        combining: seq![],
        style: Style {
            bold: false,
            dim: false,
            italic: false,
            underline: UnderlineStyle::Off,
            blink: false,
            inverse: false,
            strikethrough: false,
            hidden: false,
            fg: None,
            bg: None,
        },
        width: 1,
    }
}

/// A size of zero is one.
pub open spec fn size(n: int) -> int {
    if n > 0 {
        n
    } else {
        1
    }
}

/// Resizing keeps every cell in its place, where both sizes hold it: rows at the bottom
/// and columns at the right are cut or added, empty. Only a main screen that grows in
/// rows takes the latest rows of the history back, as many as there is room for, and what
/// is on it moves down by as many rows, with the cursor. A cursor outside the new size
/// goes to its margins, a deferred wrap is dropped, and the scroll region is the whole
/// screen. Nothing else changes.
pub proof fn law_resize(s: ScreenView, cols: int, rows: int, x: int, y: int)
    requires
        s.wf(),
        0 <= cols,
        0 <= rows,
        0 <= x < size(cols),
        0 <= y < size(rows),
    ensures
        ({
            let t = screen_resized(s, cols, rows);
            let len = s.scrollback.len() as int;
            let back = if s.in_alt_screen || rows <= s.grid.rows {
                0
            } else if rows - s.grid.rows < len {
                rows - s.grid.rows
            } else {
                len
            };
            let (cx, cy) = (s.grid.cursor_x, s.grid.cursor_y + back);
            &&& t == (ScreenView {
                grid: GridView {
                    cols: size(cols),
                    rows: size(rows),
                    cells: t.grid.cells,
                    cursor_x: if cx < size(cols) {
                        cx
                    } else {
                        size(cols) - 1
                    },
                    cursor_y: if cy < size(rows) {
                        cy
                    } else {
                        size(rows) - 1
                    },
                    wrap_pending: false,
                    scroll_top: 0,
                    scroll_bottom: size(rows) - 1,
                    ..s.grid
                },
                scrollback: s.scrollback.take(len - back),
                ..s
            })
            &&& t.grid.cells.len() == size(rows)
            &&& t.grid.cells[y].len() == size(cols)
            &&& y < back ==> t.grid.cells[y][x] == if x < s.scrollback[len - back + y].len() {
                s.scrollback[len - back + y][x]
            } else {
                empty()
            }
            &&& y >= back ==> t.grid.cells[y][x] == if y - back < s.grid.rows && x < s.grid.cols {
                s.grid.cells[y - back][x]
            } else {
                empty()
            }
        }),
{
    let len = s.scrollback.len() as int;
    let back = super::restored_count(s, rows);
    let all = s.scrollback.skip(len - back) + s.grid.cells;
    assert(all.len() == back + s.grid.rows);
    if y < back {
        assert(all[y] == s.scrollback[len - back + y]);
    } else if y - back < s.grid.rows {
        assert(all[y] == s.grid.cells[y - back]);
        assert(s.grid.cells[y - back].len() == s.grid.cols);
    }
}

/// What a terminal starts with: an empty screen, the cursor home and visible, the whole
/// screen as scroll region, autowrap and nothing else set, and no history.
pub proof fn law_fresh(cols: int, rows: int, limit: int, x: int, y: int)
    requires
        0 <= cols,
        0 <= rows,
        0 <= x < size(cols),
        0 <= y < size(rows),
    ensures
        ({
            let t = fresh(cols, rows, limit);
            &&& t == (ScreenView {
                grid: GridView {
                    cols: size(cols),
                    rows: size(rows),
                    cells: t.grid.cells,
                    cursor_x: 0,
                    cursor_y: 0,
                    wrap_pending: false,
                    scroll_top: 0,
                    scroll_bottom: size(rows) - 1,
                    cursor_visible: true,
                    modes: TerminalModes {
                        cursor_key_mode: false,
                        bracketed_paste: false,
                        autowrap_mode: true,
                        focus_reporting: false,
                        mouse_mode: 0,
                        mouse_encoding: 0,
                        keypad_app_mode: false,
                        cursor_shape: CursorShape::Default,
                        g0_charset: Charset::Ascii,
                        g1_charset: Charset::Ascii,
                        active_charset: ActiveCharset::G0,
                    },
                },
                style: empty().style,
                in_alt_screen: false,
                saved_grid: None,
                saved_cursor: None,
                saved_modes: None,
                responses: seq![],
                passthrough: seq![],
                title: seq![],
                last_printed_char: ' ',
                scrollback: seq![],
                scrollback_limit: limit,
                pending_scrollback: seq![],
            })
            &&& t.grid.cells.len() == size(rows)
            &&& t.grid.cells[y].len() == size(cols)
            &&& t.grid.cells[y][x] == empty()
        }),
{
}

/// RIS makes a terminal as a fresh one of its size is; what it owes and its history stay.
pub proof fn law_full_reset(s: ScreenView)
    requires
        s.wf(),
    ensures
        ({
            let t = s.performed(EventView::Esc { intermediates: seq![], byte: 0x63 });
            let new = fresh(s.grid.cols, s.grid.rows, s.scrollback_limit);
            t == (ScreenView {
                saved_modes: s.saved_modes,
                responses: s.responses,
                passthrough: s.passthrough,
                scrollback: s.scrollback,
                pending_scrollback: s.pending_scrollback,
                ..new
            })
        }),
{
    motion::lemma_escapes(s, seq![], 0x63);
    let new = fresh(s.grid.cols, s.grid.rows, s.scrollback_limit);
    assert(s.reset().grid.cells =~= new.grid.cells);
}

// Alternate screen

/// Modes 1049, 1047 and 47 switch to the alternate screen: it is empty, with the cursor
/// home and the whole screen as scroll region. Cells and modes of the main screen are put
/// aside, and with 1049 the cursor is saved. Nothing else changes.
pub proof fn law_alternate_screen(s: ScreenView, mode: u16, x: int, y: int)
    requires
        s.wf(),
        mode == 1049 || mode == 1047 || mode == 47,
        0 <= x < s.grid.cols,
        0 <= y < s.grid.rows,
    ensures
        ({
            let t = s.performed(
                EventView::Csi { params: seq![seq![mode]], intermediates: seq![0x3f], action: 'h' },
            );
            let saved = s.performed(EventView::Esc { intermediates: seq![], byte: 0x37 });
            &&& t == (ScreenView {
                grid: GridView {
                    cells: t.grid.cells,
                    cursor_x: 0,
                    cursor_y: 0,
                    scroll_top: 0,
                    scroll_bottom: s.grid.rows - 1,
                    wrap_pending: false,
                    ..s.grid
                },
                in_alt_screen: true,
                saved_grid: Some(s.grid.cells),
                saved_modes: Some(s.grid.modes),
                saved_cursor: if mode == 1049 {
                    saved.saved_cursor
                } else {
                    s.saved_cursor
                },
                ..s
            })
            &&& t.grid.wf()
            &&& t.grid.cells[y][x] == empty()
        }),
{
    motion::lemma_sets_mode(s, mode, true);
    motion::lemma_escapes(s, seq![], 0x37);
    assert(s.grid.cells[y].len() == s.grid.cols);
}

/// Resetting them switches back: the cells and modes that were put aside return, the
/// scroll region is the whole screen, and with 1049 the saved cursor comes back. Nothing
/// else changes.
pub proof fn law_main_screen(t: ScreenView, cells: Seq<Seq<CellView>>, m: TerminalModes, mode: u16)
    requires
        t.wf(),
        mode == 1049 || mode == 1047 || mode == 47,
        t.saved_grid == Some(cells),
        t.saved_modes == Some(m),
        cells.len() == t.grid.rows,
        forall|y: int| 0 <= y < cells.len() ==> (#[trigger] cells[y]).len() == t.grid.cols,
    ensures
        ({
            let main = t.performed(
                EventView::Csi { params: seq![seq![mode]], intermediates: seq![0x3f], action: 'l' },
            );
            let back = ScreenView {
                grid: GridView { cells, modes: m, ..t.grid },
                in_alt_screen: false,
                saved_grid: None,
                saved_modes: None,
                ..t
            };
            let placed = if mode == 1049 {
                back.performed(EventView::Esc { intermediates: seq![], byte: 0x38 })
            } else {
                back
            };
            main == (ScreenView {
                grid: GridView { scroll_top: 0, scroll_bottom: t.grid.rows - 1, ..placed.grid },
                ..placed
            })
        }),
{
    let back = ScreenView {
        grid: GridView { cells, modes: m, ..t.grid },
        in_alt_screen: false,
        saved_grid: None,
        saved_modes: None,
        ..t
    };
    motion::lemma_sets_mode(t, mode, false);
    motion::lemma_escapes(back, seq![], 0x38);
    let fitted = cell::fitted(cells, t.grid.cols, t.grid.rows);
    assert forall|y: int| 0 <= y < cells.len() implies #[trigger] fitted[y] == cells[y] by {
        assert(fitted[y] =~= cells[y]);
    }
    assert(fitted =~= cells);
}

/// With nothing put aside the cells and modes stay as they are.
pub proof fn law_no_main_screen(t: ScreenView, mode: u16)
    requires
        t.wf(),
        mode == 1047 || mode == 47,
        t.saved_grid is None,
        t.saved_modes is None,
    ensures
        t.performed(
            EventView::Csi { params: seq![seq![mode]], intermediates: seq![0x3f], action: 'l' },
        ) == (ScreenView {
            grid: GridView { scroll_top: 0, scroll_bottom: t.grid.rows - 1, ..t.grid },
            in_alt_screen: false,
            ..t
        }),
{
    motion::lemma_sets_mode(t, mode, false);
}

/// A main screen that comes back to a screen of another size keeps every cell in its
/// place, where both hold it, and is empty elsewhere.
pub proof fn law_main_screen_is_fitted(
    t: ScreenView,
    cells: Seq<Seq<CellView>>,
    mode: u16,
    x: int,
    y: int,
)
    requires
        t.wf(),
        mode == 1049 || mode == 1047 || mode == 47,
        t.saved_grid == Some(cells),
        0 <= x < t.grid.cols,
        0 <= y < t.grid.rows,
    ensures
        ({
            let main = t.performed(
                EventView::Csi { params: seq![seq![mode]], intermediates: seq![0x3f], action: 'l' },
            );
            &&& main.grid.cells.len() == t.grid.rows
            &&& main.grid.cells[y].len() == t.grid.cols
            &&& main.grid.cells[y][x] == if y < cells.len() && x < cells[y].len() {
                cells[y][x]
            } else {
                empty()
            }
        }),
{
    motion::lemma_sets_mode(t, mode, false);
}

/// Rows are shown as text one by one, in order.
pub proof fn law_history_text(rows: Seq<Seq<CellView>>, i: int)
    requires
        0 <= i < rows.len(),
    ensures
        super::history_bytes(rows).len() == rows.len(),
        super::history_bytes(rows)[i] == super::render::line_bytes(rows[i]),
        grid::at_least_one(i) == size(i),
{
}

} // verus!
