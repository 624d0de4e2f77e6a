//! What control functions do to the cells of a screen, cell by cell.

use vstd::prelude::*;
use vstd::string::*;

use super::cell;
use super::cell::CellView;
use super::grid;
use super::grid::GridView;
use super::model;
use super::model::{EventView, ScreenView};
use super::motion;
use super::style::{Style, UnderlineStyle};

verus! {

/// An erased cell: a space without attributes, on the background in effect.
pub open spec fn erased(s: ScreenView) -> CellView {
    CellView {
        c: ' ',
        combining: seq![],
        style: Style {
            bold: false,
            dim: false,
            italic: false,
            underline: UnderlineStyle::Off,
            blink: false,
            inverse: false,
            strikethrough: false,
            hidden: false,
            fg: None,
            bg: s.style.bg,
        },
        width: 1,
    }
}

/// Whether `t` is `s` with other cells on a grid of the same size.
pub open spec fn same_but_cells(s: ScreenView, t: ScreenView) -> bool {
    &&& t == ScreenView { grid: GridView { cells: t.grid.cells, ..s.grid }, ..s }
    &&& t.grid.wf()
}

// Erasing

/// EL from the cursor on: the cells of its row from the cursor on are erased, and with
/// them the first half of a wide character that the cursor is on the second half of.
pub proof fn law_erase_line_right(s: ScreenView, intermediates: Seq<u8>, x: int, y: int)
    requires
        s.wf(),
        0 <= x < s.grid.cols,
        0 <= y < s.grid.rows,
    ensures
        ({
            let t = s.performed(
                EventView::Csi { params: seq![], intermediates, action: 'K' },
            );
            let (cx, cy) = (s.grid.cursor_x, s.grid.cursor_y);
            &&& same_but_cells(s, t)
            &&& t == s.performed(
                EventView::Csi { params: seq![seq![0]], intermediates, action: 'K' },
            )
            &&& t.grid.cells[y][x] == if y == cy && (x >= cx || (x == cx - 1
                && s.grid.cells[cy][cx].width == 0)) {
                erased(s)
            } else {
                s.grid.cells[y][x]
            }
        }),
{
    motion::lemma_edits(s, seq![], intermediates, 'K');
    motion::lemma_edits(s, seq![seq![0]], intermediates, 'K');
    assert(model::param(seq![seq![0u16]], 0, 0) == 0);
    assert(s.grid.cells[y].len() == s.grid.cols);
    assert(s.line().len() == s.grid.cols);
}

/// EL up to the cursor: the cells of its row up to the cursor are erased, and with them
/// the second half of a wide character that the cursor is on the first half of.
pub proof fn law_erase_line_left(s: ScreenView, intermediates: Seq<u8>, x: int, y: int)
    requires
        s.wf(),
        0 <= x < s.grid.cols,
        0 <= y < s.grid.rows,
    ensures
        ({
            let t = s.performed(
                EventView::Csi { params: seq![seq![1]], intermediates, action: 'K' },
            );
            let (cx, cy) = (s.grid.cursor_x, s.grid.cursor_y);
            &&& same_but_cells(s, t)
            &&& t.grid.cells[y][x] == if y == cy && (x <= cx || (x == cx + 1
                && s.grid.cells[cy][cx].width == 2)) {
                erased(s)
            } else {
                s.grid.cells[y][x]
            }
        }),
{
    motion::lemma_edits(s, seq![seq![1]], intermediates, 'K');
    assert(model::param(seq![seq![1u16]], 0, 0) == 1);
    assert(s.grid.cells[y].len() == s.grid.cols);
    assert(s.line().len() == s.grid.cols);
}

/// EL of the whole row: all cells of the cursor's row are erased.
pub proof fn law_erase_line(s: ScreenView, intermediates: Seq<u8>, x: int, y: int)
    requires
        s.wf(),
        0 <= x < s.grid.cols,
        0 <= y < s.grid.rows,
    ensures
        ({
            let t = s.performed(
                EventView::Csi { params: seq![seq![2]], intermediates, action: 'K' },
            );
            &&& same_but_cells(s, t)
            &&& t.grid.cells[y][x] == if y == s.grid.cursor_y {
                erased(s)
            } else {
                s.grid.cells[y][x]
            }
        }),
{
    motion::lemma_edits(s, seq![seq![2]], intermediates, 'K');
    assert(model::param(seq![seq![2u16]], 0, 0) == 2);
    assert(s.grid.cells[y].len() == s.grid.cols);
}

/// ED from the cursor on: what EL from the cursor on erases, and all rows below it.
pub proof fn law_erase_below(s: ScreenView, intermediates: Seq<u8>, x: int, y: int)
    requires
        s.wf(),
        0 <= x < s.grid.cols,
        0 <= y < s.grid.rows,
    ensures
        ({
            let t = s.performed(
                EventView::Csi { params: seq![], intermediates, action: 'J' },
            );
            let (cx, cy) = (s.grid.cursor_x, s.grid.cursor_y);
            &&& same_but_cells(s, t)
            &&& t == s.performed(
                EventView::Csi { params: seq![seq![0]], intermediates, action: 'J' },
            )
            &&& t.grid.cells[y][x] == if y > cy || (y == cy && (x >= cx || (x == cx - 1
                && s.grid.cells[cy][cx].width == 0))) {
                erased(s)
            } else {
                s.grid.cells[y][x]
            }
        }),
{
    motion::lemma_edits(s, seq![], intermediates, 'J');
    motion::lemma_edits(s, seq![seq![0]], intermediates, 'J');
    assert(model::param(seq![seq![0u16]], 0, 0) == 0);
    assert(s.grid.cells[y].len() == s.grid.cols);
    assert(s.line().len() == s.grid.cols);
}

/// ED up to the cursor: what EL up to the cursor erases, and all rows above it.
pub proof fn law_erase_above(s: ScreenView, intermediates: Seq<u8>, x: int, y: int)
    requires
        s.wf(),
        0 <= x < s.grid.cols,
        0 <= y < s.grid.rows,
    ensures
        ({
            let t = s.performed(
                EventView::Csi { params: seq![seq![1]], intermediates, action: 'J' },
            );
            let (cx, cy) = (s.grid.cursor_x, s.grid.cursor_y);
            &&& same_but_cells(s, t)
            &&& t.grid.cells[y][x] == if y < cy || (y == cy && (x <= cx || (x == cx + 1
                && s.grid.cells[cy][cx].width == 2))) {
                erased(s)
            } else {
                s.grid.cells[y][x]
            }
        }),
{
    motion::lemma_edits(s, seq![seq![1]], intermediates, 'J');
    assert(model::param(seq![seq![1u16]], 0, 0) == 1);
    assert(s.grid.cells[y].len() == s.grid.cols);
    assert(s.line().len() == s.grid.cols);
}

/// ED of the whole screen erases all cells; with 3 the history too, and the outer
/// terminal is told to erase its own. Other numbers do nothing.
#[verifier::rlimit(50)]
pub proof fn law_erase_all(s: ScreenView, intermediates: Seq<u8>, n: u16, x: int, y: int)
    requires
        s.wf(),
        n >= 2,
        0 <= x < s.grid.cols,
        0 <= y < s.grid.rows,
    ensures
        ({
            let t = s.performed(
                EventView::Csi { params: seq![seq![n]], intermediates, action: 'J' },
            );
            &&& n == 2 ==> same_but_cells(s, t)
            &&& n == 3 ==> same_but_cells(
                ScreenView {
                    scrollback: seq![],
                    pending_scrollback: seq![],
                    passthrough: s.passthrough + seq![seq![0x1bu8, 0x5b, 0x33, 0x4a]],
                    ..s
                },
                t,
            )
            &&& n <= 3 ==> t.grid.cells[y][x] == erased(s)
            &&& n > 3 ==> t == s
            &&& n > 2 ==> s.performed(
                EventView::Csi { params: seq![seq![n]], intermediates, action: 'K' },
            ) == s
        }),
{
    motion::lemma_edits(s, seq![seq![n]], intermediates, 'J');
    motion::lemma_edits(s, seq![seq![n]], intermediates, 'K');
    assert(model::param(seq![seq![n]], 0, 0) == n);
    assert(s.grid.cells[y].len() == s.grid.cols);
    if n == 3 {
        reveal_strlit("\x1b[3J");
        vstd::utf8::is_ascii_chars_encode_utf8("\x1b[3J"@);
        assert("\x1b[3J".spec_bytes() =~= seq![0x1bu8, 0x5b, 0x33, 0x4a]);
        assert(s.passthrough.push("\x1b[3J".spec_bytes()) =~= s.passthrough + seq![
            seq![0x1bu8, 0x5b, 0x33, 0x4a],
        ]);
    }
}

/// ECH: the `n` cells from the cursor on are erased in place, and with them the other
/// halves of wide characters that stand across either end.
pub proof fn law_erase_characters(s: ScreenView, intermediates: Seq<u8>, n: u16, x: int, y: int)
    requires
        s.wf(),
        n >= 1,
        0 <= x < s.grid.cols,
        0 <= y < s.grid.rows,
    ensures
        ({
            let t = s.performed(
                EventView::Csi { params: seq![seq![n]], intermediates, action: 'X' },
            );
            let (cx, cy) = (s.grid.cursor_x, s.grid.cursor_y);
            let end = cx + n;
            let row = s.grid.cells[cy];
            &&& same_but_cells(s, t)
            &&& y == cy && cx <= x < end ==> t.grid.cells[y][x] == erased(s)
            &&& y == cy && x == cx - 1 ==> t.grid.cells[y][x] == if row[cx].width == 0 {
                erased(s)
            } else {
                row[x]
            }
            &&& y == cy && x == end ==> t.grid.cells[y][x] == if row[end].width == 0 || (
            row[end].width == 2 && end + 1 < s.grid.cols) || (n == 1 && row[cx].width == 2) {
                erased(s)
            } else {
                row[x]
            }
            &&& y == cy && x == end + 1 ==> t.grid.cells[y][x] == if row[end].width == 2 && !(n == 1
                && row[cx].width == 2) {
                erased(s)
            } else {
                row[x]
            }
            &&& y != cy || x < cx - 1 || x > end + 1 ==> t.grid.cells[y][x] == s.grid.cells[y][x]
        }),
{
    motion::lemma_edits(s, seq![seq![n]], intermediates, 'X');
    assert(model::param(seq![seq![n]], 0, 1) == n);
    assert(s.grid.cells[y].len() == s.grid.cols);
    assert(s.line().len() == s.grid.cols);
}

// Inserting and deleting

/// DCH: the `n` cells at the cursor are taken out. What follows moves left, erased cells
/// come in at the right. Both halves of a wide character that the cursor is on are
/// erased, and so is a second half that comes to stand at the cursor.
pub proof fn law_delete_characters(s: ScreenView, intermediates: Seq<u8>, n: u16, x: int, y: int)
    requires
        s.wf(),
        n >= 1,
        0 <= x < s.grid.cols,
        0 <= y < s.grid.rows,
    ensures
        ({
            let t = s.performed(
                EventView::Csi { params: seq![seq![n]], intermediates, action: 'P' },
            );
            let (cx, cy) = (s.grid.cursor_x, s.grid.cursor_y);
            let row = s.grid.cells[cy];
            let to = t.grid.cells[y][x];
            &&& same_but_cells(s, t)
            &&& y != cy ==> to == s.grid.cells[y][x]
            &&& y == cy && x < cx ==> to == if x == cx - 1 && row[cx].width == 0 {
                erased(s)
            } else {
                row[x]
            }
            &&& y == cy && x >= cx ==> to == if x + n >= s.grid.cols || (x + n == cx + 1
                && row[cx].width == 2) || (x == cx && row[x + n].width == 0) {
                erased(s)
            } else {
                row[x + n]
            }
        }),
{
    motion::lemma_edits(s, seq![seq![n]], intermediates, 'P');
    assert(model::param(seq![seq![n]], 0, 1) == n);
    assert(s.grid.cells[y].len() == s.grid.cols);
    assert(s.line().len() == s.grid.cols);
    let cx = s.grid.cursor_x;
    let first = cell::unpaired(s.line(), cx, s.fill());
    let k = model::min(n as int, s.grid.cols - cx);
    let row = cell::cells_deleted(first, cx, k, s.fill());
    assert(row.len() == s.grid.cols);
    assert(x >= cx && x + k < s.grid.cols ==> row[x] == first[x + k]);
    assert(x >= cx && x + k >= s.grid.cols ==> row[x] == s.fill());
    assert(x < cx ==> row[x] == first[x]);
}

/// ICH: `n` erased cells are put in at the cursor. What was there moves right, and what
/// leaves the row is gone. Both halves of a wide character that the cursor is on are
/// erased, and so is a first half that comes to stand at the right margin.
pub proof fn law_insert_characters(s: ScreenView, intermediates: Seq<u8>, n: u16, x: int, y: int)
    requires
        s.wf(),
        n >= 1,
        0 <= x < s.grid.cols,
        0 <= y < s.grid.rows,
    ensures
        ({
            let t = s.performed(
                EventView::Csi { params: seq![seq![n]], intermediates, action: '@' },
            );
            let (cx, cy) = (s.grid.cursor_x, s.grid.cursor_y);
            let row = s.grid.cells[cy];
            let to = t.grid.cells[y][x];
            &&& same_but_cells(s, t)
            &&& y != cy ==> to == s.grid.cells[y][x]
            &&& y == cy && x < cx ==> to == if x == cx - 1 && row[cx].width == 0 {
                erased(s)
            } else {
                row[x]
            }
            &&& y == cy && cx <= x < cx + n ==> to == erased(s)
            &&& y == cy && x >= cx + n ==> to == if (x - n == cx && (row[cx].width == 2 || (
            row[cx].width == 0 && cx > 0))) || (x - n == cx + 1 && row[cx].width == 2) || (x
                == s.grid.cols - 1 && row[x - n].width == 2) {
                erased(s)
            } else {
                row[x - n]
            }
        }),
{
    motion::lemma_edits(s, seq![seq![n]], intermediates, '@');
    assert(model::param(seq![seq![n]], 0, 1) == n);
    assert(s.grid.cells[y].len() == s.grid.cols);
    assert(s.line().len() == s.grid.cols);
    let cx = s.grid.cursor_x;
    let last = s.grid.cols - 1;
    let first = cell::unpaired(s.line(), cx, s.fill());
    let k = model::min(n as int, s.grid.cols - cx);
    let row = cell::cells_inserted(first, cx, k, s.fill());
    assert(row.len() == s.grid.cols);
    assert(x < cx ==> row[x] == first[x]);
    assert(cx <= x < cx + k ==> row[x] == s.fill());
    assert(x >= cx + k ==> row[x] == first[x - k]);
    assert(last >= cx + k ==> row[last] == first[last - k]);
    assert(last < cx + k ==> row[last] == s.fill());
}

/// IL: `n` erased rows are put in at the cursor. The rows from there to the bottom of the
/// scroll region move down, and what leaves the region is gone. Outside the region
/// nothing happens. The cursor stays; a deferred wrap is dropped.
pub proof fn law_insert_lines(s: ScreenView, intermediates: Seq<u8>, n: u16, x: int, y: int)
    requires
        s.wf(),
        n >= 1,
        0 <= x < s.grid.cols,
        0 <= y < s.grid.rows,
    ensures
        ({
            let t = s.performed(
                EventView::Csi { params: seq![seq![n]], intermediates, action: 'L' },
            );
            let cy = s.grid.cursor_y;
            let bottom = s.grid.scroll_bottom;
            let calm = ScreenView { grid: GridView { wrap_pending: false, ..s.grid }, ..s };
            let inside = s.grid.scroll_top <= cy <= bottom;
            &&& !inside ==> t == s
            &&& inside ==> same_but_cells(calm, t)
            &&& inside ==> t.grid.cells[y][x] == if y < cy || y > bottom {
                s.grid.cells[y][x]
            } else if y < cy + n {
                erased(s)
            } else {
                s.grid.cells[y - n][x]
            }
        }),
{
    motion::lemma_edits(s, seq![seq![n]], intermediates, 'L');
    assert(model::param(seq![seq![n]], 0, 1) == n);
    lemma_rows_have_width(s.grid);
}

/// DL: the `n` rows at the cursor are taken out. The rows below them to the bottom of the
/// scroll region move up, and erased rows come in there. Outside the region nothing
/// happens. The cursor stays; a deferred wrap is dropped.
pub proof fn law_delete_lines(s: ScreenView, intermediates: Seq<u8>, n: u16, x: int, y: int)
    requires
        s.wf(),
        n >= 1,
        0 <= x < s.grid.cols,
        0 <= y < s.grid.rows,
    ensures
        ({
            let t = s.performed(
                EventView::Csi { params: seq![seq![n]], intermediates, action: 'M' },
            );
            let cy = s.grid.cursor_y;
            let bottom = s.grid.scroll_bottom;
            let calm = ScreenView { grid: GridView { wrap_pending: false, ..s.grid }, ..s };
            let inside = s.grid.scroll_top <= cy <= bottom;
            &&& !inside ==> t == s
            &&& inside ==> same_but_cells(calm, t)
            &&& inside ==> t.grid.cells[y][x] == if y < cy || y > bottom {
                s.grid.cells[y][x]
            } else if y + n > bottom {
                erased(s)
            } else {
                s.grid.cells[y + n][x]
            }
        }),
{
    motion::lemma_edits(s, seq![seq![n]], intermediates, 'M');
    assert(model::param(seq![seq![n]], 0, 1) == n);
    lemma_rows_have_width(s.grid);
}

proof fn lemma_rows_have_width(g: GridView)
    requires
        g.wf(),
    ensures
        forall|y: int| 0 <= y < g.rows ==> (#[trigger] g.cells[y]).len() == g.cols,
{
}

} // verus!
