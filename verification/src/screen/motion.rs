//! Where control functions put the cursor.

use vstd::prelude::*;

use super::grid::{ActiveCharset, GridView, TerminalModes};
use super::model;
use super::model::{EventView, ScreenView};

verus! {

// One event at a time

pub(crate) proof fn lemma_moves(
    s: ScreenView,
    params: Seq<Seq<u16>>,
    intermediates: Seq<u8>,
    action: char,
)
    requires
        ScreenView::is_movement(action),
    ensures
        s.performed(
            EventView::Csi { params, intermediates, action },
        ) == s.csi_moved(params, action),
{
    reveal(ScreenView::performed);
}

pub(crate) proof fn lemma_edits(
    s: ScreenView,
    params: Seq<Seq<u16>>,
    intermediates: Seq<u8>,
    action: char,
)
    requires
        ScreenView::is_edit(action),
    ensures
        s.performed(EventView::Csi { params, intermediates, action }) == s.csi_edited(
            params,
            action,
        ),
{
    reveal(ScreenView::performed);
}

pub(crate) proof fn lemma_executes(s: ScreenView, byte: u8)
    ensures
        s.performed(EventView::Execute(byte)) == s.executed(byte),
{
    reveal(ScreenView::performed);
}

pub(crate) proof fn lemma_escapes(s: ScreenView, intermediates: Seq<u8>, byte: u8)
    ensures
        s.performed(EventView::Esc { intermediates, byte }) == s.esc(intermediates, byte),
{
    reveal(ScreenView::performed);
}

pub(crate) proof fn lemma_prints(s: ScreenView, c: char)
    ensures
        s.performed(EventView::Print(c)) == s.printed(c),
{
    reveal(ScreenView::performed);
}

pub(crate) proof fn lemma_scrolls_up(s: ScreenView, params: Seq<Seq<u16>>, intermediates: Seq<u8>)
    ensures
        s.performed(EventView::Csi { params, intermediates, action: 'S' }) == s.scrolled_up_by(
            model::min(model::param(params, 0, 1) as int, s.grid.rows),
        ),
{
    lemma_edits(s, params, intermediates, 'S');
}

pub(crate) proof fn lemma_scrolls_down(s: ScreenView, params: Seq<Seq<u16>>, intermediates: Seq<u8>)
    requires
        params.len() <= 1,
    ensures
        s.performed(EventView::Csi { params, intermediates, action: 'T' }) == s.scrolled_down_by(
            model::min(model::param(params, 0, 1) as int, s.grid.rows),
        ),
{
    reveal(ScreenView::performed);
}

pub(crate) proof fn lemma_sets_region(s: ScreenView, params: Seq<Seq<u16>>)
    ensures
        s.performed(EventView::Csi { params, intermediates: seq![], action: 'r' }) == s.region_set(
            model::param(params, 0, 1) as int,
            model::param(params, 1, s.grid.rows as u16) as int,
        ),
{
    reveal(ScreenView::performed);
}

pub(crate) proof fn lemma_saves(s: ScreenView, params: Seq<Seq<u16>>)
    ensures
        s.performed(EventView::Csi { params, intermediates: seq![], action: 's' })
            == s.cursor_saved(),
        s.performed(EventView::Csi { params, intermediates: seq![], action: 'u' })
            == s.cursor_restored(),
{
    reveal(ScreenView::performed);
}

#[verifier::rlimit(50)]
pub(crate) proof fn lemma_sets_mode(s: ScreenView, mode: u16, enable: bool)
    ensures
        s.performed(
            EventView::Csi {
                params: seq![seq![mode]],
                intermediates: seq![0x3f],
                action: if enable {
                    'h'
                } else {
                    'l'
                },
            },
        ) == s.mode_set(mode, enable),
{
    reveal(ScreenView::performed);
    reveal_with_fuel(ScreenView::modes_set, 2);
    assert(seq![seq![mode]].drop_last() =~= seq![]);
}

proof fn lemma_to_other_line(
    s: ScreenView,
    n: u16,
    intermediates: Seq<u8>,
    whole: char,
    part: char,
)
    requires
        (whole == 'E' && part == 'B') || (whole == 'F' && part == 'A'),
    ensures
        s.performed(EventView::Csi { params: seq![seq![n]], intermediates, action: whole })
            == s.performed(
            EventView::Csi { params: seq![seq![n]], intermediates, action: part },
        ).performed(EventView::Execute(0x0d)),
{
    lemma_moves(s, seq![seq![n]], intermediates, whole);
    lemma_moves(s, seq![seq![n]], intermediates, part);
    lemma_executes(s.csi_moved(seq![seq![n]], part), 0x0d);
}

proof fn lemma_undo(s: ScreenView, n: u16, intermediates: Seq<u8>, there: char, back: char)
    requires
        s.wf(),
        n >= 1,
        (there == 'B' && back == 'A') || (there == 'A' && back == 'B') || (there == 'C' && back
            == 'D') || (there == 'D' && back == 'C'),
    ensures
        ({
            let (x, y) = (s.grid.cursor_x, s.grid.cursor_y);
            ||| there == 'B' && !(s.grid.scroll_top <= y && y + n <= s.grid.scroll_bottom)
            ||| there == 'A' && !(s.grid.scroll_top <= y - n && y <= s.grid.scroll_bottom)
            ||| there == 'C' && x + n >= s.grid.cols
            ||| there == 'D' && n > x
            ||| s.performed(
                EventView::Csi { params: seq![seq![n]], intermediates, action: there },
            ).performed(EventView::Csi { params: seq![seq![n]], intermediates, action: back }) == (
            ScreenView { grid: GridView { wrap_pending: false, ..s.grid }, ..s })
        }),
{
    lemma_moves(s, seq![seq![n]], intermediates, there);
    lemma_moves(s.csi_moved(seq![seq![n]], there), seq![seq![n]], intermediates, back);
    assert(model::param(seq![seq![n]], 0, 1) == n);
}

proof fn lemma_add(s: ScreenView, a: u16, b: u16, intermediates: Seq<u8>, action: char)
    requires
        s.wf(),
        a >= 1,
        b >= 1,
        a + b <= u16::MAX,
        action == 'A' || action == 'B' || action == 'C' || action == 'D',
    ensures
        s.performed(
            EventView::Csi { params: seq![seq![a]], intermediates, action },
        ).performed(EventView::Csi { params: seq![seq![b]], intermediates, action }) == s.performed(
            EventView::Csi { params: seq![seq![(a + b) as u16]], intermediates, action },
        ),
{
    lemma_moves(s, seq![seq![a]], intermediates, action);
    lemma_moves(s.csi_moved(seq![seq![a]], action), seq![seq![b]], intermediates, action);
    lemma_moves(s, seq![seq![(a + b) as u16]], intermediates, action);
    assert(model::param(seq![seq![a]], 0, 1) == a);
    assert(model::param(seq![seq![b]], 0, 1) == b);
    assert(model::param(seq![seq![(a + b) as u16]], 0, 1) == a + b);
}

proof fn lemma_same_position(
    s: ScreenView,
    a: Seq<Seq<u16>>,
    b: Seq<Seq<u16>>,
    intermediates: Seq<u8>,
)
    requires
        model::param(a, 0, 1) == model::param(b, 0, 1),
        model::param(a, 1, 1) == model::param(b, 1, 1),
    ensures
        s.performed(EventView::Csi { params: a, intermediates, action: 'H' }) == s.performed(
            EventView::Csi { params: b, intermediates, action: 'H' },
        ),
{
    lemma_moves(s, a, intermediates, 'H');
    lemma_moves(s, b, intermediates, 'H');
}

proof fn lemma_same_region(s: ScreenView, a: Seq<Seq<u16>>, b: Seq<Seq<u16>>)
    requires
        model::param(a, 0, 1) == model::param(b, 0, 1),
        model::param(a, 1, s.grid.rows as u16) == model::param(b, 1, s.grid.rows as u16),
    ensures
        s.performed(EventView::Csi { params: a, intermediates: seq![], action: 'r' })
            == s.performed(EventView::Csi { params: b, intermediates: seq![], action: 'r' }),
{
    lemma_sets_region(s, a);
    lemma_sets_region(s, b);
}

// Movement

/// CUU: the cursor goes `n` rows up in its column. From inside the scroll region or
/// below it, it stops at the top of the region, else at the top of the screen.
pub proof fn law_cursor_up(s: ScreenView, n: u16, intermediates: Seq<u8>)
    requires
        s.wf(),
        n >= 1,
    ensures
        ({
            let t = s.performed(
                EventView::Csi { params: seq![seq![n]], intermediates, action: 'A' },
            );
            let y = s.grid.cursor_y;
            &&& s.grid.scroll_top <= y && y - n >= s.grid.scroll_top ==> t == (ScreenView {
                grid: GridView { cursor_y: y - n, wrap_pending: false, ..s.grid },
                ..s
            })
            &&& s.grid.scroll_top <= y && y - n < s.grid.scroll_top ==> t == (ScreenView {
                grid: GridView { cursor_y: s.grid.scroll_top, wrap_pending: false, ..s.grid },
                ..s
            })
            &&& y < s.grid.scroll_top && y >= n ==> t == (ScreenView {
                grid: GridView { cursor_y: y - n, wrap_pending: false, ..s.grid },
                ..s
            })
            &&& y < s.grid.scroll_top && y < n ==> t == (ScreenView {
                grid: GridView { cursor_y: 0, wrap_pending: false, ..s.grid },
                ..s
            })
        }),
{
    lemma_moves(s, seq![seq![n]], intermediates, 'A');
}

/// CUD: the cursor goes `n` rows down in its column. From inside the scroll region or
/// above it, it stops at the bottom of the region, else at the bottom of the screen.
pub proof fn law_cursor_down(s: ScreenView, n: u16, intermediates: Seq<u8>)
    requires
        s.wf(),
        n >= 1,
    ensures
        ({
            let t = s.performed(
                EventView::Csi { params: seq![seq![n]], intermediates, action: 'B' },
            );
            let y = s.grid.cursor_y;
            &&& y <= s.grid.scroll_bottom && y + n <= s.grid.scroll_bottom ==> t == (ScreenView {
                grid: GridView { cursor_y: y + n, wrap_pending: false, ..s.grid },
                ..s
            })
            &&& y <= s.grid.scroll_bottom && y + n > s.grid.scroll_bottom ==> t == (ScreenView {
                grid: GridView { cursor_y: s.grid.scroll_bottom, wrap_pending: false, ..s.grid },
                ..s
            })
            &&& s.grid.scroll_bottom < y && y + n < s.grid.rows ==> t == (ScreenView {
                grid: GridView { cursor_y: y + n, wrap_pending: false, ..s.grid },
                ..s
            })
            &&& s.grid.scroll_bottom < y && y + n >= s.grid.rows ==> t == (ScreenView {
                grid: GridView { cursor_y: s.grid.rows - 1, wrap_pending: false, ..s.grid },
                ..s
            })
        }),
{
    lemma_moves(s, seq![seq![n]], intermediates, 'B');
}

/// CUF: the cursor goes `n` columns right in its row, to the right margin at most.
pub proof fn law_cursor_forward(s: ScreenView, n: u16, intermediates: Seq<u8>)
    requires
        s.wf(),
        n >= 1,
    ensures
        ({
            let t = s.performed(
                EventView::Csi { params: seq![seq![n]], intermediates, action: 'C' },
            );
            let x = s.grid.cursor_x;
            &&& x + n < s.grid.cols ==> t == (ScreenView {
                grid: GridView { cursor_x: x + n, wrap_pending: false, ..s.grid },
                ..s
            })
            &&& x + n >= s.grid.cols ==> t == (ScreenView {
                grid: GridView { cursor_x: s.grid.cols - 1, wrap_pending: false, ..s.grid },
                ..s
            })
        }),
{
    lemma_moves(s, seq![seq![n]], intermediates, 'C');
}

/// CUB: the cursor goes `n` columns left in its row, to the left margin at most.
pub proof fn law_cursor_back(s: ScreenView, n: u16, intermediates: Seq<u8>)
    requires
        s.wf(),
        n >= 1,
    ensures
        ({
            let t = s.performed(
                EventView::Csi { params: seq![seq![n]], intermediates, action: 'D' },
            );
            let x = s.grid.cursor_x;
            &&& x >= n ==> t == (ScreenView {
                grid: GridView { cursor_x: x - n, wrap_pending: false, ..s.grid },
                ..s
            })
            &&& x < n ==> t == (ScreenView {
                grid: GridView { cursor_x: 0, wrap_pending: false, ..s.grid },
                ..s
            })
        }),
{
    lemma_moves(s, seq![seq![n]], intermediates, 'D');
}

/// CNL and CPL: the cursor goes `n` rows down, or up, as CUD and CUU do, and then to the
/// left margin, as CR does.
pub proof fn law_cursor_to_other_line(s: ScreenView, n: u16, intermediates: Seq<u8>)
    requires
        s.wf(),
        n >= 1,
    ensures
        ({
            &&& s.performed(
                EventView::Csi { params: seq![seq![n]], intermediates, action: 'E' },
            ) == s.performed(
                EventView::Csi { params: seq![seq![n]], intermediates, action: 'B' },
            ).performed(EventView::Execute(0x0d))
            &&& s.performed(
                EventView::Csi { params: seq![seq![n]], intermediates, action: 'F' },
            ) == s.performed(
                EventView::Csi { params: seq![seq![n]], intermediates, action: 'A' },
            ).performed(EventView::Execute(0x0d))
        }),
{
    lemma_to_other_line(s, n, intermediates, 'E', 'B');
    lemma_to_other_line(s, n, intermediates, 'F', 'A');
}

/// CHA: the cursor goes to the column `n`, counted from one, in its row; beyond the right
/// margin it goes to the margin.
pub proof fn law_cursor_column(s: ScreenView, n: u16, intermediates: Seq<u8>)
    requires
        s.wf(),
        n >= 1,
    ensures
        ({
            let t = s.performed(
                EventView::Csi { params: seq![seq![n]], intermediates, action: 'G' },
            );
            &&& n <= s.grid.cols ==> t == (ScreenView {
                grid: GridView { cursor_x: n - 1, wrap_pending: false, ..s.grid },
                ..s
            })
            &&& n > s.grid.cols ==> t == (ScreenView {
                grid: GridView { cursor_x: s.grid.cols - 1, wrap_pending: false, ..s.grid },
                ..s
            })
        }),
{
    lemma_moves(s, seq![seq![n]], intermediates, 'G');
}

/// VPA: the cursor goes to the row `n`, counted from one, in its column; beyond the bottom
/// of the screen it goes there.
pub proof fn law_cursor_row(s: ScreenView, n: u16, intermediates: Seq<u8>)
    requires
        s.wf(),
        n >= 1,
    ensures
        ({
            let t = s.performed(
                EventView::Csi { params: seq![seq![n]], intermediates, action: 'd' },
            );
            &&& n <= s.grid.rows ==> t == (ScreenView {
                grid: GridView { cursor_y: n - 1, wrap_pending: false, ..s.grid },
                ..s
            })
            &&& n > s.grid.rows ==> t == (ScreenView {
                grid: GridView { cursor_y: s.grid.rows - 1, wrap_pending: false, ..s.grid },
                ..s
            })
        }),
{
    lemma_moves(s, seq![seq![n]], intermediates, 'd');
}

/// CUP and HVP: the cursor goes to the row `row` and the column `col`, as VPA and CHA do.
/// The scroll region does not matter.
pub proof fn law_cursor_position(s: ScreenView, row: u16, col: u16, intermediates: Seq<u8>)
    requires
        s.wf(),
        row >= 1,
        col >= 1,
    ensures
        ({
            let t = s.performed(
                EventView::Csi { params: seq![seq![row], seq![col]], intermediates, action: 'H' },
            );
            &&& t == s.performed(
                EventView::Csi { params: seq![seq![row]], intermediates, action: 'd' },
            ).performed(
                EventView::Csi { params: seq![seq![col]], intermediates, action: 'G' },
            )
            &&& t == s.performed(
                EventView::Csi { params: seq![seq![row], seq![col]], intermediates, action: 'f' },
            )
            &&& row <= s.grid.rows && col <= s.grid.cols ==> t == (ScreenView {
                grid: GridView { cursor_x: col - 1, cursor_y: row - 1, wrap_pending: false, ..s.grid },
                ..s
            })
        }),
{
    let (r, c) = (seq![seq![row]], seq![seq![col]]);
    let both = seq![seq![row], seq![col]];
    lemma_moves(s, both, intermediates, 'H');
    lemma_moves(s, both, intermediates, 'f');
    lemma_moves(s, r, intermediates, 'd');
    let down = s.csi_moved(r, 'd');
    lemma_moves(down, c, intermediates, 'G');
    assert(model::param(both, 0, 1) == row && model::param(both, 1, 1) == col);
    assert(model::param(r, 0, 1) == row && model::param(c, 0, 1) == col);
}

/// A movement and the opposite one by the same distance, with room for both, leave the
/// cursor where it was.
pub proof fn law_movements_undo(s: ScreenView, n: u16, intermediates: Seq<u8>)
    requires
        s.wf(),
        n >= 1,
    ensures
        ({
            let home = ScreenView { grid: GridView { wrap_pending: false, ..s.grid }, ..s };
            let (x, y) = (s.grid.cursor_x, s.grid.cursor_y);
            &&& s.grid.scroll_top <= y && y + n <= s.grid.scroll_bottom ==> s.performed(
                EventView::Csi { params: seq![seq![n]], intermediates, action: 'B' },
            ).performed(
                EventView::Csi { params: seq![seq![n]], intermediates, action: 'A' },
            ) == home
            &&& s.grid.scroll_top <= y - n && y <= s.grid.scroll_bottom ==> s.performed(
                EventView::Csi { params: seq![seq![n]], intermediates, action: 'A' },
            ).performed(
                EventView::Csi { params: seq![seq![n]], intermediates, action: 'B' },
            ) == home
            &&& x + n < s.grid.cols ==> s.performed(
                EventView::Csi { params: seq![seq![n]], intermediates, action: 'C' },
            ).performed(
                EventView::Csi { params: seq![seq![n]], intermediates, action: 'D' },
            ) == home
            &&& n <= x ==> s.performed(
                EventView::Csi { params: seq![seq![n]], intermediates, action: 'D' },
            ).performed(
                EventView::Csi { params: seq![seq![n]], intermediates, action: 'C' },
            ) == home
        }),
{
    lemma_undo(s, n, intermediates, 'B', 'A');
    lemma_undo(s, n, intermediates, 'A', 'B');
    lemma_undo(s, n, intermediates, 'C', 'D');
    lemma_undo(s, n, intermediates, 'D', 'C');
}

/// Two movements in the same direction are one by the sum of both distances.
pub proof fn law_movements_add(s: ScreenView, a: u16, b: u16, intermediates: Seq<u8>)
    requires
        s.wf(),
        a >= 1,
        b >= 1,
        a + b <= u16::MAX,
    ensures
        ({
            let sum = (a + b) as u16;
            &&& s.performed(
                EventView::Csi { params: seq![seq![a]], intermediates, action: 'A' },
            ).performed(
                EventView::Csi { params: seq![seq![b]], intermediates, action: 'A' },
            ) == s.performed(
                EventView::Csi { params: seq![seq![sum]], intermediates, action: 'A' },
            )
            &&& s.performed(
                EventView::Csi { params: seq![seq![a]], intermediates, action: 'B' },
            ).performed(
                EventView::Csi { params: seq![seq![b]], intermediates, action: 'B' },
            ) == s.performed(
                EventView::Csi { params: seq![seq![sum]], intermediates, action: 'B' },
            )
            &&& s.performed(
                EventView::Csi { params: seq![seq![a]], intermediates, action: 'C' },
            ).performed(
                EventView::Csi { params: seq![seq![b]], intermediates, action: 'C' },
            ) == s.performed(
                EventView::Csi { params: seq![seq![sum]], intermediates, action: 'C' },
            )
            &&& s.performed(
                EventView::Csi { params: seq![seq![a]], intermediates, action: 'D' },
            ).performed(
                EventView::Csi { params: seq![seq![b]], intermediates, action: 'D' },
            ) == s.performed(
                EventView::Csi { params: seq![seq![sum]], intermediates, action: 'D' },
            )
        }),
{
    lemma_add(s, a, b, intermediates, 'A');
    lemma_add(s, a, b, intermediates, 'B');
    lemma_add(s, a, b, intermediates, 'C');
    lemma_add(s, a, b, intermediates, 'D');
}

/// Whether a control sequence counts something: rows, columns or characters, where a
/// missing count is one.
pub open spec fn counts(action: char) -> bool {
    action == 'A' || action == 'B' || action == 'C' || action == 'D' || action == 'E' || action
        == 'F' || action == 'G' || action == 'd' || action == 'X' || action == 'P' || action == '@'
        || action == 'L' || action == 'M' || action == 'S' || action == 'b'
}

/// A count that is missing or zero is one; what follows the count does not matter, nor do
/// its subparameters.
pub proof fn law_count_defaults_to_one(
    s: ScreenView,
    params: Seq<Seq<u16>>,
    intermediates: Seq<u8>,
    action: char,
)
    requires
        counts(action),
    ensures
        ({
            let t = s.performed(EventView::Csi { params, intermediates, action });
            let one = s.performed(
                EventView::Csi { params: seq![seq![1]], intermediates, action },
            );
            &&& params.len() == 0 ==> t == one
            &&& params.len() > 0 && params[0].len() == 0 ==> t == one
            &&& params.len() > 0 && params[0].len() > 0 && params[0][0] == 0 ==> t == one
            &&& params.len() > 0 && params[0].len() > 0 && params[0][0] != 0 ==> t == s.performed(
                EventView::Csi { params: seq![seq![params[0][0]]], intermediates, action },
            )
        }),
{
    let count = seq![seq![model::param(params, 0, 1)]];
    assert(model::param(count, 0, 1) == model::param(params, 0, 1));
    assert(model::param(seq![seq![1u16]], 0, 1) == 1);
    if ScreenView::is_movement(action) {
        lemma_moves(s, params, intermediates, action);
        lemma_moves(s, count, intermediates, action);
        lemma_moves(s, seq![seq![1]], intermediates, action);
    } else {
        lemma_edits(s, params, intermediates, action);
        lemma_edits(s, count, intermediates, action);
        lemma_edits(s, seq![seq![1]], intermediates, action);
    }
}

/// A missing or zero coordinate of CUP is one.
pub proof fn law_position_defaults_to_one(s: ScreenView, row: u16, col: u16, intermediates: Seq<u8>)
    requires
        row >= 1,
        col >= 1,
    ensures
        s.performed(
            EventView::Csi { params: seq![], intermediates, action: 'H' },
        ) == s.performed(
            EventView::Csi { params: seq![seq![1], seq![1]], intermediates, action: 'H' },
        ),
        s.performed(
            EventView::Csi { params: seq![seq![0]], intermediates, action: 'H' },
        ) == s.performed(
            EventView::Csi { params: seq![seq![1], seq![1]], intermediates, action: 'H' },
        ),
        s.performed(
            EventView::Csi { params: seq![seq![0], seq![col]], intermediates, action: 'H' },
        ) == s.performed(
            EventView::Csi { params: seq![seq![1], seq![col]], intermediates, action: 'H' },
        ),
        s.performed(
            EventView::Csi { params: seq![seq![row]], intermediates, action: 'H' },
        ) == s.performed(
            EventView::Csi { params: seq![seq![row], seq![1]], intermediates, action: 'H' },
        ),
        s.performed(
            EventView::Csi { params: seq![seq![row], seq![0]], intermediates, action: 'H' },
        ) == s.performed(
            EventView::Csi { params: seq![seq![row], seq![1]], intermediates, action: 'H' },
        ),
{
    lemma_same_position(s, seq![], seq![seq![1], seq![1]], intermediates);
    lemma_same_position(s, seq![seq![0]], seq![seq![1], seq![1]], intermediates);
    lemma_same_position(s, seq![seq![0], seq![col]], seq![seq![1], seq![col]], intermediates);
    lemma_same_position(s, seq![seq![row]], seq![seq![row], seq![1]], intermediates);
    lemma_same_position(s, seq![seq![row], seq![0]], seq![seq![row], seq![1]], intermediates);
}

// Control characters

/// CR moves the cursor to the left margin, BS one column left unless it is there.
pub proof fn law_return_and_backspace(s: ScreenView)
    requires
        s.wf(),
    ensures
        s.performed(EventView::Execute(0x0d)) == (ScreenView {
            grid: GridView { cursor_x: 0, wrap_pending: false, ..s.grid },
            ..s
        }),
        s.grid.cursor_x > 0 ==> s.performed(EventView::Execute(0x08)) == (ScreenView {
            grid: GridView { cursor_x: s.grid.cursor_x - 1, wrap_pending: false, ..s.grid },
            ..s
        }),
        s.grid.cursor_x == 0 ==> s.performed(EventView::Execute(0x08)) == (ScreenView {
            grid: GridView { wrap_pending: false, ..s.grid },
            ..s
        }),
{
    lemma_executes(s, 0x0d);
    lemma_executes(s, 0x08);
}

/// HT moves the cursor right to the nearest column that is a multiple of eight, or to
/// the right margin where there is none before it.
pub proof fn law_tab(s: ScreenView)
    requires
        s.wf(),
    ensures
        ({
            let t = s.performed(EventView::Execute(0x09));
            let (from, to) = (s.grid.cursor_x, t.grid.cursor_x);
            &&& t == (ScreenView {
                grid: GridView { cursor_x: to, wrap_pending: false, ..s.grid },
                ..s
            })
            &&& from < to <= from + 8 || from == to == s.grid.cols - 1
            &&& to % 8 == 0 || to == s.grid.cols - 1
            &&& forall|x: int| from < x < to ==> #[trigger] (x % 8) != 0
        }),
{
    lemma_executes(s, 0x09);
}

/// SO and SI choose the character set slot, BEL rings, and nothing else changes. LF, VT
/// and FF are the same; the control characters that are left do nothing.
pub proof fn law_other_control_characters(s: ScreenView, byte: u8)
    ensures
        s.performed(EventView::Execute(0x0e)) == (ScreenView {
            grid: GridView {
                modes: TerminalModes { active_charset: ActiveCharset::G1, ..s.grid.modes },
                ..s.grid
            },
            ..s
        }),
        s.performed(EventView::Execute(0x0f)) == (ScreenView {
            grid: GridView {
                modes: TerminalModes { active_charset: ActiveCharset::G0, ..s.grid.modes },
                ..s.grid
            },
            ..s
        }),
        s.performed(EventView::Execute(0x07)) == (ScreenView {
            passthrough: s.passthrough + seq![seq![7u8]],
            ..s
        }),
        s.performed(EventView::Execute(0x0b)) == s.performed(EventView::Execute(0x0a)),
        s.performed(EventView::Execute(0x0c)) == s.performed(EventView::Execute(0x0a)),
        byte < 7 || byte > 0x0f ==> s.performed(EventView::Execute(byte)) == s,
{
    lemma_executes(s, 0x0e);
    lemma_executes(s, 0x0f);
    lemma_executes(s, 0x07);
    lemma_executes(s, 0x0a);
    lemma_executes(s, 0x0b);
    lemma_executes(s, 0x0c);
    lemma_executes(s, byte);
    assert(s.passthrough.push(seq![7u8]) =~= s.passthrough + seq![seq![7u8]]);
}

proof fn lemma_feed_scrolls(s: ScreenView)
    requires
        s.wf(),
        s.grid.cursor_y == s.grid.scroll_bottom,
    ensures
        ({
            let scrolled = s.scrolled_up_by(1);
            s.fed() == (ScreenView {
                grid: GridView { wrap_pending: false, ..scrolled.grid },
                ..scrolled
            })
        }),
{
    reveal_with_fuel(ScreenView::scrolled_up_by, 2);
    let ready = s.with_grid(GridView { wrap_pending: false, ..s.grid });
    assert(ready.fill_row() == s.fill_row());
}

/// LF moves the cursor one row down in its column, except from the bottom of the scroll
/// region, where the region scrolls instead, and from the bottom of the screen.
#[verifier::rlimit(50)]
pub proof fn law_line_feed_moves(s: ScreenView, byte: u8)
    requires
        s.wf(),
        byte == 0x0a || byte == 0x0b || byte == 0x0c,
    ensures
        ({
            let t = s.performed(EventView::Execute(byte));
            let y = s.grid.cursor_y;
            &&& y != s.grid.scroll_bottom && y < s.grid.rows - 1 ==> t == (ScreenView {
                grid: GridView { cursor_y: y + 1, wrap_pending: false, ..s.grid },
                ..s
            })
            &&& y != s.grid.scroll_bottom && y == s.grid.rows - 1 ==> t == (ScreenView {
                grid: GridView { wrap_pending: false, ..s.grid },
                ..s
            })
            &&& y == s.grid.scroll_bottom ==> {
                let scrolled = s.performed(
                    EventView::Csi { params: seq![seq![1]], intermediates: seq![], action: 'S' },
                );
                t == (ScreenView {
                    grid: GridView { wrap_pending: false, ..scrolled.grid },
                    ..scrolled
                })
            }
        }),
{
    lemma_executes(s, byte);
    lemma_scrolls_up(s, seq![seq![1]], seq![]);
    assert(model::param(seq![seq![1u16]], 0, 1) == 1);
    assert(s.executed(byte) == s.fed());
    if s.grid.cursor_y == s.grid.scroll_bottom {
        lemma_feed_scrolls(s);
    }
}

/// RI moves the cursor one row up in its column, except from the top of the scroll
/// region, where the region scrolls down instead, and from the top of the screen.
pub proof fn law_reverse_index(s: ScreenView)
    requires
        s.wf(),
    ensures
        ({
            let t = s.performed(EventView::Esc { intermediates: seq![], byte: 0x4d });
            let y = s.grid.cursor_y;
            &&& y != s.grid.scroll_top && y > 0 ==> t == (ScreenView {
                grid: GridView { cursor_y: y - 1, ..s.grid },
                ..s
            })
            &&& y != s.grid.scroll_top && y == 0 ==> t == s
            &&& y == s.grid.scroll_top ==> t == s.performed(
                EventView::Csi { params: seq![seq![1]], intermediates: seq![], action: 'T' },
            )
        }),
{
    lemma_escapes(s, seq![], 0x4d);
    lemma_scrolls_down(s, seq![seq![1]], seq![]);
    reveal_with_fuel(ScreenView::scrolled_down_by, 2);
    assert(model::param(seq![seq![1u16]], 0, 1) == 1);
}

// Scroll region

/// DECSTBM sets the scroll region to the rows `top` to `bottom`, counted from one, and
/// the cursor goes home. Rows beyond the bottom of the screen do not count, and a region
/// of less than two rows leaves the old one as it is.
pub proof fn law_region(s: ScreenView, top: u16, bottom: u16)
    requires
        s.wf(),
        top >= 1,
        bottom >= 1,
    ensures
        ({
            let t = s.performed(
                EventView::Csi {
                    params: seq![seq![top], seq![bottom]],
                    intermediates: seq![],
                    action: 'r',
                },
            );
            let home = GridView { cursor_x: 0, cursor_y: 0, wrap_pending: false, ..s.grid };
            &&& top < bottom <= s.grid.rows ==> t == (ScreenView {
                grid: GridView { scroll_top: top - 1, scroll_bottom: bottom - 1, ..home },
                ..s
            })
            &&& top < s.grid.rows < bottom ==> t == (ScreenView {
                grid: GridView { scroll_top: top - 1, scroll_bottom: s.grid.rows - 1, ..home },
                ..s
            })
            &&& top >= bottom || top >= s.grid.rows ==> t == (ScreenView { grid: home, ..s })
        }),
{
    lemma_sets_region(s, seq![seq![top], seq![bottom]]);
}

/// Without parameters the scroll region is the whole screen, where that has more than
/// one row: a missing or zero `top` is one, a missing or zero `bottom` the last row.
pub proof fn law_region_defaults(s: ScreenView, top: u16, bottom: u16)
    requires
        s.wf(),
        top >= 1,
        bottom >= 1,
    ensures
        s.performed(
            EventView::Csi { params: seq![], intermediates: seq![], action: 'r' },
        ) == s.performed(
            EventView::Csi { params: seq![seq![1], seq![s.grid.rows as u16]], intermediates: seq![], action: 'r' },
        ),
        s.performed(
            EventView::Csi { params: seq![seq![0]], intermediates: seq![], action: 'r' },
        ) == s.performed(
            EventView::Csi { params: seq![seq![1], seq![s.grid.rows as u16]], intermediates: seq![], action: 'r' },
        ),
        s.performed(
            EventView::Csi { params: seq![seq![0], seq![0]], intermediates: seq![], action: 'r' },
        ) == s.performed(
            EventView::Csi { params: seq![seq![1], seq![s.grid.rows as u16]], intermediates: seq![], action: 'r' },
        ),
        s.performed(
            EventView::Csi { params: seq![seq![top]], intermediates: seq![], action: 'r' },
        ) == s.performed(
            EventView::Csi { params: seq![seq![top], seq![s.grid.rows as u16]], intermediates: seq![], action: 'r' },
        ),
        s.performed(
            EventView::Csi { params: seq![seq![top], seq![0]], intermediates: seq![], action: 'r' },
        ) == s.performed(
            EventView::Csi { params: seq![seq![top], seq![s.grid.rows as u16]], intermediates: seq![], action: 'r' },
        ),
        s.performed(
            EventView::Csi { params: seq![seq![0], seq![bottom]], intermediates: seq![], action: 'r' },
        ) == s.performed(
            EventView::Csi { params: seq![seq![1], seq![bottom]], intermediates: seq![], action: 'r' },
        ),
{
    lemma_same_region(s, seq![], seq![seq![1], seq![s.grid.rows as u16]]);
    lemma_same_region(s, seq![seq![0]], seq![seq![1], seq![s.grid.rows as u16]]);
    lemma_same_region(s, seq![seq![0], seq![0]], seq![seq![1], seq![s.grid.rows as u16]]);
    lemma_same_region(s, seq![seq![top]], seq![seq![top], seq![s.grid.rows as u16]]);
    lemma_same_region(s, seq![seq![top], seq![0]], seq![seq![top], seq![s.grid.rows as u16]]);
    lemma_same_region(s, seq![seq![0], seq![bottom]], seq![seq![1], seq![bottom]]);
}

// Saved cursor

/// ESC 7, CSI s and mode 1048 save the cursor, and ESC 8, CSI u and the reset of mode
/// 1048 bring it back: position, style, character sets and autowrap, whatever became of
/// them; nothing else changes.
pub proof fn law_saved_cursor_comes_back(s: ScreenView, t: ScreenView)
    requires
        s.wf(),
        t.wf(),
        t.grid.cols == s.grid.cols,
        t.grid.rows == s.grid.rows,
        t.saved_cursor == s.performed(
            EventView::Esc { intermediates: seq![], byte: 0x37 },
        ).saved_cursor,
    ensures
        ({
            let saved = s.performed(EventView::Esc { intermediates: seq![], byte: 0x37 });
            let back = t.performed(EventView::Esc { intermediates: seq![], byte: 0x38 });
            &&& saved == (ScreenView { saved_cursor: saved.saved_cursor, ..s })
            &&& saved.saved_cursor is Some
            &&& saved == s.performed(
                EventView::Csi { params: seq![], intermediates: seq![], action: 's' },
            )
            &&& saved == s.performed(
                EventView::Csi {
                    params: seq![seq![1048]],
                    intermediates: seq![0x3f],
                    action: 'h',
                },
            )
            &&& back == (ScreenView {
                grid: GridView {
                    cursor_x: s.grid.cursor_x,
                    cursor_y: s.grid.cursor_y,
                    wrap_pending: false,
                    modes: TerminalModes {
                        g0_charset: s.grid.modes.g0_charset,
                        g1_charset: s.grid.modes.g1_charset,
                        active_charset: s.grid.modes.active_charset,
                        autowrap_mode: s.grid.modes.autowrap_mode,
                        ..t.grid.modes
                    },
                    ..t.grid
                },
                style: s.style,
                ..t
            })
            &&& back == t.performed(
                EventView::Csi { params: seq![], intermediates: seq![], action: 'u' },
            )
            &&& back == t.performed(
                EventView::Csi {
                    params: seq![seq![1048]],
                    intermediates: seq![0x3f],
                    action: 'l',
                },
            )
        }),
{
    lemma_escapes(s, seq![], 0x37);
    lemma_escapes(t, seq![], 0x38);
    lemma_saves(s, seq![]);
    lemma_saves(t, seq![]);
    lemma_sets_mode(s, 1048, true);
    lemma_sets_mode(t, 1048, false);
}

/// A cursor that was saved on a larger screen comes back at its margins.
pub proof fn law_saved_cursor_is_clamped(t: ScreenView, x: u16, y: u16)
    requires
        t.wf(),
        t.saved_cursor matches Some(c) && c.x == x && c.y == y,
    ensures
        ({
            let back = t.performed(EventView::Esc { intermediates: seq![], byte: 0x38 });
            &&& x < t.grid.cols ==> back.grid.cursor_x == x
            &&& x >= t.grid.cols ==> back.grid.cursor_x == t.grid.cols - 1
            &&& y < t.grid.rows ==> back.grid.cursor_y == y
            &&& y >= t.grid.rows ==> back.grid.cursor_y == t.grid.rows - 1
        }),
{
    lemma_escapes(t, seq![], 0x38);
}

/// With nothing saved there is nothing to bring back.
pub proof fn law_no_saved_cursor(s: ScreenView)
    requires
        s.saved_cursor is None,
    ensures
        s.performed(EventView::Esc { intermediates: seq![], byte: 0x38 }) == s,
        s.performed(EventView::Csi { params: seq![], intermediates: seq![], action: 'u' }) == s,
{
    lemma_escapes(s, seq![], 0x38);
    lemma_saves(s, seq![]);
}

} // verus!
