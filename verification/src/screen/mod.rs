//! VTE-based terminal screen emulator with scrollback history.
//! Processes escape sequences and maintains a grid of styled cells.

use std::collections::VecDeque;

use vstd::prelude::*;

pub mod cell;
pub mod changes;
pub mod edits;
pub mod flow;
pub mod grid;
pub mod laws;
pub mod model;
pub mod motion;
pub mod output;
pub mod parser;
pub mod performer;
pub mod render;
pub mod rendition;
pub mod replay;
pub mod restore;
pub mod scrollback;
pub mod settings;
pub mod sound;
pub mod style;
pub mod width;

use crate::bytes;
use cell::{Cell, CellView};
use grid::{Grid, GridView, TerminalModes};
use model::{EventView, ScreenView};
use parser::{advance, new_parser, EventSink};
use performer::{Event, ScreenPerformer};
pub use render::RenderCache;
use render::{render_line, render_screen, render_screen_with_scrollback};
use style::Style;

verus! {

/// Full cursor state saved by DECSC (ESC 7) / CSI s / mode 1048.
#[derive(Copy, Clone, Debug, PartialEq, Eq, Structural)]
pub struct SavedCursor {
    pub x: u16,
    pub y: u16,
    pub style: Style,
    pub g0_charset: grid::Charset,
    pub g1_charset: grid::Charset,
    pub active_charset: grid::ActiveCharset,
    pub autowrap_mode: bool,
}

/// Non-grid state that the performer changes.
pub struct ScreenState {
    pub current_style: Style,
    pub in_alt_screen: bool,
    pub saved_grid: Option<Vec<Vec<Cell>>>,
    pub saved_cursor_state: Option<SavedCursor>,
    pub saved_modes: Option<TerminalModes>,
    pub pending_responses: Vec<Vec<u8>>,
    pub pending_passthrough: Vec<Vec<u8>>,
    pub title: String,
    pub last_printed_char: char,
}

impl Default for ScreenState {
    fn default() -> (res: Self)
        ensures
            res.current_style == style::plain(),
            !res.in_alt_screen,
            res.saved_grid is None,
            res.saved_cursor_state is None,
            res.saved_modes is None,
            res.pending_responses@ == Seq::<Vec<u8>>::empty(),
            res.pending_passthrough@ == Seq::<Vec<u8>>::empty(),
            res.title@ == Seq::<char>::empty(),
            res.last_printed_char == ' ',
    {
        ScreenState {
            current_style: Style::default(),
            in_alt_screen: false,
            saved_grid: None,
            saved_cursor_state: None,
            saved_modes: None,
            pending_responses: Vec::new(),
            pending_passthrough: Vec::new(),
            title: String::new(),
            last_printed_char: ' ',
        }
    }
}

/// The terminal that a grid, its state and its history make up.
pub open spec fn screen_view(
    grid: grid::Grid,
    state: ScreenState,
    scrollback: VecDeque<Vec<Cell>>,
    scrollback_limit: usize,
    pending_scrollback: VecDeque<Vec<Cell>>,
) -> ScreenView {
    ScreenView {
        grid: grid@,
        style: state.current_style,
        in_alt_screen: state.in_alt_screen,
        saved_grid: match state.saved_grid {
            Some(cells) => Some(cell::rows_view(cells@)),
            None => None,
        },
        saved_cursor: state.saved_cursor_state,
        saved_modes: state.saved_modes,
        responses: bytes::lines_view(state.pending_responses@),
        passthrough: bytes::lines_view(state.pending_passthrough@),
        title: state.title@,
        last_printed_char: state.last_printed_char,
        scrollback: cell::rows_view(scrollback@),
        scrollback_limit: scrollback_limit as int,
        pending_scrollback: cell::rows_view(pending_scrollback@),
    }
}

/// Terminal screen emulator that processes VTE escape sequences into a cell grid.
pub struct Screen {
    pub grid: Grid,
    pub state: ScreenState,
    pub scrollback: VecDeque<Vec<Cell>>,
    pub scrollback_limit: usize,
    pub pending_scrollback: VecDeque<Vec<Cell>>,
    pub parser: vte::Parser,
}

impl View for Screen {
    type V = ScreenView;

    open spec fn view(&self) -> ScreenView {
        screen_view(
            self.grid,
            self.state,
            self.scrollback,
            self.scrollback_limit,
            self.pending_scrollback,
        )
    }
}

/// A fresh terminal.
pub open spec fn fresh(cols: int, rows: int, scrollback_limit: int) -> ScreenView {
    ScreenView {
        grid: grid::empty_grid(grid::at_least_one(cols), grid::at_least_one(rows)),
        style: style::plain(),
        in_alt_screen: false,
        saved_grid: None,
        saved_cursor: None,
        saved_modes: None,
        responses: seq![],
        passthrough: seq![],
        title: seq![],
        last_printed_char: ' ',
        scrollback: seq![],
        scrollback_limit,
        pending_scrollback: seq![],
    }
}

/// The rows of a history as ANSI text.
pub open spec fn history_bytes(rows: Seq<Seq<CellView>>) -> Seq<Seq<u8>> {
    rows.map_values(|row: Seq<CellView>| render::line_bytes(row))
}

/// The number of rows that come back from the history when a terminal grows to
/// `rows` rows: as many as there is room for, and none on the alternate screen.
pub open spec fn restored_count(s: ScreenView, rows: int) -> int {
    if !s.in_alt_screen && rows > s.grid.rows {
        model::min(rows - s.grid.rows, s.scrollback.len() as int)
    } else {
        0
    }
}

/// A terminal fitted to new dimensions. The latest rows of its history come back
/// at the top, and the cursor stays with its row.
pub open spec fn screen_resized(s: ScreenView, cols: int, rows: int) -> ScreenView {
    let n = restored_count(s, rows);
    let kept = s.scrollback.len() - n;
    ScreenView {
        grid: grid::resized(
            GridView {
                cells: s.scrollback.skip(kept) + s.grid.cells,
                cursor_y: s.grid.cursor_y + n,
                ..s.grid
            },
            grid::at_least_one(cols),
            grid::at_least_one(rows),
        ),
        scrollback: s.scrollback.take(kept),
        ..s
    }
}

/// `after` is the screen that feeding `input` to `before` leads to: all that the
/// parser reports is carried out, and the parser goes on from there.
pub open spec fn processed(before: Screen, input: Seq<u8>, after: Screen) -> bool {
    &&& after@ == before@.performed_all(before.reports(input))
    &&& forall|rest: Seq<u8>|
        before.reports(input + rest) == before.reports(input) + #[trigger] after.reports(rest)
}

impl Screen {
    /// The invariant of a screen.
    pub open spec fn wf(&self) -> bool {
        &&& self@.wf()
        &&& self.reports(Seq::empty()) == Seq::<EventView>::empty()
    }

    /// What the parser of this screen will report when it is fed `input`.
    pub open spec fn reports(&self, input: Seq<u8>) -> Seq<EventView> {
        parser::reports(self.parser, input)
    }

    /// Create a screen with the given dimensions and scrollback line limit.
    pub fn new(cols: u16, rows: u16, scrollback_limit: usize) -> (screen: Self)
        ensures
            screen.wf(),
            screen@ == fresh(cols as int, rows as int, scrollback_limit as int),
            forall|input: Seq<u8>| #[trigger]
                screen.reports(input) == parser::fresh_reports(input),
    {
        let screen = Screen {
            grid: Grid::new(cols, rows),
            state: ScreenState::default(),
            scrollback: VecDeque::new(),
            scrollback_limit,
            pending_scrollback: VecDeque::new(),
            parser: new_parser(),
        };
        proof {
            assert(screen@.responses =~= seq![]);
            assert(screen@.passthrough =~= seq![]);
            assert(screen@.scrollback =~= seq![]);
            assert(screen@.pending_scrollback =~= seq![]);
        }
        screen
    }

    /// Whether the screen is currently in alternate screen mode.
    pub fn in_alt_screen(&self) -> (res: bool)
        ensures
            res == self@.in_alt_screen,
    {
        self.state.in_alt_screen
    }

    /// Feed raw bytes through the VTE parser, updating the grid and state.
    pub fn process(&mut self, bytes: &[u8])
        requires
            old(self).wf(),
        ensures
            final(self).wf(),
            processed(*old(self), bytes@, *final(self)),
    {
        let mut i: usize = 0;
        assert(bytes@.take(0) =~= seq![]);
        assert(forall|rest: Seq<u8>| Seq::<u8>::empty() + rest =~= rest);
        assert(forall|e: Seq<EventView>| Seq::<EventView>::empty() + e =~= e);
        while i < bytes.len()
            invariant
                i <= bytes@.len(),
                self.wf(),
                processed(*old(self), bytes@.take(i as int), *self),
            decreases bytes@.len() - i,
        {
            let ghost before = *self;
            let mut sink = EventSink { events: Vec::new() };
            advance(&mut self.parser, &mut sink, bytes[i]);
            let ghost one = seq![bytes@[i as int]];
            assert(performer::events_view(sink.events@) =~= before.reports(one));
            self.perform(sink.events.as_slice());
            proof {
                assert(before@ == screen_view(
                    before.grid,
                    before.state,
                    before.scrollback,
                    before.scrollback_limit,
                    before.pending_scrollback,
                ));
                assert(one + Seq::<u8>::empty() =~= one);
                assert(before.reports(one + Seq::<u8>::empty()) == before.reports(one)
                    + self.reports(Seq::empty()));
                assert(self.reports(Seq::empty()) =~= Seq::empty());
                law_process_in_parts(*old(self), bytes@.take(i as int), before, one, *self);
                assert(bytes@.take(i + 1) =~= bytes@.take(i as int) + one);
            }
            i += 1;
        }
        assert(bytes@.take(i as int) =~= bytes@);
    }

    /// Carry out what an escape sequence parser reported.
    pub fn perform(&mut self, events: &[Event])
        requires
            old(self)@.wf(),
        ensures
            final(self)@.wf(),
            final(self)@ == old(self)@.performed_all(performer::events_view(events@)),
            final(self).parser == old(self).parser,
    {
        let mut performer = ScreenPerformer {
            grid: &mut self.grid,
            state: &mut self.state,
            scrollback: &mut self.scrollback,
            scrollback_limit: self.scrollback_limit,
            pending_scrollback: &mut self.pending_scrollback,
        };
        performer.perform_all(events);
    }

    /// Take pending responses that need to be written back to PTY stdin
    pub fn take_responses(&mut self) -> (res: Vec<Vec<u8>>)
        ensures
            bytes::lines_view(res@) == old(self)@.responses,
            final(self)@ == (ScreenView { responses: seq![], ..old(self)@ }),
            final(self).parser == old(self).parser,
    {
        let mut res: Vec<Vec<u8>> = Vec::new();
        std::mem::swap(&mut res, &mut self.state.pending_responses);
        assert(self@.responses =~= seq![]);
        res
    }

    /// Take pending OSC passthrough sequences to forward to the outer terminal.
    pub fn take_passthrough(&mut self) -> (res: Vec<Vec<u8>>)
        ensures
            bytes::lines_view(res@) == old(self)@.passthrough,
            final(self)@ == (ScreenView { passthrough: seq![], ..old(self)@ }),
            final(self).parser == old(self).parser,
    {
        let mut res: Vec<Vec<u8>> = Vec::new();
        std::mem::swap(&mut res, &mut self.state.pending_passthrough);
        assert(self@.passthrough =~= seq![]);
        res
    }

    /// Drain and return scrollback lines added since the last call, rendered as ANSI bytes.
    pub fn take_pending_scrollback(&mut self) -> (res: Vec<Vec<u8>>)
        ensures
            bytes::lines_view(res@) == history_bytes(old(self)@.pending_scrollback),
            final(self)@ == (ScreenView { pending_scrollback: seq![], ..old(self)@ }),
            final(self).parser == old(self).parser,
    {
        let res: Vec<Vec<u8>> = render_rows(&self.pending_scrollback);
        self.pending_scrollback.clear();
        assert(self@.pending_scrollback =~= seq![]);
        res
    }

    /// Drop what is waiting for a client: scrollback lines and passthrough sequences.
    pub fn drain(&mut self)
        ensures
            final(self)@ == (ScreenView {
                pending_scrollback: seq![],
                passthrough: seq![],
                ..old(self)@
            }),
            final(self).parser == old(self).parser,
    {
        self.pending_scrollback.clear();
        self.state.pending_passthrough.clear();
        assert(self@.pending_scrollback =~= seq![]);
        assert(self@.passthrough =~= seq![]);
    }

    /// Return all accumulated scrollback lines as rendered ANSI bytes.
    pub fn get_history(&self) -> (res: Vec<Vec<u8>>)
        ensures
            bytes::lines_view(res@) == history_bytes(self@.scrollback),
    {
        render_rows(&self.scrollback)
    }

    /// Render the current grid as ANSI output. Pass `full: true` for a full redraw.
    pub fn render(&self, full: bool, cache: &mut RenderCache) -> (res: Vec<u8>)
        requires
            self@.wf(),
        ensures
            res@ == render::frame_bytes(self@.grid, self@.title, full, old(cache)@),
            final(cache)@ == render::sent(self@.grid, self@.title),
    {
        render_screen(&self.grid, self.state.title.as_str(), full, cache)
    }

    /// Render the screen with scrollback lines put into the real terminal's native
    /// scrollback buffer, followed by a full screen redraw.
    pub fn render_with_scrollback(
        &self,
        scrollback: &[Vec<u8>],
        cache: &mut RenderCache,
    ) -> (res: Vec<u8>)
        requires
            self@.wf(),
        ensures
            res@ == render::scrollback_bytes(bytes::lines_view(scrollback@), self@.grid.rows)
                + render::frame_bytes(self@.grid, self@.title, true, old(cache)@),
            final(cache)@ == render::sent(self@.grid, self@.title),
    {
        render_screen_with_scrollback(&self.grid, self.state.title.as_str(), scrollback, cache)
    }

    /// Resize the grid to new dimensions, restoring scrollback lines on vertical expand.
    pub fn resize(&mut self, cols: u16, rows: u16)
        requires
            old(self).wf(),
        ensures
            final(self).wf(),
            final(self)@ == screen_resized(old(self)@, cols as int, rows as int),
            final(self).parser == old(self).parser,
    {
        let old_rows: u16 = self.grid.rows;
        let mut count: usize = 0;
        if !self.state.in_alt_screen && rows > old_rows {
            let grow: usize = (rows - old_rows) as usize;
            count = if grow < self.scrollback.len() {
                grow
            } else {
                self.scrollback.len()
            };
        }
        let ghost before = *self;
        let ghost n = restored_count(before@, rows as int);
        let mut i: usize = 0;
        assert(before@.scrollback.skip(before@.scrollback.len() as int) + before@.grid.cells
            =~= before@.grid.cells);
        assert(before@.scrollback.take(before@.scrollback.len() as int) =~= before@.scrollback);
        while i < count
            invariant
                i <= count == n,
                n == restored_count(before@, rows as int),
                count <= before@.scrollback.len(),
                self@.scrollback == before@.scrollback.take(before@.scrollback.len() - i),
                self@.grid.cells == before@.scrollback.skip(before@.scrollback.len() - i)
                    + before@.grid.cells,
                self@ == (ScreenView {
                    grid: GridView { cells: self@.grid.cells, ..before@.grid },
                    scrollback: self@.scrollback,
                    ..before@
                }),
                self.parser == before.parser,
            decreases count - i,
        {
            let ghost history = self@.scrollback;
            let ghost cells = self@.grid.cells;
            assert(history.len() == before@.scrollback.len() - i);
            if let Some(row) = self.scrollback.pop_back() {
                self.grid.cells.insert(0, row);
                assert(self@.grid.cells =~= seq![history.last()] + cells);
            }
            i += 1;
            assert(self@.scrollback =~= before@.scrollback.take(before@.scrollback.len() - i));
            assert(self@.grid.cells =~= before@.scrollback.skip(before@.scrollback.len() - i)
                + before@.grid.cells);
        }
        self.grid.cursor_y += count as u16;
        self.grid.resize(cols, rows);
    }
}

/// Render the rows of a history.
fn render_rows(rows: &VecDeque<Vec<Cell>>) -> (res: Vec<Vec<u8>>)
    ensures
        bytes::lines_view(res@) == history_bytes(cell::rows_view(rows@)),
{
    let mut res: Vec<Vec<u8>> = Vec::new();
    while res.len() < rows.len()
        invariant
            res@.len() <= rows@.len(),
            forall|i: int|
                0 <= i < res@.len() ==> #[trigger] res@[i]@ == render::line_bytes(
                    cell::row_view(rows@[i]@),
                ),
        decreases rows@.len() - res@.len(),
    {
        res.push(render_line(rows[res.len()].as_slice()));
    }
    assert(bytes::lines_view(res@) =~= history_bytes(cell::rows_view(rows@)));
    res
}

/// Carrying out `a + b` is carrying out `a`, then `b`.
pub proof fn law_events_in_parts(s: ScreenView, a: Seq<EventView>, b: Seq<EventView>)
    ensures
        s.performed_all(a + b) == s.performed_all(a).performed_all(b),
    decreases b.len(),
{
    if b.len() == 0 {
        assert(a + b =~= a);
    } else {
        law_events_in_parts(s, a, b.drop_last());
        assert((a + b).drop_last() =~= a + b.drop_last());
        assert((a + b).last() == b.last());
    }
}

/// Feeding `a` and then `b` is feeding `a + b`: it does not matter how input is
/// cut into pieces, even inside an escape sequence or a character.
pub proof fn law_process_in_parts(
    first: Screen,
    a: Seq<u8>,
    second: Screen,
    b: Seq<u8>,
    third: Screen,
)
    requires
        processed(first, a, second),
        processed(second, b, third),
    ensures
        processed(first, a + b, third),
{
    law_events_in_parts(first@, first.reports(a), second.reports(b));
    assert(first.reports(a + b) == first.reports(a) + second.reports(b));
    assert forall|rest: Seq<u8>| first.reports((a + b) + rest) == first.reports(a + b)
        + #[trigger] third.reports(rest) by {
        assert((a + b) + rest =~= a + (b + rest));
        assert(first.reports(a + (b + rest)) == first.reports(a) + second.reports(b + rest));
        assert(second.reports(b + rest) == second.reports(b) + third.reports(rest));
        assert(first.reports(a) + (second.reports(b) + third.reports(rest)) =~= (first.reports(a)
            + second.reports(b)) + third.reports(rest));
    }
}

} // verus!
