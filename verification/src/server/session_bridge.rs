//! How a client is bridged to a session: what it is sent, and what is done with
//! what it sends.

use vstd::prelude::*;
use vstd::string::*;
use vstd::utf8::*;

use crate::bytes;
use crate::bytes::push_str;
use crate::client::output::lines_shown;
use crate::protocol::codec::MAX_FRAME_SIZE;
use crate::protocol::{ClientMsg, ConnectMode};
use crate::screen;
use crate::screen::grid;
use crate::screen::cell::CellView;
use crate::screen::grid::{sanitize_dimensions, GridView};
use crate::screen::model;
use crate::screen::model::{EventView, ScreenView};
use crate::screen::render;
use crate::screen::style::write_u16;
use crate::screen::{laws, replay, restore, scrollback, sound};
use crate::screen::{RenderCache, Screen};
use crate::session::Session;

verus! {

/// Estimated overhead of a line in a message: its length, and room for the message
/// tag and padding.
pub const LINE_OVERHEAD: usize = 16;

/// Parameters for a session connection request.
#[derive(Debug)]
pub struct ConnectRequest {
    pub name: String,
    pub history: usize,
    pub cols: u16,
    pub rows: u16,
    pub leftover: Vec<u8>,
    pub mode: ConnectMode,
}

/// Byte strings one after the other.
pub open spec fn flattened(parts: Seq<Seq<u8>>) -> Seq<u8>
    decreases parts.len(),
{
    if parts.len() == 0 {
        seq![]
    } else {
        flattened(parts.drop_last()) + parts.last()
    }
}

/// Prepend passthrough escape sequences to the rendered screen data so they
/// are sent as a single screen update: the outer terminal then shows no state in
/// between.
pub fn prepend_passthrough(passthrough: Vec<Vec<u8>>, render_data: Vec<u8>) -> (res: Vec<u8>)
    ensures
        res@ == flattened(bytes::lines_view(passthrough@)) + render_data@,
{
    let ghost parts = bytes::lines_view(passthrough@);
    let mut combined: Vec<u8> = Vec::new();
    let mut i: usize = 0;
    assert(parts.take(0) =~= seq![]);
    while i < passthrough.len()
        invariant
            i <= passthrough@.len(),
            parts == bytes::lines_view(passthrough@),
            combined@ == flattened(parts.take(i as int)),
        decreases passthrough@.len() - i,
    {
        combined.extend_from_slice(passthrough[i].as_slice());
        proof {
            assert(parts.take(i + 1).drop_last() =~= parts.take(i as int));
            assert(parts.take(i + 1).last() == passthrough@[i as int]@);
        }
        i += 1;
    }
    assert(parts.take(i as int) =~= parts);
    combined.extend_from_slice(render_data.as_slice());
    combined
}

// Connecting

/// What is done to a session that a client attaches to.
#[derive(Copy, Clone, Debug, PartialEq, Eq, Structural)]
pub enum Reattach {
    /// Nothing: the session is new.
    Keep,
    /// Terminal and screen get the size of the client.
    Resize { cols: u16, rows: u16 },
    /// The terminal is given its size again, so that programs redraw.
    Nudge { cols: u16, rows: u16 },
}

/// Decide what is done to a session of the given size that a client attaches to.
pub fn reattach(is_new: bool, current: (u16, u16), cols: u16, rows: u16) -> (res: Reattach)
    ensures
        is_new ==> res == Reattach::Keep,
        !is_new && current == (cols, rows) ==> res == (Reattach::Nudge {
            cols: grid::at_least_one(cols as int) as u16,
            rows: grid::at_least_one(rows as int) as u16,
        }),
        !is_new && current != (cols, rows) ==> res == (Reattach::Resize {
            cols: grid::at_least_one(cols as int) as u16,
            rows: grid::at_least_one(rows as int) as u16,
        }),
{
    if is_new {
        return Reattach::Keep;
    }
    let (c, r) = sanitize_dimensions(cols, rows);
    if current.0 != cols || current.1 != rows {
        Reattach::Resize { cols: c, rows: r }
    } else {
        Reattach::Nudge { cols: c, rows: r }
    }
}

/// The history that a client gets when it attaches: none while the alternate screen
/// is shown, to which it does not belong.
pub open spec fn attach_history(s: ScreenView) -> Seq<Seq<u8>> {
    if s.in_alt_screen {
        seq![]
    } else {
        screen::history_bytes(s.scrollback)
    }
}

/// Line feeds at the bottom of the screen that move what is left of the history
/// there into the scrollback of the outer terminal.
pub open spec fn flush_bytes(rows: int) -> Seq<u8> {
    render::at_row(rows - 1, ";1H".spec_bytes()) + Seq::new((rows - 1) as nat, |i: int| 10u8)
}

/// The first screen update that a client gets: it follows the history.
pub open spec fn attach_bytes(s: ScreenView, last: render::CacheView) -> Seq<u8> {
    render::sent_if(attach_history(s).len() > 0, flush_bytes(s.grid.rows)) + render::frame_bytes(
        s.grid,
        s.title,
        true,
        last,
    )
}

/// The history and the first screen update for a client that attaches.
pub fn initial_state(screen: &Screen, cache: &mut RenderCache) -> (res: (Vec<Vec<u8>>, Vec<u8>))
    requires
        screen@.wf(),
    ensures
        bytes::lines_view(res.0@) == attach_history(screen@),
        res.1@ == attach_bytes(screen@, old(cache)@),
        final(cache)@ == render::sent(screen@.grid, screen@.title),
{
    let history: Vec<Vec<u8>> = if screen.in_alt_screen() {
        Vec::new()
    } else {
        screen.get_history()
    };
    assert(bytes::lines_view(history@) =~= attach_history(screen@));
    let mut data: Vec<u8> = Vec::new();
    if history.len() > 0 {
        push_str(&mut data, "\x1b[");
        write_u16(&mut data, screen.grid.rows);
        push_str(&mut data, ";1H");
        let mut i: u16 = 0;
        let ghost start = data@;
        while i < screen.grid.rows - 1
            invariant
                screen@.wf(),
                i <= screen.grid.rows - 1,
                data@ =~= start + Seq::new(i as nat, |i: int| 10u8),
            decreases screen.grid.rows - i,
        {
            data.push(10);
            i += 1;
        }
        assert(data@ =~= flush_bytes(screen@.grid.rows));
    }
    assert(data@ =~= render::sent_if(
        attach_history(screen@).len() > 0,
        flush_bytes(screen@.grid.rows),
    ));
    let frame: Vec<u8> = screen.render(true, cache);
    data.extend_from_slice(frame.as_slice());
    (history, data)
}

// History messages

/// The estimated size of lines in a message.
pub open spec fn lines_size(lines: Seq<Seq<u8>>) -> int
    decreases lines.len(),
{
    if lines.len() == 0 {
        0
    } else {
        lines_size(lines.drop_last()) + lines.last().len() + LINE_OVERHEAD
    }
}

/// The size that the lines of a history message may have together.
pub open spec fn chunk_limit() -> int {
    MAX_FRAME_SIZE as int / 2
}

/// Lines packed into messages, in order: the messages that are full, and the one
/// that is being filled. A line that does not fit starts the next message.
pub open spec fn packed(lines: Seq<Seq<u8>>) -> (Seq<Seq<Seq<u8>>>, Seq<Seq<u8>>)
    decreases lines.len(),
{
    if lines.len() == 0 {
        (seq![], seq![])
    } else {
        let (full, current) = packed(lines.drop_last());
        let line = lines.last();
        if current.len() > 0 && lines_size(current) + line.len() + LINE_OVERHEAD > chunk_limit() {
            (full.push(current), seq![line])
        } else {
            (full, current.push(line))
        }
    }
}

/// The messages that a history is sent in.
pub open spec fn history_messages(lines: Seq<Seq<u8>>) -> Seq<Seq<Seq<u8>>> {
    let (full, current) = packed(lines);
    if current.len() > 0 {
        full.push(current)
    } else {
        full
    }
}

/// Lists of byte strings.
pub open spec fn chunks_view(chunks: Seq<Vec<Vec<u8>>>) -> Seq<Seq<Seq<u8>>> {
    chunks.map_values(|c: Vec<Vec<u8>>| bytes::lines_view(c@))
}

proof fn lemma_packed_size(lines: Seq<Seq<u8>>)
    ensures
        lines_size(packed(lines).1) <= chunk_limit() || packed(lines).1.len() <= 1,
        packed(lines).1.len() == 0 ==> lines.len() == 0,
        forall|i: int|
            0 <= i < packed(lines).0.len() ==> {
                let chunk = #[trigger] packed(lines).0[i];
                chunk.len() > 0 && (lines_size(chunk) <= chunk_limit() || chunk.len() == 1)
            },
    decreases lines.len(),
{
    if lines.len() > 0 {
        lemma_packed_size(lines.drop_last());
        let (full, current) = packed(lines.drop_last());
        assert(current.push(lines.last()).drop_last() =~= current);
        assert forall|i: int| 0 <= i < packed(lines).0.len() implies ({
            let chunk = #[trigger] packed(lines).0[i];
            chunk.len() > 0 && (lines_size(chunk) <= chunk_limit() || chunk.len() == 1)
        }) by {
            if i < full.len() {
                assert(packed(lines).0[i] == full[i]);
            }
        }
    }
}

/// Split a history into messages of limited size.
pub fn history_chunks(history: Vec<Vec<u8>>) -> (res: Vec<Vec<Vec<u8>>>)
    ensures
        chunks_view(res@) == history_messages(bytes::lines_view(history@)),
{
    let ghost lines = bytes::lines_view(history@);
    let limit: u128 = (MAX_FRAME_SIZE / 2) as u128;
    let mut full: Vec<Vec<Vec<u8>>> = Vec::new();
    let mut chunk: Vec<Vec<u8>> = Vec::new();
    let mut size: u128 = 0;
    let mut i: usize = 0;
    assert(lines.take(0) =~= seq![]);
    assert(chunks_view(full@) =~= packed(lines.take(0)).0);
    assert(bytes::lines_view(chunk@) =~= packed(lines.take(0)).1);
    while i < history.len()
        invariant
            i <= history@.len(),
            lines == bytes::lines_view(history@),
            limit == chunk_limit(),
            chunks_view(full@) == packed(lines.take(i as int)).0,
            bytes::lines_view(chunk@) == packed(lines.take(i as int)).1,
            size == lines_size(bytes::lines_view(chunk@)),
            size <= 0x1_0000_0000_0000_0000_0000,
        decreases history@.len() - i,
    {
        let mut line: Vec<u8> = Vec::new();
        line.extend_from_slice(history[i].as_slice());
        assert(line@ =~= history@[i as int]@);
        let line_size: u128 = line.len() as u128 + LINE_OVERHEAD as u128;
        let ghost before = bytes::lines_view(chunk@);
        let ghost packs = packed(lines.take(i as int));
        proof {
            assert(lines.take(i + 1).drop_last() =~= lines.take(i as int));
            assert(lines.take(i + 1).last() == line@);
            lemma_packed_size(lines.take(i as int));
            lemma_packed_size(lines.take(i + 1));
        }
        if size + line_size > limit && chunk.len() > 0 {
            let mut done: Vec<Vec<u8>> = Vec::new();
            std::mem::swap(&mut done, &mut chunk);
            full.push(done);
            size = 0;
            assert(chunks_view(full@) =~= packs.0.push(before));
            assert(bytes::lines_view(chunk@) =~= seq![]);
        }
        let ghost kept = bytes::lines_view(chunk@);
        size = size + line_size;
        chunk.push(line);
        proof {
            assert(bytes::lines_view(chunk@) =~= kept.push(line@));
            assert(kept.push(line@).drop_last() =~= kept);
            assert(bytes::lines_view(chunk@) =~= packed(lines.take(i + 1)).1);
            if chunk@.len() == 1 {
                assert(kept =~= seq![]);
                assert(lines_size(kept) == 0);
            }
        }
        i += 1;
    }
    assert(lines.take(i as int) =~= lines);
    if chunk.len() > 0 {
        full.push(chunk);
    }
    assert(chunks_view(full@) =~= history_messages(lines));
    full
}

/// Lists one after the other.
pub open spec fn chained(chunks: Seq<Seq<Seq<u8>>>) -> Seq<Seq<u8>>
    decreases chunks.len(),
{
    if chunks.len() == 0 {
        seq![]
    } else {
        chained(chunks.drop_last()) + chunks.last()
    }
}

proof fn lemma_packed_lines(lines: Seq<Seq<u8>>)
    ensures
        chained(packed(lines).0) + packed(lines).1 == lines,
    decreases lines.len(),
{
    if lines.len() == 0 {
        assert(chained(packed(lines).0) + packed(lines).1 =~= lines);
    } else {
        lemma_packed_lines(lines.drop_last());
        let (full, current) = packed(lines.drop_last());
        assert(full.push(current).drop_last() =~= full);
        assert(chained(packed(lines).0) + packed(lines).1 =~= lines.drop_last().push(
            lines.last(),
        ));
        assert(lines.drop_last().push(lines.last()) =~= lines);
    }
}

/// The messages of a history hold all of its lines in order, none of them is empty,
/// and none of more than one line is over the limit.
pub proof fn law_history_messages(lines: Seq<Seq<u8>>)
    ensures
        chained(history_messages(lines)) == lines,
        forall|i: int|
            0 <= i < history_messages(lines).len() ==> {
                let chunk = #[trigger] history_messages(lines)[i];
                chunk.len() > 0 && (lines_size(chunk) <= chunk_limit() || chunk.len() == 1)
            },
{
    lemma_packed_lines(lines);
    lemma_packed_size(lines);
    let (full, current) = packed(lines);
    if current.len() > 0 {
        assert(full.push(current).drop_last() =~= full);
    } else {
        assert(chained(full) + current =~= chained(full));
    }
}

// Screen to client

/// A screen update: sequences for the outer terminal first, then the lines that
/// scrolled off, if any, and the screen. With lines the screen is drawn anew,
/// without any only as far as it changed.
pub open spec fn update_bytes(s: ScreenView, last: render::CacheView) -> Seq<u8> {
    flattened(s.passthrough) + (if s.pending_scrollback.len() > 0 {
        render::scrollback_bytes(screen::history_bytes(s.pending_scrollback), s.grid.rows)
            + render::frame_bytes(s.grid, s.title, true, last)
    } else {
        render::frame_bytes(s.grid, s.title, false, last)
    })
}

/// Take what is waiting for the client, and render it with the screen.
pub fn screen_update(screen: &mut Screen, cache: &mut RenderCache) -> (res: Vec<u8>)
    requires
        old(screen).wf(),
    ensures
        final(screen).wf(),
        res@ == update_bytes(old(screen)@, old(cache)@),
        final(screen)@ == (ScreenView {
            pending_scrollback: seq![],
            passthrough: seq![],
            ..old(screen)@
        }),
        final(screen).parser == old(screen).parser,
        final(cache)@ == render::sent(old(screen)@.grid, old(screen)@.title),
{
    let lines: Vec<Vec<u8>> = screen.take_pending_scrollback();
    let passthrough: Vec<Vec<u8>> = screen.take_passthrough();
    assert(bytes::lines_view(lines@).len() == old(screen)@.pending_scrollback.len());
    let data: Vec<u8> = if lines.len() > 0 {
        screen.render_with_scrollback(lines.as_slice(), cache)
    } else {
        screen.render(false, cache)
    };
    prepend_passthrough(passthrough, data)
}

/// An update right after an update sends the cursor alone.
pub proof fn law_idle_update(s: ScreenView)
    requires
        s.wf(),
        s.passthrough.len() == 0,
        s.pending_scrollback.len() == 0,
    ensures
        update_bytes(s, render::sent(s.grid, s.title)) == render::frame_start(false)
            + render::cursor_bytes(s.grid) + render::frame_end(s.grid.cursor_visible),
{
    render::law_unchanged_frame(s.grid, s.title);
    let frame = render::frame_bytes(s.grid, s.title, false, render::sent(s.grid, s.title));
    assert(flattened(s.passthrough) =~= seq![]);
    assert(seq![] + frame =~= frame);
}

/// A screen update with lines that scrolled off, read as events.
pub open spec fn update_events(s: ScreenView) -> Seq<EventView> {
    scrollback::scrollback_events(s.pending_scrollback, s.grid.rows) + replay::frame_events(
        s.grid,
        s.title,
    )
}

/// Such an update is the text of its events, behind the sequences for the outer
/// terminal.
pub proof fn law_update_is_text_of_events(s: ScreenView, last: render::CacheView)
    requires
        s.wf(),
        s.pending_scrollback.len() > 0,
    ensures
        update_bytes(s, last) == flattened(s.passthrough) + replay::events_text(update_events(s)),
{
    scrollback::law_scrollback_is_text_of_events(s.pending_scrollback, s.grid.rows);
    replay::law_frame_is_text_of_events(s.grid, s.title, last);
    replay::lemma_text_append(
        scrollback::scrollback_events(s.pending_scrollback, s.grid.rows),
        replay::frame_events(s.grid, s.title),
    );
}

/// Scrolling is native: the lines that scrolled off a session's screen go to the
/// scrollback of the terminal that the client runs in, all of them and in order, and
/// its screen then shows the session's screen.
pub proof fn law_update_passes_lines_on(outer: ScreenView, s: ScreenView)
    requires
        scrollback::native(outer),
        scrollback::paired(outer),
        s.wf(),
        outer.grid.cols == s.grid.cols,
        outer.grid.rows == s.grid.rows,
        s.pending_scrollback.len() > 0,
        forall|i: int|
            0 <= i < s.pending_scrollback.len() ==> scrollback::fits(
                #[trigger] s.pending_scrollback[i],
                s.grid.cols,
            ),
        forall|y: int| 0 <= y < s.grid.rows ==> restore::printed_row(#[trigger] s.grid.cells[y]),
    ensures
        ({
            let t = outer.performed_all(update_events(s));
            &&& t.scrollback == scrollback::remembered_all(
                outer.scrollback,
                outer.scrollback_limit,
                scrollback::drawn_lines(s.pending_scrollback, s.grid.cols),
            )
            &&& t.grid == GridView {
                cells: restore::drawn_rows(s.grid.cells),
                wrap_pending: false,
                scroll_top: if s.grid.scroll_top < s.grid.scroll_bottom {
                    s.grid.scroll_top
                } else {
                    0
                },
                scroll_bottom: if s.grid.scroll_top < s.grid.scroll_bottom {
                    s.grid.scroll_bottom
                } else {
                    s.grid.rows - 1
                },
                modes: restore::restored_modes(s.grid.modes),
                ..s.grid
            }
            &&& t.passthrough == outer.passthrough
            &&& t.responses == outer.responses
        }),
{
    let lines = scrollback::scrollback_events(s.pending_scrollback, s.grid.rows);
    screen::law_events_in_parts(outer, lines, replay::frame_events(s.grid, s.title));
    scrollback::law_lines_reach_scrollback(outer, s.pending_scrollback);
    restore::law_frame_restores_screen(outer.performed_all(lines), s.grid, s.title);
}

/// What a client that attaches is sent, read as events: the history, which the client
/// writes line by line, and the first screen update.
pub open spec fn attach_events(s: ScreenView) -> Seq<EventView> {
    if s.in_alt_screen || s.scrollback.len() == 0 {
        replay::frame_events(s.grid, s.title)
    } else {
        scrollback::written_events(s.scrollback) + scrollback::flush_events(s.grid.rows)
            + replay::frame_events(s.grid, s.title)
    }
}

proof fn lemma_written_text(lines: Seq<Seq<CellView>>)
    ensures
        replay::events_text(scrollback::written_events(lines)) == lines_shown(
            screen::history_bytes(lines),
        ),
    decreases lines.len(),
{
    if lines.len() == 0 {
        replay::lemma_text_none();
    } else {
        let (before, line) = (lines.drop_last(), lines.last());
        let (cr, lf) = (EventView::Execute(13), EventView::Execute(10));
        lemma_written_text(before);
        replay::lemma_text_append(
            scrollback::written_events(before),
            scrollback::line_events(line) + seq![cr, lf],
        );
        replay::lemma_text_append(scrollback::line_events(line), seq![cr, lf]);
        replay::lemma_two_texts(cr, lf);
        scrollback::law_line_is_text_of_events(line);
        reveal_strlit("\r\n");
        is_ascii_chars_encode_utf8("\r\n"@);
        assert("\r\n".spec_bytes() =~= seq![13u8] + seq![10u8]);
        let all = screen::history_bytes(lines);
        assert(all.drop_last() =~= screen::history_bytes(before));
        assert(all.last() == render::line_bytes(line));
        assert(lines_shown(all) =~= lines_shown(all.drop_last()) + (all.last()
            + "\r\n".spec_bytes()));
    }
}

/// What a client shows when it attaches is the text of these events.
pub proof fn law_attach_is_text_of_events(s: ScreenView, last: render::CacheView)
    requires
        s.wf(),
    ensures
        lines_shown(attach_history(s)) + attach_bytes(s, last) == replay::events_text(
            attach_events(s),
        ),
{
    let rows = s.grid.rows;
    let frame = replay::frame_events(s.grid, s.title);
    replay::law_frame_is_text_of_events(s.grid, s.title, last);
    if s.in_alt_screen || s.scrollback.len() == 0 {
        assert(attach_history(s) =~= seq![]);
        assert(lines_shown(attach_history(s)) + attach_bytes(s, last) =~= replay::events_text(
            frame,
        ));
    } else {
        let written = scrollback::written_events(s.scrollback);
        let place = replay::cursor_event(0, rows - 1);
        lemma_written_text(s.scrollback);
        replay::lemma_text_append(written + scrollback::flush_events(rows), frame);
        replay::lemma_text_append(written, scrollback::flush_events(rows));
        replay::lemma_text_append(seq![place], scrollback::feed_events(rows - 1));
        replay::lemma_text_one(place);
        replay::lemma_row_start_text(rows - 1);
        scrollback::lemma_feed_text(rows - 1);
        assert(lines_shown(attach_history(s)) + attach_bytes(s, last) =~= replay::events_text(
            attach_events(s),
        ));
    }
}

/// Whether a terminal `t` with room for `limit` lines shows the session `s`: the
/// session's history is in its scrollback, in order, and the session's screen on its
/// own. Rows of the screen that a short history did not fill follow it, blank.
pub open spec fn shows_session(s: ScreenView, t: ScreenView, limit: int) -> bool {
    let blanks = model::max(s.grid.rows - 1 - s.scrollback.len(), 0);
    &&& t.scrollback == (if s.in_alt_screen || s.scrollback.len() == 0 {
        seq![]
    } else {
        scrollback::remembered_all(
            seq![],
            limit,
            scrollback::shown_lines(s.scrollback, s.grid.cols) + scrollback::blank_rows(
                s.grid.cols,
                blanks,
            ),
        )
    })
    &&& t.grid.cells == restore::drawn_rows(s.grid.cells)
    &&& t.grid.cursor_x == s.grid.cursor_x
    &&& t.grid.cursor_y == s.grid.cursor_y
    &&& t.grid.cursor_visible == s.grid.cursor_visible
    &&& t.grid.modes == restore::restored_modes(s.grid.modes)
}

/// A client that attaches with a fresh terminal sees the session and its history.
pub proof fn law_attach_shows_session(s: ScreenView, limit: int)
    requires
        s.wf(),
        0 <= limit,
        forall|i: int|
            0 <= i < s.scrollback.len() ==> scrollback::fits(
                #[trigger] s.scrollback[i],
                s.grid.cols,
            ),
        forall|y: int| 0 <= y < s.grid.rows ==> restore::printed_row(#[trigger] s.grid.cells[y]),
    ensures
        shows_session(
            s,
            screen::fresh(s.grid.cols, s.grid.rows, limit).performed_all(attach_events(s)),
            limit,
        ),
{
    let (cols, rows) = (s.grid.cols, s.grid.rows);
    let outer = screen::fresh(cols, rows, limit);
    let frame = replay::frame_events(s.grid, s.title);
    if s.in_alt_screen || s.scrollback.len() == 0 {
        restore::law_frame_restores_screen(outer, s.grid, s.title);
    } else {
        let history = scrollback::written_events(s.scrollback) + scrollback::flush_events(rows);
        assert(outer.grid.cells =~= scrollback::blank_rows(cols, rows));
        screen::law_events_in_parts(outer, history, frame);
        scrollback::law_history_reaches_scrollback(outer, s.scrollback);
        restore::law_frame_restores_screen(outer.performed_all(history), s.grid, s.title);
    }
}

/// In particular, whatever a session that started fresh has carried out since, as long
/// as it printed no character cut at the right margin.
pub proof fn law_attach_shows_what_was_printed(
    cols: int,
    rows: int,
    history: int,
    events: Seq<EventView>,
    limit: int,
)
    requires
        0 <= cols <= u16::MAX,
        0 <= rows <= u16::MAX,
        0 <= history,
        0 <= limit,
        forall|i: int|
            0 <= i < events.len() ==> sound::prints_only_whole(
                screen::fresh(cols, rows, history).performed_all(events.take(i)),
                #[trigger] events[i],
            ),
    ensures
        ({
            let s = screen::fresh(cols, rows, history).performed_all(events);
            let outer = screen::fresh(s.grid.cols, s.grid.rows, limit);
            shows_session(s, outer.performed_all(attach_events(s)), limit)
        }),
{
    let start = screen::fresh(cols, rows, history);
    let s = start.performed_all(events);
    sound::law_fresh_rows_are_whole(cols, rows, history);
    sound::law_events_keep_rows_whole(start, events);
    laws::law_events_are_steady(start, events);
    sound::law_whole_rows_can_be_sent(s);
    law_attach_shows_session(s, limit);
}

/// What happened to the relay from the screen to a client.
#[derive(Copy, Clone, Debug, PartialEq, Eq, Structural)]
pub enum RelayEvent {
    /// The reader of the session took in output, or ended.
    Notified { reader_alive: bool },
    /// The timer that spaces out updates ran out.
    TimerElapsed,
    /// The client asked for a full redraw.
    RefreshRequested,
    /// Another client took over the session.
    Evicted,
}

/// What the relay does next.
#[derive(Copy, Clone, Debug, PartialEq, Eq, Structural)]
pub enum RelayAction {
    /// Nothing.
    Wait,
    /// Start the timer anew.
    StartTimer,
    /// Send a screen update.
    SendUpdate,
    /// Send a full redraw.
    SendFull,
    /// Send a screen update, tell that the session ended, and stop.
    SendUpdateAndEnd,
    /// Send a full redraw, tell that the session ended, and stop.
    SendFullAndEnd,
    /// Tell that the client was evicted, and stop.
    SendEvicted,
}

/// The relay from the screen of a session to a client.
#[derive(Copy, Clone, Debug, PartialEq, Eq, Structural)]
pub struct Relay {
    /// Output was taken in since the last update.
    pub pending_render: bool,
}

/// What the relay answers to an event.
pub open spec fn relay_answer(pending: bool, event: RelayEvent) -> RelayAction {
    match event {
        RelayEvent::Notified { reader_alive } => if reader_alive {
            RelayAction::StartTimer
        } else {
            RelayAction::SendUpdateAndEnd
        },
        RelayEvent::TimerElapsed => if pending {
            RelayAction::SendUpdate
        } else {
            RelayAction::Wait
        },
        RelayEvent::RefreshRequested => RelayAction::SendFull,
        RelayEvent::Evicted => RelayAction::SendEvicted,
    }
}

/// Whether an update is due after an event.
pub open spec fn relay_pending(pending: bool, event: RelayEvent) -> bool {
    match event {
        RelayEvent::Notified { reader_alive } => pending || reader_alive,
        RelayEvent::TimerElapsed => false,
        _ => pending,
    }
}

impl Relay {
    /// Start a relay. Where the reader of the session ended before, the client is
    /// shown the final state at once.
    pub fn start(reader_alive: bool) -> (res: (Relay, RelayAction))
        ensures
            !res.0.pending_render,
            res.1 == (if reader_alive {
                RelayAction::Wait
            } else {
                RelayAction::SendFullAndEnd
            }),
    {
        let relay = Relay { pending_render: false };
        if reader_alive {
            (relay, RelayAction::Wait)
        } else {
            (relay, RelayAction::SendFullAndEnd)
        }
    }

    /// Decide what to do on an event.
    pub fn on(&mut self, event: RelayEvent) -> (res: RelayAction)
        ensures
            res == relay_answer(old(self).pending_render, event),
            final(self).pending_render == relay_pending(old(self).pending_render, event),
    {
        match event {
            RelayEvent::Notified { reader_alive } => {
                if reader_alive {
                    self.pending_render = true;
                    RelayAction::StartTimer
                } else {
                    RelayAction::SendUpdateAndEnd
                }
            },
            RelayEvent::TimerElapsed => {
                if self.pending_render {
                    self.pending_render = false;
                    RelayAction::SendUpdate
                } else {
                    RelayAction::Wait
                }
            },
            RelayEvent::RefreshRequested => RelayAction::SendFull,
            RelayEvent::Evicted => RelayAction::SendEvicted,
        }
    }
}

impl RelayAction {
    /// Whether the relay stops after this.
    pub fn ends(self) -> (res: bool)
        ensures
            res == (self == RelayAction::SendUpdateAndEnd || self == RelayAction::SendFullAndEnd
                || self == RelayAction::SendEvicted),
    {
        match self {
            RelayAction::SendUpdateAndEnd
            | RelayAction::SendFullAndEnd
            | RelayAction::SendEvicted => true,
            _ => false,
        }
    }
}

/// Output is never forgotten: once the reader took some in, an update or the end
/// follows with the next time that the timer runs out, whatever happens before.
pub proof fn law_output_reaches_client(between: Seq<RelayEvent>)
    requires
        forall|i: int| 0 <= i < between.len() ==> #[trigger] between[i] != RelayEvent::TimerElapsed,
    ensures
        relay_answer(pending_after(true, between), RelayEvent::TimerElapsed)
            == RelayAction::SendUpdate,
{
    lemma_still_pending(between);
}

/// Whether an update is due after a list of events.
pub open spec fn pending_after(pending: bool, events: Seq<RelayEvent>) -> bool
    decreases events.len(),
{
    if events.len() == 0 {
        pending
    } else {
        relay_pending(pending_after(pending, events.drop_last()), events.last())
    }
}

proof fn lemma_still_pending(events: Seq<RelayEvent>)
    requires
        forall|i: int| 0 <= i < events.len() ==> #[trigger] events[i] != RelayEvent::TimerElapsed,
    ensures
        pending_after(true, events),
    decreases events.len(),
{
    if events.len() > 0 {
        let before = events.drop_last();
        assert forall|i: int| 0 <= i < before.len() implies #[trigger] before[i]
            != RelayEvent::TimerElapsed by {
            assert(before[i] == events[i]);
        }
        lemma_still_pending(before);
        assert(events[events.len() - 1] != RelayEvent::TimerElapsed);
    }
}

/// Whether a relay that ended after `last`, or was cut off, takes the mark of a client
/// from its session. An evicted client left the session to another one, so the mark
/// stays with that, unless the session had ended before the relay began.
pub open spec fn takes_mark(last: Option<RelayAction>, evicted: bool) -> bool {
    !evicted || last == Some(RelayAction::SendFullAndEnd)
}

/// Whether a session is marked as without a client once a relay ended, after `last`
/// or cut off.
pub fn clears_client(last: Option<RelayAction>, evicted: bool) -> (res: bool)
    ensures
        res == takes_mark(last, evicted),
{
    match last {
        Some(RelayAction::SendFullAndEnd) => true,
        _ => !evicted,
    }
}

/// A session that a client attaches to while it has another one keeps its mark when the
/// relay of the evicted one ends, so the reader drops nothing meant for the new one;
/// and it loses the mark when the relay of the new one ends. The relay must not be one
/// that began when the shell was gone: that takes the mark in any case.
pub proof fn law_evicted_client_leaves_mark(s: Session, last: Option<RelayAction>)
    requires
        last != Some(RelayAction::SendFullAndEnd),
    ensures
        s.attached().evictable,
        s.attached().attached().has_client && !takes_mark(last, true),
        takes_mark(last, false),
{
}

// Client to shell

/// What is done with a message of an attached client.
pub enum ClientAction {
    /// Write input to the terminal.
    Write(Vec<u8>),
    /// Resize terminal and screen.
    Resize { cols: u16, rows: u16 },
    /// Redraw the screen.
    Refresh,
    /// End the connection.
    Detach,
    /// Nothing: such a message comes first or never.
    Ignore,
}

/// Decide what is done with a message of an attached client.
pub fn client_action(msg: ClientMsg) -> (res: ClientAction)
    ensures
        match msg {
            ClientMsg::Input(input) => res == ClientAction::Write(input),
            ClientMsg::Resize { cols, rows } => res == (ClientAction::Resize {
                cols: grid::at_least_one(cols as int) as u16,
                rows: grid::at_least_one(rows as int) as u16,
            }),
            ClientMsg::RefreshScreen => res is Refresh,
            ClientMsg::Detach => res is Detach,
            _ => res is Ignore,
        },
{
    match msg {
        ClientMsg::Input(input) => ClientAction::Write(input),
        ClientMsg::Resize { cols, rows } => {
            let (cols, rows) = sanitize_dimensions(cols, rows);
            ClientAction::Resize { cols, rows }
        },
        ClientMsg::RefreshScreen => ClientAction::Refresh,
        ClientMsg::Detach => ClientAction::Detach,
        _ => ClientAction::Ignore,
    }
}

// Sizes and texts

/// Byte strings are sent one after the other.
pub proof fn law_flattened(parts: Seq<Seq<u8>>, part: Seq<u8>)
    ensures
        flattened(seq![]) == Seq::<u8>::empty(),
        flattened(parts.push(part)) == flattened(parts) + part,
{
    assert(parts.push(part).drop_last() =~= parts);
}

/// Lines are counted with sixteen bytes more each, and a message of several holds eight
/// megabytes of them at most.
pub proof fn law_message_sizes(lines: Seq<Seq<u8>>, line: Seq<u8>)
    ensures
        lines_size(seq![]) == 0,
        lines_size(lines.push(line)) == lines_size(lines) + line.len() + 16,
        chunk_limit() == 8_388_608,
{
    assert(lines.push(line).drop_last() =~= lines);
}

proof fn lemma_packed_full(lines: Seq<Seq<u8>>)
    ensures
        ({
            let (full, current) = packed(lines);
            &&& forall|i: int|
                0 <= i < full.len() - 1 ==> overflows(#[trigger] full[i], full[i + 1])
            &&& full.len() > 0 ==> current.len() > 0 && overflows(full.last(), current)
        }),
    decreases lines.len(),
{
    if lines.len() > 0 {
        lemma_packed_full(lines.drop_last());
        lemma_packed_size(lines.drop_last());
        let (full, current) = packed(lines.drop_last());
        let (more, now) = packed(lines);
        if more.len() == full.len() {
            if full.len() > 0 {
                assert(now[0] == current[0]);
            }
        } else {
            assert forall|i: int| 0 <= i < more.len() - 1 implies overflows(
                #[trigger] more[i],
                more[i + 1],
            ) by {
                assert(more[i] == full[i]);
                if i + 1 < full.len() {
                    assert(more[i + 1] == full[i + 1]);
                } else {
                    assert(more[i + 1] == current);
                    assert(full.last() == full[i]);
                }
            }
        }
    }
}

/// Whether the first line of the next message would not have fitted into this one.
pub open spec fn overflows(chunk: Seq<Seq<u8>>, next: Seq<Seq<u8>>) -> bool {
    lines_size(chunk) + next[0].len() + 16 > 8_388_608
}

/// Messages of a history are no smaller than they must be: a line goes to the next one
/// only where it does not fit.
pub proof fn law_history_messages_are_full(lines: Seq<Seq<u8>>, i: int)
    requires
        0 <= i < history_messages(lines).len() - 1,
    ensures
        overflows(history_messages(lines)[i], history_messages(lines)[i + 1]),
{
    lemma_packed_full(lines);
    let (full, current) = packed(lines);
    if current.len() > 0 {
        assert(history_messages(lines)[i] == full[i]);
        if i + 1 < full.len() {
            assert(history_messages(lines)[i + 1] == full[i + 1]);
        } else {
            assert(full.last() == full[i]);
        }
    } else {
        assert(full.len() == 0 || current.len() > 0);
    }
}

/// A client that attaches gets the history of a main screen, line by line, and none of an
/// alternate one; and then, behind a history, as many line feeds at the bottom as scroll it
/// off, and the full frame.
pub proof fn law_attach_in_parts(s: ScreenView, last: render::CacheView, i: int)
    requires
        s.wf(),
        0 <= i < s.scrollback.len(),
    ensures
        s.in_alt_screen ==> attach_history(s).len() == 0,
        !s.in_alt_screen ==> attach_history(s).len() == s.scrollback.len() && attach_history(s)[i]
            == render::line_bytes(s.scrollback[i]),
        s.in_alt_screen ==> attach_bytes(s, last) == render::frame_bytes(
            s.grid,
            s.title,
            true,
            last,
        ),
        !s.in_alt_screen ==> attach_bytes(s, last) == "\x1b[".spec_bytes() + bytes::decimal(
            s.grid.rows as nat,
        ) + ";1H".spec_bytes() + Seq::new((s.grid.rows - 1) as nat, |i: int| 0x0au8)
            + render::frame_bytes(s.grid, s.title, true, last),
{
    let frame = render::frame_bytes(s.grid, s.title, true, last);
    assert(Seq::<u8>::empty() + frame =~= frame);
    assert(flush_bytes(s.grid.rows) =~= "\x1b[".spec_bytes() + bytes::decimal(s.grid.rows as nat)
        + ";1H".spec_bytes() + Seq::new((s.grid.rows - 1) as nat, |i: int| 0x0au8));
}

/// An update is what passes through, in order, then lines that scrolled off, if there are
/// any, and a frame: a full one behind lines, only what changed without them.
pub proof fn law_update_in_parts(s: ScreenView, last: render::CacheView)
    ensures
        s.pending_scrollback.len() == 0 ==> update_bytes(s, last) == flattened(s.passthrough)
            + render::frame_bytes(s.grid, s.title, false, last),
        s.pending_scrollback.len() > 0 ==> update_bytes(s, last) == flattened(s.passthrough) + (
        render::scrollback_bytes(
            s.pending_scrollback.map_values(|row: Seq<CellView>| render::line_bytes(row)),
            s.grid.rows,
        ) + render::frame_bytes(s.grid, s.title, true, last)),
{
}

/// The relay, event by event: output starts the timer, and an update is sent when that runs
/// out; the end of the reader is the end; a redraw is sent at once; and a client that was
/// evicted is told so, which is the end too. Only output makes an update due, and only the
/// timer settles it.
pub proof fn law_relay(pending: bool)
    ensures
        relay_answer(pending, RelayEvent::Notified { reader_alive: true })
            == RelayAction::StartTimer,
        relay_answer(pending, RelayEvent::Notified { reader_alive: false })
            == RelayAction::SendUpdateAndEnd,
        relay_answer(true, RelayEvent::TimerElapsed) == RelayAction::SendUpdate,
        relay_answer(false, RelayEvent::TimerElapsed) == RelayAction::Wait,
        relay_answer(pending, RelayEvent::RefreshRequested) == RelayAction::SendFull,
        relay_answer(pending, RelayEvent::Evicted) == RelayAction::SendEvicted,
        relay_pending(pending, RelayEvent::Notified { reader_alive: true }),
        !relay_pending(pending, RelayEvent::TimerElapsed),
        relay_pending(pending, RelayEvent::Notified { reader_alive: false }) == pending,
        relay_pending(pending, RelayEvent::RefreshRequested) == pending,
        relay_pending(pending, RelayEvent::Evicted) == pending,
{
}

} // verus!
