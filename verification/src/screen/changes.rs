//! What a frame that holds only changes does to the terminal that receives it.

use vstd::prelude::*;
use vstd::utf8::*;

use super::cell::CellView;
use super::grid::{Charset, GridView, TerminalModes};
use super::law_events_in_parts;
use super::laws::mouse_known;
use super::model;
use super::model::{EventView, ScreenView};
use super::render;
use super::replay;
use super::restore;
use super::style;

verus! {

/// Events that are sent only where `needed` holds.
pub open spec fn when(needed: bool, events: Seq<EventView>) -> Seq<EventView> {
    if needed {
        events
    } else {
        seq![]
    }
}

/// The first `n` rows drawn, but for those that did not change since `before`.
pub open spec fn changed_rows(
    before: Seq<Seq<CellView>>,
    cells: Seq<Seq<CellView>>,
    n: int,
) -> Seq<EventView>
    decreases n,
{
    if n <= 0 {
        seq![]
    } else {
        changed_rows(before, cells, n - 1) + when(
            cells[n - 1] != before[n - 1],
            replay::row_events(n - 1, cells[n - 1]),
        )
    }
}

/// The cursor shape and the modes of keyboard and screen that changed.
pub open spec fn changed_keyboard(p: TerminalModes, m: TerminalModes) -> Seq<EventView> {
    when(m.cursor_shape != p.cursor_shape, seq![replay::shape_event(m.cursor_shape)]) + when(
        m.cursor_key_mode != p.cursor_key_mode,
        seq![replay::dec_event(1, m.cursor_key_mode)],
    ) + when(m.autowrap_mode != p.autowrap_mode, seq![replay::dec_event(7, m.autowrap_mode)])
        + when(
        m.bracketed_paste != p.bracketed_paste,
        seq![replay::dec_event(2004, m.bracketed_paste)],
    )
}

/// One way of mouse tracking, if it was turned on or off.
pub open spec fn changed_tracking(p: TerminalModes, m: TerminalModes, code: u16) -> Seq<EventView> {
    when(
        (m.mouse_mode == code) != (p.mouse_mode == code),
        seq![replay::dec_event(code, m.mouse_mode == code)],
    )
}

/// The modes of mouse and focus that changed.
pub open spec fn changed_mouse(p: TerminalModes, m: TerminalModes) -> Seq<EventView> {
    changed_tracking(p, m, 1000) + changed_tracking(p, m, 1002) + changed_tracking(p, m, 1003)
        + when(
        m.mouse_encoding != p.mouse_encoding,
        replay::encoding_events(m.mouse_encoding),
    ) + when(
        m.focus_reporting != p.focus_reporting,
        seq![replay::dec_event(1004, m.focus_reporting)],
    )
}

/// The keypad and the character sets that changed.
pub open spec fn changed_charsets(p: TerminalModes, m: TerminalModes) -> Seq<EventView> {
    when(
        m.keypad_app_mode != p.keypad_app_mode,
        seq![replay::keypad_event(m.keypad_app_mode)],
    ) + when(m.g0_charset != p.g0_charset, seq![replay::charset_event(0x28, m.g0_charset)]) + when(
        m.g1_charset != p.g1_charset,
        seq![replay::charset_event(0x29, m.g1_charset)],
    ) + when(m.active_charset != p.active_charset, seq![replay::shift_event(m.active_charset)])
}

/// The modes that changed.
pub open spec fn changed_modes(p: TerminalModes, m: TerminalModes) -> Seq<EventView> {
    changed_keyboard(p, m) + changed_mouse(p, m) + changed_charsets(p, m)
}

/// Whether two grids have the same scroll region.
pub open spec fn same_region(before: GridView, g: GridView) -> bool {
    before.scroll_top == g.scroll_top && before.scroll_bottom == g.scroll_bottom
}

/// What changed besides the rows.
pub open spec fn changed_state(
    before: GridView,
    before_title: Seq<char>,
    g: GridView,
    title: Seq<char>,
) -> Seq<EventView> {
    when(!same_region(before, g), seq![replay::region_event(g)]) + seq![
        replay::cursor_event(g.cursor_x, g.cursor_y),
    ] + changed_modes(before.modes, g.modes) + when(
        title != before_title,
        seq![replay::title_event(title)],
    )
}

/// A frame for `g` over a frame for `before`, read as events.
pub open spec fn change_events(
    before: GridView,
    before_title: Seq<char>,
    g: GridView,
    title: Seq<char>,
) -> Seq<EventView> {
    seq![replay::dec_event(2026, true), replay::dec_event(25, false)] + changed_rows(
        before.cells,
        g.cells,
        g.rows,
    ) + changed_state(before, before_title, g, title) + replay::end_events(g.cursor_visible)
}

// Text

proof fn lemma_when_text(needed: bool, e: EventView)
    ensures
        replay::events_text(when(needed, seq![e])) == render::sent_if(
            needed,
            replay::event_text(e),
        ),
{
    replay::lemma_text_one(e);
    replay::lemma_text_none();
}

proof fn lemma_changed_rows_text(
    before: GridView,
    title: Seq<char>,
    cells: Seq<Seq<CellView>>,
    n: int,
)
    requires
        before.wf(),
        cells.len() == before.rows,
        n <= cells.len(),
    ensures
        replay::events_text(changed_rows(before.cells, cells, n)) == render::rows_bytes(
            cells,
            render::sent(before, title).rows,
            n,
        ),
    decreases n,
{
    if n <= 0 {
        replay::lemma_text_none();
    } else {
        lemma_changed_rows_text(before, title, cells, n - 1);
        let drawn = render::sent(before, title).rows;
        let row = replay::row_events(n - 1, cells[n - 1]);
        let changed = cells[n - 1] != before.cells[n - 1];
        assert(drawn[n - 1] == Some(before.cells[n - 1]));
        assert(render::row_is_current(cells, drawn, n - 1) == !changed);
        replay::lemma_text_append(changed_rows(before.cells, cells, n - 1), when(changed, row));
        replay::lemma_row_text(n - 1, cells[n - 1]);
        replay::lemma_text_none();
    }
}

proof fn lemma_changed_keyboard_text(p: TerminalModes, m: TerminalModes)
    ensures
        replay::events_text(changed_keyboard(p, m)) == render::keyboard_bytes(m, Some(p)),
{
    let (ea, eb) = (
        replay::shape_event(m.cursor_shape),
        replay::dec_event(1, m.cursor_key_mode),
    );
    let (ec, ed) = (
        replay::dec_event(7, m.autowrap_mode),
        replay::dec_event(2004, m.bracketed_paste),
    );
    let a = when(m.cursor_shape != p.cursor_shape, seq![ea]);
    let b = when(m.cursor_key_mode != p.cursor_key_mode, seq![eb]);
    let c = when(m.autowrap_mode != p.autowrap_mode, seq![ec]);
    let d = when(m.bracketed_paste != p.bracketed_paste, seq![ed]);
    replay::lemma_text_append(a + b + c, d);
    replay::lemma_text_append(a + b, c);
    replay::lemma_text_append(a, b);
    lemma_when_text(m.cursor_shape != p.cursor_shape, ea);
    lemma_when_text(m.cursor_key_mode != p.cursor_key_mode, eb);
    lemma_when_text(m.autowrap_mode != p.autowrap_mode, ec);
    lemma_when_text(m.bracketed_paste != p.bracketed_paste, ed);
    replay::lemma_shape_text(m.cursor_shape);
    replay::lemma_dec_text(1, m.cursor_key_mode);
    replay::lemma_dec_text(7, m.autowrap_mode);
    replay::lemma_dec_text(2004, m.bracketed_paste);
}

proof fn lemma_changed_tracking_text(p: TerminalModes, m: TerminalModes, code: u16)
    ensures
        replay::events_text(changed_tracking(p, m, code)) == render::tracking_bytes(
            m,
            Some(p),
            code,
        ),
{
    lemma_when_text(
        (m.mouse_mode == code) != (p.mouse_mode == code),
        replay::dec_event(code, m.mouse_mode == code),
    );
    replay::lemma_dec_text(code, m.mouse_mode == code);
}

proof fn lemma_changed_mouse_text(p: TerminalModes, m: TerminalModes)
    ensures
        replay::events_text(changed_mouse(p, m)) == render::mouse_bytes(m, Some(p)),
{
    let a = changed_tracking(p, m, 1000);
    let b = changed_tracking(p, m, 1002);
    let c = changed_tracking(p, m, 1003);
    let ed = replay::encoding_events(m.mouse_encoding);
    let d = when(m.mouse_encoding != p.mouse_encoding, ed);
    let ee = replay::dec_event(1004, m.focus_reporting);
    let e = when(m.focus_reporting != p.focus_reporting, seq![ee]);
    replay::lemma_text_append(a + b + c + d, e);
    replay::lemma_text_append(a + b + c, d);
    replay::lemma_text_append(a + b, c);
    replay::lemma_text_append(a, b);
    lemma_changed_tracking_text(p, m, 1000);
    lemma_changed_tracking_text(p, m, 1002);
    lemma_changed_tracking_text(p, m, 1003);
    replay::lemma_encoding_text(m.mouse_encoding);
    replay::lemma_text_none();
    lemma_when_text(m.focus_reporting != p.focus_reporting, ee);
    replay::lemma_dec_text(1004, m.focus_reporting);
}

proof fn lemma_changed_charsets_text(p: TerminalModes, m: TerminalModes)
    ensures
        replay::events_text(changed_charsets(p, m)) == render::charsets_bytes(m, Some(p)),
{
    let (ea, eb) = (
        replay::keypad_event(m.keypad_app_mode),
        replay::charset_event(0x28, m.g0_charset),
    );
    let (ec, ed) = (
        replay::charset_event(0x29, m.g1_charset),
        replay::shift_event(m.active_charset),
    );
    let a = when(m.keypad_app_mode != p.keypad_app_mode, seq![ea]);
    let b = when(m.g0_charset != p.g0_charset, seq![eb]);
    let c = when(m.g1_charset != p.g1_charset, seq![ec]);
    let d = when(m.active_charset != p.active_charset, seq![ed]);
    replay::lemma_text_append(a + b + c, d);
    replay::lemma_text_append(a + b, c);
    replay::lemma_text_append(a, b);
    lemma_when_text(m.keypad_app_mode != p.keypad_app_mode, ea);
    lemma_when_text(m.g0_charset != p.g0_charset, eb);
    lemma_when_text(m.g1_charset != p.g1_charset, ec);
    lemma_when_text(m.active_charset != p.active_charset, ed);
    replay::lemma_charset_texts(m);
}

proof fn lemma_changed_state_text(
    before: GridView,
    before_title: Seq<char>,
    g: GridView,
    title: Seq<char>,
)
    requires
        before.wf(),
        g.wf(),
    ensures
        replay::events_text(changed_state(before, before_title, g, title)) == render::frame_state(
            g,
            title,
            render::sent(before, before_title),
        ),
{
    let last = render::sent(before, before_title);
    let c = when(!same_region(before, g), seq![replay::region_event(g)]);
    let place = replay::cursor_event(g.cursor_x, g.cursor_y);
    let e = changed_modes(before.modes, g.modes);
    let f = when(title != before_title, seq![replay::title_event(title)]);
    replay::lemma_text_append(c + seq![place] + e, f);
    replay::lemma_text_append(c + seq![place], e);
    replay::lemma_text_append(c, seq![place]);
    lemma_when_text(!same_region(before, g), replay::region_event(g));
    replay::lemma_region_text(g);
    replay::lemma_text_one(place);
    replay::lemma_cursor_text(g.cursor_x, g.cursor_y);
    lemma_changed_modes_text(before.modes, g.modes);
    lemma_when_text(title != before_title, replay::title_event(title));
    replay::lemma_title_text(title);
    assert((last.scroll_region != Some((g.scroll_top as u16, g.scroll_bottom as u16)))
        == !same_region(before, g));
}

/// A frame that holds only changes is the text of its events.
pub proof fn law_changes_are_text_of_events(
    before: GridView,
    before_title: Seq<char>,
    g: GridView,
    title: Seq<char>,
)
    requires
        before.wf(),
        g.wf(),
        before.cols == g.cols,
        before.rows == g.rows,
    ensures
        render::frame_bytes(g, title, false, render::sent(before, before_title))
            == replay::events_text(change_events(before, before_title, g, title)),
{
    let a = seq![replay::dec_event(2026, true), replay::dec_event(25, false)];
    let b = changed_rows(before.cells, g.cells, g.rows);
    let c = changed_state(before, before_title, g, title);
    let d = replay::end_events(g.cursor_visible);
    replay::lemma_text_append(a + b + c, d);
    replay::lemma_text_append(a + b, c);
    replay::lemma_text_append(a, b);
    lemma_start_text(a);
    lemma_changed_rows_text(before, before_title, g.cells, g.rows);
    lemma_changed_state_text(before, before_title, g, title);
    replay::lemma_end_text(g.cursor_visible);
}

proof fn lemma_start_text(events: Seq<EventView>)
    requires
        events == seq![replay::dec_event(2026, true), replay::dec_event(25, false)],
    ensures
        replay::events_text(events) == render::frame_start(false),
{
    replay::lemma_two_texts(replay::dec_event(2026, true), replay::dec_event(25, false));
    replay::lemma_dec_text(2026, true);
    replay::lemma_dec_text(25, false);
    replay::lemma_dec_literals();
    assert(replay::events_text(events) =~= render::frame_start(false));
}

proof fn lemma_changed_modes_text(p: TerminalModes, m: TerminalModes)
    ensures
        replay::events_text(changed_modes(p, m)) == render::modes_bytes(m, Some(p)),
{
    lemma_changed_keyboard_text(p, m);
    lemma_changed_mouse_text(p, m);
    lemma_changed_charsets_text(p, m);
    replay::lemma_text_append(changed_keyboard(p, m) + changed_mouse(p, m), changed_charsets(p, m));
    replay::lemma_text_append(changed_keyboard(p, m), changed_mouse(p, m));
}

// Effect

/// What a row that was drawn leaves is in pairs.
proof fn lemma_drawn_paired(row: Seq<CellView>)
    requires
        restore::printed_row(row),
        row.len() > 0,
    ensures
        restore::paired_from(restore::drawn(row), 0),
        restore::drawn(row).len() == row.len(),
{
    let w = render::written_len(row) as int;
    let n = restore::behind(row, w);
    let line = restore::drawn(row);
    restore::lemma_written_len(row);
    if w > 0 {
        assert(restore::printed_cell(row, w - 1));
    }
    assert forall|x: int| 0 <= x < line.len() implies #[trigger] restore::paired_at(
        line,
        0,
        x,
    ) by {
        if x < w {
            assert(restore::printed_cell(row, x));
        }
        if 0 < x <= w {
            assert(restore::printed_cell(row, x - 1));
        }
        if x + 1 < w {
            assert(restore::printed_cell(row, x + 1));
        }
    }
}

proof fn lemma_changed_rows(
    s: ScreenView,
    before: Seq<Seq<CellView>>,
    cells: Seq<Seq<CellView>>,
    n: int,
)
    requires
        s.grid.wf(),
        cells.len() == s.grid.rows,
        before.len() == s.grid.rows,
        s.grid.modes.autowrap_mode,
        model::active_set(s.grid.modes) == Charset::Ascii,
        forall|y: int|
            0 <= y < cells.len() ==> (#[trigger] cells[y]).len() == s.grid.cols
                && restore::printed_row(cells[y]),
        forall|y: int|
            0 <= y < before.len() ==> (#[trigger] before[y]).len() == s.grid.cols
                && restore::printed_row(before[y]),
        s.grid.cells == restore::drawn_rows(before),
        s.style == style::plain(),
        0 <= n <= cells.len(),
    ensures
        ({
            let t = s.performed_all(changed_rows(before, cells, n));
            &&& restore::only_drawn(s, t)
            &&& t.grid.cells == restore::drawn_rows(cells).take(n) + s.grid.cells.skip(n)
            &&& t.style == style::plain()
            &&& t.grid.wf()
        }),
    decreases n,
{
    if n <= 0 {
        assert(restore::drawn_rows(cells).take(n) + s.grid.cells.skip(n) =~= s.grid.cells);
    } else {
        lemma_changed_rows(s, before, cells, n - 1);
        let t = s.performed_all(changed_rows(before, cells, n - 1));
        let changed = cells[n - 1] != before[n - 1];
        let row = replay::row_events(n - 1, cells[n - 1]);
        law_events_in_parts(s, changed_rows(before, cells, n - 1), when(changed, row));
        assert(t.grid.cells[n - 1] == restore::drawn(before[n - 1]));
        if changed {
            lemma_drawn_paired(before[n - 1]);
            restore::lemma_row(t, n - 1, cells[n - 1]);
            assert(t.grid.cells.update(n - 1, restore::drawn(cells[n - 1]))
                =~= restore::drawn_rows(cells).take(n) + s.grid.cells.skip(n));
        } else {
            assert(t.grid.cells =~= restore::drawn_rows(cells).take(n) + s.grid.cells.skip(n));
        }
    }
}

proof fn lemma_when(s: ScreenView, needed: bool, e: EventView)
    ensures
        s.performed_all(when(needed, seq![e])) == (if needed {
            s.performed(e)
        } else {
            s
        }),
{
    restore::lemma_one(s, e);
}

proof fn lemma_when_flag(t: ScreenView, m: TerminalModes, needed: bool, code: u16, on: bool)
    requires
        code != 25,
        code != 47,
        code != 1047,
        code != 1048,
        code != 1049,
        !needed ==> model::flag_set(m, code, on) == m,
    ensures
        restore::set_modes(t, m).performed_all(when(needed, seq![replay::dec_event(code, on)]))
            == restore::set_modes(t, model::flag_set(m, code, on)),
{
    lemma_when(restore::set_modes(t, m), needed, replay::dec_event(code, on));
    restore::lemma_flag_step(t, m, code, on);
}

#[verifier::rlimit(50)]
proof fn lemma_changed_keyboard(
    t: ScreenView,
    m0: TerminalModes,
    p: TerminalModes,
    m: TerminalModes,
)
    requires
        m0.cursor_shape == p.cursor_shape,
        m0.cursor_key_mode == p.cursor_key_mode,
        m0.autowrap_mode == p.autowrap_mode,
        m0.bracketed_paste == p.bracketed_paste,
    ensures
        restore::set_modes(t, m0).performed_all(changed_keyboard(p, m)) == restore::set_modes(
            t,
            TerminalModes {
                cursor_shape: m.cursor_shape,
                cursor_key_mode: m.cursor_key_mode,
                autowrap_mode: m.autowrap_mode,
                bracketed_paste: m.bracketed_paste,
                ..m0
            },
        ),
{
    let s = restore::set_modes(t, m0);
    let shape = replay::shape_event(m.cursor_shape);
    let a = when(m.cursor_shape != p.cursor_shape, seq![shape]);
    let b = when(
        m.cursor_key_mode != p.cursor_key_mode,
        seq![replay::dec_event(1, m.cursor_key_mode)],
    );
    let c = when(
        m.autowrap_mode != p.autowrap_mode,
        seq![replay::dec_event(7, m.autowrap_mode)],
    );
    let d = when(
        m.bracketed_paste != p.bracketed_paste,
        seq![replay::dec_event(2004, m.bracketed_paste)],
    );
    law_events_in_parts(s, a + b + c, d);
    law_events_in_parts(s, a + b, c);
    law_events_in_parts(s, a, b);
    let m1 = TerminalModes { cursor_shape: m.cursor_shape, ..m0 };
    let m2 = model::flag_set(m1, 1, m.cursor_key_mode);
    let m3 = model::flag_set(m2, 7, m.autowrap_mode);
    lemma_when(s, m.cursor_shape != p.cursor_shape, shape);
    restore::lemma_shape_step(t, m0, m.cursor_shape);
    lemma_when_flag(t, m1, m.cursor_key_mode != p.cursor_key_mode, 1, m.cursor_key_mode);
    lemma_when_flag(t, m2, m.autowrap_mode != p.autowrap_mode, 7, m.autowrap_mode);
    lemma_when_flag(t, m3, m.bracketed_paste != p.bracketed_paste, 2004, m.bracketed_paste);
}

/// Whether turning off one way of mouse tracking and on another, in the order of
/// their numbers, ends with the one that is wanted.
pub open spec fn tracking_follows(p: TerminalModes, m: TerminalModes) -> bool {
    m.mouse_mode == p.mouse_mode || m.mouse_mode == 0 || p.mouse_mode < m.mouse_mode
}

/// The modes once one way of mouse tracking was turned on or off, if that changed.
#[verifier::opaque]
spec fn turned(m0: TerminalModes, p: TerminalModes, m: TerminalModes, code: u16) -> TerminalModes {
    if (m.mouse_mode == code) != (p.mouse_mode == code) {
        model::flag_set(m0, code, m.mouse_mode == code)
    } else {
        m0
    }
}

proof fn lemma_turned(m0: TerminalModes, p: TerminalModes, m: TerminalModes)
    requires
        m0.mouse_mode == p.mouse_mode,
        mouse_known(p),
        mouse_known(m),
        tracking_follows(p, m),
    ensures
        turned(turned(turned(m0, p, m, 1000), p, m, 1002), p, m, 1003) == (TerminalModes {
            mouse_mode: m.mouse_mode,
            ..m0
        }),
{
    reveal(turned);
}

proof fn lemma_one_tracking(
    t: ScreenView,
    m0: TerminalModes,
    p: TerminalModes,
    m: TerminalModes,
    code: u16,
)
    requires
        code == 1000 || code == 1002 || code == 1003,
    ensures
        restore::set_modes(t, m0).performed_all(changed_tracking(p, m, code))
            == restore::set_modes(t, turned(m0, p, m, code)),
{
    reveal(turned);
    let on = m.mouse_mode == code;
    let needed = on != (p.mouse_mode == code);
    lemma_when(restore::set_modes(t, m0), needed, replay::dec_event(code, on));
    restore::lemma_flag_step(t, m0, code, on);
}

proof fn lemma_changed_tracking(
    t: ScreenView,
    m0: TerminalModes,
    p: TerminalModes,
    m: TerminalModes,
)
    requires
        m0.mouse_mode == p.mouse_mode,
        mouse_known(p),
        mouse_known(m),
        tracking_follows(p, m),
    ensures
        restore::set_modes(t, m0).performed_all(
            changed_tracking(p, m, 1000) + changed_tracking(p, m, 1002) + changed_tracking(
                p,
                m,
                1003,
            ),
        ) == restore::set_modes(t, TerminalModes { mouse_mode: m.mouse_mode, ..m0 }),
{
    let s = restore::set_modes(t, m0);
    let a = changed_tracking(p, m, 1000);
    let b = changed_tracking(p, m, 1002);
    law_events_in_parts(s, a + b, changed_tracking(p, m, 1003));
    law_events_in_parts(s, a, b);
    let m1 = turned(m0, p, m, 1000);
    lemma_one_tracking(t, m0, p, m, 1000);
    lemma_one_tracking(t, m1, p, m, 1002);
    lemma_one_tracking(t, turned(m1, p, m, 1002), p, m, 1003);
    lemma_turned(m0, p, m);
}

proof fn lemma_changed_mouse(
    t: ScreenView,
    m0: TerminalModes,
    p: TerminalModes,
    m: TerminalModes,
)
    requires
        m0.mouse_mode == p.mouse_mode,
        m0.mouse_encoding == p.mouse_encoding,
        m0.focus_reporting == p.focus_reporting,
        mouse_known(p),
        mouse_known(m),
        tracking_follows(p, m),
    ensures
        restore::set_modes(t, m0).performed_all(changed_mouse(p, m)) == restore::set_modes(
            t,
            TerminalModes {
                mouse_mode: m.mouse_mode,
                mouse_encoding: m.mouse_encoding,
                focus_reporting: m.focus_reporting,
                ..m0
            },
        ),
{
    let s = restore::set_modes(t, m0);
    let a = changed_tracking(p, m, 1000) + changed_tracking(p, m, 1002) + changed_tracking(
        p,
        m,
        1003,
    );
    let recoded = m.mouse_encoding != p.mouse_encoding;
    let b = when(recoded, replay::encoding_events(m.mouse_encoding));
    let c = when(
        m.focus_reporting != p.focus_reporting,
        seq![replay::dec_event(1004, m.focus_reporting)],
    );
    law_events_in_parts(s, a + b, c);
    law_events_in_parts(s, a, b);
    let m1 = TerminalModes { mouse_mode: m.mouse_mode, ..m0 };
    let m2 = TerminalModes { mouse_encoding: m.mouse_encoding, ..m1 };
    lemma_changed_tracking(t, m0, p, m);
    restore::lemma_encoding(t, m1, m.mouse_encoding);
    lemma_when_flag(t, m2, m.focus_reporting != p.focus_reporting, 1004, m.focus_reporting);
}

proof fn lemma_changed_charsets(
    t: ScreenView,
    m0: TerminalModes,
    p: TerminalModes,
    m: TerminalModes,
)
    requires
        m0.keypad_app_mode == p.keypad_app_mode,
        m0.g0_charset == p.g0_charset,
        m0.g1_charset == p.g1_charset,
        m0.active_charset == p.active_charset,
    ensures
        restore::set_modes(t, m0).performed_all(changed_charsets(p, m)) == restore::set_modes(
            t,
            TerminalModes {
                keypad_app_mode: m.keypad_app_mode,
                g0_charset: m.g0_charset,
                g1_charset: m.g1_charset,
                active_charset: m.active_charset,
                ..m0
            },
        ),
{
    let s = restore::set_modes(t, m0);
    let ea = replay::keypad_event(m.keypad_app_mode);
    let eb = replay::charset_event(0x28, m.g0_charset);
    let ec = replay::charset_event(0x29, m.g1_charset);
    let ed = replay::shift_event(m.active_charset);
    let a = when(m.keypad_app_mode != p.keypad_app_mode, seq![ea]);
    let b = when(m.g0_charset != p.g0_charset, seq![eb]);
    let c = when(m.g1_charset != p.g1_charset, seq![ec]);
    let d = when(m.active_charset != p.active_charset, seq![ed]);
    law_events_in_parts(s, a + b + c, d);
    law_events_in_parts(s, a + b, c);
    law_events_in_parts(s, a, b);
    let m1 = TerminalModes { keypad_app_mode: m.keypad_app_mode, ..m0 };
    let m2 = TerminalModes { g0_charset: m.g0_charset, ..m1 };
    let m3 = TerminalModes { g1_charset: m.g1_charset, ..m2 };
    lemma_when(s, m.keypad_app_mode != p.keypad_app_mode, ea);
    restore::lemma_keypad_step(t, m0, m.keypad_app_mode);
    lemma_when(restore::set_modes(t, m1), m.g0_charset != p.g0_charset, eb);
    restore::lemma_charset_step(t, m1, m.g0_charset);
    lemma_when(restore::set_modes(t, m2), m.g1_charset != p.g1_charset, ec);
    restore::lemma_charset_step(t, m2, m.g1_charset);
    lemma_when(restore::set_modes(t, m3), m.active_charset != p.active_charset, ed);
    restore::lemma_shift_step(t, m3, m.active_charset);
}

proof fn lemma_changed_modes(t: ScreenView, m: TerminalModes)
    requires
        mouse_known(t.grid.modes),
        mouse_known(m),
        tracking_follows(t.grid.modes, m),
    ensures
        t.performed_all(changed_modes(t.grid.modes, m)) == restore::set_modes(t, m),
{
    let p = t.grid.modes;
    let (a, b) = (changed_keyboard(p, m), changed_mouse(p, m));
    law_events_in_parts(t, a + b, changed_charsets(p, m));
    law_events_in_parts(t, a, b);
    let m1 = TerminalModes {
        cursor_shape: m.cursor_shape,
        cursor_key_mode: m.cursor_key_mode,
        autowrap_mode: m.autowrap_mode,
        bracketed_paste: m.bracketed_paste,
        ..p
    };
    let m2 = TerminalModes {
        mouse_mode: m.mouse_mode,
        mouse_encoding: m.mouse_encoding,
        focus_reporting: m.focus_reporting,
        ..m1
    };
    restore::lemma_set_modes(t, p, p);
    lemma_changed_keyboard(t, p, p, m);
    lemma_changed_mouse(t, m1, p, m);
    lemma_changed_charsets(t, m2, p, m);
}

/// Whether a terminal shows what a frame for `g` with `title` said.
pub open spec fn is_shown(outer: ScreenView, g: GridView, title: Seq<char>) -> bool {
    &&& outer.wf()
    &&& outer.grid == GridView {
        cells: restore::drawn_rows(g.cells),
        wrap_pending: outer.grid.wrap_pending,
        ..g
    }
    &&& outer.style == style::plain()
    &&& outer.title == title
}

/// Whether the rows of a grid are what printing them leaves.
pub open spec fn printed_grid(g: GridView) -> bool {
    forall|y: int| 0 <= y < g.rows ==> restore::printed_row(#[trigger] g.cells[y])
}

proof fn lemma_hidden(s: ScreenView)
    ensures
        s.performed_all(seq![replay::dec_event(2026, true), replay::dec_event(25, false)])
            == s.with_grid(GridView { cursor_visible: false, ..s.grid }),
{
    restore::lemma_two(s, replay::dec_event(2026, true), replay::dec_event(25, false));
    restore::lemma_mode(s, 2026, true);
    restore::lemma_mode(s, 25, false);
}

proof fn lemma_ended(b: ScreenView, visible: bool)
    requires
        !b.grid.cursor_visible,
    ensures
        b.performed_all(replay::end_events(visible)) == b.with_grid(
            GridView { cursor_visible: visible, ..b.grid },
        ),
{
    let (on, off) = (replay::dec_event(25, true), replay::dec_event(2026, false));
    restore::lemma_two(b, on, off);
    restore::lemma_one(b, off);
    restore::lemma_mode(b, 25, true);
    restore::lemma_mode(b, 2026, false);
    restore::lemma_mode(b.performed(on), 2026, false);
}

proof fn lemma_placed(t: ScreenView, before: GridView, g: GridView)
    requires
        t.grid.wf(),
        g.wf(),
        t.grid.cols == g.cols,
        t.grid.rows == g.rows,
        t.grid.scroll_top == before.scroll_top,
        t.grid.scroll_bottom == before.scroll_bottom,
        g.scroll_top < g.scroll_bottom || same_region(before, g),
    ensures
        t.performed_all(
            when(!same_region(before, g), seq![replay::region_event(g)]) + seq![
                replay::cursor_event(g.cursor_x, g.cursor_y),
            ],
        ) == t.with_grid(
            GridView {
                cursor_x: g.cursor_x,
                cursor_y: g.cursor_y,
                wrap_pending: false,
                scroll_top: g.scroll_top,
                scroll_bottom: g.scroll_bottom,
                ..t.grid
            },
        ),
{
    let region = replay::region_event(g);
    let place = replay::cursor_event(g.cursor_x, g.cursor_y);
    let moved = !same_region(before, g);
    law_events_in_parts(t, when(moved, seq![region]), seq![place]);
    lemma_when(t, moved, region);
    restore::lemma_region(t, g);
    let u = t.performed_all(when(moved, seq![region]));
    restore::lemma_one(u, place);
    restore::lemma_moved(u, g.cursor_x, g.cursor_y);
}

/// The rows that changed, drawn with the cursor hidden.
proof fn lemma_rows_part(outer: ScreenView, before: GridView, title: Seq<char>, g: GridView)
    requires
        before.wf(),
        g.wf(),
        before.cols == g.cols,
        before.rows == g.rows,
        printed_grid(before),
        printed_grid(g),
        is_shown(outer, before, title),
        before.modes.autowrap_mode,
        model::active_set(before.modes) == Charset::Ascii,
    ensures
        ({
            let t = outer.performed_all(
                seq![replay::dec_event(2026, true), replay::dec_event(25, false)] + changed_rows(
                    before.cells,
                    g.cells,
                    g.rows,
                ),
            );
            let hidden = outer.with_grid(GridView { cursor_visible: false, ..outer.grid });
            &&& restore::only_drawn(hidden, t)
            &&& t.grid.cells == restore::drawn_rows(g.cells)
            &&& t.style == style::plain()
            &&& t.grid.wf()
        }),
{
    let start = seq![replay::dec_event(2026, true), replay::dec_event(25, false)];
    let rows = changed_rows(before.cells, g.cells, g.rows);
    law_events_in_parts(outer, start, rows);
    lemma_hidden(outer);
    let s = outer.performed_all(start);
    lemma_changed_rows(s, before.cells, g.cells, g.rows);
    assert(restore::drawn_rows(g.cells).take(g.rows) + s.grid.cells.skip(g.rows)
        =~= restore::drawn_rows(g.cells));
}

/// What changed besides the rows.
proof fn lemma_state_part(
    t: ScreenView,
    before: GridView,
    before_title: Seq<char>,
    g: GridView,
    title: Seq<char>,
)
    requires
        t.grid.wf(),
        g.wf(),
        t.grid.cols == g.cols,
        t.grid.rows == g.rows,
        t.grid.scroll_top == before.scroll_top,
        t.grid.scroll_bottom == before.scroll_bottom,
        t.grid.modes == before.modes,
        t.title == before_title,
        mouse_known(before.modes),
        mouse_known(g.modes),
        tracking_follows(before.modes, g.modes),
        g.scroll_top < g.scroll_bottom || same_region(before, g),
        title == before_title || render::printable(encode_utf8(title)) == encode_utf8(title),
    ensures
        t.performed_all(changed_state(before, before_title, g, title)) == (ScreenView {
            grid: GridView {
                cells: t.grid.cells,
                wrap_pending: false,
                cursor_visible: t.grid.cursor_visible,
                ..g
            },
            title,
            ..t
        }),
{
    let placed = when(!same_region(before, g), seq![replay::region_event(g)]) + seq![
        replay::cursor_event(g.cursor_x, g.cursor_y),
    ];
    let modes = changed_modes(before.modes, g.modes);
    let named = when(title != before_title, seq![replay::title_event(title)]);
    law_events_in_parts(t, placed + modes, named);
    law_events_in_parts(t, placed, modes);
    lemma_placed(t, before, g);
    let u = t.performed_all(placed);
    lemma_changed_modes(u, g.modes);
    let v = u.performed_all(modes);
    assert(v == u.with_modes(g.modes)) by {
        reveal(restore::set_modes);
    }
    lemma_when(v, title != before_title, replay::title_event(title));
    restore::lemma_title(v, title);
}

/// Changes keep up: a terminal that shows the last frame shows the next one after the
/// changes between the two, whatever they are, and nothing else of it changes.
pub proof fn law_changes_keep_up(
    outer: ScreenView,
    before: GridView,
    before_title: Seq<char>,
    g: GridView,
    title: Seq<char>,
)
    requires
        before.wf(),
        g.wf(),
        before.cols == g.cols,
        before.rows == g.rows,
        printed_grid(before),
        printed_grid(g),
        is_shown(outer, before, before_title),
        before.modes.autowrap_mode,
        model::active_set(before.modes) == Charset::Ascii,
        mouse_known(before.modes),
        mouse_known(g.modes),
        tracking_follows(before.modes, g.modes),
        g.scroll_top < g.scroll_bottom || same_region(before, g),
        title == before_title || render::printable(encode_utf8(title)) == encode_utf8(title),
    ensures
        ({
            let t = outer.performed_all(change_events(before, before_title, g, title));
            &&& is_shown(t, g, title)
            &&& !t.grid.wrap_pending
            &&& t.scrollback == outer.scrollback
            &&& t.passthrough == outer.passthrough
            &&& t.responses == outer.responses
        }),
{
    let start = seq![replay::dec_event(2026, true), replay::dec_event(25, false)];
    let rows = changed_rows(before.cells, g.cells, g.rows);
    let state = changed_state(before, before_title, g, title);
    let end = replay::end_events(g.cursor_visible);
    law_events_in_parts(outer, start + rows + state, end);
    law_events_in_parts(outer, start + rows, state);
    lemma_rows_part(outer, before, before_title, g);
    let t = outer.performed_all(start + rows);
    lemma_state_part(t, before, before_title, g, title);
    let u = t.performed_all(state);
    lemma_ended(u, g.cursor_visible);
}

proof fn lemma_drawn_rows_len(g: GridView)
    requires
        g.wf(),
        printed_grid(g),
    ensures
        forall|y: int|
            0 <= y < g.rows ==> (#[trigger] restore::drawn_rows(g.cells)[y]).len() == g.cols,
{
    assert forall|y: int| 0 <= y < g.rows implies (#[trigger] restore::drawn_rows(
        g.cells,
    )[y]).len() == g.cols by {
        assert(restore::printed_row(g.cells[y]));
        lemma_drawn_paired(g.cells[y]);
    }
}

/// After a full frame a terminal shows it.
pub proof fn law_full_frame_is_shown(outer: ScreenView, g: GridView, title: Seq<char>)
    requires
        outer.wf(),
        g.wf(),
        outer.grid.cols == g.cols,
        outer.grid.rows == g.rows,
        outer.grid.modes.autowrap_mode,
        model::active_set(outer.grid.modes) == Charset::Ascii,
        printed_grid(g),
        g.scroll_top < g.scroll_bottom || same_region(outer.grid, g),
        g.modes.mouse_mode == 0 || g.modes.mouse_mode == 1003,
        mouse_known(g.modes),
        render::printable(encode_utf8(title)) == encode_utf8(title),
        title.len() > 0 || outer.title == title,
    ensures
        is_shown(outer.performed_all(replay::frame_events(g, title)), g, title),
{
    restore::law_frame_restores_screen(outer, g, title);
    restore::law_modes_come_back(g.modes);
    lemma_drawn_rows_len(g);
}

} // verus!
