//! Frames read as control functions.
//!
//! A full frame is the text of a list of events.

use vstd::prelude::*;
use vstd::string::*;
use vstd::utf8::*;

use crate::bytes;

use super::cell::CellView;
use super::grid;
use super::grid::{ActiveCharset, Charset, GridView, TerminalModes};
use super::model;
use super::model::EventView;
use super::render;
use super::style;
use super::style::Style;

verus! {

// Events and their text

/// The byte of an ASCII character.
pub open spec fn ascii(c: char) -> Seq<u8> {
    encode_utf8(seq![c])
}

/// An event as it is sent.
pub open spec fn event_text(event: EventView) -> Seq<u8> {
    match event {
        EventView::Print(c) => encode_utf8(seq![c]),
        EventView::Execute(byte) => seq![byte],
        EventView::Csi { params, intermediates, action } => "\x1b[".spec_bytes() + (if intermediates
            == seq![0x3fu8] {
            "?".spec_bytes()
        } else {
            seq![]
        }) + style::groups_bytes(params, false) + (if intermediates == seq![0x20u8] {
            " ".spec_bytes()
        } else {
            seq![]
        }) + ascii(action),
        EventView::Esc { intermediates, byte } => seq![0x1bu8] + intermediates + seq![byte],
        EventView::Osc { fields } => model::osc_bytes(fields),
    }
}

/// Events as they are sent, one after the other.
#[verifier::opaque]
pub open spec fn events_text(events: Seq<EventView>) -> Seq<u8>
    decreases events.len(),
{
    if events.len() == 0 {
        seq![]
    } else {
        events_text(events.drop_last()) + event_text(events.last())
    }
}

pub(crate) proof fn lemma_text_append(a: Seq<EventView>, b: Seq<EventView>)
    ensures
        events_text(a + b) == events_text(a) + events_text(b),
    decreases b.len(),
{
    reveal(events_text);
    if b.len() == 0 {
        assert(a + b =~= a);
        assert(events_text(a) + events_text(b) =~= events_text(a));
    } else {
        lemma_text_append(a, b.drop_last());
        assert((a + b).drop_last() =~= a + b.drop_last());
        assert(events_text(a + b) =~= events_text(a) + events_text(b));
    }
}

pub(crate) proof fn lemma_text_one(e: EventView)
    ensures
        events_text(seq![e]) == event_text(e),
{
    reveal(events_text);
    assert(seq![e].drop_last() =~= seq![]);
    assert(events_text(seq![]) =~= seq![]);
    assert(events_text(seq![e]) =~= event_text(e));
}

pub(crate) proof fn lemma_text_none()
    ensures
        events_text(seq![]) == Seq::<u8>::empty(),
{
    reveal(events_text);
}

/// A control sequence with plain parameters.
pub open spec fn control(params: Seq<Seq<u16>>, action: char) -> EventView {
    EventView::Csi { params, intermediates: seq![], action }
}

/// A DEC private mode set or reset.
pub open spec fn dec_event(code: u16, on: bool) -> EventView {
    EventView::Csi {
        params: seq![seq![code]],
        intermediates: seq![0x3fu8],
        action: if on {
            'h'
        } else {
            'l'
        },
    }
}

/// The cursor moved to a column and a row, counted from zero.
pub open spec fn cursor_event(x: int, y: int) -> EventView {
    control(seq![seq![(y + 1) as u16], seq![(x + 1) as u16]], 'H')
}

/// A style set, whatever it was before.
pub open spec fn style_event(s: Style) -> EventView {
    control(seq![seq![0u16]] + style::style_groups(s), 'm')
}

pub(crate) proof fn lemma_groups_one(n: u16)
    ensures
        style::groups_bytes(seq![seq![n]], false) == bytes::decimal(n as nat),
        style::groups_bytes(seq![], false) == Seq::<u8>::empty(),
{
    reveal(style::groups_bytes);
    reveal_with_fuel(style::groups_bytes, 2);
    assert(seq![seq![n]].drop_last() =~= seq![]);
    assert(style::groups_bytes(seq![seq![n]], false) =~= bytes::decimal(n as nat));
}

proof fn lemma_groups_two(m: u16, n: u16)
    ensures
        style::groups_bytes(seq![seq![m], seq![n]], false) == bytes::decimal(m as nat)
            + ";".spec_bytes() + bytes::decimal(n as nat),
{
    reveal(style::groups_bytes);
    lemma_groups_one(m);
    assert(seq![seq![m], seq![n]].drop_last() =~= seq![seq![m]]);
}

pub(crate) proof fn lemma_dec_text(code: u16, on: bool)
    ensures
        event_text(dec_event(code, on)) == render::dec_mode(code, on),
{
    lemma_groups_one(code);
    reveal_strlit("\x1b[");
    reveal_strlit("?");
    reveal_strlit("\x1b[?");
    reveal_strlit("h");
    reveal_strlit("l");
    bytes::lemma_encode_append("\x1b["@, "?"@);
    assert("\x1b[?"@ =~= "\x1b["@ + "?"@);
    assert("h"@ =~= seq!['h']);
    assert("l"@ =~= seq!['l']);
    assert(seq![0x3fu8][0] != seq![0x20u8][0]);
    assert(event_text(dec_event(code, on)) =~= render::dec_mode(code, on));
}

pub(crate) proof fn lemma_cursor_text(x: int, y: int)
    requires
        0 <= x < u16::MAX,
        0 <= y < u16::MAX,
    ensures
        event_text(cursor_event(x, y)) == "\x1b[".spec_bytes() + bytes::decimal((y + 1) as nat)
            + ";".spec_bytes() + bytes::decimal((x + 1) as nat) + "H".spec_bytes(),
{
    lemma_groups_two((y + 1) as u16, (x + 1) as u16);
    reveal_strlit("H");
    assert("H"@ =~= seq!['H']);
    assert(event_text(cursor_event(x, y)) =~= "\x1b[".spec_bytes() + bytes::decimal((y + 1) as nat)
        + ";".spec_bytes() + bytes::decimal((x + 1) as nat) + "H".spec_bytes());
}

pub(crate) proof fn lemma_row_start_text(y: int)
    requires
        0 <= y < u16::MAX,
    ensures
        event_text(cursor_event(0, y)) == render::at_row(y, ";1H".spec_bytes()),
{
    lemma_cursor_text(0, y);
    reveal_strlit(";1H");
    reveal_strlit(";");
    reveal_strlit("H");
    reveal_with_fuel(bytes::decimal, 2);
    is_ascii_chars_encode_utf8(";1H"@);
    is_ascii_chars_encode_utf8(";"@);
    is_ascii_chars_encode_utf8("H"@);
    assert(";1H".spec_bytes() =~= seq![0x3bu8, 0x31, 0x48]);
    assert(";".spec_bytes() =~= seq![0x3bu8]);
    assert("H".spec_bytes() =~= seq![0x48u8]);
    assert(bytes::decimal(1) =~= seq![0x31u8]);
    assert(event_text(cursor_event(0, y)) =~= render::at_row(y, ";1H".spec_bytes()));
}

proof fn lemma_style_text(s: Style)
    ensures
        event_text(style_event(s)) == style::sgr_with_reset(s),
{
    style::lemma_groups_append(seq![seq![0u16]], style::style_groups(s), false);
    lemma_groups_one(0);
    reveal_strlit("\x1b[0");
    reveal_strlit("\x1b[");
    reveal_strlit("m");
    reveal_with_fuel(bytes::decimal, 2);
    is_ascii_chars_encode_utf8("\x1b[0"@);
    is_ascii_chars_encode_utf8("\x1b["@);
    assert("\x1b[0".spec_bytes() =~= seq![0x1bu8, 0x5b, 0x30]);
    assert("\x1b[".spec_bytes() =~= seq![0x1bu8, 0x5b]);
    assert(bytes::decimal(0) =~= seq![0x30u8]);
    assert("m"@ =~= seq!['m']);
    assert(event_text(style_event(s)) =~= style::sgr_with_reset(s));
}

/// A cell that is drawn: its character, and its combining marks.
pub open spec fn cell_events(c: CellView) -> Seq<EventView> {
    seq![EventView::Print(c.c)] + marks_events(c.combining)
}

/// Combining marks printed one after the other.
pub open spec fn marks_events(marks: Seq<char>) -> Seq<EventView>
    decreases marks.len(),
{
    if marks.len() == 0 {
        seq![]
    } else {
        marks_events(marks.drop_last()).push(EventView::Print(marks.last()))
    }
}

/// Cells drawn one after the other, and the style that is then in effect.
pub open spec fn cells_events(cells: Seq<CellView>) -> (Seq<EventView>, Style)
    decreases cells.len(),
{
    if cells.len() == 0 {
        (seq![], style::plain())
    } else {
        let (events, current) = cells_events(cells.drop_last());
        let c = cells.last();
        if c.width == 0 {
            (events, current)
        } else if c.style != current {
            (events + seq![style_event(c.style)] + cell_events(c), c.style)
        } else {
            (events + cell_events(c), current)
        }
    }
}

/// A printed character is an event.
pub(crate) proof fn lemma_print(c: char) -> (event: EventView)
    ensures
        event == EventView::Print(c),
{
    EventView::Print(c)
}

proof fn lemma_marks_text(marks: Seq<char>)
    ensures
        events_text(marks_events(marks)) == encode_utf8(marks),
    decreases marks.len(),
{
    reveal(events_text);
    if marks.len() > 0 {
        let before = marks.drop_last();
        let last = lemma_print(marks.last());
        lemma_marks_text(before);
        assert(marks_events(marks).drop_last() =~= marks_events(before));
        bytes::lemma_encode_append(before, seq![marks.last()]);
        assert(before + seq![marks.last()] =~= marks);
    }
}

proof fn lemma_cell_text(c: CellView)
    ensures
        events_text(cell_events(c)) == render::cell_text(c),
{
    lemma_text_append(seq![EventView::Print(c.c)], marks_events(c.combining));
    lemma_text_one(EventView::Print(c.c));
    lemma_marks_text(c.combining);
}

pub(crate) proof fn lemma_cells_text(cells: Seq<CellView>)
    ensures
        events_text(cells_events(cells).0) == render::cells_bytes(cells).0,
        cells_events(cells).1 == render::cells_bytes(cells).1,
    decreases cells.len(),
{
    if cells.len() == 0 {
        lemma_text_none();
    } else {
        lemma_cells_text(cells.drop_last());
        let (events, current) = cells_events(cells.drop_last());
        let c = cells.last();
        lemma_cell_text(c);
        lemma_text_append(events, cell_events(c));
        lemma_text_append(events, seq![style_event(c.style)]);
        lemma_text_append(events + seq![style_event(c.style)], cell_events(c));
        lemma_text_one(style_event(c.style));
        lemma_style_text(c.style);
    }
}

/// The rest of a row erased, in the reset style.
pub open spec fn row_end_events() -> Seq<EventView> {
    seq![control(seq![seq![0u16]], 'm'), control(seq![], 'K')]
}

/// A row drawn on screen.
pub open spec fn row_events(y: int, row: Seq<CellView>) -> Seq<EventView> {
    seq![cursor_event(0, y)] + cells_events(render::written(row)).0 + row_end_events()
}

pub(crate) proof fn lemma_two_texts(a: EventView, b: EventView)
    ensures
        events_text(seq![a, b]) == event_text(a) + event_text(b),
{
    lemma_text_append(seq![a], seq![b]);
    lemma_text_one(a);
    lemma_text_one(b);
    assert(seq![a] + seq![b] =~= seq![a, b]);
}

proof fn lemma_row_end_text()
    ensures
        events_text(row_end_events()) == "\x1b[0m\x1b[K".spec_bytes(),
{
    let (a, b) = (control(seq![seq![0u16]], 'm'), control(seq![], 'K'));
    lemma_two_texts(a, b);
    lemma_groups_one(0);
    reveal_strlit("\x1b[0m\x1b[K");
    reveal_strlit("\x1b[");
    reveal_with_fuel(bytes::decimal, 2);
    is_ascii_chars_encode_utf8("\x1b[0m\x1b[K"@);
    is_ascii_chars_encode_utf8("\x1b["@);
    is_ascii_chars_encode_utf8(seq!['m']);
    is_ascii_chars_encode_utf8(seq!['K']);
    assert("\x1b[0m\x1b[K".spec_bytes() =~= seq![0x1bu8, 0x5b, 0x30, 0x6d, 0x1b, 0x5b, 0x4b]);
    assert("\x1b[".spec_bytes() =~= seq![0x1bu8, 0x5b]);
    assert(bytes::decimal(0) =~= seq![0x30u8]);
    assert(ascii('m') =~= seq![0x6du8]);
    assert(ascii('K') =~= seq![0x4bu8]);
    assert(event_text(a) =~= seq![0x1bu8, 0x5b, 0x30, 0x6d]);
    assert(event_text(b) =~= seq![0x1bu8, 0x5b, 0x4b]);
    assert(events_text(row_end_events()) =~= "\x1b[0m\x1b[K".spec_bytes());
}

pub(crate) proof fn lemma_row_text(y: int, row: Seq<CellView>)
    requires
        0 <= y < u16::MAX,
    ensures
        events_text(row_events(y, row)) == render::row_bytes(y, row),
{
    let cells = cells_events(render::written(row)).0;
    lemma_text_append(seq![cursor_event(0, y)], cells);
    lemma_text_append(seq![cursor_event(0, y)] + cells, row_end_events());
    lemma_text_one(cursor_event(0, y));
    lemma_row_start_text(y);
    lemma_cells_text(render::written(row));
    lemma_row_end_text();
    assert(events_text(row_events(y, row)) =~= render::row_bytes(y, row));
}

/// The first `n` rows drawn.
pub open spec fn rows_events(cells: Seq<Seq<CellView>>, n: int) -> Seq<EventView>
    decreases n,
{
    if n <= 0 {
        seq![]
    } else {
        rows_events(cells, n - 1) + row_events(n - 1, cells[n - 1])
    }
}

proof fn lemma_rows_text(cells: Seq<Seq<CellView>>, n: int)
    requires
        n <= u16::MAX,
    ensures
        events_text(rows_events(cells, n)) == render::rows_bytes(
            cells,
            render::nothing_sent().rows,
            n,
        ),
    decreases n,
{
    if n <= 0 {
        lemma_text_none();
    } else {
        lemma_rows_text(cells, n - 1);
        lemma_text_append(rows_events(cells, n - 1), row_events(n - 1, cells[n - 1]));
        lemma_row_text(n - 1, cells[n - 1]);
    }
}

/// The start of a full frame.
pub open spec fn start_events() -> Seq<EventView> {
    seq![dec_event(2026, true), dec_event(25, false)] + seq![
        control(seq![seq![0u16]], 'm'),
        control(seq![seq![2u16]], 'J'),
    ] + seq![control(seq![], 'H')]
}

pub(crate) proof fn lemma_dec_literals()
    ensures
        render::dec_mode(2026, true) == "\x1b[?2026h".spec_bytes(),
        render::dec_mode(2026, false) == "\x1b[?2026l".spec_bytes(),
        render::dec_mode(25, true) == "\x1b[?25h".spec_bytes(),
        render::dec_mode(25, false) == "\x1b[?25l".spec_bytes(),
{
    reveal_strlit("\x1b[?2026h");
    reveal_strlit("\x1b[?2026l");
    reveal_strlit("\x1b[?25h");
    reveal_strlit("\x1b[?25l");
    reveal_strlit("\x1b[?");
    reveal_strlit("h");
    reveal_strlit("l");
    reveal_with_fuel(bytes::decimal, 5);
    is_ascii_chars_encode_utf8("\x1b[?2026h"@);
    is_ascii_chars_encode_utf8("\x1b[?2026l"@);
    is_ascii_chars_encode_utf8("\x1b[?25h"@);
    is_ascii_chars_encode_utf8("\x1b[?25l"@);
    is_ascii_chars_encode_utf8("\x1b[?"@);
    is_ascii_chars_encode_utf8("h"@);
    is_ascii_chars_encode_utf8("l"@);
    assert("\x1b[?2026h".spec_bytes() =~= seq![0x1bu8, 0x5b, 0x3f, 0x32, 0x30, 0x32, 0x36, 0x68]);
    assert("\x1b[?2026l".spec_bytes() =~= seq![0x1bu8, 0x5b, 0x3f, 0x32, 0x30, 0x32, 0x36, 0x6c]);
    assert("\x1b[?25h".spec_bytes() =~= seq![0x1bu8, 0x5b, 0x3f, 0x32, 0x35, 0x68]);
    assert("\x1b[?25l".spec_bytes() =~= seq![0x1bu8, 0x5b, 0x3f, 0x32, 0x35, 0x6c]);
    assert("\x1b[?".spec_bytes() =~= seq![0x1bu8, 0x5b, 0x3f]);
    assert("h".spec_bytes() =~= seq![0x68u8]);
    assert("l".spec_bytes() =~= seq![0x6cu8]);
    assert(bytes::decimal(2026) =~= seq![0x32u8, 0x30, 0x32, 0x36]);
    assert(bytes::decimal(25) =~= seq![0x32u8, 0x35]);
    assert(render::dec_mode(2026, true) =~= "\x1b[?2026h".spec_bytes());
    assert(render::dec_mode(2026, false) =~= "\x1b[?2026l".spec_bytes());
    assert(render::dec_mode(25, true) =~= "\x1b[?25h".spec_bytes());
    assert(render::dec_mode(25, false) =~= "\x1b[?25l".spec_bytes());
}

proof fn lemma_clear_text()
    ensures
        event_text(control(seq![seq![0u16]], 'm')) + event_text(control(seq![seq![2u16]], 'J'))
            + event_text(control(seq![], 'H')) == "\x1b[0m\x1b[2J\x1b[H".spec_bytes(),
{
    let (a, b) = (control(seq![seq![0u16]], 'm'), control(seq![seq![2u16]], 'J'));
    let c = control(seq![], 'H');
    lemma_groups_one(0);
    lemma_groups_one(2);
    reveal_strlit("\x1b[0m\x1b[2J\x1b[H");
    reveal_strlit("\x1b[");
    reveal_with_fuel(bytes::decimal, 2);
    is_ascii_chars_encode_utf8("\x1b[0m\x1b[2J\x1b[H"@);
    is_ascii_chars_encode_utf8("\x1b["@);
    is_ascii_chars_encode_utf8(seq!['m']);
    is_ascii_chars_encode_utf8(seq!['J']);
    is_ascii_chars_encode_utf8(seq!['H']);
    assert("\x1b[".spec_bytes() =~= seq![0x1bu8, 0x5b]);
    assert(bytes::decimal(0) =~= seq![0x30u8]);
    assert(bytes::decimal(2) =~= seq![0x32u8]);
    assert(ascii('m') =~= seq![0x6du8]);
    assert(ascii('J') =~= seq![0x4au8]);
    assert(ascii('H') =~= seq![0x48u8]);
    assert(event_text(a) =~= seq![0x1bu8, 0x5b, 0x30, 0x6d]);
    assert(event_text(b) =~= seq![0x1bu8, 0x5b, 0x32, 0x4a]);
    assert(event_text(c) =~= seq![0x1bu8, 0x5b, 0x48]);
    assert("\x1b[0m\x1b[2J\x1b[H".spec_bytes() =~= seq![
        0x1bu8,
        0x5b,
        0x30,
        0x6d,
        0x1b,
        0x5b,
        0x32,
        0x4a,
        0x1b,
        0x5b,
        0x48,
    ]);
}

proof fn lemma_start_text()
    ensures
        events_text(start_events()) == render::frame_start(true),
{
    let (a, b) = (dec_event(2026, true), dec_event(25, false));
    let (c, d) = (control(seq![seq![0u16]], 'm'), control(seq![seq![2u16]], 'J'));
    let e = control(seq![], 'H');
    lemma_two_texts(a, b);
    lemma_two_texts(c, d);
    lemma_text_one(e);
    lemma_text_append(seq![a, b], seq![c, d]);
    lemma_text_append(seq![a, b] + seq![c, d], seq![e]);
    lemma_dec_text(2026, true);
    lemma_dec_text(25, false);
    lemma_dec_literals();
    lemma_clear_text();
    assert(events_text(start_events()) =~= render::frame_start(true));
}

/// The end of a frame.
pub open spec fn end_events(cursor_visible: bool) -> Seq<EventView> {
    if cursor_visible {
        seq![dec_event(25, true), dec_event(2026, false)]
    } else {
        seq![dec_event(2026, false)]
    }
}

pub(crate) proof fn lemma_end_text(cursor_visible: bool)
    ensures
        events_text(end_events(cursor_visible)) == render::frame_end(cursor_visible),
{
    lemma_two_texts(dec_event(25, true), dec_event(2026, false));
    lemma_text_one(dec_event(2026, false));
    lemma_dec_text(25, true);
    lemma_dec_text(2026, false);
    lemma_dec_literals();
    assert(events_text(end_events(cursor_visible)) =~= render::frame_end(cursor_visible));
}

/// The cursor shape.
pub open spec fn shape_event(shape: grid::CursorShape) -> EventView {
    EventView::Csi {
        params: seq![seq![grid::shape_code(shape) as u16]],
        intermediates: seq![0x20u8],
        action: 'q',
    }
}

/// The mouse encoding.
pub open spec fn encoding_events(encoding: u16) -> Seq<EventView> {
    if encoding == 1006 {
        seq![dec_event(1005, false), dec_event(1006, true)]
    } else if encoding == 1005 {
        seq![dec_event(1006, false), dec_event(1005, true)]
    } else {
        seq![dec_event(1006, false), dec_event(1005, false)]
    }
}

/// The keypad mode.
pub open spec fn keypad_event(application: bool) -> EventView {
    EventView::Esc {
        intermediates: seq![],
        byte: if application {
            0x3d
        } else {
            0x3e
        },
    }
}

/// The designation of a character set.
pub open spec fn charset_event(slot: u8, charset: Charset) -> EventView {
    EventView::Esc {
        intermediates: seq![slot],
        byte: match charset {
            Charset::Ascii => 0x42,
            Charset::LineDrawing => 0x30,
        },
    }
}

/// The shift to the active character set slot.
pub open spec fn shift_event(active: ActiveCharset) -> EventView {
    EventView::Execute(
        match active {
            ActiveCharset::G0 => 0x0F,
            ActiveCharset::G1 => 0x0E,
        },
    )
}

/// The cursor shape and the modes of keyboard and screen.
pub open spec fn keyboard_events(m: TerminalModes) -> Seq<EventView> {
    seq![shape_event(m.cursor_shape), dec_event(1, m.cursor_key_mode)] + seq![
        dec_event(7, m.autowrap_mode),
        dec_event(2004, m.bracketed_paste),
    ]
}

/// The modes of mouse and focus.
pub open spec fn mouse_events(m: TerminalModes) -> Seq<EventView> {
    seq![dec_event(1000, m.mouse_mode == 1000), dec_event(1002, m.mouse_mode == 1002)] + seq![
        dec_event(1003, m.mouse_mode == 1003),
    ] + encoding_events(m.mouse_encoding) + seq![dec_event(1004, m.focus_reporting)]
}

/// The keypad and the character sets.
pub open spec fn charsets_events(m: TerminalModes) -> Seq<EventView> {
    seq![keypad_event(m.keypad_app_mode), charset_event(0x28, m.g0_charset)] + seq![
        charset_event(0x29, m.g1_charset),
        shift_event(m.active_charset),
    ]
}

/// All modes.
pub open spec fn modes_events(m: TerminalModes) -> Seq<EventView> {
    keyboard_events(m) + mouse_events(m) + charsets_events(m)
}

pub(crate) proof fn lemma_shape_text(shape: grid::CursorShape)
    ensures
        event_text(shape_event(shape)) == render::shape_bytes(shape),
{
    lemma_groups_one(grid::shape_code(shape) as u16);
    reveal_strlit(" q");
    reveal_strlit(" ");
    bytes::lemma_encode_append(" "@, seq!['q']);
    assert(" q"@ =~= " "@ + seq!['q']);
    assert(seq![0x3fu8][0] != seq![0x20u8][0]);
    assert(event_text(shape_event(shape)) =~= render::shape_bytes(shape));
}

proof fn lemma_keyboard_text(m: TerminalModes)
    ensures
        events_text(keyboard_events(m)) == render::keyboard_bytes(m, None),
{
    let (a, b) = (shape_event(m.cursor_shape), dec_event(1, m.cursor_key_mode));
    let (c, d) = (dec_event(7, m.autowrap_mode), dec_event(2004, m.bracketed_paste));
    lemma_two_texts(a, b);
    lemma_two_texts(c, d);
    lemma_text_append(seq![a, b], seq![c, d]);
    lemma_shape_text(m.cursor_shape);
    lemma_dec_text(1, m.cursor_key_mode);
    lemma_dec_text(7, m.autowrap_mode);
    lemma_dec_text(2004, m.bracketed_paste);
    assert(events_text(keyboard_events(m)) =~= render::keyboard_bytes(m, None));
}

proof fn lemma_mouse_literals()
    ensures
        render::dec_mode(1005, false) + render::dec_mode(1006, true)
            == "\x1b[?1005l\x1b[?1006h".spec_bytes(),
        render::dec_mode(1006, false) + render::dec_mode(1005, true)
            == "\x1b[?1006l\x1b[?1005h".spec_bytes(),
        render::dec_mode(1006, false) + render::dec_mode(1005, false)
            == "\x1b[?1006l\x1b[?1005l".spec_bytes(),
{
    reveal_strlit("\x1b[?1005l\x1b[?1006h");
    reveal_strlit("\x1b[?1006l\x1b[?1005h");
    reveal_strlit("\x1b[?1006l\x1b[?1005l");
    reveal_strlit("\x1b[?");
    reveal_strlit("h");
    reveal_strlit("l");
    reveal_with_fuel(bytes::decimal, 5);
    is_ascii_chars_encode_utf8("\x1b[?1005l\x1b[?1006h"@);
    is_ascii_chars_encode_utf8("\x1b[?1006l\x1b[?1005h"@);
    is_ascii_chars_encode_utf8("\x1b[?1006l\x1b[?1005l"@);
    is_ascii_chars_encode_utf8("\x1b[?"@);
    is_ascii_chars_encode_utf8("h"@);
    is_ascii_chars_encode_utf8("l"@);
    let (l, h) = (0x6cu8, 0x68u8);
    let five = seq![0x1bu8, 0x5b, 0x3f, 0x31, 0x30, 0x30, 0x35];
    let six = seq![0x1bu8, 0x5b, 0x3f, 0x31, 0x30, 0x30, 0x36];
    assert("\x1b[?".spec_bytes() =~= seq![0x1bu8, 0x5b, 0x3f]);
    assert("h".spec_bytes() =~= seq![h]);
    assert("l".spec_bytes() =~= seq![l]);
    assert(bytes::decimal(1005) =~= seq![0x31u8, 0x30, 0x30, 0x35]);
    assert(bytes::decimal(1006) =~= seq![0x31u8, 0x30, 0x30, 0x36]);
    assert(render::dec_mode(1005, false) =~= five.push(l));
    assert(render::dec_mode(1005, true) =~= five.push(h));
    assert(render::dec_mode(1006, false) =~= six.push(l));
    assert(render::dec_mode(1006, true) =~= six.push(h));
    assert("\x1b[?1005l\x1b[?1006h".spec_bytes() =~= five.push(l) + six.push(h));
    assert("\x1b[?1006l\x1b[?1005h".spec_bytes() =~= six.push(l) + five.push(h));
    assert("\x1b[?1006l\x1b[?1005l".spec_bytes() =~= six.push(l) + five.push(l));
}

pub(crate) proof fn lemma_encoding_text(encoding: u16)
    ensures
        events_text(encoding_events(encoding)) == render::encoding_bytes(encoding),
{
    lemma_two_texts(dec_event(1005, false), dec_event(1006, true));
    lemma_two_texts(dec_event(1006, false), dec_event(1005, true));
    lemma_two_texts(dec_event(1006, false), dec_event(1005, false));
    lemma_dec_text(1005, false);
    lemma_dec_text(1005, true);
    lemma_dec_text(1006, false);
    lemma_dec_text(1006, true);
    lemma_mouse_literals();
}

proof fn lemma_mouse_text(m: TerminalModes)
    ensures
        events_text(mouse_events(m)) == render::mouse_bytes(m, None),
{
    let a = dec_event(1000, m.mouse_mode == 1000);
    let b = dec_event(1002, m.mouse_mode == 1002);
    let c = dec_event(1003, m.mouse_mode == 1003);
    let d = encoding_events(m.mouse_encoding);
    let e = dec_event(1004, m.focus_reporting);
    lemma_two_texts(a, b);
    lemma_text_one(c);
    lemma_text_one(e);
    lemma_encoding_text(m.mouse_encoding);
    lemma_text_append(seq![a, b], seq![c]);
    lemma_text_append(seq![a, b] + seq![c], d);
    lemma_text_append(seq![a, b] + seq![c] + d, seq![e]);
    lemma_dec_text(1000, m.mouse_mode == 1000);
    lemma_dec_text(1002, m.mouse_mode == 1002);
    lemma_dec_text(1003, m.mouse_mode == 1003);
    lemma_dec_text(1004, m.focus_reporting);
    assert(events_text(mouse_events(m)) =~= render::mouse_bytes(m, None));
}

pub(crate) proof fn lemma_charset_texts(m: TerminalModes)
    ensures
        event_text(keypad_event(m.keypad_app_mode)) == render::keypad_bytes(m.keypad_app_mode),
        event_text(charset_event(0x28, m.g0_charset)) == render::charset_bytes(0x28, m.g0_charset),
        event_text(charset_event(0x29, m.g1_charset)) == render::charset_bytes(0x29, m.g1_charset),
        event_text(shift_event(m.active_charset)) == render::shift_bytes(m.active_charset),
{
    reveal_strlit("\x1b=");
    reveal_strlit("\x1b>");
    is_ascii_chars_encode_utf8("\x1b="@);
    is_ascii_chars_encode_utf8("\x1b>"@);
    assert("\x1b=".spec_bytes() =~= seq![0x1bu8, 0x3d]);
    assert("\x1b>".spec_bytes() =~= seq![0x1bu8, 0x3e]);
    assert(event_text(keypad_event(m.keypad_app_mode)) =~= render::keypad_bytes(
        m.keypad_app_mode,
    ));
    assert(event_text(charset_event(0x28, m.g0_charset)) =~= render::charset_bytes(
        0x28,
        m.g0_charset,
    ));
    assert(event_text(charset_event(0x29, m.g1_charset)) =~= render::charset_bytes(
        0x29,
        m.g1_charset,
    ));
    assert(event_text(shift_event(m.active_charset)) =~= render::shift_bytes(m.active_charset));
}

proof fn lemma_charsets_text(m: TerminalModes)
    ensures
        events_text(charsets_events(m)) == render::charsets_bytes(m, None),
{
    let (a, b) = (keypad_event(m.keypad_app_mode), charset_event(0x28, m.g0_charset));
    let (c, d) = (charset_event(0x29, m.g1_charset), shift_event(m.active_charset));
    lemma_two_texts(a, b);
    lemma_two_texts(c, d);
    lemma_text_append(seq![a, b], seq![c, d]);
    lemma_charset_texts(m);
    assert(events_text(charsets_events(m)) =~= render::charsets_bytes(m, None));
}

proof fn lemma_modes_text(m: TerminalModes)
    ensures
        events_text(modes_events(m)) == render::modes_bytes(m, None),
{
    lemma_keyboard_text(m);
    lemma_mouse_text(m);
    lemma_charsets_text(m);
    lemma_text_append(keyboard_events(m), mouse_events(m));
    lemma_text_append(keyboard_events(m) + mouse_events(m), charsets_events(m));
}

/// The scroll region.
pub open spec fn region_event(g: GridView) -> EventView {
    control(seq![seq![(g.scroll_top + 1) as u16], seq![(g.scroll_bottom + 1) as u16]], 'r')
}

/// The window title.
pub open spec fn title_event(title: Seq<char>) -> EventView {
    EventView::Osc { fields: seq![seq![0x32u8], render::printable(encode_utf8(title))] }
}

/// What a full frame says besides its rows.
pub open spec fn state_events(g: GridView, title: Seq<char>) -> Seq<EventView> {
    seq![region_event(g), cursor_event(g.cursor_x, g.cursor_y)] + modes_events(g.modes) + (
    if title.len() > 0 {
        seq![title_event(title)]
    } else {
        seq![]
    })
}

pub(crate) proof fn lemma_title_text(title: Seq<char>)
    ensures
        event_text(title_event(title)) == render::title_bytes(title),
{
    let fields = seq![seq![0x32u8], render::printable(encode_utf8(title))];
    assert(fields.drop_last() =~= seq![seq![0x32u8]]);
    reveal_with_fuel(model::joined, 2);
    reveal_strlit("\x1b]2;");
    reveal_strlit("\x1b]");
    reveal_strlit(";");
    is_ascii_chars_encode_utf8("\x1b]2;"@);
    is_ascii_chars_encode_utf8("\x1b]"@);
    is_ascii_chars_encode_utf8(";"@);
    assert("\x1b]2;".spec_bytes() =~= seq![0x1bu8, 0x5d, 0x32, 0x3b]);
    assert("\x1b]".spec_bytes() =~= seq![0x1bu8, 0x5d]);
    assert(";".spec_bytes() =~= seq![0x3bu8]);
    assert(event_text(title_event(title)) =~= render::title_bytes(title));
}

pub(crate) proof fn lemma_region_text(g: GridView)
    requires
        g.wf(),
    ensures
        event_text(region_event(g)) == render::region_bytes(g),
{
    lemma_groups_two((g.scroll_top + 1) as u16, (g.scroll_bottom + 1) as u16);
    reveal_strlit("r");
    assert("r"@ =~= seq!['r']);
    assert(event_text(region_event(g)) =~= render::region_bytes(g));
}

proof fn lemma_state_text(g: GridView, title: Seq<char>)
    requires
        g.wf(),
    ensures
        events_text(state_events(g, title)) == render::frame_state(
            g,
            title,
            render::nothing_sent(),
        ),
{
    let (a, b) = (region_event(g), cursor_event(g.cursor_x, g.cursor_y));
    let m = modes_events(g.modes);
    lemma_two_texts(a, b);
    lemma_region_text(g);
    lemma_cursor_text(g.cursor_x, g.cursor_y);
    lemma_modes_text(g.modes);
    lemma_text_append(seq![a, b], m);
    lemma_text_one(title_event(title));
    lemma_title_text(title);
    lemma_text_append(seq![a, b] + m, seq![title_event(title)]);
    lemma_text_none();
    lemma_text_append(seq![a, b] + m, seq![]);
    if title.len() == 0 {
        assert(title =~= seq![]);
    }
    assert(events_text(state_events(g, title)) =~= render::frame_state(
        g,
        title,
        render::nothing_sent(),
    ));
}

/// A full frame, read as events.
pub open spec fn frame_events(g: GridView, title: Seq<char>) -> Seq<EventView> {
    start_events() + rows_events(g.cells, g.rows) + state_events(g, title) + end_events(
        g.cursor_visible,
    )
}

/// A full frame is the text of its events.
pub proof fn law_frame_is_text_of_events(g: GridView, title: Seq<char>, last: render::CacheView)
    requires
        g.wf(),
    ensures
        render::frame_bytes(g, title, true, last) == events_text(frame_events(g, title)),
{
    let (a, b) = (start_events(), rows_events(g.cells, g.rows));
    let (c, d) = (state_events(g, title), end_events(g.cursor_visible));
    lemma_text_append(a, b);
    lemma_text_append(a + b, c);
    lemma_text_append(a + b + c, d);
    lemma_start_text();
    lemma_rows_text(g.cells, g.rows);
    lemma_state_text(g, title);
    lemma_end_text(g.cursor_visible);
}

} // verus!
