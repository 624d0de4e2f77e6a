//! What the outer terminal is sent, byte by byte.

use vstd::prelude::*;
use vstd::string::*;
use vstd::utf8::*;

use crate::bytes;

use super::cell::CellView;
use super::flow::empty;
use super::grid::{ActiveCharset, Charset, CursorShape, GridView, TerminalModes};
use super::model::EventView;
use super::render;
use super::render::CacheView;
use super::replay;
use super::style;
use super::style::{Color, Style, UnderlineStyle};

verus! {

// Titles

/// Of a text every byte is kept in its place but for control characters, which are left
/// out: what is below 0x20, and 0x7f.
pub proof fn law_printable_text(a: Seq<u8>, c: u8, b: Seq<u8>)
    ensures
        ({
            let kept = render::printable(a) + (if c < 0x20 || c == 0x7f {
                seq![]
            } else {
                seq![c]
            }) + render::printable(b);
            &&& render::printable(a + seq![c] + b) == kept
            &&& render::printable(seq![]) == Seq::<u8>::empty()
        }),
    decreases b.len(),
{
    let all = a + seq![c] + b;
    if b.len() > 0 {
        law_printable_text(a, c, b.drop_last());
        assert(all.drop_last() =~= a + seq![c] + b.drop_last());
        assert(all.last() == b.last());
    } else {
        assert(all.drop_last() =~= a);
        assert(all.last() == c);
    }
    let middle: Seq<u8> = if c < 0x20 || c == 0x7f {
        seq![]
    } else {
        seq![c]
    };
    assert(render::printable(all) =~= render::printable(a) + middle + render::printable(b));
}

/// A text without control characters is sent whole.
pub proof fn law_ordinary_text_is_whole(text: Seq<u8>)
    requires
        forall|i: int| 0 <= i < text.len() ==> 0x20 <= #[trigger] text[i] && text[i] != 0x7f,
    ensures
        render::printable(text) == text,
    decreases text.len(),
{
    if text.len() > 0 {
        let rest = text.drop_last();
        assert forall|i: int| 0 <= i < rest.len() implies 0x20 <= #[trigger] rest[i] && rest[i]
            != 0x7f by {
            assert(rest[i] == text[i]);
        }
        law_ordinary_text_is_whole(rest);
        assert(text[text.len() - 1] == text.last());
        assert(rest.push(text.last()) =~= text);
    } else {
        assert(text =~= seq![]);
    }
}

proof fn lemma_no_control_byte(v: u32)
    requires
        0x20 <= v,
        v != 0x7f,
    ensures
        forall|i: int|
            0 <= i < encode_scalar(v).len() ==> 0x20 <= #[trigger] encode_scalar(v)[i]
                && encode_scalar(v)[i] != 0x7f,
{
    assert(v <= 0x7f ==> (v & 0x7f) as u8 == v) by (bit_vector);
    assert(0xc0u8 | ((v >> 6) & 0x1f) as u8 >= 0x80u8) by (bit_vector);
    assert(0xe0u8 | ((v >> 12) & 0x0f) as u8 >= 0x80u8) by (bit_vector);
    assert(0xf0u8 | ((v >> 18) & 0x7) as u8 >= 0x80u8) by (bit_vector);
    assert(0x80u8 | (v & 0x3f) as u8 >= 0x80u8) by (bit_vector);
    assert(0x80u8 | ((v >> 6) & 0x3f) as u8 >= 0x80u8) by (bit_vector);
    assert(0x80u8 | ((v >> 12) & 0x3f) as u8 >= 0x80u8) by (bit_vector);
}

/// A title of characters that are no control characters, beyond ASCII too, is sent whole.
pub proof fn law_ordinary_title_is_whole(title: Seq<char>)
    requires
        forall|i: int|
            0 <= i < title.len() ==> 0x20 <= (#[trigger] title[i]) as u32 && title[i] as u32
                != 0x7f,
    ensures
        render::printable(encode_utf8(title)) == encode_utf8(title),
{
    lemma_title_bytes(title);
    law_ordinary_text_is_whole(encode_utf8(title));
}

proof fn lemma_title_bytes(title: Seq<char>)
    requires
        forall|i: int|
            0 <= i < title.len() ==> 0x20 <= (#[trigger] title[i]) as u32 && title[i] as u32
                != 0x7f,
    ensures
        forall|i: int|
            0 <= i < encode_utf8(title).len() ==> 0x20 <= #[trigger] encode_utf8(title)[i]
                && encode_utf8(title)[i] != 0x7f,
    decreases title.len(),
{
    if title.len() > 0 {
        let rest = title.drop_first();
        assert forall|i: int| 0 <= i < rest.len() implies 0x20 <= (#[trigger] rest[i]) as u32
            && rest[i] as u32 != 0x7f by {
            assert(rest[i] == title[i + 1]);
        }
        lemma_title_bytes(rest);
        assert(title[0] as u32 >= 0x20);
        lemma_no_control_byte(title[0] as u32);
        let first = encode_scalar(title[0] as u32);
        assert forall|i: int| 0 <= i < encode_utf8(title).len() implies 0x20
            <= #[trigger] encode_utf8(title)[i] && encode_utf8(title)[i] != 0x7f by {
            if i < first.len() {
                assert(encode_utf8(title)[i] == first[i]);
            } else {
                assert(encode_utf8(title)[i] == encode_utf8(rest)[i - first.len()]);
            }
        }
    }
}

/// Whether a text stands in another one.
pub open spec fn holds(all: Seq<u8>, part: Seq<u8>) -> bool {
    exists|i: int|
        0 <= i && i + part.len() <= all.len() && #[trigger] all.subrange(i, i + part.len()) == part
}

/// A full frame sets such a title, if it is not empty: ESC ] 2 ; title BEL stands in it.
pub proof fn law_frame_sets_title(g: GridView, title: Seq<char>, last: CacheView)
    requires
        title.len() > 0,
        forall|i: int|
            0 <= i < title.len() ==> 0x20 <= (#[trigger] title[i]) as u32 && title[i] as u32
                != 0x7f,
    ensures
        holds(
            render::frame_bytes(g, title, true, last),
            seq![0x1bu8, 0x5d, 0x32, 0x3b] + encode_utf8(title) + seq![7u8],
        ),
{
    law_ordinary_title_is_whole(title);
    reveal_strlit("\x1b]2;");
    is_ascii_chars_encode_utf8("\x1b]2;"@);
    assert("\x1b]2;".spec_bytes() =~= seq![0x1bu8, 0x5d, 0x32, 0x3b]);
    let known = render::nothing_sent();
    let a = render::frame_start(true) + render::rows_bytes(g.cells, known.rows, g.rows)
        + render::region_bytes(g) + render::cursor_bytes(g) + render::modes_bytes(g.modes, None);
    let b = render::frame_end(g.cursor_visible);
    let t = seq![0x1bu8, 0x5d, 0x32, 0x3b] + encode_utf8(title) + seq![7u8];
    assert(render::title_bytes(title) =~= t);
    assert(title != Seq::<char>::empty());
    let all = render::frame_bytes(g, title, true, last);
    assert(all =~= a + t + b);
    let at = a.len() as int;
    assert(all.subrange(at, at + t.len()) =~= t);
}

// Frames

/// What a frame is made of, in this order: output is held back, the cursor is hidden, and
/// a full frame clears the screen; then the rows; the scroll region, where it changed; the
/// cursor; the modes; the title, where it changed; and a visible cursor is shown again
/// before output goes on. A full frame takes nothing to be on the outer terminal.
pub proof fn law_frame_in_parts(g: GridView, title: Seq<char>, full: bool, last: CacheView)
    ensures
        ({
            let known = if full {
                CacheView { rows: seq![], modes: None, scroll_region: None, title: seq![] }
            } else {
                last
            };
            let region = Some((g.scroll_top as u16, g.scroll_bottom as u16));
            render::frame_bytes(g, title, full, last) == "\x1b[?2026h".spec_bytes()
                + "\x1b[?25l".spec_bytes() + (if full {
                "\x1b[0m\x1b[2J\x1b[H".spec_bytes()
            } else {
                seq![]
            }) + render::rows_bytes(g.cells, known.rows, g.rows) + (if known.scroll_region
                == region {
                seq![]
            } else {
                "\x1b[".spec_bytes() + bytes::decimal((g.scroll_top + 1) as nat) + ";".spec_bytes()
                    + bytes::decimal((g.scroll_bottom + 1) as nat) + "r".spec_bytes()
            }) + ("\x1b[".spec_bytes() + bytes::decimal((g.cursor_y + 1) as nat) + ";".spec_bytes()
                + bytes::decimal((g.cursor_x + 1) as nat) + "H".spec_bytes())
                + render::modes_bytes(g.modes, known.modes) + (if title == known.title {
                seq![]
            } else {
                "\x1b]2;".spec_bytes() + render::printable(encode_utf8(title)) + seq![7u8]
            }) + (if g.cursor_visible {
                "\x1b[?25h".spec_bytes()
            } else {
                seq![]
            }) + "\x1b[?2026l".spec_bytes()
        }),
{
    let known = if full {
        render::nothing_sent()
    } else {
        last
    };
    lemma_regrouped(
        "\x1b[?2026h".spec_bytes() + "\x1b[?25l".spec_bytes() + render::sent_if(
            full,
            "\x1b[0m\x1b[2J\x1b[H".spec_bytes(),
        ) + render::rows_bytes(g.cells, known.rows, g.rows),
        render::sent_if(
            known.scroll_region != Some((g.scroll_top as u16, g.scroll_bottom as u16)),
            render::region_bytes(g),
        ),
        render::cursor_bytes(g),
        render::modes_bytes(g.modes, known.modes),
        render::sent_if(title != known.title, render::title_bytes(title)),
        render::sent_if(g.cursor_visible, "\x1b[?25h".spec_bytes()),
        "\x1b[?2026l".spec_bytes(),
    );
}

proof fn lemma_regrouped(
    start: Seq<u8>,
    a: Seq<u8>,
    b: Seq<u8>,
    c: Seq<u8>,
    d: Seq<u8>,
    e: Seq<u8>,
    f: Seq<u8>,
)
    ensures
        start + (a + b + c + d) + (e + f) == start + a + b + c + d + e + f,
{
    assert(start + (a + b + c + d) + (e + f) =~= start + a + b + c + d + e + f);
}

/// The rows of a frame come in order from the top. A row that is on the outer terminal
/// already is left out. Any other is drawn at its place, cells up to the last one that
/// shows anything, and the rest of it erased.
pub proof fn law_rows_in_order(
    cells: Seq<Seq<CellView>>,
    drawn: Seq<Option<Seq<CellView>>>,
    y: int,
)
    requires
        0 <= y < cells.len(),
    ensures
        ({
            let before = render::rows_bytes(cells, drawn, y);
            let n = render::written_len(cells[y]) as int;
            let there = y < drawn.len() && drawn[y] == Some(cells[y]);
            &&& render::rows_bytes(cells, drawn, 0) == Seq::<u8>::empty()
            &&& there ==> render::rows_bytes(cells, drawn, y + 1) == before
            &&& !there ==> render::rows_bytes(cells, drawn, y + 1) == before + ("\x1b[".spec_bytes()
                + bytes::decimal((y + 1) as nat) + (";1H".spec_bytes() + render::cells_bytes(
                cells[y].take(n),
            ).0 + "\x1b[0m\x1b[K".spec_bytes()))
        }),
{
    assert(render::rows_bytes(cells, drawn, y) + Seq::<u8>::empty() =~= render::rows_bytes(
        cells,
        drawn,
        y,
    ));
}

/// Whether a cell looks empty: a space or nothing, without attributes.
pub open spec fn looks_empty(c: CellView) -> bool {
    (c.c == ' ' || c.c == '\0') && c.style == empty().style
}

/// A row is drawn up to the last cell that does not look empty.
pub proof fn law_row_is_drawn_to_its_end(row: Seq<CellView>)
    ensures
        ({
            let n = render::written_len(row) as int;
            &&& 0 <= n <= row.len()
            &&& n > 0 ==> !looks_empty(row[n - 1])
            &&& forall|x: int| n <= x < row.len() ==> looks_empty(#[trigger] row[x])
        }),
    decreases row.len(),
{
    if row.len() > 0 && !render::shows(row.last()) {
        let rest = row.drop_last();
        law_row_is_drawn_to_its_end(rest);
        let n = render::written_len(row) as int;
        assert(n > 0 ==> rest[n - 1] == row[n - 1]);
        assert forall|x: int| n <= x < row.len() implies looks_empty(#[trigger] row[x]) by {
            if x < rest.len() {
                assert(rest[x] == row[x]);
            }
        }
    }
}

/// Cells are drawn from left to right, each by its character and its marks. Where the
/// style changes it is sent in full before that; second halves of wide characters are
/// left out. What is drawn starts without attributes.
pub proof fn law_cells_in_order(cells: Seq<CellView>, c: CellView)
    ensures
        ({
            let (text, current) = render::cells_bytes(cells);
            let (all, now) = render::cells_bytes(cells.push(c));
            let own = encode_utf8(seq![c.c]) + encode_utf8(c.combining);
            &&& render::cells_bytes(seq![]) == (Seq::<u8>::empty(), empty().style)
            &&& c.width == 0 ==> all == text && now == current
            &&& c.width != 0 && c.style == current ==> all == text + own && now == current
            &&& c.width != 0 && c.style != current ==> all == text + style::sgr_with_reset(c.style)
                + own && now == c.style
        }),
{
    assert(cells.push(c).drop_last() =~= cells);
}

/// A row on its own is its cells up to the last one that does not look empty, and a reset
/// where the style is not the plain one then.
pub proof fn law_line_text(row: Seq<CellView>)
    ensures
        ({
            let (text, current) = render::cells_bytes(
                row.take(render::written_len(row) as int),
            );
            &&& current == empty().style ==> render::line_bytes(row) == text
            &&& current != empty().style ==> render::line_bytes(row) == text
                + "\x1b[0m".spec_bytes()
        }),
{
}

// Modes

/// The sequences that set each mode.
pub proof fn law_mode_texts(code: u16, slot: u8)
    ensures
        render::dec_mode(code, true) == "\x1b[?".spec_bytes() + bytes::decimal(code as nat)
            + "h".spec_bytes(),
        render::dec_mode(code, false) == "\x1b[?".spec_bytes() + bytes::decimal(code as nat)
            + "l".spec_bytes(),
        render::charset_bytes(slot, Charset::Ascii) == seq![0x1bu8, slot, 0x42],
        render::charset_bytes(slot, Charset::LineDrawing) == seq![0x1bu8, slot, 0x30],
        render::encoding_bytes(1006) == "\x1b[?1005l\x1b[?1006h".spec_bytes(),
        render::encoding_bytes(1005) == "\x1b[?1006l\x1b[?1005h".spec_bytes(),
        render::encoding_bytes(0) == "\x1b[?1006l\x1b[?1005l".spec_bytes(),
        render::keypad_bytes(true) == "\x1b=".spec_bytes(),
        render::keypad_bytes(false) == "\x1b>".spec_bytes(),
        render::shift_bytes(ActiveCharset::G0) == seq![0x0fu8],
        render::shift_bytes(ActiveCharset::G1) == seq![0x0eu8],
        render::shape_bytes(CursorShape::Default) == "\x1b[".spec_bytes() + bytes::decimal(0)
            + " q".spec_bytes(),
        render::shape_bytes(CursorShape::BlinkBlock) == "\x1b[".spec_bytes() + bytes::decimal(1)
            + " q".spec_bytes(),
        render::shape_bytes(CursorShape::SteadyBlock) == "\x1b[".spec_bytes() + bytes::decimal(2)
            + " q".spec_bytes(),
        render::shape_bytes(CursorShape::BlinkUnderline) == "\x1b[".spec_bytes() + bytes::decimal(3)
            + " q".spec_bytes(),
        render::shape_bytes(CursorShape::SteadyUnderline) == "\x1b[".spec_bytes() + bytes::decimal(
            4,
        ) + " q".spec_bytes(),
        render::shape_bytes(CursorShape::BlinkBar) == "\x1b[".spec_bytes() + bytes::decimal(5)
            + " q".spec_bytes(),
        render::shape_bytes(CursorShape::SteadyBar) == "\x1b[".spec_bytes() + bytes::decimal(6)
            + " q".spec_bytes(),
{
}

proof fn lemma_one_group(a: Seq<u8>, b: Seq<u8>, c: Seq<u8>, text: Seq<u8>)
    requires
        (a == text && b.len() == 0 && c.len() == 0) || (a.len() == 0 && b == text && c.len() == 0)
            || (a.len() == 0 && b.len() == 0 && c == text),
    ensures
        a + b + c == text,
{
    assert(a + b + c =~= text);
}

proof fn lemma_same_modes(m: TerminalModes, p: TerminalModes)
    ensures
        m.cursor_shape == p.cursor_shape && m.cursor_key_mode == p.cursor_key_mode
            && m.autowrap_mode == p.autowrap_mode && m.bracketed_paste == p.bracketed_paste
            ==> render::keyboard_bytes(m, Some(p)).len() == 0,
        m.mouse_mode == p.mouse_mode && m.mouse_encoding == p.mouse_encoding && m.focus_reporting
            == p.focus_reporting ==> render::mouse_bytes(m, Some(p)).len() == 0,
        m.keypad_app_mode == p.keypad_app_mode && m.g0_charset == p.g0_charset && m.g1_charset
            == p.g1_charset && m.active_charset == p.active_charset ==> render::charsets_bytes(
            m,
            Some(p),
        ).len() == 0,
{
}

/// Where the cursor shape alone changed since the last frame, it alone is sent.
pub proof fn law_cursor_shape_alone(p: TerminalModes, v: CursorShape)
    requires
        v != p.cursor_shape,
    ensures
        render::modes_bytes(TerminalModes { cursor_shape: v, ..p }, Some(p)) == render::shape_bytes(v),
{
    let m = TerminalModes { cursor_shape: v, ..p };
    lemma_same_modes(m, p);
    assert(render::keyboard_bytes(m, Some(p)) =~= render::shape_bytes(v));
    lemma_one_group(
        render::keyboard_bytes(m, Some(p)),
        render::mouse_bytes(m, Some(p)),
        render::charsets_bytes(m, Some(p)),
        render::shape_bytes(v),
    );
}

/// Where the mode of the cursor keys alone changed since the last frame, it alone is sent.
pub proof fn law_cursor_key_mode_alone(p: TerminalModes, v: bool)
    requires
        v != p.cursor_key_mode,
    ensures
        render::modes_bytes(TerminalModes { cursor_key_mode: v, ..p }, Some(p)) == render::dec_mode(1, v),
{
    let m = TerminalModes { cursor_key_mode: v, ..p };
    lemma_same_modes(m, p);
    assert(render::keyboard_bytes(m, Some(p)) =~= render::dec_mode(1, v));
    lemma_one_group(
        render::keyboard_bytes(m, Some(p)),
        render::mouse_bytes(m, Some(p)),
        render::charsets_bytes(m, Some(p)),
        render::dec_mode(1, v),
    );
}

/// Where autowrap alone changed since the last frame, it alone is sent.
pub proof fn law_autowrap_mode_alone(p: TerminalModes, v: bool)
    requires
        v != p.autowrap_mode,
    ensures
        render::modes_bytes(TerminalModes { autowrap_mode: v, ..p }, Some(p)) == render::dec_mode(7, v),
{
    let m = TerminalModes { autowrap_mode: v, ..p };
    lemma_same_modes(m, p);
    assert(render::keyboard_bytes(m, Some(p)) =~= render::dec_mode(7, v));
    lemma_one_group(
        render::keyboard_bytes(m, Some(p)),
        render::mouse_bytes(m, Some(p)),
        render::charsets_bytes(m, Some(p)),
        render::dec_mode(7, v),
    );
}

/// Where bracketed paste alone changed since the last frame, it alone is sent.
pub proof fn law_bracketed_paste_alone(p: TerminalModes, v: bool)
    requires
        v != p.bracketed_paste,
    ensures
        render::modes_bytes(TerminalModes { bracketed_paste: v, ..p }, Some(p)) == render::dec_mode(2004, v),
{
    let m = TerminalModes { bracketed_paste: v, ..p };
    lemma_same_modes(m, p);
    assert(render::keyboard_bytes(m, Some(p)) =~= render::dec_mode(2004, v));
    lemma_one_group(
        render::keyboard_bytes(m, Some(p)),
        render::mouse_bytes(m, Some(p)),
        render::charsets_bytes(m, Some(p)),
        render::dec_mode(2004, v),
    );
}

/// Where the mouse encoding alone changed since the last frame, it alone is sent.
pub proof fn law_mouse_encoding_alone(p: TerminalModes, v: u16)
    requires
        v != p.mouse_encoding,
    ensures
        render::modes_bytes(TerminalModes { mouse_encoding: v, ..p }, Some(p)) == render::encoding_bytes(v),
{
    let m = TerminalModes { mouse_encoding: v, ..p };
    lemma_same_modes(m, p);
    assert(render::mouse_bytes(m, Some(p)) =~= render::encoding_bytes(v));
    lemma_one_group(
        render::keyboard_bytes(m, Some(p)),
        render::mouse_bytes(m, Some(p)),
        render::charsets_bytes(m, Some(p)),
        render::encoding_bytes(v),
    );
}

/// Where focus reporting alone changed since the last frame, it alone is sent.
pub proof fn law_focus_reporting_alone(p: TerminalModes, v: bool)
    requires
        v != p.focus_reporting,
    ensures
        render::modes_bytes(TerminalModes { focus_reporting: v, ..p }, Some(p)) == render::dec_mode(1004, v),
{
    let m = TerminalModes { focus_reporting: v, ..p };
    lemma_same_modes(m, p);
    assert(render::mouse_bytes(m, Some(p)) =~= render::dec_mode(1004, v));
    lemma_one_group(
        render::keyboard_bytes(m, Some(p)),
        render::mouse_bytes(m, Some(p)),
        render::charsets_bytes(m, Some(p)),
        render::dec_mode(1004, v),
    );
}

/// Where the keypad mode alone changed since the last frame, it alone is sent.
pub proof fn law_keypad_app_mode_alone(p: TerminalModes, v: bool)
    requires
        v != p.keypad_app_mode,
    ensures
        render::modes_bytes(TerminalModes { keypad_app_mode: v, ..p }, Some(p)) == render::keypad_bytes(v),
{
    let m = TerminalModes { keypad_app_mode: v, ..p };
    lemma_same_modes(m, p);
    assert(render::charsets_bytes(m, Some(p)) =~= render::keypad_bytes(v));
    lemma_one_group(
        render::keyboard_bytes(m, Some(p)),
        render::mouse_bytes(m, Some(p)),
        render::charsets_bytes(m, Some(p)),
        render::keypad_bytes(v),
    );
}

/// Where the first character set alone changed since the last frame, it alone is sent.
pub proof fn law_g0_charset_alone(p: TerminalModes, v: Charset)
    requires
        v != p.g0_charset,
    ensures
        render::modes_bytes(TerminalModes { g0_charset: v, ..p }, Some(p)) == render::charset_bytes(0x28, v),
{
    let m = TerminalModes { g0_charset: v, ..p };
    lemma_same_modes(m, p);
    assert(render::charsets_bytes(m, Some(p)) =~= render::charset_bytes(0x28, v));
    lemma_one_group(
        render::keyboard_bytes(m, Some(p)),
        render::mouse_bytes(m, Some(p)),
        render::charsets_bytes(m, Some(p)),
        render::charset_bytes(0x28, v),
    );
}

/// Where the second character set alone changed since the last frame, it alone is sent.
pub proof fn law_g1_charset_alone(p: TerminalModes, v: Charset)
    requires
        v != p.g1_charset,
    ensures
        render::modes_bytes(TerminalModes { g1_charset: v, ..p }, Some(p)) == render::charset_bytes(0x29, v),
{
    let m = TerminalModes { g1_charset: v, ..p };
    lemma_same_modes(m, p);
    assert(render::charsets_bytes(m, Some(p)) =~= render::charset_bytes(0x29, v));
    lemma_one_group(
        render::keyboard_bytes(m, Some(p)),
        render::mouse_bytes(m, Some(p)),
        render::charsets_bytes(m, Some(p)),
        render::charset_bytes(0x29, v),
    );
}

/// Where the active character set alone changed since the last frame, it alone is sent.
pub proof fn law_active_charset_alone(p: TerminalModes, v: ActiveCharset)
    requires
        v != p.active_charset,
    ensures
        render::modes_bytes(TerminalModes { active_charset: v, ..p }, Some(p)) == render::shift_bytes(v),
{
    let m = TerminalModes { active_charset: v, ..p };
    lemma_same_modes(m, p);
    assert(render::charsets_bytes(m, Some(p)) =~= render::shift_bytes(v));
    lemma_one_group(
        render::keyboard_bytes(m, Some(p)),
        render::mouse_bytes(m, Some(p)),
        render::charsets_bytes(m, Some(p)),
        render::shift_bytes(v),
    );
}

/// Where no mode changed since the last frame, none is sent.
pub proof fn law_modes_unchanged(p: TerminalModes)
    ensures
        render::modes_bytes(p, Some(p)).len() == 0,
{
    lemma_same_modes(p, p);
}

/// A change of mouse tracking switches the old kind off and the new one on, in the order
/// of their numbers.
pub proof fn law_mouse_tracking_changed(p: TerminalModes, mouse_mode: u16)
    ensures
        ({
            let m = TerminalModes { mouse_mode, ..p };
            let part = |code: u16|
                if (mouse_mode == code) == (p.mouse_mode == code) {
                    seq![]
                } else {
                    render::dec_mode(code, mouse_mode == code)
                };
            render::modes_bytes(m, Some(p)) == part(1000) + part(1002) + part(1003)
        }),
{
    let m = TerminalModes { mouse_mode, ..p };
    lemma_same_modes(m, p);
    let text = render::tracking_bytes(m, Some(p), 1000) + render::tracking_bytes(m, Some(p), 1002)
        + render::tracking_bytes(m, Some(p), 1003);
    assert(render::mouse_bytes(m, Some(p)) =~= text);
    lemma_one_group(
        render::keyboard_bytes(m, Some(p)),
        render::mouse_bytes(m, Some(p)),
        render::charsets_bytes(m, Some(p)),
        text,
    );
}

/// All modes, in the order in which a full frame sets them.
pub proof fn law_all_modes(m: TerminalModes)
    ensures
        render::modes_bytes(m, None) == (render::shape_bytes(m.cursor_shape) + render::dec_mode(
            1,
            m.cursor_key_mode,
        ) + render::dec_mode(7, m.autowrap_mode) + render::dec_mode(2004, m.bracketed_paste)) + (
        render::dec_mode(1000, m.mouse_mode == 1000) + render::dec_mode(1002, m.mouse_mode == 1002)
            + render::dec_mode(1003, m.mouse_mode == 1003) + render::encoding_bytes(
            m.mouse_encoding,
        ) + render::dec_mode(1004, m.focus_reporting)) + (render::keypad_bytes(m.keypad_app_mode)
            + render::charset_bytes(0x28, m.g0_charset) + render::charset_bytes(0x29, m.g1_charset)
            + render::shift_bytes(m.active_charset)),
{
}

// Lines for the scrollback

/// How lines get into the scrollback of the outer terminal: with its cursor hidden and its
/// scroll region the whole screen, a screenful at a time. Each line is drawn over a row
/// from the top on and the rest of that row erased, the rows below them are erased, and as
/// many line feeds at the bottom as there are lines scroll them off.
pub proof fn law_scrollback_text(lines: Seq<Seq<u8>>, line: Seq<u8>, rows: int, from: int)
    requires
        rows >= 1,
        0 <= from <= rows,
    ensures
        render::scrollback_bytes(seq![], rows) == Seq::<u8>::empty(),
        lines.len() > 0 ==> render::scrollback_bytes(lines, rows) == "\x1b[?25l\x1b[r".spec_bytes()
            + render::chunks_bytes(lines, rows),
        lines.len() > rows ==> render::chunks_bytes(lines, rows) == render::chunks_bytes(
            lines.take(rows),
            rows,
        ) + render::chunks_bytes(lines.skip(rows), rows),
        0 < lines.len() <= rows ==> render::chunks_bytes(lines, rows) == render::overwritten(lines)
            + render::rows_cleared(lines.len() as int, rows) + ("\x1b[".spec_bytes()
            + bytes::decimal(rows as nat) + ";1H".spec_bytes()) + Seq::new(
            lines.len(),
            |i: int| 0x0au8,
        ),
        render::overwritten(seq![]) == Seq::<u8>::empty(),
        render::overwritten(lines.push(line)) == render::overwritten(lines) + ("\x1b[".spec_bytes()
            + bytes::decimal(lines.len() + 1) + (";1H\x1b[0m".spec_bytes() + line
            + "\x1b[K".spec_bytes())),
        render::rows_cleared(from, from) == Seq::<u8>::empty(),
        render::rows_cleared(from, rows + 1) == render::rows_cleared(from, rows) + (
        "\x1b[".spec_bytes() + bytes::decimal((rows + 1) as nat) + ";1H\x1b[2K".spec_bytes()),
{
    assert(lines.push(line).drop_last() =~= lines);
    if lines.len() > rows {
        assert(lines.take(rows).len() == rows);
    }
}

// Styles

/// The parameter `n`, where `on` holds.
pub open spec fn one(on: bool, n: u16) -> Seq<Seq<u16>> {
    if on {
        seq![seq![n]]
    } else {
        seq![]
    }
}

/// The parameters of a color: one for the first sixteen, three for the rest of the
/// palette, five for one by its components.
pub open spec fn color(c: Option<Color>, basic: u16, bright: u16, extended: u16) -> Seq<Seq<u16>> {
    match c {
        None => seq![],
        Some(Color::Indexed(i)) => if i < 8 {
            seq![seq![(basic + i) as u16]]
        } else if i < 16 {
            seq![seq![(bright + i - 8) as u16]]
        } else {
            seq![seq![extended], seq![5], seq![i as u16]]
        },
        Some(Color::Rgb(r, g, b)) => seq![
            seq![extended],
            seq![2],
            seq![r as u16],
            seq![g as u16],
            seq![b as u16],
        ],
    }
}

/// The parameters that a style is sent as, in this order.
pub proof fn law_style_parameters(s: Style)
    ensures
        style::style_groups(s) == one(s.bold, 1) + one(s.dim, 2) + one(s.italic, 3) + (
        match s.underline {
            UnderlineStyle::Off => seq![],
            UnderlineStyle::Single => seq![seq![4u16]],
            UnderlineStyle::Double => seq![seq![4u16, 2]],
            UnderlineStyle::Curly => seq![seq![4u16, 3]],
            UnderlineStyle::Dotted => seq![seq![4u16, 4]],
            UnderlineStyle::Dashed => seq![seq![4u16, 5]],
        }) + (one(s.blink, 5) + one(s.inverse, 7) + one(s.hidden, 8) + one(s.strikethrough, 9))
            + color(s.fg, 30, 90, 38) + color(s.bg, 40, 100, 48),
{
    reveal(style::style_groups);
    reveal(style::weight_groups);
    reveal(style::effect_groups);
    reveal(style::flag_groups);
    reveal(style::underline_groups);
    reveal(style::color_groups);
    assert(style::color_groups(s.fg, 30) == color(s.fg, 30, 90, 38));
    assert(style::color_groups(s.bg, 40) == color(s.bg, 40, 100, 48));
    assert(style::flag_groups(s.bold, 1) == one(s.bold, 1));
    assert(style::flag_groups(s.dim, 2) == one(s.dim, 2));
    assert(style::flag_groups(s.italic, 3) == one(s.italic, 3));
    assert(style::flag_groups(s.blink, 5) == one(s.blink, 5));
    assert(style::flag_groups(s.inverse, 7) == one(s.inverse, 7));
    assert(style::flag_groups(s.hidden, 8) == one(s.hidden, 8));
    assert(style::flag_groups(s.strikethrough, 9) == one(s.strikethrough, 9));
}

/// Parameters are separated by semicolons, subparameters by colons; with something before
/// them the first parameter is separated too.
pub proof fn law_parameter_text(groups: Seq<Seq<u16>>, group: Seq<u16>, n: u16, more: bool)
    ensures
        style::groups_bytes(seq![], more) == Seq::<u8>::empty(),
        more || groups.len() > 0 ==> style::groups_bytes(groups.push(group), more)
            == style::groups_bytes(groups, more) + ";".spec_bytes() + style::group_bytes(group),
        style::groups_bytes(seq![group], false) == style::group_bytes(group),
        style::group_bytes(seq![n]) == bytes::decimal(n as nat),
        group.len() > 0 ==> style::group_bytes(group.push(n)) == style::group_bytes(group)
            + ":".spec_bytes() + bytes::decimal(n as nat),
{
    reveal(style::groups_bytes);
    reveal_with_fuel(style::groups_bytes, 2);
    assert(groups.push(group).drop_last() =~= groups);
    assert(seq![group].drop_last() =~= seq![]);
    assert(style::groups_bytes(seq![group], false) =~= style::group_bytes(group));
    assert(group.push(n).drop_last() =~= group);
}

/// A style is sent as ESC [ 0, its parameters, and m.
pub proof fn law_style_text(s: Style)
    ensures
        style::sgr_with_reset(s) == "\x1b[0".spec_bytes() + style::groups_bytes(
            style::style_groups(s),
            true,
        ) + "m".spec_bytes(),
{
}

// Events

/// How events are written: a character is itself, a control character its byte, a control
/// sequence starts with ESC [ and ends with its action, an escape sequence starts with
/// ESC, and an operating system command is ESC ], its fields and BEL.
pub proof fn law_event_texts(
    c: char,
    byte: u8,
    params: Seq<Seq<u16>>,
    intermediates: Seq<u8>,
    action: char,
    number: Seq<u8>,
    field: Seq<u8>,
)
    ensures
        replay::event_text(EventView::Print(c)) == encode_utf8(seq![c]),
        replay::event_text(EventView::Execute(byte)) == seq![byte],
        replay::event_text(EventView::Csi { params, intermediates: seq![], action })
            == "\x1b[".spec_bytes() + style::groups_bytes(params, false) + encode_utf8(
            seq![action],
        ),
        replay::event_text(EventView::Csi { params, intermediates: seq![0x3f], action })
            == "\x1b[".spec_bytes() + "?".spec_bytes() + style::groups_bytes(params, false)
            + encode_utf8(seq![action]),
        replay::event_text(EventView::Csi { params, intermediates: seq![0x20], action })
            == "\x1b[".spec_bytes() + style::groups_bytes(params, false) + " ".spec_bytes()
            + encode_utf8(seq![action]),
        replay::event_text(EventView::Esc { intermediates, byte }) == seq![0x1bu8] + intermediates
            + seq![byte],
        replay::event_text(EventView::Osc { fields: seq![number, field] }) == "\x1b]".spec_bytes()
            + (number + ";".spec_bytes() + field) + seq![7u8],
{
    let none = Seq::<u8>::empty();
    assert(seq![0x20u8] != seq![0x3fu8]) by {
        assert(seq![0x20u8][0] == 0x20 && seq![0x3fu8][0] == 0x3f);
    }
    let p = style::groups_bytes(params, false);
    let start = "\x1b[".spec_bytes();
    assert(start + none + p + none =~= start + p);
    assert(start + none + p =~= start + p);
    assert(start + "?".spec_bytes() + p + none =~= start + "?".spec_bytes() + p);
    let fields = seq![number, field];
    assert(fields.drop_last() =~= seq![number]);
    reveal_with_fuel(super::model::joined, 2);
}

} // verus!
