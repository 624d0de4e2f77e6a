//! Rendering of a grid as ANSI escape sequences.

use vstd::prelude::*;
use vstd::string::*;
use vstd::utf8::*;

use crate::bytes;
use crate::bytes::{push_char, push_chars, push_str};

use super::cell;
use super::cell::{clone_row, same_row, Cell, CellView};
use super::grid;
use super::grid::{ActiveCharset, Charset, CursorShape, Grid, GridView, TerminalModes};
use super::laws::mouse_known;
use super::style;
use super::style::{write_u16, Style};

verus! {

// Rows

/// Whether a cell shows anything: a character or a style.
pub open spec fn shows(c: CellView) -> bool {
    (c.c != ' ' && c.c != '\0') || c.style != style::plain()
}

/// The number of cells of a row up to the last one that shows anything.
pub open spec fn written_len(row: Seq<CellView>) -> nat
    decreases row.len(),
{
    if row.len() == 0 {
        0
    } else if shows(row.last()) {
        row.len()
    } else {
        written_len(row.drop_last())
    }
}

/// The text of a cell: its character with its combining marks.
pub open spec fn cell_text(c: CellView) -> Seq<u8> {
    encode_utf8(seq![c.c]) + encode_utf8(c.combining)
}

/// The bytes that draw cells one after the other, and the style that is then in
/// effect. A style is sent where it changes; continuation cells of wide
/// characters are left out.
pub open spec fn cells_bytes(cells: Seq<CellView>) -> (Seq<u8>, Style)
    decreases cells.len(),
{
    if cells.len() == 0 {
        (seq![], style::plain())
    } else {
        let (text, current) = cells_bytes(cells.drop_last());
        let c = cells.last();
        if c.width == 0 {
            (text, current)
        } else if c.style != current {
            (text + style::sgr_with_reset(c.style) + cell_text(c), c.style)
        } else {
            (text + cell_text(c), current)
        }
    }
}

/// The cells of a row that are drawn.
pub open spec fn written(row: Seq<CellView>) -> Seq<CellView> {
    row.take(written_len(row) as int)
}

/// The bytes of a row on its own: nothing for a blank one, and the style is reset
/// at its end.
pub open spec fn line_bytes(row: Seq<CellView>) -> Seq<u8> {
    let (text, current) = cells_bytes(written(row));
    if current != style::plain() {
        text + "\x1b[0m".spec_bytes()
    } else {
        text
    }
}

/// The number of cells of a row up to the last one that shows anything.
fn write_len(row: &[Cell]) -> (res: usize)
    ensures
        res == written_len(cell::row_view(row@)),
        res <= row@.len(),
{
    let ghost cells = cell::row_view(row@);
    let mut n: usize = row.len();
    assert(cells.take(n as int) =~= cells);
    while n > 0
        invariant
            n <= row@.len(),
            cells == cell::row_view(row@),
            written_len(cells.take(n as int)) == written_len(cells),
        decreases n,
    {
        let c = &row[n - 1];
        assert(cells.take(n as int).last() == c@);
        assert(cells.take(n as int).drop_last() =~= cells.take(n - 1));
        if (c.c != ' ' && c.c != '\0') || !c.style.is_default() {
            return n;
        }
        n -= 1;
    }
    n
}

/// Draw the first `n` cells of a row, and return the style that is then in effect.
fn write_cells(out: &mut Vec<u8>, row: &[Cell], n: usize) -> (res: Style)
    requires
        n <= row@.len(),
    ensures
        final(out)@ == old(out)@ + cells_bytes(cell::row_view(row@).take(n as int)).0,
        res == cells_bytes(cell::row_view(row@).take(n as int)).1,
{
    let ghost cells = cell::row_view(row@);
    let mut current = Style::default();
    let mut x: usize = 0;
    assert(cells.take(0) =~= seq![]);
    assert(out@ =~= old(out)@ + cells_bytes(cells.take(0)).0);
    while x < n
        invariant
            x <= n <= row@.len(),
            cells == cell::row_view(row@),
            out@ == old(out)@ + cells_bytes(cells.take(x as int)).0,
            current == cells_bytes(cells.take(x as int)).1,
        decreases n - x,
    {
        let c = &row[x];
        let ghost before = out@;
        assert(cells.take(x + 1).last() == c@);
        assert(cells.take(x + 1).drop_last() =~= cells.take(x as int));
        // The continuation cell of a wide character has nothing to draw
        if c.width != 0 {
            if c.style != current {
                let sgr: Vec<u8> = c.style.to_sgr_with_reset();
                out.extend_from_slice(sgr.as_slice());
                current = c.style;
            }
            push_char(out, c.c);
            push_chars(out, &c.combining);
        }
        assert(out@ =~= old(out)@ + cells_bytes(cells.take(x + 1)).0);
        x += 1;
    }
    current
}

/// Render a single row of cells as ANSI bytes with SGR codes.
/// Returns empty Vec for fully blank lines.
pub fn render_line(row: &[Cell]) -> (res: Vec<u8>)
    ensures
        res@ == line_bytes(cell::row_view(row@)),
{
    let mut out: Vec<u8> = Vec::new();
    let n: usize = write_len(row);
    let current = write_cells(&mut out, row, n);
    if !current.is_default() {
        push_str(&mut out, "\x1b[0m");
    }
    assert(out@ =~= line_bytes(cell::row_view(row@)));
    out
}

/// A row that shows nothing renders as nothing.
pub proof fn law_blank_row_is_empty(row: Seq<CellView>)
    requires
        forall|x: int| 0 <= x < row.len() ==> !shows(#[trigger] row[x]),
    ensures
        line_bytes(row) == Seq::<u8>::empty(),
{
    lemma_nothing_written(row);
    assert(written(row) =~= seq![]);
}

proof fn lemma_nothing_written(row: Seq<CellView>)
    requires
        forall|x: int| 0 <= x < row.len() ==> !shows(#[trigger] row[x]),
    ensures
        written_len(row) == 0,
    decreases row.len(),
{
    if row.len() > 0 {
        assert(!shows(row[row.len() - 1]));
        lemma_nothing_written(row.drop_last());
    }
}

/// Blank cells at the end of a row leave its rendering as it is.
pub proof fn law_trailing_blanks_are_dropped(row: Seq<CellView>, blank: CellView)
    requires
        !shows(blank),
    ensures
        line_bytes(row.push(blank)) == line_bytes(row),
{
    assert(row.push(blank).drop_last() =~= row);
    lemma_written_len_bound(row);
    assert(written(row.push(blank)) =~= written(row));
}

proof fn lemma_written_len_bound(row: Seq<CellView>)
    ensures
        written_len(row) <= row.len(),
    decreases row.len(),
{
    if row.len() > 0 {
        lemma_written_len_bound(row.drop_last());
    }
}

// Modes

/// A DEC private mode set or reset.
pub open spec fn dec_mode(code: u16, enabled: bool) -> Seq<u8> {
    "\x1b[?".spec_bytes() + bytes::decimal(code as nat) + (if enabled {
        "h".spec_bytes()
    } else {
        "l".spec_bytes()
    })
}

/// The designation of a character set to a slot: `(` for G0, `)` for G1.
pub open spec fn charset_bytes(slot: u8, charset: Charset) -> Seq<u8> {
    seq![
        0x1bu8,
        slot,
        match charset {
            Charset::Ascii => 0x42,
            Charset::LineDrawing => 0x30,
        },
    ]
}

/// The cursor shape.
pub open spec fn shape_bytes(shape: CursorShape) -> Seq<u8> {
    "\x1b[".spec_bytes() + bytes::decimal(grid::shape_code(shape) as nat) + " q".spec_bytes()
}

/// The mouse encoding: the one that is not wanted is switched off first.
pub open spec fn encoding_bytes(encoding: u16) -> Seq<u8> {
    if encoding == 1006 {
        "\x1b[?1005l\x1b[?1006h".spec_bytes()
    } else if encoding == 1005 {
        "\x1b[?1006l\x1b[?1005h".spec_bytes()
    } else {
        "\x1b[?1006l\x1b[?1005l".spec_bytes()
    }
}

/// The keypad mode.
pub open spec fn keypad_bytes(application: bool) -> Seq<u8> {
    if application {
        "\x1b=".spec_bytes()
    } else {
        "\x1b>".spec_bytes()
    }
}

/// The shift to the active character set slot: SI for G0, SO for G1.
pub open spec fn shift_bytes(active: ActiveCharset) -> Seq<u8> {
    match active {
        ActiveCharset::G0 => seq![0x0Fu8],
        ActiveCharset::G1 => seq![0x0Eu8],
    }
}

/// Bytes that are sent only where `needed` holds.
pub open spec fn sent_if(needed: bool, text: Seq<u8>) -> Seq<u8> {
    if needed {
        text
    } else {
        seq![]
    }
}

/// The modes that differ from `prev`; all of them where there is no `prev`.
pub open spec fn modes_bytes(m: TerminalModes, prev: Option<TerminalModes>) -> Seq<u8> {
    keyboard_bytes(m, prev) + mouse_bytes(m, prev) + charsets_bytes(m, prev)
}

/// Of those, the cursor shape and the modes of keyboard and screen.
pub open spec fn keyboard_bytes(m: TerminalModes, prev: Option<TerminalModes>) -> Seq<u8> {
    let p = prev->0;
    let all = prev is None;
    sent_if(all || m.cursor_shape != p.cursor_shape, shape_bytes(m.cursor_shape)) + sent_if(
        all || m.cursor_key_mode != p.cursor_key_mode,
        dec_mode(1, m.cursor_key_mode),
    ) + sent_if(all || m.autowrap_mode != p.autowrap_mode, dec_mode(7, m.autowrap_mode)) + sent_if(
        all || m.bracketed_paste != p.bracketed_paste,
        dec_mode(2004, m.bracketed_paste),
    )
}

/// Of those, one of the three mouse tracking modes.
pub open spec fn tracking_bytes(m: TerminalModes, prev: Option<TerminalModes>, code: u16) -> Seq<
    u8,
> {
    sent_if(
        prev is None || (m.mouse_mode == code) != (prev->0.mouse_mode == code),
        dec_mode(code, m.mouse_mode == code),
    )
}

/// Of those, the modes of mouse and focus.
pub open spec fn mouse_bytes(m: TerminalModes, prev: Option<TerminalModes>) -> Seq<u8> {
    let p = prev->0;
    let all = prev is None;
    tracking_bytes(m, prev, 1000) + tracking_bytes(m, prev, 1002) + tracking_bytes(m, prev, 1003)
        + sent_if(
        all || m.mouse_encoding != p.mouse_encoding,
        encoding_bytes(m.mouse_encoding),
    ) + sent_if(all || m.focus_reporting != p.focus_reporting, dec_mode(1004, m.focus_reporting))
}

/// Of those, the keypad and the character sets.
pub open spec fn charsets_bytes(m: TerminalModes, prev: Option<TerminalModes>) -> Seq<u8> {
    let p = prev->0;
    let all = prev is None;
    sent_if(all || m.keypad_app_mode != p.keypad_app_mode, keypad_bytes(m.keypad_app_mode))
        + sent_if(all || m.g0_charset != p.g0_charset, charset_bytes(0x28, m.g0_charset)) + sent_if(
        all || m.g1_charset != p.g1_charset,
        charset_bytes(0x29, m.g1_charset),
    ) + sent_if(all || m.active_charset != p.active_charset, shift_bytes(m.active_charset))
}

/// Emit a single boolean DEC private mode sequence, if it is needed.
fn emit_dec_mode(out: &mut Vec<u8>, needed: bool, code: u16, enabled: bool)
    ensures
        final(out)@ == old(out)@ + sent_if(needed, dec_mode(code, enabled)),
{
    if needed {
        push_str(out, "\x1b[?");
        write_u16(out, code);
        push_str(out, if enabled { "h" } else { "l" });
    }
    assert(out@ =~= old(out)@ + sent_if(needed, dec_mode(code, enabled)));
}

/// Emit a character set designation, if it is needed: ESC `slot` `final`.
/// `slot` is `(` for G0, `)` for G1.
fn emit_charset(out: &mut Vec<u8>, needed: bool, slot: u8, charset: Charset)
    ensures
        final(out)@ == old(out)@ + sent_if(needed, charset_bytes(slot, charset)),
{
    if needed {
        out.push(0x1b);
        out.push(slot);
        out.push(
            match charset {
                Charset::Ascii => 0x42,
                Charset::LineDrawing => 0x30,
            },
        );
    }
    assert(out@ =~= old(out)@ + sent_if(needed, charset_bytes(slot, charset)));
}

/// Emit the keypad mode, if it is needed.
fn emit_keypad(out: &mut Vec<u8>, needed: bool, application: bool)
    ensures
        final(out)@ == old(out)@ + sent_if(needed, keypad_bytes(application)),
{
    if needed {
        push_str(out, if application { "\x1b=" } else { "\x1b>" });
    }
    assert(out@ =~= old(out)@ + sent_if(needed, keypad_bytes(application)));
}

/// Emit the shift to the active character set slot, if it is needed.
fn emit_shift(out: &mut Vec<u8>, needed: bool, active: ActiveCharset)
    ensures
        final(out)@ == old(out)@ + sent_if(needed, shift_bytes(active)),
{
    if needed {
        out.push(
            match active {
                ActiveCharset::G0 => 0x0F,
                ActiveCharset::G1 => 0x0E,
            },
        );
    }
    assert(out@ =~= old(out)@ + sent_if(needed, shift_bytes(active)));
}

/// Emit the cursor shape (DECSCUSR), if it is needed.
fn emit_shape(out: &mut Vec<u8>, needed: bool, shape: CursorShape)
    ensures
        final(out)@ == old(out)@ + sent_if(needed, shape_bytes(shape)),
{
    if needed {
        push_str(out, "\x1b[");
        write_u16(out, shape.to_param() as u16);
        push_str(out, " q");
    }
    assert(out@ =~= old(out)@ + sent_if(needed, shape_bytes(shape)));
}

/// Emit mouse encoding sequence for the given encoding mode, if it is needed.
fn emit_mouse_encoding(out: &mut Vec<u8>, needed: bool, encoding: u16)
    ensures
        final(out)@ == old(out)@ + sent_if(needed, encoding_bytes(encoding)),
{
    if needed {
        match encoding {
            1006 => push_str(out, "\x1b[?1005l\x1b[?1006h"),
            1005 => push_str(out, "\x1b[?1006l\x1b[?1005h"),
            _ => push_str(out, "\x1b[?1006l\x1b[?1005l"),
        }
    }
    assert(out@ =~= old(out)@ + sent_if(needed, encoding_bytes(encoding)));
}

/// Emit the cursor shape and the modes of keyboard and screen that changed.
fn emit_keyboard(out: &mut Vec<u8>, modes: &TerminalModes, prev: &Option<TerminalModes>)
    ensures
        final(out)@ == old(out)@ + keyboard_bytes(*modes, *prev),
{
    let (all, p): (bool, TerminalModes) = match prev {
        Some(p) => (false, *p),
        None => (true, *modes),
    };
    emit_shape(out, all || modes.cursor_shape != p.cursor_shape, modes.cursor_shape);
    emit_dec_mode(out, all || modes.cursor_key_mode != p.cursor_key_mode, 1, modes.cursor_key_mode);
    emit_dec_mode(out, all || modes.autowrap_mode != p.autowrap_mode, 7, modes.autowrap_mode);
    emit_dec_mode(out, all || modes.bracketed_paste != p.bracketed_paste, 2004, modes.bracketed_paste);
    proof {
        bytes::lemma_append4(
            old(out)@,
            sent_if(all || modes.cursor_shape != p.cursor_shape, shape_bytes(modes.cursor_shape)),
            sent_if(
                all || modes.cursor_key_mode != p.cursor_key_mode,
                dec_mode(1, modes.cursor_key_mode),
            ),
            sent_if(
                all || modes.autowrap_mode != p.autowrap_mode,
                dec_mode(7, modes.autowrap_mode),
            ),
            sent_if(
                all || modes.bracketed_paste != p.bracketed_paste,
                dec_mode(2004, modes.bracketed_paste),
            ),
        );
    }
}

/// Emit one of the mouse tracking modes if it changed.
fn emit_tracking(
    out: &mut Vec<u8>,
    modes: &TerminalModes,
    prev: &Option<TerminalModes>,
    code: u16,
)
    ensures
        final(out)@ == old(out)@ + tracking_bytes(*modes, *prev, code),
{
    let on = modes.mouse_mode == code;
    let changed = match prev {
        Some(p) => on != (p.mouse_mode == code),
        None => true,
    };
    emit_dec_mode(out, changed, code, on);
    assert(out@ =~= old(out)@ + tracking_bytes(*modes, *prev, code));
}

/// Emit the modes of mouse and focus that changed.
#[verifier::rlimit(50)]
fn emit_mouse(out: &mut Vec<u8>, modes: &TerminalModes, prev: &Option<TerminalModes>)
    ensures
        final(out)@ == old(out)@ + mouse_bytes(*modes, *prev),
{
    let (all, p): (bool, TerminalModes) = match prev {
        Some(p) => (false, *p),
        None => (true, *modes),
    };
    emit_tracking(out, modes, prev, 1000);
    emit_tracking(out, modes, prev, 1002);
    emit_tracking(out, modes, prev, 1003);
    emit_mouse_encoding(out, all || modes.mouse_encoding != p.mouse_encoding, modes.mouse_encoding);
    emit_dec_mode(out, all || modes.focus_reporting != p.focus_reporting, 1004, modes.focus_reporting);
    assert(out@ =~= old(out)@ + mouse_bytes(*modes, *prev));
}

/// Emit the keypad mode and the character sets that changed.
fn emit_charsets(out: &mut Vec<u8>, modes: &TerminalModes, prev: &Option<TerminalModes>)
    ensures
        final(out)@ == old(out)@ + charsets_bytes(*modes, *prev),
{
    let (all, p): (bool, TerminalModes) = match prev {
        Some(p) => (false, *p),
        None => (true, *modes),
    };
    emit_keypad(out, all || modes.keypad_app_mode != p.keypad_app_mode, modes.keypad_app_mode);
    emit_charset(out, all || modes.g0_charset != p.g0_charset, 0x28, modes.g0_charset);
    emit_charset(out, all || modes.g1_charset != p.g1_charset, 0x29, modes.g1_charset);
    emit_shift(out, all || modes.active_charset != p.active_charset, modes.active_charset);
    assert(out@ =~= old(out)@ + charsets_bytes(*modes, *prev));
}

/// Emit the mode sequences that changed since `prev`, or all of them.
fn emit_mode(out: &mut Vec<u8>, modes: &TerminalModes, prev: &Option<TerminalModes>)
    ensures
        final(out)@ == old(out)@ + modes_bytes(*modes, *prev),
{
    emit_keyboard(out, modes, prev);
    emit_mouse(out, modes, prev);
    emit_charsets(out, modes, prev);
    assert(out@ =~= old(out)@ + modes_bytes(*modes, *prev));
}

// What was last sent

/// Per-connection render cache for dirty tracking and mode delta.
pub struct RenderCache {
    /// The rows as they were last drawn; nothing where a row has not been drawn.
    pub last_rows: Vec<Option<Vec<Cell>>>,
    pub last_modes: Option<TerminalModes>,
    pub last_scroll_region: Option<(u16, u16)>,
    pub last_title: String,
}

/// What a cache remembers.
#[verifier::ext_equal]
pub struct CacheView {
    pub rows: Seq<Option<Seq<CellView>>>,
    pub modes: Option<TerminalModes>,
    pub scroll_region: Option<(u16, u16)>,
    pub title: Seq<char>,
}

/// What a cache entry for a row remembers.
pub open spec fn entry_view(entry: Option<Vec<Cell>>) -> Option<Seq<CellView>> {
    match entry {
        Some(row) => Some(cell::row_view(row@)),
        None => None,
    }
}

impl View for RenderCache {
    type V = CacheView;

    open spec fn view(&self) -> CacheView {
        CacheView {
            rows: self.last_rows@.map_values(|r: Option<Vec<Cell>>| entry_view(r)),
            modes: self.last_modes,
            scroll_region: self.last_scroll_region,
            title: self.last_title@,
        }
    }
}

/// The cache before anything was sent.
pub open spec fn nothing_sent() -> CacheView {
    CacheView { rows: seq![], modes: None, scroll_region: None, title: seq![] }
}

/// The cache once a grid and a title were sent.
pub open spec fn sent(g: GridView, title: Seq<char>) -> CacheView {
    CacheView {
        rows: g.cells.map_values(|row: Seq<CellView>| Some(row)),
        modes: Some(g.modes),
        scroll_region: Some((g.scroll_top as u16, g.scroll_bottom as u16)),
        title,
    }
}

impl RenderCache {
    pub fn new() -> (res: Self)
        ensures
            res@ == nothing_sent(),
    {
        RenderCache {
            last_rows: Vec::new(),
            last_modes: None,
            last_scroll_region: None,
            last_title: String::new(),
        }
    }

    /// Invalidate the cache so the next render is a full redraw.
    pub fn invalidate(&mut self)
        ensures
            final(self)@ == nothing_sent(),
    {
        self.last_rows.clear();
        self.last_modes = None;
        self.last_scroll_region = None;
        self.last_title = String::new();
    }
}

// Scrollback

/// The cursor moved to the start of the row `y`, counted from zero, with `more`
/// after it.
pub open spec fn at_row(y: int, more: Seq<u8>) -> Seq<u8> {
    "\x1b[".spec_bytes() + bytes::decimal((y + 1) as nat) + more
}

/// Lines drawn over the rows from the top of the screen.
pub open spec fn overwritten(lines: Seq<Seq<u8>>) -> Seq<u8>
    decreases lines.len(),
{
    if lines.len() == 0 {
        seq![]
    } else {
        overwritten(lines.drop_last()) + at_row(
            lines.len() - 1,
            ";1H\x1b[0m".spec_bytes() + lines.last() + "\x1b[K".spec_bytes(),
        )
    }
}

/// The rows `from..to` erased.
pub open spec fn rows_cleared(from: int, to: int) -> Seq<u8>
    decreases to - from,
{
    if to <= from {
        seq![]
    } else {
        rows_cleared(from, to - 1) + at_row(to - 1, ";1H\x1b[2K".spec_bytes())
    }
}

/// At most a screenful of lines drawn and scrolled off the top of the screen.
pub open spec fn chunk_bytes(lines: Seq<Seq<u8>>, rows: int) -> Seq<u8> {
    overwritten(lines) + rows_cleared(lines.len() as int, rows) + at_row(
        rows - 1,
        ";1H".spec_bytes(),
    ) + Seq::new(lines.len(), |i: int| 10u8)
}

/// Lines drawn and scrolled off, one screenful after the other.
pub open spec fn chunks_bytes(lines: Seq<Seq<u8>>, rows: int) -> Seq<u8>
    decreases lines.len(),
{
    if lines.len() == 0 || rows <= 0 {
        seq![]
    } else if lines.len() <= rows {
        chunk_bytes(lines, rows)
    } else {
        chunk_bytes(lines.take(rows), rows) + chunks_bytes(lines.skip(rows), rows)
    }
}

/// Lines put into the scrollback of the outer terminal, with its cursor hidden and
/// its scroll region the whole screen.
pub open spec fn scrollback_bytes(lines: Seq<Seq<u8>>, rows: int) -> Seq<u8> {
    if lines.len() == 0 {
        seq![]
    } else {
        "\x1b[?25l\x1b[r".spec_bytes() + chunks_bytes(lines, rows)
    }
}

/// Move to the start of the row `y`.
fn emit_row_start(out: &mut Vec<u8>, y: usize, after: &str)
    requires
        y < u16::MAX,
    ensures
        final(out)@ == old(out)@ + at_row(y as int, after.spec_bytes()),
{
    push_str(out, "\x1b[");
    write_u16(out, (y + 1) as u16);
    push_str(out, after);
    assert(out@ =~= old(out)@ + at_row(y as int, after.spec_bytes()));
}

/// Draw the lines `from..to` over the rows from the top of the screen.
fn emit_overwritten(out: &mut Vec<u8>, lines: &[Vec<u8>], from: usize, to: usize)
    requires
        from <= to <= lines@.len(),
        to - from <= u16::MAX,
    ensures
        final(out)@ == old(out)@ + overwritten(
            bytes::lines_view(lines@).subrange(from as int, to as int),
        ),
{
    let ghost all = bytes::lines_view(lines@);
    let mut i: usize = from;
    assert(all.subrange(from as int, from as int) =~= seq![]);
    assert(out@ =~= old(out)@ + overwritten(all.subrange(from as int, from as int)));
    while i < to
        invariant
            from <= i <= to <= lines@.len(),
            to - from <= u16::MAX,
            all == bytes::lines_view(lines@),
            out@ == old(out)@ + overwritten(all.subrange(from as int, i as int)),
        decreases to - i,
    {
        emit_row_start(out, i - from, ";1H\x1b[0m");
        out.extend_from_slice(lines[i].as_slice());
        push_str(out, "\x1b[K");
        proof {
            let part = all.subrange(from as int, i + 1);
            assert(part.drop_last() =~= all.subrange(from as int, i as int));
            assert(part.last() == lines@[i as int]@);
            assert(out@ =~= old(out)@ + overwritten(part));
        }
        i += 1;
    }
}

/// Erase the rows `from..to`.
fn emit_cleared(out: &mut Vec<u8>, from: usize, to: usize)
    requires
        to <= u16::MAX,
    ensures
        final(out)@ == old(out)@ + rows_cleared(from as int, to as int),
{
    let mut y: usize = from;
    assert(out@ =~= old(out)@ + rows_cleared(from as int, from as int));
    while y < to
        invariant
            from <= y,
            y <= to || y == from,
            to <= u16::MAX,
            out@ == old(out)@ + rows_cleared(from as int, y as int),
        decreases to - y,
    {
        emit_row_start(out, y, ";1H\x1b[2K");
        y += 1;
        assert(out@ =~= old(out)@ + rows_cleared(from as int, y as int));
    }
}

/// Write `n` line feeds.
fn emit_newlines(out: &mut Vec<u8>, n: usize)
    ensures
        final(out)@ == old(out)@ + Seq::new(n as nat, |i: int| 10u8),
{
    let mut i: usize = 0;
    while i < n
        invariant
            i <= n,
            out@ =~= old(out)@ + Seq::new(i as nat, |i: int| 10u8),
        decreases n - i,
    {
        out.push(10);
        i += 1;
    }
}

/// Draw the lines `from..to` and scroll them off.
fn emit_chunk(out: &mut Vec<u8>, lines: &[Vec<u8>], from: usize, to: usize, rows: usize)
    requires
        from <= to <= lines@.len(),
        to - from <= rows,
        1 <= rows <= u16::MAX,
    ensures
        final(out)@ == old(out)@ + chunk_bytes(
            bytes::lines_view(lines@).subrange(from as int, to as int),
            rows as int,
        ),
{
    emit_overwritten(out, lines, from, to);
    // Nothing stale is left below a short chunk
    emit_cleared(out, to - from, rows);
    emit_row_start(out, rows - 1, ";1H");
    emit_newlines(out, to - from);
    assert(out@ =~= old(out)@ + chunk_bytes(
        bytes::lines_view(lines@).subrange(from as int, to as int),
        rows as int,
    ));
}

/// Put lines into the scrollback of the outer terminal.
fn emit_scrollback(out: &mut Vec<u8>, lines: &[Vec<u8>], rows: usize)
    requires
        1 <= rows <= u16::MAX,
    ensures
        final(out)@ == old(out)@ + scrollback_bytes(bytes::lines_view(lines@), rows as int),
{
    if lines.len() == 0 {
        assert(out@ =~= old(out)@ + scrollback_bytes(bytes::lines_view(lines@), rows as int));
        return;
    }
    let ghost all = bytes::lines_view(lines@);
    push_str(out, "\x1b[?25l\x1b[r");
    let ghost start = out@;
    let mut from: usize = 0;
    assert(all.skip(0) =~= all);
    while from < lines.len()
        invariant
            from <= lines@.len(),
            1 <= rows <= u16::MAX,
            all == bytes::lines_view(lines@),
            out@ + chunks_bytes(all.skip(from as int), rows as int) =~= start + chunks_bytes(
                all,
                rows as int,
            ),
        decreases lines@.len() - from,
    {
        let to: usize = if lines.len() - from <= rows {
            lines.len()
        } else {
            from + rows
        };
        let ghost rest = all.skip(from as int);
        emit_chunk(out, lines, from, to, rows);
        proof {
            if rest.len() <= rows {
                assert(all.subrange(from as int, to as int) =~= rest);
                assert(all.skip(to as int) =~= seq![]);
            } else {
                assert(all.subrange(from as int, to as int) =~= rest.take(rows as int));
                assert(all.skip(to as int) =~= rest.skip(rows as int));
            }
        }
        from = to;
    }
    assert(all.skip(from as int) =~= seq![]);
    assert(out@ =~= old(out)@ + scrollback_bytes(all, rows as int));
}

// Frames

/// A row drawn on screen: its cells, and the rest of the row erased.
pub open spec fn row_bytes(y: int, row: Seq<CellView>) -> Seq<u8> {
    at_row(
        y,
        ";1H".spec_bytes() + cells_bytes(written(row)).0 + "\x1b[0m\x1b[K".spec_bytes(),
    )
}

/// Whether the row `y` is on screen already, so that it need not be drawn.
pub open spec fn row_is_current(
    cells: Seq<Seq<CellView>>,
    drawn: Seq<Option<Seq<CellView>>>,
    y: int,
) -> bool {
    y < drawn.len() && drawn[y] == Some(cells[y])
}

/// The first `n` rows drawn, but for those that are on screen already.
pub open spec fn rows_bytes(
    cells: Seq<Seq<CellView>>,
    drawn: Seq<Option<Seq<CellView>>>,
    n: int,
) -> Seq<u8>
    decreases n,
{
    if n <= 0 {
        seq![]
    } else {
        rows_bytes(cells, drawn, n - 1) + sent_if(
            !row_is_current(cells, drawn, n - 1),
            row_bytes(n - 1, cells[n - 1]),
        )
    }
}

/// The scroll region, counted from one.
pub open spec fn region_bytes(g: GridView) -> Seq<u8> {
    "\x1b[".spec_bytes() + bytes::decimal((g.scroll_top + 1) as nat) + ";".spec_bytes()
        + bytes::decimal((g.scroll_bottom + 1) as nat) + "r".spec_bytes()
}

/// The cursor position, counted from one.
pub open spec fn cursor_bytes(g: GridView) -> Seq<u8> {
    "\x1b[".spec_bytes() + bytes::decimal((g.cursor_y + 1) as nat) + ";".spec_bytes()
        + bytes::decimal((g.cursor_x + 1) as nat) + "H".spec_bytes()
}

/// The bytes of a text without its control characters.
pub open spec fn printable(text: Seq<u8>) -> Seq<u8>
    decreases text.len(),
{
    if text.len() == 0 {
        seq![]
    } else if text.last() >= 0x20 && text.last() != 0x7f {
        printable(text.drop_last()).push(text.last())
    } else {
        printable(text.drop_last())
    }
}

/// The window title, which cannot end the sequence that sets it.
pub open spec fn title_bytes(title: Seq<char>) -> Seq<u8> {
    "\x1b]2;".spec_bytes() + printable(encode_utf8(title)) + seq![7u8]
}

/// The start of a frame: output is held back and the cursor hidden. A full frame
/// resets the style and clears the screen.
pub open spec fn frame_start(full: bool) -> Seq<u8> {
    "\x1b[?2026h".spec_bytes() + "\x1b[?25l".spec_bytes() + sent_if(
        full,
        "\x1b[0m\x1b[2J\x1b[H".spec_bytes(),
    )
}

/// The end of a frame: a visible cursor is shown again, and output released.
pub open spec fn frame_end(cursor_visible: bool) -> Seq<u8> {
    sent_if(cursor_visible, "\x1b[?25h".spec_bytes()) + "\x1b[?2026l".spec_bytes()
}

/// What a frame says besides its rows: scroll region, cursor, modes and title, as
/// far as they differ from what was last sent. The cursor comes behind the scroll
/// region, which moves it.
pub open spec fn frame_state(g: GridView, title: Seq<char>, last: CacheView) -> Seq<u8> {
    sent_if(
        last.scroll_region != Some((g.scroll_top as u16, g.scroll_bottom as u16)),
        region_bytes(g),
    ) + cursor_bytes(g) + modes_bytes(g.modes, last.modes) + sent_if(
        title != last.title,
        title_bytes(title),
    )
}

/// A frame: a grid and a title drawn over what was last sent.
pub open spec fn frame_bytes(
    g: GridView,
    title: Seq<char>,
    full: bool,
    last: CacheView,
) -> Seq<u8> {
    let known = if full {
        nothing_sent()
    } else {
        last
    };
    frame_start(full) + rows_bytes(g.cells, known.rows, g.rows) + frame_state(g, title, known)
        + frame_end(g.cursor_visible)
}

/// Draw the row `y`.
fn emit_row(out: &mut Vec<u8>, y: usize, row: &Vec<Cell>)
    requires
        y < u16::MAX,
    ensures
        final(out)@ == old(out)@ + row_bytes(y as int, cell::row_view(row@)),
{
    emit_row_start(out, y, ";1H");
    let n: usize = write_len(row.as_slice());
    write_cells(out, row.as_slice(), n);
    push_str(out, "\x1b[0m\x1b[K");
    assert(out@ =~= old(out)@ + row_bytes(y as int, cell::row_view(row@)));
}

/// Draw the rows that are not on screen already, and remember them.
fn emit_rows(out: &mut Vec<u8>, rows: &Vec<Vec<Cell>>, drawn: &mut Vec<Option<Vec<Cell>>>)
    requires
        rows@.len() <= u16::MAX,
    ensures
        final(out)@ == old(out)@ + rows_bytes(
            cell::rows_view(rows@),
            old(drawn)@.map_values(|r: Option<Vec<Cell>>| entry_view(r)),
            rows@.len() as int,
        ),
        final(drawn)@.map_values(|r: Option<Vec<Cell>>| entry_view(r)) == cell::rows_view(
            rows@,
        ).map_values(|row: Seq<CellView>| Some(row)),
{
    let ghost cells = cell::rows_view(rows@);
    let ghost before = drawn@.map_values(|r: Option<Vec<Cell>>| entry_view(r));
    drawn.truncate(rows.len());
    while drawn.len() < rows.len()
        invariant
            drawn@.len() <= rows@.len(),
            drawn@.len() >= before.len() || drawn@.len() == rows@.len(),
            forall|k: int|
                0 <= k < drawn@.len() ==> entry_view(#[trigger] drawn@[k]) == (if k < before.len() {
                    before[k]
                } else {
                    None
                }),
        decreases rows@.len() - drawn@.len(),
    {
        drawn.push(None);
    }
    let mut y: usize = 0;
    assert(out@ =~= old(out)@ + rows_bytes(cells, before, 0));
    while y < rows.len()
        invariant
            y <= rows@.len() <= u16::MAX,
            drawn@.len() == rows@.len(),
            cells == cell::rows_view(rows@),
            out@ == old(out)@ + rows_bytes(cells, before, y as int),
            forall|k: int| 0 <= k < y ==> entry_view(#[trigger] drawn@[k]) == Some(cells[k]),
            forall|k: int|
                y <= k < drawn@.len() ==> entry_view(#[trigger] drawn@[k]) == (if k < before.len() {
                    before[k]
                } else {
                    None
                }),
        decreases rows@.len() - y,
    {
        let row = &rows[y];
        assert(cells[y as int] == cell::row_view(row@));
        let current = match &drawn[y] {
            Some(last) => same_row(last, row),
            None => false,
        };
        assert(current == row_is_current(cells, before, y as int));
        if !current {
            emit_row(out, y, row);
            drawn[y] = Some(clone_row(row));
        }
        assert(out@ =~= old(out)@ + rows_bytes(cells, before, y + 1));
        y += 1;
    }
    assert(drawn@.map_values(|r: Option<Vec<Cell>>| entry_view(r)) =~= cells.map_values(
        |row: Seq<CellView>| Some(row),
    ));
}

/// Emit a pair of numbers between a prefix and a final byte.
fn emit_pair(out: &mut Vec<u8>, a: u16, b: u16, last: &str)
    ensures
        final(out)@ == old(out)@ + ("\x1b[".spec_bytes() + bytes::decimal(a as nat)
            + ";".spec_bytes() + bytes::decimal(b as nat) + last.spec_bytes()),
{
    push_str(out, "\x1b[");
    write_u16(out, a);
    push_str(out, ";");
    write_u16(out, b);
    push_str(out, last);
    assert(out@ =~= old(out)@ + ("\x1b[".spec_bytes() + bytes::decimal(a as nat)
        + ";".spec_bytes() + bytes::decimal(b as nat) + last.spec_bytes()));
}

/// Emit the window title without its control characters.
fn emit_title(out: &mut Vec<u8>, title: &str)
    ensures
        final(out)@ == old(out)@ + title_bytes(title@),
{
    push_str(out, "\x1b]2;");
    let ghost start = out@;
    let text: &[u8] = title.as_bytes();
    let mut i: usize = 0;
    assert(text@.take(0) =~= seq![]);
    while i < text.len()
        invariant
            i <= text@.len(),
            out@ =~= start + printable(text@.take(i as int)),
        decreases text@.len() - i,
    {
        let b: u8 = text[i];
        assert(text@.take(i + 1).drop_last() =~= text@.take(i as int));
        assert(text@.take(i + 1).last() == b);
        if b >= 0x20 && b != 0x7f {
            out.push(b);
        }
        i += 1;
    }
    assert(text@.take(i as int) =~= text@);
    out.push(7);
    assert(out@ =~= old(out)@ + title_bytes(title@));
}

/// Emit scroll region, cursor, modes and title, and remember them.
fn emit_state(out: &mut Vec<u8>, grid: &Grid, title: &str, cache: &mut RenderCache)
    requires
        grid@.wf(),
    ensures
        final(out)@ == old(out)@ + frame_state(grid@, title@, old(cache)@),
        final(cache)@.rows == old(cache)@.rows,
        final(cache)@.modes == sent(grid@, title@).modes,
        final(cache)@.scroll_region == sent(grid@, title@).scroll_region,
        final(cache)@.title == title@,
{
    let ghost last = cache@;
    let region: (u16, u16) = (grid.scroll_top, grid.scroll_bottom);
    let new_region = match cache.last_scroll_region {
        Some((top, bottom)) => top != region.0 || bottom != region.1,
        None => true,
    };
    if new_region {
        emit_pair(out, grid.scroll_top + 1, grid.scroll_bottom + 1, "r");
    }
    let ghost part1 = sent_if(
        last.scroll_region != Some((grid@.scroll_top as u16, grid@.scroll_bottom as u16)),
        region_bytes(grid@),
    );
    assert(out@ =~= old(out)@ + part1);
    cache.last_scroll_region = Some(region);
    emit_pair(out, grid.cursor_y + 1, grid.cursor_x + 1, "H");
    emit_mode(out, &grid.modes, &cache.last_modes);
    cache.last_modes = Some(grid.modes);
    let ghost upto = out@;
    assert(upto == old(out)@ + part1 + cursor_bytes(grid@) + modes_bytes(grid@.modes, last.modes));
    let owned: String = title.to_owned();
    if owned != cache.last_title {
        emit_title(out, title);
    }
    cache.last_title = owned;
    let ghost part4 = sent_if(title@ != last.title, title_bytes(title@));
    assert(out@ =~= upto + part4);
    proof {
        bytes::lemma_append4(
            old(out)@,
            part1,
            cursor_bytes(grid@),
            modes_bytes(grid@.modes, last.modes),
            part4,
        );
    }
}

/// Render the full screen grid as ANSI bytes.
/// If `full` is true, clears screen first (used on initial attach).
/// Otherwise uses dirty tracking to skip unchanged rows.
pub fn render_screen(grid: &Grid, title: &str, full: bool, cache: &mut RenderCache) -> (res: Vec<
    u8,
>)
    requires
        grid@.wf(),
    ensures
        res@ == frame_bytes(grid@, title@, full, old(cache)@),
        final(cache)@ == sent(grid@, title@),
{
    let out = render_screen_impl(grid, title, &[], full, cache);
    assert(out@ =~= frame_bytes(grid@, title@, full, old(cache)@));
    out
}

/// Render the screen with scrollback lines injected into the real terminal's
/// native scrollback buffer.
///
/// Scrollback lines are drawn over the visible rows and scrolled off the top, a
/// screenful at a time, before the synchronized block that redraws the screen:
/// terminals that apply such a block at once would not move lines that scroll
/// inside it to their scrollback.
pub fn render_screen_with_scrollback(
    grid: &Grid,
    title: &str,
    scrollback: &[Vec<u8>],
    cache: &mut RenderCache,
) -> (res: Vec<u8>)
    requires
        grid@.wf(),
    ensures
        res@ == scrollback_bytes(bytes::lines_view(scrollback@), grid@.rows) + frame_bytes(
            grid@,
            title@,
            true,
            old(cache)@,
        ),
        final(cache)@ == sent(grid@, title@),
{
    render_screen_impl(grid, title, scrollback, true, cache)
}

/// Render a frame, with lines for the scrollback of the outer terminal before it.
/// Such lines are drawn over the screen, so the frame behind them is a full one.
pub fn render_screen_impl(
    grid: &Grid,
    title: &str,
    scrollback: &[Vec<u8>],
    full: bool,
    cache: &mut RenderCache,
) -> (res: Vec<u8>)
    requires
        grid@.wf(),
    ensures
        res@ == scrollback_bytes(bytes::lines_view(scrollback@), grid@.rows) + frame_bytes(
            grid@,
            title@,
            full || scrollback@.len() > 0,
            old(cache)@,
        ),
        final(cache)@ == sent(grid@, title@),
{
    let mut out: Vec<u8> = Vec::new();
    emit_scrollback(&mut out, scrollback, grid.rows as usize);
    emit_frame(&mut out, grid, title, full || scrollback.len() > 0, cache);
    assert(out@ =~= scrollback_bytes(bytes::lines_view(scrollback@), grid@.rows) + frame_bytes(
        grid@,
        title@,
        full || scrollback@.len() > 0,
        old(cache)@,
    ));
    out
}

/// Append a frame to `out`.
fn emit_frame(out: &mut Vec<u8>, grid: &Grid, title: &str, full: bool, cache: &mut RenderCache)
    requires
        grid@.wf(),
    ensures
        final(out)@ == old(out)@ + frame_bytes(grid@, title@, full, old(cache)@),
        final(cache)@ == sent(grid@, title@),
{
    push_str(out, "\x1b[?2026h");
    push_str(out, "\x1b[?25l");
    if full {
        // The style is reset first: the screen is cleared in the background color
        push_str(out, "\x1b[0m\x1b[2J\x1b[H");
        cache.invalidate();
    }
    let ghost known = cache@;
    assert(out@ =~= old(out)@ + frame_start(full));
    emit_rows(out, grid.visible_rows(), &mut cache.last_rows);
    emit_state(out, grid, title, cache);
    let ghost upto = out@;
    if grid.cursor_visible {
        push_str(out, "\x1b[?25h");
    }
    push_str(out, "\x1b[?2026l");
    assert(out@ =~= upto + frame_end(grid@.cursor_visible));
    proof {
        bytes::lemma_append4(
            old(out)@,
            frame_start(full),
            rows_bytes(grid@.cells, known.rows, grid@.rows),
            frame_state(grid@, title@, known),
            frame_end(grid@.cursor_visible),
        );
    }
}

// Laws

proof fn lemma_rows_up_to_date(
    cells: Seq<Seq<CellView>>,
    drawn: Seq<Option<Seq<CellView>>>,
    n: int,
)
    requires
        0 <= n <= cells.len(),
        forall|y: int| 0 <= y < n ==> #[trigger] row_is_current(cells, drawn, y),
    ensures
        rows_bytes(cells, drawn, n) == Seq::<u8>::empty(),
    decreases n,
{
    if n > 0 {
        lemma_rows_up_to_date(cells, drawn, n - 1);
        assert(row_is_current(cells, drawn, n - 1));
        assert(rows_bytes(cells, drawn, n) =~= seq![]);
    }
}

/// A grid that was sent is not sent again: the next frame for it holds no row, no
/// scroll region, no mode and no title, only the cursor.
pub proof fn law_unchanged_frame(g: GridView, title: Seq<char>)
    requires
        g.wf(),
    ensures
        frame_bytes(g, title, false, sent(g, title)) == frame_start(false) + cursor_bytes(g)
            + frame_end(g.cursor_visible),
{
    let last = sent(g, title);
    assert forall|y: int| 0 <= y < g.rows implies #[trigger] row_is_current(
        g.cells,
        last.rows,
        y,
    ) by {
        assert(last.rows[y] == Some(g.cells[y]));
    }
    lemma_rows_up_to_date(g.cells, last.rows, g.rows);
    assert(modes_bytes(g.modes, last.modes) =~= seq![]);
    assert(frame_bytes(g, title, false, last) =~= frame_start(false) + cursor_bytes(g) + frame_end(
        g.cursor_visible,
    ));
}

proof fn lemma_one_row_changed(cells: Seq<Seq<CellView>>, y: int, row: Seq<CellView>, n: int)
    requires
        0 <= y < cells.len(),
        0 <= n <= cells.len(),
        row != cells[y],
    ensures
        rows_bytes(
            cells.update(y, row),
            cells.map_values(|row: Seq<CellView>| Some(row)),
            n,
        ) == sent_if(y < n, row_bytes(y, row)),
    decreases n,
{
    if n > 0 {
        lemma_one_row_changed(cells, y, row, n - 1);
        let drawn = cells.map_values(|row: Seq<CellView>| Some(row));
        let now = cells.update(y, row);
        assert(drawn[n - 1] == Some(cells[n - 1]));
        assert(row_is_current(now, drawn, n - 1) == (n - 1 != y));
        assert(rows_bytes(now, drawn, n) =~= sent_if(y < n, row_bytes(y, row)));
    }
}

/// Of a grid of which one row changed since it was sent, that row alone is drawn.
pub proof fn law_changed_row_is_drawn(g: GridView, title: Seq<char>, y: int, row: Seq<CellView>)
    requires
        g.wf(),
        0 <= y < g.rows,
        row != g.cells[y],
    ensures
        frame_bytes(g.with_row(y, row), title, false, sent(g, title)) == frame_start(false)
            + row_bytes(y, row) + cursor_bytes(g) + frame_end(g.cursor_visible),
{
    let last = sent(g, title);
    let now = g.with_row(y, row);
    lemma_one_row_changed(g.cells, y, row, g.rows);
    assert(modes_bytes(g.modes, last.modes) =~= seq![]);
    assert(frame_bytes(now, title, false, last) =~= frame_start(false) + row_bytes(y, row)
        + cursor_bytes(g) + frame_end(g.cursor_visible));
}

// Mode changes

/// What each attribute of the modes is set by, one after the other.
pub open spec fn mode_parts(m: TerminalModes) -> Seq<Seq<u8>> {
    seq![
        shape_bytes(m.cursor_shape),
        dec_mode(1, m.cursor_key_mode),
        dec_mode(7, m.autowrap_mode),
        dec_mode(2004, m.bracketed_paste),
        dec_mode(1000, m.mouse_mode == 1000),
        dec_mode(1002, m.mouse_mode == 1002),
        dec_mode(1003, m.mouse_mode == 1003),
        encoding_bytes(m.mouse_encoding),
        dec_mode(1004, m.focus_reporting),
        keypad_bytes(m.keypad_app_mode),
        charset_bytes(0x28, m.g0_charset),
        charset_bytes(0x29, m.g1_charset),
        shift_bytes(m.active_charset),
    ]
}

/// Whether two settings of the modes differ in each of these attributes.
pub open spec fn mode_changes(m: TerminalModes, p: TerminalModes) -> Seq<bool> {
    seq![
        m.cursor_shape != p.cursor_shape,
        m.cursor_key_mode != p.cursor_key_mode,
        m.autowrap_mode != p.autowrap_mode,
        m.bracketed_paste != p.bracketed_paste,
        (m.mouse_mode == 1000) != (p.mouse_mode == 1000),
        (m.mouse_mode == 1002) != (p.mouse_mode == 1002),
        (m.mouse_mode == 1003) != (p.mouse_mode == 1003),
        m.mouse_encoding != p.mouse_encoding,
        m.focus_reporting != p.focus_reporting,
        m.keypad_app_mode != p.keypad_app_mode,
        m.g0_charset != p.g0_charset,
        m.g1_charset != p.g1_charset,
        m.active_charset != p.active_charset,
    ]
}

/// Of texts, the first `n`, one after the other, but for those that are not needed.
pub open spec fn needed_parts(parts: Seq<Seq<u8>>, needed: Seq<bool>, n: int) -> Seq<u8>
    decreases n,
{
    if n <= 0 {
        seq![]
    } else {
        needed_parts(parts, needed, n - 1) + sent_if(needed[n - 1], parts[n - 1])
    }
}

#[verifier::rlimit(50)]
proof fn lemma_needed_parts(parts: Seq<Seq<u8>>, needed: Seq<bool>)
    requires
        parts.len() == 13,
        needed.len() == 13,
    ensures
        needed_parts(parts, needed, 13) == (sent_if(needed[0], parts[0]) + sent_if(
            needed[1],
            parts[1],
        ) + sent_if(needed[2], parts[2]) + sent_if(needed[3], parts[3])) + (sent_if(
            needed[4],
            parts[4],
        ) + sent_if(needed[5], parts[5]) + sent_if(needed[6], parts[6]) + sent_if(
            needed[7],
            parts[7],
        ) + sent_if(needed[8], parts[8])) + (sent_if(needed[9], parts[9]) + sent_if(
            needed[10],
            parts[10],
        ) + sent_if(needed[11], parts[11]) + sent_if(needed[12], parts[12])),
{
    let a = needed_parts(parts, needed, 4);
    assert(a =~= sent_if(needed[0], parts[0]) + sent_if(needed[1], parts[1]) + sent_if(
        needed[2],
        parts[2],
    ) + sent_if(needed[3], parts[3])) by {
        reveal_with_fuel(needed_parts, 5);
    }
    let b = sent_if(needed[4], parts[4]) + sent_if(needed[5], parts[5]) + sent_if(
        needed[6],
        parts[6],
    ) + sent_if(needed[7], parts[7]) + sent_if(needed[8], parts[8]);
    assert(needed_parts(parts, needed, 9) =~= a + b) by {
        reveal_with_fuel(needed_parts, 6);
    }
    let c = sent_if(needed[9], parts[9]) + sent_if(needed[10], parts[10]) + sent_if(
        needed[11],
        parts[11],
    ) + sent_if(needed[12], parts[12]);
    assert(needed_parts(parts, needed, 13) =~= a + b + c) by {
        reveal_with_fuel(needed_parts, 5);
    }
}

#[verifier::rlimit(50)]
proof fn lemma_parts_are_texts(m: TerminalModes, i: int)
    requires
        0 <= i < 13,
    ensures
        mode_parts(m)[i].len() > 0,
{
    reveal_strlit("\x1b[?");
    reveal_strlit("\x1b[");
    reveal_strlit("\x1b=");
    reveal_strlit("\x1b>");
    reveal_strlit("\x1b[?1005l\x1b[?1006h");
    reveal_strlit("\x1b[?1006l\x1b[?1005h");
    reveal_strlit("\x1b[?1006l\x1b[?1005l");
    is_ascii_chars_encode_utf8("\x1b[?"@);
    is_ascii_chars_encode_utf8("\x1b["@);
    is_ascii_chars_encode_utf8("\x1b="@);
    is_ascii_chars_encode_utf8("\x1b>"@);
    is_ascii_chars_encode_utf8("\x1b[?1005l\x1b[?1006h"@);
    is_ascii_chars_encode_utf8("\x1b[?1006l\x1b[?1005h"@);
    is_ascii_chars_encode_utf8("\x1b[?1006l\x1b[?1005l"@);
}

proof fn lemma_no_part_needed(parts: Seq<Seq<u8>>, needed: Seq<bool>, n: int)
    requires
        0 <= n <= parts.len(),
        parts.len() == needed.len(),
        forall|i: int| 0 <= i < n ==> (#[trigger] parts[i]).len() > 0,
    ensures
        needed_parts(parts, needed, n).len() == 0 <==> (forall|i: int|
            0 <= i < n ==> !#[trigger] needed[i]),
    decreases n,
{
    if n > 0 {
        lemma_no_part_needed(parts, needed, n - 1);
        assert(parts[n - 1].len() > 0);
        if forall|i: int| 0 <= i < n - 1 ==> !#[trigger] needed[i] {
            if !needed[n - 1] {
                assert forall|i: int| 0 <= i < n implies !#[trigger] needed[i] by {}
            }
        }
    }
}

#[verifier::rlimit(50)]
proof fn lemma_all_modes_sent(m: TerminalModes)
    ensures
        modes_bytes(m, None) == needed_parts(mode_parts(m), Seq::new(13, |i: int| true), 13),
{
    lemma_needed_parts(mode_parts(m), Seq::new(13, |i: int| true));
}

#[verifier::rlimit(50)]
proof fn lemma_keyboard_parts(m: TerminalModes, p: TerminalModes, t: Seq<Seq<u8>>, c: Seq<bool>)
    requires
        t == mode_parts(m),
        c == mode_changes(m, p),
    ensures
        keyboard_bytes(m, Some(p)) == sent_if(c[0], t[0]) + sent_if(
            c[1],
            t[1],
        ) + sent_if(
            c[2],
            t[2],
        ) + sent_if(
            c[3],
            t[3],
        ),
{
    assert(t[0] == shape_bytes(m.cursor_shape));
    assert(t[1] == dec_mode(1, m.cursor_key_mode));
    assert(t[2] == dec_mode(7, m.autowrap_mode));
    assert(t[3] == dec_mode(2004, m.bracketed_paste));
}

#[verifier::rlimit(50)]
proof fn lemma_mouse_parts(m: TerminalModes, p: TerminalModes, t: Seq<Seq<u8>>, c: Seq<bool>)
    requires
        t == mode_parts(m),
        c == mode_changes(m, p),
    ensures
        mouse_bytes(m, Some(p)) == sent_if(c[4], t[4]) + sent_if(
            c[5],
            t[5],
        ) + sent_if(
            c[6],
            t[6],
        ) + sent_if(
            c[7],
            t[7],
        ) + sent_if(
            c[8],
            t[8],
        ),
{
    assert(t[4] == dec_mode(1000, m.mouse_mode == 1000));
    assert(t[5] == dec_mode(1002, m.mouse_mode == 1002));
    assert(t[6] == dec_mode(1003, m.mouse_mode == 1003));
    assert(t[7] == encoding_bytes(m.mouse_encoding));
    assert(t[8] == dec_mode(1004, m.focus_reporting));
}

#[verifier::rlimit(50)]
proof fn lemma_charsets_parts(m: TerminalModes, p: TerminalModes, t: Seq<Seq<u8>>, c: Seq<bool>)
    requires
        t == mode_parts(m),
        c == mode_changes(m, p),
    ensures
        charsets_bytes(m, Some(p)) == sent_if(c[9], t[9]) + sent_if(
            c[10],
            t[10],
        ) + sent_if(
            c[11],
            t[11],
        ) + sent_if(
            c[12],
            t[12],
        ),
{
    assert(t[9] == keypad_bytes(m.keypad_app_mode));
    assert(t[10] == charset_bytes(0x28, m.g0_charset));
    assert(t[11] == charset_bytes(0x29, m.g1_charset));
    assert(t[12] == shift_bytes(m.active_charset));
}

#[verifier::rlimit(50)]
proof fn lemma_changed_modes_sent(m: TerminalModes, p: TerminalModes)
    ensures
        modes_bytes(m, Some(p)) == needed_parts(mode_parts(m), mode_changes(m, p), 13),
{
    let (t, c) = (mode_parts(m), mode_changes(m, p));
    lemma_needed_parts(t, c);
    lemma_keyboard_parts(m, p, t, c);
    lemma_mouse_parts(m, p, t, c);
    lemma_charsets_parts(m, p, t, c);
}

#[verifier::rlimit(50)]
proof fn lemma_no_mode_changed(m: TerminalModes, p: TerminalModes)
    requires
        mouse_known(m),
        mouse_known(p),
    ensures
        m == p <==> (forall|i: int| 0 <= i < 13 ==> !#[trigger] mode_changes(m, p)[i]),
{
    let changes = mode_changes(m, p);
    if forall|i: int| 0 <= i < 13 ==> !#[trigger] changes[i] {
        assert(!changes[0] && !changes[1] && !changes[2] && !changes[3] && !changes[4]);
        assert(!changes[5] && !changes[6] && !changes[7] && !changes[8] && !changes[9]);
        assert(!changes[10] && !changes[11] && !changes[12]);
    }
}

/// What is sent for modes over earlier ones is what sets the attributes that differ, in
/// the order in which all of them are set; and where the mouse settings are among
/// those there are, nothing is sent if and only if the modes are the same.
#[verifier::rlimit(50)]
pub proof fn law_modes_send_changes(m: TerminalModes, p: TerminalModes)
    ensures
        modes_bytes(m, None) == needed_parts(mode_parts(m), Seq::new(13, |i: int| true), 13),
        modes_bytes(m, Some(p)) == needed_parts(mode_parts(m), mode_changes(m, p), 13),
        mouse_known(m) && mouse_known(p) ==> (modes_bytes(m, Some(p)).len() == 0 <==> m == p),
{
    let parts = mode_parts(m);
    lemma_all_modes_sent(m);
    lemma_changed_modes_sent(m, p);
    assert(mouse_known(m) && mouse_known(p) ==> (needed_parts(parts, mode_changes(m, p), 13).len()
        == 0 <==> m == p)) by {
        assert forall|i: int| 0 <= i < 13 implies (#[trigger] parts[i]).len() > 0 by {
            lemma_parts_are_texts(m, i);
        }
        lemma_no_part_needed(parts, mode_changes(m, p), 13);
        if mouse_known(m) && mouse_known(p) {
            lemma_no_mode_changed(m, p);
        }
    }
}

/// A full frame draws every row, whatever was sent before: it is the same over any two
/// caches.
pub proof fn law_full_frame_is_complete(
    g: GridView,
    title: Seq<char>,
    first: CacheView,
    second: CacheView,
)
    ensures
        frame_bytes(g, title, true, first) == frame_bytes(g, title, true, second),
        frame_bytes(g, title, true, first) == frame_bytes(g, title, true, nothing_sent()),
        forall|y: int| !#[trigger] row_is_current(g.cells, nothing_sent().rows, y) || y < 0,
{
}

/// Every frame is one synchronized update: it starts by holding back output and
/// ends by releasing it.
pub proof fn law_frame_is_synchronized(
    g: GridView,
    title: Seq<char>,
    full: bool,
    last: CacheView,
)
    ensures
        "\x1b[?2026h".spec_bytes().is_prefix_of(frame_bytes(g, title, full, last)),
        "\x1b[?2026l".spec_bytes().is_suffix_of(frame_bytes(g, title, full, last)),
{
    let known = if full {
        nothing_sent()
    } else {
        last
    };
    lemma_enclosed(
        "\x1b[?2026h".spec_bytes(),
        "\x1b[?25l".spec_bytes(),
        sent_if(full, "\x1b[0m\x1b[2J\x1b[H".spec_bytes()),
        rows_bytes(g.cells, known.rows, g.rows),
        frame_state(g, title, known),
        sent_if(g.cursor_visible, "\x1b[?25h".spec_bytes()),
        "\x1b[?2026l".spec_bytes(),
    );
}

proof fn lemma_enclosed(
    a: Seq<u8>,
    b: Seq<u8>,
    c: Seq<u8>,
    d: Seq<u8>,
    e: Seq<u8>,
    f: Seq<u8>,
    g: Seq<u8>,
)
    ensures
        a.is_prefix_of(a + b + c + d + e + (f + g)),
        g.is_suffix_of(a + b + c + d + e + (f + g)),
{
    let all = a + b + c + d + e + (f + g);
    assert(all =~= a + (b + c + d + e + f + g));
    assert(all.take(a.len() as int) =~= a);
    assert(all =~= (a + b + c + d + e + f) + g);
    assert(all.skip(all.len() - g.len()) =~= g);
}

/// The text of a title sequence holds no control character.
pub proof fn law_title_is_sanitized(text: Seq<u8>)
    ensures
        forall|i: int|
            0 <= i < printable(text).len() ==> #[trigger] printable(text)[i] >= 0x20 && printable(
                text,
            )[i] != 0x7f,
    decreases text.len(),
{
    if text.len() > 0 {
        law_title_is_sanitized(text.drop_last());
        assert forall|i: int| 0 <= i < printable(text).len() implies #[trigger] printable(text)[i]
            >= 0x20 && printable(text)[i] != 0x7f by {
            let before = printable(text.drop_last());
            if i < before.len() {
                assert(printable(text)[i] == before[i]);
            }
        }
    }
}

} // verus!
