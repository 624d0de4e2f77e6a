//! What programs set and ask: modes, character sets, titles, and reports.

use vstd::prelude::*;
use vstd::string::*;
use vstd::utf8::*;

use crate::bytes;

use super::grid;
use super::grid::{Charset, CursorShape, GridView, TerminalModes};
use super::model;
use super::model::{EventView, ScreenView};
use super::motion;

verus! {

// Modes

/// The terminal with other modes.
pub open spec fn with(s: ScreenView, modes: TerminalModes) -> ScreenView {
    ScreenView { grid: GridView { modes, ..s.grid }, ..s }
}

/// What setting each private mode that is a flag or a choice does, and resetting it: a
/// choice of mouse tracking or encoding replaces another, and resetting any of them leaves
/// none. Unknown modes do nothing.
pub proof fn law_private_mode(s: ScreenView, mode: u16)
    ensures
        ({
            let m = s.grid.modes;
            let on = s.performed(
                EventView::Csi { params: seq![seq![mode]], intermediates: seq![0x3f], action: 'h' },
            );
            let off = s.performed(
                EventView::Csi { params: seq![seq![mode]], intermediates: seq![0x3f], action: 'l' },
            );
            &&& mode == 1 ==> on == with(s, TerminalModes { cursor_key_mode: true, ..m }) && off
                == with(s, TerminalModes { cursor_key_mode: false, ..m })
            &&& mode == 7 ==> on == with(s, TerminalModes { autowrap_mode: true, ..m }) && off
                == with(s, TerminalModes { autowrap_mode: false, ..m })
            &&& mode == 1004 ==> on == with(s, TerminalModes { focus_reporting: true, ..m }) && off
                == with(s, TerminalModes { focus_reporting: false, ..m })
            &&& mode == 2004 ==> on == with(s, TerminalModes { bracketed_paste: true, ..m }) && off
                == with(s, TerminalModes { bracketed_paste: false, ..m })
            &&& mode == 1000 ==> on == with(s, TerminalModes { mouse_mode: 1000, ..m })
            &&& mode == 1002 ==> on == with(s, TerminalModes { mouse_mode: 1002, ..m })
            &&& mode == 1003 ==> on == with(s, TerminalModes { mouse_mode: 1003, ..m })
            &&& mode == 1000 || mode == 1002 || mode == 1003 ==> off == with(
                s,
                TerminalModes { mouse_mode: 0, ..m },
            )
            &&& mode == 1005 ==> on == with(s, TerminalModes { mouse_encoding: 1005, ..m })
            &&& mode == 1006 ==> on == with(s, TerminalModes { mouse_encoding: 1006, ..m })
            &&& mode == 1005 || mode == 1006 ==> off == with(
                s,
                TerminalModes { mouse_encoding: 0, ..m },
            )
            &&& mode == 25 ==> on == (ScreenView {
                grid: GridView { cursor_visible: true, ..s.grid },
                ..s
            }) && off == (ScreenView { grid: GridView { cursor_visible: false, ..s.grid }, ..s })
            &&& mode != 1 && mode != 7 && mode != 25 && mode != 47 && mode != 1000 && mode != 1002
                && mode != 1003 && mode != 1004 && mode != 1005 && mode != 1006 && mode != 1047
                && mode != 1048 && mode != 1049 && mode != 2004 ==> on == s && off == s
        }),
{
    motion::lemma_sets_mode(s, mode, true);
    motion::lemma_sets_mode(s, mode, false);
}

pub(crate) proof fn lemma_sets_modes(s: ScreenView, params: Seq<Seq<u16>>, enable: bool)
    ensures
        s.performed(
            EventView::Csi {
                params,
                intermediates: seq![0x3f],
                action: if enable {
                    'h'
                } else {
                    'l'
                },
            },
        ) == s.modes_set(params, enable),
{
    reveal(ScreenView::performed);
}

/// Several private modes in one sequence are set, or reset, one after the other; of each
/// only the first number counts.
pub proof fn law_private_modes_in_order(s: ScreenView, params: Seq<Seq<u16>>, mode: Seq<u16>)
    requires
        mode.len() > 0,
    ensures
        ({
            let set = |t: ScreenView, params: Seq<Seq<u16>>|
                t.performed(
                    EventView::Csi { params, intermediates: seq![0x3f], action: 'h' },
                );
            let reset = |t: ScreenView, params: Seq<Seq<u16>>|
                t.performed(
                    EventView::Csi { params, intermediates: seq![0x3f], action: 'l' },
                );
            &&& set(s, seq![]) == s
            &&& reset(s, seq![]) == s
            &&& set(s, params.push(mode)) == set(set(s, params), seq![seq![mode[0]]])
            &&& reset(s, params.push(mode)) == reset(reset(s, params), seq![seq![mode[0]]])
        }),
{
    lemma_one_more_mode(s, params, mode, true);
    lemma_one_more_mode(s, params, mode, false);
    lemma_sets_modes(s, seq![], true);
    lemma_sets_modes(s, seq![], false);
}

proof fn lemma_one_more_mode(s: ScreenView, params: Seq<Seq<u16>>, mode: Seq<u16>, enable: bool)
    requires
        mode.len() > 0,
    ensures
        ({
            let action = if enable {
                'h'
            } else {
                'l'
            };
            s.performed(
                EventView::Csi { params: params.push(mode), intermediates: seq![0x3f], action },
            ) == s.performed(
                EventView::Csi { params, intermediates: seq![0x3f], action },
            ).performed(
                EventView::Csi { params: seq![seq![mode[0]]], intermediates: seq![0x3f], action },
            )
        }),
{
    lemma_sets_modes(s, params.push(mode), enable);
    lemma_sets_modes(s, params, enable);
    motion::lemma_sets_mode(s.modes_set(params, enable), mode[0], enable);
    assert(params.push(mode).drop_last() =~= params);
}

/// Without the question mark they are other modes, which do nothing.
pub proof fn law_other_modes(s: ScreenView, params: Seq<Seq<u16>>, intermediates: Seq<u8>)
    requires
        intermediates != seq![0x3fu8],
    ensures
        s.performed(EventView::Csi { params, intermediates, action: 'h' }) == s,
        s.performed(EventView::Csi { params, intermediates, action: 'l' }) == s,
{
    reveal(ScreenView::performed);
}

/// ESC = and ESC > choose the keypad, ESC ( and ESC ) followed by B or 0 the character set
/// of a slot. Nothing else changes.
pub proof fn law_keypad_and_character_sets(s: ScreenView)
    ensures
        ({
            let m = s.grid.modes;
            let esc = |intermediates: Seq<u8>, byte: u8|
                s.performed(EventView::Esc { intermediates, byte });
            &&& esc(seq![], 0x3d) == with(s, TerminalModes { keypad_app_mode: true, ..m })
            &&& esc(seq![], 0x3e) == with(s, TerminalModes { keypad_app_mode: false, ..m })
            &&& esc(seq![0x28], 0x42) == with(s, TerminalModes { g0_charset: Charset::Ascii, ..m })
            &&& esc(seq![0x28], 0x30) == with(
                s,
                TerminalModes { g0_charset: Charset::LineDrawing, ..m },
            )
            &&& esc(seq![0x29], 0x42) == with(s, TerminalModes { g1_charset: Charset::Ascii, ..m })
            &&& esc(seq![0x29], 0x30) == with(
                s,
                TerminalModes { g1_charset: Charset::LineDrawing, ..m },
            )
        }),
{
    motion::lemma_escapes(s, seq![], 0x3d);
    motion::lemma_escapes(s, seq![], 0x3e);
    lemma_designates(s, 0x28, 0x42);
    lemma_designates(s, 0x28, 0x30);
    lemma_designates(s, 0x29, 0x42);
    lemma_designates(s, 0x29, 0x30);
}

proof fn lemma_designates(s: ScreenView, slot: u8, byte: u8)
    requires
        slot == 0x28 || slot == 0x29,
        byte == 0x42 || byte == 0x30,
    ensures
        ({
            let m = s.grid.modes;
            let set = if byte == 0x42 {
                Charset::Ascii
            } else {
                Charset::LineDrawing
            };
            &&& slot == 0x28 ==> s.performed(EventView::Esc { intermediates: seq![slot], byte })
                == with(s, TerminalModes { g0_charset: set, ..m })
            &&& slot == 0x29 ==> s.performed(EventView::Esc { intermediates: seq![slot], byte })
                == with(s, TerminalModes { g1_charset: set, ..m })
        }),
{
    motion::lemma_escapes(s, seq![slot], byte);
    assert(seq![slot].len() == 1);
    assert(seq![slot][0] == slot);
    assert(slot == 0x29 ==> seq![slot] != seq![0x28u8]) by {
        assert(seq![0x28u8][0] == 0x28);
    }
}

/// Escape sequences that are not known do nothing: there are ESC M, 7, 8, c, = and >, and
/// the designations of two slots.
pub proof fn law_other_escapes(s: ScreenView, intermediates: Seq<u8>, byte: u8)
    requires
        intermediates.len() == 0 ==> byte != 0x4d && byte != 0x37 && byte != 0x38 && byte != 0x63
            && byte != 0x3d && byte != 0x3e,
        intermediates == seq![0x28u8] || intermediates == seq![0x29u8] ==> byte != 0x42 && byte
            != 0x30,
    ensures
        s.performed(EventView::Esc { intermediates, byte }) == s,
{
    motion::lemma_escapes(s, intermediates, byte);
}

/// DECSCUSR chooses the shape of the cursor; a number that is no shape, the default one.
pub proof fn law_cursor_shape(s: ScreenView, n: u16)
    requires
        n < 256,
    ensures
        ({
            let t = s.performed(
                EventView::Csi { params: seq![seq![n]], intermediates: seq![0x20], action: 'q' },
            );
            let m = s.grid.modes;
            &&& n == 0 || n > 6 ==> t == with(
                s,
                TerminalModes { cursor_shape: CursorShape::Default, ..m },
            )
            &&& n == 1 ==> t == with(
                s,
                TerminalModes { cursor_shape: CursorShape::BlinkBlock, ..m },
            )
            &&& n == 2 ==> t == with(
                s,
                TerminalModes { cursor_shape: CursorShape::SteadyBlock, ..m },
            )
            &&& n == 3 ==> t == with(
                s,
                TerminalModes { cursor_shape: CursorShape::BlinkUnderline, ..m },
            )
            &&& n == 4 ==> t == with(
                s,
                TerminalModes { cursor_shape: CursorShape::SteadyUnderline, ..m },
            )
            &&& n == 5 ==> t == with(
                s,
                TerminalModes { cursor_shape: CursorShape::BlinkBar, ..m },
            )
            &&& n == 6 ==> t == with(
                s,
                TerminalModes { cursor_shape: CursorShape::SteadyBar, ..m },
            )
        }),
{
    lemma_shape_chosen(s, n);
}

// Reports

/// DSR 6 is answered with the position of the cursor, counted from one: ESC [ row ; column
/// R. Other numbers are not answered.
pub proof fn law_position_report(s: ScreenView, n: u16)
    requires
        s.wf(),
    ensures
        ({
            let t = s.performed(
                EventView::Csi { params: seq![seq![n]], intermediates: seq![], action: 'n' },
            );
            &&& n == 6 ==> t == (ScreenView {
                responses: s.responses + seq![
                    seq![0x1bu8, 0x5b] + bytes::decimal((s.grid.cursor_y + 1) as nat) + seq![0x3bu8]
                        + bytes::decimal((s.grid.cursor_x + 1) as nat) + seq![0x52u8],
                ],
                ..s
            })
            &&& n != 6 ==> t == s
        }),
{
    lemma_reports(s, seq![seq![n]]);
    if n == 6 {
        reveal_strlit("\x1b[");
        reveal_strlit(";");
        reveal_strlit("R");
        is_ascii_chars_encode_utf8("\x1b["@);
        is_ascii_chars_encode_utf8(";"@);
        is_ascii_chars_encode_utf8("R"@);
        assert("\x1b[".spec_bytes() =~= seq![0x1bu8, 0x5b]);
        assert(";".spec_bytes() =~= seq![0x3bu8]);
        assert("R".spec_bytes() =~= seq![0x52u8]);
        let reply = model::cursor_report(s.grid.cursor_x, s.grid.cursor_y);
        assert(s.responses.push(reply) =~= s.responses + seq![reply]);
    }
}

proof fn lemma_reports(s: ScreenView, params: Seq<Seq<u16>>)
    ensures
        s.performed(EventView::Csi { params, intermediates: seq![], action: 'n' }) == if model::param(
            params,
            0,
            0,
        ) == 6 {
            s.responded(model::cursor_report(s.grid.cursor_x, s.grid.cursor_y))
        } else {
            s
        },
{
    reveal(ScreenView::performed);
}

proof fn lemma_attributes_asked(s: ScreenView, params: Seq<Seq<u16>>)
    requires
        model::param(params, 0, 0) == 0,
    ensures
        s.performed(EventView::Csi { params, intermediates: seq![], action: 'c' }) == s.responded(
            "\x1b[?62;c".spec_bytes(),
        ),
        s.performed(EventView::Csi { params, intermediates: seq![0x3e], action: 'c' })
            == s.responded("\x1b[>0;10;1c".spec_bytes()),
{
    reveal(ScreenView::performed);
}

/// DA and secondary DA are answered with what the terminal is: ESC [ ? 6 2 ; c and
/// ESC [ > 0 ; 1 0 ; 1 c.
pub proof fn law_attribute_reports(s: ScreenView)
    ensures
        ({
            let primary = s.performed(
                EventView::Csi { params: seq![], intermediates: seq![], action: 'c' },
            );
            let secondary = s.performed(
                EventView::Csi { params: seq![], intermediates: seq![0x3e], action: 'c' },
            );
            &&& primary == (ScreenView {
                responses: s.responses + seq![seq![0x1bu8, 0x5b, 0x3f, 0x36, 0x32, 0x3b, 0x63]],
                ..s
            })
            &&& secondary == (ScreenView {
                responses: s.responses + seq![
                    seq![0x1bu8, 0x5b, 0x3e, 0x30, 0x3b, 0x31, 0x30, 0x3b, 0x31, 0x63],
                ],
                ..s
            })
            &&& primary == s.performed(
                EventView::Csi { params: seq![seq![0]], intermediates: seq![], action: 'c' },
            )
            &&& secondary == s.performed(
                EventView::Csi { params: seq![seq![0]], intermediates: seq![0x3e], action: 'c' },
            )
        }),
{
    lemma_attributes_asked(s, seq![]);
    lemma_attributes_asked(s, seq![seq![0]]);
    reveal_strlit("\x1b[?62;c");
    reveal_strlit("\x1b[>0;10;1c");
    is_ascii_chars_encode_utf8("\x1b[?62;c"@);
    is_ascii_chars_encode_utf8("\x1b[>0;10;1c"@);
    let a = seq![0x1bu8, 0x5b, 0x3f, 0x36, 0x32, 0x3b, 0x63];
    let b = seq![0x1bu8, 0x5b, 0x3e, 0x30, 0x3b, 0x31, 0x30, 0x3b, 0x31, 0x63];
    assert("\x1b[?62;c".spec_bytes() =~= a);
    assert("\x1b[>0;10;1c".spec_bytes() =~= b);
    assert(s.responses.push(a) =~= s.responses + seq![a]);
    assert(s.responses.push(b) =~= s.responses + seq![b]);
}

/// Control sequences that are not known do nothing, nor do known ones with intermediate
/// characters that make them others.
pub proof fn law_other_control_sequences(
    s: ScreenView,
    params: Seq<Seq<u16>>,
    intermediates: Seq<u8>,
    action: char,
)
    requires
        (action != 'A' && action != 'B' && action != 'C' && action != 'D' && action != 'E'
            && action != 'F' && action != 'G' && action != 'H' && action != 'J' && action != 'K'
            && action != 'L' && action != 'M' && action != 'P' && action != 'S' && action != 'T'
            && action != 'X' && action != '@' && action != 'b' && action != 'c' && action != 'd'
            && action != 'f' && action != 'h' && action != 'l' && action != 'm' && action != 'n'
            && action != 'q' && action != 'r' && action != 's'
            && action != 'u') || (intermediates.len() > 0
            && (action == 'n' || action == 'r' || action == 's' || action
            == 'u')) || (action == 'q' && intermediates != seq![0x20u8]),
    ensures
        s.performed(EventView::Csi { params, intermediates, action }) == s,
{
    reveal(ScreenView::performed);
}

// Operating system commands

proof fn lemma_commands(s: ScreenView, fields: Seq<Seq<u8>>)
    ensures
        s.performed(EventView::Osc { fields }) == s.osc(fields),
{
    reveal(ScreenView::performed);
}

proof fn lemma_number_of_one_digit(d: u8)
    ensures
        bytes::is_number(seq![d]) == (0x30 <= d <= 0x39),
        0x30 <= d <= 0x39 ==> bytes::number_value(seq![d]) == d - 0x30,
{
    let text = seq![d];
    reveal_with_fuel(bytes::digits_value, 2);
    if d == 43 {
        assert(text.skip(1) =~= seq![]);
        assert(bytes::number_digits(text).len() == 0);
    } else {
        assert(bytes::number_digits(text) == text);
        assert(text.drop_last() =~= seq![]);
        assert(bytes::is_number(text) ==> bytes::is_digit(bytes::number_digits(text)[0]));
    }
}

/// OSC 0 and OSC 2 set the title to their second field, where that is text; otherwise
/// nothing happens. Nothing else changes.
pub proof fn law_title_is_set(s: ScreenView, number: u8, title: Seq<char>, raw: Seq<u8>)
    requires
        number == 0x30 || number == 0x32,
        !valid_utf8(raw),
    ensures
        s.performed(EventView::Osc { fields: seq![seq![number], encode_utf8(title)] })
            == (ScreenView { title, ..s }),
        s.performed(EventView::Osc { fields: seq![seq![number], raw] }) == s,
        s.performed(EventView::Osc { fields: seq![seq![number]] }) == s,
{
    lemma_commands(s, seq![seq![number], encode_utf8(title)]);
    lemma_commands(s, seq![seq![number], raw]);
    lemma_commands(s, seq![seq![number]]);
    lemma_number_of_one_digit(number);
    encode_utf8_valid_utf8(title);
    encode_utf8_decode_utf8(title);
}

/// Any other command of one digit, and one that is no number, goes to the outer terminal
/// as it came: ESC ], its fields separated by semicolons, and BEL.
pub proof fn law_other_commands_pass(s: ScreenView, number: u8, a: Seq<u8>, b: Seq<u8>)
    requires
        number != 0x30,
        number != 0x32,
    ensures
        s.performed(EventView::Osc { fields: seq![seq![number]] }) == (ScreenView {
            passthrough: s.passthrough + seq![seq![0x1bu8, 0x5d] + seq![number] + seq![7u8]],
            ..s
        }),
        s.performed(EventView::Osc { fields: seq![seq![number], a] }) == (ScreenView {
            passthrough: s.passthrough + seq![
                seq![0x1bu8, 0x5d] + seq![number] + seq![0x3bu8] + a + seq![7u8],
            ],
            ..s
        }),
        s.performed(EventView::Osc { fields: seq![seq![number], a, b] }) == (ScreenView {
            passthrough: s.passthrough + seq![
                seq![0x1bu8, 0x5d] + seq![number] + seq![0x3bu8] + a + seq![0x3bu8] + b + seq![7u8],
            ],
            ..s
        }),
        s.performed(EventView::Osc { fields: seq![] }) == s,
{
    let (one, two, three) = (seq![seq![number]], seq![seq![number], a], seq![seq![number], a, b]);
    lemma_commands(s, one);
    lemma_commands(s, two);
    lemma_commands(s, three);
    lemma_commands(s, seq![]);
    lemma_number_of_one_digit(number);
    reveal_strlit("\x1b]");
    reveal_strlit(";");
    is_ascii_chars_encode_utf8("\x1b]"@);
    is_ascii_chars_encode_utf8(";"@);
    assert("\x1b]".spec_bytes() =~= seq![0x1bu8, 0x5d]);
    assert(";".spec_bytes() =~= seq![0x3bu8]);
    assert(three.drop_last() =~= two);
    assert(two.drop_last() =~= one);
    reveal_with_fuel(model::joined, 3);
    assert(s.passthrough.push(model::osc_bytes(one)) =~= s.passthrough + seq![
        model::osc_bytes(one),
    ]);
    assert(s.passthrough.push(model::osc_bytes(two)) =~= s.passthrough + seq![
        model::osc_bytes(two),
    ]);
    assert(s.passthrough.push(model::osc_bytes(three)) =~= s.passthrough + seq![
        model::osc_bytes(three),
    ]);
    assert(model::osc_bytes(two) =~= seq![0x1bu8, 0x5d] + seq![number] + seq![0x3bu8] + a + seq![
        7u8,
    ]);
    assert(model::osc_bytes(three) =~= seq![0x1bu8, 0x5d] + seq![number] + seq![0x3bu8] + a + seq![
        0x3bu8,
    ] + b + seq![7u8]);
}

/// Whatever a command is: it sets the title if its first field is the number 0 or 2, and
/// goes to the outer terminal otherwise, with all of its fields.
pub proof fn law_command_by_number(s: ScreenView, fields: Seq<Seq<u8>>)
    requires
        fields.len() > 0,
    ensures
        ({
            let t = s.performed(EventView::Osc { fields });
            let titled = bytes::is_number(fields[0]) && (bytes::number_value(fields[0]) == 0
                || bytes::number_value(fields[0]) == 2);
            let named = fields.len() >= 2 && valid_utf8(fields[1]);
            &&& titled && named ==> t == (ScreenView { title: decode_utf8(fields[1]), ..s })
            &&& titled && !named ==> t == s
            &&& !titled ==> t == (ScreenView {
                passthrough: s.passthrough + seq![
                    seq![0x1bu8, 0x5d] + model::joined(fields) + seq![7u8],
                ],
                ..s
            })
        }),
{
    lemma_commands(s, fields);
    reveal_strlit("\x1b]");
    is_ascii_chars_encode_utf8("\x1b]"@);
    assert("\x1b]".spec_bytes() =~= seq![0x1bu8, 0x5d]);
    assert(s.passthrough.push(model::osc_bytes(fields)) =~= s.passthrough + seq![
        model::osc_bytes(fields),
    ]);
}

/// Fields are joined by semicolons, one between any two.
pub proof fn law_fields_are_joined(fields: Seq<Seq<u8>>, field: Seq<u8>)
    ensures
        model::joined(seq![field]) == field,
        fields.len() > 0 ==> model::joined(fields.push(field)) == model::joined(fields) + seq![
            0x3bu8,
        ] + field,
{
    reveal_strlit(";");
    is_ascii_chars_encode_utf8(";"@);
    assert(";".spec_bytes() =~= seq![0x3bu8]);
    assert(fields.push(field).drop_last() =~= fields);
}

/// Where a number is asked for that is zero by default, a missing one is zero, and what
/// follows it does not matter.
pub proof fn law_number_defaults_to_zero(
    s: ScreenView,
    params: Seq<Seq<u16>>,
    intermediates: Seq<u8>,
    action: char,
)
    requires
        action == 'J' || action == 'K' || action == 'n' || action == 'c' || action == 'q',
    ensures
        ({
            let t = s.performed(EventView::Csi { params, intermediates, action });
            let zero = s.performed(
                EventView::Csi { params: seq![seq![0]], intermediates, action },
            );
            &&& params.len() == 0 || params[0].len() == 0 ==> t == zero
            &&& params.len() > 0 && params[0].len() > 0 ==> t == s.performed(
                EventView::Csi { params: seq![seq![params[0][0]]], intermediates, action },
            )
        }),
{
    let n = model::param(params, 0, 0);
    lemma_by_number(s, params, seq![seq![n]], intermediates, action);
    assert(seq![seq![n]][0] == seq![n]);
}

proof fn lemma_by_number(
    s: ScreenView,
    a: Seq<Seq<u16>>,
    b: Seq<Seq<u16>>,
    intermediates: Seq<u8>,
    action: char,
)
    requires
        action == 'J' || action == 'K' || action == 'n' || action == 'c' || action == 'q',
        model::param(a, 0, 0) == model::param(b, 0, 0),
    ensures
        s.performed(EventView::Csi { params: a, intermediates, action }) == s.performed(
            EventView::Csi { params: b, intermediates, action },
        ),
{
    if action == 'J' || action == 'K' {
        motion::lemma_edits(s, a, intermediates, action);
        motion::lemma_edits(s, b, intermediates, action);
    } else {
        lemma_csi(s, a, intermediates, action);
        lemma_csi(s, b, intermediates, action);
    }
}

proof fn lemma_csi(s: ScreenView, params: Seq<Seq<u16>>, intermediates: Seq<u8>, action: char)
    ensures
        s.performed(EventView::Csi { params, intermediates, action }) == s.csi(
            params,
            intermediates,
            action,
        ),
{
    reveal(ScreenView::performed);
}

/// DA with another number, or of another kind, is not answered.
pub proof fn law_other_attribute_reports(s: ScreenView, n: u16, intermediates: Seq<u8>)
    requires
        n > 0 || (intermediates.len() > 0 && intermediates != seq![0x3eu8]),
    ensures
        s.performed(EventView::Csi { params: seq![seq![n]], intermediates, action: 'c' }) == s,
{
    lemma_csi(s, seq![seq![n]], intermediates, 'c');
    assert(model::param(seq![seq![n]], 0, 0) == n);
}

proof fn lemma_shape_chosen(s: ScreenView, n: u16)
    ensures
        s.performed(
            EventView::Csi { params: seq![seq![n]], intermediates: seq![0x20], action: 'q' },
        ) == with(
            s,
            TerminalModes { cursor_shape: grid::shape_of((n % 256) as u8), ..s.grid.modes },
        ),
{
    reveal(ScreenView::performed);
}

/// Of the number of a cursor shape the low eight bits count.
pub proof fn law_cursor_shape_number(s: ScreenView, n: u16)
    ensures
        s.performed(
            EventView::Csi { params: seq![seq![n]], intermediates: seq![0x20], action: 'q' },
        ) == s.performed(
            EventView::Csi {
                params: seq![seq![(n % 256) as u16]],
                intermediates: seq![0x20],
                action: 'q',
            },
        ),
{
    lemma_shape_chosen(s, n);
    lemma_shape_chosen(s, (n % 256) as u16);
}

} // verus!
