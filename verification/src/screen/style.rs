//! Text attributes, colors, and their SGR escape sequences.

use vstd::prelude::*;
use vstd::string::*;

use crate::bytes;
use crate::bytes::{low_byte, push_str};

verus! {

/// Underline style variant.
#[derive(Copy, Clone, Debug, PartialEq, Eq, Hash, Structural)]
pub enum UnderlineStyle {
    Off,
    Single,
    Double,
    Curly,
    Dotted,
    Dashed,
}

impl Default for UnderlineStyle {
    fn default() -> (res: Self)
        ensures
            res == UnderlineStyle::Off,
    {
        UnderlineStyle::Off
    }
}

/// The SGR subparameter that stands for an underline style.
pub open spec fn underline_code(u: UnderlineStyle) -> u8 {
    match u {
        UnderlineStyle::Off => 0,
        UnderlineStyle::Single => 1,
        UnderlineStyle::Double => 2,
        UnderlineStyle::Curly => 3,
        UnderlineStyle::Dotted => 4,
        UnderlineStyle::Dashed => 5,
    }
}

/// The underline style that an SGR subparameter selects: an unknown code is a
/// single underline.
pub open spec fn underline_of(n: u8) -> UnderlineStyle {
    if n == 0 {
        UnderlineStyle::Off
    } else if n == 2 {
        UnderlineStyle::Double
    } else if n == 3 {
        UnderlineStyle::Curly
    } else if n == 4 {
        UnderlineStyle::Dotted
    } else if n == 5 {
        UnderlineStyle::Dashed
    } else {
        UnderlineStyle::Single
    }
}

impl UnderlineStyle {
    /// Convert from a raw SGR subparameter value.
    pub fn from_sgr(n: u8) -> (res: Self)
        ensures
            res == underline_of(n),
    {
        match n {
            0 => Self::Off,
            1 => Self::Single,
            2 => Self::Double,
            3 => Self::Curly,
            4 => Self::Dotted,
            5 => Self::Dashed,
            _ => Self::Single,
        }
    }

    /// SGR subparameter value for this underline style.
    pub fn sgr_param(self) -> (res: u8)
        ensures
            res == underline_code(self),
    {
        match self {
            Self::Off => 0,
            Self::Single => 1,
            Self::Double => 2,
            Self::Curly => 3,
            Self::Dotted => 4,
            Self::Dashed => 5,
        }
    }
}

/// Reading back the subparameter of an underline style gives the style.
pub proof fn law_underline_round_trip(u: UnderlineStyle)
    ensures
        underline_of(underline_code(u)) == u,
{
}

/// Terminal color, either a 256-color palette index or direct RGB.
#[derive(Copy, Clone, Debug, PartialEq, Eq, Hash, Structural)]
pub enum Color {
    /// 256-color palette index (0-255).
    Indexed(u8),
    /// Direct 24-bit RGB color.
    Rgb(u8, u8, u8),
}

/// SGR text attributes and foreground/background colors for a cell.
#[derive(Copy, Clone, Debug, PartialEq, Eq, Hash, Structural)]
pub struct Style {
    pub bold: bool,
    pub dim: bool,
    pub italic: bool,
    pub underline: UnderlineStyle,
    pub blink: bool,
    pub inverse: bool,
    pub strikethrough: bool,
    pub hidden: bool,
    pub fg: Option<Color>,
    pub bg: Option<Color>,
}

/// The style with every attribute at its reset value.
pub open spec fn plain() -> Style {
    Style {
        bold: false,
        dim: false,
        italic: false,
        underline: UnderlineStyle::Off,
        blink: false,
        inverse: false,
        strikethrough: false,
        hidden: false,
        fg: None,
        bg: None,
    }
}

impl Default for Style {
    fn default() -> (res: Self)
        ensures
            res == plain(),
    {
        Style {
            bold: false,
            dim: false,
            italic: false,
            underline: UnderlineStyle::Off,
            blink: false,
            inverse: false,
            strikethrough: false,
            hidden: false,
            fg: None,
            bg: None,
        }
    }
}

/// Write a u8 value as decimal ASCII digits into `out`.
fn write_u8(out: &mut Vec<u8>, n: u8)
    ensures
        final(out)@ == old(out)@ + bytes::decimal(n as nat),
{
    proof {
        reveal_with_fuel(bytes::decimal, 4);
    }
    if n >= 100 {
        out.push(48 + n / 100);
    }
    if n >= 10 {
        out.push(48 + (n / 10) % 10);
    }
    out.push(48 + n % 10);
    assert(out@ =~= old(out)@ + bytes::decimal(n as nat));
}

/// Write a u16 value as decimal ASCII digits into `out`.
pub fn write_u16(out: &mut Vec<u8>, n: u16)
    ensures
        final(out)@ == old(out)@ + bytes::decimal(n as nat),
{
    proof {
        reveal_with_fuel(bytes::decimal, 6);
    }
    if n >= 10000 {
        out.push(48 + (n / 10000) as u8);
    }
    if n >= 1000 {
        out.push(48 + ((n / 1000) % 10) as u8);
    }
    if n >= 100 {
        out.push(48 + ((n / 100) % 10) as u8);
    }
    if n >= 10 {
        out.push(48 + ((n / 10) % 10) as u8);
    }
    out.push(48 + (n % 10) as u8);
    assert(out@ =~= old(out)@ + bytes::decimal(n as nat));
}

/// One SGR parameter with its subparameters, as text: decimal numbers separated
/// by colons.
pub open spec fn group_bytes(group: Seq<u16>) -> Seq<u8>
    decreases group.len(),
{
    if group.len() == 0 {
        seq![]
    } else if group.len() == 1 {
        bytes::decimal(group[0] as nat)
    } else {
        group_bytes(group.drop_last()) + ":".spec_bytes() + bytes::decimal(group.last() as nat)
    }
}

/// A list of SGR parameters as text, separated by semicolons. With `need_sep`
/// something precedes the list, so that its first parameter is separated too.
#[verifier::opaque]
pub open spec fn groups_bytes(groups: Seq<Seq<u16>>, need_sep: bool) -> Seq<u8>
    decreases groups.len(),
{
    if groups.len() == 0 {
        seq![]
    } else {
        groups_bytes(groups.drop_last(), need_sep) + (if need_sep || groups.len() > 1 {
            ";".spec_bytes()
        } else {
            seq![]
        }) + group_bytes(groups.last())
    }
}

/// The single parameter `n`, where `on` holds.
#[verifier::opaque]
pub open spec fn flag_groups(on: bool, n: u16) -> Seq<Seq<u16>> {
    if on {
        seq![seq![n]]
    } else {
        seq![]
    }
}

/// The parameters that select an underline style: nothing for none, `4` for a
/// single one, `4:n` for the others.
#[verifier::opaque]
pub open spec fn underline_groups(u: UnderlineStyle) -> Seq<Seq<u16>> {
    match u {
        UnderlineStyle::Off => seq![],
        UnderlineStyle::Single => seq![seq![4u16]],
        _ => seq![seq![4u16, underline_code(u) as u16]],
    }
}

/// The parameters that select a color. `base` is the code of the first of the
/// eight basic colors: 30 for the foreground, 40 for the background.
#[verifier::opaque]
pub open spec fn color_groups(color: Option<Color>, base: u16) -> Seq<Seq<u16>> {
    match color {
        None => seq![],
        Some(Color::Indexed(c)) => if c < 8 {
            seq![seq![(base + c) as u16]]
        } else if c < 16 {
            seq![seq![(base + 60 + c - 8) as u16]]
        } else {
            seq![seq![(base + 8) as u16], seq![5u16], seq![c as u16]]
        },
        Some(Color::Rgb(r, g, b)) => seq![
            seq![(base + 8) as u16],
            seq![2u16],
            seq![r as u16],
            seq![g as u16],
            seq![b as u16],
        ],
    }
}

/// The parameters for weight, slant and underline.
#[verifier::opaque]
pub open spec fn weight_groups(s: Style) -> Seq<Seq<u16>> {
    flag_groups(s.bold, 1) + flag_groups(s.dim, 2) + flag_groups(s.italic, 3) + underline_groups(
        s.underline,
    )
}

/// The parameters for blinking, inverse, hidden and struck-through text.
#[verifier::opaque]
pub open spec fn effect_groups(s: Style) -> Seq<Seq<u16>> {
    flag_groups(s.blink, 5) + flag_groups(s.inverse, 7) + flag_groups(s.hidden, 8) + flag_groups(
        s.strikethrough,
        9,
    )
}

/// The SGR parameters that turn the reset style into `s`.
#[verifier::opaque]
pub open spec fn style_groups(s: Style) -> Seq<Seq<u16>> {
    weight_groups(s) + effect_groups(s) + color_groups(s.fg, 30) + color_groups(s.bg, 40)
}

/// The text of two parameter lists is that of the first followed by that of the
/// second.
pub(crate) proof fn lemma_groups_append(a: Seq<Seq<u16>>, b: Seq<Seq<u16>>, need_sep: bool)
    ensures
        groups_bytes(a + b, need_sep) == groups_bytes(a, need_sep) + groups_bytes(
            b,
            need_sep || a.len() > 0,
        ),
    decreases b.len(),
{
    reveal(groups_bytes);
    if b.len() == 0 {
        assert(a + b =~= a);
        assert(groups_bytes(a, need_sep) + groups_bytes(b, need_sep || a.len() > 0) =~= groups_bytes(
            a,
            need_sep,
        ));
    } else {
        lemma_groups_append(a, b.drop_last(), need_sep);
        assert((a + b).drop_last() =~= a + b.drop_last());
        assert((a + b).last() == b.last());
        assert(groups_bytes(a + b, need_sep) =~= groups_bytes(a, need_sep) + groups_bytes(
            b,
            need_sep || a.len() > 0,
        ));
    }
}

/// Write one parameter without subparameters, separated from what precedes it.
fn write_code(out: &mut Vec<u8>, n: u8, need_sep: &mut bool)
    ensures
        final(out)@ == old(out)@ + groups_bytes(seq![seq![n as u16]], *old(need_sep)),
        *final(need_sep),
{
    proof {
        reveal_with_fuel(groups_bytes, 2);
        assert(seq![seq![n as u16]].drop_last() =~= Seq::<Seq<u16>>::empty());
    }
    if *need_sep {
        push_str(out, ";");
    }
    *need_sep = true;
    write_u8(out, n);
    assert(out@ =~= old(out)@ + groups_bytes(seq![seq![n as u16]], *old(need_sep)));
}

/// Write the parameter `n` if `on` holds.
fn write_flag(out: &mut Vec<u8>, on: bool, n: u8, need_sep: &mut bool)
    ensures
        final(out)@ == old(out)@ + groups_bytes(flag_groups(on, n as u16), *old(need_sep)),
        *final(need_sep) == (*old(need_sep) || flag_groups(on, n as u16).len() > 0),
{
    proof {
        reveal(flag_groups);
    }
    if on {
        write_code(out, n, need_sep);
    }
    proof {
        reveal(groups_bytes);
    }
    assert(out@ =~= old(out)@ + groups_bytes(flag_groups(on, n as u16), *old(need_sep)));
}

/// Write the parameter that selects an underline style.
fn write_underline(out: &mut Vec<u8>, u: UnderlineStyle, need_sep: &mut bool)
    ensures
        final(out)@ == old(out)@ + groups_bytes(underline_groups(u), *old(need_sep)),
        *final(need_sep) == (*old(need_sep) || underline_groups(u).len() > 0),
{
    proof {
        reveal(underline_groups);
    }
    match u {
        UnderlineStyle::Off => {},
        UnderlineStyle::Single => {
            write_code(out, 4, need_sep);
        },
        other => {
            proof {
                let g = seq![4u16, underline_code(u) as u16];
                reveal_with_fuel(groups_bytes, 2);
                reveal_with_fuel(group_bytes, 3);
                reveal_with_fuel(bytes::decimal, 2);
                assert(seq![g].drop_last() =~= Seq::<Seq<u16>>::empty());
                assert(g.drop_last() =~= seq![4u16]);
                assert(groups_bytes(underline_groups(u), *old(need_sep)) =~= (if *old(need_sep) {
                    ";".spec_bytes()
                } else {
                    seq![]
                }) + bytes::decimal(4) + ":".spec_bytes() + bytes::decimal(underline_code(u) as nat));
            }
            if *need_sep {
                push_str(out, ";");
            }
            *need_sep = true;
            write_u8(out, 4);
            push_str(out, ":");
            write_u8(out, other.sgr_param());
        },
    }
    proof {
        reveal(groups_bytes);
    }
    assert(out@ =~= old(out)@ + groups_bytes(underline_groups(u), *old(need_sep)));
}

impl Style {
    /// Return true if all attributes are at their default (reset) values.
    pub fn is_default(self) -> (res: bool)
        ensures
            res == (self == plain()),
    {
        self == Style::default()
    }

    /// Write the parameters for weight, slant and underline.
    fn write_weight_to(self, out: &mut Vec<u8>, need_sep: &mut bool)
        ensures
            final(out)@ == old(out)@ + groups_bytes(weight_groups(self), *old(need_sep)),
            *final(need_sep) == (*old(need_sep) || weight_groups(self).len() > 0),
    {
        let ghost start = *need_sep;
        write_flag(out, self.bold, 1, need_sep);
        let ghost g0 = flag_groups(self.bold, 1);
        write_flag(out, self.dim, 2, need_sep);
        let ghost g1 = g0 + flag_groups(self.dim, 2);
        write_flag(out, self.italic, 3, need_sep);
        let ghost g2 = g1 + flag_groups(self.italic, 3);
        write_underline(out, self.underline, need_sep);
        let ghost g3 = g2 + underline_groups(self.underline);
        proof {
            lemma_groups_append(g0, flag_groups(self.dim, 2), start);
            lemma_groups_append(g1, flag_groups(self.italic, 3), start);
            lemma_groups_append(g2, underline_groups(self.underline), start);
            reveal(weight_groups);
            assert(out@ =~= old(out)@ + groups_bytes(weight_groups(self), start));
        }
    }

    /// Write the parameters for blinking, inverse, hidden and struck-through text.
    #[verifier::rlimit(50)]
    fn write_effects_to(self, out: &mut Vec<u8>, need_sep: &mut bool)
        ensures
            final(out)@ == old(out)@ + groups_bytes(effect_groups(self), *old(need_sep)),
            *final(need_sep) == (*old(need_sep) || effect_groups(self).len() > 0),
    {
        let ghost start = *need_sep;
        write_flag(out, self.blink, 5, need_sep);
        let ghost g0 = flag_groups(self.blink, 5);
        write_flag(out, self.inverse, 7, need_sep);
        let ghost g1 = g0 + flag_groups(self.inverse, 7);
        write_flag(out, self.hidden, 8, need_sep);
        let ghost g2 = g1 + flag_groups(self.hidden, 8);
        write_flag(out, self.strikethrough, 9, need_sep);
        let ghost g3 = g2 + flag_groups(self.strikethrough, 9);
        proof {
            lemma_groups_append(g0, flag_groups(self.inverse, 7), start);
            lemma_groups_append(g1, flag_groups(self.hidden, 8), start);
            lemma_groups_append(g2, flag_groups(self.strikethrough, 9), start);
            reveal(effect_groups);
            assert(out@ =~= old(out)@ + groups_bytes(effect_groups(self), start));
        }
    }

    /// Write SGR attribute parameters directly as bytes into `out`, separated by
    /// `;`. The caller writes the `\x1b[` prefix and the `m` suffix.
    fn write_sgr_to(self, out: &mut Vec<u8>, need_sep: &mut bool)
        ensures
            final(out)@ == old(out)@ + groups_bytes(style_groups(self), *old(need_sep)),
            *final(need_sep) == (*old(need_sep) || style_groups(self).len() > 0),
    {
        let ghost start = *need_sep;
        self.write_weight_to(out, need_sep);
        let ghost g0 = weight_groups(self);
        self.write_effects_to(out, need_sep);
        let ghost g1 = g0 + effect_groups(self);
        Self::write_color_to(out, self.fg, 30, need_sep);
        let ghost g2 = g1 + color_groups(self.fg, 30);
        Self::write_color_to(out, self.bg, 40, need_sep);
        let ghost g3 = g2 + color_groups(self.bg, 40);
        proof {
            lemma_groups_append(g0, effect_groups(self), start);
            lemma_groups_append(g1, color_groups(self.fg, 30), start);
            lemma_groups_append(g2, color_groups(self.bg, 40), start);
            reveal(style_groups);
            assert(out@ =~= old(out)@ + groups_bytes(style_groups(self), start));
        }
    }

    /// Write SGR color parameters directly as bytes.
    fn write_color_to(out: &mut Vec<u8>, color: Option<Color>, base: u8, need_sep: &mut bool)
        requires
            base <= 40,
        ensures
            final(out)@ == old(out)@ + groups_bytes(
                color_groups(color, base as u16),
                *old(need_sep),
            ),
            *final(need_sep) == (*old(need_sep) || color_groups(color, base as u16).len() > 0),
    {
        let ghost start = *need_sep;
        proof {
            reveal(color_groups);
        }
        match color {
            Some(Color::Indexed(c)) => {
                if c < 8 {
                    write_code(out, base + c, need_sep);
                } else if c < 16 {
                    write_code(out, base + 60 + c - 8, need_sep);
                } else {
                    write_code(out, base + 8, need_sep);
                    write_code(out, 5, need_sep);
                    write_code(out, c, need_sep);
                    proof {
                        let a = seq![seq![(base + 8) as u16]];
                        lemma_groups_append(a, seq![seq![5u16]], start);
                        lemma_groups_append(a + seq![seq![5u16]], seq![seq![c as u16]], start);
                        assert(a + seq![seq![5u16]] + seq![seq![c as u16]] =~= color_groups(
                            color,
                            base as u16,
                        ));
                    }
                }
            },
            Some(Color::Rgb(r, g, b)) => {
                write_code(out, base + 8, need_sep);
                write_code(out, 2, need_sep);
                write_code(out, r, need_sep);
                write_code(out, g, need_sep);
                write_code(out, b, need_sep);
                proof {
                    let a = seq![seq![(base + 8) as u16]];
                    let a2 = a + seq![seq![2u16]];
                    let a3 = a2 + seq![seq![r as u16]];
                    let a4 = a3 + seq![seq![g as u16]];
                    lemma_groups_append(a, seq![seq![2u16]], start);
                    lemma_groups_append(a2, seq![seq![r as u16]], start);
                    lemma_groups_append(a3, seq![seq![g as u16]], start);
                    lemma_groups_append(a4, seq![seq![b as u16]], start);
                    assert(a4 + seq![seq![b as u16]] =~= color_groups(color, base as u16));
                }
            },
            None => {},
        }
        proof {
            reveal(groups_bytes);
        }
        assert(out@ =~= old(out)@ + groups_bytes(color_groups(color, base as u16), start));
    }

    /// Render this style as an SGR sequence without a reset prefix: nothing for
    /// the default style.
    pub fn to_sgr(self) -> (res: Vec<u8>)
        ensures
            self == plain() ==> res@ == Seq::<u8>::empty(),
            self != plain() ==> res@ == "\x1b[".spec_bytes() + groups_bytes(
                style_groups(self),
                false,
            ) + "m".spec_bytes(),
    {
        if self.is_default() {
            return Vec::new();
        }
        let mut out: Vec<u8> = Vec::new();
        push_str(&mut out, "\x1b[");
        let mut need_sep = false;
        self.write_sgr_to(&mut out, &mut need_sep);
        push_str(&mut out, "m");
        out
    }

    /// Render this style as a combined reset and set, `\x1b[0;1;31m`, in place of
    /// a reset followed by a set. For the default style just `\x1b[0m`.
    pub fn to_sgr_with_reset(self) -> (res: Vec<u8>)
        ensures
            res@ == sgr_with_reset(self),
    {
        let mut out: Vec<u8> = Vec::new();
        push_str(&mut out, "\x1b[0");
        let mut need_sep = true;
        self.write_sgr_to(&mut out, &mut need_sep);
        push_str(&mut out, "m");
        assert(out@ =~= sgr_with_reset(self));
        out
    }
}

/// The escape sequence that resets all attributes and then sets those of `s`.
pub open spec fn sgr_with_reset(s: Style) -> Seq<u8> {
    "\x1b[0".spec_bytes() + groups_bytes(style_groups(s), true) + "m".spec_bytes()
}

/// The parameters as sequences of numbers.
pub open spec fn params_view(params: Seq<Vec<u16>>) -> Seq<Seq<u16>> {
    params.map_values(|p: Vec<u16>| p@)
}

/// The value of a parameter without its subparameters; a missing one is zero.
pub open spec fn first_value(param: Seq<u16>) -> u16 {
    if param.len() > 0 {
        param[0]
    } else {
        0
    }
}

/// A color component or palette index: the low eight bits of a parameter.
pub open spec fn component(n: u16) -> u8 {
    (n % 256) as u8
}

/// The color that the parameter at `i` (a 38 or a 48) introduces, and the index
/// of the last parameter that belongs to it. Subparameters (`38:5:n`,
/// `38:2:r:g:b`, `38:2:space:r:g:b`) take precedence over the parameters that
/// follow (`38;5;n`, `38;2;r;g;b`).
pub open spec fn extended_color(params: Seq<Seq<u16>>, i: int) -> (Option<Color>, int) {
    let sub = params[i];
    if sub.len() > 1 {
        (
            if sub.len() >= 3 && sub[1] == 5 {
                Some(Color::Indexed(component(sub[2])))
            } else if sub.len() >= 6 && sub[1] == 2 {
                Some(Color::Rgb(component(sub[3]), component(sub[4]), component(sub[5])))
            } else if sub.len() == 5 && sub[1] == 2 {
                Some(Color::Rgb(component(sub[2]), component(sub[3]), component(sub[4])))
            } else {
                None
            },
            i,
        )
    } else if i + 2 < params.len() && first_value(params[i + 1]) == 5 {
        (Some(Color::Indexed(component(first_value(params[i + 2])))), i + 2)
    } else if i + 4 < params.len() && first_value(params[i + 1]) == 2 {
        (
            Some(
                Color::Rgb(
                    component(first_value(params[i + 2])),
                    component(first_value(params[i + 3])),
                    component(first_value(params[i + 4])),
                ),
            ),
            i + 4,
        )
    } else {
        (None, i)
    }
}

/// The effect of a parameter that is not an extended color.
pub open spec fn sgr_simple(s: Style, param: Seq<u16>) -> Style {
    let p = first_value(param);
    if p == 0 {
        plain()
    } else if p == 1 {
        Style { bold: true, ..s }
    } else if p == 2 {
        Style { dim: true, ..s }
    } else if p == 3 {
        Style { italic: true, ..s }
    } else if p == 4 {
        Style {
            underline: if param.len() > 1 {
                underline_of(component(param[1]))
            } else {
                UnderlineStyle::Single
            },
            ..s
        }
    } else if p == 5 || p == 6 {
        Style { blink: true, ..s }
    } else if p == 7 {
        Style { inverse: true, ..s }
    } else if p == 8 {
        Style { hidden: true, ..s }
    } else if p == 9 {
        Style { strikethrough: true, ..s }
    } else if p == 21 {
        Style { underline: UnderlineStyle::Double, ..s }
    } else if p == 22 {
        Style { bold: false, dim: false, ..s }
    } else if p == 23 {
        Style { italic: false, ..s }
    } else if p == 24 {
        Style { underline: UnderlineStyle::Off, ..s }
    } else if p == 25 {
        Style { blink: false, ..s }
    } else if p == 27 {
        Style { inverse: false, ..s }
    } else if p == 28 {
        Style { hidden: false, ..s }
    } else if p == 29 {
        Style { strikethrough: false, ..s }
    } else if 30 <= p <= 37 {
        Style { fg: Some(Color::Indexed((p - 30) as u8)), ..s }
    } else if p == 39 {
        Style { fg: None, ..s }
    } else if 40 <= p <= 47 {
        Style { bg: Some(Color::Indexed((p - 40) as u8)), ..s }
    } else if p == 49 {
        Style { bg: None, ..s }
    } else if 90 <= p <= 97 {
        Style { fg: Some(Color::Indexed((p - 90 + 8) as u8)), ..s }
    } else if 100 <= p <= 107 {
        Style { bg: Some(Color::Indexed((p - 100 + 8) as u8)), ..s }
    } else {
        s
    }
}

/// The effect of the parameter at `i`, and the index of the next one to apply. A
/// color that cannot be read leaves the style as it is.
pub open spec fn sgr_step(s: Style, params: Seq<Seq<u16>>, i: int) -> (Style, int) {
    let p = first_value(params[i]);
    if p == 38 || p == 48 {
        let (color, last) = extended_color(params, i);
        (
            match color {
                None => s,
                Some(c) => if p == 38 {
                    Style { fg: Some(c), ..s }
                } else {
                    Style { bg: Some(c), ..s }
                },
            },
            last + 1,
        )
    } else {
        (sgr_simple(s, params[i]), i + 1)
    }
}

/// The style after the parameters from `i` on have been applied to `s`.
pub open spec fn sgr_from(s: Style, params: Seq<Seq<u16>>, i: int) -> Style
    decreases params.len() - i,
{
    if 0 <= i < params.len() {
        let (next, j) = sgr_step(s, params, i);
        sgr_from(next, params, j)
    } else {
        s
    }
}

/// The style after an SGR sequence: without parameters it is a reset.
pub open spec fn sgr_applied(s: Style, params: Seq<Seq<u16>>) -> Style {
    if params.len() == 0 {
        plain()
    } else {
        sgr_from(s, params, 0)
    }
}

/// Value of a parameter without its subparameters; a missing one is zero.
fn first_of(param: &Vec<u16>) -> (res: u16)
    ensures
        res == first_value(param@),
{
    if param.len() > 0 {
        param[0]
    } else {
        0
    }
}

impl Style {
    /// Apply SGR parameters to this style (accumulates).
    pub fn apply_sgr(&mut self, params: &[Vec<u16>])
        ensures
            *final(self) == sgr_applied(*old(self), params_view(params@)),
    {
        if params.len() == 0 {
            *self = Style::default();
            return;
        }
        let ghost ps = params_view(params@);
        let mut i: usize = 0;
        while i < params.len()
            invariant
                i <= params.len(),
                ps == params_view(params@),
                sgr_from(*self, ps, i as int) == sgr_from(*old(self), ps, 0),
            decreases params.len() - i,
        {
            let p: u16 = first_of(&params[i]);
            assert(p == first_value(ps[i as int]));
            match p {
                38 => {
                    if let Some(color) = parse_extended_color(params, &mut i) {
                        self.fg = Some(color);
                    }
                },
                48 => {
                    if let Some(color) = parse_extended_color(params, &mut i) {
                        self.bg = Some(color);
                    }
                },
                _ => {
                    self.apply_simple(p, &params[i]);
                },
            }
            i += 1;
        }
    }

    /// Apply one SGR parameter that is not an extended color.
    #[verifier::rlimit(50)]
    fn apply_simple(&mut self, p: u16, param: &Vec<u16>)
        requires
            p == first_value(param@),
        ensures
            *final(self) == sgr_simple(*old(self), param@),
    {
        match p {
            0 => {
                *self = Style::default();
            },
            1 => {
                self.bold = true;
            },
            2 => {
                self.dim = true;
            },
            3 => {
                self.italic = true;
            },
            4 => {
                // 4:0 none, 4:1 single, 4:2 double, 4:3 curly, and so on
                if param.len() > 1 {
                    self.underline = UnderlineStyle::from_sgr(low_byte(param[1]));
                } else {
                    self.underline = UnderlineStyle::Single;
                }
            },
            5 | 6 => {
                self.blink = true;
            },
            7 => {
                self.inverse = true;
            },
            8 => {
                self.hidden = true;
            },
            9 => {
                self.strikethrough = true;
            },
            21 => {
                self.underline = UnderlineStyle::Double;
            },
            22 => {
                self.bold = false;
                self.dim = false;
            },
            23 => {
                self.italic = false;
            },
            24 => {
                self.underline = UnderlineStyle::Off;
            },
            25 => {
                self.blink = false;
            },
            27 => {
                self.inverse = false;
            },
            28 => {
                self.hidden = false;
            },
            29 => {
                self.strikethrough = false;
            },
            30..=37 => {
                self.fg = Some(Color::Indexed((p - 30) as u8));
            },
            39 => {
                self.fg = None;
            },
            40..=47 => {
                self.bg = Some(Color::Indexed((p - 40) as u8));
            },
            49 => {
                self.bg = None;
            },
            90..=97 => {
                self.fg = Some(Color::Indexed((p - 90 + 8) as u8));
            },
            100..=107 => {
                self.bg = Some(Color::Indexed((p - 100 + 8) as u8));
            },
            _ => {},
        }
    }
}

/// Parse an extended color (38;5;N or 38;2;R;G;B) from SGR params. On success
/// `i` moves to the last parameter of the color.
pub fn parse_extended_color(params: &[Vec<u16>], i: &mut usize) -> (res: Option<Color>)
    requires
        *old(i) < params.len(),
    ensures
        res == extended_color(params_view(params@), *old(i) as int).0,
        *final(i) == extended_color(params_view(params@), *old(i) as int).1,
        *old(i) <= *final(i) < params.len(),
{
    let at: usize = *i;
    let ghost ps = params_view(params@);
    let sub = &params[at];
    assert(ps[at as int] == sub@);
    // Colon-separated subparameters first (38:5:N or 38:2:R:G:B)
    if sub.len() > 1 {
        if sub.len() >= 3 && sub[1] == 5 {
            return Some(Color::Indexed(low_byte(sub[2])));
        }
        if sub[1] == 2 {
            if sub.len() >= 6 {
                // 38:2:CS:R:G:B (with color space ID)
                return Some(Color::Rgb(low_byte(sub[3]), low_byte(sub[4]), low_byte(sub[5])));
            } else if sub.len() >= 5 {
                // 38:2:R:G:B (without color space ID)
                return Some(Color::Rgb(low_byte(sub[2]), low_byte(sub[3]), low_byte(sub[4])));
            }
        }
        return None;
    }
    // Semicolon-separated: look at the parameters that follow
    if params.len() - at > 1 {
        let mode: u16 = first_of(&params[at + 1]);
        assert(mode == first_value(ps[at + 1]));
        if mode == 5 && params.len() - at > 2 {
            let c: u16 = first_of(&params[at + 2]);
            assert(c == first_value(ps[at + 2]));
            *i = at + 2;
            return Some(Color::Indexed(low_byte(c)));
        }
        if mode == 2 && params.len() - at > 4 {
            let r: u16 = first_of(&params[at + 2]);
            let g: u16 = first_of(&params[at + 3]);
            let b: u16 = first_of(&params[at + 4]);
            assert(r == first_value(ps[at + 2]));
            assert(g == first_value(ps[at + 3]));
            assert(b == first_value(ps[at + 4]));
            *i = at + 4;
            return Some(Color::Rgb(low_byte(r), low_byte(g), low_byte(b)));
        }
    }
    None
}

/// `list` holds `part` from index `at` on.
pub open spec fn holds_at(list: Seq<Seq<u16>>, at: int, part: Seq<Seq<u16>>) -> bool {
    &&& 0 <= at
    &&& at + part.len() <= list.len()
    &&& forall|k: int| 0 <= k < part.len() ==> #[trigger] list[at + k] == part[k]
}

proof fn lemma_flag_applied(s: Style, list: Seq<Seq<u16>>, at: int, on: bool, n: u16)
    requires
        holds_at(list, at, flag_groups(on, n)),
        n != 38,
        n != 48,
    ensures
        sgr_from(s, list, at) == sgr_from(
            if on {
                sgr_simple(s, seq![n])
            } else {
                s
            },
            list,
            at + flag_groups(on, n).len(),
        ),
{
    reveal(flag_groups);
    if on {
        assert(list[at + 0] == seq![n]);
    }
}

proof fn lemma_underline_applied(s: Style, list: Seq<Seq<u16>>, at: int, u: UnderlineStyle)
    requires
        holds_at(list, at, underline_groups(u)),
        s.underline == UnderlineStyle::Off,
    ensures
        sgr_from(s, list, at) == sgr_from(
            Style { underline: u, ..s },
            list,
            at + underline_groups(u).len(),
        ),
{
    reveal(underline_groups);
    if u != UnderlineStyle::Off {
        assert(list[at + 0] == underline_groups(u)[0]);
    }
}

proof fn lemma_color_applied(s: Style, list: Seq<Seq<u16>>, at: int, color: Option<Color>, base: u16)
    requires
        holds_at(list, at, color_groups(color, base)),
        base == 30 ==> s.fg is None,
        base == 40 ==> s.bg is None,
        base == 30 || base == 40,
    ensures
        sgr_from(s, list, at) == sgr_from(
            if base == 30 {
                Style { fg: color, ..s }
            } else {
                Style { bg: color, ..s }
            },
            list,
            at + color_groups(color, base).len(),
        ),
{
    reveal(color_groups);
    let part = color_groups(color, base);
    match color {
        None => {},
        Some(Color::Indexed(c)) => {
            assert(list[at + 0] == part[0]);
            if c >= 16 {
                assert(list[at + 1] == part[1]);
                assert(list[at + 2] == part[2]);
            }
        },
        Some(Color::Rgb(r, g, b)) => {
            assert(list[at + 0] == part[0]);
            assert(list[at + 1] == part[1]);
            assert(list[at + 2] == part[2]);
            assert(list[at + 3] == part[3]);
            assert(list[at + 4] == part[4]);
        },
    }
}

proof fn lemma_weight_applied(s: Style, list: Seq<Seq<u16>>, at: int)
    requires
        holds_at(list, at, weight_groups(s)),
    ensures
        sgr_from(plain(), list, at) == sgr_from(
            Style { bold: s.bold, dim: s.dim, italic: s.italic, underline: s.underline, ..plain() },
            list,
            at + weight_groups(s).len(),
        ),
{
    reveal(weight_groups);
    let (g0, g1, g2) = (flag_groups(s.bold, 1), flag_groups(s.dim, 2), flag_groups(s.italic, 3));
    let g3 = underline_groups(s.underline);
    let all = weight_groups(s);
    let n1 = g0.len() as int;
    let n2 = n1 + g1.len();
    let n3 = n2 + g2.len();
    assert(forall|k: int| 0 <= k < g0.len() ==> all[k] == g0[k]);
    assert(forall|k: int| 0 <= k < g1.len() ==> all[n1 + k] == g1[k]);
    assert(forall|k: int| 0 <= k < g2.len() ==> all[n2 + k] == g2[k]);
    assert(forall|k: int| 0 <= k < g3.len() ==> all[n3 + k] == g3[k]);
    assert forall|k: int| 0 <= k < g0.len() implies #[trigger] list[at + k] == g0[k] by {}
    assert forall|k: int| 0 <= k < g1.len() implies #[trigger] list[at + n1 + k] == g1[k] by {
        assert(list[at + (n1 + k)] == all[n1 + k]);
    }
    assert forall|k: int| 0 <= k < g2.len() implies #[trigger] list[at + n2 + k] == g2[k] by {
        assert(list[at + (n2 + k)] == all[n2 + k]);
    }
    assert forall|k: int| 0 <= k < g3.len() implies #[trigger] list[at + n3 + k] == g3[k] by {
        assert(list[at + (n3 + k)] == all[n3 + k]);
    }
    let s0 = plain();
    let s1 = Style { bold: s.bold, ..s0 };
    let s2 = Style { dim: s.dim, ..s1 };
    let s3 = Style { italic: s.italic, ..s2 };
    lemma_flag_applied(s0, list, at, s.bold, 1);
    lemma_flag_applied(s1, list, at + n1, s.dim, 2);
    lemma_flag_applied(s2, list, at + n2, s.italic, 3);
    lemma_underline_applied(s3, list, at + n3, s.underline);
}

proof fn lemma_effects_applied(s0: Style, s: Style, list: Seq<Seq<u16>>, at: int)
    requires
        holds_at(list, at, effect_groups(s)),
        !s0.blink && !s0.inverse && !s0.hidden && !s0.strikethrough,
    ensures
        sgr_from(s0, list, at) == sgr_from(
            Style {
                blink: s.blink,
                inverse: s.inverse,
                hidden: s.hidden,
                strikethrough: s.strikethrough,
                ..s0
            },
            list,
            at + effect_groups(s).len(),
        ),
{
    reveal(effect_groups);
    let g0 = flag_groups(s.blink, 5);
    let g1 = flag_groups(s.inverse, 7);
    let g2 = flag_groups(s.hidden, 8);
    let g3 = flag_groups(s.strikethrough, 9);
    let all = effect_groups(s);
    let n1 = g0.len() as int;
    let n2 = n1 + g1.len();
    let n3 = n2 + g2.len();
    assert(forall|k: int| 0 <= k < g0.len() ==> all[k] == g0[k]);
    assert(forall|k: int| 0 <= k < g1.len() ==> all[n1 + k] == g1[k]);
    assert(forall|k: int| 0 <= k < g2.len() ==> all[n2 + k] == g2[k]);
    assert(forall|k: int| 0 <= k < g3.len() ==> all[n3 + k] == g3[k]);
    assert forall|k: int| 0 <= k < g0.len() implies #[trigger] list[at + k] == g0[k] by {}
    assert forall|k: int| 0 <= k < g1.len() implies #[trigger] list[at + n1 + k] == g1[k] by {
        assert(list[at + (n1 + k)] == all[n1 + k]);
    }
    assert forall|k: int| 0 <= k < g2.len() implies #[trigger] list[at + n2 + k] == g2[k] by {
        assert(list[at + (n2 + k)] == all[n2 + k]);
    }
    assert forall|k: int| 0 <= k < g3.len() implies #[trigger] list[at + n3 + k] == g3[k] by {
        assert(list[at + (n3 + k)] == all[n3 + k]);
    }
    let s1 = Style { blink: s.blink, ..s0 };
    let s2 = Style { inverse: s.inverse, ..s1 };
    let s3 = Style { hidden: s.hidden, ..s2 };
    lemma_flag_applied(s0, list, at, s.blink, 5);
    lemma_flag_applied(s1, list, at + n1, s.inverse, 7);
    lemma_flag_applied(s2, list, at + n2, s.hidden, 8);
    lemma_flag_applied(s3, list, at + n3, s.strikethrough, 9);
}

/// A style survives the trip through its escape sequence: the parameters that
/// `to_sgr_with_reset` writes for `s` (a zero, then those of `s`) turn every
/// style into `s`.
pub proof fn law_sgr_round_trip(from: Style, s: Style)
    ensures
        sgr_applied(from, seq![seq![0u16]] + style_groups(s)) == s,
{
    reveal(style_groups);
    let head = seq![seq![0u16]];
    let (g0, g1) = (weight_groups(s), effect_groups(s));
    let (g2, g3) = (color_groups(s.fg, 30), color_groups(s.bg, 40));
    let list = head + style_groups(s);
    let n1 = 1 + g0.len() as int;
    let n2 = n1 + g1.len();
    let n3 = n2 + g2.len();
    assert(list =~= head + g0 + g1 + g2 + g3);
    assert(forall|k: int| 0 <= k < g0.len() ==> #[trigger] list[1 + k] == g0[k]);
    assert(forall|k: int| 0 <= k < g1.len() ==> #[trigger] list[n1 + k] == g1[k]);
    assert(forall|k: int| 0 <= k < g2.len() ==> #[trigger] list[n2 + k] == g2[k]);
    assert(forall|k: int| 0 <= k < g3.len() ==> #[trigger] list[n3 + k] == g3[k]);
    assert(list[0] == seq![0u16]);
    assert(sgr_from(from, list, 0) == sgr_from(plain(), list, 1));
    let s1 = Style {
        bold: s.bold,
        dim: s.dim,
        italic: s.italic,
        underline: s.underline,
        ..plain()
    };
    let s2 = Style {
        blink: s.blink,
        inverse: s.inverse,
        hidden: s.hidden,
        strikethrough: s.strikethrough,
        ..s1
    };
    let s3 = Style { fg: s.fg, ..s2 };
    lemma_weight_applied(s, list, 1);
    lemma_effects_applied(s1, s, list, n1);
    lemma_color_applied(s2, list, n2, s.fg, 30);
    lemma_color_applied(s3, list, n3, s.bg, 40);
    assert(Style { bg: s.bg, ..s3 } == s);
}

/// A zero parameter resets the style.
pub(crate) proof fn lemma_reset(from: Style)
    ensures
        sgr_applied(from, seq![seq![0u16]]) == plain(),
{
    law_sgr_round_trip(from, plain());
    reveal(style_groups);
    reveal(weight_groups);
    reveal(effect_groups);
    reveal(color_groups);
    reveal(flag_groups);
    reveal(underline_groups);
    assert(style_groups(plain()) =~= seq![]);
    assert(seq![seq![0u16]] + style_groups(plain()) =~= seq![seq![0u16]]);
}

/// Parameters are what their numbers are, one by one and in order.
pub proof fn law_params_view(params: Seq<Vec<u16>>, i: int)
    requires
        0 <= i < params.len(),
    ensures
        params_view(params).len() == params.len(),
        params_view(params)[i] == params[i]@,
{
}

} // verus!
