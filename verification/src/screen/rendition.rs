//! What each SGR parameter does to a style.

use vstd::prelude::*;

use super::model::{EventView, ScreenView};
use super::style;
use super::style::{Color, Style, UnderlineStyle};

verus! {

/// An SGR sequence changes the style, by its parameters and the style before it, and
/// nothing else.
pub proof fn law_sgr_changes_style(s: ScreenView, params: Seq<Seq<u16>>, intermediates: Seq<u8>)
    ensures
        s.performed(EventView::Csi { params, intermediates, action: 'm' }) == (ScreenView {
            style: style::sgr_applied(s.style, params),
            ..s
        }),
{
    reveal(ScreenView::performed);
}

proof fn lemma_one_parameter(s: Style, p: Seq<u16>)
    requires
        style::first_value(p) != 38,
        style::first_value(p) != 48,
    ensures
        style::sgr_applied(s, seq![p]) == style::sgr_simple(s, p),
{
    reveal_with_fuel(style::sgr_from, 2);
}

proof fn lemma_color_alone(s: Style, p: u16)
    requires
        p == 38 || p == 48,
    ensures
        style::sgr_applied(s, seq![seq![p]]) == s,
{
    reveal_with_fuel(style::sgr_from, 2);
}

proof fn lemma_one_number(s: Style, p: u16)
    ensures
        p != 38 && p != 48 ==> style::sgr_applied(s, seq![seq![p]]) == style::sgr_simple(
            s,
            seq![p],
        ),
        p == 38 || p == 48 ==> style::sgr_applied(s, seq![seq![p]]) == s,
{
    if p == 38 || p == 48 {
        lemma_color_alone(s, p);
    } else {
        lemma_one_parameter(s, seq![p]);
    }
}

/// Foreground: 30 to 37 and 90 to 97 choose one of sixteen colors, 39 and 0 the default
/// one, and no other parameter on its own touches it.
pub proof fn law_foreground(s: Style, p: u16)
    ensures
        ({
            let fg = style::sgr_applied(s, seq![seq![p]]).fg;
            &&& 30 <= p <= 37 ==> fg == Some(Color::Indexed((p - 30) as u8))
            &&& 90 <= p <= 97 ==> fg == Some(Color::Indexed((p - 82) as u8))
            &&& p == 39 || p == 0 ==> fg is None
            &&& !(30 <= p <= 37) && !(90 <= p <= 97) && p != 39 && p != 0 ==> fg == s.fg
        }),
{
    lemma_one_number(s, p);
}

/// Background: 40 to 47 and 100 to 107 choose one of sixteen colors, 49 and 0 the default
/// one, and no other parameter on its own touches it.
pub proof fn law_background(s: Style, p: u16)
    ensures
        ({
            let bg = style::sgr_applied(s, seq![seq![p]]).bg;
            &&& 40 <= p <= 47 ==> bg == Some(Color::Indexed((p - 40) as u8))
            &&& 100 <= p <= 107 ==> bg == Some(Color::Indexed((p - 92) as u8))
            &&& p == 49 || p == 0 ==> bg is None
            &&& !(40 <= p <= 47) && !(100 <= p <= 107) && p != 49 && p != 0 ==> bg == s.bg
        }),
{
    lemma_one_number(s, p);
}

/// Each attribute is set by its own parameter (blinking by two), undone by its own reset
/// parameter and by 0, and left alone by all others. Bold and dim share a reset.
pub proof fn law_attributes(s: Style, p: u16)
    ensures
        ({
            let t = style::sgr_applied(s, seq![seq![p]]);
            &&& t.bold == (p == 1 || (s.bold && p != 22 && p != 0))
            &&& t.dim == (p == 2 || (s.dim && p != 22 && p != 0))
            &&& t.italic == (p == 3 || (s.italic && p != 23 && p != 0))
            &&& t.blink == (p == 5 || p == 6 || (s.blink && p != 25 && p != 0))
            &&& t.inverse == (p == 7 || (s.inverse && p != 27 && p != 0))
            &&& t.hidden == (p == 8 || (s.hidden && p != 28 && p != 0))
            &&& t.strikethrough == (p == 9 || (s.strikethrough && p != 29 && p != 0))
            &&& p == 4 ==> t.underline == UnderlineStyle::Single
            &&& p == 21 ==> t.underline == UnderlineStyle::Double
            &&& p == 24 || p == 0 ==> t.underline == UnderlineStyle::Off
            &&& p != 4 && p != 21 && p != 24 && p != 0 ==> t.underline == s.underline
        }),
{
    lemma_one_number(s, p);
}

/// What a parameter sets, its reset undoes, so that the style is the one before; where
/// the attribute was not set.
#[verifier::rlimit(50)]
pub proof fn law_reset_undoes(s: Style)
    ensures
        ({
            let after = |p: u16, q: u16|
                style::sgr_applied(style::sgr_applied(s, seq![seq![p]]), seq![seq![q]]);
            &&& !s.bold && !s.dim ==> after(1, 22) == s && after(2, 22) == s
            &&& !s.italic ==> after(3, 23) == s
            &&& s.underline == UnderlineStyle::Off ==> after(4, 24) == s && after(21, 24) == s
            &&& !s.blink ==> after(5, 25) == s && after(6, 25) == s
            &&& !s.inverse ==> after(7, 27) == s
            &&& !s.hidden ==> after(8, 28) == s
            &&& !s.strikethrough ==> after(9, 29) == s
            &&& s.fg is None ==> after(31, 39) == s && after(97, 39) == s
            &&& s.bg is None ==> after(41, 49) == s && after(107, 49) == s
        }),
{
    lemma_undone(s, 1, 22);
    lemma_undone(s, 2, 22);
    lemma_undone(s, 3, 23);
    lemma_undone(s, 4, 24);
    lemma_undone(s, 21, 24);
    lemma_undone(s, 5, 25);
    lemma_undone(s, 6, 25);
    lemma_undone(s, 7, 27);
    lemma_undone(s, 8, 28);
    lemma_undone(s, 9, 29);
    lemma_undone(s, 31, 39);
    lemma_undone(s, 97, 39);
    lemma_undone(s, 41, 49);
    lemma_undone(s, 107, 49);
}

proof fn lemma_undone(s: Style, p: u16, q: u16)
    requires
        p != 38 && p != 48 && q != 38 && q != 48,
    ensures
        style::sgr_applied(style::sgr_applied(s, seq![seq![p]]), seq![seq![q]])
            == style::sgr_simple(style::sgr_simple(s, seq![p]), seq![q]),
{
    lemma_one_number(s, p);
    lemma_one_number(style::sgr_simple(s, seq![p]), q);
}

/// Without parameters, and with an empty or zero one, the style is reset: no attribute,
/// no color.
pub proof fn law_reset(s: Style)
    ensures
        ({
            let t = style::sgr_applied(s, seq![]);
            &&& t == (Style {
                bold: false,
                dim: false,
                italic: false,
                underline: UnderlineStyle::Off,
                blink: false,
                inverse: false,
                strikethrough: false,
                hidden: false,
                fg: None,
                bg: None,
            })
            &&& style::sgr_applied(s, seq![seq![]]) == t
            &&& style::sgr_applied(s, seq![seq![0]]) == t
        }),
{
    lemma_one_parameter(s, seq![]);
    lemma_one_number(s, 0);
}

/// `4:n` chooses the underline style `n`: none, single, double, curly, dotted or dashed;
/// a single one for any other number. Nothing else changes.
pub proof fn law_underline_styles(s: Style, n: u16)
    requires
        n < 256,
    ensures
        ({
            let t = style::sgr_applied(s, seq![seq![4, n]]);
            &&& t == (Style { underline: t.underline, ..s })
            &&& n == 0 ==> t.underline == UnderlineStyle::Off
            &&& n == 1 ==> t.underline == UnderlineStyle::Single
            &&& n == 2 ==> t.underline == UnderlineStyle::Double
            &&& n == 3 ==> t.underline == UnderlineStyle::Curly
            &&& n == 4 ==> t.underline == UnderlineStyle::Dotted
            &&& n == 5 ==> t.underline == UnderlineStyle::Dashed
            &&& n > 5 ==> t.underline == UnderlineStyle::Single
        }),
{
    lemma_one_parameter(s, seq![4, n]);
}

// Several parameters

proof fn lemma_later(s: Style, a: Seq<Seq<u16>>, b: Seq<Seq<u16>>, i: int)
    requires
        0 <= i <= b.len(),
    ensures
        style::sgr_from(s, a + b, a.len() + i) == style::sgr_from(s, b, i),
    decreases b.len() - i,
{
    let list = a + b;
    if i < b.len() {
        let at = a.len() + i;
        assert forall|k: int| 0 <= k < b.len() implies #[trigger] b[k] == list[a.len() + k] by {}
        assert(list[at] == b[i]);
        if i + 1 < b.len() {
            assert(list[at + 1] == b[i + 1]);
        }
        if i + 2 < b.len() {
            assert(list[at + 2] == b[i + 2]);
        }
        if i + 3 < b.len() {
            assert(list[at + 3] == b[i + 3]);
        }
        if i + 4 < b.len() {
            assert(list[at + 4] == b[i + 4]);
        }
        let (next, j) = style::sgr_step(s, b, i);
        let (next2, j2) = style::sgr_step(s, list, at);
        assert(next2 == next && j2 == a.len() + j);
        lemma_later(next, a, b, j);
    }
}

/// Parameters apply one after the other: the first one, unless it introduces a color, and
/// then the rest.
pub proof fn law_parameters_in_order(s: Style, p: Seq<u16>, rest: Seq<Seq<u16>>)
    requires
        rest.len() > 0,
        p.len() == 0 || (p[0] != 38 && p[0] != 48),
    ensures
        style::sgr_applied(s, seq![p] + rest) == style::sgr_applied(
            style::sgr_applied(s, seq![p]),
            rest,
        ),
{
    lemma_one_parameter(s, p);
    assert((seq![p] + rest)[0] == p);
    lemma_later(style::sgr_simple(s, p), seq![p], rest, 0);
}

proof fn lemma_color_first(s: Style, color: Seq<Seq<u16>>, rest: Seq<Seq<u16>>, c: Color)
    requires
        color.len() > 0,
        color[0].len() > 0,
        color[0][0] == 38 || color[0][0] == 48,
        style::extended_color(color + rest, 0) == (Some(c), color.len() - 1),
    ensures
        ({
            let t = if color[0][0] == 38 {
                Style { fg: Some(c), ..s }
            } else {
                Style { bg: Some(c), ..s }
            };
            &&& rest.len() == 0 ==> style::sgr_applied(s, color + rest) == t
            &&& rest.len() > 0 ==> style::sgr_applied(s, color + rest) == style::sgr_applied(
                t,
                rest,
            )
        }),
{
    let t = if color[0][0] == 38 {
        Style { fg: Some(c), ..s }
    } else {
        Style { bg: Some(c), ..s }
    };
    assert((color + rest)[0] == color[0]);
    assert(style::sgr_step(s, color + rest, 0) == (t, color.len() as int));
    lemma_later(t, color, rest, 0);
}

/// The foreground, or the background, and no more of a style changed to a color.
pub open spec fn colored(s: Style, p: u16, c: Color) -> Style {
    if p == 38 {
        Style { fg: Some(c), ..s }
    } else {
        Style { bg: Some(c), ..s }
    }
}

/// `38;5;n` and `38:5:n` choose the foreground from the palette, `48` the background. Of a
/// number the low eight bits count. The parameters behind them apply as if they came alone.
pub proof fn law_palette_colors(s: Style, p: u16, n: u16, rest: Seq<Seq<u16>>)
    requires
        p == 38 || p == 48,
    ensures
        ({
            let t = colored(s, p, Color::Indexed((n % 256) as u8));
            let flat = seq![seq![p], seq![5], seq![n]];
            let sub = seq![seq![p, 5, n]];
            &&& style::sgr_applied(s, flat) == t
            &&& style::sgr_applied(s, sub) == t
            &&& rest.len() > 0 ==> style::sgr_applied(s, flat + rest) == style::sgr_applied(t, rest)
            &&& rest.len() > 0 ==> style::sgr_applied(s, sub + rest) == style::sgr_applied(t, rest)
        }),
{
    let c = Color::Indexed((n % 256) as u8);
    let flat = seq![seq![p], seq![5u16], seq![n]];
    let sub = seq![seq![p, 5u16, n]];
    assert(flat + seq![] =~= flat);
    assert(sub + seq![] =~= sub);
    assert((flat + rest)[0] == flat[0] && (flat + rest)[1] == flat[1] && (flat + rest)[2]
        == flat[2]);
    assert((sub + rest)[0] == sub[0]);
    lemma_color_first(s, flat, seq![], c);
    lemma_color_first(s, flat, rest, c);
    lemma_color_first(s, sub, seq![], c);
    lemma_color_first(s, sub, rest, c);
}

/// `38;2;r;g;b`, `38:2:r:g:b` and `38:2:space:r:g:b` choose the foreground by its
/// components, `48` the background. The parameters behind them apply as if they came
/// alone.
#[verifier::rlimit(50)]
pub proof fn law_direct_colors(
    s: Style,
    p: u16,
    r: u16,
    g: u16,
    b: u16,
    space: u16,
    rest: Seq<Seq<u16>>,
)
    requires
        p == 38 || p == 48,
    ensures
        ({
            let t = colored(s, p, Color::Rgb((r % 256) as u8, (g % 256) as u8, (b % 256) as u8));
            let flat = seq![seq![p], seq![2], seq![r], seq![g], seq![b]];
            let sub = seq![seq![p, 2, r, g, b]];
            let long = seq![seq![p, 2, space, r, g, b]];
            &&& style::sgr_applied(s, flat) == t
            &&& style::sgr_applied(s, sub) == t
            &&& style::sgr_applied(s, long) == t
            &&& rest.len() > 0 ==> style::sgr_applied(s, flat + rest) == style::sgr_applied(t, rest)
            &&& rest.len() > 0 ==> style::sgr_applied(s, sub + rest) == style::sgr_applied(t, rest)
            &&& rest.len() > 0 ==> style::sgr_applied(s, long + rest) == style::sgr_applied(t, rest)
        }),
{
    let c = Color::Rgb((r % 256) as u8, (g % 256) as u8, (b % 256) as u8);
    let flat = seq![seq![p], seq![2u16], seq![r], seq![g], seq![b]];
    let sub = seq![seq![p, 2u16, r, g, b]];
    let long = seq![seq![p, 2u16, space, r, g, b]];
    assert(flat + seq![] =~= flat);
    assert(sub + seq![] =~= sub);
    assert(long + seq![] =~= long);
    assert((flat + rest)[0] == flat[0] && (flat + rest)[1] == flat[1] && (flat + rest)[2] == flat[2]
        && (flat + rest)[3] == flat[3] && (flat + rest)[4] == flat[4]);
    assert((sub + rest)[0] == sub[0]);
    assert((long + rest)[0] == long[0]);
    lemma_color_first(s, flat, seq![], c);
    lemma_color_first(s, flat, rest, c);
    lemma_color_first(s, sub, seq![], c);
    lemma_color_first(s, sub, rest, c);
    lemma_color_first(s, long, seq![], c);
    lemma_color_first(s, long, rest, c);
}

/// A color that is not complete changes nothing, and what follows its introducer applies.
pub proof fn law_incomplete_color(s: Style, p: u16, rest: Seq<Seq<u16>>)
    requires
        p == 38 || p == 48,
        rest.len() > 0,
        !(rest[0].len() > 0 && rest[0][0] == 5 && rest.len() >= 2),
        !(rest[0].len() > 0 && rest[0][0] == 2 && rest.len() >= 4),
    ensures
        style::sgr_applied(s, seq![seq![p]] + rest) == style::sgr_applied(s, rest),
{
    let list = seq![seq![p]] + rest;
    assert(list[0] == seq![p]);
    assert(list[1] == rest[0]);
    lemma_later(s, seq![seq![p]], rest, 0);
}

/// Of a parameter with subparameters only its first number counts, but for underlines,
/// whose style is the low eight bits of the second number, and colors.
pub proof fn law_subparameters(s: Style, p: Seq<u16>)
    requires
        p.len() > 1,
        p[0] != 38,
        p[0] != 48,
    ensures
        p[0] != 4 ==> style::sgr_applied(s, seq![p]) == style::sgr_applied(s, seq![seq![p[0]]]),
        p[0] == 4 ==> style::sgr_applied(s, seq![p]) == style::sgr_applied(
            s,
            seq![seq![4, (p[1] % 256) as u16]],
        ),
{
    lemma_one_parameter(s, p);
    lemma_one_parameter(s, seq![p[0]]);
    lemma_one_parameter(s, seq![4, (p[1] % 256) as u16]);
}

/// A color by subparameters is complete with a palette index or three components; more
/// subparameters do not matter. One that is not complete changes nothing.
pub proof fn law_subparameter_colors(s: Style, p: Seq<u16>, rest: Seq<Seq<u16>>)
    requires
        p.len() > 1,
        p[0] == 38 || p[0] == 48,
        rest.len() > 0,
    ensures
        ({
            let palette = p.len() >= 3 && p[1] == 5;
            let direct = p.len() >= 5 && p[1] == 2;
            let at: int = if p.len() == 5 {
                2
            } else {
                3
            };
            let t = if palette {
                colored(s, p[0], Color::Indexed((p[2] % 256) as u8))
            } else if direct {
                colored(
                    s,
                    p[0],
                    Color::Rgb(
                        (p[at] % 256) as u8,
                        (p[at + 1] % 256) as u8,
                        (p[at + 2] % 256) as u8,
                    ),
                )
            } else {
                s
            };
            &&& style::sgr_applied(s, seq![p]) == t
            &&& style::sgr_applied(s, seq![p] + rest) == style::sgr_applied(t, rest)
        }),
{
    let list = seq![p] + rest;
    assert(list[0] == p);
    let (next, j) = style::sgr_step(s, list, 0);
    assert(j == 1);
    lemma_later(next, seq![p], rest, 0);
    assert(style::sgr_step(s, seq![p], 0) == (next, 1int));
    reveal_with_fuel(style::sgr_from, 2);
}

} // verus!
