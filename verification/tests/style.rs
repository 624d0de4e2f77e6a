use retach::screen::style::{Color, Style, UnderlineStyle};

#[test]
fn sgr_round_trip_default() {
    let style = Style::default();
    assert!(style.to_sgr().is_empty());
}

#[test]
fn sgr_round_trip_bold() {
    let mut style = Style::default();
    style.bold = true;
    let sgr = style.to_sgr();
    assert_eq!(sgr, b"\x1b[1m");

    let mut parsed = Style::default();
    parsed.apply_sgr(&[vec![1]]);
    assert_eq!(parsed, style);
}

#[test]
fn sgr_round_trip_fg_indexed() {
    let mut style = Style::default();
    style.fg = Some(Color::Indexed(1));
    let sgr = style.to_sgr();
    assert_eq!(sgr, b"\x1b[31m");

    let mut parsed = Style::default();
    parsed.apply_sgr(&[vec![31]]);
    assert_eq!(parsed, style);
}

#[test]
fn sgr_round_trip_256_color() {
    let mut style = Style::default();
    style.fg = Some(Color::Indexed(200));
    let sgr = style.to_sgr();
    assert_eq!(sgr, b"\x1b[38;5;200m");

    let mut parsed = Style::default();
    parsed.apply_sgr(&[vec![38], vec![5], vec![200]]);
    assert_eq!(parsed, style);
}

#[test]
fn sgr_round_trip_rgb() {
    let mut style = Style::default();
    style.fg = Some(Color::Rgb(100, 150, 200));
    let sgr = style.to_sgr();
    assert_eq!(sgr, b"\x1b[38;2;100;150;200m");

    let mut parsed = Style::default();
    parsed.apply_sgr(&[vec![38], vec![2], vec![100], vec![150], vec![200]]);
    assert_eq!(parsed, style);
}

#[test]
fn sgr_reset() {
    let mut style = Style::default();
    style.bold = true;
    style.fg = Some(Color::Indexed(1));
    style.apply_sgr(&[vec![0]]);
    assert_eq!(style, Style::default());
}

#[test]
fn sgr_colon_separated_subparams() {
    let mut style = Style::default();
    // 38:5:200 as colon-separated subparams
    style.apply_sgr(&[vec![38, 5, 200]]);
    assert_eq!(style.fg, Some(Color::Indexed(200)));
}

// --- New tests ---

#[test]
fn sgr_underline_variants() {
    // double underline
    let mut s = Style::default();
    s.underline = UnderlineStyle::Double;
    let sgr = s.to_sgr();
    assert_eq!(sgr, b"\x1b[4:2m", "double underline should use 4:2");

    // curly underline
    s.underline = UnderlineStyle::Curly;
    let sgr = s.to_sgr();
    assert_eq!(sgr, b"\x1b[4:3m", "curly underline should use 4:3");

    // dotted underline
    s.underline = UnderlineStyle::Dotted;
    let sgr = s.to_sgr();
    assert_eq!(sgr, b"\x1b[4:4m", "dotted underline should use 4:4");

    // dashed underline
    s.underline = UnderlineStyle::Dashed;
    let sgr = s.to_sgr();
    assert_eq!(sgr, b"\x1b[4:5m", "dashed underline should use 4:5");
}

#[test]
fn sgr_bright_colors() {
    // Bright fg: indices 8-15 → codes 90-97
    let mut s = Style::default();
    s.fg = Some(Color::Indexed(8));
    assert_eq!(s.to_sgr(), b"\x1b[90m");

    s.fg = Some(Color::Indexed(15));
    assert_eq!(s.to_sgr(), b"\x1b[97m");

    // Bright bg: indices 8-15 → codes 100-107
    s.fg = None;
    s.bg = Some(Color::Indexed(8));
    assert_eq!(s.to_sgr(), b"\x1b[100m");

    s.bg = Some(Color::Indexed(15));
    assert_eq!(s.to_sgr(), b"\x1b[107m");
}

#[test]
fn sgr_all_attributes_combined() {
    let s = Style {
        bold: true,
        dim: true,
        italic: true,
        underline: UnderlineStyle::Single,
        blink: true,
        inverse: true,
        strikethrough: true,
        hidden: true,
        fg: Some(Color::Indexed(1)),
        bg: Some(Color::Indexed(4)),
    };
    let sgr = s.to_sgr();
    let text = String::from_utf8_lossy(&sgr);
    // All attribute codes should be present
    assert!(text.contains("1;"), "bold");
    assert!(text.contains("2;"), "dim");
    assert!(text.contains("3;"), "italic");
    assert!(text.contains(";4;"), "underline");
    assert!(text.contains(";5;"), "blink");
    assert!(text.contains(";7;"), "inverse");
    assert!(text.contains(";9;"), "strikethrough");
    assert!(text.contains(";8;"), "hidden");
    assert!(text.contains("31"), "red fg");
    assert!(text.contains("44"), "blue bg");
}

#[test]
fn sgr_dim_attribute() {
    let mut s = Style::default();
    s.dim = true;
    assert_eq!(s.to_sgr(), b"\x1b[2m");
}

#[test]
fn sgr_inverse_attribute() {
    let mut s = Style::default();
    s.inverse = true;
    assert_eq!(s.to_sgr(), b"\x1b[7m");
}

#[test]
fn sgr_blink_attribute() {
    let mut s = Style::default();
    s.blink = true;
    assert_eq!(s.to_sgr(), b"\x1b[5m");
}

#[test]
fn sgr_strikethrough_attribute() {
    let mut s = Style::default();
    s.strikethrough = true;
    assert_eq!(s.to_sgr(), b"\x1b[9m");
}

#[test]
fn sgr_with_reset_default() {
    let s = Style::default();
    assert_eq!(s.to_sgr_with_reset(), b"\x1b[0m");
}

#[test]
fn sgr_with_reset_styled() {
    let mut s = Style::default();
    s.bold = true;
    s.fg = Some(Color::Indexed(1)); // red
    let sgr = s.to_sgr_with_reset();
    assert_eq!(sgr, b"\x1b[0;1;31m", "reset+bold+red");
}
