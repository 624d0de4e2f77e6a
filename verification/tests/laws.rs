use std::collections::VecDeque;

use retach::client::output::{cleanup_terminal, dispatch_server_msg};
use retach::protocol::ServerMsg;
use retach::screen::cell::{unpair, Cell};
use retach::screen::grid::{ActiveCharset, Charset, CursorShape};
use retach::screen::performer::{Event, ScreenPerformer};
use retach::screen::style::{Color, Style, UnderlineStyle};
use retach::screen::width::char_width;
use retach::screen::{RenderCache, Screen};
use retach::server::session_bridge::{history_chunks, initial_state, screen_update};

fn same_rows(a: &Screen, b: &Screen) -> bool {
    a.grid.cells == b.grid.cells
}

fn text_of(row: &[Cell]) -> String {
    row.iter().filter(|c| c.width > 0).map(|c| c.c).collect()
}

/// A fresh screen of the same size that was fed the full frame of `screen`.
fn attached(screen: &Screen) -> Screen {
    let mut cache = RenderCache::new();
    let frame = screen.render(true, &mut cache);
    let mut outer = Screen::new(screen.grid.cols, screen.grid.rows, 100);
    outer.process(&frame);
    outer
}

#[test]
fn fresh_terminal_shows_the_screen() {
    let mut screen = Screen::new(20, 6, 100);
    screen.process("plain \x1b[1;3;38;5;200mbold\x1b[0m\r\n\u{4e16}\u{754c}e\u{0301}\x1b[44m x".as_bytes());
    screen.process(b"\x1b[0m\x1b[2;5r\x1b[?1h\x1b[?2004h\x1b[?1003h\x1b[?1006h\x1b[?1004h\x1b=");
    screen.process(b"\x1b)0\x1b[4 q\x1b]2;a title\x07\x1b[3;8H\x1b[?25l");
    let mut outer = attached(&screen);

    assert!(same_rows(&outer, &screen));
    assert_eq!(outer.grid.cursor_x, 7);
    assert_eq!(outer.grid.cursor_y, 2);
    assert_eq!((outer.grid.scroll_top, outer.grid.scroll_bottom), (1, 4));
    assert!(!outer.grid.cursor_visible);
    assert_eq!(outer.grid.modes, screen.grid.modes);
    assert_eq!(outer.grid.modes.cursor_shape, CursorShape::SteadyUnderline);
    assert_eq!(outer.grid.modes.g1_charset, Charset::LineDrawing);
    assert_eq!(outer.grid.modes.active_charset, ActiveCharset::G0);
    assert_eq!(outer.state.title, "a title");
    assert_eq!(outer.state.current_style, Style::default());
    assert!(outer.take_responses().is_empty());
    assert!(outer.take_passthrough().is_empty());
    assert!(outer.get_history().is_empty());
}

#[test]
fn full_row_loses_its_last_character() {
    let mut screen = Screen::new(5, 2, 100);
    screen.process(b"abcde");
    let outer = attached(&screen);
    assert_eq!(text_of(&outer.grid.cells[0]), "abcd ");
}

#[test]
fn button_tracking_is_turned_off_by_the_modes_that_follow() {
    let mut screen = Screen::new(5, 2, 100);
    screen.process(b"\x1b[?1000h");
    assert_eq!(screen.grid.modes.mouse_mode, 1000);
    assert_eq!(attached(&screen).grid.modes.mouse_mode, 0);
}

#[test]
fn input_may_be_cut_anywhere() {
    let input = "a\x1b[31mb\u{4e16}\x1b]2;t\u{e9}\x07\r\nc\x1b[2;3Hd\x1b(0q".as_bytes();
    let mut whole = Screen::new(8, 3, 10);
    whole.process(input);
    for cut in 0..input.len() + 1 {
        let mut parts = Screen::new(8, 3, 10);
        parts.process(&input[..cut]);
        parts.process(&input[cut..]);
        assert!(same_rows(&parts, &whole), "cut at {}", cut);
        assert_eq!(parts.grid.cursor_x, whole.grid.cursor_x);
        assert_eq!(parts.grid.cursor_y, whole.grid.cursor_y);
        assert_eq!(parts.state.title, whole.state.title);
    }
}

#[test]
fn events_are_carried_out_as_input_is() {
    let mut fed = Screen::new(8, 3, 10);
    fed.process(b"x\x1b[2;3Hy\x1b[4:3mz\x1b7\x07\x1b]0;name\x07");
    let mut told = Screen::new(8, 3, 10);
    told.perform(&[
        Event::Print('x'),
        Event::Csi { params: vec![vec![2], vec![3]], intermediates: vec![], action: 'H' },
        Event::Print('y'),
        Event::Csi { params: vec![vec![4, 3]], intermediates: vec![], action: 'm' },
    ]);
    told.perform(&[
        Event::Print('z'),
        Event::Esc { intermediates: vec![], byte: 0x37 },
        Event::Execute(7),
        Event::Osc { fields: vec![b"0".to_vec(), b"name".to_vec()] },
    ]);
    assert!(same_rows(&fed, &told));
    assert_eq!(told.grid.cells[1][3].style.underline, UnderlineStyle::Curly);
    assert_eq!(told.state.title, "name");
    assert_eq!(fed.state.title, "name");
    assert_eq!(told.take_passthrough(), vec![vec![7u8]]);
    assert_eq!(told.state.saved_cursor_state, fed.state.saved_cursor_state);
}

#[test]
fn characters_take_columns() {
    assert_eq!(char_width('a'), 1);
    assert_eq!(char_width('~'), 1);
    assert_eq!(char_width('\u{4e16}'), 2);
    assert_eq!(char_width('\u{0301}'), 0);
    assert_eq!(char_width('\u{7}'), 0);
    assert_eq!(char_width('\u{85}'), 0);
}

#[test]
fn wide_character_wraps_at_the_margin() {
    let mut screen = Screen::new(3, 2, 10);
    screen.process("ab\u{4e16}".as_bytes());
    assert_eq!(text_of(&screen.grid.cells[0]), "ab ");
    assert_eq!(screen.grid.cells[1][0].c, '\u{4e16}');
    assert_eq!(screen.grid.cells[1][0].width, 2);
    assert_eq!(screen.grid.cells[1][1].width, 0);
    // Without autowrap there is no room for it
    let mut fixed = Screen::new(3, 2, 10);
    fixed.process("\x1b[?7lab\u{4e16}".as_bytes());
    assert_eq!(text_of(&fixed.grid.cells[0]), "ab ");
    assert_eq!(text_of(&fixed.grid.cells[1]), "   ");
}

#[test]
fn every_style_survives_its_escape_sequence() {
    let style = Style {
        bold: true,
        dim: true,
        italic: true,
        underline: UnderlineStyle::Dashed,
        blink: true,
        inverse: true,
        strikethrough: true,
        hidden: true,
        fg: Some(Color::Indexed(12)),
        bg: Some(Color::Rgb(1, 2, 3)),
    };
    let text = style.to_sgr_with_reset();
    assert_eq!(text, b"\x1b[0;1;2;3;4:5;5;7;8;9;94;48;2;1;2;3m");
    let mut screen = Screen::new(4, 1, 0);
    screen.process(b"\x1b[53;1;31m");
    screen.process(&text);
    assert_eq!(screen.state.current_style, style);
}

#[test]
fn underline_and_cursor_shapes_round_trip() {
    for n in 0..6u8 {
        assert_eq!(UnderlineStyle::from_sgr(n).sgr_param(), n);
    }
    for n in 0..7u8 {
        assert_eq!(CursorShape::from_sgr(n).to_param(), n);
    }
    assert_eq!(CursorShape::from_sgr(9).to_param(), 0);
}

#[test]
fn history_stays_within_its_limit() {
    let mut screen = Screen::new(4, 2, 3);
    for i in 0..20 {
        screen.process(format!("{}\r\n", i).as_bytes());
    }
    assert_eq!(screen.get_history(), vec![b"16".to_vec(), b"17".to_vec(), b"18".to_vec()]);
    assert_eq!(screen.take_pending_scrollback().len(), 3);
    // A limit of zero holds one row
    let mut short = Screen::new(4, 2, 0);
    short.process(b"a\r\nb\r\nc\r\nd");
    assert!(short.get_history().len() <= 1);
}

#[test]
fn only_the_top_of_the_main_screen_scrolls_into_history() {
    let mut screen = Screen::new(4, 3, 10);
    screen.process(b"\x1b[2;3r\x1b[3;1Ha\r\nb\r\nc");
    assert!(screen.get_history().is_empty());
    screen.process(b"\x1b[r\x1b[?1049h\r\n\r\n\r\n\r\n");
    assert!(screen.get_history().is_empty());
}

#[test]
fn saved_cursor_comes_back() {
    let mut screen = Screen::new(10, 4, 10);
    screen.process(b"\x1b[3;5H\x1b[35m\x1b7\x1b[H\x1b[0mtext\x1b[2J\x1b8");
    assert_eq!((screen.grid.cursor_x, screen.grid.cursor_y), (4, 2));
    assert_eq!(screen.state.current_style.fg, Some(Color::Indexed(5)));
    // On a smaller screen it is moved onto it
    screen.resize(3, 2);
    screen.process(b"\x1b8");
    assert_eq!((screen.grid.cursor_x, screen.grid.cursor_y), (2, 1));
}

#[test]
fn main_screen_outlives_the_alternate_one() {
    let mut screen = Screen::new(6, 3, 10);
    screen.process(b"main\x1b[31m\x1b[?1h\x1b[2;4H");
    let before = screen.grid.cells.clone();
    let modes = screen.grid.modes;
    screen.process(b"\x1b[?1049h");
    assert!(screen.grid.cells.iter().all(|row| row.iter().all(|c| *c == Cell::default())));
    assert_eq!((screen.grid.cursor_x, screen.grid.cursor_y), (0, 0));
    screen.process(b"alt\x1b[?1l\x1b[0m\x1b[2;3r\r\n\r\n\r\nmore");
    screen.process(b"\x1b[?1049l");
    assert_eq!(screen.grid.cells, before);
    assert_eq!(screen.grid.modes, modes);
    assert_eq!((screen.grid.cursor_x, screen.grid.cursor_y), (3, 1));
    assert_eq!(screen.state.current_style.fg, Some(Color::Indexed(1)));
    assert!(!screen.in_alt_screen());
}

#[test]
fn reset_leaves_a_new_grid() {
    let mut screen = Screen::new(6, 3, 10);
    screen.process(b"a\r\nb\r\nc\r\nd\x1b[2;3r\x1b[?25l\x1b[?7l\x1b]2;t\x07\x1b[31m");
    screen.process(b"\x1bc");
    let new = Screen::new(6, 3, 10);
    assert!(same_rows(&screen, &new));
    assert_eq!(screen.grid.modes, new.grid.modes);
    assert!(screen.grid.cursor_visible);
    assert_eq!((screen.grid.scroll_top, screen.grid.scroll_bottom), (0, 2));
    assert_eq!(screen.state.title, "");
    assert_eq!(screen.get_history(), vec![b"a".to_vec()]);
}

#[test]
fn resize_keeps_lines() {
    let mut screen = Screen::new(6, 3, 10);
    screen.process(b"a\r\nb\r\nc\r\nd\r\ne");
    assert_eq!(screen.get_history().len(), 2);
    screen.resize(6, 3);
    assert_eq!(text_of(&screen.grid.cells[0]), "c     ");
    assert_eq!(screen.get_history().len(), 2);
    screen.resize(6, 4);
    assert_eq!(text_of(&screen.grid.cells[0]), "b     ");
    assert_eq!(text_of(&screen.grid.cells[3]), "e     ");
    assert_eq!(screen.get_history(), vec![b"a".to_vec()]);
    screen.resize(0, 0);
    assert_eq!((screen.grid.cols, screen.grid.rows), (1, 1));
}

#[test]
fn unchanged_screen_is_not_drawn_again() {
    let mut screen = Screen::new(6, 3, 10);
    screen.process(b"ab\r\ncd");
    let mut cache = RenderCache::new();
    screen.render(true, &mut cache);
    let idle = screen.render(false, &mut cache);
    assert_eq!(idle, b"\x1b[?2026h\x1b[?25l\x1b[2;3H\x1b[?25h\x1b[?2026l");
    screen.process(b"\x1b[1;2HX");
    let changed = screen.render(false, &mut cache);
    assert_eq!(
        changed,
        b"\x1b[?2026h\x1b[?25l\x1b[1;1HaX\x1b[0m\x1b[K\x1b[1;3H\x1b[?25h\x1b[?2026l"
    );
}

#[test]
fn title_must_be_valid_text() {
    let mut screen = Screen::new(6, 3, 10);
    screen.process(b"\x1b]2;first\x07");
    screen.process(b"\x1b]2;\xff\xfe\x07");
    assert_eq!(screen.state.title, "first");
    screen.process("\x1b]0;d\u{e9}j\u{e0}\x07".as_bytes());
    assert_eq!(screen.state.title, "d\u{e9}j\u{e0}");
    // Other commands go to the outer terminal as they came
    screen.process(b"\x1b]52;c;aGk=\x07");
    assert_eq!(screen.take_passthrough(), vec![b"\x1b]52;c;aGk=\x07".to_vec()]);
}

#[test]
fn cleanup_resets_a_terminal() {
    let mut screen = Screen::new(6, 3, 10);
    screen.process(b"ab\x1b[?25l\x1b[?7l\x1b[?1h\x1b[?2004h\x1b[?1003h\x1b[?1006h\x1b[?1004h");
    screen.process(b"\x1b=\x1b[3 q\x1b[1;31m\x1b)0\x0e");
    screen.process(&cleanup_terminal());
    let new = Screen::new(6, 3, 10);
    assert!(screen.grid.cursor_visible);
    assert_eq!(screen.state.current_style, Style::default());
    assert!(screen.grid.modes.autowrap_mode);
    assert_eq!(screen.grid.modes.mouse_mode, 0);
    assert_eq!(screen.grid.modes.cursor_shape, CursorShape::Default);
    // Only the character sets stay
    assert_eq!(screen.grid.modes.g1_charset, Charset::LineDrawing);
    screen.process(b"\x1b)B\x0f");
    assert_eq!(screen.grid.modes, new.grid.modes);
    assert_eq!(text_of(&screen.grid.cells[0]), "ab    ");
}

#[test]
fn scrolled_lines_go_to_the_native_scrollback() {
    let mut session = Screen::new(12, 3, 100);
    let mut outer = Screen::new(12, 3, 1000);
    outer.process(b"old \x1b[41mrow\x1b[0m\r\n");
    outer.process("\u{4e16}\u{754c}\u{4e16}".as_bytes());
    let mut cache = RenderCache::new();
    session.process(b"a\r\n\x1b[1mb\x1b[0m\r\nc\r\nd\r\ne\r\nf\r\ng\r\nlast");
    outer.process(&screen_update(&mut session, &mut cache));
    assert_eq!(outer.get_history(), session.get_history());
    assert_eq!(outer.get_history().len(), 5);
    assert_eq!(outer.get_history()[1], b"\x1b[0;1mb\x1b[0m");
    assert!(same_rows(&outer, &session));
    // The next update adds what came since
    session.process(b"\r\nmore");
    outer.process(&screen_update(&mut session, &mut cache));
    assert_eq!(outer.get_history(), session.get_history());
    assert!(same_rows(&outer, &session));
    assert_eq!((outer.grid.cursor_x, outer.grid.cursor_y), (4, 2));
}

#[test]
fn attaching_brings_history_and_screen() {
    let mut session = Screen::new(12, 3, 100);
    session.process(b"one\r\n\x1b[32mtwo\x1b[0m\r\nthree\r\nfour\r\nfive\r\nsix");
    let mut cache = RenderCache::new();
    let (history, update) = initial_state(&session, &mut cache);
    assert_eq!(history.len(), 3);
    let mut outer = Screen::new(12, 3, 1000);
    for chunk in history_chunks(history) {
        outer.process(&dispatch_server_msg(&ServerMsg::History(chunk)).stdout);
    }
    outer.process(&dispatch_server_msg(&ServerMsg::ScreenUpdate(update)).stdout);
    assert_eq!(outer.get_history(), session.get_history());
    assert!(same_rows(&outer, &session));

    // A short history is followed by the rows that it did not fill
    let mut short = Screen::new(12, 4, 100);
    short.process(b"one\r\n2\r\n3\r\n4\r\n5");
    let (history, update) = initial_state(&short, &mut RenderCache::new());
    let mut outer = Screen::new(12, 4, 1000);
    outer.process(&dispatch_server_msg(&ServerMsg::History(history)).stdout);
    outer.process(&update);
    assert_eq!(outer.get_history(), vec![b"one".to_vec(), b"".to_vec(), b"".to_vec()]);
    assert!(same_rows(&outer, &short));
}

#[test]
fn changes_keep_a_terminal_up_to_date() {
    let mut session = Screen::new(14, 4, 100);
    let mut outer = Screen::new(14, 4, 100);
    let mut cache = RenderCache::new();
    outer.process(&session.render(true, &mut cache));
    let steps: [&[u8]; 9] = [
        b"first \x1b[1mbold\x1b[0m",
        "\r\n\u{4e16}\u{754c} e\u{0301}".as_bytes(),
        b"\x1b[2;2Hx\x1b[?1h\x1b[?2004h",
        b"\x1b[1;3H\x1b[44m\x1b[4X\x1b[0m\x1b[?1000h\x1b[?1006h",
        b"\x1b[2;3r\x1b[?1003h\x1b[?1005h",
        b"\x1b]2;name\x07\x1b[3;1Hlow\x1b[6 q",
        b"\x1b[?1003l\x1b[?25l\x1b=",
        b"\x1b[r\x1b[2J\x1b[?25h\x1b>\x1b[H\x1b[31mend",
        b"",
    ];
    for (i, step) in steps.iter().enumerate() {
        session.process(step);
        outer.process(&session.render(false, &mut cache));
        assert!(same_rows(&outer, &session), "rows after step {}", i);
        assert_eq!(outer.grid.modes, session.grid.modes, "modes after step {}", i);
        assert_eq!(outer.state.title, session.state.title);
        assert_eq!(outer.grid.cursor_x, session.grid.cursor_x);
        assert_eq!(outer.grid.cursor_y, session.grid.cursor_y);
        assert_eq!(outer.grid.cursor_visible, session.grid.cursor_visible);
        assert_eq!(outer.grid.scroll_top, session.grid.scroll_top);
        assert_eq!(outer.grid.scroll_bottom, session.grid.scroll_bottom);
    }
    assert!(outer.get_history().is_empty());
}

#[test]
fn mouse_settings_are_among_those_there_are() {
    let mut screen = Screen::new(6, 3, 10);
    screen.process(b"\x1b[?1001h\x1b[?1007h\x1b[?1015h");
    assert_eq!(screen.grid.modes.mouse_mode, 0);
    assert_eq!(screen.grid.modes.mouse_encoding, 0);
    screen.process(b"\x1b[?1000;1002;1005h");
    assert_eq!(screen.grid.modes.mouse_mode, 1002);
    assert_eq!(screen.grid.modes.mouse_encoding, 1005);
    screen.process(b"\x1b[?1000l");
    assert_eq!(screen.grid.modes.mouse_mode, 0);
}

/// The characters of a row, with `~` for the second half of a wide one.
fn halves_of(row: &[Cell]) -> String {
    row.iter().map(|c| if c.width == 0 { '~' } else { c.c }).collect()
}

#[test]
fn both_halves_of_a_wide_character_are_erased() {
    let mut fill = Cell::default();
    fill.style.bg = Some(Color::Indexed(4));
    for x in 1..3 {
        let mut screen = Screen::new(5, 1, 0);
        screen.process("a\u{4e16}b".as_bytes());
        let mut row = screen.grid.cells[0].clone();
        unpair(&mut row, x, &fill);
        assert_eq!(row[0], screen.grid.cells[0][0]);
        assert_eq!(row[1], fill);
        assert_eq!(row[2], fill);
        assert_eq!(row[3], screen.grid.cells[0][3]);
        assert_eq!(row[4], screen.grid.cells[0][4]);
    }
}

#[test]
fn erasing_next_to_a_wide_character_leaves_no_half() {
    // The range ends before it
    let mut screen = Screen::new(8, 1, 0);
    screen.process("ab\u{4e16}cd\x1b[H\x1b[2X".as_bytes());
    assert_eq!(halves_of(&screen.grid.cells[0]), "    cd  ");
    // The range ends between its halves
    let mut screen = Screen::new(8, 1, 0);
    screen.process("ab\u{4e16}cd\x1b[H\x1b[3X".as_bytes());
    assert_eq!(halves_of(&screen.grid.cells[0]), "    cd  ");
    // The range starts between its halves
    let mut screen = Screen::new(8, 1, 0);
    screen.process("ab\u{4e16}cd\x1b[1;4H\x1b[X".as_bytes());
    assert_eq!(halves_of(&screen.grid.cells[0]), "ab  cd  ");
}

#[test]
fn inserting_at_a_wide_character_leaves_no_half() {
    for col in 3..5 {
        let mut screen = Screen::new(8, 1, 0);
        screen.process(format!("ab\u{4e16}cd\x1b[1;{}H\x1b[@", col).as_bytes());
        assert_eq!(halves_of(&screen.grid.cells[0]), "ab   cd ");
        assert!(screen.grid.cells[0].iter().all(|c| c.width == 1));
    }
    // One that is pushed across the right margin is erased
    let mut screen = Screen::new(6, 1, 0);
    screen.process("abcd\u{4e16}\x1b[H\x1b[@".as_bytes());
    assert_eq!(halves_of(&screen.grid.cells[0]), " abcd ");
}

#[test]
fn edited_wide_rows_come_back() {
    let mut screen = Screen::new(16, 3, 10);
    screen.process("\u{4e16}\u{754c}\u{4e16}ab\r\n\u{754c}x\u{754c}y".as_bytes());
    screen.process(b"\x1b[1;4H\x1b[2@\x1b[1;2H\x1b[P\x1b[2;2H\x1b[3X");
    assert!(same_rows(&attached(&screen), &screen));
    screen.process("\x1b[1;3H\u{4e16}\x1b[1;6Hq\x1b[2;5H\x1b[1K".as_bytes());
    assert!(same_rows(&attached(&screen), &screen));
}

#[test]
fn wide_character_at_the_margin_cuts_the_one_before_it() {
    let mut screen = Screen::new(4, 2, 10);
    screen.process("ab\u{4e16}\x1b[1;4H\u{754c}".as_bytes());
    assert_eq!(screen.grid.cells[0][2].width, 2);
    assert_eq!(screen.grid.cells[0][3].width, 1);
    assert_eq!(halves_of(&screen.grid.cells[1]), "\u{754c}~  ");
}

#[test]
fn alternate_screen_keeps_history_and_region() {
    let mut screen = Screen::new(6, 3, 10);
    screen.process(b"a\r\nb\r\nc\r\nd\x1b[2;3r\x1b[2;2H");
    let history = screen.get_history();
    screen.process(b"\x1b[?1049h1\r\n2\r\n3\r\n4\x1b8\x1b[u\x1b[?1048labcdef\x1b[?1049l");
    assert_eq!(screen.get_history(), history);
    assert!(!screen.grid.wrap_pending);
    assert_eq!((screen.grid.cursor_x, screen.grid.cursor_y), (1, 1));
    assert_eq!((screen.grid.scroll_top, screen.grid.scroll_bottom), (0, 2));
    // Unless a program erases it there
    screen.process(b"\x1b[?1049h\x1b[3J\x1b[?1049l");
    assert!(screen.get_history().is_empty());
    assert_eq!(text_of(&screen.grid.cells[2]), "d     ");
}

#[test]
fn saved_cursor_brings_back_character_sets_and_autowrap() {
    let mut screen = Screen::new(6, 3, 10);
    screen.process(b"\x1b[?1h\x1b)0\x0e\x1b[2;3H\x1b7");
    screen.process(b"\x1b)B\x1b(0\x0f\x1b[?7l\x1b[?1l\x1b[1;2r\x1b8\x1b[H\x1b[u");
    assert_eq!((screen.grid.cursor_x, screen.grid.cursor_y), (2, 1));
    assert_eq!(screen.grid.modes.g0_charset, Charset::Ascii);
    assert_eq!(screen.grid.modes.g1_charset, Charset::LineDrawing);
    assert_eq!(screen.grid.modes.active_charset, ActiveCharset::G1);
    assert!(screen.grid.modes.autowrap_mode);
    assert!(!screen.grid.wrap_pending);
    // What a save does not hold stays
    assert!(!screen.grid.modes.cursor_key_mode);
    assert_eq!((screen.grid.scroll_top, screen.grid.scroll_bottom), (0, 1));
    // With nothing saved nothing changes
    let mut fresh = Screen::new(6, 3, 10);
    fresh.process(b"\x1b[2;3H\x1b[31m\x1b8\x1b[u");
    assert_eq!((fresh.grid.cursor_x, fresh.grid.cursor_y), (2, 1));
    assert_eq!(fresh.state.current_style.fg, Some(Color::Indexed(1)));
}

#[test]
fn only_changed_modes_are_sent() {
    let mut screen = Screen::new(6, 3, 10);
    let mut cache = RenderCache::new();
    screen.render(true, &mut cache);
    screen.process(b"\x1b[?1h\x1b[?1002h\x1b[?1006h\x1b)0");
    let frame = screen.render(false, &mut cache);
    assert_eq!(
        frame,
        b"\x1b[?2026h\x1b[?25l\x1b[1;1H\x1b[?1h\x1b[?1002h\x1b[?1005l\x1b[?1006h\x1b)0\x1b[?25h\x1b[?2026l"
    );
}

#[test]
fn widening_keeps_wide_characters_whole() {
    let mut screen = Screen::new(4, 2, 10);
    screen.process("ab\u{4e16}".as_bytes());
    screen.resize(6, 2);
    assert_eq!(halves_of(&screen.grid.cells[0]), "ab\u{4e16}~  ");
    assert!(same_rows(&attached(&screen), &screen));
}

#[test]
fn full_frame_is_the_same_over_any_cache() {
    let mut screen = Screen::new(6, 2, 10);
    screen.process("x\u{4e16}\x1b[?1h".as_bytes());
    let mut used = RenderCache::new();
    screen.render(true, &mut used);
    screen.process(b"\x1b[31my\x1b[?2004h");
    let mut unused = RenderCache::new();
    assert_eq!(screen.render(true, &mut used), screen.render(true, &mut unused));
}

#[test]
fn performer_saves_and_switches() {
    let mut screen = Screen::new(6, 3, 10);
    screen.process(b"abc\x1b[31m");
    let before = screen.grid.cells.clone();
    let mut scrollback = VecDeque::new();
    let mut pending = VecDeque::new();
    let mut performer = ScreenPerformer {
        grid: &mut screen.grid,
        state: &mut screen.state,
        scrollback: &mut scrollback,
        scrollback_limit: 10,
        pending_scrollback: &mut pending,
    };
    // Nothing was saved yet
    performer.restore_cursor();
    assert_eq!((performer.grid.cursor_x, performer.grid.cursor_y), (3, 0));
    performer.enter_alt_screen(true);
    performer.print('z');
    assert!(performer.state.in_alt_screen);
    performer.exit_alt_screen(true);
    assert!(!performer.state.in_alt_screen);
    assert_eq!((performer.grid.cursor_x, performer.grid.cursor_y), (3, 0));
    assert_eq!(performer.grid.cells, before);
    performer.save_cursor();
    performer.print('d');
    performer.restore_cursor();
    assert_eq!(performer.grid.cursor_x, 3);
    assert_eq!(performer.state.current_style.fg, Some(Color::Indexed(1)));
    assert!(scrollback.is_empty() && pending.is_empty());
}
