use dekit::term::attrs::{Attrs, Color};
use dekit::term::grid::{BorderType, Cell, CursorStyle, Grid};
use dekit::term::mouse::{MouseEvent, MouseEventKind};
use dekit::term::key::KeyMods;
use dekit::term::rect::{Pos, Rect, Size};
use dekit::term::screen::{SharedVt, VtTable};
use dekit::term::width::column_count;
use dekit::text::{decimal_string, find_alphabetic, is_whitespace, parse_usize, to_chars, trim};

fn grid(width: u16, height: u16) -> Grid {
    Grid::new(Size { width, height }, 0)
}

fn text(g: &Grid, row: u16) -> String {
    (0..g.size().width)
        .map(|col| {
            let s = g.drawing_cell(Pos { col, row }).unwrap().contents();
            if s.is_empty() { ".".to_string() } else { s }
        })
        .collect()
}

#[test]
fn text_is_cut_at_whole_characters() {
    let mut g = grid(6, 1);
    let r = g.draw_text(Rect::new(1, 0, 4, 1), "abcdef", Attrs::plain());
    assert_eq!((r.width, text(&g, 0).as_str()), (4, ".abcd."));
    let mut g = grid(6, 1);
    let r = g.draw_text(Rect::new(0, 0, 3, 1), "\u{65e5}\u{672c}", Attrs::plain());
    assert_eq!((r.width, text(&g, 0).as_str()), (2, "\u{65e5}....."));
    let r = g.draw_text(Rect::new(0, 0, 6, 0), "x", Attrs::plain());
    assert_eq!((r.width, r.height), (0, 0));
}

#[test]
fn control_characters_take_no_room() {
    let mut g = grid(4, 1);
    let r = g.draw_text(Rect::new(0, 0, 4, 1), "a\u{7}b", Attrs::plain());
    assert_eq!((r.width, text(&g, 0).as_str()), (2, "ab.."));
}

#[test]
fn borders_and_fillings_stay_in_their_area() {
    let mut g = grid(5, 4);
    g.draw_block(Rect::new(1, 0, 3, 3), &BorderType::Plain.chars(), Attrs::plain());
    g.fill_area(Rect::new(2, 1, 1, 1), 'x', Attrs::plain().fg(Color::Red));
    assert_eq!(text(&g, 0), ".┌─┐.");
    assert_eq!(text(&g, 1), ".│x│.");
    assert_eq!(text(&g, 2), ".└─┘.");
    assert_eq!(text(&g, 3), ".....");
    assert_eq!(g.drawing_cell(Pos { col: 2, row: 1 }).unwrap().attrs.fg, Color::Red);
    assert!(g.drawing_cell(Pos { col: 5, row: 0 }).is_none());
    g.erase_all(Attrs::plain());
    assert_eq!(text(&g, 1), ".....");
}

#[test]
fn cells_outside_of_a_grid_are_not_drawn() {
    let mut g = grid(2, 1);
    g.put(Pos { col: 5, row: 5 }, Cell { ch: Some('x'), attrs: Attrs::plain() });
    g.put(Pos { col: 1, row: 0 }, Cell { ch: Some('y'), attrs: Attrs::plain() });
    assert_eq!(text(&g, 0), ".y");
    g.place_cursor(Pos { col: 1, row: 0 }, CursorStyle::Bar);
    assert_eq!((g.cursor_pos, g.cursor_style), (Some(Pos { col: 1, row: 0 }), CursorStyle::Bar));
    let rest = g.write_line(Rect::new(0, 0, 2, 1), "z", Attrs::plain());
    assert_eq!(rest, Rect::new(1, 0, 1, 1));
}

#[test]
fn areas_shrink_and_shift() {
    assert_eq!(Rect::new(2, 3, 10, 5).inner(1), Rect::new(3, 4, 8, 3));
    assert_eq!(Rect::new(2, 3, 1, 1).inner(1), Rect::new(3, 4, 0, 0));
    assert_eq!(Rect::new(2, 3, 10, 5).move_left(4), Rect::new(6, 3, 6, 5));
    assert_eq!(Rect::new(2, 3, 10, 5).move_left(40), Rect::new(12, 3, 0, 5));
    assert_eq!(Rect::new(2, 3, 10, 5).size(), Size { width: 10, height: 5 });
}

#[test]
fn mouse_events_are_seen_from_an_area() {
    let e = MouseEvent { kind: MouseEventKind::Moved, x: 5, y: 6, mods: KeyMods::none() };
    let local = e.translate(Rect::new(2, 10, 1, 1));
    assert_eq!((local.x, local.y), (3, -4));
}

#[test]
fn terminals_have_numbers() {
    let mut vts = VtTable::new();
    assert_eq!(vts.add_terminal(24, 80, 5), SharedVt(0));
    assert_eq!(vts.add_terminal(2, 3, 0), SharedVt(1));
    assert_eq!(vts.read(SharedVt(1)).unwrap().size, Size { width: 3, height: 2 });
    assert!(vts.read(SharedVt(2)).is_none());
    assert!(vts.screens[0].cell(0, 0).is_none());
}

#[test]
fn numbers_are_read_and_written() {
    assert_eq!(decimal_string(0), "0");
    assert_eq!(decimal_string(u64::MAX), "18446744073709551615");
    assert_eq!(parse_usize(&to_chars("x+12"), 1), Some(12));
    assert_eq!(parse_usize(&to_chars("12a"), 0), None);
    assert_eq!(parse_usize(&to_chars(""), 0), None);
    assert_eq!(parse_usize(&to_chars("99999999999999999999999"), 0), None);
}

#[test]
fn space_and_letters_are_those_of_unicode() {
    let chars = to_chars("\u{3000} a\u{a0}b \n");
    assert_eq!(trim(&chars), to_chars("a\u{a0}b"));
    assert_eq!(find_alphabetic(&to_chars("12\u{e4}")), 2);
    assert_eq!(find_alphabetic(&to_chars("1.5")), 3);
    for n in 0..=0x10ffffu32 {
        if let Some(c) = char::from_u32(n) {
            assert_eq!(is_whitespace(c), c.is_whitespace(), "{n:x}");
        }
    }
    for n in 0..0x80u8 {
        let letter = (b'a'..=b'z').contains(&n) || (b'A'..=b'Z').contains(&n);
        assert_eq!(find_alphabetic(&vec![n as char]) == 0, letter, "{n:x}");
    }
}

#[test]
fn printable_ascii_takes_one_column_each() {
    let all: String = (0x20..0x7fu8).map(|b| b as char).collect();
    assert_eq!(column_count(&all), 95);
    assert_eq!(column_count(""), 0);
    assert_eq!(column_count("\u{65e5}"), 2);
    assert_eq!(column_count(&"x".repeat(65537)), 1);
}
