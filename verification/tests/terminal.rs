use cursormatrix::Cursor;
use cursormatrix::Event;
use cursormatrix::Term;
use cursormatrix::TermInfo;

fn caps() -> TermInfo {
    TermInfo::from_entries(vec![
        ("cup".to_owned(), b"\x1b[%i%p1%d;%p2%dH".to_vec()),
        ("clear".to_owned(), b"\x1b[H\x1b[2J".to_vec()),
        ("cuu1".to_owned(), b"\x1b[A".to_vec()),
        ("cud1".to_owned(), b"\n".to_vec()),
        ("cub1".to_owned(), b"\x08".to_vec()),
        ("cuf1".to_owned(), b"\x1b[C".to_vec()),
    ])
}

#[test]
fn test_format_with_increment_marker() {
    let s = TermInfo::format("\x1b[%i%p1%d;%p2%dH", &[4, 2]);
    assert_eq!(s, "\x1b[5;3H");
}

#[test]
fn test_format_without_marker() {
    assert_eq!(TermInfo::format("%p1%d+%p2%d", &[10, 20]), "10+20");
    assert_eq!(TermInfo::format("plain", &[7]), "plain");
    // a placeholder with no matching argument stays as it is
    assert_eq!(TermInfo::format("%p3%d", &[1, 2]), "%p3%d");
}

#[test]
fn test_get_string() {
    let t = caps();
    assert_eq!(t.get_string("clear").unwrap(), "\x1b[H\x1b[2J");
    assert!(t.get_string("missing").is_none());
}

#[test]
fn test_cursor_moves_track_position() {
    let t = caps();
    let mut c = Cursor::new(&t).unwrap();
    assert_eq!(c.get_pos(), (0, 0));
    let _ = c.move_to((3, 2));
    assert_eq!(c.get_pos(), (3, 2));
    let _ = c.move_up();
    assert_eq!(c.get_pos(), (3, 1));
    let _ = c.move_left();
    assert_eq!(c.get_pos(), (2, 1));
    let _ = c.move_right(9);
    assert_eq!(c.get_pos(), (3, 1));
    let _ = c.move_down(1);
    // already at the limit: no step
    assert_eq!(c.get_pos(), (3, 1));
}

#[test]
fn test_cursor_edges() {
    let t = caps();
    let mut c = Cursor::new(&t).unwrap();
    let _ = c.move_up();
    let _ = c.move_left();
    assert_eq!(c.get_pos(), (0, 0));
    let _ = c.backspace();
    assert_eq!(c.get_pos(), (0, 0));
    let _ = c.move_to((2, 0));
    let _ = c.backspace();
    assert_eq!(c.get_pos(), (1, 0));
}

#[test]
fn test_term_print_fills_buffer() {
    let mut t = Term::new(10, 3, caps(), false).unwrap();
    let _ = t.print("hi");
    assert_eq!(t.cursor.get_pos(), (2, 0));
    assert_eq!(t.matrix.lines()[0], "hi        ");
}

#[test]
fn test_term_print_respects_xlimit() {
    let mut t = Term::new(10, 3, caps(), false).unwrap();
    t.xlimit = Some(4);
    let _ = t.print("abcdef");
    assert_eq!(t.cursor.get_pos(), (4, 0));
    assert_eq!(t.matrix.lines()[0], "abcd      ");
}

#[test]
fn test_term_cprint_restores_colour_stacks() {
    let mut t = Term::new(10, 3, caps(), false).unwrap();
    let r = t.cprint("ok", Some((250, 250, 250)), Some((3, 4, 5)));
    assert!(r.is_ok() || r.is_err());
    assert!(t.fg.is_empty());
    assert!(t.bg.is_empty());
    assert_eq!(t.matrix.lines()[0], "ok        ");
}

#[test]
fn test_term_moves_clamp() {
    let mut t = Term::new(10, 3, caps(), false).unwrap();
    let _ = t.move_to(100, 100);
    assert_eq!(t.cursor.get_pos(), (9, 2));
    let _ = t.move_home();
    assert_eq!(t.cursor.get_pos(), (0, 2));
    let _ = t.move_top();
    assert_eq!(t.cursor.get_pos(), (0, 0));
    let _ = t.move_end();
    assert_eq!(t.cursor.get_pos(), (9, 0));
    let _ = t.move_bottom();
    assert_eq!(t.cursor.get_pos(), (9, 2));
    let _ = t.move_up();
    assert_eq!(t.cursor.get_pos(), (9, 1));
    let _ = t.move_down();
    let _ = t.move_down();
    assert_eq!(t.cursor.get_pos(), (9, 2));
    let _ = t.move_left();
    assert_eq!(t.cursor.get_pos(), (8, 2));
    let _ = t.move_right();
    assert_eq!(t.cursor.get_pos(), (9, 2));
}

#[test]
fn test_term_resized() {
    let mut t = Term::new(10, 3, caps(), false).unwrap();
    let _ = t.print("hello");
    let e = t.resized(7, 2);
    assert_eq!(e, Event::TermSize(7, 2));
    assert_eq!(t.matrix.width, 7);
    assert_eq!(t.matrix.height, 2);
    assert_eq!(t.matrix.lines()[0], "hello  ");
}

#[test]
fn test_term_clear() {
    let mut t = Term::new(6, 2, caps(), false).unwrap();
    let _ = t.print("junk");
    let _ = t.clear();
    assert_eq!(t.cursor.get_pos(), (0, 0));
    assert_eq!(t.matrix.lines(), vec!["      ".to_owned(), "      ".to_owned()]);
}

#[test]
fn test_term_width_modes() {
    let t = Term::new(10, 3, caps(), false).unwrap();
    assert_eq!(t.width_char('a'), 1);
    assert_eq!(t.width_str("ab\u{3042}"), 4);
}
