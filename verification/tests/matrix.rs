use cursormatrix::Matrix;
use cursormatrix::Rune;

#[test]
fn test_put_and_read_back() {
    let mut m = Matrix::new(10, 2);
    let (end, vis) = m.put_buffer(2, 0, 5, "ab");
    assert_eq!(end, 7);
    assert_eq!(vis, "ab   ");
    let lines = m.lines();
    assert_eq!(lines[0], "  ab      ");
    assert_eq!(lines[1], "          ");
}

#[test]
fn test_put_truncates_at_edge() {
    let mut m = Matrix::new(5, 1);
    let (end, vis) = m.put_buffer(3, 0, 4, "xyz");
    assert_eq!(end, 5);
    assert_eq!(vis, "xy");
    assert_eq!(m.lines()[0], "   xy");
}

#[test]
fn test_wide_glyph_fits() {
    let mut m = Matrix::new(5, 1);
    let (end, vis) = m.put_buffer(3, 0, 2, "\u{3042}");
    assert_eq!(end, 5);
    assert_eq!(vis, "\u{3042}");
    assert_eq!(m.lines()[0], "   \u{3042}");
}

#[test]
fn test_wide_glyph_at_clip_edge_is_blanked() {
    // a two-column glyph straddling the last column renders nothing there
    let mut m = Matrix::new(5, 1);
    let (end, vis) = m.put_buffer(4, 0, 2, "\u{3042}");
    assert_eq!(end, 5);
    assert_eq!(vis, " ");
    assert_eq!(m.lines()[0], "     ");
}

#[test]
fn test_overwrite_half_of_wide_glyph_blanks_owner() {
    let mut m = Matrix::new(6, 1);
    let _ = m.put_buffer(0, 0, 2, "\u{3042}");
    assert_eq!(m.lines()[0], "\u{3042}    ");
    // overwrite the pad column: the orphaned owner must not survive
    let _ = m.put_buffer(1, 0, 1, "x");
    assert_eq!(m.lines()[0], " x    ");
}

#[test]
fn test_combining_mark_shares_cell() {
    let mut m = Matrix::new(4, 1);
    let (end, vis) = m.put_buffer(0, 0, 1, "a\u{300}");
    assert_eq!(end, 1);
    assert_eq!(vis, "a\u{300}");
    assert_eq!(m.lines()[0], "a\u{300}   ");
}

#[test]
fn test_refresh_preserves_overlap() {
    let mut m = Matrix::new(8, 4);
    let _ = m.put_buffer(0, 0, 3, "one");
    let _ = m.put_buffer(0, 1, 3, "two");
    let _ = m.put_buffer(0, 3, 4, "gone");
    m.refresh(10, 2);
    assert_eq!(m.width, 10);
    assert_eq!(m.height, 2);
    let lines = m.lines();
    assert_eq!(lines.len(), 2);
    assert_eq!(lines[0], "one       ");
    assert_eq!(lines[1], "two       ");
}

#[test]
fn test_refresh_shrink_width() {
    let mut m = Matrix::new(8, 1);
    let _ = m.put_buffer(0, 0, 8, "abcdefgh");
    m.refresh(3, 1);
    assert_eq!(m.lines()[0], "abc");
}

#[test]
fn test_refresh_shrink_splits_wide_glyph() {
    let mut m = Matrix::new(4, 1);
    let _ = m.put_buffer(0, 0, 4, "ab\u{3042}");
    assert_eq!(m.lines()[0], "ab\u{3042}");
    // the cut falls between the glyph and its pad: it becomes a blank
    m.refresh(3, 1);
    assert_eq!(m.lines()[0], "ab ");
}

#[test]
fn test_clear_blanks_grid() {
    let mut m = Matrix::new(4, 2);
    let _ = m.put_buffer(0, 0, 4, "full");
    m.clear();
    assert_eq!(m.lines(), vec!["    ".to_owned(), "    ".to_owned()]);
}

#[test]
fn test_fill_line() {
    let m = Matrix::new(20, 1);
    assert_eq!(m.fill_line("hi", 5, ' '), "hi   ");
    let t = m.fill_line("hello world", 5, ' ');
    assert_eq!(t, "hello");
    assert_eq!(m.fill_line("ab", 4, '.'), "ab..");
    // a wide glyph that would split the budget is dropped, then padded
    assert_eq!(m.fill_line("a\u{3042}\u{3042}", 4, ' '), "a\u{3042} ");
}

#[test]
fn test_rune_measurement() {
    let r = Rune::from_str("a", false);
    match r {
        Rune::UStr(s, w) => {
            assert_eq!(s, "a");
            assert_eq!(w, 1);
        },
        Rune::Pad => panic!("expected a text cell"),
    }
    let mut r2 = Rune::from_str("\u{3042}", false);
    match &r2 {
        Rune::UStr(_, w) => assert_eq!(*w, 2),
        Rune::Pad => panic!("expected a text cell"),
    }
    let r3 = r2.push_str("!", false);
    match r3 {
        Rune::UStr(s, w) => {
            assert_eq!(s, "\u{3042}!");
            assert_eq!(w, 3);
        },
        Rune::Pad => panic!("expected a text cell"),
    }
}

#[test]
fn test_width_functions() {
    assert_eq!(cursormatrix::col_width_char('a', false), 1);
    assert_eq!(cursormatrix::col_width_char('\u{3042}', false), 2);
    assert_eq!(cursormatrix::col_width_char('\u{7}', false), 0);
    assert_eq!(cursormatrix::col_width_str("ab\u{3042}", false), 4);
    assert_eq!(cursormatrix::col_width_str("", true), 0);
}

#[test]
fn test_put_zero_width_and_empty_text() {
    let mut m = Matrix::new(4, 1);
    let (end, vis) = m.put_buffer(1, 0, 0, "xyz");
    assert_eq!(end, 1);
    assert_eq!(vis, "");
    assert_eq!(m.lines()[0], "    ");
    let (end2, vis2) = m.put_buffer(1, 0, 2, "");
    assert_eq!(end2, 3);
    assert_eq!(vis2, "  ");
    assert_eq!(m.lines()[0], "    ");
}

#[test]
fn test_fill_line_empty() {
    let m = Matrix::new(4, 1);
    assert_eq!(m.fill_line("", 3, '.'), "...");
    assert_eq!(m.fill_line("abc", 0, '.'), "");
}

#[test]
fn test_empty_matrix() {
    let m = Matrix::new(0, 0);
    assert_eq!(m.width, 0);
    assert_eq!(m.height, 0);
    assert!(m.lines().is_empty());
}
