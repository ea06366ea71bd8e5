use streampager::line::{height, rows_needed};

#[test]
fn empty_line_takes_one_row() {
    assert_eq!(height(b"", 80), 1);
    assert_eq!(height(b"", 1), 1);
}

#[test]
fn short_line_takes_one_row() {
    assert_eq!(height(b"hello", 80), 1);
}

#[test]
fn long_line_wraps() {
    let line = vec![b'x'; 100];
    assert_eq!(height(&line, 80), 2);
    assert_eq!(height(&line, 50), 2);
    assert_eq!(height(&line, 49), 3);
    assert_eq!(height(&line, 10), 10);
    assert_eq!(height(&line, 100), 1);
}

#[test]
fn wide_glyphs_take_two_columns() {
    // Four CJK characters, two cells each.
    let line = "日本語文".as_bytes();
    assert_eq!(height(line, 80), 1);
    assert_eq!(height(line, 3), 3);
    assert_eq!(height(line, 4), 2);
}

#[test]
fn zero_width_counts_as_one_column() {
    assert_eq!(height(b"abc", 0), 3);
}

#[test]
fn invalid_utf8_still_measured() {
    let line = [0xffu8, 0xfe, b'a'];
    assert!(height(&line, 1) >= 1);
}

#[test]
fn rows_needed_exact_values() {
    assert_eq!(rows_needed(0, 80), 1);
    assert_eq!(rows_needed(80, 80), 1);
    assert_eq!(rows_needed(81, 80), 2);
    assert_eq!(rows_needed(160, 80), 2);
    assert_eq!(rows_needed(7, 0), 7);
    assert_eq!(rows_needed(usize::MAX, 1), usize::MAX);
    assert_eq!(rows_needed(usize::MAX, 2), usize::MAX / 2 + 1);
}

#[test]
fn wider_screen_never_adds_rows() {
    let line = vec![b'y'; 237];
    let mut last = height(&line, 1);
    for w in 2..300 {
        let h = height(&line, w);
        assert!(h >= 1);
        assert!(h <= last);
        last = h;
    }
}
