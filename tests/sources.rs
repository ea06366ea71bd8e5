use streampager::decode::RecordSplitter;
use streampager::progress::Progress;
use streampager::source::{LoadState, Source};

#[test]
fn splitter_keeps_unfinished_record() {
    let mut s = RecordSplitter::new(b'\n');
    let out = s.feed(b"ab\ncd");
    assert_eq!(out, vec![b"ab".to_vec()]);
    let out = s.feed(b"e\n\nf");
    assert_eq!(out, vec![b"cde".to_vec(), Vec::new()]);
    assert_eq!(s.finish(), Some(b"f".to_vec()));
    assert_eq!(s.finish(), None);
}

#[test]
fn source_publishes_complete_lines_in_order() {
    let mut src = Source::new(3, "out");
    assert_eq!(src.index(), 3);
    assert_eq!(src.title(), "out");
    assert_eq!(src.line_count(), 0);
    src.feed(b"one\ntw");
    assert_eq!(src.line_count(), 1);
    src.feed(b"o\nthree");
    assert_eq!(src.line_count(), 2);
    assert_eq!(src.line(1), Some(&b"two"[..]));
    assert!(!src.is_loaded());
    src.finish(None);
    assert!(src.is_loaded());
    assert!(matches!(src.state(), LoadState::Loaded));
    assert_eq!(src.line_count(), 3);
    assert_eq!(src.line(2), Some(&b"three"[..]));
}

#[test]
fn line_count_never_decreases() {
    let mut src = Source::new(0, "t");
    let mut last = 0;
    for chunk in [&b"a"[..], b"\n", b"bb\ncc", b"", b"\n\n"] {
        src.feed(chunk);
        let n = src.line_count();
        assert!(n >= last);
        last = n;
    }
    assert_eq!(last, 4);
}

#[test]
fn with_line_out_of_range_is_none() {
    let mut src = Source::new(0, "t");
    src.feed(b"x\ny\n");
    assert_eq!(src.with_line(0, |l: &[u8]| l.len()), Some(1));
    assert_eq!(src.with_line(1, |l: &[u8]| l.to_vec()), Some(b"y".to_vec()));
    assert_eq!(src.with_line(2, |l: &[u8]| l.len()), None);
    assert_eq!(src.with_line(usize::MAX, |l: &[u8]| l.len()), None);
}

#[test]
fn failed_source_keeps_its_lines() {
    let mut src = Source::new(0, "t");
    src.feed(b"kept\npartial");
    src.finish(Some("broken pipe".to_string()));
    assert!(src.is_loaded());
    match src.state() {
        LoadState::Failed(reason) => assert_eq!(reason, "broken pipe"),
        _ => panic!("expected a failed state"),
    }
    assert_eq!(src.line_count(), 1);
    assert_eq!(src.line(0), Some(&b"kept"[..]));
    assert_eq!(src.line(1), None);
}

#[test]
fn empty_tail_adds_no_line() {
    let mut src = Source::new(0, "t");
    src.feed(b"a\n");
    src.finish(None);
    assert_eq!(src.line_count(), 1);
}

#[test]
fn progress_shows_latest_record() {
    let mut p = Progress::new();
    assert_eq!(p.latest(), None);
    p.feed(b"10%");
    assert_eq!(p.latest(), None);
    p.feed(b"\x0c20%\x0c30");
    assert_eq!(p.latest(), Some(&b"20%"[..]));
    p.feed(b"%\x0c");
    assert_eq!(p.latest(), Some(&b"30%"[..]));
}
