use streampager::event::{Event, InputKind};
use streampager::fit::files_fit;
use streampager::lifecycle::Phase;
use streampager::pager::Pager;

fn lines(n: usize) -> Vec<u8> {
    let mut v = Vec::new();
    for i in 0..n {
        v.extend_from_slice(format!("line {}\n", i).as_bytes());
    }
    v
}

#[test]
fn error_stream_pairs_with_previous_output() {
    let mut p = Pager::new();
    let out = p.add_output_stream("stdout");
    let err = p.add_error_stream("stderr");
    assert_eq!(out, 0);
    assert_eq!(err, 1);
    assert_eq!(p.file_count(), 2);
    assert_eq!(p.error_file_count(), 1);
    assert_eq!(p.error_file(out), Some(err));
    assert_eq!(p.error_file(err), None);
}

#[test]
fn second_error_stream_pairs_with_last_output() {
    let mut p = Pager::new();
    let out = p.add_output_stream("stdout");
    let err1 = p.add_error_stream("stderr 1");
    let err2 = p.add_error_stream("stderr 2");
    assert_eq!(p.error_file(out), Some(err2));
    assert_eq!(p.error_file(err1), None);
    assert_eq!(p.error_file_count(), 1);
    let out2 = p.add_output_stream("stdout 2");
    let err3 = p.add_error_stream("stderr 3");
    assert_eq!(p.error_file(out2), Some(err3));
    assert_eq!(p.error_file(out), Some(err2));
    assert_eq!(p.error_file_count(), 2);
}

#[test]
fn clean_end_publishes_unterminated_line() {
    let mut p = Pager::new();
    let i = p.add_output_stream("out");
    let mut s = p.run(80, 24);
    s.step(Some(Event::Received(i, b"a
b".to_vec())), false);
    assert_eq!(s.step(Some(Event::Loaded(i)), false), Phase::DirectFlush);
    assert_eq!(s.flush_lines(), vec![b"a".to_vec(), b"b".to_vec()]);
}

#[test]
fn error_stream_first_pairs_with_nothing() {
    let mut p = Pager::new();
    assert_eq!(p.add_error_stream("stderr"), 0);
    assert_eq!(p.error_file_count(), 0);
}

#[test]
fn settings() {
    let mut p = Pager::new();
    assert!(p.delay_fullscreen());
    p.set_delay_fullscreen(false);
    assert!(!p.delay_fullscreen());
    assert!(p.progress().is_none());
    p.set_progress_stream();
    assert!(p.progress().is_some());
}

#[test]
fn short_output_is_flushed() {
    let mut p = Pager::new();
    let i = p.add_output_stream("out");
    let mut s = p.run(80, 24);
    assert_eq!(s.phase(), Phase::DecidingFit);
    assert_eq!(s.step(Some(Event::Received(i, b"a\nb\nc\n".to_vec())), false), Phase::DecidingFit);
    assert_eq!(s.step(Some(Event::Loaded(i)), false), Phase::DirectFlush);
    let out = s.flush_lines();
    assert_eq!(out, vec![b"a".to_vec(), b"b".to_vec(), b"c".to_vec()]);
}

#[test]
fn endless_stream_goes_interactive_at_deadline() {
    let mut p = Pager::new();
    let i = p.add_output_stream("tail");
    let mut s = p.run(80, 24);
    assert_eq!(s.step(Some(Event::Received(i, b"first\nsecond\n".to_vec())), false), Phase::DecidingFit);
    assert_eq!(s.step(None, false), Phase::DecidingFit);
    assert_eq!(s.step(None, true), Phase::Interactive);
    let pager = s.into_pager();
    let f = pager.file(i).unwrap();
    assert_eq!(f.line_count(), 2);
    assert_eq!(f.line(0), Some(&b"first"[..]));
    assert_eq!(f.line(1), Some(&b"second"[..]));
    assert!(!f.is_loaded());
}

#[test]
fn key_press_ends_the_wait() {
    let mut p = Pager::new();
    let i = p.add_output_stream("out");
    let mut s = p.run(80, 24);
    s.step(Some(Event::Received(i, b"tiny\n".to_vec())), false);
    assert_eq!(s.step(Some(Event::Input(InputKind::Key)), false), Phase::Interactive);
    // The decision is final.
    assert_eq!(s.step(Some(Event::Loaded(i)), false), Phase::Interactive);
}

#[test]
fn overflow_ends_the_wait_early() {
    let mut p = Pager::new();
    let i = p.add_output_stream("out");
    let mut s = p.run(80, 24);
    assert_eq!(s.step(Some(Event::Received(i, lines(24))), false), Phase::DecidingFit);
    assert_eq!(s.step(Some(Event::Received(i, lines(1))), false), Phase::Interactive);
}

#[test]
fn exactly_a_screenful_fits() {
    let mut p = Pager::new();
    let i = p.add_output_stream("out");
    let mut s = p.run(80, 24);
    s.step(Some(Event::Received(i, lines(24))), false);
    assert_eq!(s.step(Some(Event::Loaded(i)), false), Phase::DirectFlush);
    assert_eq!(s.flush_lines().len(), 24);
}

#[test]
fn hundred_lines_do_not_fit() {
    let mut p = Pager::new();
    let i = p.add_output_stream("out");
    let mut s = p.run(80, 24);
    s.step(Some(Event::Received(i, lines(100))), false);
    let pager = s.into_pager();
    assert!(!files_fit(pager.files(), 80, 24));
    assert!(files_fit(pager.files(), 80, 100));
    assert!(!files_fit(pager.files(), 80, 99));
}

#[test]
fn wrapped_rows_are_counted() {
    let mut p = Pager::new();
    let i = p.add_output_stream("out");
    let mut s = p.run(10, 3);
    let mut data = vec![b'z'; 25];
    data.push(b'\n');
    s.step(Some(Event::Received(i, data)), false);
    let pager = s.into_pager();
    assert!(files_fit(pager.files(), 10, 3));
    assert!(!files_fit(pager.files(), 10, 2));
    assert!(files_fit(pager.files(), 25, 1));
}

#[test]
fn resize_is_taken_into_account() {
    let mut p = Pager::new();
    let i = p.add_output_stream("out");
    let mut s = p.run(80, 24);
    s.step(Some(Event::Received(i, lines(10))), false);
    let ev = Event::Input(InputKind::Resized { cols: 80, rows: 5 });
    assert_eq!(s.step(Some(ev), false), Phase::Interactive);
    assert_eq!(s.screen_size(), (80, 5));
}

#[test]
fn all_sources_must_load() {
    let mut p = Pager::new();
    let a = p.add_output_stream("out");
    let b = p.add_error_stream("err");
    let mut s = p.run(80, 24);
    s.step(Some(Event::Received(a, b"x\n".to_vec())), false);
    s.step(Some(Event::Received(b, b"y".to_vec())), false);
    assert_eq!(s.step(Some(Event::Loaded(a)), false), Phase::DecidingFit);
    assert!(!s.all_loaded());
    assert_eq!(s.step(Some(Event::Failed(b, "gone".to_string())), false), Phase::DirectFlush);
    // The failed stream's unterminated "y" is not published.
    assert_eq!(s.flush_lines(), vec![b"x".to_vec()]);
}

#[test]
fn no_delay_goes_interactive() {
    let mut p = Pager::new();
    p.add_output_stream("out");
    p.set_delay_fullscreen(false);
    let mut s = p.run(80, 24);
    assert_eq!(s.phase(), Phase::Interactive);
    assert_eq!(s.step(None, false), Phase::Interactive);
}

#[test]
fn unknown_source_events_are_ignored() {
    let mut p = Pager::new();
    let i = p.add_output_stream("out");
    let mut s = p.run(80, 24);
    s.step(Some(Event::Received(7, b"lost\n".to_vec())), false);
    s.step(Some(Event::Loaded(7)), false);
    assert_eq!(s.pager().file(i).unwrap().line_count(), 0);
    assert_eq!(s.phase(), Phase::DecidingFit);
}

#[test]
fn progress_events_reach_progress_state() {
    let mut p = Pager::new();
    p.set_progress_stream();
    let mut s = p.run(80, 24);
    s.step(Some(Event::ProgressUpdated(b"half\x0c".to_vec())), false);
    assert_eq!(s.pager().progress().unwrap().latest(), Some(&b"half"[..]));
}
