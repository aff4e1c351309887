use disbatch::terminal::{
    answer, grid_size, key_to_bytes, line_bytes, plain_number, query_replies, Freeze, Key,
    Scraper, TermProgress, Terminal,
};

#[test]
fn queries_are_answered() {
    assert_eq!(query_replies(b"\x1b[6n", (0, 0)), b"\x1b[1;1R");
    assert_eq!(query_replies(b"ab\x1b[6ncd", (23, 79)), b"\x1b[24;80R");
    assert_eq!(query_replies(b"\x1b[5n", (0, 0)), b"\x1b[0n");
    assert_eq!(query_replies(b"\x1b[c", (0, 0)), b"\x1b[?1;0c");
    assert_eq!(query_replies(b"\x1b[0c", (0, 0)), b"\x1b[?1;0c");
    assert_eq!(query_replies(b"\x1b[6n\x1b[5n", (1, 2)), b"\x1b[2;3R\x1b[0n");
    assert_eq!(query_replies(b"\x1b[6n", (65535, 9)), b"\x1b[65536;10R");
}

#[test]
fn other_output_is_not_answered() {
    assert_eq!(query_replies(b"", (0, 0)), b"");
    assert_eq!(query_replies(b"plain text 6n", (0, 0)), b"");
    assert_eq!(query_replies(b"\x1b[31m red", (0, 0)), b"");
    assert_eq!(query_replies(b"\x1b[6", (0, 0)), b"");
    assert_eq!(query_replies(b"\x1b[66n", (0, 0)), b"");
    assert_eq!(query_replies(b"\x1b6n", (0, 0)), b"");
    // A sequence without an end is skipped, one byte at a time.
    assert_eq!(query_replies(b"\x1b[1\x1b[", (0, 0)), b"");
}

#[test]
fn keys_send_their_bytes() {
    let table: [(Key, &[u8]); 13] = [
        (Key::Enter, b"\r"),
        (Key::Backspace, b"\x7f"),
        (Key::Tab, b"\t"),
        (Key::Escape, b"\x1b"),
        (Key::ArrowUp, b"\x1b[A"),
        (Key::ArrowDown, b"\x1b[B"),
        (Key::ArrowRight, b"\x1b[C"),
        (Key::ArrowLeft, b"\x1b[D"),
        (Key::Home, b"\x1b[H"),
        (Key::End, b"\x1b[F"),
        (Key::Delete, b"\x1b[3~"),
        (Key::PageUp, b"\x1b[5~"),
        (Key::PageDown, b"\x1b[6~"),
    ];
    for (key, bytes) in table {
        assert_eq!(key_to_bytes(key, false), Some(bytes.to_vec()));
        assert_eq!(key_to_bytes(key, true), Some(bytes.to_vec()));
    }
    assert_eq!(key_to_bytes(Key::Other, true), None);
}

#[test]
fn control_combinations_are_numbered() {
    assert_eq!(key_to_bytes(Key::Letter('A'), true), Some(vec![1]));
    assert_eq!(key_to_bytes(Key::Letter('C'), true), Some(vec![3]));
    assert_eq!(key_to_bytes(Key::Letter('Z'), true), Some(vec![26]));
    assert_eq!(key_to_bytes(Key::Letter('A'), false), None);
    assert_eq!(key_to_bytes(Key::Letter('a'), true), None);
}

#[test]
fn progress_is_scraped() {
    let scraper = Scraper::new();
    let mut p = TermProgress::default();
    assert_eq!((p.percent.as_str(), p.status.as_str(), p.seen), ("0", "", false));
    scraper.scrape("nothing here", &mut p);
    assert!(!p.seen);
    scraper.scrape("@progress 10\n@PROGRESS 42.5 done\n@status  Copying files \r\n", &mut p);
    assert_eq!(p.percent, "42.5");
    assert_eq!(p.status, "Copying files");
    assert!(p.seen);
    scraper.scrape("more output", &mut p);
    assert_eq!(p.percent, "42.5");
    // Digits of other scripts are no number.
    scraper.scrape("@progress ٣", &mut p);
    assert_eq!(p.percent, "42.5");
    let mut fresh = TermProgress::default();
    scraper.scrape("@progress ٣", &mut fresh);
    assert!(!fresh.seen);
    assert_eq!(p.clone().status, "Copying files");
}

#[test]
fn reports_are_recorded() {
    let mut p = TermProgress::default();
    p.record(None, None);
    assert!(!p.seen);
    p.record(Some("x".to_string()), None);
    assert!(!p.seen);
    p.record(None, Some("  ".to_string()));
    assert!(p.seen);
    assert_eq!(p.status, "");
    p.record(Some("100".to_string()), None);
    assert_eq!(p.percent, "100");
}

#[test]
fn output_is_taken_in() {
    let scraper = Scraper::new();
    let mut p = TermProgress::default();
    let mut parser = vt100::Parser::new(24, 80, 0);
    parser.process(b"\x1b[5;6H");
    let replies = scraper.take_output(b"\xff@progress 7\x1b[6n", parser.screen(), &mut p);
    assert_eq!(replies, b"\x1b[5;6R");
    assert_eq!(p.percent, "7");
    assert_eq!(answer(b"\x1b[6n", parser.screen()), b"\x1b[5;6R");
}

#[test]
fn numbers_are_plain() {
    for good in ["0", "42", "3.14", "100.0"] {
        assert!(plain_number(good), "{good}");
    }
    for bad in ["", ".", "1.", ".5", "1.2.3", "1a", "-1", "٣", "1.٣"] {
        assert!(!plain_number(bad), "{bad}");
    }
}

#[test]
fn lines_are_typed_with_enter() {
    assert_eq!(line_bytes("dir ä"), "dir ä\r".as_bytes());
    let t = Terminal::new(None);
    assert_eq!(t.send_line(""), b"\r");
    assert_eq!(t.clear(), b"Clear-Host\r");
}

#[test]
fn pausing_toggles() {
    let mut t = Terminal::new(Some(7));
    assert_eq!((t.rows, t.cols), (24, 80));
    assert!(!t.is_paused());
    assert_eq!(t.toggle_pause(), Some(Freeze { pid: 7, suspend: true }));
    assert!(t.is_paused());
    assert_eq!(t.toggle_pause(), Some(Freeze { pid: 7, suspend: false }));
    assert_eq!(t, Terminal::new(Some(7)));
    let mut unknown = Terminal::new(None);
    assert_eq!(unknown.toggle_pause(), None);
    assert!(!unknown.is_paused());
}

#[test]
fn interrupting_resumes_first() {
    let mut t = Terminal::new(Some(7));
    assert_eq!(t.interrupt(), (None, vec![3]));
    t.toggle_pause();
    assert_eq!(t.interrupt(), (Some(Freeze { pid: 7, suspend: false }), vec![3]));
    assert!(!t.is_paused());
}

#[test]
fn sizes_are_clamped() {
    assert_eq!(grid_size(24, 80), (24, 80));
    assert_eq!(grid_size(0, -5), (2, 8));
    assert_eq!(grid_size(i32::MAX, 401), (200, 400));
    let mut t = Terminal::new(None);
    assert_eq!(t.resize(24, 80), None);
    assert_eq!(t.resize(0, 0), Some((1, 1)));
    assert_eq!((t.rows, t.cols), (1, 1));
    assert_eq!(t.resize(1, 1), None);
    assert_eq!(t.resize(30, 1), Some((30, 1)));
}
