use disbatch::emulator::Emulator;
use disbatch::screen::Snapshot;
use disbatch::terminal::{Scraper, TermProgress, Terminal};

fn session(rows: u16, cols: u16) -> Terminal {
    let mut t = Terminal::new(None);
    t.resize(rows, cols);
    t
}

fn drawn(shot: &Snapshot, row: usize) -> String {
    shot.rows[row].iter().map(|r| r.text.as_str()).collect()
}

#[test]
fn an_emulator_starts_empty() {
    let e = Emulator::new(&Terminal::new(Some(7)));
    let shot = e.snapshot();
    assert_eq!(shot.rows.len(), 24);
    assert_eq!(drawn(&shot, 0), " ".repeat(80));
    assert_eq!(drawn(&shot, 23), " ".repeat(80));
    assert_eq!(shot.cursor, (0, 0));
    assert!(!shot.cursor_hidden);
}

#[test]
fn input_is_drawn_and_answered() {
    let scraper = Scraper::new();
    let mut progress = TermProgress::default();
    let mut e = Emulator::new(&session(3, 12));
    let replies = e.take_input(&scraper, b"ab\r\n@progress 7", &mut progress);
    assert_eq!(replies, b"");
    assert_eq!(progress.percent, "7");
    let shot = e.snapshot();
    assert_eq!(drawn(&shot, 0), "ab          ");
    assert_eq!(drawn(&shot, 1), "@progress 7 ");
    assert_eq!(shot.cursor, (1, 11));
    // The cursor is reported where the whole piece leaves it.
    let replies = e.take_input(&scraper, b"\x1b[6n\x1b[3;2Hx\x1b[?25l", &mut progress);
    assert_eq!(replies, b"\x1b[3;3R");
    assert_eq!(progress.percent, "7");
    let shot = e.snapshot();
    assert_eq!(drawn(&shot, 2), " x          ");
    assert!(shot.cursor_hidden);
}

#[test]
fn input_may_come_in_pieces() {
    let scraper = Scraper::new();
    let mut progress = TermProgress::default();
    let mut e = Emulator::new(&session(2, 4));
    e.take_input(&scraper, b"\x1b[2;", &mut progress);
    e.take_input(&scraper, b"3Hz", &mut progress);
    assert_eq!(drawn(&e.snapshot(), 1), "  z ");
}

#[test]
fn wide_characters_stay_whole() {
    let scraper = Scraper::new();
    let mut progress = TermProgress::default();
    let mut e = Emulator::new(&session(2, 3));
    e.take_input(&scraper, "日本\x1b[1;2Hx\x1b[2;1H\x1b[@\x1b[P\x1b[K".as_bytes(), &mut progress);
    assert_eq!(drawn(&e.snapshot(), 0), " x ");
    assert_eq!(e.snapshot().cursor, (1, 0));
}

#[test]
fn emulators_are_resized() {
    let scraper = Scraper::new();
    let mut progress = TermProgress::default();
    let mut e = Emulator::new(&session(2, 3));
    e.take_input(&scraper, b"abc", &mut progress);
    e.resize(4, 5);
    let shot = e.snapshot();
    assert_eq!(shot.rows.len(), 4);
    assert_eq!(drawn(&shot, 0), "abc  ");
    let replies = e.take_input(&scraper, b"\x1b[4;5H\x1b[6n", &mut progress);
    assert_eq!(replies, b"\x1b[4;5R");
    e.resize(2, 3);
    assert_eq!(drawn(&e.snapshot(), 0), "abc");
    assert_eq!(e.snapshot().cursor, (1, 2));
}

#[test]
fn small_grids_are_drawn() {
    let mut e = Emulator::new(&session(1, 1));
    assert_eq!(drawn(&e.snapshot(), 0), " ");
    e.resize(3, 2);
    assert_eq!(e.snapshot().rows.len(), 3);
    assert_eq!(drawn(&e.snapshot(), 2), "  ");
}
