use disbatch::screen::{
    ansi_idx, default_bg, default_fg, draw_cell, row_runs, snapshot, to_rgb, Cell, Color, Rgb,
};

fn rgb(r: u8, g: u8, b: u8) -> Rgb {
    Rgb { r, g, b }
}

fn cell(text: &str, fg: Color, inverse: bool) -> Option<Cell> {
    Some(Cell { text: text.to_string(), fg, bg: Color::Default, inverse })
}

#[test]
fn palette_has_base_colors() {
    let base = [
        (0, 0, 0), (205, 0, 0), (0, 205, 0), (205, 205, 0),
        (0, 0, 238), (205, 0, 205), (0, 205, 205), (229, 229, 229),
        (127, 127, 127), (255, 0, 0), (0, 255, 0), (255, 255, 0),
        (92, 92, 255), (255, 0, 255), (0, 255, 255), (255, 255, 255),
    ];
    for (i, (r, g, b)) in base.iter().enumerate() {
        assert_eq!(ansi_idx(i as u8), rgb(*r, *g, *b));
    }
}

#[test]
fn palette_has_a_cube_and_greys() {
    assert_eq!(ansi_idx(16), rgb(0, 0, 0));
    assert_eq!(ansi_idx(17), rgb(0, 0, 95));
    assert_eq!(ansi_idx(22), rgb(0, 95, 0));
    assert_eq!(ansi_idx(52), rgb(95, 0, 0));
    assert_eq!(ansi_idx(231), rgb(255, 255, 255));
    assert_eq!(ansi_idx(232), rgb(8, 8, 8));
    assert_eq!(ansi_idx(255), rgb(238, 238, 238));
}

#[test]
fn colors_are_drawn() {
    assert_eq!(to_rgb(Color::Default, rgb(1, 2, 3)), rgb(1, 2, 3));
    assert_eq!(to_rgb(Color::Idx(9), rgb(1, 2, 3)), rgb(255, 0, 0));
    assert_eq!(to_rgb(Color::Rgb(4, 5, 6), rgb(1, 2, 3)), rgb(4, 5, 6));
    assert_eq!(default_bg(), rgb(18, 18, 18));
    assert_eq!(default_fg(), rgb(220, 220, 220));
}

#[test]
fn cells_are_drawn() {
    let r = draw_cell(&None);
    assert_eq!((r.text.as_str(), r.fg, r.bg), (" ", default_fg(), default_bg()));
    let r = draw_cell(&cell("", Color::Idx(1), true));
    assert_eq!((r.text.as_str(), r.fg, r.bg), (" ", default_bg(), rgb(205, 0, 0)));
}

#[test]
fn cells_of_one_style_are_grouped() {
    let row = vec![
        cell("a", Color::Default, false),
        None,
        cell("b", Color::Idx(1), false),
        cell("c", Color::Rgb(205, 0, 0), false),
        cell("", Color::Default, false),
    ];
    let runs = row_runs(&row);
    let texts: Vec<&str> = runs.iter().map(|r| r.text.as_str()).collect();
    assert_eq!(texts, vec!["a ", "bc", " "]);
    assert_eq!(runs[1].fg, rgb(205, 0, 0));
    assert_eq!(row_runs(&vec![]).len(), 0);
}

#[test]
fn screens_are_read() {
    let mut parser = vt100::Parser::new(3, 6, 0);
    parser.process(b"ab\x1b[31mcd\x1b[0m\r\n\x1b[7mx\x1b[0m\x1b[48;2;1;2;3my\x1b[?25l");
    let s = snapshot(parser.screen());
    assert_eq!(s.rows.len(), 3);
    let texts: Vec<Vec<&str>> =
        s.rows.iter().map(|row| row.iter().map(|r| r.text.as_str()).collect()).collect();
    assert_eq!(texts, vec![vec!["ab", "cd", "  "], vec!["x", "y", "    "], vec!["      "]]);
    assert_eq!(s.rows[0][1].fg, rgb(205, 0, 0));
    assert_eq!((s.rows[1][0].fg, s.rows[1][0].bg), (default_bg(), default_fg()));
    assert_eq!(s.rows[1][1].bg, rgb(1, 2, 3));
    assert_eq!(s.cursor, (1, 2));
    assert!(s.cursor_hidden);
    let plain = vt100::Parser::new(1, 1, 0);
    assert!(!snapshot(plain.screen()).cursor_hidden);
}
