//! The screen of the terminal as it is drawn: colors, and cells of one style
//! grouped into runs.

use vstd::prelude::*;

verus! {

// ---------------------------------------------------------------------------
// Colors
// ---------------------------------------------------------------------------

/// A color to draw with.
#[derive(Clone, Copy, Debug, PartialEq, Eq, Structural)]
pub struct Rgb {
    pub r: u8,
    pub g: u8,
    pub b: u8,
}

/// A color as a cell of the screen has it.
#[derive(Clone, Copy, Debug, PartialEq, Eq, Structural)]
pub enum Color {
    /// The default color of the terminal.
    Default,
    /// A color of the xterm palette.
    Idx(u8),
    /// A color by its red, green and blue parts.
    Rgb(u8, u8, u8),
}

/// A color by its parts.
pub open spec fn rgb(r: int, g: int, b: int) -> Rgb {
    Rgb { r: r as u8, g: g as u8, b: b as u8 }
}

/// The color of the background.
pub open spec fn background() -> Rgb {
    rgb(18, 18, 18)
}

/// The color of text.
pub open spec fn foreground() -> Rgb {
    rgb(220, 220, 220)
}

/// The sixteen base colors.
pub open spec fn base_colors() -> Seq<Rgb> {
    seq![
        rgb(0, 0, 0),
        rgb(205, 0, 0),
        rgb(0, 205, 0),
        rgb(205, 205, 0),
        rgb(0, 0, 238),
        rgb(205, 0, 205),
        rgb(0, 205, 205),
        rgb(229, 229, 229),
        rgb(127, 127, 127),
        rgb(255, 0, 0),
        rgb(0, 255, 0),
        rgb(255, 255, 0),
        rgb(92, 92, 255),
        rgb(255, 0, 255),
        rgb(0, 255, 255),
        rgb(255, 255, 255),
    ]
}

/// The level of a step of the color cube.
pub open spec fn cube_level(step: int) -> int {
    if step == 0 {
        0
    } else {
        55 + 40 * step
    }
}

/// The color of the xterm palette at `i`: the base colors, then a cube of six
/// steps each of red, green and blue, then shades of grey.
pub open spec fn palette(i: u8) -> Rgb {
    if i < 16 {
        base_colors()[i as int]
    } else if i < 232 {
        let k = i - 16;
        rgb(cube_level(k / 36), cube_level((k / 6) % 6), cube_level(k % 6))
    } else {
        let level = 8 + 10 * (i - 232);
        rgb(level, level, level)
    }
}

/// The color to draw for a cell's color.
pub open spec fn drawn(c: Color, default: Rgb) -> Rgb {
    match c {
        Color::Default => default,
        Color::Idx(i) => palette(i),
        Color::Rgb(r, g, b) => Rgb { r, g, b },
    }
}

/// The color of the background.
pub fn default_bg() -> (r: Rgb)
    ensures
        r == background(),
{
    Rgb { r: 18, g: 18, b: 18 }
}

/// The color of text.
pub fn default_fg() -> (r: Rgb)
    ensures
        r == foreground(),
{
    Rgb { r: 220, g: 220, b: 220 }
}

/// The base color at `i`.
fn base_color(i: u8) -> (r: Rgb)
    requires
        i < 16,
    ensures
        r == base_colors()[i as int],
{
    match i {
        0 => Rgb { r: 0, g: 0, b: 0 },
        1 => Rgb { r: 205, g: 0, b: 0 },
        2 => Rgb { r: 0, g: 205, b: 0 },
        3 => Rgb { r: 205, g: 205, b: 0 },
        4 => Rgb { r: 0, g: 0, b: 238 },
        5 => Rgb { r: 205, g: 0, b: 205 },
        6 => Rgb { r: 0, g: 205, b: 205 },
        7 => Rgb { r: 229, g: 229, b: 229 },
        8 => Rgb { r: 127, g: 127, b: 127 },
        9 => Rgb { r: 255, g: 0, b: 0 },
        10 => Rgb { r: 0, g: 255, b: 0 },
        11 => Rgb { r: 255, g: 255, b: 0 },
        12 => Rgb { r: 92, g: 92, b: 255 },
        13 => Rgb { r: 255, g: 0, b: 255 },
        14 => Rgb { r: 0, g: 255, b: 255 },
        _ => Rgb { r: 255, g: 255, b: 255 },
    }
}

/// The level of a step of the color cube.
fn level_of(step: u8) -> (r: u8)
    requires
        step < 6,
    ensures
        r == cube_level(step as int),
{
    if step == 0 {
        0
    } else {
        55 + 40 * step
    }
}

/// Map an xterm 256-color index to an RGB color.
pub fn ansi_idx(i: u8) -> (r: Rgb)
    ensures
        r == palette(i),
{
    if i < 16 {
        base_color(i)
    } else if i < 232 {
        let k: u8 = i - 16;
        Rgb { r: level_of(k / 36), g: level_of((k / 6) % 6), b: level_of(k % 6) }
    } else {
        let level: u8 = 8 + 10 * (i - 232);
        Rgb { r: level, g: level, b: level }
    }
}

/// The color to draw for a cell's color.
pub fn to_rgb(c: Color, default: Rgb) -> (r: Rgb)
    ensures
        r == drawn(c, default),
{
    match c {
        Color::Default => default,
        Color::Idx(i) => ansi_idx(i),
        Color::Rgb(r, g, b) => Rgb { r, g, b },
    }
}

// ---------------------------------------------------------------------------
// The cells of a screen
// ---------------------------------------------------------------------------

/// A cell of the screen.
pub struct Cell {
    pub text: String,
    pub fg: Color,
    pub bg: Color,
    pub inverse: bool,
}

/// What a `Cell` holds.
#[verifier::ext_equal]
pub struct CellView {
    pub text: Seq<char>,
    pub fg: Color,
    pub bg: Color,
    pub inverse: bool,
}

impl View for Cell {
    type V = CellView;

    open spec fn view(&self) -> CellView {
        CellView { text: self.text@, fg: self.fg, bg: self.bg, inverse: self.inverse }
    }
}

/// A screen of the vt100 crate.
#[verifier::external_type_specification]
#[verifier::external_body]
pub struct ExScreen(vt100::Screen);

/// The cells of a screen, by row and column.
pub uninterp spec fn screen_cells(screen: vt100::Screen) -> Map<(u16, u16), CellView>;

/// How many rows and columns a screen has.
pub uninterp spec fn screen_size(screen: vt100::Screen) -> (u16, u16);

/// The row and the column of the cursor of a screen.
pub uninterp spec fn screen_cursor(screen: vt100::Screen) -> (u16, u16);

/// Whether a screen hides its cursor.
pub uninterp spec fn screen_hides_cursor(screen: vt100::Screen) -> bool;

/// Calls `Screen::size`.
#[verifier::external_body]
fn size_of_screen(screen: &vt100::Screen) -> (r: (u16, u16))
    ensures
        r == screen_size(*screen),
{
    screen.size()
}

/// Calls `Screen::cursor_position`.
#[verifier::external_body]
pub(crate) fn cursor_of_screen(screen: &vt100::Screen) -> (r: (u16, u16))
    ensures
        r == screen_cursor(*screen),
{
    screen.cursor_position()
}

/// Calls `Screen::hide_cursor`.
#[verifier::external_body]
fn cursor_is_hidden(screen: &vt100::Screen) -> (r: bool)
    ensures
        r == screen_hides_cursor(*screen),
{
    screen.hide_cursor()
}

/// Calls `Screen::cell` and hands out what the cell holds: its text, its two
/// colors, and whether they are swapped. There is no cell where the screen has
/// no such row or column.
#[verifier::external_body]
fn cell_at(screen: &vt100::Screen, row: u16, col: u16) -> (r: Option<Cell>)
    ensures
        match r {
            Some(c) => screen_cells(*screen).dom().contains((row, col)) && screen_cells(
                *screen,
            )[(row, col)] == c@,
            None => !screen_cells(*screen).dom().contains((row, col)),
        },
{
    let convert = |c: vt100::Color| match c {
        vt100::Color::Default => Color::Default,
        vt100::Color::Idx(i) => Color::Idx(i),
        vt100::Color::Rgb(r, g, b) => Color::Rgb(r, g, b),
    };
    screen.cell(row, col).map(|c| Cell {
        text: c.contents().to_string(),
        fg: convert(c.fgcolor()),
        bg: convert(c.bgcolor()),
        inverse: c.inverse(),
    })
}

// ---------------------------------------------------------------------------
// Runs
// ---------------------------------------------------------------------------

/// Text in one style.
pub struct Run {
    pub text: String,
    pub fg: Rgb,
    pub bg: Rgb,
}

/// What a `Run` holds.
#[verifier::ext_equal]
pub struct RunView {
    pub text: Seq<char>,
    pub fg: Rgb,
    pub bg: Rgb,
}

impl View for Run {
    type V = RunView;

    open spec fn view(&self) -> RunView {
        RunView { text: self.text@, fg: self.fg, bg: self.bg }
    }
}

/// What a list of runs holds.
pub open spec fn runs_view(v: Seq<Run>) -> Seq<RunView> {
    v.map_values(|r: Run| r@)
}

/// How a cell is drawn: an empty or missing one as a space, and an inverse one
/// with its colors swapped.
pub open spec fn cell_run(c: Option<CellView>) -> RunView {
    match c {
        Some(c) => {
            let text = if c.text.len() == 0 {
                " "@
            } else {
                c.text
            };
            let fg = drawn(c.fg, foreground());
            let bg = drawn(c.bg, background());
            if c.inverse {
                RunView { text, fg: bg, bg: fg }
            } else {
                RunView { text, fg, bg }
            }
        },
        None => RunView { text: " "@, fg: foreground(), bg: background() },
    }
}

/// Whether two runs have the same style.
pub open spec fn same_style(a: RunView, b: RunView) -> bool {
    a.fg == b.fg && a.bg == b.bg
}

/// The runs with `r` behind them, joined to the last one if it has its style.
pub open spec fn extended(runs: Seq<RunView>, r: RunView) -> Seq<RunView> {
    if runs.len() > 0 && same_style(runs.last(), r) {
        runs.drop_last().push(RunView { text: runs.last().text + r.text, ..runs.last() })
    } else {
        runs.push(r)
    }
}

/// The runs that cells drawn one by one make up.
pub open spec fn grouped(cells: Seq<RunView>) -> Seq<RunView>
    decreases cells.len(),
{
    if cells.len() == 0 {
        Seq::empty()
    } else {
        extended(grouped(cells.drop_last()), cells.last())
    }
}

/// The cell of a screen, where it has one.
pub open spec fn cell_of(screen: vt100::Screen, row: u16, col: u16) -> Option<CellView> {
    if screen_cells(screen).dom().contains((row, col)) {
        Some(screen_cells(screen)[(row, col)])
    } else {
        None
    }
}

/// The cells of a row, each as it is drawn.
pub open spec fn row_cells(screen: vt100::Screen, row: u16) -> Seq<RunView> {
    Seq::new(screen_size(screen).1 as nat, |col: int| cell_run(cell_of(screen, row, col as u16)))
}

/// The runs of the rows of a screen.
pub open spec fn screen_runs(screen: vt100::Screen) -> Seq<Seq<RunView>> {
    Seq::new(screen_size(screen).0 as nat, |row: int| grouped(row_cells(screen, row as u16)))
}

/// Appends a cell to the runs.
fn extend_runs(runs: &mut Vec<Run>, r: Run)
    ensures
        runs_view(final(runs)@) == extended(runs_view(old(runs)@), r@),
{
    let n: usize = runs.len();
    let ghost before = runs@;
    assert(runs_view(before).len() == n);
    if n > 0 && runs[n - 1].fg == r.fg && runs[n - 1].bg == r.bg {
        assert(runs_view(before).last() == before[n - 1]@);
        let mut text = runs[n - 1].text.clone();
        text.append(r.text.as_str());
        let joined = Run { text, fg: r.fg, bg: r.bg };
        runs.set(n - 1, joined);
        assert(runs_view(runs@) =~= extended(runs_view(before), r@));
    } else {
        assert(n > 0 ==> runs_view(before).last() == before[n - 1]@);
        runs.push(r);
        assert(runs_view(runs@) =~= extended(runs_view(before), r@));
    }
}

/// How a cell is drawn.
pub fn draw_cell(c: &Option<Cell>) -> (r: Run)
    ensures
        r@ == cell_run(match *c {
            Some(c) => Some(c@),
            None => None,
        }),
{
    let mut space = String::new();
    space.append(" ");
    assert(space@ =~= " "@);
    match c {
        Some(c) => {
            let text = if c.text.as_str().is_empty() {
                space
            } else {
                c.text.clone()
            };
            let fg = to_rgb(c.fg, default_fg());
            let bg = to_rgb(c.bg, default_bg());
            if c.inverse {
                Run { text, fg: bg, bg: fg }
            } else {
                Run { text, fg, bg }
            }
        },
        None => Run { text: space, fg: default_fg(), bg: default_bg() },
    }
}

/// What cells that may be missing hold.
pub open spec fn cells_drawn(cells: Seq<Option<Cell>>) -> Seq<RunView> {
    cells.map_values(
        |c: Option<Cell>|
            cell_run(
                match c {
                    Some(c) => Some(c@),
                    None => None,
                },
            ),
    )
}

/// Group the cells of a row into runs of one style.
pub fn row_runs(cells: &Vec<Option<Cell>>) -> (r: Vec<Run>)
    ensures
        runs_view(r@) == grouped(cells_drawn(cells@)),
{
    let ghost views = cells_drawn(cells@);
    let mut runs: Vec<Run> = Vec::new();
    let mut i: usize = 0;
    assert(views.subrange(0, 0) =~= Seq::empty());
    assert(runs_view(runs@) =~= Seq::empty());
    while i < cells.len()
        invariant
            i <= cells.len(),
            views == cells_drawn(cells@),
            runs_view(runs@) == grouped(views.subrange(0, i as int)),
        decreases cells.len() - i,
    {
        let cell = draw_cell(&cells[i]);
        assert(views.subrange(0, i + 1).drop_last() =~= views.subrange(0, i as int));
        assert(views.subrange(0, i + 1).last() == cell@);
        extend_runs(&mut runs, cell);
        i += 1;
    }
    assert(views.subrange(0, i as int) =~= views);
    runs
}

/// What is drawn of a screen.
pub struct Snapshot {
    /// The rows, each as runs of one style.
    pub rows: Vec<Vec<Run>>,
    /// The row and the column of the cursor.
    pub cursor: (u16, u16),
    pub cursor_hidden: bool,
}

/// What a list of rows holds.
pub open spec fn rows_view(v: Seq<Vec<Run>>) -> Seq<Seq<RunView>> {
    v.map_values(|row: Vec<Run>| runs_view(row@))
}

/// Read what is drawn of a screen.
pub fn snapshot(screen: &vt100::Screen) -> (r: Snapshot)
    ensures
        rows_view(r.rows@) == screen_runs(*screen),
        r.cursor == screen_cursor(*screen),
        r.cursor_hidden == screen_hides_cursor(*screen),
{
    let (height, width) = size_of_screen(screen);
    let mut rows: Vec<Vec<Run>> = Vec::new();
    let mut row: u16 = 0;
    while row < height
        invariant
            row <= height,
            (height, width) == screen_size(*screen),
            rows.len() == row,
            forall|k: int|
                0 <= k < row ==> runs_view((#[trigger] rows@[k])@) == grouped(
                    row_cells(*screen, k as u16),
                ),
        decreases height - row,
    {
        let mut cells: Vec<Option<Cell>> = Vec::new();
        let mut col: u16 = 0;
        while col < width
            invariant
                col <= width,
                (height, width) == screen_size(*screen),
                cells.len() == col,
                forall|k: int|
                    0 <= k < col ==> cells_drawn(cells@)[k] == #[trigger] row_cells(
                        *screen,
                        row,
                    )[k],
            decreases width - col,
        {
            let ghost so_far = cells@;
            let cell = cell_at(screen, row, col);
            cells.push(cell);
            assert(forall|k: int| 0 <= k < col ==> #[trigger] cells_drawn(cells@)[k]
                == cells_drawn(so_far)[k]);
            col += 1;
        }
        assert(cells_drawn(cells@) =~= row_cells(*screen, row));
        rows.push(row_runs(&cells));
        row += 1;
    }
    assert(rows_view(rows@) =~= screen_runs(*screen));
    Snapshot { rows, cursor: cursor_of_screen(screen), cursor_hidden: cursor_is_hidden(screen) }
}

// ---------------------------------------------------------------------------
// What grouping keeps
// ---------------------------------------------------------------------------

/// The texts of the runs, one after the other.
pub open spec fn run_text(runs: Seq<RunView>) -> Seq<char>
    decreases runs.len(),
{
    if runs.len() == 0 {
        Seq::empty()
    } else {
        run_text(runs.drop_last()) + runs.last().text
    }
}

/// Grouping keeps the text of a row, and neighbouring runs differ in style.
pub proof fn grouping_keeps_the_text(cells: Seq<RunView>)
    ensures
        run_text(grouped(cells)) == run_text(cells),
        forall|i: int, j: int|
            0 <= i && j == i + 1 && j < grouped(cells).len() ==> !same_style(
                #[trigger] grouped(cells)[i],
                #[trigger] grouped(cells)[j],
            ),
    decreases cells.len(),
{
    if cells.len() > 0 {
        let before = grouped(cells.drop_last());
        let last = cells.last();
        let all = grouped(cells);
        grouping_keeps_the_text(cells.drop_last());
        if before.len() > 0 && same_style(before.last(), last) {
            assert(all.drop_last() =~= before.drop_last());
            assert(run_text(all) =~= run_text(before) + last.text);
            assert forall|i: int, j: int| 0 <= i && j == i + 1 && j < all.len() implies !same_style(
                #[trigger] all[i],
                #[trigger] all[j],
            ) by {
                assert(all[i] == before[i]);
                assert(!same_style(before[i], before[j]));
            }
        } else {
            assert(all.drop_last() =~= before);
            assert forall|i: int, j: int| 0 <= i && j == i + 1 && j < all.len() implies !same_style(
                #[trigger] all[i],
                #[trigger] all[j],
            ) by {
                assert(all[i] == before[i]);
                if j < before.len() {
                    assert(!same_style(before[i], before[j]));
                }
            }
        }
    }
}

/// Behind the base colors, the palette counts through the steps of blue, then of green,
/// then of red, from dark to bright, and ends with shades of grey.
pub proof fn palette_counts_through_its_steps(red: int, green: int, blue: int, grey: int)
    requires
        0 <= red < 6,
        0 <= green < 6,
        0 <= blue < 6,
        0 <= grey < 24,
    ensures
        ({
            let c = palette((16 + 36 * red + 6 * green + blue) as u8);
            &&& c.r == (if red == 0 {
                0
            } else {
                55 + 40 * red
            })
            &&& c.g == (if green == 0 {
                0
            } else {
                55 + 40 * green
            })
            &&& c.b == (if blue == 0 {
                0
            } else {
                55 + 40 * blue
            })
        }),
        palette((232 + grey) as u8).r == 8 + 10 * grey,
        palette((232 + grey) as u8).g == 8 + 10 * grey,
        palette((232 + grey) as u8).b == 8 + 10 * grey,
{
    let k = 36 * red + 6 * green + blue;
    assert(k / 36 == red);
    assert(k / 6 == 6 * red + green);
    assert((k / 6) % 6 == green);
    assert(k % 6 == blue);
}

/// A color of a cell is drawn as the palette or its parts have it, and the default
/// color as what stands for it.
pub proof fn colors_are_drawn_as_given(c: Color, default: Rgb)
    ensures
        c == Color::Default ==> drawn(c, default) == default,
        c matches Color::Idx(i) ==> drawn(c, default) == palette(i),
        c matches Color::Rgb(r, g, b) ==> drawn(c, default) == (Rgb { r, g, b }),
        background() == (Rgb { r: 18, g: 18, b: 18 }),
        foreground() == (Rgb { r: 220, g: 220, b: 220 }),
{
}

/// A cell is drawn with its text, or as a space if it is empty or missing, in its own
/// colors; if it is inverse they change places.
pub proof fn cells_are_drawn_in_their_colors(c: CellView)
    ensures
        ({
            let r = cell_run(Some(c));
            let none = cell_run(None);
            let fg = drawn(c.fg, foreground());
            let bg = drawn(c.bg, background());
            &&& c.text.len() > 0 ==> r.text == c.text
            &&& c.text.len() == 0 ==> r.text == seq![' ']
            &&& !c.inverse ==> r.fg == fg && r.bg == bg
            &&& c.inverse ==> r.fg == bg && r.bg == fg
            &&& none.text == seq![' '] && none.fg == foreground() && none.bg == background()
        }),
{
    reveal_strlit(" ");
    assert(" "@ =~= seq![' ']);
}

/// A cell joins the run before it if both its colors are those of the run, which keeps
/// them, and else starts a run of its own.
pub proof fn cells_join_runs_of_their_colors(cells: Seq<RunView>, c: RunView)
    ensures
        ({
            let before = grouped(cells);
            let after = grouped(cells.push(c));
            let n = before.len() - 1;
            let joins = before.len() > 0 && before[n].fg == c.fg && before[n].bg == c.bg;
            &&& grouped(Seq::empty()).len() == 0
            &&& joins ==> after == before.update(
                n,
                RunView { text: before[n].text + c.text, fg: c.fg, bg: c.bg },
            )
            &&& !joins ==> after == before.push(c)
        }),
{
    assert(cells.push(c).drop_last() =~= cells);
    let before = grouped(cells);
    let n = before.len() - 1;
    if before.len() > 0 && before[n].fg == c.fg && before[n].bg == c.bg {
        assert(grouped(cells.push(c)) =~= before.update(
            n,
            RunView { text: before[n].text + c.text, fg: c.fg, bg: c.bg },
        ));
    }
}

/// A screen is drawn row by row, and each row cell by cell, over its whole size.
pub proof fn screens_are_drawn_cell_by_cell(screen: vt100::Screen, row: int, col: int)
    requires
        0 <= row < screen_size(screen).0,
        0 <= col < screen_size(screen).1,
    ensures
        screen_runs(screen).len() == screen_size(screen).0,
        screen_runs(screen)[row] == grouped(row_cells(screen, row as u16)),
        row_cells(screen, row as u16).len() == screen_size(screen).1,
        screen_cells(screen).dom().contains((row as u16, col as u16)) ==> row_cells(
            screen,
            row as u16,
        )[col] == cell_run(Some(screen_cells(screen)[(row as u16, col as u16)])),
        !screen_cells(screen).dom().contains((row as u16, col as u16)) ==> row_cells(
            screen,
            row as u16,
        )[col] == cell_run(None),
{
}

/// What is said of a cell or a run is said of its fields, and of lists of them of each, in
/// their order.
pub proof fn runs_are_their_fields(
    c: Cell,
    r: Run,
    runs: Seq<Run>,
    rows: Seq<Vec<Run>>,
    cells: Seq<Option<Cell>>,
    i: int,
)
    ensures
        c@.text == c.text@,
        c@.fg == c.fg,
        c@.bg == c.bg,
        c@.inverse == c.inverse,
        r@.text == r.text@,
        r@.fg == r.fg,
        r@.bg == r.bg,
        runs_view(runs).len() == runs.len(),
        0 <= i < runs.len() ==> runs_view(runs)[i] == runs[i]@,
        rows_view(rows).len() == rows.len(),
        0 <= i < rows.len() ==> rows_view(rows)[i] == runs_view(rows[i]@),
        cells_drawn(cells).len() == cells.len(),
        0 <= i < cells.len() ==> (cells[i] matches Some(d) ==> cells_drawn(cells)[i] == cell_run(
            Some(d@),
        )),
        0 <= i < cells.len() && cells[i] is None ==> cells_drawn(cells)[i] == cell_run(None),
{
}

} // verus!
