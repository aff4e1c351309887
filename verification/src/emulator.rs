//! The terminal emulator: the bytes of the shell go in, a screen comes out.

use vstd::prelude::*;
use crate::screen;
use crate::screen::{snapshot, Snapshot};
use crate::terminal;
use crate::terminal::{Scraper, TermProgress, Terminal};
use crate::unicode;

verus! {

// ---------------------------------------------------------------------------
// The parser
// ---------------------------------------------------------------------------

/// A parser of the vt100 crate, with the screen that it draws on.
#[verifier::external_body]
pub struct Emulator {
    parser: vt100::Parser,
}

/// The screen of an emulator.
pub uninterp spec fn screen_of(e: Emulator) -> vt100::Screen;

/// An emulator of the given size that has seen nothing yet.
pub uninterp spec fn fresh(rows: u16, cols: u16, scrollback: usize) -> Emulator;

/// An emulator that has seen some more bytes.
pub uninterp spec fn fed(e: Emulator, data: Seq<u8>) -> Emulator;

/// An emulator whose screen got another size.
pub uninterp spec fn resized(e: Emulator, rows: u16, cols: u16) -> Emulator;

/// Whether every wide character in the grids of an emulator has both of its
/// halves.
pub uninterp spec fn is_whole(e: Emulator) -> bool;

/// Whether a grid of this size has room for every character, and for the
/// arithmetic on its columns.
pub open spec fn grid_fits(rows: int, cols: int) -> bool {
    2 <= rows && 3 <= cols <= 65527
}

/// The size of the screen of an emulator.
pub open spec fn size_of(e: Emulator) -> (u16, u16) {
    screen::screen_size(screen_of(e))
}

/// Calls `Parser::new`. The screen has the size that is asked for and is empty:
/// no character is on it that could lack a half, and the cursor shows in the
/// first cell.
#[verifier::external_body]
fn new_parser(rows: u16, cols: u16, scrollback: usize) -> (r: Emulator)
    requires
        1 <= rows,
        1 <= cols,
    ensures
        r == fresh(rows, cols, scrollback),
        is_whole(r),
        size_of(r) == (rows, cols),
        screen::screen_cursor(screen_of(r)) == (0u16, 0u16),
        !screen::screen_hides_cursor(screen_of(r)),
{
    Emulator { parser: vt100::Parser::new(rows, cols, scrollback) }
}

/// Calls `Parser::process`. Whatever the bytes are, what they draw and erase
/// leaves wide characters whole, and the screen keeps its size. On a grid with
/// half a wide character, or one that does not fit, it may panic. Of what is
/// drawn, nothing is stated but that it depends on the emulator and the bytes.
#[verifier::external_body]
fn feed(e: &mut Emulator, data: &[u8])
    requires
        is_whole(*old(e)),
        grid_fits(size_of(*old(e)).0 as int, size_of(*old(e)).1 as int),
    ensures
        *final(e) == fed(*old(e), data@),
        is_whole(*final(e)),
        size_of(*final(e)) == size_of(*old(e)),
{
    e.parser.process(data);
}

/// Calls `Parser::screen_mut` and `Screen::set_size`. The screen takes on the
/// size. Fewer columns may cut a wide character in two; as many or more do not.
#[verifier::external_body]
fn set_size(e: &mut Emulator, rows: u16, cols: u16)
    requires
        1 <= rows,
        1 <= cols,
    ensures
        *final(e) == resized(*old(e), rows, cols),
        size_of(*final(e)) == (rows, cols),
        is_whole(*old(e)) && cols >= size_of(*old(e)).1 ==> is_whole(*final(e)),
{
    e.parser.screen_mut().set_size(rows, cols);
}

/// Calls `Parser::screen`.
#[verifier::external_body]
fn screen_in(e: &Emulator) -> (r: &vt100::Screen)
    ensures
        *r == screen_of(*e),
{
    e.parser.screen()
}

// ---------------------------------------------------------------------------
// The emulator of a session
// ---------------------------------------------------------------------------

/// How many rows that scrolled off the screen are kept.
pub const SCROLLBACK: usize = 5000;

/// Whether an emulator can take in output: its grid fits, and no wide character
/// lacks a half.
pub open spec fn is_ready(e: Emulator) -> bool {
    is_whole(e) && grid_fits(size_of(e).0 as int, size_of(e).1 as int)
}

impl Emulator {
    /// The emulator of a session that starts.
    pub fn new(session: &Terminal) -> (r: Self)
        requires
            1 <= session.rows,
            1 <= session.cols,
        ensures
            r == fresh(session.rows, session.cols, SCROLLBACK),
            r == fresh(session.rows, session.cols, 5000),
            is_ready(r) <==> grid_fits(session.rows as int, session.cols as int),
            size_of(r) == (session.rows, session.cols),
            screen::screen_cursor(screen_of(r)) == (0u16, 0u16),
            !screen::screen_hides_cursor(screen_of(r)),
    {
        new_parser(session.rows, session.cols, SCROLLBACK)
    }

    /// Take in a piece of output: draw it, read the progress out of it, and
    /// return the answers to the queries in it. A query for the cursor is
    /// answered with where the whole piece has left it.
    pub fn take_input(
        &mut self,
        scraper: &Scraper,
        data: &[u8],
        progress: &mut TermProgress,
    ) -> (r: Vec<u8>)
        requires
            is_ready(*old(self)),
        ensures
            *final(self) == fed(*old(self), data@),
            is_ready(*final(self)),
            size_of(*final(self)) == size_of(*old(self)),
            r@ == terminal::replies(
                data@,
                screen::screen_cursor(screen_of(fed(*old(self), data@))),
                0,
            ),
            final(progress)@ == terminal::scraped(old(progress)@, unicode::lossy(data@)),
    {
        feed(self, data);
        scraper.take_output(data, screen_in(self), progress)
    }

    /// Take on a new size. An emulator that is ready stays so on a grid that fits,
    /// unless it loses columns.
    pub fn resize(&mut self, rows: u16, cols: u16)
        requires
            1 <= rows,
            1 <= cols,
        ensures
            *final(self) == resized(*old(self), rows, cols),
            size_of(*final(self)) == (rows, cols),
            is_ready(*old(self)) && cols >= size_of(*old(self)).1 && grid_fits(
                rows as int,
                cols as int,
            ) ==> is_ready(*final(self)),
    {
        set_size(self, rows, cols)
    }

    /// Read what is drawn of the screen.
    pub fn snapshot(&self) -> (r: Snapshot)
        ensures
            screen::rows_view(r.rows@) == screen::screen_runs(screen_of(*self)),
            r.cursor == screen::screen_cursor(screen_of(*self)),
            r.cursor_hidden == screen::screen_hides_cursor(screen_of(*self)),
    {
        snapshot(screen_in(self))
    }
}

/// Every grid that a window gives to a terminal fits.
pub proof fn grids_fit(rows: int, cols: int)
    ensures
        grid_fits(terminal::clamped(rows, 2, 200), terminal::clamped(cols, 8, 400)),
{
}

} // verus!
