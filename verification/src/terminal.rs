//! The embedded terminal: what it answers, what it sends, and what it reads out
//! of the output of a run.
//!
//! The pseudo-console, the shell in it and the drawing are left to the program
//! around this library.

use crate::parser;
use crate::pattern;
use crate::pattern::{Capture, CaptureView, Pattern};
use crate::patterns;
use crate::screen;
use crate::text;
use crate::unicode;
use vstd::prelude::*;
use vstd::utf8::*;

verus! {

// ---------------------------------------------------------------------------
// Progress
// ---------------------------------------------------------------------------

/// Progress/status scraped from the live output stream (the opt-in protocol).
pub struct TermProgress {
    /// The progress in percent, as a decimal number.
    pub percent: String,
    pub status: String,
    /// True once any @progress/@status line has appeared.
    pub seen: bool,
}

/// What a `TermProgress` holds.
#[verifier::ext_equal]
pub struct ProgressView {
    pub percent: Seq<char>,
    pub status: Seq<char>,
    pub seen: bool,
}

impl View for TermProgress {
    type V = ProgressView;

    open spec fn view(&self) -> ProgressView {
        ProgressView { percent: self.percent@, status: self.status@, seen: self.seen }
    }
}

/// The progress before anything was reported.
pub open spec fn no_progress() -> ProgressView {
    ProgressView { percent: "0"@, status: Seq::empty(), seen: false }
}

impl Default for TermProgress {
    fn default() -> (r: Self)
        ensures
            r@ == no_progress(),
    {
        let mut percent = String::new();
        percent.append("0");
        assert(percent@ =~= "0"@);
        TermProgress { percent, status: String::new(), seen: false }
    }
}

impl Clone for TermProgress {
    fn clone(&self) -> (r: Self)
        ensures
            r@ == self@,
    {
        TermProgress {
            percent: self.percent.clone(),
            status: self.status.clone(),
            seen: self.seen,
        }
    }
}

/// Whether `s` is a number: decimal digits, and maybe a point and more digits.
pub open spec fn is_plain_number(s: Seq<char>) -> bool {
    let n = text::run_before(s, '.') as int;
    &&& 0 < n <= s.len()
    &&& text::all_digits(s.subrange(0, n))
    &&& n == s.len() || (n + 1 < s.len() && text::all_digits(s.subrange(n + 1, s.len() as int)))
}

/// Whether `v` holds digits only from `from` up to `to`.
fn digits_between(v: &Vec<char>, from: usize, to: usize) -> (r: bool)
    requires
        from <= to <= v.len(),
    ensures
        r == text::all_digits(v@.subrange(from as int, to as int)),
{
    let ghost part = v@.subrange(from as int, to as int);
    let mut i: usize = from;
    while i < to
        invariant
            from <= i <= to <= v.len(),
            part == v@.subrange(from as int, to as int),
            forall|k: int| 0 <= k < i - from ==> text::is_digit(#[trigger] part[k]),
        decreases to - i,
    {
        assert(part[i - from] == v@[i as int]);
        if !('0' <= v[i] && v[i] <= '9') {
            return false;
        }
        i += 1;
    }
    true
}

/// Whether `s` is a number.
pub fn plain_number(s: &str) -> (r: bool)
    ensures
        r == is_plain_number(s@),
{
    let v = text::to_chars(s);
    let len: usize = v.len();
    let mut n: usize = 0;
    assert(v@.subrange(0, len as int) =~= v@);
    while n < len && v[n] != '.'
        invariant
            n <= len,
            len == v.len(),
            text::run_before(v@, '.') == n + text::run_before(
                v@.subrange(n as int, len as int),
                '.',
            ),
        decreases len - n,
    {
        assert(v@.subrange(n as int, len as int).drop_first() =~= v@.subrange(
            n + 1,
            len as int,
        ));
        n += 1;
    }
    assert(text::run_before(v@, '.') == n);
    if n == 0 || !digits_between(&v, 0, n) {
        return false;
    }
    n == len || (len - n > 1 && digits_between(&v, n + 1, len))
}

/// The progress after a report: the percentage counts when it is a number, and
/// the status without the white space around it.
pub open spec fn recorded(
    p: ProgressView,
    percent: Option<Seq<char>>,
    status: Option<Seq<char>>,
) -> ProgressView {
    let q = match percent {
        Some(v) => if is_plain_number(v) {
            ProgressView { percent: v, seen: true, ..p }
        } else {
            p
        },
        None => p,
    };
    match status {
        Some(v) => ProgressView { status: text::trimmed(v), seen: true, ..q },
        None => q,
    }
}

impl TermProgress {
    /// Takes in what was last reported, if anything was.
    pub fn record(&mut self, percent: Option<String>, status: Option<String>)
        ensures
            final(self)@ == recorded(
                old(self)@,
                parser::text_option(percent),
                parser::text_option(status),
            ),
    {
        if let Some(v) = percent {
            if plain_number(v.as_str()) {
                self.percent = v;
                self.seen = true;
            }
        }
        if let Some(v) = status {
            self.status = text::trim(v.as_str());
            self.seen = true;
        }
    }
}

/// What the group of the last capture holds.
pub open spec fn last_group(captures: Seq<CaptureView>) -> Option<Seq<char>> {
    if captures.len() == 0 {
        None
    } else {
        match captures.last().group {
            Some(g) => Some(g.text),
            None => None,
        }
    }
}

/// What the group of the last capture holds.
fn last_text(captures: &Vec<Capture>) -> (r: Option<String>)
    ensures
        parser::text_option(r) == last_group(pattern::captures_view(captures@)),
{
    let ghost views = pattern::captures_view(captures@);
    assert(views.len() == captures.len());
    if captures.len() == 0 {
        return None;
    }
    assert(views.last() == captures@[captures.len() - 1]@);
    match &captures[captures.len() - 1].group {
        Some(g) => Some(g.text.clone()),
        None => None,
    }
}

/// The progress after the output `s`: the last report of each kind counts.
pub open spec fn scraped(p: ProgressView, s: Seq<char>) -> ProgressView {
    recorded(
        p,
        last_group(pattern::rx_captures_iter(patterns::PROGRESS@, s)),
        last_group(pattern::rx_captures_iter(patterns::STATUS@, s)),
    )
}

/// What reads progress out of output.
pub struct Scraper {
    progress: Pattern,
    status: Pattern,
}

impl Scraper {
    #[verifier::type_invariant]
    closed spec fn wf(self) -> bool {
        self.progress@ == patterns::PROGRESS@ && self.status@ == patterns::STATUS@
    }

    /// The patterns that are looked for.
    pub closed spec fn sources(self) -> (Seq<char>, Seq<char>) {
        (self.progress@, self.status@)
    }

    /// Compile the patterns of the protocol.
    pub fn new() -> (r: Self)
        ensures
            r.sources() == (patterns::PROGRESS@, patterns::STATUS@),
    {
        Scraper {
            progress: pattern::compile(patterns::PROGRESS),
            status: pattern::compile(patterns::STATUS),
        }
    }

    /// Read the progress out of a piece of output.
    pub fn scrape(&self, output: &str, progress: &mut TermProgress)
        ensures
            final(progress)@ == scraped(old(progress)@, output@),
    {
        proof {
            use_type_invariant(&*self);
        }
        let percent = last_text(&pattern::captures_all(&self.progress, output));
        let status = last_text(&pattern::captures_all(&self.status, output));
        progress.record(percent, status);
    }

    /// Take in a piece of output that the screen already shows: read the progress
    /// out of it, and return the answers to the queries in it.
    pub fn take_output(
        &self,
        data: &[u8],
        screen: &vt100::Screen,
        progress: &mut TermProgress,
    ) -> (r: Vec<u8>)
        ensures
            r@ == replies(data@, screen::screen_cursor(*screen), 0),
            final(progress)@ == scraped(old(progress)@, unicode::lossy(data@)),
    {
        let output = unicode::from_utf8_lossy(data);
        self.scrape(output.as_str(), progress);
        answer(data, screen)
    }
}

/// Output without a report leaves the progress as it was.
pub proof fn silence_changes_nothing(p: ProgressView)
    ensures
        recorded(p, None, None) == p,
{
}

/// Progress counts as seen from the first status or the first percentage that is
/// a number, and stays seen.
pub proof fn progress_stays_seen(
    p: ProgressView,
    percent: Option<Seq<char>>,
    status: Option<Seq<char>>,
)
    ensures
        recorded(p, percent, status).seen <==> p.seen || status is Some || (percent matches Some(v)
            && is_plain_number(v)),
{
}

// ---------------------------------------------------------------------------
// Queries
// ---------------------------------------------------------------------------

/// Whether the byte is an ASCII letter.
pub open spec fn is_letter(b: u8) -> bool {
    0x41 <= b <= 0x5a || 0x61 <= b <= 0x7a
}

/// The first position at or after `j` with a letter; the length when there is
/// none.
pub open spec fn letter_from(data: Seq<u8>, j: int) -> int
    decreases data.len() - j,
{
    if j >= data.len() || is_letter(data[j]) {
        j
    } else {
        letter_from(data, j + 1)
    }
}

/// `n` in decimal, as bytes.
pub open spec fn decimal_bytes(n: nat) -> Seq<u8> {
    text::decimal(n).map_values(|c: char| c as u8)
}

/// The report of the cursor's position, counted from one.
pub open spec fn cursor_report(cursor: (u16, u16)) -> Seq<u8> {
    seq![0x1bu8, 0x5b] + decimal_bytes((cursor.0 + 1) as nat) + seq![0x3bu8] + decimal_bytes(
        (cursor.1 + 1) as nat,
    ) + seq![0x52u8]
}

/// The answer to a control sequence: `6n` asks for the cursor's position, `5n`
/// for the terminal's status, and `c` for its attributes.
pub open spec fn reply(params: Seq<u8>, letter: u8, cursor: (u16, u16)) -> Seq<u8> {
    if letter == 0x6e && params == seq![0x36u8] {
        cursor_report(cursor)
    } else if letter == 0x6e && params == seq![0x35u8] {
        seq![0x1bu8, 0x5b, 0x30, 0x6e]
    } else if letter == 0x63 {
        seq![0x1bu8, 0x5b, 0x3f, 0x31, 0x3b, 0x30, 0x63]
    } else {
        Seq::empty()
    }
}

/// Whether a control sequence starts at `i`.
pub open spec fn starts_sequence(data: Seq<u8>, i: int) -> bool {
    0 <= i && i + 1 < data.len() && data[i] == 0x1b && data[i + 1] == 0x5b
}

/// The answers to the control sequences from position `i` on. A sequence ends
/// with the first letter behind its start.
pub open spec fn replies(data: Seq<u8>, cursor: (u16, u16), i: int) -> Seq<u8>
    decreases data.len() - i,
{
    if i < 0 || i + 1 >= data.len() {
        Seq::empty()
    } else if starts_sequence(data, i) && letter_from(data, i + 2) < data.len() {
        proof {
            lemma_letter_from(data, i + 2);
        }
        let j = letter_from(data, i + 2);
        reply(data.subrange(i + 2, j), data[j], cursor) + replies(data, cursor, j + 1)
    } else {
        replies(data, cursor, i + 1)
    }
}

/// The search for a letter goes forward.
pub proof fn lemma_letter_from(data: Seq<u8>, j: int)
    ensures
        j <= letter_from(data, j),
    decreases data.len() - j,
{
    if j < data.len() && !is_letter(data[j]) {
        lemma_letter_from(data, j + 1);
    }
}

/// Appends `n` in decimal.
fn push_decimal_bytes(out: &mut Vec<u8>, n: u32)
    ensures
        final(out)@ == old(out)@ + decimal_bytes(n as nat),
    decreases n,
{
    if n >= 10 {
        push_decimal_bytes(out, n / 10);
    }
    let d: u8 = (n % 10) as u8;
    out.push(d + 48);
    assert(out@ =~= old(out)@ + decimal_bytes(n as nat));
}

/// Appends the answer to a control sequence.
fn push_reply(out: &mut Vec<u8>, data: &[u8], start: usize, end: usize, cursor: (u16, u16))
    requires
        start <= end < data.len(),
    ensures
        final(out)@ == old(out)@ + reply(
            data@.subrange(start as int, end as int),
            data@[end as int],
            cursor,
        ),
{
    let ghost params = data@.subrange(start as int, end as int);
    let letter: u8 = data[end];
    let single: bool = end - start == 1;
    assert(single ==> params =~= seq![data@[start as int]]);
    assert(params == seq![0x36u8] ==> params.len() == 1 && params[0] == 0x36);
    assert(params == seq![0x35u8] ==> params.len() == 1 && params[0] == 0x35);
    if letter == 0x6e && single && data[start] == 0x36 {
        out.push(0x1b);
        out.push(0x5b);
        push_decimal_bytes(out, cursor.0 as u32 + 1);
        out.push(0x3b);
        push_decimal_bytes(out, cursor.1 as u32 + 1);
        out.push(0x52);
        assert(out@ =~= old(out)@ + cursor_report(cursor));
    } else if letter == 0x6e && single && data[start] == 0x35 {
        out.push(0x1b);
        out.push(0x5b);
        out.push(0x30);
        out.push(0x6e);
        assert(params != seq![0x36u8]);
        assert(out@ =~= old(out)@ + seq![0x1bu8, 0x5b, 0x30, 0x6e]);
    } else if letter == 0x63 {
        out.push(0x1b);
        out.push(0x5b);
        out.push(0x3f);
        out.push(0x31);
        out.push(0x3b);
        out.push(0x30);
        out.push(0x63);
        assert(out@ =~= old(out)@ + seq![0x1bu8, 0x5b, 0x3f, 0x31, 0x3b, 0x30, 0x63]);
    } else {
        assert(out@ =~= old(out)@ + Seq::<u8>::empty());
    }
}

/// Build replies to terminal queries the shell/ConPTY sends (cursor-position
/// DSR `ESC[6n`, status DSR `ESC[5n`, and Device Attributes `ESC[c`). Without a
/// DSR reply, PSReadLine waits forever for a cursor report and never draws its
/// prompt.
pub fn query_replies(data: &[u8], cursor: (u16, u16)) -> (r: Vec<u8>)
    ensures
        r@ == replies(data@, cursor, 0),
{
    let mut out: Vec<u8> = Vec::new();
    let mut i: usize = 0;
    let n: usize = data.len();
    assert(out@ + replies(data@, cursor, 0) =~= replies(data@, cursor, 0));
    while i < n && n - i > 1
        invariant
            i <= n,
            n == data.len(),
            out@ + replies(data@, cursor, i as int) == replies(data@, cursor, 0),
        decreases n - i,
    {
        let ghost so_far = out@;
        if data[i] == 0x1b && data[i + 1] == 0x5b {
            let mut j: usize = i + 2;
            while j < n && !((0x41 <= data[j] && data[j] <= 0x5a) || (0x61 <= data[j] && data[j]
                <= 0x7a))
                invariant
                    i + 2 <= j <= n,
                    n == data.len(),
                    letter_from(data@, i + 2) == letter_from(data@, j as int),
                decreases n - j,
            {
                j += 1;
            }
            if j < n {
                push_reply(&mut out, data, i + 2, j, cursor);
                assert(out@ + replies(data@, cursor, j + 1) =~= so_far + replies(
                    data@,
                    cursor,
                    i as int,
                ));
                i = j + 1;
                continue ;
            }
        }
        i += 1;
    }
    assert(out@ + replies(data@, cursor, i as int) =~= out@);
    out
}

/// The answers to the queries in a piece of output that the screen already shows.
pub fn answer(data: &[u8], screen: &vt100::Screen) -> (r: Vec<u8>)
    ensures
        r@ == replies(data@, screen::screen_cursor(*screen), 0),
{
    query_replies(data, screen::cursor_of_screen(screen))
}

proof fn lemma_skip_plain(data: Seq<u8>, cursor: (u16, u16), from: int, to: int)
    requires
        0 <= from <= to < data.len(),
        forall|k: int| from <= k < to ==> #[trigger] data[k] != 0x1b,
    ensures
        replies(data, cursor, from) == replies(data, cursor, to),
    decreases to - from,
{
    if from < to {
        assert(data[from] != 0x1b);
        lemma_skip_plain(data, cursor, from + 1, to);
    }
}

/// Output without an escape character is answered by nothing.
pub proof fn plain_output_is_not_answered(data: Seq<u8>, cursor: (u16, u16))
    requires
        forall|k: int| 0 <= k < data.len() ==> #[trigger] data[k] != 0x1b,
    ensures
        replies(data, cursor, 0).len() == 0,
{
    if data.len() > 1 {
        lemma_skip_plain(data, cursor, 0, data.len() - 1);
    }
}

/// A query for the cursor's position is answered with the position, wherever it
/// stands in the output, and what follows it is answered as well.
pub proof fn cursor_query_is_answered(data: Seq<u8>, cursor: (u16, u16), from: int, i: int)
    requires
        0 <= from <= i,
        i + 4 <= data.len(),
        forall|k: int| from <= k < i ==> #[trigger] data[k] != 0x1b,
        data[i] == 0x1b,
        data[i + 1] == 0x5b,
        data[i + 2] == 0x36,
        data[i + 3] == 0x6e,
    ensures
        replies(data, cursor, from) == cursor_report(cursor) + replies(data, cursor, i + 4),
{
    lemma_skip_plain(data, cursor, from, i);
    reveal_with_fuel(letter_from, 3);
    assert(letter_from(data, i + 2) == i + 3);
    assert(data.subrange(i + 2, i + 3) =~= seq![0x36u8]);
}

// ---------------------------------------------------------------------------
// Keys
// ---------------------------------------------------------------------------

/// A key as far as the terminal tells keys apart.
#[derive(Clone, Copy, Debug, PartialEq, Eq, Structural)]
pub enum Key {
    /// A letter, as its capital.
    Letter(char),
    Enter,
    Backspace,
    Tab,
    Escape,
    ArrowUp,
    ArrowDown,
    ArrowRight,
    ArrowLeft,
    Home,
    End,
    Delete,
    PageUp,
    PageDown,
    Other,
}

/// The bytes that a key sends, if it sends any.
pub open spec fn key_bytes(key: Key, ctrl: bool) -> Option<Seq<u8>> {
    match key {
        Key::Letter(c) => if ctrl && 'A' <= c <= 'Z' {
            Some(seq![(c as int - 64) as u8])
        } else {
            None
        },
        Key::Enter => Some(seq![0x0du8]),
        Key::Backspace => Some(seq![0x7fu8]),
        Key::Tab => Some(seq![0x09u8]),
        Key::Escape => Some(seq![0x1bu8]),
        Key::ArrowUp => Some(seq![0x1bu8, 0x5b, 0x41]),
        Key::ArrowDown => Some(seq![0x1bu8, 0x5b, 0x42]),
        Key::ArrowRight => Some(seq![0x1bu8, 0x5b, 0x43]),
        Key::ArrowLeft => Some(seq![0x1bu8, 0x5b, 0x44]),
        Key::Home => Some(seq![0x1bu8, 0x5b, 0x48]),
        Key::End => Some(seq![0x1bu8, 0x5b, 0x46]),
        Key::Delete => Some(seq![0x1bu8, 0x5b, 0x33, 0x7e]),
        Key::PageUp => Some(seq![0x1bu8, 0x5b, 0x35, 0x7e]),
        Key::PageDown => Some(seq![0x1bu8, 0x5b, 0x36, 0x7e]),
        Key::Other => None,
    }
}

/// What optional bytes are.
pub open spec fn bytes_option(v: Option<Vec<u8>>) -> Option<Seq<u8>> {
    match v {
        Some(b) => Some(b@),
        None => None,
    }
}

/// Translate keys that are NOT delivered as text (control/navigation)
/// into the byte sequences a terminal expects. Plain characters arrive as
/// text, so we return `None` for them to avoid double input.
pub fn key_to_bytes(key: Key, ctrl: bool) -> (r: Option<Vec<u8>>)
    ensures
        bytes_option(r) == key_bytes(key, ctrl),
{
    let r: Option<Vec<u8>> = match key {
        Key::Letter(c) => if ctrl && 'A' <= c && c <= 'Z' {
            let b: u8 = c as u8;
            Some(vec![b - 64])
        } else {
            None
        },
        Key::Enter => Some(vec![0x0du8]),
        Key::Backspace => Some(vec![0x7fu8]),
        Key::Tab => Some(vec![0x09u8]),
        Key::Escape => Some(vec![0x1bu8]),
        Key::ArrowUp => Some(vec![0x1bu8, 0x5b, 0x41]),
        Key::ArrowDown => Some(vec![0x1bu8, 0x5b, 0x42]),
        Key::ArrowRight => Some(vec![0x1bu8, 0x5b, 0x43]),
        Key::ArrowLeft => Some(vec![0x1bu8, 0x5b, 0x44]),
        Key::Home => Some(vec![0x1bu8, 0x5b, 0x48]),
        Key::End => Some(vec![0x1bu8, 0x5b, 0x46]),
        Key::Delete => Some(vec![0x1bu8, 0x5b, 0x33, 0x7e]),
        Key::PageUp => Some(vec![0x1bu8, 0x5b, 0x35, 0x7e]),
        Key::PageDown => Some(vec![0x1bu8, 0x5b, 0x36, 0x7e]),
        Key::Other => None,
    };
    assert(r matches Some(v) ==> v@ =~= key_bytes(key, ctrl)->Some_0);
    r
}

/// A control combination sends the number of its letter, from one to
/// twenty-six.
pub proof fn control_letters_are_numbered(c: char)
    requires
        'A' <= c <= 'Z',
    ensures
        key_bytes(Key::Letter(c), true) matches Some(b) && b.len() == 1 && 1 <= b[0] <= 26 && b[0]
            == c as int - 64,
        key_bytes(Key::Letter(c), false) is None,
{
}

// ---------------------------------------------------------------------------
// The terminal's state
// ---------------------------------------------------------------------------

/// The state of a terminal session: the shell's process, whether it is frozen,
/// and the size of the grid.
#[derive(Clone, Copy, Debug, PartialEq, Eq, Structural)]
pub struct Terminal {
    pub pid: Option<u32>,
    pub paused: bool,
    pub rows: u16,
    pub cols: u16,
}

/// A process to freeze (or unfreeze).
#[derive(Clone, Copy, Debug, PartialEq, Eq, Structural)]
pub struct Freeze {
    pub pid: u32,
    pub suspend: bool,
}

/// Whether the grid is not empty, and only a known process is frozen.
pub open spec fn terminal_wf(t: Terminal) -> bool {
    t.rows >= 1 && t.cols >= 1 && (t.paused ==> t.pid is Some)
}

/// The terminal after Pause/Resume was pressed.
pub open spec fn pause_toggled(t: Terminal) -> Terminal {
    if t.pid is Some {
        Terminal { paused: !t.paused, ..t }
    } else {
        t
    }
}

/// What Pause/Resume does to the process.
pub open spec fn freeze_of(t: Terminal) -> Option<Freeze> {
    match t.pid {
        Some(pid) => Some(Freeze { pid, suspend: !t.paused }),
        None => None,
    }
}

/// The bytes that type a line.
pub open spec fn typed_line(s: Seq<char>) -> Seq<u8> {
    encode_utf8(s).push(0x0d)
}

/// `n`, but at least `low` and at most `high`.
pub open spec fn clamped(n: int, low: int, high: int) -> int {
    if n < low {
        low
    } else if n > high {
        high
    } else {
        n
    }
}

/// The bytes that type a line.
pub fn line_bytes(s: &str) -> (r: Vec<u8>)
    ensures
        r@ == typed_line(s@),
{
    let mut out = s.as_bytes_vec();
    out.push(0x0d);
    out
}

/// How many rows and columns the grid gets where `rows` and `cols` would fit.
pub fn grid_size(rows: i32, cols: i32) -> (r: (u16, u16))
    ensures
        r.0 == clamped(rows as int, 2, 200),
        r.1 == clamped(cols as int, 8, 400),
        2 <= r.0 <= 200,
        8 <= r.1 <= 400,
        2 <= rows <= 200 ==> r.0 == rows,
        8 <= cols <= 400 ==> r.1 == cols,
{
    let r: u16 = if rows < 2 {
        2
    } else if rows > 200 {
        200
    } else {
        rows as u16
    };
    let c: u16 = if cols < 8 {
        8
    } else if cols > 400 {
        400
    } else {
        cols as u16
    };
    (r, c)
}

impl Terminal {
    /// A session whose shell runs as the given process, on a grid of 24 rows and
    /// 80 columns.
    pub fn new(pid: Option<u32>) -> (r: Self)
        ensures
            r == (Terminal { pid, paused: false, rows: 24, cols: 80 }),
            terminal_wf(r),
    {
        Terminal { pid, paused: false, rows: 24, cols: 80 }
    }

    /// The bytes to send for a line: the line and Enter.
    pub fn send_line(&self, s: &str) -> (r: Vec<u8>)
        ensures
            r@ == typed_line(s@),
    {
        line_bytes(s)
    }

    /// Whether the shell is frozen.
    pub fn is_paused(&self) -> (r: bool)
        ensures
            r == self.paused,
    {
        self.paused
    }

    /// Freeze (or unfreeze) the shell process exactly where it is. Returns what
    /// is to be done to the process.
    pub fn toggle_pause(&mut self) -> (r: Option<Freeze>)
        ensures
            *final(self) == pause_toggled(*old(self)),
            r == freeze_of(*old(self)),
            terminal_wf(*old(self)) ==> terminal_wf(*final(self)),
    {
        match self.pid {
            Some(pid) => {
                let want = !self.paused;
                self.paused = want;
                Some(Freeze { pid, suspend: want })
            },
            None => None,
        }
    }

    /// Send Ctrl+C to interrupt the running command (resuming first if paused).
    /// Returns what is to be done to the process first, and the bytes to send.
    pub fn interrupt(&mut self) -> (r: (Option<Freeze>, Vec<u8>))
        ensures
            *final(self) == (if old(self).paused {
                pause_toggled(*old(self))
            } else {
                *old(self)
            }),
            r.0 == (if old(self).paused {
                freeze_of(*old(self))
            } else {
                None
            }),
            r.1@ == seq![0x03u8],
            terminal_wf(*old(self)) ==> terminal_wf(*final(self)) && !final(self).paused,
            !old(self).paused ==> r.0 is None && *final(self) == *old(self),
            old(self).paused ==> (old(self).pid matches Some(pid) ==> r.0 == Some(
                Freeze { pid, suspend: false },
            ) && !final(self).paused),
    {
        let first = if self.paused {
            self.toggle_pause()
        } else {
            None
        };
        let bytes = vec![0x03u8];
        assert(bytes@ =~= seq![0x03u8]);
        (first, bytes)
    }

    /// The bytes that clear the visible terminal.
    pub fn clear(&self) -> (r: Vec<u8>)
        ensures
            r@ == typed_line("Clear-Host"@),
    {
        line_bytes("Clear-Host")
    }

    /// Take on a new size, of at least one row and one column. Returns the size
    /// that the pseudo-console and the screen are to get, if it is another.
    pub fn resize(&mut self, rows: u16, cols: u16) -> (r: Option<(u16, u16)>)
        ensures
            ({
                let rows = clamped(rows as int, 1, 65535) as u16;
                let cols = clamped(cols as int, 1, 65535) as u16;
                &&& *final(self) == (Terminal { rows, cols, ..*old(self) })
                &&& r == (if rows == old(self).rows && cols == old(self).cols {
                    None
                } else {
                    Some((rows, cols))
                })
            }),
            terminal_wf(*old(self)) ==> terminal_wf(*final(self)),
            rows >= 1 ==> final(self).rows == rows,
            rows == 0 ==> final(self).rows == 1,
            cols >= 1 ==> final(self).cols == cols,
            cols == 0 ==> final(self).cols == 1,
            final(self).pid == old(self).pid && final(self).paused == old(self).paused,
            r is None <==> final(self).rows == old(self).rows && final(self).cols == old(self).cols,
            r matches Some(size) ==> size == (final(self).rows, final(self).cols),
    {
        let rows: u16 = if rows < 1 {
            1
        } else {
            rows
        };
        let cols: u16 = if cols < 1 {
            1
        } else {
            cols
        };
        if rows == self.rows && cols == self.cols {
            return None;
        }
        self.rows = rows;
        self.cols = cols;
        Some((rows, cols))
    }
}

/// Pausing and resuming leaves the terminal as it was, and the second press does
/// to the process the opposite of the first.
pub proof fn pausing_twice_resumes(t: Terminal)
    ensures
        pause_toggled(pause_toggled(t)) == t,
        freeze_of(t) matches Some(f) ==> (freeze_of(pause_toggled(t)) matches Some(g) && g.pid
            == f.pid && g.suspend == !f.suspend),
{
}

// ---------------------------------------------------------------------------
// What the terminal promises
// ---------------------------------------------------------------------------

/// Whatever the progress was before, a report sets what it reports and nothing
/// else: a percentage that is a number becomes the percentage, a status without the
/// white space around it becomes the status, and what is not reported stays. So of
/// two reports the second counts.
pub proof fn reports_replace_what_was_reported(
    p: ProgressView,
    percent: Option<Seq<char>>,
    status: Option<Seq<char>>,
)
    ensures
        percent matches Some(v) && is_plain_number(v) ==> recorded(p, percent, status).percent
            == percent->Some_0,
        percent matches Some(v) && !is_plain_number(v) ==> recorded(p, percent, status).percent
            == p.percent,
        percent is None ==> recorded(p, percent, status).percent == p.percent,
        status matches Some(v) ==> recorded(p, percent, status).status == text::trimmed(v),
        status is None ==> recorded(p, percent, status).status == p.status,
{
}

/// A percentage counts as a number exactly when it is digits, or digits, a point and
/// digits again.
pub proof fn numbers_are_digits_around_a_point(whole: Seq<char>, part: Seq<char>, v: Seq<char>)
    ensures
        whole.len() > 0 && (forall|k: int|
            0 <= k < whole.len() ==> '0' <= #[trigger] whole[k] <= '9') ==> is_plain_number(whole),
        whole.len() > 0 && part.len() > 0 && (forall|k: int|
            0 <= k < whole.len() ==> '0' <= #[trigger] whole[k] <= '9') && (forall|k: int|
            0 <= k < part.len() ==> '0' <= #[trigger] part[k] <= '9') ==> is_plain_number(
            whole + seq!['.'] + part,
        ),
        is_plain_number(v) ==> v.len() > 0 && '0' <= v[0] <= '9' && '0' <= v[v.len() - 1] <= '9'
            && (forall|k: int|
            0 <= k < v.len() ==> #[trigger] v[k] == '.' || '0' <= v[k] <= '9') && (forall|
            j: int,
            k: int,
        |
            0 <= j < k < v.len() ==> !(#[trigger] v[j] == '.' && #[trigger] v[k] == '.')),
{
    if whole.len() > 0 && (forall|k: int|
        0 <= k < whole.len() ==> '0' <= #[trigger] whole[k] <= '9') {
        let n = whole.len() as int;
        lemma_run_to(whole, n);
        assert(whole.subrange(0, n) =~= whole);
        if part.len() > 0 && (forall|k: int|
            0 <= k < part.len() ==> '0' <= #[trigger] part[k] <= '9') {
            let all = whole + seq!['.'] + part;
            lemma_run_to(all, n);
            assert(all.subrange(0, n) =~= whole);
            assert(all.subrange(n + 1, all.len() as int) =~= part);
        }
    }
    if is_plain_number(v) {
        let n = text::run_before(v, '.') as int;
        lemma_run_stops(v);
        let front = v.subrange(0, n);
        assert forall|k: int| 0 <= k < v.len() implies #[trigger] v[k] == '.' && k == n || '0'
            <= v[k] <= '9' by {
            if k < n {
                assert(text::is_digit(front[k]));
            } else if k > n {
                assert(text::is_digit(v.subrange(n + 1, v.len() as int)[k - n - 1]));
            }
        }
        assert(v[0] == '.' && 0 == n || '0' <= v[0] <= '9');
        assert(v[v.len() - 1] == '.' && v.len() - 1 == n || '0' <= v[v.len() - 1] <= '9');
    }
}

proof fn lemma_run_to(s: Seq<char>, n: int)
    requires
        0 <= n <= s.len(),
        forall|k: int| 0 <= k < n ==> '0' <= #[trigger] s[k] <= '9',
        n < s.len() ==> s[n] == '.',
    ensures
        text::run_before(s, '.') == n,
    decreases n,
{
    if n > 0 {
        let rest = s.drop_first();
        assert('0' <= s[0] <= '9');
        assert forall|k: int| 0 <= k < n - 1 implies '0' <= #[trigger] rest[k] <= '9' by {
            assert('0' <= s[k + 1] <= '9');
        }
        lemma_run_to(rest, n - 1);
    }
}

proof fn lemma_run_stops(s: Seq<char>)
    ensures
        text::run_before(s, '.') <= s.len(),
        text::run_before(s, '.') < s.len() ==> s[text::run_before(s, '.') as int] == '.',
    decreases s.len(),
{
    if s.len() > 0 && s[0] != '.' {
        lemma_run_stops(s.drop_first());
    }
}

/// Of the reports in a piece of output the last one of each kind counts, and a piece
/// without any leaves the progress as it was.
pub proof fn last_report_counts(p: ProgressView, s: Seq<char>)
    ensures
        ({
            let reports = pattern::rx_captures_iter(patterns::PROGRESS@, s);
            let statuses = pattern::rx_captures_iter(patterns::STATUS@, s);
            let after = scraped(p, s);
            &&& reports.len() > 0 ==> (reports[reports.len() - 1].group matches Some(g)
                ==> is_plain_number(g.text) ==> after.percent == g.text && after.seen)
            &&& statuses.len() > 0 ==> (statuses[statuses.len() - 1].group matches Some(g)
                ==> after.status == text::trimmed(g.text) && after.seen)
            &&& reports.len() == 0 ==> after.percent == p.percent
            &&& statuses.len() == 0 ==> after.status == p.status
            &&& reports.len() == 0 && statuses.len() == 0 ==> after == p
        }),
{
}

/// Before anything is reported the progress is at zero, without a status, and not
/// shown.
pub proof fn progress_starts_at_zero()
    ensures
        no_progress().percent == seq!['0'],
        no_progress().status.len() == 0,
        !no_progress().seen,
{
    reveal_strlit("0");
    assert("0"@ =~= seq!['0']);
}

proof fn lemma_letter_shifted(data: Seq<u8>, k: int, j: int)
    requires
        0 <= k <= data.len(),
        0 <= j,
    ensures
        letter_from(data, k + j) == k + letter_from(data.subrange(k, data.len() as int), j),
    decreases data.len() - k - j,
{
    let rest = data.subrange(k, data.len() as int);
    if j < rest.len() && !is_letter(rest[j]) {
        lemma_letter_shifted(data, k, j + 1);
    }
}

proof fn lemma_replies_shifted(data: Seq<u8>, cursor: (u16, u16), k: int, i: int)
    requires
        0 <= k <= data.len(),
        0 <= i,
    ensures
        replies(data, cursor, k + i) == replies(data.subrange(k, data.len() as int), cursor, i),
    decreases data.len() - k - i,
{
    let rest = data.subrange(k, data.len() as int);
    if i + 1 < rest.len() {
        lemma_letter_shifted(data, k, i + 2);
        lemma_letter_from(rest, i + 2);
        let j = letter_from(rest, i + 2);
        if starts_sequence(rest, i) && j < rest.len() {
            lemma_replies_shifted(data, cursor, k, j + 1);
            assert(rest.subrange(i + 2, j) =~= data.subrange(k + i + 2, k + j));
        } else {
            lemma_replies_shifted(data, cursor, k, i + 1);
        }
    }
}

proof fn lemma_letter_is(data: Seq<u8>, from: int, to: int)
    requires
        0 <= from <= to < data.len(),
        is_letter(data[to]),
        forall|k: int| from <= k < to ==> !is_letter(#[trigger] data[k]),
    ensures
        letter_from(data, from) == to,
    decreases to - from,
{
    if from < to {
        assert(!is_letter(data[from]));
        lemma_letter_is(data, from + 1, to);
    }
}

/// A control sequence is answered where it stands, and what follows it as if it stood
/// alone: `ESC [ 6 n` with the row and the column of the cursor, counted from one and
/// written in decimal, `ESC [ 5 n` with `ESC [ 0 n`, any that ends in `c` with
/// `ESC [ ? 1 ; 0 c`, and every other with nothing.
pub proof fn sequences_are_answered_in_turn(
    plain: Seq<u8>,
    params: Seq<u8>,
    letter: u8,
    rest: Seq<u8>,
    cursor: (u16, u16),
)
    requires
        forall|k: int| 0 <= k < plain.len() ==> #[trigger] plain[k] != 0x1b,
        forall|k: int|
            0 <= k < params.len() ==> !(0x41 <= #[trigger] params[k] <= 0x5a) && !(0x61
                <= params[k] <= 0x7a),
        0x41 <= letter <= 0x5a || 0x61 <= letter <= 0x7a,
    ensures
        ({
            let after = replies(rest, cursor, 0);
            let all = replies(
                plain + seq![0x1bu8, 0x5b] + params + seq![letter] + rest,
                cursor,
                0,
            );
            &&& letter == 0x6e && params == seq![0x36u8] ==> all == seq![0x1bu8, 0x5b]
                + decimal_bytes(cursor.0 as nat + 1) + seq![0x3bu8] + decimal_bytes(
                cursor.1 as nat + 1,
            ) + seq![0x52u8] + after
            &&& letter == 0x6e && params == seq![0x35u8] ==> all == seq![0x1bu8, 0x5b, 0x30, 0x6e]
                + after
            &&& letter == 0x63 ==> all == seq![0x1bu8, 0x5b, 0x3f, 0x31, 0x3b, 0x30, 0x63] + after
            &&& letter != 0x63 && !(letter == 0x6e && (params == seq![0x36u8] || params
                == seq![0x35u8])) ==> all == after
        }),
{
    let data = plain + seq![0x1bu8, 0x5b] + params + seq![letter] + rest;
    let i = plain.len() as int;
    let j = i + 2 + params.len();
    assert forall|k: int| 0 <= k < i implies #[trigger] data[k] != 0x1b by {
        assert(data[k] == plain[k]);
    }
    lemma_skip_plain(data, cursor, 0, i);
    assert forall|k: int| i + 2 <= k < j implies !is_letter(#[trigger] data[k]) by {
        assert(data[k] == params[k - i - 2]);
    }
    assert(data[j] == letter);
    lemma_letter_is(data, i + 2, j);
    assert(data.subrange(i + 2, j) =~= params);
    lemma_replies_shifted(data, cursor, j + 1, 0);
    assert(data.subrange(j + 1, data.len() as int) =~= rest);
    let after = replies(rest, cursor, 0);
    assert(seq![0x36u8][0] != seq![0x35u8][0]);
    assert(Seq::<u8>::empty() + after =~= after);
}

/// Output in which no control sequence is finished is answered by nothing.
pub proof fn unfinished_output_is_not_answered(data: Seq<u8>, cursor: (u16, u16))
    requires
        forall|k: int|
            0 <= k < data.len() ==> !(0x41 <= #[trigger] data[k] <= 0x5a) && !(0x61 <= data[k]
                <= 0x7a),
    ensures
        replies(data, cursor, 0).len() == 0,
{
    lemma_no_letter(data, cursor, 0);
}

proof fn lemma_no_letter(data: Seq<u8>, cursor: (u16, u16), i: int)
    requires
        0 <= i,
        forall|k: int| 0 <= k < data.len() ==> !is_letter(#[trigger] data[k]),
    ensures
        replies(data, cursor, i).len() == 0,
        letter_from(data, i) >= data.len(),
    decreases data.len() - i,
{
    if i < data.len() {
        lemma_no_letter(data, cursor, i + 1);
        if i + 1 < data.len() {
            lemma_no_letter(data, cursor, i + 2);
        }
    }
}

/// The bytes of a number are those of its decimal digits.
pub proof fn numbers_are_sent_in_decimal(n: nat, k: int)
    requires
        0 <= k < decimal_bytes(n).len(),
    ensures
        decimal_bytes(n).len() == text::decimal(n).len(),
        decimal_bytes(n)[k] as int == text::decimal(n)[k] as int,
        0x30 <= decimal_bytes(n)[k] <= 0x39,
{
    text::decimal_writes_the_number(n);
    assert('0' <= text::decimal(n)[k] <= '9');
}

/// Only letters need the control key to send anything, and only capitals of the
/// alphabet send anything with it; to every other key it makes no difference.
pub proof fn control_matters_to_letters(key: Key, c: char)
    ensures
        !('A' <= c <= 'Z') ==> key_bytes(Key::Letter(c), true) is None,
        key_bytes(Key::Letter(c), false) is None,
        !(key is Letter) ==> key_bytes(key, true) == key_bytes(key, false),
{
}

/// A line is typed as its text and one carriage return.
pub proof fn lines_are_typed_with_enter(s: Seq<char>)
    ensures
        typed_line(s).len() == encode_utf8(s).len() + 1,
        typed_line(s).subrange(0, typed_line(s).len() - 1) == encode_utf8(s),
        typed_line(s)[typed_line(s).len() - 1] == 0x0d,
{
    assert(typed_line(s).subrange(0, typed_line(s).len() - 1) =~= encode_utf8(s));
}

/// Pausing freezes a process that runs and unfreezes one that is frozen; without a
/// process nothing happens. Nothing but the pause changes.
pub proof fn pausing_switches(t: Terminal)
    ensures
        t.pid matches Some(pid) ==> pause_toggled(t).paused == !t.paused && freeze_of(t) == Some(
            Freeze { pid, suspend: !t.paused },
        ),
        t.pid is None ==> pause_toggled(t) == t && freeze_of(t) is None,
        pause_toggled(t).pid == t.pid && pause_toggled(t).rows == t.rows && pause_toggled(t).cols
            == t.cols,
{
}

/// Clamping keeps a number that lies between the bounds, and else gives the bound
/// that it lies beyond.
pub proof fn clamping_keeps_the_bounds(n: int, low: int, high: int)
    requires
        low <= high,
    ensures
        low <= n <= high ==> clamped(n, low, high) == n,
        n < low ==> clamped(n, low, high) == low,
        n > high ==> clamped(n, low, high) == high,
{
}

/// What is said of progress is said of its fields, and of optional bytes of the bytes.
pub proof fn progress_is_its_fields(p: TermProgress, v: Option<Vec<u8>>)
    ensures
        p@.percent == p.percent@,
        p@.status == p.status@,
        p@.seen == p.seen,
        v matches Some(b) ==> bytes_option(v) == Some(b@),
        v is None ==> bytes_option(v) is None,
{
}

} // verus!
