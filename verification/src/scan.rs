//! The lexical structure of a `param()` block: strings, line comments and
//! nested brackets.

use crate::text;
use vstd::prelude::*;

verus! {

/// What a position in a block belongs to.
#[derive(Clone, Copy, Debug, PartialEq, Eq, Structural)]
pub enum Mode {
    Code,
    Comment,
    SingleQuoted,
    DoubleQuoted,
}

/// Whether `c` opens a bracket.
pub open spec fn is_opener(c: char) -> bool {
    c == '(' || c == '[' || c == '{'
}

/// Whether `c` closes a bracket.
pub open spec fn is_closer(c: char) -> bool {
    c == ')' || c == ']' || c == '}'
}

/// What the position after `c` belongs to, when `c` itself belongs to `mode` and
/// follows `prev`. A comment ends with its line, a single-quoted string at the
/// next single quote, and a double-quoted string at the next double quote that
/// no backtick escapes.
pub open spec fn next_mode(mode: Mode, prev: char, c: char) -> Mode {
    match mode {
        Mode::Comment => if c == '\n' {
            Mode::Code
        } else {
            Mode::Comment
        },
        Mode::SingleQuoted => if c == '\'' {
            Mode::Code
        } else {
            Mode::SingleQuoted
        },
        Mode::DoubleQuoted => if c == '"' && prev != '`' {
            Mode::Code
        } else {
            Mode::DoubleQuoted
        },
        Mode::Code => if c == '#' {
            Mode::Comment
        } else if c == '\'' {
            Mode::SingleQuoted
        } else if c == '"' {
            Mode::DoubleQuoted
        } else {
            Mode::Code
        },
    }
}

/// By how much `c` deepens the nesting of brackets.
pub open spec fn depth_step(mode: Mode, c: char) -> int {
    if mode == Mode::Code && is_opener(c) {
        1
    } else if mode == Mode::Code && is_closer(c) {
        -1
    } else {
        0
    }
}

/// The character before position `i`.
pub open spec fn char_before(s: Seq<char>, i: int) -> char {
    if i <= 0 {
        '\0'
    } else {
        s[i - 1]
    }
}

/// What position `i` of `s` belongs to.
pub open spec fn mode_at(s: Seq<char>, i: int) -> Mode
    decreases i,
{
    if i <= 0 {
        Mode::Code
    } else {
        next_mode(mode_at(s, i - 1), char_before(s, i - 1), s[i - 1])
    }
}

/// How many more brackets are opened than closed before position `i` of `s`.
pub open spec fn depth_at(s: Seq<char>, i: int) -> int
    decreases i,
{
    if i <= 0 {
        0
    } else {
        depth_at(s, i - 1) + depth_step(mode_at(s, i - 1), s[i - 1])
    }
}

/// Where a scan of a block has got to.
struct Scanner {
    mode: Mode,
    depth: i128,
    prev: char,
}

impl Scanner {
    /// Whether the scanner stands at position `i` of `s`.
    spec fn stands_at(self, s: Seq<char>, i: int) -> bool {
        &&& 0 <= i <= s.len() <= usize::MAX
        &&& self.mode == mode_at(s, i)
        &&& self.depth == depth_at(s, i)
        &&& -i <= self.depth <= i
        &&& self.prev == char_before(s, i)
    }

    fn new(Ghost(s): Ghost<Seq<char>>) -> (r: Scanner)
        requires
            s.len() <= usize::MAX,
        ensures
            r.stands_at(s, 0),
    {
        Scanner { mode: Mode::Code, depth: 0, prev: '\0' }
    }

    /// Steps over the character `c` at position `i`.
    fn step(&mut self, c: char, Ghost(s): Ghost<Seq<char>>, Ghost(i): Ghost<int>)
        requires
            old(self).stands_at(s, i),
            i < s.len(),
            c == s[i],
        ensures
            final(self).stands_at(s, i + 1),
    {
        match self.mode {
            Mode::Comment => {
                if c == '\n' {
                    self.mode = Mode::Code;
                }
            },
            Mode::SingleQuoted => {
                if c == '\'' {
                    self.mode = Mode::Code;
                }
            },
            Mode::DoubleQuoted => {
                if c == '"' && self.prev != '`' {
                    self.mode = Mode::Code;
                }
            },
            Mode::Code => {
                if c == '#' {
                    self.mode = Mode::Comment;
                } else if c == '\'' {
                    self.mode = Mode::SingleQuoted;
                } else if c == '"' {
                    self.mode = Mode::DoubleQuoted;
                } else if c == '(' || c == '[' || c == '{' {
                    self.depth = self.depth + 1;
                } else if c == ')' || c == ']' || c == '}' {
                    self.depth = self.depth - 1;
                }
            },
        }
        self.prev = c;
    }
}

// ---------------------------------------------------------------------------
// The end of a block
// ---------------------------------------------------------------------------

/// Whether the character at position `i` closes the bracket that was opened
/// just before `s`.
pub open spec fn closes_at(s: Seq<char>, i: int) -> bool {
    0 <= i < s.len() && mode_at(s, i) == Mode::Code && is_closer(s[i]) && depth_at(s, i) == 0
}

/// The first position at or after `from` that closes the bracket opened just
/// before `s`.
pub open spec fn first_close(s: Seq<char>, from: int) -> Option<int>
    decreases s.len() - from,
{
    if from >= s.len() {
        None
    } else if closes_at(s, from) {
        Some(from)
    } else {
        first_close(s, from + 1)
    }
}

/// The text up to the end of the bracket that was opened just before `s`.
pub open spec fn enclosed(s: Seq<char>) -> Option<Seq<char>> {
    match first_close(s, 0) {
        Some(i) => Some(s.subrange(0, i)),
        None => None,
    }
}

/// The text of `rest` up to the end of the bracket that was opened just before
/// it, if that bracket is ever closed.
pub fn enclosed_text(rest: &str) -> (r: Option<String>)
    ensures
        match r {
            Some(t) => enclosed(rest@) == Some(t@),
            None => enclosed(rest@) is None,
        },
{
    let v = text::to_chars(rest);
    let ghost s = v@;
    assert(s.len() == v.len());
    let mut scanner = Scanner::new(Ghost(s));
    let mut i: usize = 0;
    while i < v.len()
        invariant
            i <= v.len(),
            s == v@,
            s == rest@,
            scanner.stands_at(s, i as int),
            first_close(s, 0) == first_close(s, i as int),
        decreases v.len() - i,
    {
        let c: char = v[i];
        if scanner.mode == Mode::Code && scanner.depth == 0 && (c == ')' || c == ']' || c == '}') {
            return Some(text::string_of(&v, 0, i));
        }
        scanner.step(c, Ghost(s), Ghost(i as int));
        i += 1;
    }
    None
}

/// No position before the first one that closes the enclosing bracket does.
proof fn lemma_first_close(s: Seq<char>, from: int)
    requires
        0 <= from,
    ensures
        match first_close(s, from) {
            Some(i) => from <= i && closes_at(s, i) && forall|j: int|
                from <= j < i ==> !#[trigger] closes_at(s, j),
            None => forall|j: int| from <= j ==> !#[trigger] closes_at(s, j),
        },
    decreases s.len() - from,
{
    if from < s.len() && !closes_at(s, from) {
        lemma_first_close(s, from + 1);
    }
}

/// Before the enclosing bracket is closed the nesting never gets below it.
proof fn lemma_depth_stays(s: Seq<char>, i: int, j: int)
    requires
        0 <= j <= i <= s.len(),
        forall|k: int| 0 <= k < i ==> !#[trigger] closes_at(s, k),
    ensures
        depth_at(s, j) >= 0,
    decreases j,
{
    if j > 0 {
        lemma_depth_stays(s, i, j - 1);
        assert(!closes_at(s, j - 1));
    }
}

/// The text that a block encloses is balanced: it ends in code, outside any
/// string or comment, with every bracket in it closed, and no prefix of it
/// closes more brackets than it opens.
pub proof fn enclosed_is_balanced(s: Seq<char>)
    ensures
        match first_close(s, 0) {
            Some(i) => {
                &&& closes_at(s, i)
                &&& forall|j: int| 0 <= j <= i ==> #[trigger] depth_at(s, j) >= 0
            },
            None => true,
        },
{
    lemma_first_close(s, 0);
    if let Some(i) = first_close(s, 0) {
        assert forall|j: int| 0 <= j <= i implies #[trigger] depth_at(s, j) >= 0 by {
            lemma_depth_stays(s, i, j);
        }
    }
}

/// A block has no end only when no bracket in it closes the enclosing one.
pub proof fn unclosed_has_no_end(s: Seq<char>)
    ensures
        enclosed(s) is None <==> forall|i: int| !#[trigger] closes_at(s, i),
{
    lemma_first_close(s, 0);
}

// ---------------------------------------------------------------------------
// Declarations
// ---------------------------------------------------------------------------

/// Whether the comma at position `i` separates two declarations.
pub open spec fn separates_at(s: Seq<char>, i: int) -> bool {
    mode_at(s, i) == Mode::Code && s[i] == ',' && depth_at(s, i) == 0
}

/// Whether position `i` belongs to a comment, counting the sign that starts it
/// and the line feed that ends it.
pub open spec fn commented_at(s: Seq<char>, i: int) -> bool {
    mode_at(s, i) == Mode::Comment || (mode_at(s, i) == Mode::Code && s[i] == '#')
}

/// The declarations that start before position `i`, each with the characters
/// that it has got up to there.
pub open spec fn raw_parts(s: Seq<char>, i: int) -> Seq<Seq<char>>
    decreases i,
{
    if i <= 0 {
        seq![Seq::empty()]
    } else {
        let before = raw_parts(s, i - 1);
        if separates_at(s, i - 1) {
            before.push(Seq::empty())
        } else if commented_at(s, i - 1) {
            before
        } else {
            before.drop_last().push(before.last().push(s[i - 1]))
        }
    }
}

/// The texts of `parts` without surrounding white space, leaving out those that
/// are then empty.
pub open spec fn trimmed_parts(parts: Seq<Seq<char>>) -> Seq<Seq<char>>
    decreases parts.len(),
{
    if parts.len() == 0 {
        Seq::empty()
    } else {
        let before = trimmed_parts(parts.drop_last());
        if text::is_blank(parts.last()) {
            before
        } else {
            before.push(text::trimmed(parts.last()))
        }
    }
}

/// The declarations of a block: what commas outside strings, comments and
/// brackets separate, without comments, trimmed, and none of them empty.
pub open spec fn declarations(s: Seq<char>) -> Seq<Seq<char>> {
    trimmed_parts(raw_parts(s, s.len() as int))
}

/// Appends `part`, trimmed, unless it is blank.
fn push_part(parts: &mut Vec<String>, part: &String)
    ensures
        text::texts(final(parts)@) == (if text::is_blank(part@) {
            text::texts(old(parts)@)
        } else {
            text::texts(old(parts)@).push(text::trimmed(part@))
        }),
{
    let t = text::trim(part.as_str());
    if !t.as_str().is_empty() {
        parts.push(t);
        assert(text::texts(parts@) =~= text::texts(old(parts)@).push(text::trimmed(part@)));
    }
}

/// Splits a block into its declarations.
pub fn split_top_level(inner: &str) -> (r: Vec<String>)
    ensures
        text::texts(r@) == declarations(inner@),
{
    let v = text::to_chars(inner);
    let ghost s = v@;
    let mut parts: Vec<String> = Vec::new();
    let mut cur = String::new();
    let mut scanner = Scanner::new(Ghost(s));
    let mut i: usize = 0;
    assert(raw_parts(s, 0).drop_last() =~= Seq::empty());
    assert(text::texts(parts@) =~= Seq::empty());
    while i < v.len()
        invariant
            i <= v.len(),
            s == v@,
            s == inner@,
            scanner.stands_at(s, i as int),
            raw_parts(s, i as int).len() > 0,
            cur@ == raw_parts(s, i as int).last(),
            text::texts(parts@) == trimmed_parts(raw_parts(s, i as int).drop_last()),
        decreases v.len() - i,
    {
        let c: char = v[i];
        let ghost before = raw_parts(s, i as int);
        match scanner.mode {
            Mode::Comment => {},
            Mode::Code => {
                if c == ',' && scanner.depth == 0 {
                    push_part(&mut parts, &cur);
                    cur = String::new();
                    assert(before.push(Seq::empty()).drop_last() =~= before);
                } else if c != '#' {
                    cur.push(c);
                }
            },
            _ => {
                cur.push(c);
            },
        }
        assert(before.drop_last().push(before.last().push(c)).drop_last() =~= before.drop_last());
        scanner.step(c, Ghost(s), Ghost(i as int));
        i += 1;
    }
    push_part(&mut parts, &cur);
    parts
}

/// No declaration of a block is empty or has white space around it.
pub proof fn declarations_are_trimmed(s: Seq<char>)
    ensures
        forall|i: int|
            0 <= i < declarations(s).len() ==> (#[trigger] declarations(s)[i]).len() > 0
                && text::trimmed(declarations(s)[i]) == declarations(s)[i],
{
    lemma_trimmed_parts(raw_parts(s, s.len() as int));
}

proof fn lemma_trimmed_parts(parts: Seq<Seq<char>>)
    ensures
        forall|i: int|
            0 <= i < trimmed_parts(parts).len() ==> (#[trigger] trimmed_parts(parts)[i]).len() > 0
                && text::trimmed(trimmed_parts(parts)[i]) == trimmed_parts(parts)[i],
    decreases parts.len(),
{
    if parts.len() > 0 {
        lemma_trimmed_parts(parts.drop_last());
        text::trimming_is_complete(parts.last());
        let before = trimmed_parts(parts.drop_last());
        assert forall|i: int| 0 <= i < trimmed_parts(parts).len() implies (
        #[trigger] trimmed_parts(parts)[i]).len() > 0 && text::trimmed(trimmed_parts(parts)[i])
            == trimmed_parts(parts)[i] by {
            if i < before.len() {
                assert(trimmed_parts(parts)[i] == before[i]);
            }
        }
    }
}

/// Whether a text is one declaration: no comma separates it, and no part of it is
/// a comment.
pub open spec fn is_single(t: Seq<char>) -> bool {
    forall|i: int| 0 <= i < t.len() ==> !#[trigger] separates_at(t, i) && !commented_at(t, i)
}

/// What a position belongs to depends on what stands before it alone.
proof fn lemma_prefix(s: Seq<char>, t: Seq<char>, i: int)
    requires
        i <= s.len(),
        i <= t.len(),
        forall|k: int| 0 <= k < i ==> s[k] == t[k],
    ensures
        mode_at(s, i) == mode_at(t, i),
        depth_at(s, i) == depth_at(t, i),
        char_before(s, i) == char_before(t, i),
    decreases i,
{
    if i > 0 {
        lemma_prefix(s, t, i - 1);
    }
}

proof fn lemma_single_prefix(t: Seq<char>, n: int)
    requires
        is_single(t),
        0 <= n <= t.len(),
    ensures
        is_single(t.subrange(0, n)),
{
    let u = t.subrange(0, n);
    assert forall|i: int| 0 <= i < u.len() implies !#[trigger] separates_at(u, i) && !commented_at(
        u,
        i,
    ) by {
        lemma_prefix(t, u, i);
        assert(!separates_at(t, i));
    }
}

/// White space in front of a text changes nothing of what follows.
proof fn lemma_space_in_front(t: Seq<char>, i: int)
    requires
        t.len() > 0,
        text::is_space(t[0]),
        0 <= i < t.len(),
    ensures
        mode_at(t, i + 1) == mode_at(t.drop_first(), i),
        depth_at(t, i + 1) == depth_at(t.drop_first(), i),
    decreases i,
{
    reveal_with_fuel(mode_at, 2);
    reveal_with_fuel(depth_at, 2);
    if i > 0 {
        lemma_space_in_front(t, i - 1);
    }
}

proof fn lemma_single_trimmed_front(t: Seq<char>)
    requires
        is_single(t),
    ensures
        is_single(text::trim_front(t)),
    decreases t.len(),
{
    if t.len() > 0 && text::is_space(t[0]) {
        let u = t.drop_first();
        assert forall|i: int| 0 <= i < u.len() implies !#[trigger] separates_at(u, i)
            && !commented_at(u, i) by {
            lemma_space_in_front(t, i);
            assert(!separates_at(t, i + 1));
        }
        lemma_single_trimmed_front(u);
    }
}

/// A declaration is still one when the white space around it is gone.
proof fn lemma_single_trimmed(t: Seq<char>)
    requires
        is_single(t),
    ensures
        is_single(text::trimmed(t)),
{
    lemma_single_trimmed_front(t);
    let u = text::trim_front(t);
    text::lemma_trim_back(u);
    lemma_single_prefix(u, text::trim_back(u).len() as int);
}

/// Whether `t`, read on its own, ends where position `i` of `s` is, but for a
/// comment there.
spec fn keeps_up(s: Seq<char>, i: int, t: Seq<char>) -> bool {
    let n = t.len() as int;
    &&& mode_at(t, n) == (if mode_at(s, i) == Mode::Comment {
        Mode::Code
    } else {
        mode_at(s, i)
    })
    &&& depth_at(t, n) == depth_at(s, i)
    &&& mode_at(s, i) == Mode::DoubleQuoted ==> char_before(t, n) == char_before(s, i)
}

/// Every part of a block is a single declaration, and the last one is where the
/// block is.
proof fn lemma_parts_are_single(s: Seq<char>, i: int)
    requires
        0 <= i <= s.len(),
    ensures
        raw_parts(s, i).len() > 0,
        forall|k: int| 0 <= k < raw_parts(s, i).len() ==> is_single(#[trigger] raw_parts(s, i)[k]),
        keeps_up(s, i, raw_parts(s, i).last()),
    decreases i,
{
    if i > 0 {
        lemma_parts_are_single(s, i - 1);
        let before = raw_parts(s, i - 1);
        let t = before.last();
        let c = s[i - 1];
        if !separates_at(s, i - 1) && !commented_at(s, i - 1) {
            let u = t.push(c);
            let n = t.len() as int;
            lemma_prefix(t, u, n);
            assert forall|k: int| 0 <= k < u.len() implies !#[trigger] separates_at(u, k)
                && !commented_at(u, k) by {
                if k < n {
                    lemma_prefix(t, u, k);
                    assert(!separates_at(t, k));
                }
            }
        }
    }
}

proof fn lemma_trimmed_parts_are_single(parts: Seq<Seq<char>>)
    requires
        forall|k: int| 0 <= k < parts.len() ==> is_single(#[trigger] parts[k]),
    ensures
        forall|k: int|
            0 <= k < trimmed_parts(parts).len() ==> is_single(#[trigger] trimmed_parts(parts)[k]),
    decreases parts.len(),
{
    if parts.len() > 0 {
        let rest = parts.drop_last();
        assert forall|k: int| 0 <= k < rest.len() implies is_single(#[trigger] rest[k]) by {
            assert(is_single(parts[k]));
        }
        lemma_trimmed_parts_are_single(rest);
        assert(is_single(parts[parts.len() - 1]));
        lemma_single_trimmed(parts.last());
        let before = trimmed_parts(rest);
        assert forall|k: int| 0 <= k < trimmed_parts(parts).len() implies is_single(
            #[trigger] trimmed_parts(parts)[k],
        ) by {
            if k < before.len() {
                assert(trimmed_parts(parts)[k] == before[k]);
            }
        }
    }
}

proof fn lemma_single_is_one_part(t: Seq<char>, n: int)
    requires
        is_single(t),
        0 <= n <= t.len(),
    ensures
        raw_parts(t, n) == seq![t.subrange(0, n)],
    decreases n,
{
    if n > 0 {
        lemma_single_is_one_part(t, n - 1);
        assert(!separates_at(t, n - 1));
        assert(t.subrange(0, n - 1).push(t[n - 1]) =~= t.subrange(0, n));
        let before = raw_parts(t, n - 1);
        assert(before.last() == t.subrange(0, n - 1));
        assert(raw_parts(t, n) =~= seq![t.subrange(0, n)]);
    } else {
        assert(t.subrange(0, 0) =~= Seq::empty());
    }
}

/// A declaration is not split again: taken on its own, it is its one declaration.
pub proof fn declarations_are_not_split_again(s: Seq<char>)
    ensures
        forall|i: int|
            0 <= i < declarations(s).len() ==> declarations(#[trigger] declarations(s)[i]) == seq![
                declarations(s)[i],
            ],
{
    let n = s.len() as int;
    lemma_parts_are_single(s, n);
    lemma_trimmed_parts_are_single(raw_parts(s, n));
    declarations_are_trimmed(s);
    assert forall|i: int| 0 <= i < declarations(s).len() implies declarations(
        #[trigger] declarations(s)[i],
    ) == seq![declarations(s)[i]] by {
        let t = declarations(s)[i];
        lemma_single_is_one_part(t, t.len() as int);
        assert(t.subrange(0, t.len() as int) =~= t);
        reveal_with_fuel(trimmed_parts, 2);
        assert(seq![t].drop_last() =~= Seq::empty());
    }
}

// ---------------------------------------------------------------------------
// What strings, comments and brackets do
// ---------------------------------------------------------------------------

proof fn lemma_within(s: Seq<char>, from: int, to: int, mode: Mode)
    requires
        0 <= from <= to <= s.len(),
        mode_at(s, from) == mode,
        mode == Mode::Code ==> forall|k: int|
            from <= k < to ==> #[trigger] s[k] != '#' && s[k] != '\'' && s[k] != '"',
        mode == Mode::Comment ==> forall|k: int| from <= k < to ==> #[trigger] s[k] != '\n',
        mode == Mode::SingleQuoted ==> forall|k: int| from <= k < to ==> #[trigger] s[k] != '\'',
        mode == Mode::DoubleQuoted ==> forall|k: int|
            from <= k < to ==> (#[trigger] s[k] != '"' || s[k - 1] == '`'),
        mode == Mode::DoubleQuoted ==> from > 0,
    ensures
        forall|k: int| from <= k <= to ==> #[trigger] mode_at(s, k) == mode,
        mode != Mode::Code ==> forall|k: int|
            from <= k <= to ==> #[trigger] depth_at(s, k) == depth_at(s, from),
    decreases to - from,
{
    if from < to {
        lemma_within(s, from, to - 1, mode);
        assert(mode_at(s, to - 1) == mode);
        assert(mode != Mode::Code ==> depth_at(s, to - 1) == depth_at(s, from));
    }
}

/// A single-quoted string in code hides what it holds: whatever stands in it, it
/// opens and closes no bracket, separates nothing and starts no comment, and behind
/// its closing quote the code goes on as before it.
pub proof fn single_quotes_hide(s: Seq<char>, from: int, to: int)
    requires
        0 <= from < to < s.len(),
        mode_at(s, from) == Mode::Code,
        s[from] == '\'',
        s[to] == '\'',
        forall|k: int| from < k < to ==> #[trigger] s[k] != '\'',
    ensures
        mode_at(s, to + 1) == Mode::Code,
        depth_at(s, to + 1) == depth_at(s, from),
        forall|k: int|
            from <= k <= to ==> !#[trigger] separates_at(s, k) && !commented_at(s, k) && !closes_at(
                s,
                k,
            ),
{
    assert(mode_at(s, from + 1) == Mode::SingleQuoted);
    lemma_within(s, from + 1, to, Mode::SingleQuoted);
    assert(mode_at(s, to) == Mode::SingleQuoted);
    assert(depth_at(s, to) == depth_at(s, from + 1));
    assert forall|k: int| from <= k <= to implies !#[trigger] separates_at(s, k) && !commented_at(
        s,
        k,
    ) && !closes_at(s, k) by {
        if k > from {
            assert(mode_at(s, k) == Mode::SingleQuoted);
        }
    }
}

/// A double-quoted string in code hides what it holds, too; a backtick keeps the
/// quote behind it from closing the string.
pub proof fn double_quotes_hide(s: Seq<char>, from: int, to: int)
    requires
        0 <= from < to < s.len(),
        mode_at(s, from) == Mode::Code,
        s[from] == '"',
        s[to] == '"',
        s[to - 1] != '`',
        forall|k: int| from < k < to ==> (#[trigger] s[k] != '"' || s[k - 1] == '`'),
    ensures
        mode_at(s, to + 1) == Mode::Code,
        depth_at(s, to + 1) == depth_at(s, from),
        forall|k: int|
            from <= k <= to ==> !#[trigger] separates_at(s, k) && !commented_at(s, k) && !closes_at(
                s,
                k,
            ),
{
    assert(mode_at(s, from + 1) == Mode::DoubleQuoted);
    lemma_within(s, from + 1, to, Mode::DoubleQuoted);
    assert(mode_at(s, to) == Mode::DoubleQuoted);
    assert(depth_at(s, to) == depth_at(s, from + 1));
    assert forall|k: int| from <= k <= to implies !#[trigger] separates_at(s, k) && !commented_at(
        s,
        k,
    ) && !closes_at(s, k) by {
        if k > from {
            assert(mode_at(s, k) == Mode::DoubleQuoted);
        }
    }
}

/// A number sign in code starts a comment that goes on to the end of its line: all
/// of it is left out, it opens and closes no bracket and separates nothing, and the
/// next line is code again.
pub proof fn comments_end_with_their_line(s: Seq<char>, from: int, to: int)
    requires
        0 <= from < to < s.len(),
        mode_at(s, from) == Mode::Code,
        s[from] == '#',
        s[to] == '\n',
        forall|k: int| from < k < to ==> #[trigger] s[k] != '\n',
    ensures
        mode_at(s, to + 1) == Mode::Code,
        depth_at(s, to + 1) == depth_at(s, from),
        forall|k: int|
            from <= k <= to ==> commented_at(s, k) && !#[trigger] separates_at(s, k) && !closes_at(
                s,
                k,
            ),
{
    assert(mode_at(s, from + 1) == Mode::Comment);
    lemma_within(s, from + 1, to, Mode::Comment);
    assert(mode_at(s, to) == Mode::Comment);
    assert(depth_at(s, to) == depth_at(s, from + 1));
    assert forall|k: int| from <= k <= to implies commented_at(s, k) && !#[trigger] separates_at(
        s,
        k,
    ) && !closes_at(s, k) by {
        if k > from {
            assert(mode_at(s, k) == Mode::Comment);
        }
    }
}

/// A text starts as code outside any bracket. In code, each opening bracket is one
/// level deeper and each closing one a level up, whichever of the three kinds it is;
/// every other character keeps the level. A comma separates where no bracket is open,
/// and a closing bracket closes the block there.
pub proof fn brackets_nest(s: Seq<char>, i: int)
    requires
        0 <= i < s.len(),
    ensures
        mode_at(s, 0) == Mode::Code,
        depth_at(s, 0) == 0,
        mode_at(s, i) == Mode::Code && (s[i] == '(' || s[i] == '[' || s[i] == '{') ==> depth_at(
            s,
            i + 1,
        ) == depth_at(s, i) + 1 && mode_at(s, i + 1) == Mode::Code,
        mode_at(s, i) == Mode::Code && (s[i] == ')' || s[i] == ']' || s[i] == '}') ==> depth_at(
            s,
            i + 1,
        ) == depth_at(s, i) - 1 && mode_at(s, i + 1) == Mode::Code,
        mode_at(s, i) == Mode::Code && s[i] != '(' && s[i] != '[' && s[i] != '{' && s[i] != ')'
            && s[i] != ']' && s[i] != '}' ==> depth_at(s, i + 1) == depth_at(s, i),
        mode_at(s, i) == Mode::Code && s[i] != '#' && s[i] != '\'' && s[i] != '"' ==> mode_at(
            s,
            i + 1,
        ) == Mode::Code,
        separates_at(s, i) <==> mode_at(s, i) == Mode::Code && s[i] == ',' && depth_at(s, i) == 0,
        closes_at(s, i) <==> mode_at(s, i) == Mode::Code && (s[i] == ')' || s[i] == ']' || s[i]
            == '}') && depth_at(s, i) == 0,
{
}

/// A block ends at the first bracket that closes it, and holds all that stands
/// before it.
pub proof fn blocks_end_at_the_first_closer(s: Seq<char>, i: int)
    requires
        closes_at(s, i),
        forall|k: int| 0 <= k < i ==> !#[trigger] closes_at(s, k),
    ensures
        enclosed(s) == Some(s.subrange(0, i)),
{
    lemma_first_close(s, 0);
    match first_close(s, 0) {
        Some(j) => {
            if j < i {
                assert(!closes_at(s, j));
            }
            if i < j {
                assert(!closes_at(s, i));
            }
        },
        None => {},
    }
}

/// The parts of a text grow with it: a comma that separates starts a new part, what
/// belongs to a comment adds nothing, and every other character is added to the last
/// part. The declarations are the parts without white space around them, and those
/// that are all white space are left out.
pub proof fn parts_grow_with_the_text(s: Seq<char>, i: int)
    requires
        0 <= i < s.len(),
    ensures
        declarations(s) == trimmed_parts(raw_parts(s, s.len() as int)),
        raw_parts(s, 0).len() == 1 && raw_parts(s, 0)[0].len() == 0,
        separates_at(s, i) ==> raw_parts(s, i + 1) == raw_parts(s, i) + seq![Seq::empty()],
        commented_at(s, i) ==> raw_parts(s, i + 1) == raw_parts(s, i),
        !separates_at(s, i) && !commented_at(s, i) ==> ({
            let before = raw_parts(s, i);
            let n = before.len() - 1;
            raw_parts(s, i + 1) == before.update(n, before[n] + seq![s[i]])
        }),
{
    lemma_parts_are_single(s, i);
    let before = raw_parts(s, i);
    let n = before.len() - 1;
    if separates_at(s, i) {
        assert(before.push(Seq::empty()) =~= before + seq![Seq::empty()]);
    } else if !commented_at(s, i) {
        assert(before[n].push(s[i]) =~= before[n] + seq![s[i]]);
        assert(before.drop_last().push(before.last().push(s[i])) =~= before.update(
            n,
            before[n] + seq![s[i]],
        ));
    }
}

/// Each part that holds more than white space is a declaration, without the white
/// space around it; the others are none.
pub proof fn parts_with_content_are_declarations(parts: Seq<Seq<char>>, part: Seq<char>)
    ensures
        trimmed_parts(Seq::empty()).len() == 0,
        (exists|k: int| 0 <= k < part.len() && !text::is_space(#[trigger] part[k]))
            ==> trimmed_parts(parts.push(part)) == trimmed_parts(parts).push(text::trimmed(part)),
        (forall|k: int| 0 <= k < part.len() ==> text::is_space(#[trigger] part[k]))
            ==> trimmed_parts(parts.push(part)) == trimmed_parts(parts),
{
    assert(parts.push(part).drop_last() =~= parts);
    text::blank_means_white_space(part);
}

} // verus!
