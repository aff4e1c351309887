//! Text as sequences of characters: conversion, trimming, searching, splitting
//! into lines, and decimal numbers.
//!
//! Every function here is stated over the character sequence of a string (its
//! view), so callers reason about text without byte offsets.

use vstd::prelude::*;

verus! {

/// `String::push` of std appends the given character to the end of the text
/// and changes nothing else.
pub assume_specification[ String::push ](s: &mut String, c: char)
    ensures
        final(s)@ == old(s)@.push(c),
;

/// The character sequences of a list of strings.
pub open spec fn texts(v: Seq<String>) -> Seq<Seq<char>> {
    v.map_values(|s: String| s@)
}

/// The characters of `s`.
pub fn to_chars(s: &str) -> (r: Vec<char>)
    ensures
        r@ == s@,
{
    let mut out: Vec<char> = Vec::new();
    for c in it: s.chars()
        invariant
            it.seq() == s@,
            out@ == s@.subrange(0, it.index() as int),
    {
        out.push(c);
    }
    out
}

/// The part of `v` from `from` up to but not including `to`, as a string.
pub fn string_of(v: &Vec<char>, from: usize, to: usize) -> (r: String)
    requires
        from <= to <= v.len(),
    ensures
        r@ == v@.subrange(from as int, to as int),
{
    let mut out = String::new();
    let mut i: usize = from;
    while i < to
        invariant
            from <= i <= to <= v.len(),
            out@ == v@.subrange(from as int, i as int),
        decreases to - i,
    {
        out.push(v[i]);
        i += 1;
    }
    out
}

/// An owned copy of a list of strings.
pub fn copy_strings(v: &Vec<String>) -> (r: Vec<String>)
    ensures
        texts(r@) == texts(v@),
{
    let mut out: Vec<String> = Vec::new();
    let mut i: usize = 0;
    while i < v.len()
        invariant
            i <= v.len(),
            out.len() == i,
            forall|k: int| 0 <= k < i ==> (#[trigger] out@[k])@ == v@[k]@,
        decreases v.len() - i,
    {
        out.push(v[i].clone());
        i += 1;
    }
    assert(texts(out@) =~= texts(v@));
    out
}

/// Whether the two strings hold the same characters.
pub fn same(a: &str, b: &str) -> (r: bool)
    ensures
        r == (a@ == b@),
{
    let x = to_chars(a);
    let y = to_chars(b);
    if x.len() != y.len() {
        return false;
    }
    assert(x@.subrange(0, y.len() as int) =~= x@);
    matches_at(&x, 0, &y)
}

// ---------------------------------------------------------------------------
// White space
// ---------------------------------------------------------------------------

/// The characters with the Unicode property `White_Space`.
pub open spec fn is_space(c: char) -> bool {
    ||| '\u{9}' <= c <= '\u{d}'
    ||| c == ' '
    ||| c == '\u{85}'
    ||| c == '\u{a0}'
    ||| c == '\u{1680}'
    ||| '\u{2000}' <= c <= '\u{200a}'
    ||| c == '\u{2028}'
    ||| c == '\u{2029}'
    ||| c == '\u{202f}'
    ||| c == '\u{205f}'
    ||| c == '\u{3000}'
}

/// Whether `c` is white space.
pub fn is_whitespace(c: char) -> (r: bool)
    ensures
        r == is_space(c),
{
    ('\u{9}' <= c && c <= '\u{d}') || c == ' ' || c == '\u{85}' || c == '\u{a0}' || c == '\u{1680}'
        || ('\u{2000}' <= c && c <= '\u{200a}') || c == '\u{2028}' || c == '\u{2029}' || c
        == '\u{202f}' || c == '\u{205f}' || c == '\u{3000}'
}

/// `s` without its leading white space.
pub open spec fn trim_front(s: Seq<char>) -> Seq<char>
    decreases s.len(),
{
    if s.len() > 0 && is_space(s[0]) {
        trim_front(s.drop_first())
    } else {
        s
    }
}

/// `s` without its trailing white space.
pub open spec fn trim_back(s: Seq<char>) -> Seq<char>
    decreases s.len(),
{
    if s.len() > 0 && is_space(s.last()) {
        trim_back(s.drop_last())
    } else {
        s
    }
}

/// `s` without its leading and trailing white space.
pub open spec fn trimmed(s: Seq<char>) -> Seq<char> {
    trim_back(trim_front(s))
}

/// Whether `s` holds nothing but white space.
pub open spec fn is_blank(s: Seq<char>) -> bool {
    trimmed(s).len() == 0
}

/// Where the trimmed part of `v` starts and ends.
fn trim_bounds(v: &Vec<char>) -> (r: (usize, usize))
    ensures
        r.0 <= r.1 <= v.len(),
        v@.subrange(r.0 as int, r.1 as int) == trimmed(v@),
{
    let n: usize = v.len();
    let mut i: usize = 0;
    assert(v@.subrange(0, n as int) =~= v@);
    while i < n && is_whitespace(v[i])
        invariant
            i <= n,
            n == v.len(),
            trim_front(v@) == trim_front(v@.subrange(i as int, n as int)),
        decreases n - i,
    {
        assert(v@.subrange(i as int, n as int).drop_first() =~= v@.subrange(i + 1, n as int));
        i += 1;
    }
    let mut j: usize = n;
    assert(trim_front(v@) == v@.subrange(i as int, n as int));
    while i < j && is_whitespace(v[j - 1])
        invariant
            i <= j <= n,
            n == v.len(),
            trimmed(v@) == trim_back(v@.subrange(i as int, j as int)),
        decreases j,
    {
        assert(v@.subrange(i as int, j as int).drop_last() =~= v@.subrange(i as int, j - 1));
        j -= 1;
    }
    (i, j)
}

/// `s` without its leading and trailing white space.
pub fn trim(s: &str) -> (r: String)
    ensures
        r@ == trimmed(s@),
{
    let v = to_chars(s);
    let (i, j) = trim_bounds(&v);
    string_of(&v, i, j)
}

/// Whether `s` holds nothing but white space.
pub fn blank(s: &str) -> (r: bool)
    ensures
        r == is_blank(s@),
{
    let v = to_chars(s);
    let (i, j) = trim_bounds(&v);
    i == j
}

/// The front of a trimmed text is no white space.
proof fn lemma_trim_front(s: Seq<char>)
    ensures
        trim_front(s).len() <= s.len(),
        trim_front(s) == s.subrange(s.len() - trim_front(s).len(), s.len() as int),
        trim_front(s).len() > 0 ==> !is_space(trim_front(s)[0]),
    decreases s.len(),
{
    if s.len() > 0 && is_space(s[0]) {
        lemma_trim_front(s.drop_first());
        let t = trim_front(s);
        assert(s.drop_first().subrange(s.len() - 1 - t.len(), s.len() - 1) =~= s.subrange(
            s.len() - t.len(),
            s.len() as int,
        ));
    } else {
        assert(s =~= s.subrange(0, s.len() as int));
    }
}

/// The back of a text that lost its trailing white space is no white space.
pub proof fn lemma_trim_back(s: Seq<char>)
    ensures
        trim_back(s).len() <= s.len(),
        trim_back(s) == s.subrange(0, trim_back(s).len() as int),
        trim_back(s).len() > 0 ==> !is_space(trim_back(s).last()),
    decreases s.len(),
{
    if s.len() > 0 && is_space(s.last()) {
        lemma_trim_back(s.drop_last());
        let t = trim_back(s);
        assert(s.drop_last().subrange(0, t.len() as int) =~= s.subrange(0, t.len() as int));
    } else {
        assert(s =~= s.subrange(0, s.len() as int));
    }
}

/// Trimming leaves no white space at either end, so trimming again changes
/// nothing.
pub proof fn trimming_is_complete(s: Seq<char>)
    ensures
        trimmed(s).len() <= s.len(),
        trimmed(s).len() > 0 ==> !is_space(trimmed(s)[0]) && !is_space(trimmed(s).last()),
        trimmed(trimmed(s)) == trimmed(s),
{
    lemma_trim_front(s);
    lemma_trim_back(trim_front(s));
}

// ---------------------------------------------------------------------------
// Searching
// ---------------------------------------------------------------------------

/// Whether `needle` stands in `hay` at position `i`.
pub open spec fn stands_at(hay: Seq<char>, i: int, needle: Seq<char>) -> bool {
    0 <= i && i + needle.len() <= hay.len() && hay.subrange(i, i + needle.len()) == needle
}

/// Whether `needle` stands anywhere in `hay`.
pub open spec fn occurs(hay: Seq<char>, needle: Seq<char>) -> bool {
    exists|i: int| #[trigger] stands_at(hay, i, needle)
}

/// The first position at or after `from` where `needle` stands in `hay`.
pub open spec fn first_from(hay: Seq<char>, needle: Seq<char>, from: int) -> Option<int>
    decreases hay.len() - from + 1,
{
    if from + needle.len() > hay.len() {
        None
    } else if stands_at(hay, from, needle) {
        Some(from)
    } else {
        first_from(hay, needle, from + 1)
    }
}

/// The first position is one, and no position before it is.
pub proof fn first_is_first(hay: Seq<char>, needle: Seq<char>, from: int)
    requires
        0 <= from,
    ensures
        match first_from(hay, needle, from) {
            Some(i) => from <= i && stands_at(hay, i, needle) && forall|k: int|
                from <= k < i ==> !#[trigger] stands_at(hay, k, needle),
            None => forall|k: int| from <= k ==> !#[trigger] stands_at(hay, k, needle),
        },
    decreases hay.len() - from + 1,
{
    if from + needle.len() <= hay.len() && !stands_at(hay, from, needle) {
        first_is_first(hay, needle, from + 1);
    }
}

/// Whether `needle` stands in `hay` at position `i`.
pub fn matches_at(hay: &Vec<char>, i: usize, needle: &Vec<char>) -> (r: bool)
    ensures
        r == stands_at(hay@, i as int, needle@),
{
    if i > hay.len() || needle.len() > hay.len() - i {
        return false;
    }
    let mut k: usize = 0;
    while k < needle.len()
        invariant
            k <= needle.len(),
            i + needle.len() <= hay.len(),
            forall|x: int| 0 <= x < k ==> hay@[i + x] == needle@[x],
        decreases needle.len() - k,
    {
        if hay[i + k] != needle[k] {
            assert(hay@.subrange(i as int, i + needle.len())[k as int] != needle@[k as int]);
            return false;
        }
        k += 1;
    }
    assert(hay@.subrange(i as int, i + needle.len()) =~= needle@);
    true
}

/// The first position at which `needle` stands in `hay`.
pub fn find_chars(hay: &Vec<char>, needle: &Vec<char>) -> (r: Option<usize>)
    ensures
        match r {
            Some(i) => first_from(hay@, needle@, 0) == Some(i as int) && stands_at(
                hay@,
                i as int,
                needle@,
            ),
            None => first_from(hay@, needle@, 0) is None && !occurs(hay@, needle@),
        },
{
    if needle.len() > hay.len() {
        return None;
    }
    let last: usize = hay.len() - needle.len();
    let mut i: usize = 0;
    while i < last
        invariant
            i <= last,
            last == hay.len() - needle.len(),
            first_from(hay@, needle@, 0) == first_from(hay@, needle@, i as int),
            forall|x: int| 0 <= x < i ==> !#[trigger] stands_at(hay@, x, needle@),
        decreases last - i,
    {
        if matches_at(hay, i, needle) {
            return Some(i);
        }
        i += 1;
    }
    if matches_at(hay, last, needle) {
        Some(last)
    } else {
        assert(first_from(hay@, needle@, last + 1) is None);
        None
    }
}

/// Whether `needle` stands anywhere in `hay`.
pub fn contains(hay: &str, needle: &str) -> (r: bool)
    ensures
        r == occurs(hay@, needle@),
{
    find_chars(&to_chars(hay), &to_chars(needle)).is_some()
}

/// Whether `s` starts with `prefix`.
pub fn starts_with(s: &str, prefix: &str) -> (r: bool)
    ensures
        r == stands_at(s@, 0, prefix@),
{
    matches_at(&to_chars(s), 0, &to_chars(prefix))
}

// ---------------------------------------------------------------------------
// ASCII case
// ---------------------------------------------------------------------------

/// `c`, with the ASCII capitals `A` to `Z` turned into `a` to `z`.
pub open spec fn ascii_lower(c: char) -> char {
    if 'A' <= c <= 'Z' {
        (c as int + 32) as char
    } else {
        c
    }
}

/// `c`, with the ASCII letters `a` to `z` turned into `A` to `Z`.
pub open spec fn ascii_upper(c: char) -> char {
    if 'a' <= c <= 'z' {
        (c as int - 32) as char
    } else {
        c
    }
}

/// Every character of `s` in ASCII lower case.
pub open spec fn ascii_lowered(s: Seq<char>) -> Seq<char> {
    s.map_values(|c: char| ascii_lower(c))
}

/// Every character of `s` in ASCII upper case.
pub open spec fn ascii_uppered(s: Seq<char>) -> Seq<char> {
    s.map_values(|c: char| ascii_upper(c))
}

/// `c` in ASCII lower case.
pub fn to_ascii_lower(c: char) -> (r: char)
    ensures
        r == ascii_lower(c),
{
    if 'A' <= c && c <= 'Z' {
        ((c as u8) + 32u8) as char
    } else {
        c
    }
}

/// Whether the two texts are equal when the case of ASCII letters is ignored.
pub fn same_ignoring_ascii_case(a: &str, b: &str) -> (r: bool)
    ensures
        r == (ascii_lowered(a@) == ascii_lowered(b@)),
{
    let x = to_chars(a);
    let y = to_chars(b);
    if x.len() != y.len() {
        assert(ascii_lowered(a@).len() != ascii_lowered(b@).len());
        return false;
    }
    let mut k: usize = 0;
    while k < x.len()
        invariant
            k <= x.len() == y.len(),
            x@ == a@,
            y@ == b@,
            forall|i: int| 0 <= i < k ==> ascii_lower(x@[i]) == ascii_lower(y@[i]),
        decreases x.len() - k,
    {
        if to_ascii_lower(x[k]) != to_ascii_lower(y[k]) {
            assert(ascii_lowered(a@)[k as int] != ascii_lowered(b@)[k as int]);
            return false;
        }
        k += 1;
    }
    assert(ascii_lowered(a@) =~= ascii_lowered(b@));
    true
}

// ---------------------------------------------------------------------------
// Lines
// ---------------------------------------------------------------------------

/// How many characters stand before the first `c` in `s` (all of them when
/// there is none).
pub open spec fn run_before(s: Seq<char>, c: char) -> nat
    decreases s.len(),
{
    if s.len() == 0 || s[0] == c {
        0
    } else {
        1 + run_before(s.drop_first(), c)
    }
}

/// A line without the carriage return that belongs to its line ending.
pub open spec fn without_cr(line: Seq<char>) -> Seq<char> {
    if line.len() > 0 && line.last() == '\r' {
        line.drop_last()
    } else {
        line
    }
}

/// The lines of `s`: each ends at a line feed or at a carriage return followed
/// by a line feed, which are not part of it. The ending of the last line is
/// optional.
pub open spec fn lines_of(s: Seq<char>) -> Seq<Seq<char>>
    decreases s.len(),
{
    let n = run_before(s, '\n') as int;
    if s.len() == 0 {
        Seq::empty()
    } else if n >= s.len() {
        seq![s]
    } else {
        seq![without_cr(s.subrange(0, n))] + lines_of(s.subrange(n + 1, s.len() as int))
    }
}

/// The lines of `s`, without their endings.
pub fn lines(s: &str) -> (r: Vec<String>)
    ensures
        texts(r@) == lines_of(s@),
{
    let v = to_chars(s);
    let n: usize = v.len();
    let mut out: Vec<String> = Vec::new();
    let mut start: usize = 0;
    let mut i: usize = 0;
    assert(v@.subrange(0, n as int) =~= v@);
    assert(texts(out@) + lines_of(v@) =~= lines_of(v@));
    while i < n
        invariant
            start <= i <= n,
            n == v.len(),
            lines_of(v@) == texts(out@) + lines_of(v@.subrange(start as int, n as int)),
            run_before(v@.subrange(start as int, n as int), '\n') == i - start + run_before(
                v@.subrange(i as int, n as int),
                '\n',
            ),
        decreases n - i,
    {
        let ghost rest = v@.subrange(start as int, n as int);
        assert(v@.subrange(i as int, n as int).drop_first() =~= v@.subrange(i + 1, n as int));
        if v[i] == '\n' {
            let end: usize = if i > start && v[i - 1] == '\r' {
                i - 1
            } else {
                i
            };
            let line = string_of(&v, start, end);
            proof {
                let k = run_before(rest, '\n') as int;
                assert(k == i - start);
                assert(rest.subrange(0, k) =~= v@.subrange(start as int, i as int));
                assert(line@ =~= without_cr(rest.subrange(0, k)));
                assert(rest.subrange(k + 1, rest.len() as int) =~= v@.subrange(i + 1, n as int));
                assert(texts(out@.push(line)) =~= texts(out@).push(line@));
                assert(texts(out@).push(line@) + lines_of(v@.subrange(i + 1, n as int))
                    =~= texts(out@) + lines_of(rest));
            }
            out.push(line);
            start = i + 1;
        }
        i += 1;
    }
    if start < n {
        let line = string_of(&v, start, n);
        proof {
            let rest = v@.subrange(start as int, n as int);
            assert(v@.subrange(n as int, n as int) =~= Seq::empty());
            assert(lines_of(rest) == seq![rest]);
            assert(texts(out@.push(line)) =~= texts(out@) + seq![line@]);
        }
        out.push(line);
    } else {
        assert(v@.subrange(start as int, n as int) =~= Seq::empty());
        assert(texts(out@) + lines_of(v@.subrange(start as int, n as int)) =~= texts(out@));
    }
    out
}

proof fn lemma_run_in_prefix(s: Seq<char>, n: int)
    requires
        0 <= n <= run_before(s, '\n'),
        n <= s.len(),
    ensures
        run_before(s.subrange(0, n), '\n') == n,
    decreases n,
{
    if n > 0 {
        lemma_run_in_prefix(s.drop_first(), n - 1);
        assert(s.subrange(0, n).drop_first() =~= s.drop_first().subrange(0, n - 1));
    }
}

/// A line of a text, taken on its own, is its one line, unless it is empty: then
/// it has none.
pub proof fn a_line_is_one_line(s: Seq<char>, k: int)
    requires
        0 <= k < lines_of(s).len(),
    ensures
        lines_of(lines_of(s)[k]) == (if lines_of(s)[k].len() == 0 {
            Seq::empty()
        } else {
            seq![lines_of(s)[k]]
        }),
    decreases s.len(),
{
    let n = run_before(s, '\n') as int;
    if s.len() > 0 && n < s.len() {
        let line = without_cr(s.subrange(0, n));
        let rest = s.subrange(n + 1, s.len() as int);
        if k == 0 {
            lemma_run_in_prefix(s, line.len() as int);
            assert(line =~= s.subrange(0, line.len() as int));
        } else {
            a_line_is_one_line(rest, k - 1);
            assert(lines_of(s)[k] == lines_of(rest)[k - 1]);
        }
    }
}

// ---------------------------------------------------------------------------
// Lines in capitals
// ---------------------------------------------------------------------------

/// Each of the texts in ASCII upper case.
pub open spec fn all_uppered(v: Seq<Seq<char>>) -> Seq<Seq<char>> {
    v.map_values(|s: Seq<char>| ascii_uppered(s))
}

proof fn lemma_run_in_capitals(s: Seq<char>)
    ensures
        run_before(ascii_uppered(s), '\n') == run_before(s, '\n'),
        run_before(s, '\n') <= s.len(),
    decreases s.len(),
{
    if s.len() > 0 && s[0] != '\n' {
        assert(ascii_uppered(s)[0] != '\n');
        assert(ascii_uppered(s).drop_first() =~= ascii_uppered(s.drop_first()));
        lemma_run_in_capitals(s.drop_first());
    } else if s.len() > 0 {
        assert(ascii_uppered(s)[0] == '\n');
    }
}

/// The lines of a text in capitals are its lines in capitals.
pub proof fn lines_in_capitals(s: Seq<char>)
    ensures
        lines_of(ascii_uppered(s)) == all_uppered(lines_of(s)),
    decreases s.len(),
{
    let u = ascii_uppered(s);
    let n = run_before(s, '\n') as int;
    lemma_run_in_capitals(s);
    if s.len() == 0 {
        assert(lines_of(u) =~= all_uppered(lines_of(s)));
    } else if n >= s.len() {
        assert(lines_of(u) =~= all_uppered(lines_of(s)));
    } else {
        let line = s.subrange(0, n);
        let rest = s.subrange(n + 1, s.len() as int);
        lines_in_capitals(rest);
        assert(u.subrange(0, n) =~= ascii_uppered(line));
        assert(u.subrange(n + 1, u.len() as int) =~= ascii_uppered(rest));
        assert(without_cr(ascii_uppered(line)) =~= ascii_uppered(without_cr(line)));
        assert(lines_of(u) =~= all_uppered(lines_of(s)));
    }
}

proof fn lemma_trim_front_in_capitals(s: Seq<char>)
    ensures
        trim_front(ascii_uppered(s)) == ascii_uppered(trim_front(s)),
    decreases s.len(),
{
    if s.len() > 0 && is_space(s[0]) {
        assert(is_space(ascii_uppered(s)[0]));
        assert(ascii_uppered(s).drop_first() =~= ascii_uppered(s.drop_first()));
        lemma_trim_front_in_capitals(s.drop_first());
    } else if s.len() > 0 {
        assert(!is_space(ascii_uppered(s)[0]));
    }
}

proof fn lemma_trim_back_in_capitals(s: Seq<char>)
    ensures
        trim_back(ascii_uppered(s)) == ascii_uppered(trim_back(s)),
    decreases s.len(),
{
    if s.len() > 0 && is_space(s.last()) {
        assert(is_space(ascii_uppered(s).last()));
        assert(ascii_uppered(s).drop_last() =~= ascii_uppered(s.drop_last()));
        lemma_trim_back_in_capitals(s.drop_last());
    } else if s.len() > 0 {
        assert(!is_space(ascii_uppered(s).last()));
    }
}

/// Trimming a text in capitals leaves the trimmed text in capitals, so a text is
/// blank in capitals exactly when it is blank.
pub proof fn trimming_in_capitals(s: Seq<char>)
    ensures
        trimmed(ascii_uppered(s)) == ascii_uppered(trimmed(s)),
        is_blank(ascii_uppered(s)) == is_blank(s),
{
    lemma_trim_front_in_capitals(s);
    lemma_trim_back_in_capitals(trim_front(s));
}

// ---------------------------------------------------------------------------
// Decimal numbers
// ---------------------------------------------------------------------------

/// The decimal digit for `d`, which is below ten.
pub open spec fn digit(d: int) -> char {
    (d + 48) as char
}

/// `n` in decimal.
pub open spec fn decimal(n: nat) -> Seq<char>
    decreases n,
{
    if n < 10 {
        seq![digit(n as int)]
    } else {
        decimal(n / 10).push(digit((n % 10) as int))
    }
}

/// Appends `n` in decimal to `out`.
pub fn push_decimal(out: &mut String, n: u64)
    ensures
        final(out)@ == old(out)@ + decimal(n as nat),
    decreases n,
{
    if n >= 10 {
        push_decimal(out, n / 10);
    }
    let d: u8 = (n % 10) as u8;
    out.push((d + 48u8) as char);
    assert(out@ =~= old(out)@ + decimal(n as nat));
}

/// Whether `c` is one of the digits `0` to `9`.
pub open spec fn is_digit(c: char) -> bool {
    '0' <= c <= '9'
}

/// The value of a run of decimal digits.
pub open spec fn digits_value(s: Seq<char>) -> nat
    decreases s.len(),
{
    if s.len() == 0 {
        0
    } else {
        digits_value(s.drop_last()) * 10 + (s.last() as int - 48) as nat
    }
}

/// `s` without a leading plus sign.
pub open spec fn after_sign(s: Seq<char>) -> Seq<char> {
    if s.len() > 0 && s[0] == '+' {
        s.drop_first()
    } else {
        s
    }
}

/// Whether `s` holds nothing but decimal digits.
pub open spec fn all_digits(s: Seq<char>) -> bool {
    forall|i: int| 0 <= i < s.len() ==> is_digit(#[trigger] s[i])
}

/// The number that `s` writes in decimal, when it is one that a `u32` holds: an
/// optional plus sign and at least one digit, and nothing else.
pub open spec fn number_of(s: Seq<char>) -> Option<u32> {
    let d = after_sign(s);
    if d.len() > 0 && all_digits(d) && digits_value(d) <= u32::MAX {
        Some(digits_value(d) as u32)
    } else {
        None
    }
}

/// A run of digits is worth at least what any of its prefixes is worth.
proof fn lemma_digits_value_grows(s: Seq<char>, k: int)
    requires
        0 <= k <= s.len(),
    ensures
        digits_value(s.subrange(0, k)) <= digits_value(s),
    decreases s.len() - k,
{
    if k < s.len() {
        lemma_digits_value_grows(s, k + 1);
        assert(s.subrange(0, k + 1).drop_last() =~= s.subrange(0, k));
    } else {
        assert(s.subrange(0, k) =~= s);
    }
}

/// Reads `s` as a decimal number.
pub fn parse_number(s: &str) -> (r: Option<u32>)
    ensures
        r == number_of(s@),
{
    let v = to_chars(s);
    let start: usize = if v.len() > 0 && v[0] == '+' {
        1
    } else {
        0
    };
    let ghost d = v@.subrange(start as int, v.len() as int);
    assert(d =~= after_sign(s@));
    if start == v.len() {
        return None;
    }
    let mut value: u64 = 0;
    let mut i: usize = start;
    while i < v.len()
        invariant
            start <= i <= v.len(),
            d == v@.subrange(start as int, v.len() as int),
            forall|k: int| 0 <= k < i - start ==> is_digit(#[trigger] d[k]),
            value == digits_value(d.subrange(0, i - start)),
            value <= u32::MAX,
            d == after_sign(s@),
            d.len() > 0,
        decreases v.len() - i,
    {
        let c: char = v[i];
        assert(d[i - start] == c);
        if !('0' <= c && c <= '9') {
            return None;
        }
        value = value * 10 + ((c as u8) - 48u8) as u64;
        i += 1;
        proof {
            assert(d.subrange(0, i - start).drop_last() =~= d.subrange(0, i - start - 1));
            lemma_digits_value_grows(d, i - start);
        }
        if value > 0xffff_ffffu64 {
            return None;
        }
    }
    assert(d.subrange(0, i - start) =~= d);
    Some(value as u32)
}

// ---------------------------------------------------------------------------
// What these functions do to texts
// ---------------------------------------------------------------------------

/// White space is the tab, the line feed, the vertical tab, the form feed, the
/// carriage return, the space, and beyond ASCII the characters that Unicode lists.
/// No printed ASCII character is white space.
pub proof fn white_space_is_listed(c: char)
    ensures
        c <= '\u{7f}' ==> (is_space(c) <==> c == '\t' || c == '\n' || c == '\u{b}' || c == '\u{c}' || c
            == '\r' || c == ' '),
        c > '\u{7f}' ==> (is_space(c) <==> seq![
            0x85int,
            0xa0,
            0x1680,
            0x2000,
            0x2001,
            0x2002,
            0x2003,
            0x2004,
            0x2005,
            0x2006,
            0x2007,
            0x2008,
            0x2009,
            0x200a,
            0x2028,
            0x2029,
            0x202f,
            0x205f,
            0x3000,
        ].contains(c as int)),
{
    let listed = seq![
        0x85int,
        0xa0,
        0x1680,
        0x2000,
        0x2001,
        0x2002,
        0x2003,
        0x2004,
        0x2005,
        0x2006,
        0x2007,
        0x2008,
        0x2009,
        0x200a,
        0x2028,
        0x2029,
        0x202f,
        0x205f,
        0x3000,
    ];
    if is_space(c) && c > '\u{7f}' {
        let k = if c == '\u{85}' {
            0int
        } else if c == '\u{a0}' {
            1
        } else if c == '\u{1680}' {
            2
        } else if c <= '\u{200a}' {
            c as int - 0x2000 + 3
        } else if c == '\u{2028}' {
            14
        } else if c == '\u{2029}' {
            15
        } else if c == '\u{202f}' {
            16
        } else if c == '\u{205f}' {
            17
        } else {
            18
        };
        assert(listed[k] == c as int);
    }
}

/// Trimming takes off white space at both ends and nothing else: what it leaves
/// stands in the text, all around it is white space, and it neither starts nor
/// ends with any.
pub proof fn trimming_takes_off_white_space(s: Seq<char>)
    ensures
        exists|i: int| #[trigger]
            stands_at(s, i, trimmed(s)) && (forall|k: int| 0 <= k < i ==> is_space(#[trigger] s[k]))
                && (forall|k: int|
                i + trimmed(s).len() <= k < s.len() ==> is_space(#[trigger] s[k])),
        trimmed(s).len() > 0 ==> !is_space(trimmed(s)[0]) && !is_space(trimmed(s).last()),
{
    let u = trim_front(s);
    let t = trimmed(s);
    let i = s.len() - u.len();
    trimming_is_complete(s);
    lemma_trim_front(s);
    lemma_trim_back(u);
    lemma_trimmed_off(s);
    lemma_trimmed_off(u);
    assert(s.subrange(i, i + t.len()) =~= t);
    assert(stands_at(s, i, t));
    assert forall|k: int| i + t.len() <= k < s.len() implies is_space(#[trigger] s[k]) by {
        assert(u[k - i] == s[k]);
    }
}

proof fn lemma_trimmed_off(s: Seq<char>)
    ensures
        trim_front(s).len() <= s.len(),
        trim_back(s).len() <= s.len(),
        forall|k: int| 0 <= k < s.len() - trim_front(s).len() ==> is_space(#[trigger] s[k]),
        forall|k: int| trim_back(s).len() <= k < s.len() ==> is_space(#[trigger] s[k]),
    decreases s.len(),
{
    if s.len() > 0 {
        let f = s.drop_first();
        let b = s.drop_last();
        lemma_trimmed_off(f);
        lemma_trimmed_off(b);
        assert forall|k: int| 0 <= k < s.len() - trim_front(s).len() implies is_space(
            #[trigger] s[k],
        ) by {
            if k > 0 {
                assert(f[k - 1] == s[k]);
            }
        }
        assert forall|k: int| trim_back(s).len() <= k < s.len() implies is_space(#[trigger] s[k]) by {
            if k < b.len() {
                assert(b[k] == s[k]);
            }
        }
    }
}

/// A text is blank exactly when each of its characters is white space.
pub proof fn blank_means_white_space(s: Seq<char>)
    ensures
        is_blank(s) <==> forall|k: int| 0 <= k < s.len() ==> is_space(#[trigger] s[k]),
{
    trimming_takes_off_white_space(s);
    let t = trimmed(s);
    let i = choose|i: int| #[trigger]
        stands_at(s, i, t) && (forall|k: int| 0 <= k < i ==> is_space(#[trigger] s[k])) && (forall|
            k: int,
        |
            i + t.len() <= k < s.len() ==> is_space(#[trigger] s[k]));
    if t.len() > 0 {
        assert(s[i] == s.subrange(i, i + t.len())[0]);
        assert(!is_space(s[i]));
    }
}

/// A text occurs in whatever has it as a part.
pub proof fn occurrences_are_parts(before: Seq<char>, needle: Seq<char>, after: Seq<char>)
    ensures
        occurs(before + needle + after, needle),
        stands_at(before + needle + after, before.len() as int, needle),
{
    let hay = before + needle + after;
    let i = before.len() as int;
    assert(hay.subrange(i, i + needle.len()) =~= needle);
    assert(stands_at(hay, i, needle));
}

/// Where a text stands in another, the characters are the same, one by one, and it
/// occurs there if it stands anywhere.
pub proof fn standing_means_same_characters(hay: Seq<char>, i: int, needle: Seq<char>)
    ensures
        stands_at(hay, i, needle) <==> 0 <= i && i + needle.len() <= hay.len() && forall|k: int|
            0 <= k < needle.len() ==> hay[i + k] == #[trigger] needle[k],
        occurs(hay, needle) <==> exists|j: int| #[trigger] stands_at(hay, j, needle),
{
    if stands_at(hay, i, needle) {
        assert forall|k: int| 0 <= k < needle.len() implies hay[i + k] == #[trigger] needle[k] by {
            assert(hay.subrange(i, i + needle.len())[k] == hay[i + k]);
        }
    }
    if 0 <= i && i + needle.len() <= hay.len() && forall|k: int|
        0 <= k < needle.len() ==> hay[i + k] == #[trigger] needle[k] {
        assert(hay.subrange(i, i + needle.len()) =~= needle);
    }
}

/// The case of ASCII letters pairs `A` with `a` up to `Z` with `z`, and leaves
/// every other character as it is.
pub proof fn ascii_case_pairs_letters(c: char)
    ensures
        'A' <= c <= 'Z' ==> ascii_lower(c) as int == c as int - 'A' as int + 'a' as int,
        'a' <= c <= 'z' ==> ascii_upper(c) as int == c as int - 'a' as int + 'A' as int,
        !('A' <= c <= 'Z') ==> ascii_lower(c) == c,
        !('a' <= c <= 'z') ==> ascii_upper(c) == c,
{
}

/// A text up to its first line feed is its first line, without a carriage return
/// at its end; what follows the line feed makes up the other lines.
pub proof fn lines_end_at_line_feeds(first: Seq<char>, rest: Seq<char>)
    requires
        forall|k: int| 0 <= k < first.len() ==> #[trigger] first[k] != '\n',
    ensures
        lines_of(first) == (if first.len() == 0 {
            Seq::empty()
        } else {
            seq![first]
        }),
        lines_of(first.push('\n') + rest) == seq![
            if first.len() > 0 && first[first.len() - 1] == '\r' {
                first.subrange(0, first.len() - 1)
            } else {
                first
            },
        ] + lines_of(rest),
{
    let all = first.push('\n') + rest;
    let n = first.len() as int;
    lemma_run_is(first, n);
    lemma_run_is(all, n);
    assert(all.subrange(0, n) =~= first);
    assert(all.subrange(n + 1, all.len() as int) =~= rest);
}

proof fn lemma_run_is(s: Seq<char>, n: int)
    requires
        0 <= n <= s.len(),
        forall|k: int| 0 <= k < n ==> #[trigger] s[k] != '\n',
        n < s.len() ==> s[n] == '\n',
    ensures
        run_before(s, '\n') == n,
    decreases n,
{
    if n > 0 {
        let rest = s.drop_first();
        assert forall|k: int| 0 <= k < n - 1 implies #[trigger] rest[k] != '\n' by {
            assert(s[k + 1] != '\n');
        }
        lemma_run_is(rest, n - 1);
    }
}

/// A number in decimal is the run of digits that is worth the number, without a
/// needless zero in front.
pub proof fn decimal_writes_the_number(n: nat)
    ensures
        decimal(n).len() > 0,
        forall|k: int| 0 <= k < decimal(n).len() ==> '0' <= #[trigger] decimal(n)[k] <= '9',
        digits_value(decimal(n)) == n,
        decimal(n).len() > 1 ==> decimal(n)[0] != '0',
        n <= u32::MAX ==> number_of(decimal(n)) == Some(n as u32),
    decreases n,
{
    let s = decimal(n);
    if n < 10 {
        assert(s.drop_last() =~= Seq::empty());
        reveal_with_fuel(digits_value, 2);
    } else {
        let front = decimal(n / 10);
        decimal_writes_the_number(n / 10);
        assert(s.drop_last() =~= front);
        if front.len() == 1 {
            assert(front.drop_last() =~= Seq::empty());
            reveal_with_fuel(digits_value, 2);
            assert(front[0] != '0');
        }
        assert(s[0] == front[0]);
    }
    assert(all_digits(s));
    assert(after_sign(s) == s);
}

/// A digit behind a run of digits makes it worth ten times as much, and the digit.
pub proof fn digits_count_in_tens(s: Seq<char>, c: char)
    requires
        '0' <= c <= '9',
    ensures
        digits_value(s.push(c)) == 10 * digits_value(s) + (c as int - '0' as int),
        digits_value(Seq::empty()) == 0,
{
    assert(s.push(c).drop_last() =~= s);
}

/// Different numbers are written differently.
pub proof fn decimals_differ(m: nat, n: nat)
    requires
        m != n,
    ensures
        decimal(m) != decimal(n),
{
    decimal_writes_the_number(m);
    decimal_writes_the_number(n);
}

/// A list of strings is the list of their texts, one for each and in their order.
pub proof fn texts_are_those_of_the_strings(v: Seq<String>, i: int)
    ensures
        texts(v).len() == v.len(),
        0 <= i < v.len() ==> texts(v)[i] == v[i]@,
{
}

} // verus!
