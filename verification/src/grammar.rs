//! What the patterns for block comments and for batch arguments describe,
//! written out over the characters of a script.

use crate::text;
use vstd::prelude::*;

verus! {

// ---------------------------------------------------------------------------
// Block comments
// ---------------------------------------------------------------------------

/// What opens a block comment.
pub open spec fn comment_open() -> Seq<char> {
    seq!['<', '#']
}

/// What closes a block comment.
pub open spec fn comment_close() -> Seq<char> {
    seq!['#', '>']
}

/// Where the first block comment of `s` starts and ends: at the first opening
/// sign, and behind the first closing sign that follows it.
pub open spec fn first_comment(s: Seq<char>) -> Option<(int, int)> {
    match text::first_from(s, comment_open(), 0) {
        Some(i) => match text::first_from(s, comment_close(), i + 2) {
            Some(j) => Some((i, j + 2)),
            None => None,
        },
        None => None,
    }
}

/// `s` with a space in place of each block comment.
pub open spec fn without_comments(s: Seq<char>) -> Seq<char>
    decreases s.len(),
{
    match first_comment(s) {
        Some((start, end)) => {
            proof {
                comments_lie_in_the_text(s);
            }
            s.subrange(0, start) + seq![' '] + without_comments(s.subrange(end, s.len() as int))
        },
        None => s,
    }
}

/// A comment lies in the text and is not empty.
pub proof fn comments_lie_in_the_text(s: Seq<char>)
    ensures
        first_comment(s) matches Some((start, end)) ==> 0 <= start && start + 4 <= end <= s.len(),
{
    text::first_is_first(s, comment_open(), 0);
    if let Some(i) = text::first_from(s, comment_open(), 0) {
        text::first_is_first(s, comment_close(), i + 2);
    }
}

/// What is left when the comments are taken out holds no comment.
proof fn lemma_no_comment_is_left(s: Seq<char>)
    ensures
        first_comment(without_comments(s)) is None,
    decreases s.len(),
{
    if let Some((start, end)) = first_comment(s) {
        comments_lie_in_the_text(s);
        let rest = s.subrange(end, s.len() as int);
        let inner = without_comments(rest);
        lemma_no_comment_is_left(rest);
        let r = without_comments(s);
        assert(r == s.subrange(0, start) + seq![' '] + inner);
        if let Some((p, e)) = first_comment(r) {
            let j = e - 2;
            text::first_is_first(r, comment_open(), 0);
            text::first_is_first(r, comment_close(), p + 2);
            text::first_is_first(s, comment_open(), 0);
            assert(r.subrange(p, p + 2)[0] == '<' && r.subrange(p, p + 2)[1] == '#');
            assert(r.subrange(j, j + 2)[0] == '#' && r.subrange(j, j + 2)[1] == '>');
            if p < start {
                if p + 1 < start {
                    assert(s.subrange(p, p + 2) =~= comment_open());
                    assert(text::stands_at(s, p, comment_open()));
                } else {
                    assert(r[start] == ' ');
                }
                assert(false);
            }
            assert(r[start] == ' ');
            let q = p - start - 1;
            let k = j - start - 1;
            assert(inner.subrange(q, q + 2) =~= comment_open());
            assert(inner.subrange(k, k + 2) =~= comment_close());
            assert(text::stands_at(inner, q, comment_open()));
            assert(text::stands_at(inner, k, comment_close()));
            text::first_is_first(inner, comment_open(), 0);
            let first = text::first_from(inner, comment_open(), 0)->Some_0;
            text::first_is_first(inner, comment_close(), first + 2);
            assert(false);
        }
    }
}

/// Taking comments out is complete: taking them out again changes nothing.
pub proof fn no_comment_is_left(s: Seq<char>)
    ensures
        without_comments(without_comments(s)) == without_comments(s),
{
    lemma_no_comment_is_left(s);
}

// ---------------------------------------------------------------------------
// Batch arguments
// ---------------------------------------------------------------------------

/// Whether `c` is an ASCII letter.
pub open spec fn is_letter(c: char) -> bool {
    'a' <= c <= 'z' || 'A' <= c <= 'Z'
}

/// The first position at or after `k` without a letter.
pub open spec fn after_letters(s: Seq<char>, k: int) -> int
    decreases s.len() - k,
{
    if k >= s.len() || !is_letter(s[k]) {
        k
    } else {
        after_letters(s, k + 1)
    }
}

/// The digit of the positional argument at `i`: a percent sign, maybe a tilde
/// and letters, and a digit other than zero.
pub open spec fn argument_at(s: Seq<char>, i: int) -> Option<char> {
    let k = if i + 1 < s.len() && s[i + 1] == '~' {
        after_letters(s, i + 2)
    } else {
        i + 1
    };
    if s[i] == '%' && k < s.len() && '1' <= s[k] <= '9' {
        Some(s[k])
    } else {
        None
    }
}

/// The digits of the positional arguments that start before position `n`.
pub open spec fn digits_before(s: Seq<char>, n: int) -> Seq<char>
    decreases n,
{
    if n <= 0 {
        Seq::empty()
    } else {
        let before = digits_before(s, n - 1);
        match argument_at(s, n - 1) {
            Some(d) => before.push(d),
            None => before,
        }
    }
}

/// The digits of the positional arguments of a batch file, in their order.
pub open spec fn argument_digits(s: Seq<char>) -> Seq<char> {
    digits_before(s, s.len() as int)
}

/// The digits of arguments are those from one to nine.
pub proof fn digits_are_not_zero(s: Seq<char>, n: int)
    ensures
        forall|i: int|
            0 <= i < digits_before(s, n).len() ==> '1' <= #[trigger] digits_before(s, n)[i] <= '9',
    decreases n,
{
    if n > 0 {
        digits_are_not_zero(s, n - 1);
        let before = digits_before(s, n - 1);
        assert forall|i: int| 0 <= i < digits_before(s, n).len() implies '1'
            <= #[trigger] digits_before(s, n)[i] <= '9' by {
            if i < before.len() {
                assert(digits_before(s, n)[i] == before[i]);
            }
        }
    }
}

/// Two texts, one after the other, with a line feed between them.
pub open spec fn two_parts(a: Seq<char>, b: Seq<char>) -> Seq<char> {
    a + seq!['\n'] + b
}

proof fn lemma_letters_in_front(a: Seq<char>, b: Seq<char>, k: int)
    requires
        0 <= k <= a.len(),
    ensures
        after_letters(two_parts(a, b), k) == after_letters(a, k),
        k <= after_letters(a, k) <= a.len(),
    decreases a.len() - k,
{
    let s = two_parts(a, b);
    if k < a.len() {
        assert(s[k] == a[k]);
        if is_letter(a[k]) {
            lemma_letters_in_front(a, b, k + 1);
        }
    } else {
        assert(s[k] == '\n');
    }
}

proof fn lemma_letters_behind(a: Seq<char>, b: Seq<char>, k: int)
    requires
        0 <= k,
    ensures
        after_letters(two_parts(a, b), a.len() + 1 + k) == a.len() + 1 + after_letters(b, k),
        k <= after_letters(b, k),
    decreases b.len() - k,
{
    let s = two_parts(a, b);
    if k < b.len() {
        assert(s[a.len() + 1 + k] == b[k]);
        if is_letter(b[k]) {
            lemma_letters_behind(a, b, k + 1);
        }
    }
}

proof fn lemma_argument_in_front(a: Seq<char>, b: Seq<char>, i: int)
    requires
        0 <= i < a.len(),
    ensures
        argument_at(two_parts(a, b), i) == argument_at(a, i),
{
    let s = two_parts(a, b);
    assert(s[i] == a[i]);
    assert(s[a.len() as int] == '\n');
    assert(forall|k: int| 0 <= k < a.len() ==> s[k] == a[k]);
    if i + 1 < a.len() {
        lemma_letters_in_front(a, b, i + 2);
    }
}

proof fn lemma_argument_behind(a: Seq<char>, b: Seq<char>, i: int)
    requires
        0 <= i < b.len(),
    ensures
        argument_at(two_parts(a, b), a.len() + 1 + i) == argument_at(b, i),
{
    let s = two_parts(a, b);
    assert(forall|k: int| 0 <= k < b.len() ==> s[a.len() + 1 + k] == b[k]);
    assert(s[a.len() + 1 + i] == b[i]);
    if i + 1 < b.len() {
        assert(s[a.len() + 1 + i + 1] == b[i + 1]);
        lemma_letters_behind(a, b, i + 2);
    }
    let k = if i + 1 < b.len() && b[i + 1] == '~' {
        after_letters(b, i + 2)
    } else {
        i + 1
    };
    if k < b.len() {
        assert(s[a.len() + 1 + k] == b[k]);
    }
}

proof fn lemma_digits_in_front(a: Seq<char>, b: Seq<char>, n: int)
    requires
        0 <= n <= a.len(),
    ensures
        digits_before(two_parts(a, b), n) == digits_before(a, n),
    decreases n,
{
    if n > 0 {
        lemma_digits_in_front(a, b, n - 1);
        lemma_argument_in_front(a, b, n - 1);
    }
}

proof fn lemma_digits_behind(a: Seq<char>, b: Seq<char>, n: int)
    requires
        0 <= n <= b.len(),
    ensures
        digits_before(two_parts(a, b), a.len() + 1 + n) == argument_digits(a) + digits_before(b, n),
    decreases n,
{
    let s = two_parts(a, b);
    if n > 0 {
        lemma_digits_behind(a, b, n - 1);
        lemma_argument_behind(a, b, n - 1);
        assert(digits_before(s, a.len() + 1 + n) =~= argument_digits(a) + digits_before(b, n));
    } else {
        lemma_digits_in_front(a, b, a.len() as int);
        assert(s[a.len() as int] == '\n');
        assert(argument_at(s, a.len() as int) is None);
        assert(digits_before(s, (a.len() + 1) as int) =~= argument_digits(a) + digits_before(b, 0));
    }
}

/// The arguments of two texts with a line feed between them are those of the
/// first and then those of the second.
pub proof fn parts_keep_their_arguments(a: Seq<char>, b: Seq<char>)
    ensures
        argument_digits(two_parts(a, b)) == argument_digits(a) + argument_digits(b),
{
    lemma_digits_behind(a, b, b.len() as int);
    assert(two_parts(a, b).len() == a.len() + 1 + b.len());
}

// ---------------------------------------------------------------------------
// How comments and arguments are written
// ---------------------------------------------------------------------------

/// A comment goes from its opening sign, `<#`, to the next closing sign, `#>`, whatever
/// stands in between, and a space takes its place; what stands before it stays, and
/// what follows it is looked through in turn. A text without a comment stays as it is.
pub proof fn comments_give_way_to_spaces(
    all: Seq<char>,
    before: Seq<char>,
    comment: Seq<char>,
    after: Seq<char>,
)
    requires
        all == before + seq!['<', '#'] + comment + seq!['#', '>'] + after,
        forall|i: int|
            0 <= i < before.len() ==> !#[trigger] text::stands_at(all, i, comment_open()),
        forall|j: int|
            before.len() + 2 <= j < before.len() + 2 + comment.len() ==> !#[trigger] text::stands_at(
                all,
                j,
                comment_close(),
            ),
    ensures
        without_comments(all) == before + seq![' '] + without_comments(after),
        !text::occurs(after, comment_open()) || !text::occurs(after, comment_close())
            ==> without_comments(after) == after,
        comment_open() == seq!['<', '#'],
        comment_close() == seq!['#', '>'],
{
    let open = comment_open();
    let close = comment_close();
    let i = before.len() as int;
    let j = i + 2 + comment.len();
    assert(all.subrange(i, i + 2) =~= open);
    assert(all.subrange(j, j + 2) =~= close);
    assert(text::stands_at(all, i, open));
    assert(text::stands_at(all, j, close));
    text::first_is_first(all, open, 0);
    text::first_is_first(all, close, i + 2);
    let p = text::first_from(all, open, 0)->Some_0;
    assert(p == i) by {
        if p < i {
            assert(!text::stands_at(all, p, open));
        }
    }
    let q = text::first_from(all, close, i + 2)->Some_0;
    assert(q == j) by {
        if q < j {
            assert(!text::stands_at(all, q, close));
        }
    }
    assert(all.subrange(0, i) =~= before);
    assert(all.subrange(j + 2, all.len() as int) =~= after);
    text::first_is_first(after, open, 0);
    if let Some(k) = text::first_from(after, open, 0) {
        text::first_is_first(after, close, k + 2);
    }
}

/// A positional argument is a percent sign and a digit other than zero, maybe with a
/// tilde and letters between them. A percent sign before anything else is none.
pub proof fn arguments_are_written_with_a_percent_sign(
    before: Seq<char>,
    letters: Seq<char>,
    c: char,
    after: Seq<char>,
)
    requires
        forall|k: int| 0 <= k < letters.len() ==> is_letter(#[trigger] letters[k]),
    ensures
        '1' <= c <= '9' ==> argument_at(
            before + seq!['%', c] + after,
            before.len() as int,
        ) == Some(c),
        '1' <= c <= '9' ==> argument_at(
            before + seq!['%', '~'] + letters + seq![c] + after,
            before.len() as int,
        ) == Some(c),
        c != '~' && !('1' <= c <= '9') ==> argument_at(
            before + seq!['%', c] + after,
            before.len() as int,
        ) is None,
        c != '%' ==> argument_at(before + seq![c] + after, before.len() as int) is None,
{
    let i = before.len() as int;
    let short = before + seq!['%', c] + after;
    let long = before + seq!['%', '~'] + letters + seq![c] + after;
    assert(short[i] == '%' && short[i + 1] == c);
    assert(long[i] == '%' && long[i + 1] == '~');
    let j = i + 2 + letters.len();
    assert(long[j] == c);
    assert forall|k: int| i + 2 <= k < j implies is_letter(#[trigger] long[k]) by {
        assert(long[k] == letters[k - i - 2]);
    }
    if '1' <= c <= '9' {
        lemma_letters_end(long, i + 2, j);
    }
    assert((before + seq![c] + after)[i] == c);
}

proof fn lemma_letters_end(s: Seq<char>, from: int, to: int)
    requires
        0 <= from <= to < s.len(),
        forall|k: int| from <= k < to ==> is_letter(#[trigger] s[k]),
        !is_letter(s[to]),
    ensures
        after_letters(s, from) == to,
    decreases to - from,
{
    if from < to {
        assert(is_letter(s[from]));
        lemma_letters_end(s, from + 1, to);
    }
}

} // verus!
