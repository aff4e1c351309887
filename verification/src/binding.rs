//! What a control sets in a run of the script, and the tokens of a script line
//! that it can be bound to.

use crate::order;
use crate::parser;
use crate::pattern;
use crate::pattern::{Capture, CaptureView};
use crate::patterns;
use crate::span;
use crate::text;
use crate::unicode;
use vstd::prelude::*;

verus! {

/// How a control injects its value into the run, picked from a script token.
#[derive(Debug)]
pub enum Bound {
    Positional(u32),
    Named(String),
    Env(String),
}

/// What a `Bound` holds.
pub enum BoundView {
    Positional(u32),
    Named(Seq<char>),
    Env(Seq<char>),
}

impl View for Bound {
    type V = BoundView;

    open spec fn view(&self) -> BoundView {
        match self {
            Bound::Positional(n) => BoundView::Positional(*n),
            Bound::Named(name) => BoundView::Named(name@),
            Bound::Env(name) => BoundView::Env(name@),
        }
    }
}

impl Clone for Bound {
    fn clone(&self) -> (r: Self)
        ensures
            r@ == self@,
    {
        match self {
            Bound::Positional(n) => Bound::Positional(*n),
            Bound::Named(name) => Bound::Named(name.clone()),
            Bound::Env(name) => Bound::Env(name.clone()),
        }
    }
}

// ---------------------------------------------------------------------------
// Tokens of a line
// ---------------------------------------------------------------------------

/// A token of a line: where it starts and ends, in bytes, and what it binds to.
pub struct SpanView {
    pub start: int,
    pub end: int,
    pub bound: BoundView,
}

/// What a token holds.
pub open spec fn span_view(s: (usize, usize, Bound)) -> SpanView {
    SpanView { start: s.0 as int, end: s.1 as int, bound: s.2@ }
}

/// What a list of tokens holds.
pub open spec fn spans_view(v: Seq<(usize, usize, Bound)>) -> Seq<SpanView> {
    v.map_values(|s: (usize, usize, Bound)| span_view(s))
}

/// How a match becomes a token.
#[derive(Clone, Copy, PartialEq, Eq, Structural)]
pub enum TokenKind {
    /// The match is a positional argument, and its group the number.
    Argument,
    /// The match is an environment variable, and its group the name.
    Variable,
    /// The group of the match is an environment variable.
    Assignment,
    /// The match is a PowerShell variable, and its group the name. The
    /// constants `$true`, `$false` and `$null` are none.
    Named,
}

/// Whether a name is that of a PowerShell constant.
pub open spec fn is_constant(name: Seq<char>) -> bool {
    let n = unicode::lowercase(name);
    n == "true"@ || n == "false"@ || n == "null"@
}

/// The token that a match becomes.
pub open spec fn token_of(c: CaptureView, kind: TokenKind) -> Option<SpanView> {
    match c.group {
        Some(g) => match kind {
            TokenKind::Argument => match text::number_of(g.text) {
                Some(n) => Some(
                    SpanView { start: c.start, end: c.end, bound: BoundView::Positional(n) },
                ),
                None => None,
            },
            TokenKind::Variable => Some(
                SpanView { start: c.start, end: c.end, bound: BoundView::Env(g.text) },
            ),
            TokenKind::Assignment => Some(
                SpanView { start: g.start, end: g.end, bound: BoundView::Env(g.text) },
            ),
            TokenKind::Named => if is_constant(g.text) {
                None
            } else {
                Some(SpanView { start: c.start, end: c.end, bound: BoundView::Named(g.text) })
            },
        },
        None => None,
    }
}

/// The tokens that matches become.
pub open spec fn tokens_of(captures: Seq<CaptureView>, kind: TokenKind) -> Seq<SpanView>
    decreases captures.len(),
{
    if captures.len() == 0 {
        Seq::empty()
    } else {
        let before = tokens_of(captures.drop_last(), kind);
        match token_of(captures.last(), kind) {
            Some(s) => before.push(s),
            None => before,
        }
    }
}

/// The tokens that the patterns find in a line, pattern by pattern.
pub open spec fn found_tokens(line: Seq<char>, is_batch: bool) -> Seq<SpanView> {
    if is_batch {
        tokens_of(
            pattern::rx_captures_iter(patterns::TOKEN_ARGUMENT@, line),
            TokenKind::Argument,
        ) + tokens_of(
            pattern::rx_captures_iter(patterns::TOKEN_BATCH_VARIABLE@, line),
            TokenKind::Variable,
        ) + tokens_of(
            pattern::rx_captures_iter(patterns::TOKEN_BATCH_SET@, line),
            TokenKind::Assignment,
        )
    } else {
        tokens_of(
            pattern::rx_captures_iter(patterns::TOKEN_ENVIRONMENT@, line),
            TokenKind::Variable,
        ) + tokens_of(pattern::rx_captures_iter(patterns::TOKEN_VARIABLE@, line), TokenKind::Named)
    }
}

/// The keys by which tokens are ordered: by start, the longest first.
pub open spec fn token_keys(spans: Seq<SpanView>) -> Seq<(int, int)> {
    spans.map_values(|s: SpanView| (s.start, -s.end))
}

/// The tokens from left to right; of those that start together, the longest
/// first.
pub open spec fn left_to_right(spans: Seq<SpanView>) -> Seq<SpanView> {
    order::arranged(spans, order::stable_order(token_keys(spans)))
}

/// Where the last token ends.
pub open spec fn end_of(spans: Seq<SpanView>) -> int {
    if spans.len() == 0 {
        0
    } else {
        spans.last().end
    }
}

/// Of the first `n` tokens, those that start at or after the end of the one
/// kept before.
pub open spec fn kept(spans: Seq<SpanView>, n: int) -> Seq<SpanView>
    decreases n,
{
    if n <= 0 {
        Seq::empty()
    } else {
        let before = kept(spans, n - 1);
        if spans[n - 1].start >= end_of(before) {
            before.push(spans[n - 1])
        } else {
            before
        }
    }
}

/// The tokens of a line that a control can be bound to.
pub open spec fn line_tokens(line: Seq<char>, is_batch: bool) -> Seq<SpanView> {
    let spans = left_to_right(found_tokens(line, is_batch));
    kept(spans, spans.len() as int)
}

/// Whether the token lies in the line, cutting no character in two.
pub open spec fn fits(line: Seq<char>, s: (usize, usize, Bound)) -> bool {
    span::is_span(line, s.0 as int, s.1 as int)
}

/// Whether a token is not empty, and the argument that it binds to, if it is one,
/// is numbered from one to nine.
pub open spec fn is_sound(s: SpanView) -> bool {
    s.start < s.end && match s.bound {
        BoundView::Positional(n) => 1 <= n <= 9,
        _ => true,
    }
}

/// Whether all of the tokens are sound.
pub open spec fn all_sound(v: Seq<(usize, usize, Bound)>) -> bool {
    forall|i: int| 0 <= i < v.len() ==> is_sound(span_view(#[trigger] v[i]))
}

/// Whether all of the tokens lie in the line.
pub open spec fn all_fit(line: Seq<char>, v: Seq<(usize, usize, Bound)>) -> bool {
    forall|i: int| 0 <= i < v.len() ==> fits(line, #[trigger] v[i])
}

/// What an optional token holds.
pub open spec fn span_option(s: Option<(usize, usize, Bound)>) -> Option<SpanView> {
    match s {
        Some(s) => Some(span_view(s)),
        None => None,
    }
}

/// The token that a match becomes.
pub fn token_from(c: &Capture, kind: TokenKind) -> (r: Option<(usize, usize, Bound)>)
    ensures
        span_option(r) == token_of(c@, kind),
{
    match &c.group {
        Some(g) => match kind {
            TokenKind::Argument => match text::parse_number(g.text.as_str()) {
                Some(n) => Some((c.start, c.end, Bound::Positional(n))),
                None => None,
            },
            TokenKind::Variable => Some((c.start, c.end, Bound::Env(g.text.clone()))),
            TokenKind::Assignment => Some((g.start, g.end, Bound::Env(g.text.clone()))),
            TokenKind::Named => {
                let n = unicode::to_lowercase(g.text.as_str());
                if text::same(n.as_str(), "true") || text::same(n.as_str(), "false") || text::same(
                    n.as_str(),
                    "null",
                ) {
                    None
                } else {
                    Some((c.start, c.end, Bound::Named(g.text.clone())))
                }
            },
        },
        None => None,
    }
}

/// The token that a match in a line becomes lies in the line.
proof fn lemma_token_fits(
    line: Seq<char>,
    c: CaptureView,
    kind: TokenKind,
    s: (usize, usize, Bound),
)
    requires
        pattern::capture_fits(line, c),
        token_of(c, kind) == Some(span_view(s)),
    ensures
        fits(line, s),
{
    let v = span_view(s);
    assert(v.start == s.0 && v.end == s.1);
}

/// The token that a match of a pattern for tokens becomes is sound.
proof fn lemma_token_is_sound(c: CaptureView, kind: TokenKind, s: SpanView)
    requires
        pattern::is_token(c),
        kind == TokenKind::Argument ==> pattern::is_argument_number(c),
        token_of(c, kind) == Some(s),
    ensures
        is_sound(s),
{
    if kind == TokenKind::Argument {
        parser::argument_numbers_are_digits(c);
    }
}

/// Adds the tokens that the pattern finds in the line.
fn push_tokens(
    source: &'static str,
    kind: TokenKind,
    line: &str,
    out: &mut Vec<(usize, usize, Bound)>,
)
    requires
        patterns::is_token_pattern(source@),
        kind == TokenKind::Argument ==> source@ == patterns::TOKEN_ARGUMENT@,
        all_fit(line@, old(out)@),
        all_sound(old(out)@),
    ensures
        spans_view(final(out)@) == spans_view(old(out)@) + tokens_of(
            pattern::rx_captures_iter(source@, line@),
            kind,
        ),
        all_fit(line@, final(out)@),
        all_sound(final(out)@),
{
    let p = pattern::compile(source);
    let found = pattern::captures_all(&p, line);
    let ghost views = pattern::captures_view(found@);
    let ghost before = spans_view(out@);
    let mut i: usize = 0;
    assert(views.subrange(0, 0) =~= Seq::empty());
    assert(before + Seq::<SpanView>::empty() =~= before);
    while i < found.len()
        invariant
            i <= found.len(),
            views == pattern::captures_view(found@),
            forall|k: int|
                0 <= k < found.len() ==> pattern::capture_fits(line@, (#[trigger] found@[k])@),
            forall|k: int| 0 <= k < found.len() ==> pattern::is_token((#[trigger] found@[k])@),
            kind == TokenKind::Argument ==> forall|k: int|
                0 <= k < found.len() ==> pattern::is_argument_number((#[trigger] found@[k])@),
            spans_view(out@) == before + tokens_of(views.subrange(0, i as int), kind),
            all_fit(line@, out@),
            all_sound(out@),
        decreases found.len() - i,
    {
        assert(views.subrange(0, i + 1).drop_last() =~= views.subrange(0, i as int));
        assert(views.subrange(0, i + 1).last() == found@[i as int]@);
        if let Some(s) = token_from(&found[i], kind) {
            let ghost so_far = out@;
            proof {
                lemma_token_fits(line@, found@[i as int]@, kind, s);
                lemma_token_is_sound(found@[i as int]@, kind, span_view(s));
            }
            out.push(s);
            assert(spans_view(out@) =~= spans_view(so_far).push(span_view(s)));
            assert(spans_view(out@) =~= before + tokens_of(views.subrange(0, i + 1), kind));
        }
        i += 1;
    }
    assert(views.subrange(0, i as int) =~= views);
}

/// Orders the tokens and leaves out those that overlap one kept before.
pub fn resolve_spans(spans: &Vec<(usize, usize, Bound)>) -> (r: Vec<(usize, usize, Bound)>)
    ensures
        spans_view(r@) == ({
            let sorted = left_to_right(spans_view(spans@));
            kept(sorted, sorted.len() as int)
        }),
        forall|i: int|
            0 <= i < r.len() ==> exists|k: int|
                0 <= k < spans.len() && span_view(#[trigger] r@[i]) == span_view(
                    #[trigger] spans@[k],
                ),
{
    let ghost views = spans_view(spans@);
    let mut keys: Vec<(i128, i128)> = Vec::new();
    let mut i: usize = 0;
    while i < spans.len()
        invariant
            i <= spans.len(),
            keys.len() == i,
            forall|k: int|
                0 <= k < i ==> (#[trigger] keys@[k]).0 == spans@[k].0 && keys@[k].1 == -(
                spans@[k].1 as int),
        decreases spans.len() - i,
    {
        let start: i128 = spans[i].0 as i128;
        let end: i128 = spans[i].1 as i128;
        keys.push((start, -end));
        i += 1;
    }
    assert(order::keys_view(keys@) =~= token_keys(views));
    let indices = order::sorted_indices(&keys);
    let ghost sorted = left_to_right(views);
    let mut result: Vec<(usize, usize, Bound)> = Vec::new();
    let mut last_end: usize = 0;
    let mut n: usize = 0;
    assert(spans_view(result@) =~= Seq::empty());
    while n < indices.len()
        invariant
            n <= indices.len(),
            indices.len() == spans.len(),
            views == spans_view(spans@),
            sorted == order::arranged(views, order::indices_view(indices@)),
            forall|k: int| 0 <= k < indices.len() ==> #[trigger] indices@[k] < spans.len(),
            spans_view(result@) == kept(sorted, n as int),
            last_end == end_of(spans_view(result@)),
            forall|i: int|
                0 <= i < result.len() ==> exists|k: int|
                    0 <= k < spans.len() && span_view(#[trigger] result@[i]) == span_view(
                        #[trigger] spans@[k],
                    ),
        decreases indices.len() - n,
    {
        let k: usize = indices[n];
        let span = &spans[k];
        assert(sorted[n as int] == span_view(spans@[k as int]));
        if span.0 >= last_end {
            let ghost so_far = result@;
            let copy = (span.0, span.1, span.2.clone());
            assert(span_view(copy) == span_view(spans@[k as int]));
            result.push(copy);
            last_end = span.1;
            assert(spans_view(result@) =~= spans_view(so_far).push(span_view(copy)));
        }
        n += 1;
    }
    result
}

/// Find clickable binding tokens in a line: (start_byte, end_byte, target),
/// non-overlapping and left-to-right.
pub fn token_spans(line: &str, is_batch: bool) -> (r: Vec<(usize, usize, Bound)>)
    ensures
        spans_view(r@) == line_tokens(line@, is_batch),
        all_fit(line@, r@),
        forall|i: int| 0 <= i < r.len() ==> (#[trigger] r@[i]).0 < r@[i].1,
        forall|i: int|
            0 <= i < r.len() ==> ((#[trigger] r@[i]).2@ matches BoundView::Positional(n) ==> 1 <= n
                <= 9),
        forall|i: int, j: int|
            0 <= i < j < r.len() ==> (#[trigger] r@[i]).1 <= (#[trigger] r@[j]).0,
{
    let mut spans: Vec<(usize, usize, Bound)> = Vec::new();
    assert(spans_view(spans@) =~= Seq::empty());
    if is_batch {
        push_tokens(patterns::TOKEN_ARGUMENT, TokenKind::Argument, line, &mut spans);
        push_tokens(patterns::TOKEN_BATCH_VARIABLE, TokenKind::Variable, line, &mut spans);
        push_tokens(patterns::TOKEN_BATCH_SET, TokenKind::Assignment, line, &mut spans);
    } else {
        push_tokens(patterns::TOKEN_ENVIRONMENT, TokenKind::Variable, line, &mut spans);
        push_tokens(patterns::TOKEN_VARIABLE, TokenKind::Named, line, &mut spans);
    }
    assert(spans_view(spans@) =~= found_tokens(line@, is_batch));
    let r = resolve_spans(&spans);
    proof {
        let sorted = left_to_right(spans_view(spans@));
        assert forall|i: int| 0 <= i < r.len() implies is_sound(span_view(#[trigger] r@[i])) by {
            let k = choose|k: int|
                0 <= k < spans.len() && span_view(r@[i]) == span_view(#[trigger] spans@[k]);
            assert(is_sound(span_view(spans@[k])));
        }
        assert forall|i: int| 0 <= i < r.len() implies fits(line@, #[trigger] r@[i]) by {
            let k = choose|k: int|
                0 <= k < spans.len() && span_view(r@[i]) == span_view(#[trigger] spans@[k]);
            assert(fits(line@, spans@[k]));
            assert(span_view(r@[i]).start == span_view(spans@[k]).start);
            assert(span_view(r@[i]).end == span_view(spans@[k]).end);
        }
        assert forall|i: int| 0 <= i < sorted.len() implies (#[trigger] sorted[i]).start
            <= sorted[i].end by {
            order::order_is_stable(token_keys(spans_view(spans@)));
            let k = order::stable_order(token_keys(spans_view(spans@)))[i];
            assert(sorted[i] == span_view(spans@[k]));
            assert(fits(line@, spans@[k]));
        }
        tokens_do_not_overlap(sorted, sorted.len() as int);
        assert forall|i: int, j: int| 0 <= i < j < r.len() implies (#[trigger] r@[i]).1 <= (
        #[trigger] r@[j]).0 by {
            assert(spans_view(r@)[i] == span_view(r@[i]));
            assert(spans_view(r@)[j] == span_view(r@[j]));
        }
    }
    r
}

/// The tokens that are kept come from left to right and do not overlap.
pub proof fn tokens_do_not_overlap(spans: Seq<SpanView>, n: int)
    requires
        0 <= n <= spans.len(),
        forall|i: int| 0 <= i < spans.len() ==> (#[trigger] spans[i]).start <= spans[i].end,
    ensures
        forall|i: int, j: int|
            0 <= i < j < kept(spans, n).len() ==> (#[trigger] kept(spans, n)[i]).end <= (
            #[trigger] kept(spans, n)[j]).start,
        forall|i: int|
            0 <= i < kept(spans, n).len() ==> (#[trigger] kept(spans, n)[i]).start <= kept(
                spans,
                n,
            )[i].end <= end_of(kept(spans, n)),
    decreases n,
{
    if n > 0 {
        let before = kept(spans, n - 1);
        let all = kept(spans, n);
        tokens_do_not_overlap(spans, n - 1);
        assert forall|i: int, j: int| 0 <= i < j < all.len() implies (#[trigger] all[i]).end <= (
        #[trigger] all[j]).start by {
            assert(all[i] == before[i]);
            if j < before.len() {
                assert(all[j] == before[j]);
            }
        }
        assert forall|i: int| 0 <= i < all.len() implies (#[trigger] all[i]).start <= all[i].end
            <= end_of(all) by {
            if i < before.len() {
                assert(all[i] == before[i]);
            }
        }
    }
}

/// A token is left out only where it starts inside one that is kept.
proof fn only_overlapped_tokens_are_left_out(spans: Seq<SpanView>, n: int, i: int)
    requires
        0 <= i < n <= spans.len(),
        forall|a: int, b: int| 0 <= a < b < spans.len() ==> (#[trigger] spans[a]).start <= (
        #[trigger] spans[b]).start,
        forall|a: int| 0 <= a < spans.len() ==> 0 <= (#[trigger] spans[a]).start,
    ensures
        kept(spans, n).contains(spans[i]) || exists|k: int|
            0 <= k < kept(spans, n).len() && (#[trigger] kept(spans, n)[k]).start <= spans[i].start
                < kept(spans, n)[k].end,
    decreases n,
{
    let before = kept(spans, n - 1);
    let all = kept(spans, n);
    if i < n - 1 {
        only_overlapped_tokens_are_left_out(spans, n - 1, i);
        if before.contains(spans[i]) {
            let k = choose|k: int| 0 <= k < before.len() && before[k] == spans[i];
            assert(all[k] == spans[i]);
        } else {
            let k = choose|k: int|
                0 <= k < before.len() && (#[trigger] before[k]).start <= spans[i].start
                    < before[k].end;
            assert(all[k] == before[k]);
        }
    } else if spans[i].start >= end_of(before) {
        assert(all[all.len() - 1] == spans[i]);
    } else {
        lemma_kept_came_before(spans, n - 1, before.len() - 1);
        assert(all[before.len() - 1] == before.last());
    }
}

proof fn lemma_kept_came_before(spans: Seq<SpanView>, n: int, k: int)
    requires
        0 <= n <= spans.len(),
        0 <= k < kept(spans, n).len(),
    ensures
        exists|i: int| 0 <= i < n && #[trigger] spans[i] == kept(spans, n)[k],
    decreases n,
{
    if n > 0 {
        let before = kept(spans, n - 1);
        if k < before.len() {
            lemma_kept_came_before(spans, n - 1, k);
        } else {
            assert(spans[n - 1] == kept(spans, n)[k]);
        }
    }
}

/// Ordering loses no token and adds none, and puts them from left to right; of
/// those that start together, the longest comes first.
pub proof fn tokens_are_ordered(spans: Seq<SpanView>)
    ensures
        left_to_right(spans).len() == spans.len(),
        forall|s: SpanView| #[trigger] left_to_right(spans).contains(s) <==> spans.contains(s),
        forall|a: int, b: int|
            0 <= a < b < spans.len() ==> {
                ||| (#[trigger] left_to_right(spans)[a]).start < (
                #[trigger] left_to_right(spans)[b]).start
                ||| left_to_right(spans)[a].start == left_to_right(spans)[b].start
                    && left_to_right(spans)[a].end >= left_to_right(spans)[b].end
            },
{
    let keys = token_keys(spans);
    let indices = order::stable_order(keys);
    let sorted = left_to_right(spans);
    order::order_is_stable(keys);
    assert forall|s: SpanView| #[trigger] sorted.contains(s) <==> spans.contains(s) by {
        if sorted.contains(s) {
            let i = choose|i: int| 0 <= i < sorted.len() && sorted[i] == s;
            assert(spans[indices[i]] == s);
        }
        if spans.contains(s) {
            let k = choose|k: int| 0 <= k < spans.len() && spans[k] == s;
            assert(indices.contains(k));
            let i = choose|i: int| 0 <= i < indices.len() && indices[i] == k;
            assert(sorted[i] == s);
        }
    }
    assert forall|a: int, b: int| 0 <= a < b < spans.len() implies {
        ||| (#[trigger] sorted[a]).start < (#[trigger] sorted[b]).start
        ||| sorted[a].start == sorted[b].start && sorted[a].end >= sorted[b].end
    } by {
        assert(order::comes_before(keys, indices[a], indices[b]));
        assert(sorted[a] == spans[indices[a]] && sorted[b] == spans[indices[b]]);
        assert(keys[indices[a]] == (sorted[a].start, -sorted[a].end));
        assert(keys[indices[b]] == (sorted[b].start, -sorted[b].end));
    }
}

/// Every token that is found is offered, or starts inside one that is.
pub proof fn found_tokens_are_offered_or_covered(spans: Seq<SpanView>, k: int)
    requires
        0 <= k < spans.len(),
        forall|a: int| 0 <= a < spans.len() ==> 0 <= (#[trigger] spans[a]).start,
    ensures
        ({
            let offered = kept(left_to_right(spans), spans.len() as int);
            offered.contains(spans[k]) || exists|i: int|
                0 <= i < offered.len() && (#[trigger] offered[i]).start <= spans[k].start
                    < offered[i].end
        }),
{
    let sorted = left_to_right(spans);
    tokens_are_ordered(spans);
    assert(spans.contains(spans[k]));
    assert(sorted.contains(spans[k]));
    let i = choose|i: int| 0 <= i < sorted.len() && sorted[i] == spans[k];
    assert forall|a: int| 0 <= a < sorted.len() implies 0 <= (#[trigger] sorted[a]).start by {
        assert(sorted.contains(sorted[a]));
        let m = choose|m: int| 0 <= m < spans.len() && spans[m] == sorted[a];
        assert(0 <= spans[m].start);
    }
    only_overlapped_tokens_are_left_out(sorted, spans.len() as int, i);
}

// ---------------------------------------------------------------------------
// What tokens promise
// ---------------------------------------------------------------------------

/// A match becomes the token that it is written as: an argument binds to its number,
/// a variable that is read or set to the environment variable of its name, and a
/// PowerShell variable to the parameter of its name. The whole match can be clicked,
/// or of an assignment the name alone. The constants `$true`, `$false` and `$null`,
/// in any case of letters, are no tokens.
pub proof fn tokens_bind_as_written(c: CaptureView)
    requires
        c.group is Some,
    ensures
        ({
            let g = c.group->Some_0;
            let lower = unicode::lowercase(g.text);
            &&& text::number_of(g.text) matches Some(n) ==> token_of(c, TokenKind::Argument)
                == Some(SpanView { start: c.start, end: c.end, bound: BoundView::Positional(n) })
            &&& token_of(c, TokenKind::Variable) == Some(
                SpanView { start: c.start, end: c.end, bound: BoundView::Env(g.text) },
            )
            &&& token_of(c, TokenKind::Assignment) == Some(
                SpanView { start: g.start, end: g.end, bound: BoundView::Env(g.text) },
            )
            &&& lower != "true"@ && lower != "false"@ && lower != "null"@ ==> token_of(
                c,
                TokenKind::Named,
            ) == Some(
                SpanView { start: c.start, end: c.end, bound: BoundView::Named(g.text) },
            )
            &&& lower == "true"@ || lower == "false"@ || lower == "null"@ ==> token_of(
                c,
                TokenKind::Named,
            ) is None
        }),
{
}

/// Every match that becomes a token is found, in their order: in a batch file the
/// arguments, the variables that are read and those that are set, and in any other
/// script the environment variables and the variables.
pub proof fn all_tokens_are_found(
    line: Seq<char>,
    captures: Seq<CaptureView>,
    c: CaptureView,
    kind: TokenKind,
)
    ensures
        tokens_of(Seq::empty(), kind).len() == 0,
        token_of(c, kind) matches Some(s) ==> tokens_of(captures.push(c), kind) == tokens_of(
            captures,
            kind,
        ).push(s),
        token_of(c, kind) is None ==> tokens_of(captures.push(c), kind) == tokens_of(captures, kind),
        found_tokens(line, true) == tokens_of(
            pattern::rx_captures_iter(patterns::TOKEN_ARGUMENT@, line),
            TokenKind::Argument,
        ) + tokens_of(
            pattern::rx_captures_iter(patterns::TOKEN_BATCH_VARIABLE@, line),
            TokenKind::Variable,
        ) + tokens_of(
            pattern::rx_captures_iter(patterns::TOKEN_BATCH_SET@, line),
            TokenKind::Assignment,
        ),
        found_tokens(line, false) == tokens_of(
            pattern::rx_captures_iter(patterns::TOKEN_ENVIRONMENT@, line),
            TokenKind::Variable,
        ) + tokens_of(
            pattern::rx_captures_iter(patterns::TOKEN_VARIABLE@, line),
            TokenKind::Named,
        ),
{
    assert(captures.push(c).drop_last() =~= captures);
}

/// The tokens of a line are found ones, and of those that overlap the one that starts
/// first, and of those that start together the longest: from left to right, each
/// token is taken that starts where the last one taken ends, or behind it.
pub proof fn tokens_are_taken_from_the_left(line: Seq<char>, is_batch: bool, n: int)
    ensures
        ({
            let sorted = left_to_right(found_tokens(line, is_batch));
            let before = kept(sorted, n);
            let free = before.len() == 0 || sorted[n].start >= before[before.len() - 1].end;
            &&& line_tokens(line, is_batch) == kept(sorted, sorted.len() as int)
            &&& kept(sorted, 0).len() == 0
            &&& 0 <= n < sorted.len() && sorted[n].start >= 0 && free ==> kept(sorted, n + 1)
                == before.push(sorted[n])
            &&& 0 <= n < sorted.len() && !free ==> kept(sorted, n + 1) == before
        }),
        forall|s: SpanView| #[trigger]
            line_tokens(line, is_batch).contains(s) ==> found_tokens(line, is_batch).contains(s),
{
    let found = found_tokens(line, is_batch);
    let sorted = left_to_right(found);
    let all = line_tokens(line, is_batch);
    tokens_are_ordered(found);
    assert forall|s: SpanView| #[trigger] all.contains(s) implies found.contains(s) by {
        let k = choose|k: int| 0 <= k < all.len() && all[k] == s;
        lemma_kept_came_before(sorted, sorted.len() as int, k);
        let i = choose|i: int| 0 <= i < sorted.len() && #[trigger] sorted[i] == all[k];
        assert(sorted.contains(s));
    }
}

/// What is said of a binding or a token is said of what it holds, and of a list of tokens
/// of each of them, in their order.
pub proof fn bindings_are_what_they_hold(
    b: Bound,
    s: (usize, usize, Bound),
    v: Seq<(usize, usize, Bound)>,
    i: int,
)
    ensures
        b matches Bound::Positional(n) ==> b@ == BoundView::Positional(n),
        b matches Bound::Named(name) ==> b@ == BoundView::Named(name@),
        b matches Bound::Env(name) ==> b@ == BoundView::Env(name@),
        span_view(s).start == s.0,
        span_view(s).end == s.1,
        span_view(s).bound == s.2@,
        spans_view(v).len() == v.len(),
        0 <= i < v.len() ==> spans_view(v)[i] == span_view(v[i]),
        span_option(Some(s)) == Some(span_view(s)),
        span_option(None) is None,
{
}

} // verus!
