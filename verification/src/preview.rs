//! The preview of a script line while a binding is picked: the tokens that can
//! be clicked, and the text between them.

use crate::binding;
use crate::binding::{Bound, BoundView, SpanView};
use crate::span;
use crate::span::slice_text;
use vstd::prelude::*;
use vstd::utf8::*;

verus! {

/// A part of a line. A part with a binding can be clicked.
pub struct Segment {
    /// Where the part starts in the line, in bytes.
    pub start: usize,
    pub text: String,
    pub bound: Option<Bound>,
}

/// What a `Segment` holds.
#[verifier::ext_equal]
pub struct SegmentView {
    pub start: int,
    pub text: Seq<char>,
    pub bound: Option<BoundView>,
}

impl View for Segment {
    type V = SegmentView;

    open spec fn view(&self) -> SegmentView {
        SegmentView {
            start: self.start as int,
            text: self.text@,
            bound: match self.bound {
                Some(b) => Some(b@),
                None => None,
            },
        }
    }
}

/// What a list of segments holds.
pub open spec fn segments_view(v: Seq<Segment>) -> Seq<SegmentView> {
    v.map_values(|s: Segment| s@)
}

/// A part of a line.
pub open spec fn segment_of(line: Seq<char>, start: int, end: int, bound: Option<BoundView>) -> SegmentView {
    SegmentView { start, text: span::slice(line, start, end), bound }
}

/// The parts of `line` up to the end of the first `n` tokens.
pub open spec fn segments_before(line: Seq<char>, spans: Seq<SpanView>, n: int) -> Seq<SegmentView>
    decreases n,
{
    if n <= 0 {
        Seq::empty()
    } else {
        let before = segments_before(line, spans, n - 1);
        let pos = end_before(spans, n - 1);
        let s = spans[n - 1];
        let token = segment_of(line, s.start, s.end, Some(s.bound));
        if s.start > pos {
            before.push(segment_of(line, pos, s.start, None)).push(token)
        } else {
            before.push(token)
        }
    }
}

/// Where the first `n` tokens end.
pub open spec fn end_before(spans: Seq<SpanView>, n: int) -> int {
    if n <= 0 {
        0
    } else {
        spans[n - 1].end
    }
}

/// The parts of `line`: the tokens, and the text before, between and after them.
pub open spec fn segments(line: Seq<char>, spans: Seq<SpanView>) -> Seq<SegmentView> {
    let n = spans.len() as int;
    let pos = end_before(spans, n);
    let size = encode_utf8(line).len() as int;
    if pos < size {
        segments_before(line, spans, n).push(segment_of(line, pos, size, None))
    } else {
        segments_before(line, spans, n)
    }
}

/// Whether the tokens lie in the line, from left to right, none overlapping the
/// next.
pub open spec fn well_placed(line: Seq<char>, spans: Seq<SpanView>) -> bool {
    &&& forall|i: int|
        0 <= i < spans.len() ==> span::is_span(
            line,
            (#[trigger] spans[i]).start,
            spans[i].end,
        )
    &&& forall|i: int, j: int|
        0 <= i < j < spans.len() ==> (#[trigger] spans[i]).end <= (#[trigger] spans[j]).start
}

/// Cut a line into its tokens and the text around them.
pub fn line_segments(line: &str, spans: &Vec<(usize, usize, Bound)>) -> (r: Vec<Segment>)
    requires
        well_placed(line@, binding::spans_view(spans@)),
    ensures
        segments_view(r@) == segments(line@, binding::spans_view(spans@)),
{
    let ghost views = binding::spans_view(spans@);
    let mut out: Vec<Segment> = Vec::new();
    let mut pos: usize = 0;
    let mut i: usize = 0;
    assert(segments_view(out@) =~= Seq::empty());
    proof {
        encode_utf8_valid_utf8(line@);
        is_char_boundary_start_end_of_seq(encode_utf8(line@));
    }
    while i < spans.len()
        invariant
            i <= spans.len(),
            views == binding::spans_view(spans@),
            well_placed(line@, views),
            pos == end_before(views, i as int),
            span::is_span(line@, pos as int, pos as int),
            segments_view(out@) == segments_before(line@, views, i as int),
        decreases spans.len() - i,
    {
        let (start, end) = (spans[i].0, spans[i].1);
        assert(views[i as int] == binding::span_view(spans@[i as int]));
        assert(i > 0 ==> views[i - 1].end <= views[i as int].start);
        let ghost so_far = out@;
        if start > pos {
            let before = Segment { start: pos, text: slice_text(line, pos, start), bound: None };
            out.push(before);
            assert(segments_view(out@) =~= segments_view(so_far).push(before@));
        }
        let ghost so_far = out@;
        let token = Segment {
            start,
            text: slice_text(line, start, end),
            bound: Some(spans[i].2.clone()),
        };
        out.push(token);
        assert(segments_view(out@) =~= segments_view(so_far).push(token@));
        pos = end;
        i += 1;
    }
    let size: usize = line.as_bytes().len();
    if pos < size {
        let ghost so_far = out@;
        let rest = Segment { start: pos, text: slice_text(line, pos, size), bound: None };
        out.push(rest);
        assert(segments_view(out@) =~= segments_view(so_far).push(rest@));
    }
    out
}

/// Cut a line into the tokens that a control can be bound to and the text around
/// them.
pub fn pick_segments(line: &str, is_batch: bool) -> (r: Vec<Segment>)
    ensures
        segments_view(r@) == segments(line@, binding::line_tokens(line@, is_batch)),
        all_text(segments_view(r@)) == line@,
{
    let spans = binding::token_spans(line, is_batch);
    let ghost views = binding::spans_view(spans@);
    proof {
        assert forall|i: int| 0 <= i < views.len() implies span::is_span(
            line@,
            (#[trigger] views[i]).start,
            views[i].end,
        ) by {
            assert(binding::fits(line@, spans@[i]));
        }
        assert forall|i: int, j: int| 0 <= i < j < views.len() implies (#[trigger] views[i]).end
            <= (#[trigger] views[j]).start by {
            assert(spans@[i].1 <= spans@[j].0);
        }
        segments_make_up_the_line(line@, views);
    }
    line_segments(line, &spans)
}

// ---------------------------------------------------------------------------
// Nothing of a line is lost
// ---------------------------------------------------------------------------

/// The texts of the parts, one after the other.
pub open spec fn all_text(parts: Seq<SegmentView>) -> Seq<char>
    decreases parts.len(),
{
    if parts.len() == 0 {
        Seq::empty()
    } else {
        all_text(parts.drop_last()) + parts.last().text
    }
}

proof fn lemma_all_text_push(parts: Seq<SegmentView>, part: SegmentView)
    ensures
        all_text(parts.push(part)) == all_text(parts) + part.text,
{
    assert(parts.push(part).drop_last() =~= parts);
}

proof fn lemma_segments_before(line: Seq<char>, spans: Seq<SpanView>, n: int)
    requires
        well_placed(line, spans),
        0 <= n <= spans.len(),
    ensures
        all_text(segments_before(line, spans, n)) == span::slice(line, 0, end_before(spans, n)),
        span::is_span(line, 0, end_before(spans, n)),
    decreases n,
{
    encode_utf8_valid_utf8(line);
    is_char_boundary_start_end_of_seq(encode_utf8(line));
    if n > 0 {
        lemma_segments_before(line, spans, n - 1);
        let before = segments_before(line, spans, n - 1);
        let pos = end_before(spans, n - 1);
        let s = spans[n - 1];
        let token = segment_of(line, s.start, s.end, Some(s.bound));
        assert(n > 1 ==> spans[n - 2].end <= spans[n - 1].start);
        if s.start > pos {
            let gap = segment_of(line, pos, s.start, None);
            lemma_all_text_push(before, gap);
            lemma_all_text_push(before.push(gap), token);
            span::lemma_adjacent(line, 0, pos, s.start);
        } else {
            lemma_all_text_push(before, token);
        }
        span::lemma_adjacent(line, 0, s.start, s.end);
    } else {
        assert(encode_utf8(line).subrange(0, 0) =~= Seq::empty());
    }
}

/// The parts of a line, put together again, are the line.
pub proof fn segments_make_up_the_line(line: Seq<char>, spans: Seq<SpanView>)
    requires
        well_placed(line, spans),
    ensures
        all_text(segments(line, spans)) == line,
{
    let n = spans.len() as int;
    let pos = end_before(spans, n);
    let size = encode_utf8(line).len() as int;
    span::lemma_whole(line);
    lemma_segments_before(line, spans, n);
    if pos < size {
        lemma_all_text_push(segments_before(line, spans, n), segment_of(line, pos, size, None));
        span::lemma_adjacent(line, 0, pos, size);
    }
}

/// The tokens of a line can be clicked, each where it stands and with what it binds to,
/// and nothing else of the line can.
pub proof fn tokens_can_be_clicked(line: Seq<char>, spans: Seq<SpanView>)
    ensures
        forall|i: int|
            0 <= i < spans.len() ==> segments(line, spans).contains(
                SegmentView {
                    start: (#[trigger] spans[i]).start,
                    text: span::slice(line, spans[i].start, spans[i].end),
                    bound: Some(spans[i].bound),
                },
            ),
        forall|g: SegmentView| #[trigger]
            segments(line, spans).contains(g) && g.bound is Some ==> exists|i: int|
                0 <= i < spans.len() && g.start == (#[trigger] spans[i]).start && g.bound == Some(
                    spans[i].bound,
                ) && g.text == span::slice(line, spans[i].start, spans[i].end),
{
    let n = spans.len() as int;
    let most = segments_before(line, spans, n);
    let all = segments(line, spans);
    lemma_tokens_before(line, spans, n);
    assert forall|i: int| 0 <= i < spans.len() implies all.contains(
        SegmentView {
            start: (#[trigger] spans[i]).start,
            text: span::slice(line, spans[i].start, spans[i].end),
            bound: Some(spans[i].bound),
        },
    ) by {
        let g = segment_of(line, spans[i].start, spans[i].end, Some(spans[i].bound));
        assert(most.contains(g));
        let k = choose|k: int| 0 <= k < most.len() && most[k] == g;
        assert(all[k] == g);
    }
    assert forall|g: SegmentView| #[trigger] all.contains(g) && g.bound is Some implies exists|
        i: int,
    |
        0 <= i < spans.len() && g.start == (#[trigger] spans[i]).start && g.bound == Some(
            spans[i].bound,
        ) && g.text == span::slice(line, spans[i].start, spans[i].end) by {
        let k = choose|k: int| 0 <= k < all.len() && all[k] == g;
        assert(k < most.len());
        assert(most[k] == g);
        assert(most.contains(g));
        let i = choose|i: int|
            0 <= i < n && g == segment_of(
                line,
                (#[trigger] spans[i]).start,
                spans[i].end,
                Some(spans[i].bound),
            );
        assert(g.start == spans[i].start);
    }
}

proof fn lemma_tokens_before(line: Seq<char>, spans: Seq<SpanView>, n: int)
    requires
        0 <= n <= spans.len(),
    ensures
        forall|i: int|
            0 <= i < n ==> segments_before(line, spans, n).contains(
                segment_of(line, (#[trigger] spans[i]).start, spans[i].end, Some(spans[i].bound)),
            ),
        forall|g: SegmentView| #[trigger]
            segments_before(line, spans, n).contains(g) && g.bound is Some ==> exists|i: int|
                0 <= i < n && g == segment_of(
                    line,
                    (#[trigger] spans[i]).start,
                    spans[i].end,
                    Some(spans[i].bound),
                ),
    decreases n,
{
    if n > 0 {
        lemma_tokens_before(line, spans, n - 1);
        let before = segments_before(line, spans, n - 1);
        let all = segments_before(line, spans, n);
        let s = spans[n - 1];
        let token = segment_of(line, s.start, s.end, Some(s.bound));
        assert(all[all.len() - 1] == token);
        assert forall|i: int| 0 <= i < n implies all.contains(
            segment_of(line, (#[trigger] spans[i]).start, spans[i].end, Some(spans[i].bound)),
        ) by {
            if i < n - 1 {
                let g = segment_of(line, spans[i].start, spans[i].end, Some(spans[i].bound));
                assert(before.contains(g));
                let k = choose|k: int| 0 <= k < before.len() && before[k] == g;
                assert(all[k] == g);
            }
        }
        assert forall|g: SegmentView| #[trigger] all.contains(g) && g.bound is Some implies exists|
            i: int,
        |
            0 <= i < n && g == segment_of(
                line,
                (#[trigger] spans[i]).start,
                spans[i].end,
                Some(spans[i].bound),
            ) by {
            let k = choose|k: int| 0 <= k < all.len() && all[k] == g;
            if k < before.len() {
                assert(before[k] == g);
                assert(before.contains(g));
            } else {
                assert(g == token);
            }
        }
    }
}

/// What is said of a part of a line is said of its fields, and of a list of parts of each
/// of them, in their order.
pub proof fn segments_are_their_fields(g: Segment, v: Seq<Segment>, i: int)
    ensures
        g@.start == g.start,
        g@.text == g.text@,
        g.bound matches Some(b) ==> g@.bound == Some(b@),
        g.bound is None ==> g@.bound is None,
        segments_view(v).len() == v.len(),
        0 <= i < v.len() ==> segments_view(v)[i] == v[i]@,
{
}

} // verus!
