//! Compiled patterns and what the regex crate finds with them.
//!
//! What a pattern finds in a text depends on the pattern and the text alone.
//! Each searching function of the regex crate has a name here that stands for
//! its result, over the pattern as text.

use crate::grammar;
use crate::patterns;
use crate::span;
use crate::text;
use vstd::prelude::*;
use vstd::utf8::*;

verus! {

/// A compiled expression of the regex crate.
#[verifier::external_type_specification]
#[verifier::external_body]
pub struct ExRegex(regex::Regex);

/// A compiled pattern. It is made by `compile` only, so the expression is
/// always the one that the text describes.
pub struct Pattern {
    source: &'static str,
    regex: regex::Regex,
}

impl View for Pattern {
    type V = Seq<char>;

    /// The pattern as text.
    closed spec fn view(&self) -> Seq<char> {
        self.source@
    }
}

/// A capture group: where it starts and ends in the searched text, in bytes,
/// and what it holds.
pub struct Group {
    pub start: usize,
    pub end: usize,
    pub text: String,
}

/// A match: where it starts and ends in the searched text, in bytes, and its
/// first capture group, if that took part in it.
pub struct Capture {
    pub start: usize,
    pub end: usize,
    pub group: Option<Group>,
}

/// What `Group` holds.
pub struct GroupView {
    pub start: int,
    pub end: int,
    pub text: Seq<char>,
}

/// What `Capture` holds.
pub struct CaptureView {
    pub start: int,
    pub end: int,
    pub group: Option<GroupView>,
}

impl View for Group {
    type V = GroupView;

    open spec fn view(&self) -> GroupView {
        GroupView { start: self.start as int, end: self.end as int, text: self.text@ }
    }
}

impl View for Capture {
    type V = CaptureView;

    open spec fn view(&self) -> CaptureView {
        CaptureView {
            start: self.start as int,
            end: self.end as int,
            group: match self.group {
                Some(g) => Some(g@),
                None => None,
            },
        }
    }
}

/// What a list of captures holds.
pub open spec fn captures_view(v: Seq<Capture>) -> Seq<CaptureView> {
    v.map_values(|c: Capture| c@)
}

/// What `Regex::is_match` returns.
pub uninterp spec fn rx_is_match(pattern: Seq<char>, text: Seq<char>) -> bool;

/// Where the match that `Regex::find` returns starts and ends, in bytes.
pub uninterp spec fn rx_find(pattern: Seq<char>, text: Seq<char>) -> Option<(int, int)>;

/// The match that `Regex::captures` returns.
pub uninterp spec fn rx_captures(pattern: Seq<char>, text: Seq<char>) -> Option<CaptureView>;

/// The matches that `Regex::captures_iter` yields.
pub uninterp spec fn rx_captures_iter(pattern: Seq<char>, text: Seq<char>) -> Seq<CaptureView>;

/// The text that `Regex::replace_all` returns.
pub uninterp spec fn rx_replace_all(
    pattern: Seq<char>,
    text: Seq<char>,
    replacement: Seq<char>,
) -> Seq<char>;

/// Whether the capture lies in `text`, its group lies in the capture, and the
/// group's text is what stands there.
pub open spec fn capture_fits(text: Seq<char>, c: CaptureView) -> bool {
    &&& span::is_span(text, c.start, c.end)
    &&& match c.group {
        Some(g) => c.start <= g.start && g.end <= c.end && span::is_span(text, g.start, g.end)
            && encode_utf8(g.text) == encode_utf8(text).subrange(g.start, g.end),
        None => true,
    }
}

/// Whether the group is one of the digits `1` to `9`.
pub open spec fn is_argument_number(c: CaptureView) -> bool {
    match c.group {
        Some(g) => g.text.len() == 1 && '1' <= g.text[0] <= '9',
        None => false,
    }
}

/// Whether the groups took part in all of the matches and hold these characters,
/// one each.
pub open spec fn groups_are(captures: Seq<CaptureView>, chars: Seq<char>) -> bool {
    captures.len() == chars.len() && forall|i: int|
        0 <= i < captures.len() ==> ((#[trigger] captures[i]).group matches Some(g) && g.text
            == seq![chars[i]])
}

/// Whether neither the match nor its group is empty.
pub open spec fn is_token(c: CaptureView) -> bool {
    c.start < c.end && (c.group matches Some(g) && g.start < g.end)
}

/// Calls `Regex::new`, which compiles every pattern of this crate; the text of
/// the result is the pattern.
#[verifier::external_body]
pub(crate) fn compile(pattern: &'static str) -> (r: Pattern)
    requires
        patterns::is_known(pattern@),
    ensures
        r@ == pattern@,
{
    Pattern { source: pattern, regex: regex::Regex::new(pattern).expect("valid pattern") }
}

/// Calls `Regex::is_match`. The patterns for risky capabilities ignore the case of
/// letters, so they match a text exactly when they match it in ASCII capitals.
#[verifier::external_body]
pub(crate) fn is_match(pattern: &Pattern, text: &str) -> (r: bool)
    ensures
        r == rx_is_match(pattern@, text@),
        patterns::is_risk_pattern(pattern@) ==> r == rx_is_match(
            pattern@,
            text::ascii_uppered(text@),
        ),
{
    pattern.regex.is_match(text)
}

/// Calls `Regex::find` and hands out where the match starts and ends. A match lies
/// within the text, on character boundaries.
#[verifier::external_body]
pub(crate) fn find(pattern: &Pattern, text: &str) -> (r: Option<(usize, usize)>)
    ensures
        match r {
            Some((start, end)) => rx_find(pattern@, text@) == Some((start as int, end as int))
                && span::is_span(text@, start as int, end as int),
            None => rx_find(pattern@, text@) is None,
        },
{
    pattern.regex.find(text).map(|m| (m.start(), m.end()))
}

/// Calls `Regex::captures` and hands out the match with its first group. Match
/// and group lie within the text, on character boundaries.
#[verifier::external_body]
pub(crate) fn captures(pattern: &Pattern, text: &str) -> (r: Option<Capture>)
    ensures
        match r {
            Some(c) => rx_captures(pattern@, text@) == Some(c@) && capture_fits(text@, c@),
            None => rx_captures(pattern@, text@) is None,
        },
{
    pattern.regex.captures(text).map(|c| Capture {
        start: c.get_match().start(),
        end: c.get_match().end(),
        group: c.get(1).map(|g| Group { start: g.start(), end: g.end(), text: g.as_str().to_string() }),
    })
}

/// Calls `Regex::captures_iter` and hands out each match with its first group.
/// Matches and groups lie within the text, on character boundaries. The matches
/// of the pattern for batch arguments are the positional arguments, and their
/// groups the digits. The patterns for tokens match no empty text, their group
/// takes part in every match and is not empty, and that of the pattern for
/// arguments is a digit other than zero.
#[verifier::external_body]
pub(crate) fn captures_all(pattern: &Pattern, text: &str) -> (r: Vec<Capture>)
    ensures
        captures_view(r@) == rx_captures_iter(pattern@, text@),
        forall|i: int| 0 <= i < r.len() ==> capture_fits(text@, (#[trigger] r@[i])@),
        pattern@ == patterns::BATCH_ARGUMENT@ ==> groups_are(
            captures_view(r@),
            grammar::argument_digits(text@),
        ),
        patterns::is_token_pattern(pattern@) ==> forall|i: int|
            0 <= i < r.len() ==> is_token((#[trigger] r@[i])@),
        pattern@ == patterns::TOKEN_ARGUMENT@ ==> forall|i: int|
            0 <= i < r.len() ==> is_argument_number((#[trigger] r@[i])@),
{
    pattern.regex.captures_iter(text).map(|c| Capture {
        start: c.get_match().start(),
        end: c.get_match().end(),
        group: c.get(1).map(|g| Group { start: g.start(), end: g.end(), text: g.as_str().to_string() }),
    }).collect()
}

/// Calls `Regex::replace_all`. The pattern for block comments matches from an
/// opening sign to the next closing sign, so a space takes the place of each
/// comment.
#[verifier::external_body]
pub(crate) fn replace_all(pattern: &Pattern, text: &str, replacement: &str) -> (r: String)
    ensures
        r@ == rx_replace_all(pattern@, text@, replacement@),
        pattern@ == patterns::BLOCK_COMMENT@ && replacement@ == " "@ ==> r@
            == grammar::without_comments(text@),
{
    pattern.regex.replace_all(text, replacement).into_owned()
}

/// What is said of a match is said of its fields, and of a list of matches of each of
/// them, in their order.
pub proof fn captures_are_their_fields(c: Capture, g: Group, v: Seq<Capture>, i: int)
    ensures
        c@.start == c.start,
        c@.end == c.end,
        c.group matches Some(h) ==> c@.group == Some(h@),
        c.group is None ==> c@.group is None,
        g@.start == g.start,
        g@.end == g.end,
        g@.text == g.text@,
        captures_view(v).len() == v.len(),
        0 <= i < v.len() ==> captures_view(v)[i] == v[i]@,
{
}

} // verus!
