//! Regular-expression searches over texts, with match positions as character spans.
//!
//! The searches themselves are done by the `regex` crate. It reports positions as
//! byte offsets into the UTF-8 form of the text; this module turns them into
//! character indices.

use regex::Regex;
use vstd::prelude::*;
use crate::text::{
    holds, holds_after, holds_at, push_all, push_range, slice, starts_with, to_string, views,
};

verus! {

/// Whether the regular expression `pattern` matches anywhere in `text`:
/// what `Regex::is_match` returns. False where `pattern` does not compile.
pub uninterp spec fn regex_is_match(pattern: Seq<char>, text: Seq<char>) -> bool;

/// The byte spans of the groups of the first match of `pattern` in `text`, group 0
/// first: what `Regex::captures` returns. `None` where nothing matches or
/// `pattern` does not compile.
pub uninterp spec fn regex_captures(pattern: Seq<char>, text: Seq<char>) -> Option<
    Seq<Option<(usize, usize)>>,
>;

/// The byte spans of the successive matches of `pattern` in `text`: what
/// `Regex::find_iter` yields. Empty where `pattern` does not compile.
pub uninterp spec fn regex_find_iter(pattern: Seq<char>, text: Seq<char>) -> Seq<(usize, usize)>;

/// The byte spans of the groups of each successive match of `pattern` in `text`:
/// what `Regex::captures_iter` yields. Empty where `pattern` does not compile.
pub uninterp spec fn regex_captures_iter(pattern: Seq<char>, text: Seq<char>) -> Seq<
    Seq<Option<(usize, usize)>>,
>;

/// The views of the group lists of a list of matches.
pub open spec fn group_lists<T>(v: Seq<Vec<T>>) -> Seq<Seq<T>> {
    v.map_values(|x: Vec<T>| x@)
}

/// Calls `Regex::new` and `Regex::is_match`; the result is named, not described.
#[verifier::external_body]
fn is_match_bytes(pattern: &str, text: &str) -> (r: bool)
    ensures
        r == regex_is_match(pattern@, text@),
{
    match Regex::new(pattern) {
        Ok(re) => re.is_match(text),
        Err(_) => false,
    }
}

/// Calls `Regex::new` and `Regex::captures`, and hands out each group's
/// `Match::start` and `Match::end`; the result is named, not described.
#[verifier::external_body]
fn captures_bytes(pattern: &str, text: &str) -> (r: Option<Vec<Option<(usize, usize)>>>)
    ensures
        r is Some == regex_captures(pattern@, text@) is Some,
        r is Some ==> r->0@ == regex_captures(pattern@, text@)->0,
{
    match Regex::new(pattern) {
        Ok(re) => re.captures(text).map(
            |c| c.iter().map(|g| g.map(|m| (m.start(), m.end()))).collect(),
        ),
        Err(_) => None,
    }
}

/// Calls `Regex::new` and `Regex::find_iter`, and hands out each match's
/// `Match::start` and `Match::end`; the result is named, not described.
#[verifier::external_body]
fn find_iter_bytes(pattern: &str, text: &str) -> (r: Vec<(usize, usize)>)
    ensures
        r@ == regex_find_iter(pattern@, text@),
{
    match Regex::new(pattern) {
        Ok(re) => re.find_iter(text).map(|m| (m.start(), m.end())).collect(),
        Err(_) => Vec::new(),
    }
}

/// Calls `Regex::new` and `Regex::captures_iter`, and hands out each group's
/// `Match::start` and `Match::end`; the result is named, not described.
#[verifier::external_body]
fn captures_iter_bytes(pattern: &str, text: &str) -> (r: Vec<Vec<Option<(usize, usize)>>>)
    ensures
        group_lists(r@) == regex_captures_iter(pattern@, text@),
{
    match Regex::new(pattern) {
        Ok(re) => re.captures_iter(text).map(
            |c| c.iter().map(|g| g.map(|m| (m.start(), m.end()))).collect(),
        ).collect(),
        Err(_) => Vec::new(),
    }
}

/// A half-open range of character indices.
#[derive(Clone, Copy, Debug, PartialEq, Eq, Structural)]
pub struct Span {
    pub start: usize,
    pub end: usize,
}

/// Whether `sp` lies inside a text of `len` characters.
pub open spec fn span_ok(len: nat, sp: Span) -> bool {
    sp.start <= sp.end <= len
}

/// The number of bytes that `c` takes in UTF-8.
pub open spec fn utf8_width(c: char) -> int {
    let n = c as u32;
    if n < 0x80 {
        1
    } else if n < 0x800 {
        2
    } else if n < 0x10000 {
        3
    } else {
        4
    }
}

/// The number of bytes that the first `i` characters of `s` take in UTF-8.
pub open spec fn byte_offset(s: Seq<char>, i: int) -> int
    decreases i,
{
    if i <= 0 || i > s.len() {
        0
    } else {
        byte_offset(s, i - 1) + utf8_width(s[i - 1])
    }
}

/// The least index at or after `i` whose byte offset is at least `b`, or the length.
pub open spec fn chars_before(s: Seq<char>, b: int, i: int) -> int
    decreases s.len() - i,
{
    if 0 <= i < s.len() && byte_offset(s, i) < b {
        chars_before(s, b, i + 1)
    } else {
        i
    }
}

/// The index of the character that starts at byte offset `b` of the UTF-8 form of
/// `s`; for an offset inside a character, the index of the next one.
pub open spec fn char_index(s: Seq<char>, b: int) -> int {
    chars_before(s, b, 0)
}

/// The character span for a byte span; an end before the start is moved up to it.
pub open spec fn to_span(s: Seq<char>, raw: (usize, usize)) -> Span {
    let a = char_index(s, raw.0 as int);
    let b = char_index(s, raw.1 as int);
    Span { start: a as usize, end: (if b < a { a } else { b }) as usize }
}

/// The character spans for the byte spans of one match's groups.
pub open spec fn to_groups(s: Seq<char>, raw: Seq<Option<(usize, usize)>>) -> Seq<Option<Span>> {
    raw.map_values(
        |g: Option<(usize, usize)>|
            match g {
                Some(r) => Some(to_span(s, r)),
                None => None,
            },
    )
}

/// The groups of the first match of `pattern` in `text`, as character spans.
pub open spec fn first_match(pattern: Seq<char>, text: Seq<char>) -> Option<Seq<Option<Span>>> {
    match regex_captures(pattern, text) {
        Some(raw) => Some(to_groups(text, raw)),
        None => None,
    }
}

/// The successive matches of `pattern` in `text`, as character spans.
pub open spec fn all_matches(pattern: Seq<char>, text: Seq<char>) -> Seq<Span> {
    regex_find_iter(pattern, text).map_values(|r: (usize, usize)| to_span(text, r))
}

/// The groups of the successive matches of `pattern` in `text`, as character spans.
pub open spec fn all_captures(pattern: Seq<char>, text: Seq<char>) -> Seq<Seq<Option<Span>>> {
    regex_captures_iter(pattern, text).map_values(
        |raw: Seq<Option<(usize, usize)>>| to_groups(text, raw),
    )
}

/// The number of bytes that `c` takes in UTF-8.
pub fn width_of(c: char) -> (r: usize)
    ensures
        r == utf8_width(c),
        1 <= r <= 4,
{
    let n = c as u32;
    if n < 0x80 {
        1
    } else if n < 0x800 {
        2
    } else if n < 0x10000 {
        3
    } else {
        4
    }
}

/// The index of the character of `text` that starts at byte offset `b`.
pub fn char_index_of(text: &Vec<char>, b: usize) -> (r: usize)
    ensures
        r == char_index(text@, b as int),
        r <= text.len(),
{
    let mut i: usize = 0;
    let mut at: usize = 0;
    while i < text.len() && at < b
        invariant
            i <= text.len(),
            at == byte_offset(text@, i as int),
            chars_before(text@, b as int, 0) == chars_before(text@, b as int, i as int),
        decreases text.len() - i,
    {
        let w = width_of(text[i]);
        if w >= b - at {
            proof {
                assert(byte_offset(text@, i + 1) >= b);
                assert(chars_before(text@, b as int, i + 1) == i + 1);
            }
            return i + 1;
        }
        at += w;
        i += 1;
    }
    i
}

/// The character span of `text` for the byte span `raw`.
pub fn char_span(text: &Vec<char>, raw: (usize, usize)) -> (r: Span)
    ensures
        r == to_span(text@, raw),
        span_ok(text@.len(), r),
{
    let a = char_index_of(text, raw.0);
    let b = char_index_of(text, raw.1);
    Span { start: a, end: if b < a { a } else { b } }
}

/// Whether every group that is present lies inside a text of `len` characters.
pub open spec fn groups_ok(len: nat, groups: Seq<Option<Span>>) -> bool {
    forall|i: int| 0 <= i < groups.len() && groups[i] is Some ==> span_ok(len, #[trigger] groups[i]->0)
}

fn char_groups(text: &Vec<char>, raw: &Vec<Option<(usize, usize)>>) -> (r: Vec<Option<Span>>)
    ensures
        r@ == to_groups(text@, raw@),
        groups_ok(text@.len(), r@),
{
    let mut r: Vec<Option<Span>> = Vec::new();
    let mut i: usize = 0;
    while i < raw.len()
        invariant
            i <= raw.len(),
            r@ == to_groups(text@, raw@.take(i as int)),
            groups_ok(text@.len(), r@),
        decreases raw.len() - i,
    {
        let g = match raw[i] {
            Some(p) => Some(char_span(text, p)),
            None => None,
        };
        r.push(g);
        assert(r@ =~= to_groups(text@, raw@.take(i + 1)));
        i += 1;
    }
    assert(raw@.take(raw.len() as int) =~= raw@);
    r
}

/// Whether `pattern` matches anywhere in `text`.
pub fn is_match(pattern: &str, text: &Vec<char>) -> (r: bool)
    ensures
        r == regex_is_match(pattern@, text@),
{
    let s = to_string(text);
    is_match_bytes(pattern, s.as_str())
}

/// The view of the groups of a match that may be absent.
pub open spec fn opt_groups(c: Option<Vec<Option<Span>>>) -> Option<Seq<Option<Span>>> {
    match c {
        Some(v) => Some(v@),
        None => None,
    }
}

/// The groups of the first match of `pattern` in `text`.
pub fn captures(pattern: &str, text: &Vec<char>) -> (r: Option<Vec<Option<Span>>>)
    ensures
        opt_groups(r) == first_match(pattern@, text@),
        r is Some ==> groups_ok(text@.len(), r->0@),
{
    let s = to_string(text);
    match captures_bytes(pattern, s.as_str()) {
        Some(raw) => Some(char_groups(text, &raw)),
        None => None,
    }
}

/// Whether every span lies inside a text of `len` characters.
pub open spec fn spans_ok(len: nat, spans: Seq<Span>) -> bool {
    forall|i: int| 0 <= i < spans.len() ==> span_ok(len, #[trigger] spans[i])
}

/// The successive matches of `pattern` in `text`.
pub fn find_all(pattern: &str, text: &Vec<char>) -> (r: Vec<Span>)
    ensures
        r@ == all_matches(pattern@, text@),
        spans_ok(text@.len(), r@),
{
    let s = to_string(text);
    let raw = find_iter_bytes(pattern, s.as_str());
    let mut r: Vec<Span> = Vec::new();
    let mut i: usize = 0;
    while i < raw.len()
        invariant
            i <= raw.len(),
            r@ == raw@.take(i as int).map_values(|p: (usize, usize)| to_span(text@, p)),
            spans_ok(text@.len(), r@),
        decreases raw.len() - i,
    {
        r.push(char_span(text, raw[i]));
        assert(r@ =~= raw@.take(i + 1).map_values(|p: (usize, usize)| to_span(text@, p)));
        i += 1;
    }
    assert(raw@.take(raw.len() as int) =~= raw@);
    r
}

/// Whether every group of every match lies inside a text of `len` characters.
pub open spec fn matches_ok(len: nat, matches: Seq<Seq<Option<Span>>>) -> bool {
    forall|i: int| 0 <= i < matches.len() ==> groups_ok(len, #[trigger] matches[i])
}

/// The groups of the successive matches of `pattern` in `text`.
pub fn captures_all(pattern: &str, text: &Vec<char>) -> (r: Vec<Vec<Option<Span>>>)
    ensures
        group_lists(r@) == all_captures(pattern@, text@),
        matches_ok(text@.len(), group_lists(r@)),
{
    let s = to_string(text);
    let raw = captures_iter_bytes(pattern, s.as_str());
    let mut r: Vec<Vec<Option<Span>>> = Vec::new();
    let mut i: usize = 0;
    while i < raw.len()
        invariant
            i <= raw.len(),
            r.len() == i,
            forall|j: int|
                0 <= j < i ==> (#[trigger] r@[j])@ == to_groups(text@, raw@[j]@) && groups_ok(
                    text@.len(),
                    r@[j]@,
                ),
        decreases raw.len() - i,
    {
        let g = char_groups(text, &raw[i]);
        r.push(g);
        i += 1;
    }
    assert(group_lists(r@) =~= group_lists(raw@).map_values(
        |g: Seq<Option<(usize, usize)>>| to_groups(text@, g),
    ));
    r
}

/// The span of group `i` of a match; the empty span at 0 where the group is absent.
pub open spec fn group(caps: Seq<Option<Span>>, i: int) -> Span {
    if 0 <= i < caps.len() && caps[i] is Some {
        caps[i]->0
    } else {
        Span { start: 0, end: 0 }
    }
}

/// The characters of `text` inside `sp`; none where `sp` does not lie inside `text`.
pub open spec fn span_text(text: Seq<char>, sp: Span) -> Seq<char> {
    if span_ok(text.len(), sp) {
        text.subrange(sp.start as int, sp.end as int)
    } else {
        Seq::<char>::empty()
    }
}

/// The characters of `text` that group `i` of a match covers.
pub open spec fn group_text(text: Seq<char>, caps: Seq<Option<Span>>, i: int) -> Seq<char> {
    span_text(text, group(caps, i))
}

/// The span of group `i` of a match.
pub fn group_of(caps: &Vec<Option<Span>>, i: usize) -> (r: Span)
    ensures
        r == group(caps@, i as int),
{
    if i < caps.len() {
        match caps[i] {
            Some(sp) => sp,
            None => Span { start: 0, end: 0 },
        }
    } else {
        Span { start: 0, end: 0 }
    }
}

/// A copy of the characters of `text` inside `sp`.
pub fn span_chars(text: &Vec<char>, sp: Span) -> (r: Vec<char>)
    ensures
        r@ == span_text(text@, sp),
{
    if sp.start <= sp.end && sp.end <= text.len() {
        slice(text, sp.start, sp.end)
    } else {
        Vec::new()
    }
}

/// A copy of the characters of `text` that group `i` of a match covers.
pub fn group_chars(text: &Vec<char>, caps: &Vec<Option<Span>>, i: usize) -> (r: Vec<char>)
    ensures
        r@ == group_text(text@, caps@, i as int),
{
    span_chars(text, group_of(caps, i))
}

/// `text` with each span replaced by the replacement of the same index, from
/// `spans[k]` on and from position `pos` on. A span that starts before `pos` or
/// does not lie inside `text` is passed over.
pub open spec fn splice_from(
    text: Seq<char>,
    spans: Seq<Span>,
    reps: Seq<Seq<char>>,
    k: int,
    pos: int,
) -> Seq<char>
    decreases spans.len() - k,
{
    if k < 0 || k >= spans.len() || k >= reps.len() {
        if 0 <= pos <= text.len() {
            text.skip(pos)
        } else {
            Seq::<char>::empty()
        }
    } else if pos <= spans[k].start && span_ok(text.len(), spans[k]) {
        text.subrange(pos, spans[k].start as int) + reps[k] + splice_from(
            text,
            spans,
            reps,
            k + 1,
            spans[k].end as int,
        )
    } else {
        splice_from(text, spans, reps, k + 1, pos)
    }
}

/// `text` with each span replaced by the replacement of the same index. The spans
/// are taken in order; one that overlaps an earlier one is passed over.
pub open spec fn splice(text: Seq<char>, spans: Seq<Span>, reps: Seq<Seq<char>>) -> Seq<char> {
    splice_from(text, spans, reps, 0, 0)
}

/// `text` with each span replaced by the replacement of the same index.
pub fn spliced(text: &Vec<char>, spans: &Vec<Span>, reps: &Vec<Vec<char>>) -> (r: Vec<char>)
    ensures
        r@ == splice(text@, spans@, views(reps@)),
{
    let mut out: Vec<char> = Vec::new();
    let mut pos: usize = 0;
    let mut k: usize = 0;
    while k < spans.len() && k < reps.len()
        invariant
            k <= spans.len(),
            pos <= text.len(),
            out@ + splice_from(text@, spans@, views(reps@), k as int, pos as int) == splice(
                text@,
                spans@,
                views(reps@),
            ),
        decreases spans.len() - k,
    {
        let sp = spans[k];
        let ghost before = out@;
        if pos <= sp.start && sp.start <= sp.end && sp.end <= text.len() {
            push_range(&mut out, text, pos, sp.start);
            push_all(&mut out, &reps[k]);
            assert(out@ + splice_from(text@, spans@, views(reps@), k + 1, sp.end as int)
                =~= before + splice_from(text@, spans@, views(reps@), k as int, pos as int));
            pos = sp.end;
        }
        k += 1;
    }
    let ghost before = out@;
    push_range(&mut out, text, pos, text.len());
    assert(out@ =~= before + splice_from(text@, spans@, views(reps@), k as int, pos as int));
    out
}

/// The span of the whole of each match.
pub open spec fn whole_spans(matches: Seq<Seq<Option<Span>>>) -> Seq<Span> {
    matches.map_values(|c: Seq<Option<Span>>| group(c, 0))
}

/// The span of the whole of each match.
pub fn whole_spans_of(matches: &Vec<Vec<Option<Span>>>) -> (r: Vec<Span>)
    ensures
        r@ == whole_spans(group_lists(matches@)),
{
    let mut r: Vec<Span> = Vec::new();
    let mut i: usize = 0;
    while i < matches.len()
        invariant
            i <= matches.len(),
            r.len() == i,
            forall|j: int| 0 <= j < i ==> #[trigger] r@[j] == group(matches@[j]@, 0),
        decreases matches.len() - i,
    {
        r.push(group_of(&matches[i], 0));
        i += 1;
    }
    assert(r@ =~= whole_spans(group_lists(matches@)));
    r
}

/// `text` with the characters inside `sp` replaced by `rep`; `text` itself where
/// `sp` does not lie inside it.
pub open spec fn replace_span(text: Seq<char>, sp: Span, rep: Seq<char>) -> Seq<char> {
    if span_ok(text.len(), sp) {
        text.take(sp.start as int) + rep + text.skip(sp.end as int)
    } else {
        text
    }
}

/// `text` with the characters inside `sp` replaced by `rep`.
pub fn replaced_span(text: &Vec<char>, sp: Span, rep: &Vec<char>) -> (r: Vec<char>)
    ensures
        r@ == replace_span(text@, sp, rep@),
{
    let mut out: Vec<char> = Vec::new();
    if sp.start <= sp.end && sp.end <= text.len() {
        push_range(&mut out, text, 0, sp.start);
        push_all(&mut out, rep);
        push_range(&mut out, text, sp.end, text.len());
        assert(out@ =~= replace_span(text@, sp, rep@));
    } else {
        push_all(&mut out, text);
        assert(out@ =~= text@);
    }
    out
}

/// Whether each replacement is the text that its span covers.
pub open spec fn same_texts(text: Seq<char>, spans: Seq<Span>, reps: Seq<Seq<char>>) -> bool {
    forall|k: int|
        0 <= k < spans.len() && k < reps.len() ==> #[trigger] reps[k] == span_text(text, spans[k])
}

proof fn splice_from_same_texts(
    text: Seq<char>,
    spans: Seq<Span>,
    reps: Seq<Seq<char>>,
    k: int,
    pos: int,
)
    requires
        same_texts(text, spans, reps),
        0 <= k,
        0 <= pos <= text.len(),
    ensures
        splice_from(text, spans, reps, k, pos) == text.skip(pos),
    decreases spans.len() - k,
{
    if k < spans.len() && k < reps.len() {
        if pos <= spans[k].start && span_ok(text.len(), spans[k]) {
            splice_from_same_texts(text, spans, reps, k + 1, spans[k].end as int);
            assert(reps[k] == span_text(text, spans[k]));
            assert(text.subrange(pos, spans[k].start as int) + text.subrange(
                spans[k].start as int,
                spans[k].end as int,
            ) + text.skip(spans[k].end as int) =~= text.skip(pos));
        } else {
            splice_from_same_texts(text, spans, reps, k + 1, pos);
        }
    }
}

/// A text in which every span is replaced by the text that it covers stays as it is.
pub proof fn splice_of_same_texts(text: Seq<char>, spans: Seq<Span>, reps: Seq<Seq<char>>)
    requires
        same_texts(text, spans, reps),
    ensures
        splice(text, spans, reps) == text,
{
    splice_from_same_texts(text, spans, reps, 0, 0);
    assert(text.skip(0) =~= text);
}

/// Whether two spans share a character.
pub open spec fn overlap(a: Span, b: Span) -> bool {
    a.start < b.end && b.start < a.end
}

/// Whether the replacements spare the span `h`: each span that shares a
/// character with `h` is replaced by the text that it covers.
pub open spec fn spares(text: Seq<char>, spans: Seq<Span>, reps: Seq<Seq<char>>, h: Span) -> bool {
    forall|k: int|
        0 <= k < spans.len() && k < reps.len() ==> #[trigger] reps[k] == span_text(text, spans[k])
            || !overlap(h, spans[k])
}

proof fn char_index_bounds(s: Seq<char>, b: int, i: int)
    requires
        0 <= i <= s.len(),
    ensures
        i <= chars_before(s, b, i) <= s.len(),
    decreases s.len() - i,
{
    if i < s.len() && byte_offset(s, i) < b {
        char_index_bounds(s, b, i + 1);
    }
}

/// A character span that stands for a byte span of a text lies inside the text.
pub proof fn to_span_is_inside(text: Seq<char>, raw: (usize, usize))
    requires
        text.len() <= usize::MAX,
    ensures
        span_ok(text.len(), to_span(text, raw)),
{
    char_index_bounds(text, raw.0 as int, 0);
    char_index_bounds(text, raw.1 as int, 0);
}

proof fn splice_from_spares(
    text: Seq<char>,
    spans: Seq<Span>,
    reps: Seq<Seq<char>>,
    h: Span,
    k: int,
    pos: int,
)
    requires
        spares(text, spans, reps, h),
        span_ok(text.len(), h),
        0 <= k,
        0 <= pos <= text.len(),
    ensures
        pos <= h.start ==> holds(splice_from(text, spans, reps, k, pos), span_text(text, h)),
        h.start < pos <= h.end ==> starts_with(
            splice_from(text, spans, reps, k, pos),
            text.subrange(pos, h.end as int),
        ),
    decreases spans.len() - k,
{
    let whole = splice_from(text, spans, reps, k, pos);
    let piece = span_text(text, h);
    if k >= spans.len() || k >= reps.len() {
        if pos <= h.start {
            assert(whole.subrange(h.start - pos, h.start - pos + piece.len()) =~= piece);
            assert(holds_at(whole, piece, h.start - pos));
        } else if pos <= h.end {
            assert(whole.take(h.end - pos) =~= text.subrange(pos, h.end as int));
        }
    } else if !(pos <= spans[k].start && span_ok(text.len(), spans[k])) {
        splice_from_spares(text, spans, reps, h, k + 1, pos);
    } else {
        let sp = spans[k];
        let head = text.subrange(pos, sp.start as int) + reps[k];
        let rest = splice_from(text, spans, reps, k + 1, sp.end as int);
        splice_from_spares(text, spans, reps, h, k + 1, sp.end as int);
        assert(whole == head + rest);
        if h.end <= sp.start {
            if pos <= h.start {
                assert(whole.subrange(h.start - pos, h.start - pos + piece.len()) =~= piece);
                assert(holds_at(whole, piece, h.start - pos));
            } else if pos <= h.end {
                assert(whole.take(h.end - pos) =~= text.subrange(pos, h.end as int));
            }
        } else if sp.end <= h.start {
            if pos <= h.start {
                holds_after(head, rest, piece);
            }
        } else {
            assert(overlap(h, sp) || h.start == h.end || sp.start == sp.end);
            if overlap(h, sp) {
                assert(reps[k] == span_text(text, sp));
                assert(head =~= text.subrange(pos, sp.end as int));
                if h.end <= sp.end {
                    if pos <= h.start {
                        assert(whole.subrange(h.start - pos, h.start - pos + piece.len())
                            =~= piece);
                        assert(holds_at(whole, piece, h.start - pos));
                    } else if pos <= h.end {
                        assert(whole.take(h.end - pos) =~= text.subrange(pos, h.end as int));
                    }
                } else {
                    assert(h.start < sp.end < h.end);
                    assert(rest.take(h.end - sp.end) == text.subrange(sp.end as int, h.end as int));
                    if pos <= h.start {
                        assert(whole.subrange(h.start - pos, h.start - pos + piece.len())
                            =~= piece) by {
                            assert forall|q: int| 0 <= q < piece.len() implies whole[h.start - pos
                                + q] == piece[q] by {
                                if h.start + q >= sp.end {
                                    assert(rest.take(h.end - sp.end)[h.start + q - sp.end]
                                        == text[h.start + q]);
                                }
                            }
                        }
                        assert(holds_at(whole, piece, h.start - pos));
                    } else {
                        assert(whole.take(h.end - pos) =~= text.subrange(pos, h.end as int)) by {
                            assert forall|q: int| 0 <= q < h.end - pos implies whole[q] == text[pos
                                + q] by {
                                if pos + q >= sp.end {
                                    assert(rest.take(h.end - sp.end)[pos + q - sp.end] == text[pos
                                        + q]);
                                }
                            }
                        }
                    }
                }
            } else if h.start == h.end {
                assert(piece.len() == 0);
                if pos <= h.start {
                    assert(whole.subrange(0, 0) =~= piece);
                    assert(holds_at(whole, piece, 0));
                }
            } else {
                assert(sp.start == sp.end);
                assert(sp.start <= h.start || sp.start >= h.end);
            }
        }
    }
}

/// The text of a span that the replacements spare stands unbroken in the result.
pub proof fn spared_text_stays(text: Seq<char>, spans: Seq<Span>, reps: Seq<Seq<char>>, h: Span)
    requires
        spares(text, spans, reps, h),
        span_ok(text.len(), h),
    ensures
        holds(splice(text, spans, reps), span_text(text, h)),
{
    splice_from_spares(text, spans, reps, h, 0, 0);
}

} // verus!
