//! Spacing rules for single lines: trailing whitespace, heading hashes, attribute
//! lists, fence language tags, reference definitions, task checkboxes and quotes.

use vstd::prelude::*;
use crate::pattern::{
    all_captures, captures, captures_all, first_match, group, group_chars, group_lists, group_of,
    group_text, opt_groups, replace_span, replaced_span, splice, spliced, whole_spans,
    whole_spans_of, Span,
};
use crate::text::{
    back_spaces,
    back_chars, char_is_space, finishes_with_char, has_char, has_newline, is_space, push_all,
    run_start, slice, strip_newlines, to_chars, to_string, trim_end, trimmed_end, trimmed_end_char,
    views, with_newline,
};

verus! {

/// Heading hashes, the whitespace after them, and the heading's text.
pub const HEADING_PARTS: &'static str = r"^(#+)(\s*)(.*)$";

/// An attribute list in braces: its opening, its content and its closing.
pub const ATTRIBUTE_LIST: &'static str = r"(\{:?\s*)([^}]*?)(\s*\})";

/// A code fence followed by whitespace and a language tag.
pub const FENCE_LANGUAGE: &'static str = r"^(```|~~~)\s+([^\s`~]+)";

/// The bracketed id of a reference definition with the colon and the spacing round it.
pub const DEFINITION_HEAD: &'static str = r"^(\[[^\]]+\])\s*:\s*";

/// A bullet, a task checkbox that is ticked, and the spacing round them.
pub const TICKED_TASK: &'static str = r"^(\s*[-*+])\s+(\[[Xx]\])\s+";

/// A quote marker followed directly by text.
pub const TIGHT_QUOTE: &'static str = r"^(\s*)>([^\s>])";

/// `line` with its last line feed kept and what stands before it replaced by `body`.
pub fn finish_line(body: Vec<char>, newline: bool) -> (r: Vec<char>)
    ensures
        r@ == with_newline(body@, newline),
{
    let mut body = body;
    if newline {
        body.push('\n');
    }
    body
}

/// `line` with trailing whitespace removed. A line that ends in exactly two spaces
/// keeps two spaces, the mark of a hard line break; a final line feed is kept.
pub open spec fn trailing_trimmed(line: Seq<char>) -> Seq<char> {
    let body = strip_newlines(line);
    let kept = if body.len() - back_chars(body, ' ', body.len() as int) == 2 {
        trim_end(body) + seq![' ', ' ']
    } else {
        trim_end(body)
    };
    with_newline(kept, has_newline(line))
}

/// Removes trailing whitespace, keeping a hard line break of exactly two spaces.
pub fn normalize_trailing_whitespace_chars(line: &Vec<char>) -> (r: Vec<char>)
    ensures
        r@ == trailing_trimmed(line@),
{
    let newline = finishes_with_char(line, '\n');
    let body = trimmed_end_char(line, '\n');
    let spaces = body.len() - run_start(&body, ' ');
    let mut kept = trimmed_end(&body);
    if spaces == 2 {
        kept.push(' ');
        kept.push(' ');
        assert(kept@ =~= trim_end(body@) + seq![' ', ' ']);
    }
    finish_line(kept, newline)
}

/// Removes trailing whitespace, keeping a hard line break of exactly two spaces.
pub fn normalize_trailing_whitespace(line: &str) -> (r: String)
    ensures
        r@ == trailing_trimmed(line@),
{
    to_string(&normalize_trailing_whitespace_chars(&to_chars(line)))
}

/// The heading `line` with exactly one space after its hashes, given the parts
/// that `HEADING_PARTS` found in the line without its line feeds.
pub open spec fn heading_respaced(line: Seq<char>, parts: Option<Seq<Option<Span>>>) -> Seq<char> {
    let body = strip_newlines(line);
    match parts {
        Some(c) => if group_text(body, c, 2) != seq![' '] {
            with_newline(
                group_text(body, c, 1) + seq![' '] + group_text(body, c, 3),
                has_newline(line),
            )
        } else {
            line
        },
        None => line,
    }
}

/// The heading `line` with exactly one space after its hashes.
pub open spec fn heading_spaced(line: Seq<char>) -> Seq<char> {
    heading_respaced(line, first_match(HEADING_PARTS@, strip_newlines(line)))
}

/// Puts exactly one space after a heading's hashes, given the heading's parts.
pub fn respace_heading(line: &Vec<char>, parts: &Option<Vec<Option<Span>>>) -> (r: Vec<char>)
    ensures
        r@ == heading_respaced(line@, opt_groups(*parts)),
{
    let body = trimmed_end_char(line, '\n');
    match parts {
        Some(c) => {
            let spaces = group_chars(&body, c, 2);
            if !(spaces.len() == 1 && spaces[0] == ' ') {
                assert(spaces@ != seq![' ']) by {
                    if spaces@ == seq![' '] {
                        assert(spaces@.len() == 1 && spaces@[0] == ' ');
                    }
                }
                let mut out = group_chars(&body, c, 1);
                out.push(' ');
                let content = group_chars(&body, c, 3);
                push_all(&mut out, &content);
                assert(out@ =~= group_text(body@, c@, 1) + seq![' '] + group_text(body@, c@, 3));
                finish_line(out, finishes_with_char(line, '\n'))
            } else {
                assert(spaces@ =~= seq![' ']);
                slice(line, 0, line.len())
            }
        },
        None => slice(line, 0, line.len()),
    }
}

/// Puts exactly one space after a heading's hashes.
pub fn normalize_headline_spacing_chars(line: &Vec<char>) -> (r: Vec<char>)
    ensures
        r@ == heading_spaced(line@),
{
    let body = trimmed_end_char(line, '\n');
    let parts = captures(HEADING_PARTS, &body);
    respace_heading(line, &parts)
}

/// Puts exactly one space after a heading's hashes.
pub fn normalize_headline_spacing(line: &str) -> (r: String)
    ensures
        r@ == heading_spaced(line@),
{
    to_string(&normalize_headline_spacing_chars(&to_chars(line)))
}

/// The words of `s`, joined by single spaces.
pub open spec fn single_spaced(s: Seq<char>) -> Seq<char>
    decreases s.len(),
{
    if s.len() == 0 {
        Seq::<char>::empty()
    } else {
        let before = single_spaced(s.drop_last());
        if is_space(s.last()) {
            before
        } else if before.len() > 0 && s.len() >= 2 && is_space(s[s.len() - 2]) {
            before.push(' ').push(s.last())
        } else {
            before.push(s.last())
        }
    }
}

/// The words of `s`, joined by single spaces.
pub fn single_space(s: &Vec<char>) -> (r: Vec<char>)
    ensures
        r@ == single_spaced(s@),
{
    let mut r: Vec<char> = Vec::new();
    let mut i: usize = 0;
    while i < s.len()
        invariant
            i <= s.len(),
            r@ == single_spaced(s@.take(i as int)),
        decreases s.len() - i,
    {
        assert(s@.take(i + 1).drop_last() =~= s@.take(i as int));
        let c = s[i];
        if !char_is_space(c) {
            if r.len() > 0 && i >= 1 && char_is_space(s[i - 1]) {
                r.push(' ');
            }
            r.push(c);
        }
        i += 1;
    }
    assert(s@.take(s.len() as int) =~= s@);
    r
}

/// What one attribute list is rewritten to: its words single-spaced, inside `{: }`
/// where the opening holds a colon and inside `{}` where it holds none.
pub open spec fn attribute_list_tidy(body: Seq<char>, parts: Seq<Option<Span>>) -> Seq<char> {
    if group_text(body, parts, 1).contains(':') {
        seq!['{', ':', ' '] + single_spaced(group_text(body, parts, 2)) + seq!['}']
    } else {
        seq!['{'] + single_spaced(group_text(body, parts, 2)) + seq!['}']
    }
}

/// The replacement of each attribute list found in `body`.
pub open spec fn attribute_lists_tidy(body: Seq<char>, found: Seq<Seq<Option<Span>>>) -> Seq<
    Seq<char>,
> {
    found.map_values(|c: Seq<Option<Span>>| attribute_list_tidy(body, c))
}

/// `line` with each attribute list in `found` tidied; `found` holds the parts of
/// the attribute lists in the line without its line feeds.
pub open spec fn attribute_lists_respaced(
    line: Seq<char>,
    found: Seq<Seq<Option<Span>>>,
) -> Seq<char> {
    let body = strip_newlines(line);
    with_newline(
        splice(body, whole_spans(found), attribute_lists_tidy(body, found)),
        has_newline(line),
    )
}

/// `line` with the spacing inside each attribute list normalized.
pub open spec fn attribute_lists_spaced(line: Seq<char>) -> Seq<char> {
    attribute_lists_respaced(line, all_captures(ATTRIBUTE_LIST@, strip_newlines(line)))
}

/// Tidies each attribute list of `line`, given the attribute lists' parts.
pub fn respace_attribute_lists(line: &Vec<char>, found: &Vec<Vec<Option<Span>>>) -> (r: Vec<char>)
    ensures
        r@ == attribute_lists_respaced(line@, group_lists(found@)),
{
    let body = trimmed_end_char(line, '\n');
    let mut reps: Vec<Vec<char>> = Vec::new();
    let mut i: usize = 0;
    while i < found.len()
        invariant
            i <= found.len(),
            reps.len() == i,
            forall|j: int|
                0 <= j < i ==> (#[trigger] reps@[j])@ == attribute_list_tidy(body@, found@[j]@),
        decreases found.len() - i,
    {
        let opening = group_chars(&body, &found[i], 1);
        let content = group_chars(&body, &found[i], 2);
        let words = single_space(&content);
        let mut rep: Vec<char> = Vec::new();
        rep.push('{');
        if has_char(&opening, ':') {
            rep.push(':');
            rep.push(' ');
        }
        push_all(&mut rep, &words);
        rep.push('}');
        assert(rep@ =~= attribute_list_tidy(body@, found@[i as int]@));
        reps.push(rep);
        i += 1;
    }
    assert(views(reps@) =~= attribute_lists_tidy(body@, group_lists(found@)));
    let spans = whole_spans_of(found);
    let out = spliced(&body, &spans, &reps);
    finish_line(out, finishes_with_char(line, '\n'))
}

/// Normalizes the spacing inside each attribute list of `line`.
pub fn normalize_ial_spacing_chars(line: &Vec<char>) -> (r: Vec<char>)
    ensures
        r@ == attribute_lists_spaced(line@),
{
    let body = trimmed_end_char(line, '\n');
    let found = captures_all(ATTRIBUTE_LIST, &body);
    respace_attribute_lists(line, &found)
}

/// Normalizes the spacing inside each attribute list of `line`.
pub fn normalize_ial_spacing(line: &str) -> (r: String)
    ensures
        r@ == attribute_lists_spaced(line@),
{
    to_string(&normalize_ial_spacing_chars(&to_chars(line)))
}

/// The fence `line` with its language tag moved up against the fence, given the
/// parts that `FENCE_LANGUAGE` found in it.
pub open spec fn fence_language_joined(
    line: Seq<char>,
    parts: Option<Seq<Option<Span>>>,
) -> Seq<char> {
    match parts {
        Some(c) => replace_span(line, group(c, 0), group_text(line, c, 1) + group_text(line, c, 2)),
        None => line,
    }
}

/// The fence `line` with its language tag moved up against the fence.
pub open spec fn fence_language_tight(line: Seq<char>) -> Seq<char> {
    fence_language_joined(line, first_match(FENCE_LANGUAGE@, line))
}

/// Moves a fence's language tag up against the fence, given the fence's parts.
pub fn join_fence_language(line: &Vec<char>, parts: &Option<Vec<Option<Span>>>) -> (r: Vec<char>)
    ensures
        r@ == fence_language_joined(line@, opt_groups(*parts)),
{
    match parts {
        Some(c) => {
            let mut rep = group_chars(line, c, 1);
            let lang = group_chars(line, c, 2);
            push_all(&mut rep, &lang);
            replaced_span(line, group_of(c, 0), &rep)
        },
        None => slice(line, 0, line.len()),
    }
}

/// Moves a fence's language tag up against the fence.
pub fn normalize_fenced_code_lang_chars(line: &Vec<char>) -> (r: Vec<char>)
    ensures
        r@ == fence_language_tight(line@),
{
    let parts = captures(FENCE_LANGUAGE, line);
    join_fence_language(line, &parts)
}

/// Moves a fence's language tag up against the fence.
pub fn normalize_fenced_code_lang(line: &str) -> (r: String)
    ensures
        r@ == fence_language_tight(line@),
{
    to_string(&normalize_fenced_code_lang_chars(&to_chars(line)))
}

/// The reference definition `line` with its id followed by a colon and one space,
/// given the parts that `DEFINITION_HEAD` found in it.
pub open spec fn definition_respaced(
    line: Seq<char>,
    parts: Option<Seq<Option<Span>>>,
) -> Seq<char> {
    match parts {
        Some(c) => replace_span(line, group(c, 0), group_text(line, c, 1) + seq![':', ' ']),
        None => line,
    }
}

/// The reference definition `line` with its id followed by a colon and one space.
pub open spec fn definition_spaced(line: Seq<char>) -> Seq<char> {
    definition_respaced(line, first_match(DEFINITION_HEAD@, line))
}

/// Puts a colon and one space after a definition's id, given the definition's parts.
pub fn respace_definition(line: &Vec<char>, parts: &Option<Vec<Option<Span>>>) -> (r: Vec<char>)
    ensures
        r@ == definition_respaced(line@, opt_groups(*parts)),
{
    match parts {
        Some(c) => {
            let mut rep = group_chars(line, c, 1);
            rep.push(':');
            rep.push(' ');
            assert(rep@ =~= group_text(line@, c@, 1) + seq![':', ' ']);
            replaced_span(line, group_of(c, 0), &rep)
        },
        None => slice(line, 0, line.len()),
    }
}

/// Puts a colon and one space after a reference definition's id.
pub fn normalize_reference_link_chars(line: &Vec<char>) -> (r: Vec<char>)
    ensures
        r@ == definition_spaced(line@),
{
    let parts = captures(DEFINITION_HEAD, line);
    respace_definition(line, &parts)
}

/// Puts a colon and one space after a reference definition's id.
pub fn normalize_reference_link(line: &str) -> (r: String)
    ensures
        r@ == definition_spaced(line@),
{
    to_string(&normalize_reference_link_chars(&to_chars(line)))
}

/// The task `line` with its ticked checkbox written ` [x] `, given the parts that
/// `TICKED_TASK` found in it.
pub open spec fn checkbox_rewritten(line: Seq<char>, parts: Option<Seq<Option<Span>>>) -> Seq<char> {
    match parts {
        Some(c) => replace_span(
            line,
            group(c, 0),
            group_text(line, c, 1) + seq![' ', '[', 'x', ']', ' '],
        ),
        None => line,
    }
}

/// The task `line` with its ticked checkbox in lower case and single-spaced.
pub open spec fn checkbox_lowered(line: Seq<char>) -> Seq<char> {
    checkbox_rewritten(line, first_match(TICKED_TASK@, line))
}

/// Writes a task's ticked checkbox as ` [x] `, given the task's parts.
pub fn rewrite_checkbox(line: &Vec<char>, parts: &Option<Vec<Option<Span>>>) -> (r: Vec<char>)
    ensures
        r@ == checkbox_rewritten(line@, opt_groups(*parts)),
{
    match parts {
        Some(c) => {
            let mut rep = group_chars(line, c, 1);
            rep.push(' ');
            rep.push('[');
            rep.push('x');
            rep.push(']');
            rep.push(' ');
            assert(rep@ =~= group_text(line@, c@, 1) + seq![' ', '[', 'x', ']', ' ']);
            replaced_span(line, group_of(c, 0), &rep)
        },
        None => slice(line, 0, line.len()),
    }
}

/// Writes a task's ticked checkbox in lower case and single-spaced.
pub fn normalize_task_checkbox_chars(line: &Vec<char>) -> (r: Vec<char>)
    ensures
        r@ == checkbox_lowered(line@),
{
    let parts = captures(TICKED_TASK, line);
    rewrite_checkbox(line, &parts)
}

/// Writes a task's ticked checkbox in lower case and single-spaced.
pub fn normalize_task_checkbox(line: &str) -> (r: String)
    ensures
        r@ == checkbox_lowered(line@),
{
    to_string(&normalize_task_checkbox_chars(&to_chars(line)))
}

/// The quote `line` with a space after its marker, given the parts that
/// `TIGHT_QUOTE` found in it.
pub open spec fn quote_respaced(line: Seq<char>, parts: Option<Seq<Option<Span>>>) -> Seq<char> {
    match parts {
        Some(c) => replace_span(
            line,
            group(c, 0),
            group_text(line, c, 1) + seq!['>', ' '] + group_text(line, c, 2),
        ),
        None => line,
    }
}

/// The quote `line` with a space after its marker.
pub open spec fn quote_spaced(line: Seq<char>) -> Seq<char> {
    quote_respaced(line, first_match(TIGHT_QUOTE@, line))
}

/// Puts a space after a quote's marker, given the quote's parts.
pub fn respace_quote(line: &Vec<char>, parts: &Option<Vec<Option<Span>>>) -> (r: Vec<char>)
    ensures
        r@ == quote_respaced(line@, opt_groups(*parts)),
{
    match parts {
        Some(c) => {
            let mut rep = group_chars(line, c, 1);
            rep.push('>');
            rep.push(' ');
            let first = group_chars(line, c, 2);
            push_all(&mut rep, &first);
            assert(rep@ =~= group_text(line@, c@, 1) + seq!['>', ' '] + group_text(line@, c@, 2));
            replaced_span(line, group_of(c, 0), &rep)
        },
        None => slice(line, 0, line.len()),
    }
}

/// Puts a space after a quote's marker.
pub fn normalize_blockquote_spacing_chars(line: &Vec<char>) -> (r: Vec<char>)
    ensures
        r@ == quote_spaced(line@),
{
    let parts = captures(TIGHT_QUOTE, line);
    respace_quote(line, &parts)
}

/// Puts a space after a quote's marker.
pub fn normalize_blockquote_spacing(line: &str) -> (r: String)
    ensures
        r@ == quote_spaced(line@),
{
    to_string(&normalize_blockquote_spacing_chars(&to_chars(line)))
}

/// Whether `s` is empty or ends with a character that is no whitespace.
pub open spec fn ends_clean(s: Seq<char>) -> bool {
    s.len() == 0 || !is_space(s.last())
}

proof fn trim_end_is_clean(s: Seq<char>, j: int)
    requires
        0 <= j <= s.len(),
    ensures
        0 <= back_spaces(s, j) <= j,
        ends_clean(s.take(back_spaces(s, j))),
    decreases j,
{
    if 0 < j && is_space(s[j - 1]) {
        trim_end_is_clean(s, j - 1);
    } else if j > 0 {
        assert(s.take(j).last() == s[j - 1]);
    }
}

proof fn clean_text_stays(t: Seq<char>)
    requires
        ends_clean(t),
    ensures
        trim_end(t) == t,
        back_chars(t, ' ', t.len() as int) == t.len(),
        back_chars(t, '\n', t.len() as int) == t.len(),
        trim_end(t + seq![' ', ' ']) == t,
        back_chars(t + seq![' ', ' '], ' ', t.len() as int + 2) == t.len(),
        back_chars(t + seq![' ', ' '], '\n', t.len() as int + 2) == t.len() + 2,
        back_chars(t.push('\n'), '\n', t.len() as int + 1) == t.len(),
        back_chars((t + seq![' ', ' ']).push('\n'), '\n', t.len() as int + 3) == t.len() + 2,
{
    let n = t.len() as int;
    assert(t.take(n) =~= t);
    let u = t + seq![' ', ' '];
    assert(u[n] == ' ' && u[n + 1] == ' ');
    assert(is_space(' '));
    assert(is_space('\n'));
    assert(back_spaces(u, n + 1) == back_spaces(u, n));
    assert(back_chars(u, ' ', n + 1) == back_chars(u, ' ', n));
    if n > 0 {
        assert(u[n - 1] == t.last());
        assert(t.push('\n')[n - 1] == t.last());
    }
    assert(u.take(n) =~= t);
    let v = t.push('\n');
    assert(v[n] == '\n');
    assert(back_chars(v, '\n', n + 1) == back_chars(v, '\n', n));
    let w = u.push('\n');
    assert(w[n + 2] == '\n' && w[n + 1] == ' ');
    assert(back_chars(w, '\n', n + 3) == back_chars(w, '\n', n + 2));
}

/// A line whose trailing whitespace was removed stays as it is when its trailing
/// whitespace is removed again.
pub proof fn trailing_trimmed_stays(line: Seq<char>)
    ensures
        trailing_trimmed(trailing_trimmed(line)) == trailing_trimmed(line),
{
    let body = strip_newlines(line);
    let t = trim_end(body);
    trim_end_is_clean(body, body.len() as int);
    clean_text_stays(t);
    let hard = body.len() - back_chars(body, ' ', body.len() as int) == 2;
    let kept = if hard {
        t + seq![' ', ' ']
    } else {
        t
    };
    let once = with_newline(kept, has_newline(line));
    assert(once == trailing_trimmed(line));
    assert(strip_newlines(once) =~= kept) by {
        if has_newline(line) {
            assert(once.take(kept.len() as int) =~= kept);
        } else {
            assert(once.take(kept.len() as int) =~= kept);
        }
    }
    assert(has_newline(once) == has_newline(line)) by {
        if !has_newline(line) && kept.len() > 0 {
            if hard {
                assert(kept.last() == ' ');
            } else {
                assert(!is_space(kept.last()));
                assert(is_space('\n'));
            }
        }
    }
    assert(trim_end(kept) == t);
}

} // verus!
