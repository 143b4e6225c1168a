//! Spacing inside math: `$$...$$` display math and `$...$` inline math on one line.

use vstd::prelude::*;
use crate::pattern::{
    all_captures, captures_all, group, group_chars, group_lists, group_of, group_text, is_match,
    regex_is_match, span_chars, span_text, splice, spliced, whole_spans, whole_spans_of, Span,
};
use crate::spacing::finish_line;
use crate::text::{
    blank, char_is_space, copy, finishes_with_char, has_newline, is_blank, is_space, join, joined,
    push_all, split, split_on, strip_newlines, to_chars, to_string, trim, trim_end, trim_start,
    trimmed, trimmed_end, trimmed_end_char, trimmed_start, views, with_newline,
};

verus! {

/// Display math: two dollar signs, anything, two dollar signs.
pub const DISPLAY_MATH: &'static str = r"\$\$([\s\S]*?)\$\$";

/// Inline math: a dollar sign, anything but dollar signs, a dollar sign.
pub const INLINE_MATH: &'static str = r"\$([^\$]+?)\$";

/// An amount of money: digits, dots, commas and whitespace only.
pub const AMOUNT: &'static str = r"^[\d.,\s]+$";

/// The first of the lines of display math that are kept: a blank first line is dropped.
pub open spec fn display_first(lines: Seq<Seq<char>>) -> int {
    if lines.len() > 0 && is_blank(lines[0]) {
        1
    } else {
        0
    }
}

/// The end of the lines of display math that are kept: a blank last line is dropped.
pub open spec fn display_end(lines: Seq<Seq<char>>) -> int {
    if lines.len() > display_first(lines) && is_blank(lines.last()) {
        lines.len() - 1
    } else {
        lines.len() as int
    }
}

/// Line `k` of the lines of display math that are kept: the first without its
/// leading whitespace, else the last without its trailing whitespace.
pub open spec fn display_line(lines: Seq<Seq<char>>, k: int) -> Seq<char> {
    let at = display_first(lines) + k;
    if k == 0 {
        trim_start(lines[at])
    } else if at == display_end(lines) - 1 {
        trim_end(lines[at])
    } else {
        lines[at]
    }
}

/// The content of display math, tidied. On one line it is trimmed. Over several
/// lines a blank first and a blank last line are dropped, and the rest loses the
/// whitespace before its first line and after its last.
pub open spec fn display_tidy(content: Seq<char>) -> Seq<char> {
    let lines = split_on(content, '\n');
    if lines.len() > 1 {
        join(
            Seq::new(
                (display_end(lines) - display_first(lines)) as nat,
                |k: int| display_line(lines, k),
            ),
            '\n',
        )
    } else {
        trim(content)
    }
}

/// The content of display math, tidied.
pub fn tidy_display(content: &Vec<char>) -> (r: Vec<char>)
    ensures
        r@ == display_tidy(content@),
{
    let lines = split(content, '\n');
    if lines.len() > 1 {
        let ghost ls = views(lines@);
        let from: usize = if blank(&lines[0]) { 1 } else { 0 };
        let to: usize = if lines.len() > from && blank(&lines[lines.len() - 1]) {
            lines.len() - 1
        } else {
            lines.len()
        };
        assert(from == display_first(ls));
        assert(ls.last() == lines@[lines.len() - 1]@);
        assert(to == display_end(ls));
        let mut kept: Vec<Vec<char>> = Vec::new();
        let mut k: usize = from;
        while k < to
            invariant
                from <= k <= to <= lines.len(),
                ls == views(lines@),
                from == display_first(ls),
                to == display_end(ls),
                kept.len() == k - from,
                forall|j: int| 0 <= j < k - from ==> (#[trigger] kept@[j])@ == display_line(ls, j),
            decreases to - k,
        {
            let l = if k == from {
                trimmed_start(&lines[k])
            } else if k == to - 1 {
                trimmed_end(&lines[k])
            } else {
                copy(&lines[k])
            };
            assert(ls[k as int] == lines@[k as int]@);
            kept.push(l);
            k += 1;
        }
        assert(views(kept@) =~= Seq::new((to - from) as nat, |k: int| display_line(ls, k)));
        joined(&kept, '\n')
    } else {
        trimmed(content)
    }
}

/// What one piece of display math is rewritten to.
pub open spec fn display_rewritten(body: Seq<char>, parts: Seq<Option<Span>>) -> Seq<char> {
    seq!['$', '$'] + display_tidy(group_text(body, parts, 1)) + seq!['$', '$']
}

/// `body` with each piece of display math in `found` tidied.
pub open spec fn display_respaced(body: Seq<char>, found: Seq<Seq<Option<Span>>>) -> Seq<char> {
    splice(
        body,
        whole_spans(found),
        found.map_values(|c: Seq<Option<Span>>| display_rewritten(body, c)),
    )
}

/// Tidies each piece of display math of `body`, given the pieces' parts.
pub fn respace_display(body: &Vec<char>, found: &Vec<Vec<Option<Span>>>) -> (r: Vec<char>)
    ensures
        r@ == display_respaced(body@, group_lists(found@)),
{
    let mut reps: Vec<Vec<char>> = Vec::new();
    let mut i: usize = 0;
    while i < found.len()
        invariant
            i <= found.len(),
            reps.len() == i,
            forall|j: int|
                0 <= j < i ==> (#[trigger] reps@[j])@ == display_rewritten(body@, found@[j]@),
        decreases found.len() - i,
    {
        let content = group_chars(body, &found[i], 1);
        let tidy = tidy_display(&content);
        let mut rep: Vec<char> = Vec::new();
        rep.push('$');
        rep.push('$');
        push_all(&mut rep, &tidy);
        rep.push('$');
        rep.push('$');
        assert(rep@ =~= display_rewritten(body@, found@[i as int]@));
        reps.push(rep);
        i += 1;
    }
    assert(views(reps@) =~= group_lists(found@).map_values(
        |c: Seq<Option<Span>>| display_rewritten(body@, c),
    ));
    let spans = whole_spans_of(found);
    spliced(body, &spans, &reps)
}

/// Whether a dollar pair looks like prices rather than math: whitespace stands
/// before the closing sign and something other than whitespace right after it.
pub open spec fn looks_like_prices(text: Seq<char>, parts: Seq<Option<Span>>) -> bool {
    let content = group_text(text, parts, 1);
    let after = group(parts, 0).end as int;
    content.len() > 0 && (content.last() == ' ' || content.last() == '\t') && after < text.len()
        && !is_space(text[after])
}

/// What one piece of inline math is rewritten to. A pair that looks like prices is
/// kept; an amount keeps its content; anything else has its content trimmed.
pub open spec fn inline_rewritten(text: Seq<char>, parts: Seq<Option<Span>>, amount: bool) -> Seq<
    char,
> {
    if looks_like_prices(text, parts) {
        span_text(text, group(parts, 0))
    } else if amount {
        seq!['$'] + group_text(text, parts, 1) + seq!['$']
    } else {
        seq!['$'] + trim(group_text(text, parts, 1)) + seq!['$']
    }
}

/// Whether piece `k` is marked as an amount.
pub open spec fn flag(amounts: Seq<bool>, k: int) -> bool {
    0 <= k < amounts.len() && amounts[k]
}

/// `text` with each piece of inline math in `found` tidied; `amounts` says of each
/// piece whether its trimmed content is an amount of money.
pub open spec fn inline_respaced(
    text: Seq<char>,
    found: Seq<Seq<Option<Span>>>,
    amounts: Seq<bool>,
) -> Seq<char> {
    splice(
        text,
        whole_spans(found),
        Seq::new(found.len(), |k: int| inline_rewritten(text, found[k], flag(amounts, k))),
    )
}

/// Tidies each piece of inline math of `text`, given the pieces' parts and which of
/// them are amounts of money.
pub fn respace_inline(text: &Vec<char>, found: &Vec<Vec<Option<Span>>>, amounts: &Vec<bool>) -> (r:
    Vec<char>)
    ensures
        r@ == inline_respaced(text@, group_lists(found@), amounts@),
{
    let mut reps: Vec<Vec<char>> = Vec::new();
    let mut i: usize = 0;
    while i < found.len()
        invariant
            i <= found.len(),
            reps.len() == i,
            forall|j: int|
                0 <= j < i ==> (#[trigger] reps@[j])@ == inline_rewritten(
                    text@,
                    found@[j]@,
                    flag(amounts@, j),
                ),
        decreases found.len() - i,
    {
        let whole = group_of(&found[i], 0);
        let content = group_chars(text, &found[i], 1);
        let space_before = content.len() > 0 && (content[content.len() - 1] == ' '
            || content[content.len() - 1] == '\t');
        let text_after = whole.end < text.len() && !char_is_space(text[whole.end]);
        let amount = i < amounts.len() && amounts[i];
        let rep = if space_before && text_after {
            span_chars(text, whole)
        } else {
            let inner = if amount {
                content
            } else {
                trimmed(&content)
            };
            let mut rep: Vec<char> = Vec::new();
            rep.push('$');
            push_all(&mut rep, &inner);
            rep.push('$');
            assert(rep@ =~= seq!['$'] + inner@ + seq!['$']);
            rep
        };
        reps.push(rep);
        i += 1;
    }
    assert(views(reps@) =~= Seq::new(
        found.len() as nat,
        |k: int| inline_rewritten(text@, group_lists(found@)[k], flag(amounts@, k)),
    ));
    let spans = whole_spans_of(found);
    spliced(text, &spans, &reps)
}

/// Of each piece of inline math found in `text`, whether its trimmed content is an
/// amount of money.
pub open spec fn amounts_of(text: Seq<char>, found: Seq<Seq<Option<Span>>>) -> Seq<bool> {
    Seq::new(found.len(), |k: int| regex_is_match(AMOUNT@, trim(group_text(text, found[k], 1))))
}

/// `line` with the spacing inside its math normalized; a line inside a code block
/// is left alone.
pub open spec fn math_spaced(line: Seq<char>, in_code_block: bool) -> Seq<char> {
    if in_code_block {
        line
    } else {
        let body = strip_newlines(line);
        let shown = display_respaced(body, all_captures(DISPLAY_MATH@, body));
        let found = all_captures(INLINE_MATH@, shown);
        with_newline(inline_respaced(shown, found, amounts_of(shown, found)), has_newline(line))
    }
}

/// Normalizes the spacing inside the math of `line`.
pub fn normalize_math_spacing_chars(line: &Vec<char>, is_in_code_block: bool) -> (r: Vec<char>)
    ensures
        r@ == math_spaced(line@, is_in_code_block),
{
    if is_in_code_block {
        return copy(line);
    }
    let body = trimmed_end_char(line, '\n');
    let display = captures_all(DISPLAY_MATH, &body);
    let shown = respace_display(&body, &display);
    let found = captures_all(INLINE_MATH, &shown);
    let mut amounts: Vec<bool> = Vec::new();
    let mut i: usize = 0;
    while i < found.len()
        invariant
            i <= found.len(),
            amounts.len() == i,
            forall|j: int|
                0 <= j < i ==> #[trigger] amounts@[j] == regex_is_match(
                    AMOUNT@,
                    trim(group_text(shown@, found@[j]@, 1)),
                ),
        decreases found.len() - i,
    {
        let content = group_chars(&shown, &found[i], 1);
        let inner = trimmed(&content);
        amounts.push(is_match(AMOUNT, &inner));
        i += 1;
    }
    assert(amounts@ =~= amounts_of(shown@, group_lists(found@)));
    let out = respace_inline(&shown, &found, &amounts);
    finish_line(out, finishes_with_char(line, '\n'))
}

/// Normalizes the spacing inside the math of `line`.
pub fn normalize_math_spacing(line: &str, is_in_code_block: bool) -> (r: String)
    ensures
        r@ == math_spaced(line@, is_in_code_block),
{
    to_string(&normalize_math_spacing_chars(&to_chars(line), is_in_code_block))
}

} // verus!
