//! Converting the links of a document to one style: every link inline, or every
//! inline link a numbered reference with its definition at one end of the document.

use vstd::prelude::*;
use crate::classify::{is_list_item_chars, list_item};
use crate::link_ids::{
    collect_named, collect_numbered, definition_lines, give_numbers, naturals, numbers_given, inline_form,
    named_of, numbered_of, place_at_beginning, place_at_end, placed_at_beginning, placed_at_end,
    reference_form, targets_view, write_definitions, write_inline, write_reference,
};
use crate::link_scan::{body_of, find_links, links_of, registry_of, take_definitions};
use crate::links::{link_views, Link, LinkView, Target, TargetView};
use crate::list::LIST_PARTS;
use crate::pattern::{
    captures, first_match, group, group_chars, group_of, group_text, opt_groups, replace_span,
    replaced_span, span_chars, span_text, splice, spliced, Span,
};
use crate::text::{
    all_to_chars, all_to_strings, copy, finishes_with_char, has_newline, push_all, same, slice,
    string_views, strip_newlines, trim_start, trimmed_end_char, trimmed_start, views,
};

verus! {

/// A list marker at the beginning, or a number with a dot anywhere.
pub const LEADING_MARKER: &'static str = r"^[-*+]|\d+\.\s*";

/// The spans of those of the first `n` links that stand in line `k`.
pub open spec fn line_spans(links: Seq<LinkView>, k: usize, n: int) -> Seq<Span>
    decreases n,
{
    if n <= 0 || n > links.len() {
        Seq::<Span>::empty()
    } else if links[n - 1].line == k {
        line_spans(links, k, n - 1).push(links[n - 1].span)
    } else {
        line_spans(links, k, n - 1)
    }
}

/// What the link `l` of `line` is written as: an inline link where all links
/// become inline; else a reference link, or the link as it stands where its
/// target has no number.
pub open spec fn new_form(
    line: Seq<char>,
    l: LinkView,
    to_inline: bool,
    numbered: Seq<TargetView>,
    numbers: Seq<nat>,
) -> Seq<char> {
    if to_inline {
        inline_form(l)
    } else {
        match reference_form(l, numbered, numbers) {
            Some(f) => f,
            None => span_text(line, l.span),
        }
    }
}

/// What those of the first `n` links that stand in line `k` are written as.
pub open spec fn line_forms(
    line: Seq<char>,
    links: Seq<LinkView>,
    k: usize,
    to_inline: bool,
    numbered: Seq<TargetView>,
    numbers: Seq<nat>,
    n: int,
) -> Seq<Seq<char>>
    decreases n,
{
    if n <= 0 || n > links.len() {
        Seq::<Seq<char>>::empty()
    } else if links[n - 1].line == k {
        line_forms(line, links, k, to_inline, numbered, numbers, n - 1).push(
            new_form(line, links[n - 1], to_inline, numbered, numbers),
        )
    } else {
        line_forms(line, links, k, to_inline, numbered, numbers, n - 1)
    }
}

/// Line `k` with each of its links written in its new form.
pub open spec fn relinked(
    line: Seq<char>,
    links: Seq<LinkView>,
    k: usize,
    to_inline: bool,
    numbered: Seq<TargetView>,
    numbers: Seq<nat>,
) -> Seq<char> {
    splice(
        line,
        line_spans(links, k, links.len() as int),
        line_forms(line, links, k, to_inline, numbered, numbers, links.len() as int),
    )
}

/// Writes each link of line `k` in its new form.
pub fn relink(
    line: &Vec<char>,
    links: &Vec<Link>,
    k: usize,
    to_inline: bool,
    numbered: &Vec<Target>,
    numbers: &Vec<u128>,
) -> (r: (Vec<char>, bool))
    ensures
        r.0@ == relinked(
            line@,
            link_views(links@),
            k,
            to_inline,
            targets_view(numbered@),
            naturals(numbers@),
        ),
        r.1 == (line_spans(link_views(links@), k, links.len() as int).len() > 0),
{
    let ghost ls = link_views(links@);
    let ghost ts = targets_view(numbered@);
    let mut spans: Vec<Span> = Vec::new();
    let mut forms: Vec<Vec<char>> = Vec::new();
    let mut i: usize = 0;
    assert(views(forms@) =~= line_forms(line@, ls, k, to_inline, ts, naturals(numbers@), 0));
    while i < links.len()
        invariant
            i <= links.len(),
            ls == link_views(links@),
            ts == targets_view(numbered@),
            spans@ == line_spans(ls, k, i as int),
            views(forms@) == line_forms(line@, ls, k, to_inline, ts, naturals(numbers@), i as int),
        decreases links.len() - i,
    {
        assert(ls[i as int] == links@[i as int]@);
        if links[i].line == k {
            let form = if to_inline {
                write_inline(&links[i])
            } else {
                match write_reference(&links[i], numbered, numbers) {
                    Some(f) => f,
                    None => span_chars(line, links[i].span),
                }
            };
            spans.push(links[i].span);
            let ghost before = views(forms@);
            forms.push(form);
            assert(views(forms@) =~= before.push(form@));
        }
        i += 1;
    }
    let any = spans.len() > 0;
    (spliced(line, &spans, &forms), any)
}

/// The item `old_line` put together again from its own indent, marker and
/// spacing and the new content `content`; it ends with a line feed where
/// `old_line` did.
pub open spec fn rebuilt(
    old_line: Seq<char>,
    old_parts: Seq<Option<Span>>,
    content: Seq<char>,
) -> Seq<char> {
    let body = strip_newlines(old_line);
    let r = group_text(body, old_parts, 1) + group_text(body, old_parts, 2) + group_text(
        body,
        old_parts,
        3,
    ) + content;
    if has_newline(old_line) && !has_newline(r) {
        r.push('\n')
    } else {
        r
    }
}

/// The rewritten line `new_line` with the list structure of `old_line`: where
/// `old_line` is a list item and the rewritten line has another indent or marker,
/// or is no item any more, the item is put together again round the new content
/// (`bare` where the rewritten line is no item). The parts are what `LIST_PARTS`
/// found in each line without its line feeds.
pub open spec fn structure_kept(
    old_line: Seq<char>,
    new_line: Seq<char>,
    item: bool,
    old_parts: Option<Seq<Option<Span>>>,
    new_parts: Option<Seq<Option<Span>>>,
    bare: Seq<char>,
) -> Seq<char> {
    let ob = strip_newlines(old_line);
    let nb = strip_newlines(new_line);
    if !item || old_parts is None {
        new_line
    } else {
        match new_parts {
            Some(np) => if group_text(nb, np, 2) != group_text(ob, old_parts->0, 2) || group_text(
                nb,
                np,
                1,
            ) != group_text(ob, old_parts->0, 1) {
                rebuilt(old_line, old_parts->0, group_text(nb, np, 4))
            } else {
                new_line
            },
            None => rebuilt(old_line, old_parts->0, bare),
        }
    }
}

/// Keeps the list structure of `old_line` in the rewritten line `new_line`, given
/// the parts of both.
pub fn keep_structure(
    old_line: &Vec<char>,
    new_line: &Vec<char>,
    item: bool,
    old_parts: &Option<Vec<Option<Span>>>,
    new_parts: &Option<Vec<Option<Span>>>,
    bare: &Vec<char>,
) -> (r: Vec<char>)
    ensures
        r@ == structure_kept(
            old_line@,
            new_line@,
            item,
            opt_groups(*old_parts),
            opt_groups(*new_parts),
            bare@,
        ),
{
    if !item {
        return copy(new_line);
    }
    match old_parts {
        Some(op) => {
            let ob = trimmed_end_char(old_line, '\n');
            let nb = trimmed_end_char(new_line, '\n');
            let mut r = group_chars(&ob, op, 1);
            let marker = group_chars(&ob, op, 2);
            push_all(&mut r, &marker);
            push_all(&mut r, &group_chars(&ob, op, 3));
            match new_parts {
                Some(np) => {
                    if !same(&group_chars(&nb, np, 2), &marker) || !same(
                        &group_chars(&nb, np, 1),
                        &group_chars(&ob, op, 1),
                    ) {
                        push_all(&mut r, &group_chars(&nb, np, 4));
                    } else {
                        return copy(new_line);
                    }
                },
                None => {
                    push_all(&mut r, bare);
                },
            }
            if finishes_with_char(old_line, '\n') && !finishes_with_char(&r, '\n') {
                r.push('\n');
            }
            r
        },
        None => copy(new_line),
    }
}

/// How many characters the indent, the marker and the spacing of an item take.
pub open spec fn marker_end(body: Seq<char>, parts: Seq<Option<Span>>) -> nat {
    group_text(body, parts, 1).len() + group_text(body, parts, 2).len() + group_text(
        body,
        parts,
        3,
    ).len()
}

/// What stands in the rewritten line `new_body` where the content of the item
/// `old_body` stood, without leading whitespace.
pub open spec fn loose_content(
    new_body: Seq<char>,
    old_body: Seq<char>,
    old_parts: Option<Seq<Option<Span>>>,
) -> Seq<char> {
    match old_parts {
        Some(op) => if new_body.len() < marker_end(old_body, op) {
            trim_start(trim_start(new_body))
        } else {
            trim_start(new_body.skip(marker_end(old_body, op) as int))
        },
        None => trim_start(new_body),
    }
}

/// `loose` without the marker that `LEADING_MARKER` found in it, and without
/// leading whitespace.
pub open spec fn bare_content(loose: Seq<char>, marker: Option<Seq<Option<Span>>>) -> Seq<char> {
    match marker {
        Some(c) => trim_start(replace_span(loose, group(c, 0), Seq::<char>::empty())),
        None => trim_start(loose),
    }
}

/// What stands in the rewritten line where the content of the item stood.
pub fn find_loose_content(
    new_body: &Vec<char>,
    old_body: &Vec<char>,
    old_parts: &Option<Vec<Option<Span>>>,
) -> (r: Vec<char>)
    ensures
        r@ == loose_content(new_body@, old_body@, opt_groups(*old_parts)),
{
    match old_parts {
        Some(op) => {
            let a = group_chars(old_body, op, 1).len();
            let b = group_chars(old_body, op, 2).len();
            let c = group_chars(old_body, op, 3).len();
            if new_body.len() < a || new_body.len() - a < b || new_body.len() - a - b < c {
                trimmed_start(&trimmed_start(new_body))
            } else {
                trimmed_start(&slice(new_body, a + b + c, new_body.len()))
            }
        },
        None => trimmed_start(new_body),
    }
}

/// `loose` without its leading marker and without leading whitespace.
pub fn strip_marker(loose: &Vec<char>, marker: &Option<Vec<Option<Span>>>) -> (r: Vec<char>)
    ensures
        r@ == bare_content(loose@, opt_groups(*marker)),
{
    match marker {
        Some(c) => {
            let nothing: Vec<char> = Vec::new();
            assert(nothing@ =~= Seq::<char>::empty());
            trimmed_start(&replaced_span(loose, group_of(c, 0), &nothing))
        },
        None => trimmed_start(loose),
    }
}

/// The rewritten line `new_line` with the list structure of `old_line`.
pub open spec fn guarded(old_line: Seq<char>, new_line: Seq<char>) -> Seq<char> {
    let ob = strip_newlines(old_line);
    let nb = strip_newlines(new_line);
    let old_parts = first_match(LIST_PARTS@, ob);
    let loose = loose_content(nb, ob, old_parts);
    structure_kept(
        old_line,
        new_line,
        list_item(old_line),
        old_parts,
        first_match(LIST_PARTS@, nb),
        bare_content(loose, first_match(LEADING_MARKER@, loose)),
    )
}

/// Keeps the list structure of `old_line` in the rewritten line `new_line`.
pub fn guard(old_line: &Vec<char>, new_line: &Vec<char>) -> (r: Vec<char>)
    ensures
        r@ == guarded(old_line@, new_line@),
{
    let ob = trimmed_end_char(old_line, '\n');
    let nb = trimmed_end_char(new_line, '\n');
    let old_parts = captures(LIST_PARTS, &ob);
    let new_parts = captures(LIST_PARTS, &nb);
    let loose = find_loose_content(&nb, &ob, &old_parts);
    let marker = captures(LEADING_MARKER, &loose);
    let bare = strip_marker(&loose, &marker);
    keep_structure(old_line, new_line, is_list_item_chars(old_line), &old_parts, &new_parts, &bare)
}

/// Line `k` after the conversion: as it stands where it holds no link; else with
/// its links in their new form and its list structure kept.
pub open spec fn converted_line(
    line: Seq<char>,
    links: Seq<LinkView>,
    k: usize,
    to_inline: bool,
    numbered: Seq<TargetView>,
    numbers: Seq<nat>,
) -> Seq<char> {
    if line_spans(links, k, links.len() as int).len() == 0 {
        line
    } else {
        guarded(line, relinked(line, links, k, to_inline, numbered, numbers))
    }
}

/// The lines after the conversion of their links.
pub open spec fn converted_lines(
    lines: Seq<Seq<char>>,
    links: Seq<LinkView>,
    to_inline: bool,
    numbered: Seq<TargetView>,
    numbers: Seq<nat>,
) -> Seq<Seq<char>> {
    Seq::new(
        lines.len(),
        |k: int| converted_line(lines[k], links, k as usize, to_inline, numbered, numbers),
    )
}

/// Converts the links of each line.
pub fn convert_lines(
    lines: &Vec<Vec<char>>,
    links: &Vec<Link>,
    to_inline: bool,
    numbered: &Vec<Target>,
    numbers: &Vec<u128>,
) -> (r: Vec<Vec<char>>)
    ensures
        views(r@) == converted_lines(
            views(lines@),
            link_views(links@),
            to_inline,
            targets_view(numbered@),
            naturals(numbers@),
        ),
{
    let ghost ls = link_views(links@);
    let ghost ts = targets_view(numbered@);
    let mut out: Vec<Vec<char>> = Vec::new();
    let mut k: usize = 0;
    while k < lines.len()
        invariant
            k <= lines.len(),
            ls == link_views(links@),
            ts == targets_view(numbered@),
            out.len() == k,
            forall|q: int|
                0 <= q < k ==> (#[trigger] out@[q])@ == converted_line(
                    lines@[q]@,
                    ls,
                    q as usize,
                    to_inline,
                    ts,
                    naturals(numbers@),
                ),
        decreases lines.len() - k,
    {
        let (new_line, any) = relink(&lines[k], links, k, to_inline, numbered, numbers);
        if any {
            out.push(guard(&lines[k], &new_line));
        } else {
            out.push(copy(&lines[k]));
        }
        k += 1;
    }
    assert(views(out@) =~= converted_lines(views(lines@), ls, to_inline, ts, naturals(numbers@)));
    out
}

/// The document `lines` with its links converted. Nothing changes where neither
/// style is asked for. Else the definitions are taken out of the lines. With
/// `use_inline` every link becomes an inline link. With `use_reference` alone
/// every inline link becomes a numbered reference, under a number that no
/// textual id in use writes; links with textual ids stay, and the definitions
/// that are in use are put at the beginning or at the end.
pub open spec fn links_converted(
    lines: Seq<Seq<char>>,
    use_inline: bool,
    use_reference: bool,
    at_beginning: bool,
) -> Seq<Seq<char>> {
    let body = body_of(lines);
    let links = links_of(body, registry_of(lines));
    let named = named_of(links);
    let numbered = numbered_of(links);
    let numbers = numbers_given(named, numbered.len());
    if !use_inline && !use_reference {
        lines
    } else if use_inline {
        converted_lines(body, links, true, Seq::<TargetView>::empty(), Seq::<nat>::empty())
    } else if at_beginning {
        placed_at_beginning(
            converted_lines(body, links, false, numbered, numbers),
            definition_lines(named, numbered, numbers),
        )
    } else {
        placed_at_end(
            converted_lines(body, links, false, numbered, numbers),
            definition_lines(named, numbered, numbers),
        )
    }
}

/// Converts the links of a document to inline links or to reference links.
pub fn convert_links_in_document_chars(
    lines: &mut Vec<Vec<char>>,
    use_inline: bool,
    use_reference: bool,
    place_at_beginning_of_document: bool,
)
    ensures
        views(final(lines)@) == links_converted(
            views(old(lines)@),
            use_inline,
            use_reference,
            place_at_beginning_of_document,
        ),
{
    if !use_inline && !use_reference {
        return;
    }
    let (registry, body) = take_definitions(lines);
    let links = find_links(&body, &registry);
    if use_inline {
        let none: Vec<Target> = Vec::new();
        let no_numbers: Vec<u128> = Vec::new();
        assert(targets_view(none@) =~= Seq::<TargetView>::empty());
        assert(naturals(no_numbers@) =~= Seq::<nat>::empty());
        *lines = convert_lines(&body, &links, true, &none, &no_numbers);
    } else {
        let named = collect_named(&links);
        let numbered = collect_numbered(&links);
        let numbers = give_numbers(&named, numbered.len());
        let rewritten = convert_lines(&body, &links, false, &numbered, &numbers);
        let definitions = write_definitions(&named, &numbered, &numbers);
        if place_at_beginning_of_document {
            *lines = place_at_beginning(&rewritten, &definitions);
        } else {
            *lines = place_at_end(&rewritten, &definitions);
        }
    }
}

/// Converts the links of a document to inline links or to reference links.
pub fn convert_links_in_document(
    lines: &mut Vec<String>,
    use_inline: bool,
    use_reference: bool,
    place_at_beginning_of_document: bool,
)
    ensures
        string_views(final(lines)@) == links_converted(
            string_views(old(lines)@),
            use_inline,
            use_reference,
            place_at_beginning_of_document,
        ),
{
    let mut texts = all_to_chars(lines);
    convert_links_in_document_chars(
        &mut texts,
        use_inline,
        use_reference,
        place_at_beginning_of_document,
    );
    *lines = all_to_strings(&texts);
}

} // verus!
