//! What the pass does with a list item: the separation of interrupted lists, the
//! renumbering, the indentation, the spacing, and the wrapping of the item.

use vstd::prelude::*;
use crate::blocks::{emit_led, led_lines, line_ended, end_line, wraps, Document, Setup};
use crate::classify::{is_list_item_chars, list_item};
use crate::link_ids::unblank_end;
use crate::list::{
    bullet, list_opens_with_its_own_marker, none_at, numbered, find_indent_unit,
    get_list_level_chars, indent_unit, item_level, item_parts, list_line, lists_after,
    normalize_list_markers_chars, numbered_item, remarked, run_begin, seed_of,
    spaces_to_tabs_for_list_chars, stack_stays_well_formed, tabbed, unit_is_two_or_four,
    well_formed, ListContext, ListLine, ListType, LIST_PARTS, NUMBERED_MARKER,
};
use crate::pattern::{captures, group_chars, group_text, is_match};
use crate::progress::{ends_in_text, on, spaced, Progress, State};
use crate::spacing::{checkbox_lowered, normalize_task_checkbox_chars};
use crate::text::{
    has_newline, with_newline, blank, copy, is_blank, push_all, strip_newlines, trim, trimmed,
    trimmed_end, trimmed_end_char, views,
};
use crate::wrap::{wrap_text_chars, wrapped};

verus! {

/// What the detection of indent units reads of each line of a document.
pub open spec fn read_all(lines: Seq<Seq<char>>) -> Seq<ListLine> {
    Seq::new(lines.len(), |k: int| list_line(lines[k]))
}

/// The indent unit of the list run at line `i`: that of the run at hand, or the
/// one detected at the line where a run begins.
pub open spec fn run_unit(s: State, d: Setup, i: int) -> usize {
    match s.unit {
        Some(u) => u,
        None => indent_unit(read_all(d.lines), i),
    }
}

/// Whether the indent unit of the run at hand, if there is one, is 2 or 4.
pub open spec fn unit_ok(s: State) -> bool {
    s.unit is Some ==> s.unit->0 == 2 || s.unit->0 == 4
}

/// Whether an item interrupts the list before it: both stand at the top level,
/// and one is numbered and the other bulleted.
pub open spec fn interrupts(
    previous_level: usize,
    previous_numbered: bool,
    level: usize,
    is_numbered: bool,
) -> bool {
    previous_level == level && previous_numbered != is_numbered && level == 0
}

/// Whether an item interrupts the list before it.
pub fn does_interrupt(
    previous_level: usize,
    previous_numbered: bool,
    level: usize,
    is_numbered: bool,
) -> (r: bool)
    ensures
        r == interrupts(previous_level, previous_numbered, level, is_numbered),
{
    previous_level == level && previous_numbered != is_numbered && level == 0
}

/// Whether the item `line` interrupts a list: the last line that was put out and
/// is not blank is a list item that `line` interrupts.
pub open spec fn interrupted(out: Seq<Seq<char>>, line: Seq<char>, unit: usize) -> bool {
    let p = unblank_end(out, out.len() as int) - 1;
    item_parts(line) is Some && 0 <= p < out.len() && list_item(out[p]) && item_parts(out[p])
        is Some && interrupts(
        item_level(out[p], item_parts(out[p])->0, unit),
        numbered_item(out[p], item_parts(out[p])),
        item_level(line, item_parts(line)->0, unit),
        numbered_item(line, item_parts(line)),
    )
}

/// The open lists without those at `level`.
pub open spec fn without_level(stack: Seq<ListContext>, level: usize) -> Seq<ListContext>
    decreases stack.len(),
{
    if stack.len() == 0 {
        Seq::<ListContext>::empty()
    } else if stack.last().level != level {
        without_level(stack.drop_last(), level).push(stack.last())
    } else {
        without_level(stack.drop_last(), level)
    }
}

/// The lines that separate an interrupted list from the item that interrupts it:
/// a blank line, an empty comment, a blank line.
pub open spec fn separator_lines() -> Seq<Seq<char>> {
    seq![seq!['\n'], seq!['<', '!', '-', '-', ' ', '-', '-', '>', '\n'], seq!['\n']]
}

/// Whether a blank line goes before a list item: what was put out ends with text
/// that is neither a list item nor a quote nor a line that begins with a hash.
pub open spec fn wants_blank_before_item(out: Seq<Seq<char>>) -> bool {
    ends_in_text(out) && !list_item(out.last()) && !(trim(out.last()).len() > 0 && (trim(
        out.last(),
    )[0] == '>' || trim(out.last())[0] == '#'))
}

/// Whether the spacing after the marker of an item is rewritten: the rule is on
/// and the spacing is not one space.
pub open spec fn respaces(line: Seq<char>, d: Setup) -> bool {
    item_parts(line) is Some && on(d.skip, 13) && group_text(
        strip_newlines(line),
        item_parts(line)->0,
        3,
    ) != seq![' ']
}

/// The item `line` with one space after its marker, where that is rewritten.
pub open spec fn respaced_item(line: Seq<char>, d: Setup) -> Seq<char> {
    let body = strip_newlines(line);
    if respaces(line, d) {
        line_ended(
            group_text(body, item_parts(line)->0, 1) + group_text(body, item_parts(line)->0, 2)
                + seq![' '] + group_text(body, item_parts(line)->0, 4),
        )
    } else {
        line
    }
}

/// What stands before the content of the item `line` when it is put out: its
/// indent, its marker, and the spacing after it.
pub open spec fn item_prefix(line: Seq<char>, d: Setup) -> Seq<char> {
    let body = strip_newlines(line);
    group_text(body, item_parts(line)->0, 1) + group_text(body, item_parts(line)->0, 2) + if respaces(
        line,
        d,
    ) {
        seq![' ']
    } else {
        group_text(body, item_parts(line)->0, 3)
    }
}

/// Whether the item `line` is wrapped.
pub open spec fn item_wraps(line: Seq<char>, d: Setup) -> bool {
    item_parts(line) is Some && wraps(
        respaced_item(line, d),
        group_text(strip_newlines(line), item_parts(line)->0, 4),
        d,
    )
}

/// `a - b`, or 0 where `b` is the greater.
pub open spec fn less(a: usize, b: nat) -> usize {
    if a >= b {
        (a - b) as usize
    } else {
        0
    }
}

/// The lines that the item `line` is put out as: the item with one space after
/// its marker; where it is too long, its content wrapped to what the width
/// leaves after the marker, the first line after the marker and the others
/// after the item's indent and a tab.
pub open spec fn item_lines(line: Seq<char>, d: Setup) -> Seq<Seq<char>> {
    let body = strip_newlines(line);
    if item_wraps(line, d) {
        led_lines(
            wrapped(
                group_text(body, item_parts(line)->0, 4),
                less(d.wrap_width, item_prefix(line, d).len()),
                Seq::<char>::empty(),
            ),
            item_prefix(line, d),
            group_text(body, item_parts(line)->0, 1).push('\t'),
        )
    } else {
        seq![respaced_item(line, d)]
    }
}

/// Whether the list run ends after the item at line `i`: the document ends, or a
/// line follows that is neither blank nor a list item. With the rule for the
/// blank line after a list off, every item ends its run.
pub open spec fn run_ends(d: Setup, i: int) -> bool {
    !on(d.skip, 9) || !(0 <= i + 1 < d.lines.len()) || (!is_blank(d.lines[i + 1]) && !list_item(
        d.lines[i + 1],
    ))
}

/// The item after the checkbox rule.
pub open spec fn ticked(line: Seq<char>, d: Setup) -> Seq<char> {
    if on(d.skip, 19) {
        checkbox_lowered(line)
    } else {
        line
    }
}

/// The state when the item `l` meets the open lists: the run has its indent unit;
/// where the item interrupts a list, the separator is put out and the top-level
/// list is closed.
pub open spec fn met(s: State, l: Seq<char>, unit: usize) -> State {
    if interrupted(s.output, l, unit) {
        State {
            output: s.output + separator_lines(),
            unit: Some(unit),
            stack: without_level(s.stack, 0),
            ..s
        }
    } else {
        State { unit: Some(unit), ..s }
    }
}

/// The item `l` after the renumbering among the open lists of `s`.
pub open spec fn marked(s: State, l: Seq<char>, d: Setup, unit: usize) -> Seq<char> {
    if on(d.skip, 26) {
        remarked(
            l,
            list_item(l),
            item_parts(l),
            numbered_item(l, item_parts(l)),
            s.stack,
            unit,
            !on(d.skip, 27),
        )
    } else {
        l
    }
}

/// The state after the renumbering of the item `l`.
pub open spec fn renumbered(s: State, l: Seq<char>, d: Setup, unit: usize) -> State {
    if on(d.skip, 26) {
        State {
            stack: lists_after(
                l,
                list_item(l),
                item_parts(l),
                numbered_item(l, item_parts(l)),
                s.stack,
                unit,
                !on(d.skip, 27),
            ),
            ..s
        }
    } else {
        s
    }
}

/// The item `l` after the indentation rule.
pub open spec fn indented(l: Seq<char>, d: Setup, unit: usize) -> Seq<char> {
    if on(d.skip, 12) {
        tabbed(l, unit)
    } else {
        l
    }
}

/// The state after the item `l` is put out: a blank line goes before it after
/// text that is no list; the item has one space after its marker and is wrapped
/// where it is too long.
pub open spec fn put_out(s: State, l: Seq<char>, d: Setup) -> State {
    let before = on(d.skip, 8) && wants_blank_before_item(s.output);
    State { output: spaced(s.output, before) + item_lines(l, d), blank_run: 0, ..s }
}

/// The state at the end of an item at line `i`: the list run ends where no item
/// or blank line follows.
pub open spec fn run_closed(s: State, d: Setup, i: int) -> State {
    if run_ends(d, i) {
        State { unit: None, stack: Seq::<ListContext>::empty(), ..s }
    } else {
        s
    }
}

/// The state after the list item `line` at line `i`. The item's checkbox is
/// lowered. Where it interrupts a list, a separator goes before it and the
/// top-level list is closed. It is given its marker among the open lists, tabs
/// for the spaces of its indent, and one space after its marker; it is wrapped
/// where it is too long. The list run ends where no item or blank line follows.
pub open spec fn item_step(s: State, line: Seq<char>, d: Setup, i: int) -> State {
    let unit = run_unit(s, d, i);
    let l1 = ticked(line, d);
    let s1 = met(s, l1, unit);
    let l2 = marked(s1, l1, d, unit);
    let s2 = renumbered(s1, l1, d, unit);
    let l3 = indented(l2, d, unit);
    run_closed(put_out(s2, l3, d), d, i)
}

/// Whether the item `line` interrupts a list.
pub fn is_interrupted(p: &Progress, line: &Vec<char>, unit: usize) -> (r: bool)
    requires
        unit > 0,
    ensures
        r == interrupted(p@.output, line@, unit),
{
    let ghost out = views(p.output@);
    let body = trimmed_end_char(line, '\n');
    let parts = match captures(LIST_PARTS, &body) {
        Some(c) => c,
        None => {
            return false;
        },
    };
    let mut n: usize = p.output.len();
    while n > 0 && blank(&p.output[n - 1])
        invariant
            n <= p.output.len(),
            out == views(p.output@),
            unblank_end(out, out.len() as int) == unblank_end(out, n as int),
        decreases n,
    {
        assert(out[n - 1] == p.output@[n - 1]@);
        n -= 1;
    }
    assert(n > 0 ==> out[n - 1] == p.output@[n - 1]@);
    if n == 0 {
        return false;
    }
    let previous = &p.output[n - 1];
    if !is_list_item_chars(previous) {
        return false;
    }
    let previous_body = trimmed_end_char(previous, '\n');
    let previous_parts = match captures(LIST_PARTS, &previous_body) {
        Some(c) => c,
        None => {
            return false;
        },
    };
    let previous_level = get_list_level_chars(
        &group_chars(&previous_body, &previous_parts, 1),
        unit,
    );
    let previous_numbered = is_match(
        NUMBERED_MARKER,
        &group_chars(&previous_body, &previous_parts, 2),
    );
    let level = get_list_level_chars(&group_chars(&body, &parts, 1), unit);
    let is_numbered = is_match(NUMBERED_MARKER, &group_chars(&body, &parts, 2));
    does_interrupt(previous_level, previous_numbered, level, is_numbered)
}

/// Closes the open lists at `level`.
pub fn close_level(stack: &mut Vec<ListContext>, level: usize)
    ensures
        final(stack)@ == without_level(old(stack)@, level),
{
    let mut kept: Vec<ListContext> = Vec::new();
    let mut i: usize = 0;
    while i < stack.len()
        invariant
            i <= stack.len(),
            stack@ == old(stack)@,
            kept@ == without_level(stack@.take(i as int), level),
        decreases stack.len() - i,
    {
        assert(stack@.take(i + 1).drop_last() =~= stack@.take(i as int));
        if stack[i].level != level {
            kept.push(stack[i]);
        }
        i += 1;
    }
    assert(stack@.take(stack.len() as int) =~= stack@);
    *stack = kept;
}

/// The lines that separate an interrupted list from the item that interrupts it.
pub fn make_separator() -> (r: Vec<Vec<char>>)
    ensures
        views(r@) == separator_lines(),
{
    let mut blank_a: Vec<char> = Vec::new();
    blank_a.push('\n');
    let mut comment: Vec<char> = Vec::new();
    comment.push('<');
    comment.push('!');
    comment.push('-');
    comment.push('-');
    comment.push(' ');
    comment.push('-');
    comment.push('-');
    comment.push('>');
    comment.push('\n');
    let mut blank_b: Vec<char> = Vec::new();
    blank_b.push('\n');
    let mut r: Vec<Vec<char>> = Vec::new();
    assert(blank_a@ =~= seq!['\n']);
    assert(comment@ =~= seq!['<', '!', '-', '-', ' ', '-', '-', '>', '\n']);
    assert(blank_b@ =~= seq!['\n']);
    r.push(blank_a);
    r.push(comment);
    r.push(blank_b);
    assert(views(r@).len() == 3);
    assert(views(r@)[0] == blank_a@ && views(r@)[1] == comment@ && views(r@)[2] == blank_b@);
    assert(views(r@) =~= separator_lines());
    r
}

/// Whether a blank line goes before a list item.
pub fn does_want_blank_before_item(p: &Progress) -> (r: bool)
    ensures
        r == wants_blank_before_item(p@.output),
{
    if !p.ends_in_text() {
        return false;
    }
    let n = p.output.len();
    assert(views(p.output@)[n - 1] == p.output@[n - 1]@);
    let last = &p.output[n - 1];
    if is_list_item_chars(last) {
        return false;
    }
    let t = trimmed(last);
    !(t.len() > 0 && (t[0] == '>' || t[0] == '#'))
}

/// Puts out the item `line`, with one space after its marker and wrapped where it
/// is too long.
pub fn emit_item(p: &mut Progress, line: Vec<char>, doc: &Document)
    ensures
        final(p)@ == (State { output: old(p)@.output + item_lines(line@, doc@), ..old(p)@ }),
{
    let ghost start = views(p.output@);
    let body = trimmed_end_char(&line, '\n');
    match captures(LIST_PARTS, &body) {
        Some(c) => {
            let indent = group_chars(&body, &c, 1);
            let marker = group_chars(&body, &c, 2);
            let space = group_chars(&body, &c, 3);
            let content = group_chars(&body, &c, 4);
            let fix = doc.options.enabled(13) && !(space.len() == 1 && space[0] == ' ');
            assert(fix == respaces(line@, doc@)) by {
                if space.len() == 1 && space[0] == ' ' {
                    assert(space@ =~= seq![' ']);
                }
            }
            let mut prefix = copy(&indent);
            push_all(&mut prefix, &marker);
            let out = if fix {
                prefix.push(' ');
                let mut l = copy(&prefix);
                push_all(&mut l, &content);
                assert(l@ =~= indent@ + marker@ + seq![' '] + content@);
                end_line(l)
            } else {
                push_all(&mut prefix, &space);
                copy(&line)
            };
            assert(prefix@ =~= item_prefix(line@, doc@));
            if doc.options.enabled(14) && content.len() > 0 && trimmed_end(&out).len()
                > doc.options.wrap_width {
                let width = if doc.options.wrap_width >= prefix.len() {
                    doc.options.wrap_width - prefix.len()
                } else {
                    0
                };
                let nothing: Vec<char> = Vec::new();
                assert(nothing@ =~= Seq::<char>::empty());
                let ws = wrap_text_chars(&content, width, &nothing);
                let mut rest = indent;
                rest.push('\t');
                emit_led(p, &ws, &prefix, &rest);
            } else {
                p.emit(out);
                assert(start.push(out@) =~= start + seq![out@]);
            }
        },
        None => {
            p.emit(line);
            assert(start.push(line@) =~= start + seq![line@]);
        },
    }
}

/// Whether the list run ends after the item at line `i`.
pub fn does_run_end(doc: &Document, i: usize) -> (r: bool)
    ensures
        r == run_ends(doc@, i as int),
{
    let n = doc.lines.len();
    assert(views(doc.lines@).len() == n);
    if !doc.options.enabled(9) {
        return true;
    }
    if i < usize::MAX && i + 1 < doc.lines.len() {
        assert(views(doc.lines@)[i + 1] == doc.lines@[i + 1]@);
        let next = &doc.lines[i + 1];
        !blank(next) && !is_list_item_chars(next)
    } else {
        true
    }
}

/// Lets the item `l` meet the open lists.
pub fn meet(p: &mut Progress, l: &Vec<char>, unit: usize)
    requires
        unit > 0,
    ensures
        final(p)@ == met(old(p)@, l@, unit),
{
    p.unit = Some(unit);
    if is_interrupted(p, l, unit) {
        close_level(&mut p.stack, 0);
        let mut separator = make_separator();
        let ghost before = views(p.output@);
        p.output.append(&mut separator);
        assert(views(p.output@) =~= before + separator_lines());
    }
}

/// Renumbers the item `l` among the open lists.
pub fn renumber(p: &mut Progress, l: Vec<char>, doc: &Document, unit: usize) -> (r: Vec<char>)
    requires
        unit > 0,
    ensures
        final(p)@ == renumbered(old(p)@, l@, doc@, unit),
        r@ == marked(old(p)@, l@, doc@, unit),
{
    if doc.options.enabled(26) {
        let marked = normalize_list_markers_chars(
            &l,
            &mut p.stack,
            unit,
            !doc.options.enabled(27),
        );
        marked.0
    } else {
        l
    }
}

/// Puts out the item `l`, after a blank line where one is wanted.
pub fn put_out_item(p: &mut Progress, l: Vec<char>, doc: &Document)
    ensures
        final(p)@ == put_out(old(p)@, l@, doc@),
{
    let before = doc.options.enabled(8) && does_want_blank_before_item(p);
    p.emit_blank(before);
    emit_item(p, l, doc);
    p.blank_run = 0;
}

/// Ends the list run where it ends after the item at line `i`.
pub fn close_run(p: &mut Progress, doc: &Document, i: usize)
    ensures
        final(p)@ == run_closed(old(p)@, doc@, i as int),
{
    if does_run_end(doc, i) {
        p.close_lists();
    }
}

/// The indent unit of the list run at line `i`.
pub fn find_run_unit(p: &Progress, doc: &Document, i: usize) -> (r: usize)
    requires
        doc.well_formed(),
        unit_ok(p@),
    ensures
        r == run_unit(p@, doc@, i as int),
        r == 2 || r == 4,
{
    assert(doc.read@ =~= read_all(doc@.lines)) by {
        assert forall|k: int| 0 <= k < doc.read@.len() implies doc.read@[k] == read_all(
            doc@.lines,
        )[k] by {
            assert(views(doc.lines@)[k] == doc.lines@[k]@);
        }
    }
    match p.unit {
        Some(u) => u,
        None => find_indent_unit(&doc.read, i),
    }
}

/// Takes the list item `line` at line `i`.
pub fn take_item(p: &mut Progress, line: Vec<char>, doc: &Document, i: usize)
    requires
        doc.well_formed(),
        unit_ok(old(p)@),
    ensures
        final(p)@ == item_step(old(p)@, line@, doc@, i as int),
        unit_ok(final(p)@),
{
    let unit = find_run_unit(p, doc, i);
    let l1 = if doc.options.enabled(19) {
        normalize_task_checkbox_chars(&line)
    } else {
        copy(&line)
    };
    meet(p, &l1, unit);
    let l2 = renumber(p, l1, doc, unit);
    let l3 = if doc.options.enabled(12) {
        spaces_to_tabs_for_list_chars(&l2, unit)
    } else {
        copy(&l2)
    };
    put_out_item(p, l3, doc);
    close_run(p, doc, i);
}

proof fn without_level_keeps_below(stack: Seq<ListContext>, level: usize, bound: int)
    requires
        forall|i: int| 0 <= i < stack.len() ==> (#[trigger] stack[i]).level < bound,
    ensures
        forall|i: int|
            0 <= i < without_level(stack, level).len() ==> (#[trigger] without_level(
                stack,
                level,
            )[i]).level < bound,
    decreases stack.len(),
{
    if stack.len() > 0 {
        let init = stack.drop_last();
        assert forall|i: int| 0 <= i < init.len() implies (#[trigger] init[i]).level < bound by {
            assert(init[i] == stack[i]);
        }
        without_level_keeps_below(init, level, bound);
    }
}

/// The open lists without those at one level are as they should be where the
/// open lists were.
pub proof fn without_level_stays_well_formed(stack: Seq<ListContext>, level: usize)
    requires
        well_formed(stack),
    ensures
        well_formed(without_level(stack, level)),
    decreases stack.len(),
{
    if stack.len() > 0 {
        let init = stack.drop_last();
        assert(well_formed(init)) by {
            assert forall|i: int, j: int| 0 <= i < j < init.len() implies init[i].level
                < init[j].level by {
                assert(init[i] == stack[i] && init[j] == stack[j]);
            }
            assert forall|i: int| 0 <= i < init.len() implies ((#[trigger] init[i]).list_type
                == ListType::Numbered <==> init[i].current_number is Some) by {
                assert(init[i] == stack[i]);
            }
        }
        without_level_stays_well_formed(init, level);
        assert forall|i: int| 0 <= i < init.len() implies (#[trigger] init[i]).level
            < stack.last().level by {
            assert(init[i] == stack[i]);
        }
        without_level_keeps_below(init, level, stack.last().level as int);
        assert(stack.last() == stack[stack.len() - 1]);
    }
}

/// A list item leaves the open lists as they should be and the indent unit 2 or
/// 4, and opens or closes no block.
pub proof fn item_keeps_state(s: State, line: Seq<char>, d: Setup, i: int)
    requires
        well_formed(s.stack),
        unit_ok(s),
    ensures
        well_formed(item_step(s, line, d, i).stack),
        unit_ok(item_step(s, line, d, i)),
        item_step(s, line, d, i).in_frontmatter == s.in_frontmatter,
        item_step(s, line, d, i).in_code_block == s.in_code_block,
        item_step(s, line, d, i).in_math_block == s.in_math_block,
{
    let unit = run_unit(s, d, i);
    unit_is_two_or_four(
        read_all(d.lines),
        run_begin(read_all(d.lines), i, i) + 1,
    );
    let l1 = ticked(line, d);
    let s1 = met(s, l1, unit);
    without_level_stays_well_formed(s.stack, 0);
    assert(well_formed(s1.stack));
    let s2 = renumbered(s1, l1, d, unit);
    if on(d.skip, 26) && list_item(l1) && item_parts(l1) is Some {
        stack_stays_well_formed(
            s1.stack,
            item_level(l1, item_parts(l1)->0, unit),
            numbered_item(l1, item_parts(l1)),
            seed_of(
                group_text(strip_newlines(l1), item_parts(l1)->0, 2),
                !on(d.skip, 27),
            ),
        );
    }
    assert(well_formed(s2.stack));
    stack_stays_well_formed(Seq::<ListContext>::empty(), 0, false, 1);
}

proof fn without_level_has_none(stack: Seq<ListContext>, level: usize)
    ensures
        none_at(without_level(stack, level), level),
    decreases stack.len(),
{
    if stack.len() > 0 {
        without_level_has_none(stack.drop_last(), level);
    }
}

/// An item that interrupts a list keeps its own kind of marker: where a bulleted
/// item follows a numbered list at the top level, or a numbered item a bulleted
/// list, the renumbering gives a bulleted item the bullet of the top level and a
/// numbered item the number that a new list begins with, never the next number
/// or the bullet of the list before it.
pub proof fn interrupting_item_keeps_its_kind(s: State, l: Seq<char>, d: Setup, unit: usize)
    requires
        interrupted(s.output, l, unit),
        list_item(l),
        on(d.skip, 26),
    ensures
        item_parts(l) is Some,
        item_level(l, item_parts(l)->0, unit) == 0,
        marked(met(s, l, unit), l, d, unit) == with_newline(
            group_text(strip_newlines(l), item_parts(l)->0, 1) + (if numbered_item(
                l,
                item_parts(l),
            ) {
                numbered(
                    seed_of(group_text(strip_newlines(l), item_parts(l)->0, 2), !on(d.skip, 27)),
                )
            } else {
                bullet(0)
            }) + group_text(strip_newlines(l), item_parts(l)->0, 3) + group_text(
                strip_newlines(l),
                item_parts(l)->0,
                4,
            ),
            has_newline(l),
        ),
{
    without_level_has_none(s.stack, 0);
    list_opens_with_its_own_marker(
        without_level(s.stack, 0),
        0,
        numbered_item(l, item_parts(l)),
        seed_of(group_text(strip_newlines(l), item_parts(l)->0, 2), !on(d.skip, 27)),
    );
}

} // verus!
