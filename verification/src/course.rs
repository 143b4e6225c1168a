//! The course of the pass through a document: the state in which each line is
//! taken, and what holds of a list item that follows a list of the other kind.

use vstd::prelude::*;
use crate::blocks::{blank_step, line_rules, math_fence, table_applies, Setup};
use crate::classify::{blockquote, code_fence, heading, horizontal_rule, list_item, preserved};
use crate::items::{
    indented, interrupted, interrupting_item_keeps_its_kind, item_step, marked, met, put_out,
    renumbered, run_unit, ticked,
};
use crate::link_ids::unblank_end;
use crate::list::{bullet, item_level, item_parts, numbered, numbered_item, seed_of};
use crate::math::math_spaced;
use crate::pattern::group_text;
use crate::process::{ended, run, start, stepped, Step};
use crate::progress::{blank_text, on, State};
use crate::text::{has_newline, is_blank, skip_spaces, strip_newlines, with_newline};

verus! {

/// The state in which the pass takes line `i` when it goes on from line `from` in
/// state `s`; none where it does not come to line `i`, which is then a line of a
/// table that began before it.
pub open spec fn state_at(s: State, d: Setup, from: int, i: int) -> Option<State>
    decreases i - from,
{
    if from == i {
        Some(s)
    } else if from > i || stepped(s, d, from).next <= from || stepped(s, d, from).next > i {
        None
    } else {
        state_at(stepped(s, d, from).state, d, stepped(s, d, from).next, i)
    }
}

/// Whether the pass over the document comes to line `i`.
pub open spec fn comes_to(d: Setup, i: int) -> bool {
    state_at(start(d), d, 0, i) is Some
}

/// The state in which the pass over the document takes line `i`.
pub open spec fn taken(d: Setup, i: int) -> State {
    state_at(start(d), d, 0, i)->0
}

/// The pass goes through the states in which it takes its lines: what it puts out
/// in the end is what it puts out from line `i` on in the state in which it takes
/// that line.
pub proof fn run_goes_through(s: State, d: Setup, from: int, i: int)
    requires
        0 <= from,
        i <= d.lines.len(),
        state_at(s, d, from, i) is Some,
    ensures
        run(s, d, from) == run(state_at(s, d, from, i)->0, d, i),
    decreases i - from,
{
    if from < i {
        let t = stepped(s, d, from);
        assert(state_at(t.state, d, t.next, i) is Some);
        run_goes_through(t.state, d, t.next, i);
    }
}

/// Where line `i` is taken by itself, the next line is taken in the state after
/// it.
pub proof fn state_goes_on(s: State, d: Setup, from: int, i: int)
    requires
        from <= i,
        state_at(s, d, from, i) is Some,
        stepped(state_at(s, d, from, i)->0, d, i).next == i + 1,
    ensures
        state_at(s, d, from, i + 1) == Some(stepped(state_at(s, d, from, i)->0, d, i).state),
    decreases i - from,
{
    let t = stepped(s, d, from);
    if from == i {
        assert(state_at(t.state, d, i + 1, i + 1) == Some(t.state));
    } else {
        assert(state_at(t.state, d, t.next, i) is Some);
        state_goes_on(t.state, d, t.next, i);
    }
}

/// Line `i` as the pass reads it outside front matter, code and display math:
/// with its line ending set, after the rules that rewrite a line by itself.
pub open spec fn read_line(s: State, d: Setup, i: int) -> Seq<char> {
    if on(d.skip, 21) {
        math_spaced(line_rules(ended(d, i), s.in_math_block, d), false)
    } else {
        line_rules(ended(d, i), s.in_math_block, d)
    }
}

/// Whether line `i` stands outside front matter, fenced code and display math, and
/// is no fence of either.
pub open spec fn stands_free(s: State, d: Setup, i: int) -> bool {
    !s.in_frontmatter && !s.in_code_block && !code_fence(ended(d, i)) && !(on(d.skip, 21) && (
    s.in_math_block || math_fence(line_rules(ended(d, i), s.in_math_block, d))))
}

/// Whether line `i` is taken as a list item in state `s`.
pub open spec fn taken_as_item(s: State, d: Setup, i: int) -> bool {
    let line = read_line(s, d, i);
    stands_free(s, d, i) && !table_applies(s, line, d, i) && !heading(line) && !horizontal_rule(
        line,
    ) && !preserved(line) && list_item(line)
}

/// Whether line `i` is taken as a blank line in state `s`.
pub open spec fn taken_as_blank(s: State, d: Setup, i: int) -> bool {
    let line = read_line(s, d, i);
    stands_free(s, d, i) && !table_applies(s, line, d, i) && !heading(line) && !horizontal_rule(
        line,
    ) && !preserved(line) && !list_item(line) && !blockquote(line) && is_blank(line)
}

/// Whether the pass comes to line `i` and takes it as a blank line.
pub open spec fn blank_at(d: Setup, i: int) -> bool {
    comes_to(d, i) && taken_as_blank(taken(d, i), d, i)
}

/// Whether `out` is `before` with nothing but blank lines after it.
pub open spec fn blanks_follow(before: Seq<Seq<char>>, out: Seq<Seq<char>>) -> bool {
    before.len() <= out.len() && out.take(before.len() as int) == before && forall|k: int|
        before.len() <= k < out.len() ==> #[trigger] out[k] == blank_text()
}

/// Whether the last line of `out` is a list item of the top level, numbered or
/// not as `is_numbered` says, when it is read with the indent unit `unit`.
pub open spec fn ends_in_item(out: Seq<Seq<char>>, is_numbered: bool, unit: usize) -> bool {
    out.len() > 0 && !is_blank(out.last()) && list_item(out.last()) && item_parts(out.last())
        is Some && numbered_item(out.last(), item_parts(out.last())) == is_numbered && item_level(
        out.last(),
        item_parts(out.last())->0,
        unit,
    ) == 0
}

proof fn blanks_are_passed(before: Seq<Seq<char>>, out: Seq<Seq<char>>, n: int)
    requires
        blanks_follow(before, out),
        before.len() <= n <= out.len(),
    ensures
        unblank_end(out, n) == unblank_end(before, before.len() as int),
    decreases n,
{
    if n > before.len() {
        assert(out[n - 1] == blank_text());
        assert(is_blank(blank_text())) by {
            assert(skip_spaces(blank_text(), 1) == 1);
        }
        blanks_are_passed(before, out, n - 1);
    } else {
        same_end(before, out, n);
    }
}

proof fn same_end(before: Seq<Seq<char>>, out: Seq<Seq<char>>, n: int)
    requires
        before.len() <= out.len(),
        out.take(before.len() as int) == before,
        0 <= n <= before.len(),
    ensures
        unblank_end(out, n) == unblank_end(before, n),
    decreases n,
{
    if n > 0 {
        assert(out[n - 1] == out.take(before.len() as int)[n - 1]);
        same_end(before, out, n - 1);
    }
}

/// The state in which a line after blank lines is taken: the blank lines add
/// nothing but blank lines to what was put out, and leave the open lists and
/// the indent unit as they were.
proof fn blank_lines_keep_lists(d: Setup, j: int, i: int)
    requires
        0 <= j < i,
        comes_to(d, j + 1),
        forall|m: int| j < m < i ==> #[trigger] blank_at(d, m),
    ensures
        comes_to(d, i),
        blanks_follow(taken(d, j + 1).output, taken(d, i).output),
        taken(d, i).stack == taken(d, j + 1).stack,
        taken(d, i).unit == taken(d, j + 1).unit,
    decreases i - j,
{
    if i > j + 1 {
        blank_lines_keep_lists(d, j, i - 1);
        assert(blank_at(d, i - 1));
        let s = taken(d, i - 1);
        assert(stepped(s, d, i - 1) == Step { state: blank_step(s, d), next: i }) by {
            reveal(stepped);
        }
        state_goes_on(start(d), d, 0, i - 1);
        let before = taken(d, j + 1).output;
        assert(blanks_follow(before, taken(d, i).output)) by {
            assert(taken(d, i).output.take(before.len() as int) =~= s.output.take(
                before.len() as int,
            ));
        }
    } else {
        let before = taken(d, j + 1).output;
        assert(before.take(before.len() as int) =~= before);
    }
}

/// A list item that follows a list of the other kind at the top level keeps its
/// own kind of marker, in every document. Line `j` is taken as a list item, and
/// what is put out for it ends in an item of the top level; blank lines or none
/// follow; line `i` is taken as a list item of the top level and of the other
/// kind. Then the item at line `i` is put out with the bullet of the top level
/// where it is bulleted, and with the number that a new list begins with where it
/// is numbered, and what the pass puts out in the end goes on from there.
pub proof fn interrupting_item_keeps_its_kind_in_document(d: Setup, j: int, i: int)
    requires
        on(d.skip, 26),
        0 <= j < i < d.lines.len(),
        comes_to(d, j),
        taken_as_item(taken(d, j), d, j),
        forall|m: int| j < m < i ==> #[trigger] blank_at(d, m),
        taken_as_item(taken(d, i), d, i),
        list_item(ticked(read_line(taken(d, i), d, i), d)),
        item_parts(ticked(read_line(taken(d, i), d, i), d)) is Some,
        item_level(
            ticked(read_line(taken(d, i), d, i), d),
            item_parts(ticked(read_line(taken(d, i), d, i), d))->0,
            run_unit(taken(d, i), d, i),
        ) == 0,
        ends_in_item(
            item_step(taken(d, j), read_line(taken(d, j), d, j), d, j).output,
            !numbered_item(
                ticked(read_line(taken(d, i), d, i), d),
                item_parts(ticked(read_line(taken(d, i), d, i), d)),
            ),
            run_unit(taken(d, i), d, i),
        ),
    ensures
        comes_to(d, i),
        comes_to(d, i + 1),
        run(start(d), d, 0) == run(taken(d, i + 1), d, i + 1),
        taken(d, i + 1) == item_step(taken(d, i), read_line(taken(d, i), d, i), d, i),
        ({
            let s = taken(d, i);
            let u = run_unit(s, d, i);
            let l = ticked(read_line(s, d, i), d);
            let body = strip_newlines(l);
            let parts = item_parts(l)->0;
            let given = with_newline(
                group_text(body, parts, 1) + (if numbered_item(l, item_parts(l)) {
                    numbered(seed_of(group_text(body, parts, 2), !on(d.skip, 27)))
                } else {
                    bullet(0)
                }) + group_text(body, parts, 3) + group_text(body, parts, 4),
                has_newline(l),
            );
            &&& marked(met(s, l, u), l, d, u) == given
            &&& taken(d, i + 1).output == put_out(
                renumbered(met(s, l, u), l, d, u),
                indented(given, d, u),
                d,
            ).output
        }),
{
    let sj = taken(d, j);
    assert(stepped(sj, d, j) == Step {
        state: item_step(sj, read_line(sj, d, j), d, j),
        next: j + 1,
    }) by {
        reveal(stepped);
    }
    state_goes_on(start(d), d, 0, j);
    blank_lines_keep_lists(d, j, i);
    let s = taken(d, i);
    let u = run_unit(s, d, i);
    let l = ticked(read_line(s, d, i), d);
    let before = taken(d, j + 1).output;
    blanks_are_passed(before, s.output, s.output.len() as int);
    assert(s.output[before.len() - 1] == s.output.take(before.len() as int)[before.len() - 1]);
    assert(interrupted(s.output, l, u));
    interrupting_item_keeps_its_kind(s, l, d, u);
    assert(stepped(s, d, i) == Step { state: item_step(s, read_line(s, d, i), d, i), next: i + 1 })
        by {
        reveal(stepped);
    }
    state_goes_on(start(d), d, 0, i);
    run_goes_through(start(d), d, 0, i + 1);
}

} // verus!
