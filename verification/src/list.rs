//! Lists: nesting levels, the indent unit of a run, tabs for indentation, and the
//! renumbering of markers over a stack of open lists.

use vstd::prelude::*;
use crate::classify::{is_list_item_chars, list_item};
use crate::number::{decimal, decimal_of, parse_number, parsed};
use crate::pattern::{
    captures, first_match, group_chars, group_text, is_match, opt_groups, regex_is_match, Span,
};
use crate::spacing::finish_line;
use crate::text::{
    blank, copy, count_char, count_of, count_of_bound, finishes_with_char, has_char,
    has_newline, is_blank, push_all, push_repeat, repeat, same, strip_newlines, to_chars,
    to_string, trim_end_char, trimmed_end_char, with_newline,
};

verus! {

/// A list item in four parts: indent, marker, the space after it, and the content.
pub const LIST_PARTS: &'static str = r"^(\s*)([-*+]|\d+\.)(\s*)(.*)$";

/// The indent and the marker that a line begins with.
pub const LIST_MARKER: &'static str = r"^(\s*)([-*+]|\d+\.)";

/// A marker of a numbered list: digits and a dot.
pub const NUMBERED_MARKER: &'static str = r"^\d+\.$";

/// The whitespace that a line begins with.
pub const LEADING_SPACE: &'static str = r"^(\s*)";

/// The kind of a list.
#[derive(Clone, Copy, Debug, PartialEq, Eq, Structural)]
pub enum ListType {
    Numbered,
    Bulleted,
}

/// An open list: its nesting level, its kind, and the number of its last item.
#[derive(Clone, Copy, Debug)]
pub struct ListContext {
    pub level: usize,
    pub list_type: ListType,
    pub current_number: Option<usize>,
}

/// How many characters of `s` are no tabs.
pub open spec fn spaces_in(s: Seq<char>) -> int {
    s.len() - count_of(s, '\t')
}

/// The nesting level that the indent `indent` stands for: one for each tab, and
/// one for each `unit` of other characters.
pub open spec fn list_level(indent: Seq<char>, unit: usize) -> int {
    count_of(indent, '\t') + spaces_in(indent) / (unit as int)
}

/// The nesting level that the indent `indent` stands for.
pub fn get_list_level_chars(indent: &Vec<char>, indent_unit: usize) -> (r: usize)
    requires
        indent_unit > 0,
    ensures
        r == list_level(indent@, indent_unit),
{
    let tabs = count_char(indent, '\t');
    proof {
        count_of_bound(indent@, '\t');
    }
    let spaces = indent.len() - tabs;
    assert(spaces as int / indent_unit as int <= spaces) by (nonlinear_arith)
        requires
            indent_unit > 0,
            spaces >= 0,
    ;
    tabs + spaces / indent_unit
}

/// The nesting level that the indent `indent_str` stands for.
pub fn get_list_level(indent_str: &str, indent_unit: usize) -> (r: usize)
    requires
        indent_unit > 0,
    ensures
        r == list_level(indent_str@, indent_unit),
{
    get_list_level_chars(&to_chars(indent_str), indent_unit)
}

/// How many characters of whitespace `line` begins with, given what
/// `LEADING_SPACE` found in it.
pub open spec fn indent_width(line: Seq<char>, parts: Option<Seq<Option<Span>>>) -> nat {
    match parts {
        Some(c) => group_text(line, c, 1).len(),
        None => 0,
    }
}

/// How many characters of whitespace `line` begins with, given its leading space.
pub fn measure_indent(line: &Vec<char>, parts: &Option<Vec<Option<Span>>>) -> (r: usize)
    ensures
        r == indent_width(line@, opt_groups(*parts)),
{
    match parts {
        Some(c) => group_chars(line, c, 1).len(),
        None => 0,
    }
}

/// How many characters of whitespace `line` begins with.
pub fn get_list_indent_chars(line: &Vec<char>) -> (r: usize)
    ensures
        r == indent_width(line@, first_match(LEADING_SPACE@, line@)),
{
    let parts = captures(LEADING_SPACE, line);
    measure_indent(line, &parts)
}

/// How many characters of whitespace `line` begins with.
pub fn get_list_indent(line: &str) -> (r: usize)
    ensures
        r == indent_width(line@, first_match(LEADING_SPACE@, line@)),
{
    get_list_indent_chars(&to_chars(line))
}

/// What the detection of the indent unit reads of a line: whether it is a list
/// item, whether it is blank, and how many characters of its indent are no tabs
/// (where it begins with an indent and a marker).
#[derive(Clone, Copy, Debug)]
pub struct ListLine {
    pub item: bool,
    pub blank: bool,
    pub spaces: Option<usize>,
}

/// What the detection of the indent unit reads of `line`.
pub open spec fn list_line(line: Seq<char>) -> ListLine {
    ListLine {
        item: list_item(line),
        blank: is_blank(line),
        spaces: match first_match(LIST_MARKER@, line) {
            Some(c) => Some(spaces_in(group_text(line, c, 1)) as usize),
            None => None,
        },
    }
}

/// What the detection of the indent unit reads of `line`.
pub fn read_list_line(line: &Vec<char>) -> (r: ListLine)
    ensures
        r == list_line(line@),
{
    let spaces = match captures(LIST_MARKER, line) {
        Some(c) => {
            let indent = group_chars(line, &c, 1);
            let tabs = count_char(&indent, '\t');
            proof {
                count_of_bound(indent@, '\t');
            }
            Some(indent.len() - tabs)
        },
        None => None,
    };
    ListLine { item: is_list_item_chars(line), blank: blank(line), spaces }
}

/// What the detection of the indent unit reads of each line.
pub fn read_list_lines(lines: &Vec<Vec<char>>) -> (r: Vec<ListLine>)
    ensures
        r.len() == lines.len(),
        forall|i: int| 0 <= i < lines.len() ==> #[trigger] r@[i] == list_line(lines@[i]@),
{
    let mut r: Vec<ListLine> = Vec::new();
    let mut i: usize = 0;
    while i < lines.len()
        invariant
            i <= lines.len(),
            r.len() == i,
            forall|j: int| 0 <= j < i ==> #[trigger] r@[j] == list_line(lines@[j]@),
        decreases lines.len() - i,
    {
        r.push(read_list_line(&lines[i]));
        i += 1;
    }
    r
}

/// Where the list run round line `start` begins, looking back from line `i`: at
/// the nearest item without spaces in its indent, or just after the nearest line
/// that is no item; at `start` where neither is found.
pub open spec fn run_begin(lines: Seq<ListLine>, start: int, i: int) -> int
    decreases i + 1,
{
    if i < 0 {
        start
    } else if i >= lines.len() {
        run_begin(lines, start, i - 1)
    } else if !lines[i].item {
        i + 1
    } else if lines[i].spaces == Some(0usize) {
        i
    } else {
        run_begin(lines, start, i - 1)
    }
}

/// The indent unit that the lines from `j` on show: that of the first item with
/// two or more spaces in its indent, 4 for four or more and 2 for fewer; 2 where
/// the run ends, at a line that is neither an item nor blank, before such an item.
pub open spec fn unit_from(lines: Seq<ListLine>, j: int) -> usize
    decreases lines.len() - j,
{
    if j < 0 || j >= lines.len() {
        2
    } else if !lines[j].item {
        if !lines[j].blank {
            2
        } else {
            unit_from(lines, j + 1)
        }
    } else if lines[j].spaces is Some && lines[j].spaces->0 >= 2 {
        if lines[j].spaces->0 >= 4 {
            4
        } else {
            2
        }
    } else {
        unit_from(lines, j + 1)
    }
}

/// The indent unit of the list run round line `start`.
pub open spec fn indent_unit(lines: Seq<ListLine>, start: int) -> usize {
    unit_from(lines, run_begin(lines, start, start) + 1)
}

/// The indent unit is 2 or 4.
pub proof fn unit_is_two_or_four(lines: Seq<ListLine>, j: int)
    ensures
        unit_from(lines, j) == 2 || unit_from(lines, j) == 4,
    decreases lines.len() - j,
{
    if 0 <= j < lines.len() {
        unit_is_two_or_four(lines, j + 1);
    }
}

/// The indent unit of the list run round line `start_idx`, from what was read of
/// each line.
pub fn find_indent_unit(lines: &Vec<ListLine>, start_idx: usize) -> (r: usize)
    ensures
        r == indent_unit(lines@, start_idx as int),
        r == 2 || r == 4,
{
    let mut begin: usize = start_idx;
    let mut i: usize = start_idx;
    let mut looking = true;
    while looking
        invariant
            i <= start_idx,
            looking ==> run_begin(lines@, start_idx as int, start_idx as int) == run_begin(
                lines@,
                start_idx as int,
                i as int,
            ),
            !looking ==> begin == run_begin(lines@, start_idx as int, start_idx as int),
            begin <= start_idx + 1,
            begin <= lines.len() || begin == start_idx,
        decreases i + if looking { 1int } else { 0int },
    {
        if i < lines.len() {
            let l = lines[i];
            let flush = match l.spaces {
                Some(n) => n == 0,
                None => false,
            };
            if !l.item {
                begin = i + 1;
                looking = false;
            } else if flush {
                begin = i;
                looking = false;
            }
        }
        if looking {
            assert(run_begin(lines@, start_idx as int, i as int) == run_begin(
                lines@,
                start_idx as int,
                i - 1,
            ));
            if i == 0 {
                assert(run_begin(lines@, start_idx as int, -1) == start_idx);
                begin = start_idx;
                looking = false;
            } else {
                i -= 1;
            }
        }
    }
    proof {
        unit_is_two_or_four(lines@, begin + 1);
    }
    if begin >= lines.len() {
        return 2;
    }
    let mut j: usize = begin + 1;
    while j < lines.len()
        invariant
            begin < j <= lines.len(),
            begin == run_begin(lines@, start_idx as int, start_idx as int),
            unit_from(lines@, begin + 1) == unit_from(lines@, j as int),
        decreases lines.len() - j,
    {
        let l = lines[j];
        if !l.item {
            if !l.blank {
                return 2;
            }
        } else {
            match l.spaces {
                Some(n) => {
                    if n >= 2 {
                        return if n >= 4 { 4 } else { 2 };
                    }
                },
                None => {},
            }
        }
        j += 1;
    }
    2
}

/// The indent unit of the list run round line `start_idx`.
pub fn detect_list_indent_unit(lines: &Vec<String>, start_idx: usize) -> (r: usize)
    ensures
        r == 2 || r == 4,
        r == indent_unit(Seq::new(lines@.len(), |i: int| list_line(lines@[i]@)), start_idx as int),
{
    let mut read: Vec<ListLine> = Vec::new();
    let mut i: usize = 0;
    while i < lines.len()
        invariant
            i <= lines.len(),
            read.len() == i,
            forall|j: int| 0 <= j < i ==> #[trigger] read@[j] == list_line(lines@[j]@),
        decreases lines.len() - i,
    {
        read.push(read_list_line(&to_chars(lines[i].as_str())));
        i += 1;
    }
    assert(read@ =~= Seq::new(lines@.len(), |i: int| list_line(lines@[i]@)));
    find_indent_unit(&read, start_idx)
}

/// The list item `line` with tabs for the spaces of its indent, one for each
/// `unit` of them, and one space after its marker; `parts` is what `LIST_PARTS`
/// found in the line without its line feeds. A line that is no item, or whose
/// indent holds a tab already, stays as it is.
pub open spec fn retabbed(
    line: Seq<char>,
    item: bool,
    parts: Option<Seq<Option<Span>>>,
    unit: usize,
) -> Seq<char> {
    let body = strip_newlines(line);
    if !item || parts is None || group_text(body, parts->0, 1).contains('\t') {
        line
    } else {
        with_newline(
            repeat('\t', (group_text(body, parts->0, 1).len() / (unit as nat)) as nat) + group_text(
                body,
                parts->0,
                2,
            ) + seq![' '] + group_text(body, parts->0, 4),
            has_newline(line),
        )
    }
}

/// The list item `line` with tabs for the spaces of its indent and one space after
/// its marker.
pub open spec fn tabbed(line: Seq<char>, unit: usize) -> Seq<char> {
    retabbed(line, list_item(line), first_match(LIST_PARTS@, strip_newlines(line)), unit)
}

/// Writes tabs for the spaces of an item's indent, given the item's parts.
pub fn retab(line: &Vec<char>, item: bool, parts: &Option<Vec<Option<Span>>>, indent_unit: usize) -> (r:
    Vec<char>)
    requires
        indent_unit > 0,
    ensures
        r@ == retabbed(line@, item, opt_groups(*parts), indent_unit),
{
    if !item {
        return copy(line);
    }
    let body = trimmed_end_char(line, '\n');
    match parts {
        Some(c) => {
            let indent = group_chars(&body, c, 1);
            if has_char(&indent, '\t') {
                return copy(line);
            }
            let mut out: Vec<char> = Vec::new();
            push_repeat(&mut out, '\t', indent.len() / indent_unit);
            let marker = group_chars(&body, c, 2);
            push_all(&mut out, &marker);
            out.push(' ');
            let content = group_chars(&body, c, 4);
            push_all(&mut out, &content);
            assert(out@ =~= repeat('\t', (indent@.len() / (indent_unit as nat)) as nat) + marker@
                + seq![' '] + content@);
            finish_line(out, finishes_with_char(line, '\n'))
        },
        None => copy(line),
    }
}

/// Writes tabs for the spaces of a list item's indent.
pub fn spaces_to_tabs_for_list_chars(line: &Vec<char>, indent_unit: usize) -> (r: Vec<char>)
    requires
        indent_unit > 0,
    ensures
        r@ == tabbed(line@, indent_unit),
{
    let item = is_list_item_chars(line);
    let body = trimmed_end_char(line, '\n');
    let parts = captures(LIST_PARTS, &body);
    retab(line, item, &parts, indent_unit)
}

/// Writes tabs for the spaces of a list item's indent.
pub fn spaces_to_tabs_for_list(line: &str, indent_unit: usize) -> (r: String)
    requires
        indent_unit > 0,
    ensures
        r@ == tabbed(line@, indent_unit),
{
    to_string(&spaces_to_tabs_for_list_chars(&to_chars(line), indent_unit))
}

/// The open lists that stay open at an item of `level`: those no deeper than it.
pub open spec fn keep_upto(stack: Seq<ListContext>, level: usize) -> Seq<ListContext>
    decreases stack.len(),
{
    if stack.len() == 0 {
        Seq::<ListContext>::empty()
    } else if stack.last().level <= level {
        keep_upto(stack.drop_last(), level).push(stack.last())
    } else {
        keep_upto(stack.drop_last(), level)
    }
}

/// The index of the last of the first `n` open lists that has `level`; -1 where
/// none has.
pub open spec fn find_level(stack: Seq<ListContext>, level: usize, n: int) -> int
    decreases n,
{
    if n <= 0 || n > stack.len() {
        -1
    } else if stack[n - 1].level == level {
        n - 1
    } else {
        find_level(stack, level, n - 1)
    }
}

/// The marker of a bulleted item: `*` at level 0, `-` at level 1, `+` below.
pub open spec fn bullet(level: usize) -> Seq<char> {
    if level == 0 {
        seq!['*']
    } else if level == 1 {
        seq!['-']
    } else {
        seq!['+']
    }
}

/// The number after `n`; the greatest number stays.
pub open spec fn following(n: usize) -> usize {
    if n < usize::MAX {
        (n + 1) as usize
    } else {
        n
    }
}

/// The number of the last item of an open list; 0 where it has none.
pub open spec fn number_of(ctx: ListContext) -> usize {
    match ctx.current_number {
        Some(n) => n,
        None => 0,
    }
}

/// The marker of a numbered item.
pub open spec fn numbered(n: usize) -> Seq<char> {
    decimal(n as nat).push('.')
}

/// The open lists after an item at `level`. Deeper lists are closed. An open list
/// at `level` goes on, a numbered one with its next number; where there is none,
/// a list of the item's kind is opened, a numbered one at `seed`.
pub open spec fn stack_after(
    stack: Seq<ListContext>,
    level: usize,
    is_numbered: bool,
    seed: usize,
) -> Seq<ListContext> {
    let kept = keep_upto(stack, level);
    let at = find_level(kept, level, kept.len() as int);
    if at >= 0 {
        match kept[at].list_type {
            ListType::Numbered => kept.update(
                at,
                ListContext {
                    level: kept[at].level,
                    list_type: ListType::Numbered,
                    current_number: Some(following(number_of(kept[at]))),
                },
            ),
            ListType::Bulleted => kept,
        }
    } else if is_numbered {
        kept.push(ListContext { level, list_type: ListType::Numbered, current_number: Some(seed) })
    } else {
        kept.push(ListContext { level, list_type: ListType::Bulleted, current_number: None })
    }
}

/// The marker that an item at `level` is given. In an open list at that level it
/// is the list's next number or the bullet of the level, whatever the item's own
/// marker; in a new list it is `seed` for a numbered item and the bullet of the
/// level for a bulleted one.
pub open spec fn marker_after(
    stack: Seq<ListContext>,
    level: usize,
    is_numbered: bool,
    seed: usize,
) -> Seq<char> {
    let kept = keep_upto(stack, level);
    let at = find_level(kept, level, kept.len() as int);
    if at >= 0 {
        match kept[at].list_type {
            ListType::Numbered => numbered(following(number_of(kept[at]))),
            ListType::Bulleted => bullet(level),
        }
    } else if is_numbered {
        numbered(seed)
    } else {
        bullet(level)
    }
}

/// The marker of a bulleted item at `level`.
pub fn bullet_of(level: usize) -> (r: Vec<char>)
    ensures
        r@ == bullet(level),
{
    let mut r: Vec<char> = Vec::new();
    if level == 0 {
        r.push('*');
    } else if level == 1 {
        r.push('-');
    } else {
        r.push('+');
    }
    r
}

/// The marker of the numbered item `n`.
pub fn numbered_of(n: usize) -> (r: Vec<char>)
    ensures
        r@ == numbered(n),
{
    let mut r = decimal_of(n);
    r.push('.');
    r
}

/// Takes an item at `level` into the open lists and gives its marker.
pub fn advance(stack: &mut Vec<ListContext>, level: usize, is_numbered: bool, seed: usize) -> (r:
    Vec<char>)
    ensures
        final(stack)@ == stack_after(old(stack)@, level, is_numbered, seed),
        r@ == marker_after(old(stack)@, level, is_numbered, seed),
{
    let mut kept: Vec<ListContext> = Vec::new();
    let mut i: usize = 0;
    while i < stack.len()
        invariant
            i <= stack.len(),
            stack@ == old(stack)@,
            kept@ == keep_upto(stack@.take(i as int), level),
        decreases stack.len() - i,
    {
        assert(stack@.take(i + 1).drop_last() =~= stack@.take(i as int));
        if stack[i].level <= level {
            kept.push(stack[i]);
        }
        i += 1;
    }
    assert(stack@.take(stack.len() as int) =~= stack@);
    let mut at: Option<usize> = None;
    let mut n: usize = 0;
    while n < kept.len()
        invariant
            n <= kept.len(),
            match at {
                Some(a) => a == find_level(kept@, level, n as int) && a < n,
                None => find_level(kept@, level, n as int) == -1,
            },
        decreases kept.len() - n,
    {
        if kept[n].level == level {
            at = Some(n);
        }
        n += 1;
    }
    let marker = match at {
        Some(a) => {
            let ctx = kept[a];
            match ctx.list_type {
                ListType::Numbered => {
                    let last = match ctx.current_number {
                        Some(n) => n,
                        None => 0,
                    };
                    let next = if last < usize::MAX { last + 1 } else { last };
                    kept.set(
                        a,
                        ListContext {
                            level: ctx.level,
                            list_type: ListType::Numbered,
                            current_number: Some(next),
                        },
                    );
                    numbered_of(next)
                },
                ListType::Bulleted => bullet_of(level),
            }
        },
        None => {
            if is_numbered {
                kept.push(
                    ListContext {
                        level,
                        list_type: ListType::Numbered,
                        current_number: Some(seed),
                    },
                );
                numbered_of(seed)
            } else {
                kept.push(
                    ListContext { level, list_type: ListType::Bulleted, current_number: None },
                );
                bullet_of(level)
            }
        },
    };
    *stack = kept;
    marker
}

/// The number that a new numbered list starts at: 1, or the number of the item's
/// own marker where starting numbers are kept and the marker's number can be read.
pub open spec fn seed_of(marker: Seq<char>, keep_start: bool) -> usize {
    if keep_start {
        match parsed(trim_end_char(marker, '.')) {
            Some(n) => n,
            None => 1,
        }
    } else {
        1
    }
}

/// Whether `line` takes part in renumbering: it is a list item whose parts were found.
pub open spec fn renumbers(item: bool, parts: Option<Seq<Option<Span>>>) -> bool {
    item && parts is Some
}

/// The nesting level of the item `line`, given its parts.
pub open spec fn item_level(line: Seq<char>, parts: Seq<Option<Span>>, unit: usize) -> usize {
    list_level(group_text(strip_newlines(line), parts, 1), unit) as usize
}

/// The marker that the item `line` is given among the open lists `stack`.
pub open spec fn new_marker(
    line: Seq<char>,
    parts: Seq<Option<Span>>,
    is_numbered: bool,
    stack: Seq<ListContext>,
    unit: usize,
    keep_start: bool,
) -> Seq<char> {
    marker_after(
        stack,
        item_level(line, parts, unit),
        is_numbered,
        seed_of(group_text(strip_newlines(line), parts, 2), keep_start),
    )
}

/// The item `line` with the marker that it is given among the open lists `stack`;
/// a line that takes no part in renumbering stays as it is.
pub open spec fn remarked(
    line: Seq<char>,
    item: bool,
    parts: Option<Seq<Option<Span>>>,
    is_numbered: bool,
    stack: Seq<ListContext>,
    unit: usize,
    keep_start: bool,
) -> Seq<char> {
    let body = strip_newlines(line);
    if renumbers(item, parts) {
        with_newline(
            group_text(body, parts->0, 1) + new_marker(
                line,
                parts->0,
                is_numbered,
                stack,
                unit,
                keep_start,
            ) + group_text(body, parts->0, 3) + group_text(body, parts->0, 4),
            has_newline(line),
        )
    } else {
        line
    }
}

/// Whether renumbering gives the item `line` another marker than it has.
pub open spec fn marker_changes(
    line: Seq<char>,
    item: bool,
    parts: Option<Seq<Option<Span>>>,
    is_numbered: bool,
    stack: Seq<ListContext>,
    unit: usize,
    keep_start: bool,
) -> bool {
    renumbers(item, parts) && group_text(strip_newlines(line), parts->0, 2) != new_marker(
        line,
        parts->0,
        is_numbered,
        stack,
        unit,
        keep_start,
    )
}

/// The open lists after the item `line`; unchanged by a line that takes no part
/// in renumbering.
pub open spec fn lists_after(
    line: Seq<char>,
    item: bool,
    parts: Option<Seq<Option<Span>>>,
    is_numbered: bool,
    stack: Seq<ListContext>,
    unit: usize,
    keep_start: bool,
) -> Seq<ListContext> {
    if renumbers(item, parts) {
        stack_after(
            stack,
            item_level(line, parts->0, unit),
            is_numbered,
            seed_of(group_text(strip_newlines(line), parts->0, 2), keep_start),
        )
    } else {
        stack
    }
}

/// Gives a list item its marker among the open lists, given whether the line is
/// an item, its parts, and whether its own marker is a numbered one.
pub fn remark(
    line: &Vec<char>,
    item: bool,
    parts: &Option<Vec<Option<Span>>>,
    is_numbered: bool,
    list_context_stack: &mut Vec<ListContext>,
    indent_unit: usize,
    skip_list_reset: bool,
) -> (r: (Vec<char>, bool))
    requires
        indent_unit > 0,
    ensures
        r.0@ == remarked(
            line@,
            item,
            opt_groups(*parts),
            is_numbered,
            old(list_context_stack)@,
            indent_unit,
            skip_list_reset,
        ),
        r.1 == marker_changes(
            line@,
            item,
            opt_groups(*parts),
            is_numbered,
            old(list_context_stack)@,
            indent_unit,
            skip_list_reset,
        ),
        final(list_context_stack)@ == lists_after(
            line@,
            item,
            opt_groups(*parts),
            is_numbered,
            old(list_context_stack)@,
            indent_unit,
            skip_list_reset,
        ),
{
    if !item {
        return (copy(line), false);
    }
    let body = trimmed_end_char(line, '\n');
    match parts {
        Some(c) => {
            let indent = group_chars(&body, c, 1);
            let marker = group_chars(&body, c, 2);
            let marker_space = group_chars(&body, c, 3);
            let content = group_chars(&body, c, 4);
            let level = get_list_level_chars(&indent, indent_unit);
            let seed: usize = if skip_list_reset {
                match parse_number(&trimmed_end_char(&marker, '.')) {
                    Some(n) => n,
                    None => 1,
                }
            } else {
                1
            };
            let fresh = advance(list_context_stack, level, is_numbered, seed);
            let changed = !same(&marker, &fresh);
            let mut out = indent;
            push_all(&mut out, &fresh);
            push_all(&mut out, &marker_space);
            push_all(&mut out, &content);
            (finish_line(out, finishes_with_char(line, '\n')), changed)
        },
        None => (copy(line), false),
    }
}

/// Whether the marker of the item `line` is a numbered one, given its parts.
pub open spec fn numbered_item(line: Seq<char>, parts: Option<Seq<Option<Span>>>) -> bool {
    parts is Some && regex_is_match(
        NUMBERED_MARKER@,
        group_text(strip_newlines(line), parts->0, 2),
    )
}

/// The parts of the item `line`.
pub open spec fn item_parts(line: Seq<char>) -> Option<Seq<Option<Span>>> {
    first_match(LIST_PARTS@, strip_newlines(line))
}

/// Gives a list item its marker among the open lists: the next number of its
/// list, or the bullet of its level. Returns the line and whether its marker changed.
pub fn normalize_list_markers_chars(
    line: &Vec<char>,
    list_context_stack: &mut Vec<ListContext>,
    indent_unit: usize,
    skip_list_reset: bool,
) -> (r: (Vec<char>, bool))
    requires
        indent_unit > 0,
    ensures
        r.0@ == remarked(
            line@,
            list_item(line@),
            item_parts(line@),
            numbered_item(line@, item_parts(line@)),
            old(list_context_stack)@,
            indent_unit,
            skip_list_reset,
        ),
        r.1 == marker_changes(
            line@,
            list_item(line@),
            item_parts(line@),
            numbered_item(line@, item_parts(line@)),
            old(list_context_stack)@,
            indent_unit,
            skip_list_reset,
        ),
        final(list_context_stack)@ == lists_after(
            line@,
            list_item(line@),
            item_parts(line@),
            numbered_item(line@, item_parts(line@)),
            old(list_context_stack)@,
            indent_unit,
            skip_list_reset,
        ),
{
    let item = is_list_item_chars(line);
    let body = trimmed_end_char(line, '\n');
    let parts = captures(LIST_PARTS, &body);
    let is_numbered = match &parts {
        Some(c) => is_match(NUMBERED_MARKER, &group_chars(&body, c, 2)),
        None => false,
    };
    remark(line, item, &parts, is_numbered, list_context_stack, indent_unit, skip_list_reset)
}

/// Gives a list item its marker among the open lists.
pub fn normalize_list_markers(
    line: &str,
    list_context_stack: &mut Vec<ListContext>,
    indent_unit: usize,
    skip_list_reset: bool,
) -> (r: (String, bool))
    requires
        indent_unit > 0,
    ensures
        r.0@ == remarked(
            line@,
            list_item(line@),
            item_parts(line@),
            numbered_item(line@, item_parts(line@)),
            old(list_context_stack)@,
            indent_unit,
            skip_list_reset,
        ),
        r.1 == marker_changes(
            line@,
            list_item(line@),
            item_parts(line@),
            numbered_item(line@, item_parts(line@)),
            old(list_context_stack)@,
            indent_unit,
            skip_list_reset,
        ),
        final(list_context_stack)@ == lists_after(
            line@,
            list_item(line@),
            item_parts(line@),
            numbered_item(line@, item_parts(line@)),
            old(list_context_stack)@,
            indent_unit,
            skip_list_reset,
        ),
{
    let (out, changed) = normalize_list_markers_chars(
        &to_chars(line),
        list_context_stack,
        indent_unit,
        skip_list_reset,
    );
    (to_string(&out), changed)
}

/// Whether the open lists stand in order of strictly growing level, so that no
/// level has more than one.
pub open spec fn ordered(stack: Seq<ListContext>) -> bool {
    forall|i: int, j: int| 0 <= i < j < stack.len() ==> stack[i].level < stack[j].level
}

/// Whether each numbered list has a number and no bulleted list has one.
pub open spec fn counted(stack: Seq<ListContext>) -> bool {
    forall|i: int|
        0 <= i < stack.len() ==> ((#[trigger] stack[i]).list_type == ListType::Numbered
            <==> stack[i].current_number is Some)
}

/// Whether the open lists are as they should be: at most one at each level, in
/// order of level, and with a number exactly where the list is numbered.
pub open spec fn well_formed(stack: Seq<ListContext>) -> bool {
    ordered(stack) && counted(stack)
}

/// Whether every open list is shallower than `bound`.
pub open spec fn all_below(stack: Seq<ListContext>, bound: int) -> bool {
    forall|i: int| 0 <= i < stack.len() ==> (#[trigger] stack[i]).level < bound
}

proof fn keep_upto_below(stack: Seq<ListContext>, level: usize, bound: int)
    requires
        all_below(stack, bound),
    ensures
        all_below(keep_upto(stack, level), bound),
        all_below(keep_upto(stack, level), level + 1),
    decreases stack.len(),
{
    if stack.len() > 0 {
        assert(all_below(stack.drop_last(), bound)) by {
            assert forall|i: int| 0 <= i < stack.drop_last().len() implies (
            #[trigger] stack.drop_last()[i]).level < bound by {
                assert(stack.drop_last()[i] == stack[i]);
            }
        }
        keep_upto_below(stack.drop_last(), level, bound);
    }
}

proof fn keep_upto_ordered(stack: Seq<ListContext>, level: usize)
    requires
        ordered(stack),
    ensures
        ordered(keep_upto(stack, level)),
    decreases stack.len(),
{
    if stack.len() > 0 {
        let init = stack.drop_last();
        assert(ordered(init)) by {
            assert forall|i: int, j: int| 0 <= i < j < init.len() implies init[i].level
                < init[j].level by {
                assert(init[i] == stack[i] && init[j] == stack[j]);
            }
        }
        keep_upto_ordered(init, level);
        assert(all_below(init, stack.last().level as int)) by {
            assert forall|i: int| 0 <= i < init.len() implies (#[trigger] init[i]).level
                < stack.last().level by {
                assert(init[i] == stack[i]);
            }
        }
        keep_upto_below(init, level, stack.last().level as int);
    }
}

proof fn keep_upto_all(stack: Seq<ListContext>, level: usize)
    requires
        all_below(stack, level + 1),
    ensures
        keep_upto(stack, level) == stack,
    decreases stack.len(),
{
    if stack.len() > 0 {
        let init = stack.drop_last();
        assert(all_below(init, level + 1)) by {
            assert forall|i: int| 0 <= i < init.len() implies (#[trigger] init[i]).level < level
                + 1 by {
                assert(init[i] == stack[i]);
            }
        }
        keep_upto_all(init, level);
        assert(stack.last() == stack[stack.len() - 1]);
        assert(init.push(stack.last()) =~= stack);
    } else {
        assert(keep_upto(stack, level) =~= stack);
    }
}

proof fn find_level_is_last(stack: Seq<ListContext>, level: usize, n: int)
    requires
        0 <= n <= stack.len(),
    ensures
        -1 <= find_level(stack, level, n) < n,
        find_level(stack, level, n) >= 0 ==> stack[find_level(stack, level, n)].level == level,
        forall|i: int|
            find_level(stack, level, n) < i < n ==> (#[trigger] stack[i]).level != level,
    decreases n,
{
    if n > 0 && stack[n - 1].level != level {
        find_level_is_last(stack, level, n - 1);
    }
}

proof fn keep_upto_counted(stack: Seq<ListContext>, level: usize)
    requires
        counted(stack),
    ensures
        counted(keep_upto(stack, level)),
    decreases stack.len(),
{
    if stack.len() > 0 {
        let init = stack.drop_last();
        assert(counted(init)) by {
            assert forall|i: int| 0 <= i < init.len() implies ((#[trigger] init[i]).list_type
                == ListType::Numbered <==> init[i].current_number is Some) by {
                assert(init[i] == stack[i]);
            }
        }
        keep_upto_counted(init, level);
        assert(stack.last() == stack[stack.len() - 1]);
    }
}

/// An item leaves the open lists as they should be: no level ever has more than
/// one open list, and a list has a number exactly where it is numbered. A
/// document begins with no open list, which is as it should be.
pub proof fn stack_stays_well_formed(
    stack: Seq<ListContext>,
    level: usize,
    is_numbered: bool,
    seed: usize,
)
    requires
        well_formed(stack),
    ensures
        well_formed(stack_after(stack, level, is_numbered, seed)),
        well_formed(Seq::<ListContext>::empty()),
{
    stack_stays_ordered(stack, level, is_numbered, seed);
    keep_upto_counted(stack, level);
    let kept = keep_upto(stack, level);
    let after = stack_after(stack, level, is_numbered, seed);
    find_level_is_last(kept, level, kept.len() as int);
    assert forall|i: int| 0 <= i < after.len() implies ((#[trigger] after[i]).list_type
        == ListType::Numbered <==> after[i].current_number is Some) by {
        if i < kept.len() && i != find_level(kept, level, kept.len() as int) {
            assert(after[i] == kept[i]);
        }
    }
}

/// An item keeps the open lists in order of strictly growing level: no level ever
/// has more than one open list.
pub proof fn stack_stays_ordered(
    stack: Seq<ListContext>,
    level: usize,
    is_numbered: bool,
    seed: usize,
)
    requires
        ordered(stack),
    ensures
        ordered(stack_after(stack, level, is_numbered, seed)),
{
    let kept = keep_upto(stack, level);
    keep_upto_ordered(stack, level);
    assert(all_below(stack, usize::MAX + 1));
    keep_upto_below(stack, level, usize::MAX + 1);
    find_level_is_last(kept, level, kept.len() as int);
    let at = find_level(kept, level, kept.len() as int);
    let after = stack_after(stack, level, is_numbered, seed);
    if at >= 0 {
        assert forall|i: int, j: int| 0 <= i < j < after.len() implies after[i].level
            < after[j].level by {
            assert(after[i].level == kept[i].level && after[j].level == kept[j].level);
        }
    } else {
        assert forall|i: int, j: int| 0 <= i < j < after.len() implies after[i].level
            < after[j].level by {
            if j < kept.len() {
                assert(after[i] == kept[i] && after[j] == kept[j]);
            } else {
                assert(after[i] == kept[i]);
                assert(kept[i].level < level + 1);
                assert(kept[i].level != level);
            }
        }
    }
}

/// A numbered item under open lists that are all shallower opens a list of its
/// own: it is numbered from the seed, whatever numbers the lists above it have
/// reached, and those lists stay as they are.
pub proof fn nested_list_starts_afresh(stack: Seq<ListContext>, level: usize, seed: usize)
    requires
        all_below(stack, level as int),
    ensures
        marker_after(stack, level, true, seed) == numbered(seed),
        marker_after(stack, level, true, 1) == seq!['1', '.'],
        stack_after(stack, level, true, seed) == stack.push(
            ListContext { level, list_type: ListType::Numbered, current_number: Some(seed) },
        ),
{
    keep_upto_all(stack, level);
    find_level_is_last(stack, level, stack.len() as int);
    let at = find_level(stack, level, stack.len() as int);
    if at >= 0 {
        assert(stack[at].level < level);
    }
    assert(decimal(1) =~= seq!['1']);
    assert(numbered(1) =~= seq!['1', '.']);
}

/// After an item at `level`, a list is open at that level, and the next item at
/// the level goes on in it: in a numbered list it is given the number that
/// follows the number just given, whatever its own marker.
pub proof fn next_item_goes_on(
    stack: Seq<ListContext>,
    level: usize,
    is_numbered: bool,
    seed: usize,
    next_is_numbered: bool,
    next_seed: usize,
)
    ensures
        ({
            let after = stack_after(stack, level, is_numbered, seed);
            let at = find_level(after, level, after.len() as int);
            &&& 0 <= at < after.len()
            &&& after[at].level == level
            &&& after[at].list_type == ListType::Numbered ==> marker_after(
                stack,
                level,
                is_numbered,
                seed,
            ) == numbered(number_of(after[at])) && marker_after(
                after,
                level,
                next_is_numbered,
                next_seed,
            ) == numbered(following(number_of(after[at])))
            &&& after[at].list_type == ListType::Bulleted ==> marker_after(
                stack,
                level,
                is_numbered,
                seed,
            ) == bullet(level) && marker_after(after, level, next_is_numbered, next_seed) == bullet(
                level,
            )
        }),
{
    let kept = keep_upto(stack, level);
    assert(all_below(stack, usize::MAX + 1));
    keep_upto_below(stack, level, usize::MAX + 1);
    find_level_is_last(kept, level, kept.len() as int);
    let at0 = find_level(kept, level, kept.len() as int);
    let after = stack_after(stack, level, is_numbered, seed);
    assert(all_below(after, level + 1)) by {
        assert forall|i: int| 0 <= i < after.len() implies (#[trigger] after[i]).level < level
            + 1 by {
            if i < kept.len() {
                assert(after[i].level == kept[i].level);
            }
        }
    }
    keep_upto_all(after, level);
    find_level_is_last(after, level, after.len() as int);
    let at = find_level(after, level, after.len() as int);
    if at0 >= 0 {
        assert(after[at0].level == level);
        assert(at >= at0);
        if at > at0 {
            assert(after[at].level == kept[at].level);
        }
        assert(at == at0);
    } else {
        assert(after[after.len() - 1].level == level);
        assert(at == after.len() - 1);
    }
}

/// Whether no open list has `level`.
pub open spec fn none_at(stack: Seq<ListContext>, level: usize) -> bool {
    forall|i: int| 0 <= i < stack.len() ==> (#[trigger] stack[i]).level != level
}

proof fn keep_upto_none_at(stack: Seq<ListContext>, level: usize, other: usize)
    requires
        none_at(stack, other),
    ensures
        none_at(keep_upto(stack, level), other),
    decreases stack.len(),
{
    if stack.len() > 0 {
        let init = stack.drop_last();
        assert(none_at(init, other)) by {
            assert forall|i: int| 0 <= i < init.len() implies (#[trigger] init[i]).level
                != other by {
                assert(init[i] == stack[i]);
            }
        }
        keep_upto_none_at(init, level, other);
        assert(stack.last() == stack[stack.len() - 1]);
    }
}

/// An item at a level where no list is open opens a list of its own kind, whatever
/// lists are open elsewhere: a numbered item is given the seed, a bulleted item
/// the bullet of its level.
pub proof fn list_opens_with_its_own_marker(
    stack: Seq<ListContext>,
    level: usize,
    is_numbered: bool,
    seed: usize,
)
    requires
        none_at(stack, level),
    ensures
        marker_after(stack, level, is_numbered, seed) == if is_numbered {
            numbered(seed)
        } else {
            bullet(level)
        },
{
    keep_upto_none_at(stack, level, level);
    let kept = keep_upto(stack, level);
    find_level_is_last(kept, level, kept.len() as int);
    let at = find_level(kept, level, kept.len() as int);
    if at >= 0 {
        assert(kept[at].level != level);
    }
}

} // verus!
