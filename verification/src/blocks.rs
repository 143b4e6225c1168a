//! What the pass does with a line outside code: the rules that rewrite the line
//! itself, and the blocks that a line may belong to or begin.

use vstd::prelude::*;
use crate::classify::{
    code_fence, heading, is_code_block_chars, is_headline_chars, is_list_item_chars, list_item,
};
use crate::emoji::{normalize_emoji_names_chars, shortcodes_corrected};
use crate::emphasis::{emphasis_normalized, normalize_bold_italic_chars};
use crate::link_ids::blank_line;
use crate::list::{following, list_line, ListContext, ListLine};

use crate::progress::{
    blank_text, does_text_follow, ends_in_text, on, spaced, text_follows, Options, Progress, State,
};
use crate::spacing::{
    attribute_lists_spaced, definition_spaced, heading_spaced, normalize_blockquote_spacing_chars,
    normalize_headline_spacing_chars, normalize_ial_spacing_chars, normalize_reference_link_chars,
    normalize_trailing_whitespace_chars, quote_spaced, trailing_trimmed,
};
use crate::table::{normalize_table_formatting_chars, table_formatted};
use crate::text::{
    begins_with, blank, copy, finishes_with_char, has_at, has_char, has_newline, is_blank, push_all,
    slice, starts_with, strip_newlines, trim, trim_end, trim_start, trimmed, trimmed_end,
    trimmed_end_char, trimmed_start, views,
};
use crate::typography::{normalize_typography_chars, plain};
use crate::wrap::{get_blockquote_prefix_chars, quote_prefix, wrap_text_chars, wrapped};

verus! {

/// A document under the pass: its lines, what the detection of indent units
/// reads of each, the known shortcode names, and the options.
pub struct Document {
    pub lines: Vec<Vec<char>>,
    pub read: Vec<ListLine>,
    pub names: Vec<Vec<char>>,
    pub options: Options,
}

/// The value of a `Document`.
pub struct Setup {
    pub lines: Seq<Seq<char>>,
    pub names: Seq<Seq<char>>,
    pub skip: Seq<bool>,
    pub wrap_width: usize,
    pub skip_em_dash: bool,
    pub skip_guillemet: bool,
    pub reverse_emphasis: bool,
}

impl View for Document {
    type V = Setup;

    open spec fn view(&self) -> Setup {
        Setup {
            lines: views(self.lines@),
            names: views(self.names@),
            skip: self.options.skip@,
            wrap_width: self.options.wrap_width,
            skip_em_dash: self.options.skip_em_dash,
            skip_guillemet: self.options.skip_guillemet,
            reverse_emphasis: self.options.reverse_emphasis,
        }
    }
}

impl Document {
    /// Whether what was read of the lines is what the lines hold.
    pub open spec fn well_formed(&self) -> bool {
        self.read@.len() == self.lines@.len() && forall|i: int|
            0 <= i < self.lines@.len() ==> #[trigger] self.read@[i] == list_line(self.lines@[i]@)
    }
}

/// `before` after one more rule: the rule's result where the rule is on.
pub open spec fn then_rule(before: Seq<char>, wanted: bool, result: Seq<char>) -> Seq<char> {
    if wanted {
        result
    } else {
        before
    }
}

/// `line` after the rules that rewrite a line by itself: shortcode correction
/// (not inside display math), typography, emphasis, attribute lists, reference
/// definitions; each works on the result of the one before.
pub open spec fn line_rules(line: Seq<char>, in_math_block: bool, d: Setup) -> Seq<char> {
    let a = then_rule(line, on(d.skip, 23) && !in_math_block, shortcodes_corrected(line, d.names));
    let b = then_rule(a, on(d.skip, 24), plain(a, d.skip_em_dash, d.skip_guillemet));
    let c = then_rule(b, on(d.skip, 25), emphasis_normalized(b, d.reverse_emphasis));
    let e = then_rule(c, on(d.skip, 16), attribute_lists_spaced(c));
    then_rule(e, on(d.skip, 18), definition_spaced(e))
}

/// Applies the rules that rewrite a line by itself.
pub fn apply_line_rules(line: Vec<char>, in_math_block: bool, doc: &Document) -> (r: Vec<char>)
    ensures
        r@ == line_rules(line@, in_math_block, doc@),
{
    let mut line = line;
    if doc.options.enabled(23) && !in_math_block {
        line = normalize_emoji_names_chars(&line, &doc.names);
    }
    if doc.options.enabled(24) {
        line = normalize_typography_chars(
            &line,
            doc.options.skip_em_dash,
            doc.options.skip_guillemet,
        );
    }
    if doc.options.enabled(25) {
        line = normalize_bold_italic_chars(&line, doc.options.reverse_emphasis);
    }
    if doc.options.enabled(16) {
        line = normalize_ial_spacing_chars(&line);
    }
    if doc.options.enabled(18) {
        line = normalize_reference_link_chars(&line);
    }
    line
}

/// Whether `line` is a fence of display math: two dollar signs and whitespace.
pub open spec fn math_fence(line: Seq<char>) -> bool {
    trim(line) == seq!['$', '$']
}

/// A fence of display math as it is put out.
pub open spec fn math_fence_text() -> Seq<char> {
    seq!['$', '$', '\n']
}

/// The state after a fence of display math at line `i`: a blank line goes before
/// an opening fence and after a closing one where text stands there; the list
/// run ends.
pub open spec fn math_fence_step(s: State, lines: Seq<Seq<char>>, i: int) -> State {
    if !s.in_math_block {
        State {
            output: spaced(s.output, ends_in_text(s.output)).push(math_fence_text()),
            in_math_block: true,
            blank_run: 0,
            unit: None,
            stack: Seq::<ListContext>::empty(),
            ..s
        }
    } else {
        State {
            output: spaced(s.output.push(math_fence_text()), text_follows(lines, i)),
            in_math_block: false,
            blank_run: 0,
            unit: None,
            stack: Seq::<ListContext>::empty(),
            ..s
        }
    }
}

/// Whether `line` is a fence of display math.
pub fn is_math_fence(line: &Vec<char>) -> (r: bool)
    ensures
        r == math_fence(line@),
{
    let t = trimmed(line);
    let r = t.len() == 2 && t[0] == '$' && t[1] == '$';
    assert(r ==> t@ =~= seq!['$', '$']);
    r
}

/// Takes a fence of display math at line `i`.
pub fn take_math_fence(p: &mut Progress, lines: &Vec<Vec<char>>, i: usize)
    ensures
        final(p)@ == math_fence_step(old(p)@, views(lines@), i as int),
{
    let mut fence: Vec<char> = Vec::new();
    fence.push('$');
    fence.push('$');
    fence.push('\n');
    assert(fence@ =~= math_fence_text());
    p.close_lists();
    p.blank_run = 0;
    if !p.in_math_block {
        let before = p.ends_in_text();
        p.emit_blank(before);
        p.emit(fence);
        p.in_math_block = true;
    } else {
        p.emit(fence);
        p.emit_blank(does_text_follow(lines, i));
        p.in_math_block = false;
    }
}

/// `s` with a line feed at its end.
pub open spec fn line_ended(s: Seq<char>) -> Seq<char> {
    if has_newline(s) {
        s
    } else {
        s.push('\n')
    }
}

/// Whether the line put out last is an opening fence of display math.
pub open spec fn after_math_fence(out: Seq<Seq<char>>) -> bool {
    out.len() > 0 && trim_end(out.last()) == seq!['$', '$']
}

/// Whether the line after line `i` is a fence of display math.
pub open spec fn before_math_fence(lines: Seq<Seq<char>>, i: int) -> bool {
    0 <= i + 1 < lines.len() && math_fence(lines[i + 1])
}

/// What a line inside display math is put out as: the first line without its
/// leading whitespace, else the last line without its trailing whitespace, any
/// other line as it is.
pub open spec fn math_line(s: State, line: Seq<char>, lines: Seq<Seq<char>>, i: int) -> Seq<char> {
    if after_math_fence(s.output) {
        line_ended(trim_start(line))
    } else if before_math_fence(lines, i) {
        line_ended(trim_end(line))
    } else {
        line
    }
}

/// The state after the line `line` inside display math.
pub open spec fn math_line_step(s: State, line: Seq<char>, lines: Seq<Seq<char>>, i: int) -> State {
    State {
        output: s.output.push(math_line(s, line, lines, i)),
        blank_run: 0,
        unit: None,
        stack: Seq::<ListContext>::empty(),
        ..s
    }
}

/// `s` with a line feed at its end.
pub fn end_line(s: Vec<char>) -> (r: Vec<char>)
    ensures
        r@ == line_ended(s@),
{
    let mut s = s;
    if !finishes_with_char(&s, '\n') {
        s.push('\n');
    }
    s
}

/// Takes the line `line` inside display math.
pub fn take_math_line(p: &mut Progress, line: Vec<char>, lines: &Vec<Vec<char>>, i: usize)
    ensures
        final(p)@ == math_line_step(old(p)@, line@, views(lines@), i as int),
{
    let n = p.output.len();
    let first = if n > 0 {
        assert(views(p.output@)[n - 1] == p.output@[n - 1]@);
        let t = trimmed_end(&p.output[n - 1]);
        let r = t.len() == 2 && t[0] == '$' && t[1] == '$';
        assert(r ==> t@ =~= seq!['$', '$']);
        r
    } else {
        false
    };
    let m = lines.len();
    assert(views(lines@).len() == m);
    let last = if i < usize::MAX && i + 1 < lines.len() {
        assert(views(lines@)[i + 1] == lines@[i + 1]@);
        is_math_fence(&lines[i + 1])
    } else {
        false
    };
    let out = if first {
        end_line(trimmed_start(&line))
    } else if last {
        end_line(trimmed_end(&line))
    } else {
        copy(&line)
    };
    p.emit(out);
    p.close_lists();
    p.blank_run = 0;
}

/// The end of the run of table lines that begins at line `j`: the first line that
/// is blank, a code fence, or without a pipe.
pub open spec fn table_end(lines: Seq<Seq<char>>, j: int) -> int
    decreases lines.len() - j,
{
    if 0 <= j < lines.len() && table_line(lines[j]) {
        table_end(lines, j + 1)
    } else {
        j
    }
}

/// The table that the run of table lines at line `i` is formatted to; `None`
/// where the run has fewer than two lines or is no table.
pub open spec fn table_at(lines: Seq<Seq<char>>, i: int) -> Option<Seq<Seq<char>>> {
    if 0 <= i && table_end(lines, i) - i >= 2 && table_end(lines, i) <= lines.len() {
        table_formatted(lines.subrange(i, table_end(lines, i)))
    } else {
        None
    }
}

/// Whether a table is formatted at line `i`, whose text after the line rules is
/// `line`: table formatting is on, the line holds a pipe and is no code fence, no
/// display math is open, and the run of table lines there is a table.
pub open spec fn table_applies(s: State, line: Seq<char>, d: Setup, i: int) -> bool {
    on(d.skip, 22) && trim(line).contains('|') && !code_fence(line) && !s.in_math_block
        && table_at(d.lines, i) is Some
}

/// The state after the table at line `i`: the formatted table is put out in place
/// of the run of table lines; the list run ends.
pub open spec fn table_step(s: State, d: Setup, i: int) -> State {
    State {
        output: s.output + table_at(d.lines, i)->0,
        blank_run: 0,
        unit: None,
        stack: Seq::<ListContext>::empty(),
        ..s
    }
}

/// Whether `line` may be a line of a table: it is not blank, no code fence, and
/// holds a pipe.
pub open spec fn table_line(line: Seq<char>) -> bool {
    !is_blank(line) && !code_fence(line) && trim(line).contains('|')
}

/// Whether `line` may be a line of a table.
pub fn is_table_line(line: &Vec<char>) -> (r: bool)
    ensures
        r == table_line(line@),
{
    !blank(line) && !is_code_block_chars(line) && has_char(&trimmed(line), '|')
}

/// Formats the table at line `i`, if there is one. Returns the index of the line
/// after it.
pub fn take_table(p: &mut Progress, line: &Vec<char>, doc: &Document, i: usize) -> (r: Option<
    usize,
>)
    requires
        i < doc.lines.len(),
    ensures
        match r {
            Some(j) => table_applies(old(p)@, line@, doc@, i as int) && final(p)@ == table_step(
                old(p)@,
                doc@,
                i as int,
            ) && j == table_end(doc@.lines, i as int) && i < j <= doc.lines.len(),
            None => !table_applies(old(p)@, line@, doc@, i as int) && final(p)@ == old(p)@,
        },
{
    let ghost ls = views(doc.lines@);
    if !doc.options.enabled(22) || !has_char(&trimmed(line), '|') || is_code_block_chars(line)
        || p.in_math_block {
        return None;
    }
    let mut run: Vec<Vec<char>> = Vec::new();
    let mut j: usize = i;
    assert(views(run@) =~= ls.subrange(i as int, i as int));
    while j < doc.lines.len() && is_table_line(&doc.lines[j])
        invariant
            i <= j <= doc.lines.len(),
            ls == views(doc.lines@),
            table_end(ls, i as int) == table_end(ls, j as int),
            views(run@) == ls.subrange(i as int, j as int),
        decreases doc.lines.len() - j,
    {
        assert(ls[j as int] == doc.lines@[j as int]@);
        let ghost before = views(run@);
        run.push(copy(&doc.lines[j]));
        assert(views(run@) =~= before.push(doc.lines@[j as int]@));
        assert(views(run@) =~= ls.subrange(i as int, j + 1));
        j += 1;
    }
    assert(j == table_end(ls, i as int)) by {
        if j < doc.lines.len() {
            assert(ls[j as int] == doc.lines@[j as int]@);
        }
    }
    if run.len() < 2 {
        return None;
    }
    match normalize_table_formatting_chars(&run) {
        Some(table) => {
            let ghost tv = views(table@);
            let mut table = table;
            let ghost before = views(p.output@);
            p.output.append(&mut table);
            assert(views(p.output@) =~= before + tv);
            p.blank_run = 0;
            p.close_lists();
            Some(j)
        },
        None => None,
    }
}

/// Whether a blank line goes after the heading at line `i`: the next line is
/// there and is neither blank nor a heading nor a code fence.
pub open spec fn wants_blank_after_heading(lines: Seq<Seq<char>>, i: int) -> bool {
    text_follows(lines, i) && !heading(lines[i + 1]) && !code_fence(lines[i + 1])
}

/// The state after the heading `line` at line `i`: the heading is put out with
/// one space after its hashes and a blank line after it; the list run ends.
pub open spec fn heading_step(s: State, line: Seq<char>, d: Setup, i: int) -> State {
    let spaced_line = if on(d.skip, 4) {
        heading_spaced(line)
    } else {
        line
    };
    let after = on(d.skip, 5) && wants_blank_after_heading(d.lines, i);
    State {
        output: spaced(s.output.push(spaced_line), after),
        unit: None,
        stack: Seq::<ListContext>::empty(),
        blank_run: 0,
        ..s
    }
}

/// Takes the heading `line` at line `i`.
pub fn take_heading(p: &mut Progress, line: Vec<char>, doc: &Document, i: usize)
    ensures
        final(p)@ == heading_step(old(p)@, line@, doc@, i as int),
{
    p.close_lists();
    let out = if doc.options.enabled(4) {
        normalize_headline_spacing_chars(&line)
    } else {
        copy(&line)
    };
    p.emit(out);
    let mut after = false;
    let n = doc.lines.len();
    assert(views(doc.lines@).len() == n);
    if doc.options.enabled(5) && does_text_follow(&doc.lines, i) {
        assert(views(doc.lines@)[i + 1] == doc.lines@[i + 1]@);
        let next = &doc.lines[i + 1];
        after = !is_headline_chars(next) && !is_code_block_chars(next);
    }
    p.emit_blank(after);
    p.blank_run = 0;
}

/// The state after the horizontal rule `line` at line `i`: a blank line goes
/// before and after it where text stands there; the list run ends.
pub open spec fn rule_step(s: State, line: Seq<char>, d: Setup, i: int) -> State {
    let before = on(d.skip, 10) && ends_in_text(s.output);
    let after = on(d.skip, 11) && text_follows(d.lines, i);
    State {
        output: spaced(spaced(s.output, before).push(line), after),
        unit: None,
        stack: Seq::<ListContext>::empty(),
        blank_run: 0,
        ..s
    }
}

/// Takes the horizontal rule `line` at line `i`.
pub fn take_rule(p: &mut Progress, line: Vec<char>, doc: &Document, i: usize)
    ensures
        final(p)@ == rule_step(old(p)@, line@, doc@, i as int),
{
    p.close_lists();
    let before = doc.options.enabled(10) && p.ends_in_text();
    p.emit_blank(before);
    p.emit(line);
    let after = doc.options.enabled(11) && does_text_follow(&doc.lines, i);
    p.emit_blank(after);
    p.blank_run = 0;
}

/// The state after a line that is never re-wrapped: the line is put out as it
/// is; the list run ends.
pub open spec fn kept_step(s: State, line: Seq<char>) -> State {
    State {
        output: s.output.push(line),
        blank_run: 0,
        unit: None,
        stack: Seq::<ListContext>::empty(),
        ..s
    }
}

/// The lines `ws` as they are put out: each with a line feed, the first after
/// `first` and the others after `rest`.
pub open spec fn led_lines(ws: Seq<Seq<char>>, first: Seq<char>, rest: Seq<char>) -> Seq<
    Seq<char>,
> {
    Seq::new(
        ws.len(),
        |k: int|
            (if k == 0 {
                first
            } else {
                rest
            }) + ws[k] + seq!['\n'],
    )
}

/// Puts out the lines `ws`, the first after `first` and the others after `rest`.
pub fn emit_led(p: &mut Progress, ws: &Vec<Vec<char>>, first: &Vec<char>, rest: &Vec<char>)
    ensures
        final(p)@ == (State {
            output: old(p)@.output + led_lines(views(ws@), first@, rest@),
            ..old(p)@
        }),
{
    let ghost start = views(p.output@);
    let mut k: usize = 0;
    assert(start =~= start + led_lines(views(ws@), first@, rest@).take(0));
    while k < ws.len()
        invariant
            k <= ws.len(),
            p@ == (State {
                output: start + led_lines(views(ws@), first@, rest@).take(k as int),
                ..old(p)@
            }),
            start == old(p)@.output,
        decreases ws.len() - k,
    {
        let mut l = if k == 0 {
            copy(first)
        } else {
            copy(rest)
        };
        push_all(&mut l, &ws[k]);
        l.push('\n');
        assert(l@ =~= led_lines(views(ws@), first@, rest@)[k as int]);
        p.emit(l);
        assert(start + led_lines(views(ws@), first@, rest@).take(k as int).push(l@) =~= start
            + led_lines(views(ws@), first@, rest@).take(k + 1));
        k += 1;
    }
    assert(led_lines(views(ws@), first@, rest@).take(ws.len() as int) =~= led_lines(
        views(ws@),
        first@,
        rest@,
    ));
}

/// What follows the marker of the quote `line`, without leading whitespace.
pub open spec fn quote_content(line: Seq<char>) -> Seq<char> {
    if quote_prefix(line).len() <= line.len() {
        trim_start(line.skip(quote_prefix(line).len() as int))
    } else {
        Seq::<char>::empty()
    }
}

/// A wrapped line of a quote as it is put out: without line feeds of its own,
/// after the quote's marker and a space unless it begins with them already, and
/// with a line feed.
pub open spec fn quoted(w: Seq<char>, prefix: Seq<char>) -> Seq<char> {
    if starts_with(strip_newlines(w), prefix.push(' ')) {
        strip_newlines(w).push('\n')
    } else {
        prefix.push(' ') + strip_newlines(w).push('\n')
    }
}

/// Whether the line `line` is wrapped: wrapping is on, the line has content
/// `content`, and without its trailing whitespace it is longer than the width.
pub open spec fn wraps(line: Seq<char>, content: Seq<char>, d: Setup) -> bool {
    on(d.skip, 14) && content.len() > 0 && trim_end(line).len() > d.wrap_width
}

/// The state after the quote `line`: the quote is put out with a space after its
/// marker, wrapped where it is too long, each line after the marker; the list
/// run ends.
pub open spec fn quote_step(s: State, line: Seq<char>, d: Setup) -> State {
    let q = if on(d.skip, 20) {
        quote_spaced(line)
    } else {
        line
    };
    let ws = wrapped(quote_content(q), d.wrap_width, quote_prefix(q).push(' '));
    State {
        output: if wraps(q, quote_content(q), d) {
            s.output + Seq::new(ws.len(), |k: int| quoted(ws[k], quote_prefix(q)))
        } else {
            s.output.push(q)
        },
        blank_run: 0,
        unit: None,
        stack: Seq::<ListContext>::empty(),
        ..s
    }
}

/// Takes the quote `line`.
pub fn take_quote(p: &mut Progress, line: Vec<char>, doc: &Document)
    ensures
        final(p)@ == quote_step(old(p)@, line@, doc@),
{
    p.close_lists();
    p.blank_run = 0;
    let q = if doc.options.enabled(20) {
        normalize_blockquote_spacing_chars(&line)
    } else {
        copy(&line)
    };
    let prefix = get_blockquote_prefix_chars(&q);
    let content = if prefix.len() <= q.len() {
        trimmed_start(&slice(&q, prefix.len(), q.len()))
    } else {
        Vec::new()
    };
    if doc.options.enabled(14) && content.len() > 0 && trimmed_end(&q).len()
        > doc.options.wrap_width {
        let mut lead = copy(&prefix);
        lead.push(' ');
        let ws = wrap_text_chars(&content, doc.options.wrap_width, &lead);
        let ghost start = views(p.output@);
        let ghost target = Seq::new(ws.len() as nat, |k: int| quoted(views(ws@)[k], prefix@));
        let mut k: usize = 0;
        assert(start =~= start + target.take(0));
        while k < ws.len()
            invariant
                k <= ws.len(),
                lead@ == prefix@.push(' '),
                target == Seq::new(ws.len() as nat, |k: int| quoted(views(ws@)[k], prefix@)),
                p@ == (State {
                    output: start + target.take(k as int),
                    blank_run: 0,
                    unit: None,
                    stack: Seq::<ListContext>::empty(),
                    ..old(p)@
                }),
            decreases ws.len() - k,
        {
            assert(views(ws@)[k as int] == ws@[k as int]@);
            let w = trimmed_end_char(&ws[k], '\n');
            let mut l: Vec<char> = Vec::new();
            if !has_at(&w, 0, &lead) {
                push_all(&mut l, &lead);
            }
            assert(w@.skip(0) =~= w@);
            push_all(&mut l, &w);
            l.push('\n');
            assert(l@ =~= target[k as int]);
            p.emit(l);
            assert(start + target.take(k as int).push(l@) =~= start + target.take(k + 1));
            k += 1;
        }
        assert(target.take(ws.len() as int) =~= target);
    } else {
        p.emit(q);
    }
}

/// Whether a blank line goes before a paragraph: what was put out ends with a
/// fence of backticks or with a list item.
pub open spec fn wants_blank_before_text(out: Seq<Seq<char>>) -> bool {
    ends_in_text(out) && (starts_with(trim(out.last()), "```"@) || list_item(out.last()))
}

/// The state after the line `line` of a paragraph: the line is put out without
/// trailing whitespace, wrapped where it is too long; a blank line goes before it
/// after a code block or a list; the list run ends.
pub open spec fn text_step(s: State, line: Seq<char>, d: Setup) -> State {
    let before = wants_blank_before_text(s.output);
    let t = if on(d.skip, 2) {
        trailing_trimmed(line)
    } else {
        line
    };
    let wrap = on(d.skip, 14) && trim_end(t).len() > d.wrap_width;
    State {
        output: if wrap {
            spaced(s.output, before) + led_lines(
                wrapped(trim(t), d.wrap_width, Seq::<char>::empty()),
                Seq::<char>::empty(),
                Seq::<char>::empty(),
            )
        } else {
            spaced(s.output, before).push(t)
        },
        unit: None,
        stack: Seq::<ListContext>::empty(),
        blank_run: 0,
        ..s
    }
}

/// Takes the line `line` of a paragraph.
pub fn take_text(p: &mut Progress, line: Vec<char>, doc: &Document)
    ensures
        final(p)@ == text_step(old(p)@, line@, doc@),
{
    p.close_lists();
    let mut before = false;
    if p.ends_in_text() {
        let n = p.output.len();
        assert(views(p.output@)[n - 1] == p.output@[n - 1]@);
        let last = &p.output[n - 1];
        before = begins_with(&trimmed(last), "```") || is_list_item_chars(last);
    }
    p.emit_blank(before);
    let t = if doc.options.enabled(2) {
        normalize_trailing_whitespace_chars(&line)
    } else {
        copy(&line)
    };
    if doc.options.enabled(14) && trimmed_end(&t).len() > doc.options.wrap_width {
        let nothing: Vec<char> = Vec::new();
        assert(nothing@ =~= Seq::<char>::empty());
        let ws = wrap_text_chars(&trimmed(&t), doc.options.wrap_width, &nothing);
        emit_led(p, &ws, &nothing, &nothing);
    } else {
        p.emit(t);
    }
    p.blank_run = 0;
}

/// The state after a blank line: one blank line is put out for a run of them;
/// with the rule off, one for each.
pub open spec fn blank_step(s: State, d: Setup) -> State {
    if on(d.skip, 3) {
        if following(s.blank_run) <= 1 {
            State {
                output: s.output.push(blank_text()),
                blank_run: following(s.blank_run),
                ..s
            }
        } else {
            State { blank_run: following(s.blank_run), ..s }
        }
    } else {
        State { output: s.output.push(blank_text()), blank_run: 0, ..s }
    }
}

/// Takes a blank line.
pub fn take_blank(p: &mut Progress, doc: &Document)
    ensures
        final(p)@ == blank_step(old(p)@, doc@),
{
    if doc.options.enabled(3) {
        if p.blank_run < usize::MAX {
            p.blank_run = p.blank_run + 1;
        }
        if p.blank_run <= 1 {
            p.emit(blank_line());
        } else {
        }
    } else {
        p.emit(blank_line());
        p.blank_run = 0;
    }
}

} // verus!
