//! The pass over a document: each line is taken in turn by the rule that it
//! belongs to, then the links are converted and the end of the document is set.

use std::collections::HashSet;
use vstd::prelude::*;
use crate::blocks::{
    apply_line_rules, blank_step, heading_step, is_math_fence, kept_step, line_rules,
    math_fence, math_fence_step, math_line_step, quote_step, rule_step, table_applies,
    table_end, table_step, take_blank, take_heading, take_math_fence, take_math_line,
    take_quote, take_rule, take_table, take_text, text_step, Document, Setup,
};
use crate::classify::{
    blockquote, code_fence, heading, horizontal_rule, is_blockquote_chars, is_code_block_chars,
    is_headline_chars, is_horizontal_rule_chars, is_list_item_chars, list_item, preserved,
    should_preserve_line_chars,
};
use crate::emoji::{valid_emoji_names_set, vocabulary};
use crate::items::{item_keeps_state, item_step, take_item, unit_ok};
use crate::link_convert::{convert_links_in_document_chars, links_converted};
use crate::link_ids::{blank_line, front_matter_fence, is_front_matter_fence, unblank_end};
use crate::list::{read_list_lines, well_formed, ListContext};
use crate::math::{math_spaced, normalize_math_spacing_chars};
use crate::progress::{
    blank_text, code_step, fence_step, front_matter_step, normalize_line_ending,
    on, options_for, take_code, take_fence, take_front_matter, unix_ending, without_blank_end,
    Options, Progress, State,
};
use crate::text::{
    is_space, skip_spaces, blank, concat, concat_all, copy, is_blank, same, split, split_on,
    to_chars, to_string, views,
};

verus! {

/// Line `i` of the document with the line ending that the pass gives it.
pub open spec fn ended(d: Setup, i: int) -> Seq<char> {
    if on(d.skip, 1) {
        unix_ending(d.lines[i])
    } else {
        d.lines[i]
    }
}

/// A step of the pass: the state after it, and the index of the line that the
/// pass goes on with.
pub struct Step {
    pub state: State,
    pub next: int,
}

/// The step that a line outside front matter, code and display math takes: the
/// line, with the spacing inside its math normalized, belongs to a table, or is a
/// heading, a horizontal rule, a line that is kept, a list item, a quote, text,
/// or blank; the first of these that applies takes it.
pub open spec fn plain_step(s: State, line: Seq<char>, d: Setup, i: int) -> Step {
    if table_applies(s, line, d, i) {
        Step { state: table_step(s, d, i), next: table_end(d.lines, i) }
    } else if heading(line) {
        Step { state: heading_step(s, line, d, i), next: i + 1 }
    } else if horizontal_rule(line) {
        Step { state: rule_step(s, line, d, i), next: i + 1 }
    } else if preserved(line) {
        Step { state: kept_step(s, line), next: i + 1 }
    } else if list_item(line) {
        Step { state: item_step(s, line, d, i), next: i + 1 }
    } else if blockquote(line) {
        Step { state: quote_step(s, line, d), next: i + 1 }
    } else if !is_blank(line) {
        Step { state: text_step(s, line, d), next: i + 1 }
    } else {
        Step { state: blank_step(s, d), next: i + 1 }
    }
}

/// The step that a line outside front matter and code takes: after the rules that
/// rewrite a line by itself, the line is a fence of display math, a line inside
/// display math, or a line that `plain_step` takes.
pub open spec fn prose_step(s: State, line: Seq<char>, d: Setup, i: int) -> Step {
    let r = line_rules(line, s.in_math_block, d);
    if on(d.skip, 21) && math_fence(r) {
        Step { state: math_fence_step(s, d.lines, i), next: i + 1 }
    } else if on(d.skip, 21) && s.in_math_block {
        Step { state: math_line_step(s, r, d.lines, i), next: i + 1 }
    } else if on(d.skip, 21) {
        plain_step(s, math_spaced(r, false), d, i)
    } else {
        plain_step(s, r, d, i)
    }
}

/// The step that line `i` takes: with its line ending set, it belongs to the
/// front matter, is a code fence, belongs to a fenced code block, or is a line
/// that `prose_step` takes.
pub open spec fn step(s: State, d: Setup, i: int) -> Step {
    let line = ended(d, i);
    if s.in_frontmatter {
        Step { state: front_matter_step(s, line, i), next: i + 1 }
    } else if code_fence(line) {
        Step { state: fence_step(s, line, d.lines, i, d.skip), next: i + 1 }
    } else if s.in_code_block {
        Step { state: code_step(s, line), next: i + 1 }
    } else {
        prose_step(s, line, d, i)
    }
}

/// The step that line `i` takes; `step` under another name, to be looked into
/// only where that is wanted.
#[verifier::opaque]
pub open spec fn stepped(s: State, d: Setup, i: int) -> Step {
    step(s, d, i)
}

/// The state after the lines from `i` on.
pub open spec fn run(s: State, d: Setup, i: int) -> State
    decreases d.lines.len() - i,
{
    if i < 0 || i >= d.lines.len() {
        s
    } else if stepped(s, d, i).next <= i || stepped(s, d, i).next > d.lines.len() {
        stepped(s, d, i).state
    } else {
        run(stepped(s, d, i).state, d, stepped(s, d, i).next)
    }
}

/// The state before the first line: nothing is put out, and front matter is open
/// where the document begins with its fence.
pub open spec fn start(d: Setup) -> State {
    State {
        output: Seq::<Seq<char>>::empty(),
        in_code_block: false,
        in_math_block: false,
        in_frontmatter: d.lines.len() > 0 && front_matter_fence(d.lines[0]),
        blank_run: 0,
        unit: None,
        stack: Seq::<ListContext>::empty(),
    }
}

/// Takes a line outside front matter, code and display math.
pub fn take_plain(p: &mut Progress, line: Vec<char>, doc: &Document, i: usize) -> (r: usize)
    requires
        doc.well_formed(),
        unit_ok(old(p)@),
        i < doc.lines.len(),
    ensures
        final(p)@ == plain_step(old(p)@, line@, doc@, i as int).state,
        r == plain_step(old(p)@, line@, doc@, i as int).next,
        i < r <= doc.lines.len(),
        unit_ok(final(p)@),
{
    match take_table(p, &line, doc, i) {
        Some(j) => {
            return j;
        },
        None => {},
    }
    if is_headline_chars(&line) {
        take_heading(p, line, doc, i);
    } else if is_horizontal_rule_chars(&line) {
        take_rule(p, line, doc, i);
    } else if should_preserve_line_chars(&line) {
        p.emit(line);
        p.close_lists();
        p.blank_run = 0;
    } else if is_list_item_chars(&line) {
        take_item(p, line, doc, i);
    } else if is_blockquote_chars(&line) {
        take_quote(p, line, doc);
    } else if !blank(&line) {
        take_text(p, line, doc);
    } else {
        take_blank(p, doc);
    }
    i + 1
}

/// Takes a line outside front matter and code.
pub fn take_prose(p: &mut Progress, line: Vec<char>, doc: &Document, i: usize) -> (r: usize)
    requires
        doc.well_formed(),
        unit_ok(old(p)@),
        i < doc.lines.len(),
    ensures
        final(p)@ == prose_step(old(p)@, line@, doc@, i as int).state,
        r == prose_step(old(p)@, line@, doc@, i as int).next,
        i < r <= doc.lines.len(),
        unit_ok(final(p)@),
{
    let line = apply_line_rules(line, p.in_math_block, doc);
    if doc.options.enabled(21) {
        if is_math_fence(&line) {
            take_math_fence(p, &doc.lines, i);
            i + 1
        } else if p.in_math_block {
            take_math_line(p, line, &doc.lines, i);
            i + 1
        } else {
            let spaced = normalize_math_spacing_chars(&line, false);
            take_plain(p, spaced, doc, i)
        }
    } else {
        take_plain(p, line, doc, i)
    }
}

/// Takes line `i`. Returns the index of the line that the pass goes on with.
pub fn take_line(p: &mut Progress, doc: &Document, i: usize) -> (r: usize)
    requires
        doc.well_formed(),
        unit_ok(old(p)@),
        i < doc.lines.len(),
    ensures
        final(p)@ == step(old(p)@, doc@, i as int).state,
        r == step(old(p)@, doc@, i as int).next,
        i < r <= doc.lines.len(),
        unit_ok(final(p)@),
{
    assert(views(doc.lines@)[i as int] == doc.lines@[i as int]@);
    let line = if doc.options.enabled(1) {
        normalize_line_ending(&doc.lines[i])
    } else {
        copy(&doc.lines[i])
    };
    if p.in_frontmatter {
        take_front_matter(p, line, i);
        i + 1
    } else if is_code_block_chars(&line) {
        take_fence(p, line, &doc.lines, i, &doc.options);
        i + 1
    } else if p.in_code_block {
        take_code(p, line);
        i + 1
    } else {
        take_prose(p, line, doc, i)
    }
}

/// Whether all links become inline links.
pub open spec fn wants_inline(skip: Seq<bool>) -> bool {
    on(skip, 30)
}

/// Whether inline links become reference links: inline links are not asked for,
/// and reference links or their place at the end are.
pub open spec fn wants_reference(skip: Seq<bool>) -> bool {
    !on(skip, 30) && (on(skip, 29) || on(skip, 28))
}

/// Whether the definitions go to the beginning: reference links are asked for,
/// and their place at the end is not.
pub open spec fn wants_beginning(skip: Seq<bool>) -> bool {
    !on(skip, 30) && !on(skip, 29) && on(skip, 28)
}

/// The lines with one blank line at their end; nothing for nothing but blank lines.
pub open spec fn end_set(out: Seq<Seq<char>>) -> Seq<Seq<char>> {
    if without_blank_end(out).len() > 0 {
        without_blank_end(out).push(blank_text())
    } else {
        without_blank_end(out)
    }
}

/// The lines that the pass puts out for the state after the last line: the links
/// are converted as the rules ask, and one blank line is set at the end.
pub open spec fn finished(s: State, skip: Seq<bool>) -> Seq<Seq<char>> {
    let linked = if wants_inline(skip) || wants_reference(skip) {
        links_converted(s.output, wants_inline(skip), wants_reference(skip), wants_beginning(skip))
    } else {
        s.output
    };
    if on(skip, 15) {
        end_set(linked)
    } else {
        linked
    }
}

/// The lines that the pass over a document puts out.
pub open spec fn processed(d: Setup) -> Seq<Seq<char>> {
    finished(run(start(d), d, 0), d.skip)
}

/// Converts the links and sets the end of the document.
pub fn finish(p: Progress, options: &Options) -> (r: Vec<Vec<char>>)
    ensures
        views(r@) == finished(p@, options.skip@),
{
    let mut p = p;
    let use_inline = options.enabled(30);
    let use_reference = !use_inline && (options.enabled(29) || options.enabled(28));
    let at_beginning = !use_inline && !options.enabled(29) && options.enabled(28);
    if use_inline || use_reference {
        convert_links_in_document_chars(&mut p.output, use_inline, use_reference, at_beginning);
    }
    if options.enabled(15) {
        p.drop_blank_end();
        if p.output.len() > 0 {
            p.emit(blank_line());
        }
    }
    p.output
}

/// The document that the pass is run over for lines, names and options.
pub open spec fn setup_of(lines: Seq<Seq<char>>, names: Seq<Seq<char>>, options: Options) -> Setup {
    Setup {
        lines,
        names,
        skip: options.skip@,
        wrap_width: options.wrap_width,
        skip_em_dash: options.skip_em_dash,
        skip_guillemet: options.skip_guillemet,
        reverse_emphasis: options.reverse_emphasis,
    }
}

/// Runs the pass over the lines of a document, each with its line ending. Returns
/// the lines that it puts out, and whether the text of the document was altered:
/// whether the lines put out, taken together, are another text than the lines
/// that went in.
pub fn process_lines(lines: Vec<Vec<char>>, names: Vec<Vec<char>>, options: Options) -> (r: (
    Vec<Vec<char>>,
    bool,
))
    ensures
        views(r.0@) == processed(setup_of(views(lines@), views(names@), options)),
        r.1 == (concat(views(r.0@)) != concat(views(lines@))),
{
    let before = concat_all(&lines);
    let read = read_list_lines(&lines);
    let doc = Document { lines, read, names, options };
    let in_frontmatter = if doc.lines.len() > 0 {
        assert(views(doc.lines@)[0] == doc.lines@[0]@);
        is_front_matter_fence(&doc.lines[0])
    } else {
        false
    };
    let mut p = Progress {
        output: Vec::new(),
        in_code_block: false,
        in_math_block: false,
        in_frontmatter,
        blank_run: 0,
        unit: None,
        stack: Vec::new(),
    };
    assert(p@.output =~= Seq::<Seq<char>>::empty());
    assert(p@ == start(doc@));
    let mut i: usize = 0;
    while i < doc.lines.len()
        invariant
            i <= doc.lines.len(),
            doc.well_formed(),
            unit_ok(p@),
            run(p@, doc@, i as int) == run(start(doc@), doc@, 0),
        decreases doc.lines.len() - i,
    {
        proof {
            reveal(stepped);
        }
        i = take_line(&mut p, &doc, i);
    }
    let out = finish(p, &doc.options);
    let changed = !same(&concat_all(&out), &before);
    (out, changed)
}

/// The lines of `content`, each with the line feed that ends it; the last line
/// may have none, and an empty last line does not count.
pub open spec fn lines_of(content: Seq<char>) -> Seq<Seq<char>> {
    let pieces = split_on(content, '\n');
    Seq::new(
        if pieces.last().len() == 0 {
            (pieces.len() - 1) as nat
        } else {
            pieces.len()
        },
        |k: int|
            if k < pieces.len() - 1 {
                pieces[k].push('\n')
            } else {
                pieces[k]
            },
    )
}

/// The lines of `content`, each with the line feed that ends it.
pub fn split_lines(content: &Vec<char>) -> (r: Vec<Vec<char>>)
    ensures
        views(r@) == lines_of(content@),
{
    let pieces = split(content, '\n');
    let ghost ps = views(pieces@);
    let n = pieces.len();
    assert(ps[n - 1] == pieces@[n - 1]@);
    let whole: usize = if pieces[n - 1].len() == 0 { n - 1 } else { n };
    let mut r: Vec<Vec<char>> = Vec::new();
    let mut k: usize = 0;
    while k < whole
        invariant
            k <= whole <= n,
            n == pieces.len(),
            ps == views(pieces@),
            r.len() == k,
            forall|q: int|
                0 <= q < k ==> (#[trigger] r@[q])@ == if q < n - 1 {
                    ps[q].push('\n')
                } else {
                    ps[q]
                },
        decreases whole - k,
    {
        assert(ps[k as int] == pieces@[k as int]@);
        let mut line = copy(&pieces[k]);
        if k < n - 1 {
            line.push('\n');
        }
        r.push(line);
        k += 1;
    }
    assert(views(r@) =~= lines_of(content@));
    r
}

/// The document that the pass is run over for a text and its options.
pub open spec fn setup_for(
    content: Seq<char>,
    wrap_width: usize,
    skip_rules: Set<u8>,
    skip_em_dash: bool,
    skip_guillemet: bool,
    reverse_emphasis: bool,
) -> Setup {
    Setup {
        lines: lines_of(content),
        names: vocabulary(),
        skip: Seq::new(31, |n: int| skip_rules.contains(n as u8)),
        wrap_width,
        skip_em_dash,
        skip_guillemet,
        reverse_emphasis,
    }
}

/// Normalizes the markdown text `content`: returns the text that the pass puts
/// out, and whether that is another text than `content`. The rules whose numbers
/// are in `skip_rules` are switched off.
pub fn process_content(
    content: &str,
    wrap_width: usize,
    skip_rules: &HashSet<u8>,
    skip_em_dash: bool,
    skip_guillemet: bool,
    reverse_emphasis: bool,
) -> (r: (String, bool))
    ensures
        r.0@ == concat(
            processed(
                setup_for(
                    content@,
                    wrap_width,
                    skip_rules@,
                    skip_em_dash,
                    skip_guillemet,
                    reverse_emphasis,
                ),
            ),
        ),
        r.1 == (r.0@ != content@),
{
    let text = to_chars(content);
    let lines = split_lines(&text);
    let names = valid_emoji_names_set();
    let options = options_for(
        skip_rules,
        wrap_width,
        skip_em_dash,
        skip_guillemet,
        reverse_emphasis,
    );
    assert(options.skip@ =~= Seq::new(31, |n: int| skip_rules@.contains(n as u8)));
    let out = concat_all(&process_lines(lines, names, options).0);
    let changed = !same(&out, &text);
    (to_string(&out), changed)
}

/// Whether the open lists are well formed.
#[verifier::opaque]
pub open spec fn lists_ok(stack: Seq<ListContext>) -> bool {
    well_formed(stack)
}

/// Whether a state is as it should be: of front matter, a fenced code block and
/// display math at most one is open; the indent unit of the list run at hand is 2
/// or 4; and the open lists are well formed.
pub open spec fn sound(s: State) -> bool {
    &&& !(s.in_frontmatter && s.in_code_block)
    &&& !(s.in_frontmatter && s.in_math_block)
    &&& !(s.in_code_block && s.in_math_block)
    &&& unit_ok(s)
    &&& lists_ok(s.stack)
}

proof fn no_lists_ok()
    ensures
        lists_ok(Seq::<ListContext>::empty()),
{
    reveal(lists_ok);
}

proof fn item_keeps_sound(s: State, line: Seq<char>, d: Setup, i: int)
    requires
        sound(s),
    ensures
        sound(item_step(s, line, d, i)),
{
    reveal(lists_ok);
    item_keeps_state(s, line, d, i);
}

proof fn plain_keeps_sound(s: State, line: Seq<char>, d: Setup, i: int)
    requires
        sound(s),
    ensures
        sound(plain_step(s, line, d, i).state),
{
    no_lists_ok();
    if !table_applies(s, line, d, i) && !heading(line) && !horizontal_rule(line) && !preserved(
        line,
    ) && list_item(line) {
        item_keeps_sound(s, line, d, i);
    }
}

proof fn prose_keeps_sound(s: State, line: Seq<char>, d: Setup, i: int)
    requires
        sound(s),
        !s.in_frontmatter,
        !s.in_code_block,
    ensures
        sound(prose_step(s, line, d, i).state),
{
    no_lists_ok();
    let r = line_rules(line, s.in_math_block, d);
    if on(d.skip, 21) && math_fence(r) {
    } else if on(d.skip, 21) && s.in_math_block {
    } else if on(d.skip, 21) {
        plain_keeps_sound(s, math_spaced(r, false), d, i);
    } else {
        plain_keeps_sound(s, r, d, i);
    }
}

/// The pass begins in a state that is as it should be.
pub proof fn start_is_sound(d: Setup)
    ensures
        sound(start(d)),
{
    no_lists_ok();
}

/// A step keeps the state as it should be.
pub proof fn step_keeps_sound(s: State, d: Setup, i: int)
    requires
        sound(s),
        0 <= i < d.lines.len(),
    ensures
        sound(step(s, d, i).state),
        sound(stepped(s, d, i).state),
{
    reveal(stepped);
    no_lists_ok();
    let line = ended(d, i);
    if !s.in_frontmatter && !code_fence(line) && !s.in_code_block {
        prose_keeps_sound(s, line, d, i);
    }
}

/// The pass ends in a state that is as it should be.
pub proof fn run_keeps_sound(s: State, d: Setup, i: int)
    requires
        sound(s),
    ensures
        sound(run(s, d, i)),
    decreases d.lines.len() - i,
{
    if 0 <= i < d.lines.len() {
        step_keeps_sound(s, d, i);
        let after = stepped(s, d, i);
        if i < after.next <= d.lines.len() {
            run_keeps_sound(after.state, d, after.next);
        }
    }
}

/// The pieces of a text before the last, each with a line feed, taken together.
pub open spec fn ended_pieces(pieces: Seq<Seq<char>>, n: int) -> Seq<char>
    decreases n,
{
    if n <= 0 || n > pieces.len() {
        Seq::<char>::empty()
    } else {
        ended_pieces(pieces, n - 1) + pieces[n - 1].push('\n')
    }
}

proof fn ended_pieces_of_same(a: Seq<Seq<char>>, b: Seq<Seq<char>>, n: int)
    requires
        0 <= n <= a.len(),
        n <= b.len(),
        forall|k: int| 0 <= k < n ==> a[k] == b[k],
    ensures
        ended_pieces(a, n) == ended_pieces(b, n),
    decreases n,
{
    if n > 0 {
        ended_pieces_of_same(a, b, n - 1);
    }
}

proof fn pieces_make_the_text(content: Seq<char>)
    ensures
        split_on(content, '\n').len() >= 1,
        ended_pieces(split_on(content, '\n'), split_on(content, '\n').len() - 1) + split_on(
            content,
            '\n',
        ).last() == content,
    decreases content.len(),
{
    let pieces = split_on(content, '\n');
    if content.len() == 0 {
        assert(ended_pieces(pieces, 0) + pieces.last() =~= content);
    } else {
        let rest = split_on(content.drop_last(), '\n');
        pieces_make_the_text(content.drop_last());
        let m = rest.len() - 1;
        if content.last() == '\n' {
            ended_pieces_of_same(pieces, rest, m);
            assert(pieces[m] == rest.last());
            assert(ended_pieces(pieces, m + 1) + pieces.last() =~= (ended_pieces(rest, m)
                + rest.last()).push('\n'));
        } else {
            ended_pieces_of_same(pieces, rest, m);
            assert(ended_pieces(pieces, m) + pieces.last() =~= (ended_pieces(rest, m)
                + rest.last()).push(content.last()));
        }
        assert(content.drop_last().push(content.last()) =~= content);
    }
}

proof fn concat_of_ended(lines: Seq<Seq<char>>, pieces: Seq<Seq<char>>, n: int)
    requires
        0 <= n <= lines.len(),
        n <= pieces.len(),
        forall|k: int| 0 <= k < n ==> #[trigger] lines[k] == pieces[k].push('\n'),
    ensures
        concat(lines.take(n)) == ended_pieces(pieces, n),
    decreases n,
{
    if n > 0 {
        concat_of_ended(lines, pieces, n - 1);
        assert(lines.take(n).drop_last() =~= lines.take(n - 1));
        assert(lines.take(n).last() == lines[n - 1]);
    } else {
        assert(lines.take(0).len() == 0);
    }
}

/// The lines of a text, taken together, are the text: splitting loses nothing.
pub proof fn lines_make_the_text(content: Seq<char>)
    ensures
        concat(lines_of(content)) == content,
{
    let pieces = split_on(content, '\n');
    let lines = lines_of(content);
    let m = pieces.len() - 1;
    pieces_make_the_text(content);
    concat_of_ended(lines, pieces, m);
    if pieces.last().len() == 0 {
        assert(lines.take(m) =~= lines);
        assert(ended_pieces(pieces, m) + pieces.last() =~= ended_pieces(pieces, m));
    } else {
        assert(lines.drop_last() =~= lines.take(m));
        assert(lines.last() == pieces.last());
    }
}

proof fn blank_end_is_found(out: Seq<Seq<char>>, n: int)
    requires
        0 <= n <= out.len(),
    ensures
        0 <= unblank_end(out, n) <= n,
        unblank_end(out, n) > 0 ==> !is_blank(out[unblank_end(out, n) - 1]),
    decreases n,
{
    if 0 < n && is_blank(out[n - 1]) {
        blank_end_is_found(out, n - 1);
    }
}

/// A document whose end was set stays as it is when its end is set again.
pub proof fn set_end_stays(out: Seq<Seq<char>>)
    ensures
        end_set(end_set(out)) == end_set(out),
{
    let kept = without_blank_end(out);
    blank_end_is_found(out, out.len() as int);
    assert(is_blank(blank_text())) by {
        assert(is_space('\n'));
        assert(skip_spaces(blank_text(), 1) == 1);
    }
    if kept.len() > 0 {
        let once = kept.push(blank_text());
        assert(kept.last() == out[kept.len() - 1]);
        assert(once[kept.len() - 1] == kept.last());
        assert(unblank_end(once, once.len() as int) == unblank_end(once, kept.len() as int));
        assert(unblank_end(once, kept.len() as int) == kept.len());
        assert(without_blank_end(once) =~= kept);
    } else {
        assert(without_blank_end(kept) =~= kept);
    }
}

} // verus!
