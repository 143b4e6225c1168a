//! The state of the pass over a document, and what the pass does with a line
//! inside front matter, at a code fence, and inside a fenced code block.

use std::collections::HashSet;
use vstd::prelude::*;
use crate::link_ids::{blank_line, unblank_end};
use crate::list::ListContext;
use crate::spacing::{fence_language_tight, normalize_fenced_code_lang_chars};
use crate::text::{
    begins_with, blank, copy, is_blank, slice, starts_with, trim, trimmed, views,
};

verus! {

/// Which rules are switched off, and how the others are to work.
pub struct Options {
    /// `skip[n]` says whether rule `n` is switched off; it has 31 entries, of
    /// which the first stands for no rule.
    pub skip: Vec<bool>,
    pub wrap_width: usize,
    pub skip_em_dash: bool,
    pub skip_guillemet: bool,
    pub reverse_emphasis: bool,
}

/// Whether rule `n` is switched on in `skip`.
pub open spec fn on(skip: Seq<bool>, n: int) -> bool {
    !(0 <= n < skip.len() && skip[n])
}

impl Options {
    /// Whether rule `n` is switched on.
    pub fn enabled(&self, n: usize) -> (r: bool)
        ensures
            r == on(self.skip@, n as int),
    {
        !(n < self.skip.len() && self.skip[n])
    }
}

/// The options for a set of rules that are switched off.
pub fn options_for(
    skip_rules: &HashSet<u8>,
    wrap_width: usize,
    skip_em_dash: bool,
    skip_guillemet: bool,
    reverse_emphasis: bool,
) -> (r: Options)
    ensures
        r.skip@.len() == 31,
        forall|n: int| 0 <= n < 31 ==> #[trigger] r.skip@[n] == skip_rules@.contains(n as u8),
        r.wrap_width == wrap_width,
        r.skip_em_dash == skip_em_dash,
        r.skip_guillemet == skip_guillemet,
        r.reverse_emphasis == reverse_emphasis,
{
    broadcast use vstd::std_specs::hash::group_hash_axioms;

    let mut skip: Vec<bool> = Vec::new();
    let mut n: u8 = 0;
    while n < 31
        invariant
            n <= 31,
            skip.len() == n,
            forall|k: int| 0 <= k < n ==> #[trigger] skip@[k] == skip_rules@.contains(k as u8),
        decreases 31 - n,
    {
        skip.push(skip_rules.contains(&n));
        n += 1;
    }
    Options { skip, wrap_width, skip_em_dash, skip_guillemet, reverse_emphasis }
}

/// How far the pass over a document has come: the lines put out so far, the
/// blocks that are open, the blank lines just seen, the indent unit and the open
/// lists of the list run at hand.
pub struct Progress {
    pub output: Vec<Vec<char>>,
    pub in_code_block: bool,
    pub in_math_block: bool,
    pub in_frontmatter: bool,
    pub blank_run: usize,
    pub unit: Option<usize>,
    pub stack: Vec<ListContext>,
}

/// The value of a `Progress`.
pub struct State {
    pub output: Seq<Seq<char>>,
    pub in_code_block: bool,
    pub in_math_block: bool,
    pub in_frontmatter: bool,
    pub blank_run: usize,
    pub unit: Option<usize>,
    pub stack: Seq<ListContext>,
}

impl View for Progress {
    type V = State;

    open spec fn view(&self) -> State {
        State {
            output: views(self.output@),
            in_code_block: self.in_code_block,
            in_math_block: self.in_math_block,
            in_frontmatter: self.in_frontmatter,
            blank_run: self.blank_run,
            unit: self.unit,
            stack: self.stack@,
        }
    }
}

/// A line feed alone.
pub open spec fn blank_text() -> Seq<char> {
    seq!['\n']
}

/// `out` without the blank lines at its end.
pub open spec fn without_blank_end(out: Seq<Seq<char>>) -> Seq<Seq<char>> {
    out.take(unblank_end(out, out.len() as int))
}

/// Whether `out` ends with a line that is not blank.
pub open spec fn ends_in_text(out: Seq<Seq<char>>) -> bool {
    out.len() > 0 && !is_blank(out.last())
}

/// Whether the line after line `i` is there and not blank.
pub open spec fn text_follows(lines: Seq<Seq<char>>, i: int) -> bool {
    0 <= i + 1 < lines.len() && !is_blank(lines[i + 1])
}

/// `out` with a blank line added where `wanted` holds.
pub open spec fn spaced(out: Seq<Seq<char>>, wanted: bool) -> Seq<Seq<char>> {
    if wanted {
        out.push(blank_text())
    } else {
        out
    }
}

impl Progress {
    /// Puts out `line`.
    pub fn emit(&mut self, line: Vec<char>)
        ensures
            final(self)@ == (State { output: old(self)@.output.push(line@), ..old(self)@ }),
    {
        let ghost before = views(self.output@);
        self.output.push(line);
        assert(views(self.output@) =~= before.push(line@));
    }

    /// Puts out a blank line where `wanted` holds.
    pub fn emit_blank(&mut self, wanted: bool)
        ensures
            final(self)@ == (State {
                output: spaced(old(self)@.output, wanted),
                ..old(self)@
            }),
    {
        if wanted {
            self.emit(blank_line());
        }
    }

    /// Takes back the blank lines at the end of what was put out.
    pub fn drop_blank_end(&mut self)
        ensures
            final(self)@ == (State {
                output: without_blank_end(old(self)@.output),
                ..old(self)@
            }),
    {
        let ghost out = views(self.output@);
        let mut n: usize = self.output.len();
        while n > 0 && blank(&self.output[n - 1])
            invariant
                n <= self.output.len(),
                *self == *old(self),
                out == views(self.output@),
                unblank_end(out, out.len() as int) == unblank_end(out, n as int),
            decreases n,
        {
            assert(out[n - 1] == self.output@[n - 1]@);
            n -= 1;
        }
        assert(n > 0 ==> out[n - 1] == self.output@[n - 1]@);
        if n < self.output.len() {
            self.output.truncate(n);
            assert(views(self.output@) =~= out.take(n as int));
        } else {
            assert(out.take(n as int) =~= out);
        }
    }

    /// Whether what was put out ends with a line that is not blank.
    pub fn ends_in_text(&self) -> (r: bool)
        ensures
            r == ends_in_text(self@.output),
    {
        let n = self.output.len();
        if n > 0 {
            assert(views(self.output@)[n - 1] == self.output@[n - 1]@);
            !blank(&self.output[n - 1])
        } else {
            false
        }
    }

    /// Closes the list run at hand.
    pub fn close_lists(&mut self)
        ensures
            final(self)@ == (State {
                unit: None,
                stack: Seq::<ListContext>::empty(),
                ..old(self)@
            }),
    {
        self.stack = Vec::new();
        self.unit = None;
    }
}

/// Whether the line after line `i` is there and not blank.
pub fn does_text_follow(lines: &Vec<Vec<char>>, i: usize) -> (r: bool)
    ensures
        r == text_follows(views(lines@), i as int),
{
    let n = lines.len();
    assert(views(lines@).len() == n);
    if i < usize::MAX && i + 1 < lines.len() {
        assert(views(lines@)[i + 1] == lines@[i + 1]@);
        !blank(&lines[i + 1])
    } else {
        false
    }
}

/// The length of `s` up to `j` without the carriage returns and line feeds at its end.
pub open spec fn ending_start(s: Seq<char>, j: int) -> int
    decreases j,
{
    if 0 < j <= s.len() && (s[j - 1] == '\r' || s[j - 1] == '\n') {
        ending_start(s, j - 1)
    } else {
        j
    }
}

/// `line` with a Unix line ending: one line feed in place of whatever carriage
/// returns and line feeds it ends with, or of no ending at all.
pub open spec fn unix_ending(line: Seq<char>) -> Seq<char> {
    line.take(ending_start(line, line.len() as int)).push('\n')
}

/// Gives `line` a Unix line ending.
pub fn normalize_line_ending(line: &Vec<char>) -> (r: Vec<char>)
    ensures
        r@ == unix_ending(line@),
{
    let mut m: usize = line.len();
    while m > 0 && (line[m - 1] == '\r' || line[m - 1] == '\n')
        invariant
            m <= line.len(),
            ending_start(line@, line@.len() as int) == ending_start(line@, m as int),
        decreases m,
    {
        m -= 1;
    }
    let mut r = slice(line, 0, m);
    r.push('\n');
    r
}

proof fn ending_start_is_found(s: Seq<char>, j: int)
    requires
        0 <= j <= s.len(),
    ensures
        0 <= ending_start(s, j) <= j,
        ending_start(s, j) > 0 ==> s[ending_start(s, j) - 1] != '\r' && s[ending_start(s, j) - 1]
            != '\n',
    decreases j,
{
    if 0 < j && (s[j - 1] == '\r' || s[j - 1] == '\n') {
        ending_start_is_found(s, j - 1);
    }
}

/// A line with a Unix line ending ends with one line feed and with no carriage
/// return before it, and stays as it is when it is given a Unix line ending again.
pub proof fn unix_ending_stays(line: Seq<char>)
    ensures
        unix_ending(line).last() == '\n',
        unix_ending(line).len() >= 2 ==> unix_ending(line)[unix_ending(line).len() - 2] != '\r'
            && unix_ending(line)[unix_ending(line).len() - 2] != '\n',
        unix_ending(unix_ending(line)) == unix_ending(line),
{
    let n = ending_start(line, line.len() as int);
    ending_start_is_found(line, line.len() as int);
    let body = line.take(n);
    let once = body.push('\n');
    if n > 0 {
        assert(once[n - 1] == line[n - 1]);
    }
    assert(ending_start(once, n + 1) == ending_start(once, n));
    assert(ending_start(once, n) == n);
    assert(once.take(n) =~= body);
}

/// Whether `line` closes front matter: three dashes or three dots, and whitespace.
pub open spec fn closes_front_matter(line: Seq<char>) -> bool {
    trim(line) == seq!['-', '-', '-'] || trim(line) == seq!['.', '.', '.']
}

/// The state after line `i` inside front matter. The closing fence ends the front
/// matter and takes the place of the blank lines before it; a blank line straight
/// after the opening fence is dropped; any other line is put out as it is.
pub open spec fn front_matter_step(s: State, line: Seq<char>, i: int) -> State {
    if i > 0 && closes_front_matter(line) {
        State {
            output: without_blank_end(s.output).push(line),
            in_frontmatter: false,
            blank_run: 0,
            ..s
        }
    } else if i == 1 && is_blank(line) {
        s
    } else {
        State { output: s.output.push(line), blank_run: 0, ..s }
    }
}

/// Takes line `i` inside front matter.
pub fn take_front_matter(p: &mut Progress, line: Vec<char>, i: usize)
    ensures
        final(p)@ == front_matter_step(old(p)@, line@, i as int),
{
    let t = trimmed(&line);
    let closes = t.len() == 3 && ((t[0] == '-' && t[1] == '-' && t[2] == '-') || (t[0] == '.'
        && t[1] == '.' && t[2] == '.'));
    assert(closes == closes_front_matter(line@)) by {
        if closes {
            assert(t@ =~= seq!['-', '-', '-'] || t@ =~= seq!['.', '.', '.']);
        }
    }
    if i > 0 && closes {
        p.drop_blank_end();
        p.in_frontmatter = false;
        p.emit(line);
        p.blank_run = 0;
    } else if !(i == 1 && blank(&line)) {
        p.emit(line);
        p.blank_run = 0;
    }
}

/// Whether a blank line goes before an opening fence: what was put out ends with
/// text that is no fence of backticks.
pub open spec fn wants_blank_before_fence(out: Seq<Seq<char>>) -> bool {
    ends_in_text(out) && !starts_with(trim(out.last()), "```"@)
}

/// The state after the code fence `line` at line `i`: the fence, with its
/// language tag moved up, opens or closes a block; a blank line goes before an
/// opening fence and after a closing one where text stands there, and the blank
/// lines before a closing fence go; the list run ends, and so does display math
/// that was open.
pub open spec fn fence_step(
    s: State,
    line: Seq<char>,
    lines: Seq<Seq<char>>,
    i: int,
    skip: Seq<bool>,
) -> State {
    let fence = if on(skip, 17) {
        fence_language_tight(line)
    } else {
        line
    };
    let opening = !s.in_code_block;
    let before = on(skip, 6) && opening && wants_blank_before_fence(s.output);
    let led = spaced(s.output, before);
    let open = if opening {
        led
    } else {
        without_blank_end(led)
    };
    let after = on(skip, 7) && !opening && text_follows(lines, i);
    State {
        output: spaced(open.push(fence), after),
        in_code_block: opening,
        in_math_block: false,
        blank_run: 0,
        unit: None,
        stack: Seq::<ListContext>::empty(),
        ..s
    }
}

/// Takes the code fence `line` at line `i`.
pub fn take_fence(
    p: &mut Progress,
    line: Vec<char>,
    lines: &Vec<Vec<char>>,
    i: usize,
    options: &Options,
)
    ensures
        final(p)@ == fence_step(old(p)@, line@, views(lines@), i as int, options.skip@),
{
    let fence = if options.enabled(17) {
        normalize_fenced_code_lang_chars(&line)
    } else {
        copy(&line)
    };
    let opening = !p.in_code_block;
    p.in_code_block = opening;
    p.in_math_block = false;
    p.blank_run = 0;
    p.close_lists();
    let mut before = false;
    if options.enabled(6) && opening && p.ends_in_text() {
        let n = p.output.len();
        assert(views(p.output@)[n - 1] == p.output@[n - 1]@);
        before = !begins_with(&trimmed(&p.output[n - 1]), "```");
    }
    p.emit_blank(before);
    if !opening {
        p.drop_blank_end();
    }
    p.emit(fence);
    let after = options.enabled(7) && !opening && does_text_follow(lines, i);
    p.emit_blank(after);
}

/// The state after a line inside a fenced code block: the line is put out as it is.
pub open spec fn code_step(s: State, line: Seq<char>) -> State {
    State {
        output: s.output.push(line),
        blank_run: 0,
        unit: None,
        stack: Seq::<ListContext>::empty(),
        ..s
    }
}

/// Takes a line inside a fenced code block.
pub fn take_code(p: &mut Progress, line: Vec<char>)
    ensures
        final(p)@ == code_step(old(p)@, line@),
{
    p.emit(line);
    p.blank_run = 0;
    p.close_lists();
}

} // verus!
