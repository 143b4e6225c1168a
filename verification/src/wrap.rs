//! Wrapping: a text is cut into words, links staying whole, and the words are
//! filled into lines of a given width.

use vstd::prelude::*;
use crate::classify::{blockquote, is_blockquote_chars};
use crate::pattern::{captures, first_match, group_chars, group_text, opt_groups, Span};
use crate::text::{
    join,
    holds, holds_at, holds_at_end, holds_in_longer,
    all_to_strings, char_is_space, copy, is_space, push_all, same, skip_spaces, slice,
    spaces_end, string_views, to_chars, to_string, views,
};

verus! {

/// The whitespace that a line begins with.
pub const INDENT: &'static str = r"^(\s*)";

/// The marker of the quote `line` with the whitespace before it, given what
/// `INDENT` found in the line; nothing where the line is no quote.
pub open spec fn quote_prefix_of(line: Seq<char>, parts: Option<Seq<Option<Span>>>) -> Seq<char> {
    if blockquote(line) {
        match parts {
            Some(c) => group_text(line, c, 1).push('>'),
            None => seq!['>'],
        }
    } else {
        Seq::<char>::empty()
    }
}

/// The marker of the quote `line` with the whitespace before it.
pub open spec fn quote_prefix(line: Seq<char>) -> Seq<char> {
    quote_prefix_of(line, first_match(INDENT@, line))
}

/// The marker of a quote with the whitespace before it, given the line's indent.
pub fn quote_prefix_from(line: &Vec<char>, parts: &Option<Vec<Option<Span>>>) -> (r: Vec<char>)
    ensures
        r@ == quote_prefix_of(line@, opt_groups(*parts)),
{
    if is_blockquote_chars(line) {
        let mut r = match parts {
            Some(c) => group_chars(line, c, 1),
            None => Vec::new(),
        };
        r.push('>');
        assert(parts is None ==> r@ =~= seq!['>']);
        r
    } else {
        Vec::new()
    }
}

/// The marker of the quote `line` with the whitespace before it.
pub fn get_blockquote_prefix_chars(line: &Vec<char>) -> (r: Vec<char>)
    ensures
        r@ == quote_prefix(line@),
{
    let parts = captures(INDENT, line);
    quote_prefix_from(line, &parts)
}

/// The marker of the quote `line` with the whitespace before it.
pub fn get_blockquote_prefix(line: &str) -> (r: String)
    ensures
        r@ == quote_prefix(line@),
{
    to_string(&get_blockquote_prefix_chars(&to_chars(line)))
}

/// The first index at or after `i` that holds whitespace, or the length.
pub open spec fn word_end(s: Seq<char>, i: int) -> int
    decreases s.len() - i,
{
    if 0 <= i < s.len() && !is_space(s[i]) {
        word_end(s, i + 1)
    } else {
        i
    }
}

/// The index just after the bracket that closes `depth` open ones, looking from
/// `i` on; the length where they are not closed.
pub open spec fn bracket_end(s: Seq<char>, i: int, depth: nat) -> int
    decreases s.len() - i,
{
    if 0 <= i < s.len() && depth > 0 {
        bracket_end(
            s,
            i + 1,
            if s[i] == '[' {
                depth + 1
            } else if s[i] == ']' {
                (depth - 1) as nat
            } else {
                depth
            },
        )
    } else {
        i
    }
}

/// The first index at or after `i` that holds `c`, or the length.
pub open spec fn find_char(s: Seq<char>, i: int, c: char) -> int
    decreases s.len() - i,
{
    if 0 <= i < s.len() && s[i] != c {
        find_char(s, i + 1, c)
    } else {
        i
    }
}

/// The end of the target that follows the bracketed text of a link at `a`: just
/// after the `)` or `]` that closes a `(` or `[` at `a`; `a` where no target follows.
pub open spec fn target_end(s: Seq<char>, a: int) -> int {
    if 0 <= a < s.len() && (s[a] == '(' || s[a] == '[') {
        let close = find_char(
            s,
            a + 1,
            if s[a] == '(' {
                ')'
            } else {
                ']'
            },
        );
        if close < s.len() {
            close + 1
        } else {
            close
        }
    } else {
        a
    }
}

/// The end of the token that begins at `start`. A token that begins with `[` is a
/// link: it runs over its bracketed text, over a target in `(...)` or `[...]`
/// straight after it, and over whatever is attached up to the next whitespace.
/// Any other token runs up to the next whitespace.
pub open spec fn token_end(s: Seq<char>, start: int) -> int {
    if 0 <= start < s.len() && s[start] == '[' {
        word_end(s, target_end(s, bracket_end(s, start + 1, 1)))
    } else {
        word_end(s, start)
    }
}

/// The tokens of `s` from index `i` on.
pub open spec fn tokens_from(s: Seq<char>, i: int) -> Seq<Seq<char>>
    decreases s.len() - i,
{
    let start = skip_spaces(s, i);
    let end = token_end(s, start);
    if i < 0 || start >= s.len() || start < i || end <= start || end > s.len() {
        Seq::<Seq<char>>::empty()
    } else {
        seq![s.subrange(start, end)] + tokens_from(s, end)
    }
}

/// The tokens of `s`: its words, with each markdown link kept as one token.
pub open spec fn tokens(s: Seq<char>) -> Seq<Seq<char>> {
    tokens_from(s, 0)
}

/// The first index of `a` at or after `from` that holds whitespace.
pub fn find_word_end(a: &Vec<char>, from: usize) -> (r: usize)
    requires
        from <= a.len(),
    ensures
        r == word_end(a@, from as int),
        from <= r <= a.len(),
{
    let mut i: usize = from;
    while i < a.len() && !char_is_space(a[i])
        invariant
            from <= i <= a.len(),
            word_end(a@, from as int) == word_end(a@, i as int),
        decreases a.len() - i,
    {
        i += 1;
    }
    i
}

/// The index of `a` just after the bracket that closes the one before `from`.
pub fn find_bracket_end(a: &Vec<char>, from: usize) -> (r: usize)
    requires
        1 <= from <= a.len(),
    ensures
        r == bracket_end(a@, from as int, 1),
        from <= r <= a.len(),
{
    let mut i: usize = from;
    let mut depth: usize = 1;
    while i < a.len() && depth > 0
        invariant
            1 <= from <= i <= a.len(),
            depth <= i - from + 1,
            bracket_end(a@, from as int, 1) == bracket_end(a@, i as int, depth as nat),
        decreases a.len() - i,
    {
        if a[i] == '[' {
            depth += 1;
        } else if a[i] == ']' {
            depth -= 1;
        }
        i += 1;
    }
    i
}

/// The first index of `a` at or after `from` that holds `c`.
pub fn find_from(a: &Vec<char>, from: usize, c: char) -> (r: usize)
    requires
        from <= a.len(),
    ensures
        r == find_char(a@, from as int, c),
        from <= r <= a.len(),
{
    let mut i: usize = from;
    while i < a.len() && a[i] != c
        invariant
            from <= i <= a.len(),
            find_char(a@, from as int, c) == find_char(a@, i as int, c),
        decreases a.len() - i,
    {
        i += 1;
    }
    i
}

/// The end of the token of `a` that begins at `start`.
pub fn find_token_end(a: &Vec<char>, start: usize) -> (r: usize)
    requires
        start < a.len(),
    ensures
        r == token_end(a@, start as int),
        start <= r <= a.len(),
{
    if a[start] == '[' {
        let text_end = find_bracket_end(a, start + 1);
        let mut at = text_end;
        if text_end < a.len() && (a[text_end] == '(' || a[text_end] == '[') {
            let close = find_from(a, text_end + 1, if a[text_end] == '(' { ')' } else { ']' });
            at = if close < a.len() { close + 1 } else { close };
        }
        find_word_end(a, at)
    } else {
        find_word_end(a, start)
    }
}

/// The tokens of `text`.
pub fn tokenize_for_wrap_chars(text: &Vec<char>) -> (r: Vec<Vec<char>>)
    ensures
        views(r@) == tokens(text@),
{
    let mut out: Vec<Vec<char>> = Vec::new();
    let mut i: usize = 0;
    let mut more = true;
    while more
        invariant
            i <= text.len(),
            more ==> views(out@) + tokens_from(text@, i as int) == tokens(text@),
            !more ==> views(out@) == tokens(text@),
        decreases text.len() - i + if more { 1int } else { 0int },
    {
        let start = spaces_end(text, i);
        if start >= text.len() {
            assert(tokens_from(text@, i as int) =~= Seq::<Seq<char>>::empty());
            assert(views(out@) + Seq::<Seq<char>>::empty() =~= views(out@));
            more = false;
        } else {
            let end = find_token_end(text, start);
            if end <= start {
                assert(tokens_from(text@, i as int) =~= Seq::<Seq<char>>::empty());
                assert(views(out@) + Seq::<Seq<char>>::empty() =~= views(out@));
                more = false;
            } else {
                let ghost before = views(out@);
                let token = slice(text, start, end);
                out.push(token);
                assert(views(out@) =~= before.push(text@.subrange(start as int, end as int)));
                assert(views(out@) + tokens_from(text@, end as int) =~= before + tokens_from(
                    text@,
                    i as int,
                ));
                i = end;
            }
        }
    }
    out
}

/// The tokens of `text`: its words, with each markdown link kept as one token.
pub fn tokenize_for_wrap(text: &str) -> (r: Vec<String>)
    ensures
        string_views(r@) == tokens(text@),
{
    all_to_strings(&tokenize_for_wrap_chars(&to_chars(text)))
}

/// The lines filled so far, and the line being filled.
pub struct Filling {
    pub lines: Seq<Seq<char>>,
    pub current: Seq<char>,
}

/// The line being filled with `word` added: after a space, unless the line holds
/// only the prefix.
pub open spec fn extended(current: Seq<char>, prefix: Seq<char>, word: Seq<char>) -> Seq<char> {
    if current == prefix {
        current + word
    } else {
        current.push(' ') + word
    }
}

/// The lines with the line being filled added, unless it holds only the prefix.
pub open spec fn closed(f: Filling, prefix: Seq<char>) -> Seq<Seq<char>> {
    if f.current != prefix {
        f.lines.push(f.current)
    } else {
        f.lines
    }
}

/// The filling after `words`: each word goes on the line being filled where the
/// line stays within `width`, and opens a new line after the prefix where not.
pub open spec fn filled(words: Seq<Seq<char>>, width: usize, prefix: Seq<char>) -> Filling
    decreases words.len(),
{
    if words.len() == 0 {
        Filling { lines: Seq::<Seq<char>>::empty(), current: prefix }
    } else {
        let before = filled(words.drop_last(), width, prefix);
        let longer = extended(before.current, prefix, words.last());
        if longer.len() <= width {
            Filling { lines: before.lines, current: longer }
        } else {
            Filling { lines: closed(before, prefix), current: prefix + words.last() }
        }
    }
}

/// The lines that `words` fill.
pub open spec fn filled_lines(words: Seq<Seq<char>>, width: usize, prefix: Seq<char>) -> Seq<
    Seq<char>,
> {
    closed(filled(words, width, prefix), prefix)
}

/// `text` wrapped to `width`: as it stands where it is short enough or fills no
/// line; else the lines that its tokens fill, each after `prefix`.
pub open spec fn wrapped(text: Seq<char>, width: usize, prefix: Seq<char>) -> Seq<Seq<char>> {
    if text.len() <= width || filled_lines(tokens(text), width, prefix).len() == 0 {
        seq![text]
    } else {
        filled_lines(tokens(text), width, prefix)
    }
}

/// Fills `words` into lines of at most `width` characters, each after `prefix`. A
/// word that is longer stands on a line of its own.
pub fn fill_lines(words: &Vec<Vec<char>>, width: usize, prefix: &Vec<char>) -> (r: Vec<Vec<char>>)
    ensures
        views(r@) == filled_lines(views(words@), width, prefix@),
{
    let ghost ws = views(words@);
    let mut lines: Vec<Vec<char>> = Vec::new();
    let mut current: Vec<char> = copy(prefix);
    let mut i: usize = 0;
    assert(ws.take(0).len() == 0);
    assert(views(lines@) =~= Seq::<Seq<char>>::empty());
    while i < words.len()
        invariant
            i <= words.len(),
            ws == views(words@),
            filled(ws.take(i as int), width, prefix@) == (Filling {
                lines: views(lines@),
                current: current@,
            }),
        decreases words.len() - i,
    {
        assert(ws.take(i + 1).drop_last() =~= ws.take(i as int));
        assert(ws.take(i + 1).last() == words@[i as int]@);
        let mut longer = copy(&current);
        if !same(&current, prefix) {
            longer.push(' ');
        }
        push_all(&mut longer, &words[i]);
        assert(longer@ =~= extended(current@, prefix@, words@[i as int]@));
        if longer.len() <= width {
            current = longer;
        } else {
            if !same(&current, prefix) {
                let ghost before = views(lines@);
                lines.push(current);
                assert(views(lines@) =~= before.push(current@));
            }
            current = copy(prefix);
            push_all(&mut current, &words[i]);
        }
        i += 1;
    }
    assert(ws.take(words.len() as int) =~= ws);
    if !same(&current, prefix) {
        let ghost before = views(lines@);
        lines.push(current);
        assert(views(lines@) =~= before.push(current@));
    }
    lines
}

/// Wraps `text` to `width`, each line after `prefix`.
pub fn wrap_text_chars(text: &Vec<char>, width: usize, prefix: &Vec<char>) -> (r: Vec<Vec<char>>)
    ensures
        views(r@) == wrapped(text@, width, prefix@),
{
    let mut whole: Vec<Vec<char>> = Vec::new();
    whole.push(copy(text));
    assert(views(whole@) =~= seq![text@]);
    if text.len() <= width {
        return whole;
    }
    let words = tokenize_for_wrap_chars(text);
    let lines = fill_lines(&words, width, prefix);
    if lines.len() == 0 {
        whole
    } else {
        lines
    }
}

/// Wraps `text` to `width`, each line after `prefix`.
pub fn wrap_text(text: &str, width: usize, prefix: &str) -> (r: Vec<String>)
    ensures
        string_views(r@) == wrapped(text@, width, prefix@),
{
    all_to_strings(&wrap_text_chars(&to_chars(text), width, &to_chars(prefix)))
}

/// Whether `piece` stands unbroken in one of `lines`.
pub open spec fn some_line_holds(lines: Seq<Seq<char>>, piece: Seq<char>) -> bool {
    exists|i: int| 0 <= i < lines.len() && holds(#[trigger] lines[i], piece)
}

/// Whether no word is empty.
pub open spec fn no_empty_word(words: Seq<Seq<char>>) -> bool {
    forall|k: int| 0 <= k < words.len() ==> (#[trigger] words[k]).len() > 0
}

proof fn filling_keeps_words(words: Seq<Seq<char>>, width: usize, prefix: Seq<char>, k: int)
    requires
        0 <= k < words.len(),
        no_empty_word(words),
    ensures
        some_line_holds(filled(words, width, prefix).lines, words[k]) || holds(
            filled(words, width, prefix).current,
            words[k],
        ),
        filled(words, width, prefix).current.len() > prefix.len(),
    decreases words.len(),
{
    let init = words.drop_last();
    let last = words.last();
    let before = filled(init, width, prefix);
    let after = filled(words, width, prefix);
    let longer = extended(before.current, prefix, last);
    assert(words[words.len() - 1].len() > 0);
    assert(no_empty_word(init)) by {
        assert forall|j: int| 0 <= j < init.len() implies (#[trigger] init[j]).len() > 0 by {
            assert(init[j] == words[j]);
        }
    }
    if init.len() > 0 {
        filling_keeps_words(init, width, prefix, 0);
    }
    if k == words.len() - 1 {
        if longer.len() <= width {
            if before.current == prefix {
                holds_at_end(before.current, last);
            } else {
                holds_at_end(before.current.push(' '), last);
            }
        } else {
            holds_at_end(prefix, last);
        }
    } else {
        assert(init[k] == words[k]);
        filling_keeps_words(init, width, prefix, k);
        if some_line_holds(before.lines, words[k]) {
            let i = choose|i: int| 0 <= i < before.lines.len() && holds(
                #[trigger] before.lines[i],
                words[k],
            );
            assert(after.lines[i] == before.lines[i]);
        } else if longer.len() <= width {
            if before.current == prefix {
                holds_in_longer(before.current, words[k], last);
            } else {
                holds_in_longer(before.current, words[k], seq![' '] + last);
                assert(before.current + (seq![' '] + last) =~= before.current.push(' ') + last);
            }
        } else {
            assert(before.current != prefix);
            assert(after.lines[after.lines.len() - 1] == before.current);
        }
    }
}

proof fn token_is_piece(s: Seq<char>, i: int, k: int)
    requires
        0 <= k < tokens_from(s, i).len(),
    ensures
        tokens_from(s, i)[k].len() > 0,
        holds(s, tokens_from(s, i)[k]),
    decreases s.len() - i,
{
    let start = skip_spaces(s, i);
    let end = token_end(s, start);
    if k == 0 {
        assert(holds_at(s, s.subrange(start, end), start));
    } else {
        token_is_piece(s, end, k - 1);
    }
}

/// Every token of a text stands unbroken on one of the lines that the text is
/// wrapped to, however narrow the lines are: a link is never cut.
pub proof fn tokens_stay_whole(text: Seq<char>, width: usize, prefix: Seq<char>, k: int)
    requires
        0 <= k < tokens(text).len(),
    ensures
        some_line_holds(wrapped(text, width, prefix), tokens(text)[k]),
{
    let words = tokens(text);
    let lines = filled_lines(words, width, prefix);
    assert(no_empty_word(words)) by {
        assert forall|j: int| 0 <= j < words.len() implies (#[trigger] words[j]).len() > 0 by {
            token_is_piece(text, 0, j);
        }
    }
    filling_keeps_words(words, width, prefix, k);
    let f = filled(words, width, prefix);
    assert(lines == f.lines.push(f.current));
    if text.len() <= width {
        token_is_piece(text, 0, k);
        assert(wrapped(text, width, prefix)[0] == text);
    } else {
        if some_line_holds(f.lines, words[k]) {
            let i = choose|i: int| 0 <= i < f.lines.len() && holds(#[trigger] f.lines[i], words[k]);
            assert(lines[i] == f.lines[i]);
        } else {
            assert(lines[lines.len() - 1] == f.current);
        }
    }
}

proof fn join_of_one_more(v: Seq<Seq<char>>, x: Seq<char>)
    ensures
        join(v.push(x), ' ') == if v.len() == 0 {
            x
        } else {
            join(v, ' ').push(' ') + x
        },
{
    assert(v.push(x).drop_last() =~= v);
}

proof fn filling_keeps_all(words: Seq<Seq<char>>, width: usize)
    requires
        no_empty_word(words),
    ensures
        join(filled_lines(words, width, Seq::<char>::empty()), ' ') == join(words, ' '),
        words.len() > 0 ==> filled(words, width, Seq::<char>::empty()).current.len() > 0,
        words.len() == 0 ==> filled_lines(words, width, Seq::<char>::empty()).len() == 0,
    decreases words.len(),
{
    let none = Seq::<char>::empty();
    if words.len() > 0 {
        let init = words.drop_last();
        let w = words.last();
        assert(words[words.len() - 1].len() > 0);
        assert(no_empty_word(init)) by {
            assert forall|j: int| 0 <= j < init.len() implies (#[trigger] init[j]).len() > 0 by {
                assert(init[j] == words[j]);
            }
        }
        filling_keeps_all(init, width);
        let before = filled(init, width, none);
        let after = filled(words, width, none);
        let longer = extended(before.current, none, w);
        assert(init.push(w) =~= words);
        join_of_one_more(init, w);
        assert(none + w =~= w);
        if longer.len() <= width {
            join_of_one_more(before.lines, longer);
            if init.len() > 0 {
                join_of_one_more(before.lines, before.current);
                assert(join(before.lines.push(longer), ' ') =~= join(
                    before.lines.push(before.current),
                    ' ',
                ).push(' ') + w);
            }
        } else {
            join_of_one_more(closed(before, none), w);
        }
    } else {
        assert(filled_lines(words, width, none) =~= Seq::<Seq<char>>::empty());
    }
}

/// Wrapping loses nothing, adds nothing and keeps the order: a text that is
/// longer than the width and holds a token is wrapped, with no prefix, to lines
/// that hold exactly its tokens, in their order, with one space between each two
/// tokens of a line.
pub proof fn wrapping_keeps_all_tokens(text: Seq<char>, width: usize)
    requires
        text.len() > width,
        tokens(text).len() > 0,
    ensures
        join(wrapped(text, width, Seq::<char>::empty()), ' ') == join(tokens(text), ' '),
{
    let words = tokens(text);
    assert(no_empty_word(words)) by {
        assert forall|j: int| 0 <= j < words.len() implies (#[trigger] words[j]).len() > 0 by {
            token_is_piece(text, 0, j);
        }
    }
    filling_keeps_all(words, width);
}

} // verus!
