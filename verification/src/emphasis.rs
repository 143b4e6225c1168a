//! Emphasis: bold and italic markers are rewritten to one pair each, in three
//! steps, leaving code spans and emoji shortcodes alone.

use vstd::prelude::*;
use crate::pattern::{
    all_captures, all_matches, captures_all, find_all, group, group_chars, group_lists, group_of,
    group_text, overlap, regex_find_iter, span_chars, span_ok, span_text, spared_text_stays,
    spares, splice, spliced, to_span_is_inside, whole_spans, whole_spans_of, Span,
};
use crate::text::{holds, push_all, to_chars, to_string, views};

verus! {

/// A code span: backticks, anything but backticks, backticks.
pub const CODE_SPAN: &'static str = r"`+[^`]*`+";

/// An emoji shortcode, in either case.
pub const EMOJI_TOKEN: &'static str = r"(?i):[a-z0-9_+-]+:";

/// Three markers, some text, three markers.
pub const TRIPLE: &'static str = r"([_*]{3})(.+?)([_*]{3})";

/// Bold written with asterisks.
pub const STAR_BOLD: &'static str = r"(\*\*)(.+?)(\*\*)";

/// Bold written with underscores.
pub const UNDERSCORE_BOLD: &'static str = r"(__)([^_]+?)(__)";

/// Italic written with underscores.
pub const UNDERSCORE_ITALIC: &'static str = r"(_)([^_]+?)(_)";

/// Italic written with asterisks.
pub const STAR_ITALIC: &'static str = r"(\*)([^*]+?)(\*)";

/// What a step rewrites.
#[derive(Clone, Copy, Debug, PartialEq, Eq, Structural)]
pub enum Emphasis {
    /// Bold and italic at once: three markers on each side.
    Nested,
    /// Bold: two markers on each side.
    Bold,
    /// Italic: one marker on each side.
    Italic,
}

/// One step of the rewriting: what it rewrites, and to which pair of markers. Not
/// reversed, bold is written `__` and italic `*`; reversed, bold is `**` and italic `_`.
#[derive(Clone, Copy, Debug, PartialEq, Eq, Structural)]
pub struct Step {
    pub emphasis: Emphasis,
    pub reverse: bool,
}

/// The pattern that finds what `step` may rewrite.
pub open spec fn pattern_of(step: Step) -> Seq<char> {
    match step.emphasis {
        Emphasis::Nested => TRIPLE@,
        Emphasis::Bold => if step.reverse {
            UNDERSCORE_BOLD@
        } else {
            STAR_BOLD@
        },
        Emphasis::Italic => if step.reverse {
            STAR_ITALIC@
        } else {
            UNDERSCORE_ITALIC@
        },
    }
}

/// The markers that `step` writes before the text.
pub open spec fn opening(step: Step) -> Seq<char> {
    match step.emphasis {
        Emphasis::Nested => if step.reverse {
            seq!['_', '*', '*']
        } else {
            seq!['_', '_', '*']
        },
        Emphasis::Bold => if step.reverse {
            seq!['*', '*']
        } else {
            seq!['_', '_']
        },
        Emphasis::Italic => if step.reverse {
            seq!['_']
        } else {
            seq!['*']
        },
    }
}

/// The markers that `step` writes after the text: those before it, backwards.
pub open spec fn closing(step: Step) -> Seq<char> {
    opening(step).reverse()
}

/// Whether the span `sp` shares a character with one of the spans `held`.
pub open spec fn touches(held: Seq<Span>, sp: Span) -> bool {
    exists|i: int| 0 <= i < held.len() && overlap(#[trigger] held[i], sp)
}

/// Whether the character of `text` at `at` is `c`.
pub open spec fn is_at(text: Seq<char>, at: int, c: char) -> bool {
    0 <= at < text.len() && text[at] == c
}

/// Whether the match `parts` is one that `step` rewrites. Three markers on each
/// side must close as they opened, backwards. Bold stays where a marker before or
/// after it shows it to be part of something nested; italic stays where its
/// marker is doubled.
pub open spec fn eligible(text: Seq<char>, parts: Seq<Option<Span>>, step: Step) -> bool {
    let whole = group(parts, 0);
    let before = whole.start - 1;
    let after = whole.end as int;
    match step.emphasis {
        Emphasis::Nested => group_text(text, parts, 3) == group_text(text, parts, 1).reverse(),
        Emphasis::Bold => if step.reverse {
            !is_at(text, before, '_') && !is_at(text, after, '_')
        } else {
            !is_at(text, before, '*') && !(is_at(text, whole.start + 2, '*') && is_at(
                text,
                after,
                '*',
            )) && !is_at(text, after, '_')
        },
        Emphasis::Italic => if step.reverse {
            !is_at(text, before, '*') && !is_at(text, after, '*')
        } else {
            !is_at(text, before, '_') && !is_at(text, after, '_')
        },
    }
}

/// What the match `parts` is rewritten to at `step`: its text between the markers
/// of the step; the match as it stands where it touches a code span or a
/// shortcode, or is not one that the step rewrites.
pub open spec fn rewritten_match(
    text: Seq<char>,
    parts: Seq<Option<Span>>,
    held: Seq<Span>,
    step: Step,
) -> Seq<char> {
    if touches(held, group(parts, 0)) || !eligible(text, parts, step) {
        span_text(text, group(parts, 0))
    } else {
        opening(step) + group_text(text, parts, 2) + closing(step)
    }
}

/// `text` after `step`, given the matches `found` of the step's pattern and the
/// spans `held` of the code spans and shortcodes of `text`.
pub open spec fn step_rewritten(
    text: Seq<char>,
    found: Seq<Seq<Option<Span>>>,
    held: Seq<Span>,
    step: Step,
) -> Seq<char> {
    splice(
        text,
        whole_spans(found),
        found.map_values(|c: Seq<Option<Span>>| rewritten_match(text, c, held, step)),
    )
}

/// The spans of the code spans and the emoji shortcodes of `text`.
pub open spec fn held_spans(text: Seq<char>) -> Seq<Span> {
    all_matches(CODE_SPAN@, text) + all_matches(EMOJI_TOKEN@, text)
}

/// `text` after `step`.
pub open spec fn step_applied(text: Seq<char>, step: Step) -> Seq<char> {
    step_rewritten(text, all_captures(pattern_of(step), text), held_spans(text), step)
}

/// `line` with its emphasis rewritten: first what is bold and italic at once, then
/// what is bold, then what is italic, each step on the result of the one before.
pub open spec fn emphasis_normalized(line: Seq<char>, reverse: bool) -> Seq<char> {
    step_applied(
        step_applied(
            step_applied(line, Step { emphasis: Emphasis::Nested, reverse }),
            Step { emphasis: Emphasis::Bold, reverse },
        ),
        Step { emphasis: Emphasis::Italic, reverse },
    )
}

/// Whether the span `sp` shares a character with one of the spans `held`.
pub fn touches_any(held: &Vec<Span>, sp: Span) -> (r: bool)
    ensures
        r == touches(held@, sp),
{
    let mut i: usize = 0;
    while i < held.len()
        invariant
            i <= held.len(),
            forall|j: int| 0 <= j < i ==> !overlap(#[trigger] held@[j], sp),
        decreases held.len() - i,
    {
        if held[i].start < sp.end && sp.start < held[i].end {
            return true;
        }
        i += 1;
    }
    false
}

/// Whether the character of `text` at `at` is `c`.
pub fn char_at_is(text: &Vec<char>, at: usize, c: char) -> (r: bool)
    ensures
        r == is_at(text@, at as int, c),
{
    at < text.len() && text[at] == c
}

/// Whether the character of `text` just before `at` is `c`.
pub fn char_before_is(text: &Vec<char>, at: usize, c: char) -> (r: bool)
    ensures
        r == is_at(text@, at - 1, c),
{
    at > 0 && at - 1 < text.len() && text[at - 1] == c
}

/// Whether `b` holds the characters of `a` backwards.
pub fn is_reverse(a: &Vec<char>, b: &Vec<char>) -> (r: bool)
    ensures
        r == (b@ == a@.reverse()),
{
    if a.len() != b.len() {
        return false;
    }
    let n = a.len();
    let mut i: usize = 0;
    while i < n
        invariant
            i <= n,
            n == a.len(),
            n == b.len(),
            forall|j: int| 0 <= j < i ==> b@[j] == a@[n - 1 - j],
        decreases n - i,
    {
        if b[i] != a[n - 1 - i] {
            assert(a@.reverse()[i as int] == a@[n - 1 - i]);
            return false;
        }
        i += 1;
    }
    assert(b@ =~= a@.reverse());
    true
}

/// Whether the match `parts` is one that `step` rewrites.
pub fn is_eligible(text: &Vec<char>, parts: &Vec<Option<Span>>, step: Step) -> (r: bool)
    ensures
        r == eligible(text@, parts@, step),
{
    let whole = group_of(parts, 0);
    match step.emphasis {
        Emphasis::Nested => {
            let open = group_chars(text, parts, 1);
            let close = group_chars(text, parts, 3);
            is_reverse(&open, &close)
        },
        Emphasis::Bold => {
            if step.reverse {
                !char_before_is(text, whole.start, '_') && !char_at_is(text, whole.end, '_')
            } else {
                let n = text.len();
                assert(text@.len() == n);
                let triple = whole.start < usize::MAX - 1 && char_at_is(
                    text,
                    whole.start + 2,
                    '*',
                );
                !char_before_is(text, whole.start, '*') && !(triple && char_at_is(
                    text,
                    whole.end,
                    '*',
                )) && !char_at_is(text, whole.end, '_')
            }
        },
        Emphasis::Italic => {
            if step.reverse {
                !char_before_is(text, whole.start, '*') && !char_at_is(text, whole.end, '*')
            } else {
                !char_before_is(text, whole.start, '_') && !char_at_is(text, whole.end, '_')
            }
        },
    }
}

/// The markers that `step` writes before the text.
pub fn opening_of(step: Step) -> (r: Vec<char>)
    ensures
        r@ == opening(step),
{
    let mut r: Vec<char> = Vec::new();
    match step.emphasis {
        Emphasis::Nested => {
            if step.reverse {
                r.push('_');
                r.push('*');
                r.push('*');
            } else {
                r.push('_');
                r.push('_');
                r.push('*');
            }
        },
        Emphasis::Bold => {
            if step.reverse {
                r.push('*');
                r.push('*');
            } else {
                r.push('_');
                r.push('_');
            }
        },
        Emphasis::Italic => {
            if step.reverse {
                r.push('_');
            } else {
                r.push('*');
            }
        },
    }
    assert(r@ =~= opening(step));
    r
}

/// The markers that `step` writes after the text.
pub fn closing_of(step: Step) -> (r: Vec<char>)
    ensures
        r@ == closing(step),
{
    let open = opening_of(step);
    let mut r: Vec<char> = Vec::new();
    let mut i: usize = open.len();
    while i > 0
        invariant
            i <= open.len(),
            r.len() == open.len() - i,
            forall|j: int| 0 <= j < r.len() ==> r@[j] == open@[open.len() - 1 - j],
        decreases i,
    {
        i -= 1;
        r.push(open[i]);
    }
    assert(r@ =~= open@.reverse());
    r
}

/// Applies `step` to `text`, given the matches of the step's pattern and the spans
/// of the code spans and shortcodes of `text`.
pub fn rewrite_step(
    text: &Vec<char>,
    found: &Vec<Vec<Option<Span>>>,
    held: &Vec<Span>,
    step: Step,
) -> (r: Vec<char>)
    ensures
        r@ == step_rewritten(text@, group_lists(found@), held@, step),
{
    let open = opening_of(step);
    let close = closing_of(step);
    let mut reps: Vec<Vec<char>> = Vec::new();
    let mut i: usize = 0;
    while i < found.len()
        invariant
            i <= found.len(),
            open@ == opening(step),
            close@ == closing(step),
            reps.len() == i,
            forall|j: int|
                0 <= j < i ==> (#[trigger] reps@[j])@ == rewritten_match(
                    text@,
                    found@[j]@,
                    held@,
                    step,
                ),
        decreases found.len() - i,
    {
        let whole = group_of(&found[i], 0);
        let rep = if touches_any(held, whole) || !is_eligible(text, &found[i], step) {
            span_chars(text, whole)
        } else {
            let mut rep: Vec<char> = Vec::new();
            push_all(&mut rep, &open);
            let inner = group_chars(text, &found[i], 2);
            push_all(&mut rep, &inner);
            push_all(&mut rep, &close);
            assert(rep@ =~= opening(step) + group_text(text@, found@[i as int]@, 2) + closing(
                step,
            ));
            rep
        };
        reps.push(rep);
        i += 1;
    }
    assert(views(reps@) =~= group_lists(found@).map_values(
        |c: Seq<Option<Span>>| rewritten_match(text@, c, held@, step),
    ));
    let spans = whole_spans_of(found);
    spliced(text, &spans, &reps)
}

/// The pattern that finds what `step` may rewrite.
pub fn pattern_for(step: Step) -> (r: &'static str)
    ensures
        r@ == pattern_of(step),
{
    match step.emphasis {
        Emphasis::Nested => TRIPLE,
        Emphasis::Bold => if step.reverse {
            UNDERSCORE_BOLD
        } else {
            STAR_BOLD
        },
        Emphasis::Italic => if step.reverse {
            STAR_ITALIC
        } else {
            UNDERSCORE_ITALIC
        },
    }
}

/// The spans of the code spans and the emoji shortcodes of `text`.
pub fn find_held(text: &Vec<char>) -> (r: Vec<Span>)
    ensures
        r@ == held_spans(text@),
{
    let mut r = find_all(CODE_SPAN, text);
    let tokens = find_all(EMOJI_TOKEN, text);
    let ghost codes = r@;
    let mut i: usize = 0;
    while i < tokens.len()
        invariant
            i <= tokens.len(),
            r@ == codes + tokens@.take(i as int),
        decreases tokens.len() - i,
    {
        r.push(tokens[i]);
        assert(r@ =~= codes + tokens@.take(i + 1));
        i += 1;
    }
    assert(tokens@.take(tokens.len() as int) =~= tokens@);
    r
}

/// Applies `step` to `text`.
pub fn apply_step(text: &Vec<char>, step: Step) -> (r: Vec<char>)
    ensures
        r@ == step_applied(text@, step),
{
    let held = find_held(text);
    let found = captures_all(pattern_for(step), text);
    rewrite_step(text, &found, &held, step)
}

/// Rewrites the emphasis of `line` to one pair of markers each for bold and italic.
pub fn normalize_bold_italic_chars(line: &Vec<char>, reverse_emphasis: bool) -> (r: Vec<char>)
    ensures
        r@ == emphasis_normalized(line@, reverse_emphasis),
{
    let nested = apply_step(line, Step { emphasis: Emphasis::Nested, reverse: reverse_emphasis });
    let bold = apply_step(&nested, Step { emphasis: Emphasis::Bold, reverse: reverse_emphasis });
    apply_step(&bold, Step { emphasis: Emphasis::Italic, reverse: reverse_emphasis })
}

/// Rewrites the emphasis of `line` to one pair of markers each for bold and italic.
pub fn normalize_bold_italic(line: &str, reverse_emphasis: bool) -> (r: String)
    ensures
        r@ == emphasis_normalized(line@, reverse_emphasis),
{
    to_string(&normalize_bold_italic_chars(&to_chars(line), reverse_emphasis))
}

/// A step leaves code spans and shortcodes alone: the text of each span that is
/// held stands unbroken in the result of the step.
pub proof fn held_text_stays(
    text: Seq<char>,
    found: Seq<Seq<Option<Span>>>,
    held: Seq<Span>,
    step: Step,
    i: int,
)
    requires
        0 <= i < held.len(),
        span_ok(text.len(), held[i]),
    ensures
        holds(step_rewritten(text, found, held, step), span_text(text, held[i])),
{
    let spans = whole_spans(found);
    let reps = found.map_values(|c: Seq<Option<Span>>| rewritten_match(text, c, held, step));
    assert(spares(text, spans, reps, held[i])) by {
        assert forall|k: int| 0 <= k < spans.len() && k < reps.len() implies #[trigger] reps[k]
            == span_text(text, spans[k]) || !overlap(held[i], spans[k]) by {
            if overlap(held[i], spans[k]) {
                assert(touches(held, group(found[k], 0)));
            }
        }
    }
    spared_text_stays(text, spans, reps, held[i]);
}

/// Each step of the rewriting leaves every code span and every shortcode of the
/// text that it works on as it is.
pub proof fn code_and_shortcodes_stay(text: Seq<char>, step: Step, i: int)
    requires
        text.len() <= usize::MAX,
        0 <= i < held_spans(text).len(),
    ensures
        holds(step_applied(text, step), span_text(text, held_spans(text)[i])),
{
    let codes = regex_find_iter(CODE_SPAN@, text);
    let tokens = regex_find_iter(EMOJI_TOKEN@, text);
    if i < codes.len() {
        to_span_is_inside(text, codes[i]);
    } else {
        to_span_is_inside(text, tokens[i - codes.len()]);
    }
    held_text_stays(text, all_captures(pattern_of(step), text), held_spans(text), step, i);
}

} // verus!
