//! Links: what a link is, where its target is written, and the definitions that
//! reference links are looked up in.

use vstd::prelude::*;
use crate::pattern::{captures, first_match, group, group_chars, group_text, opt_groups, Span};
use crate::text::{copy, lowercase, lowered, push_all, same, slice, to_chars, trim, trimmed};

verus! {

/// The id of a reference definition in brackets, and what follows the colon.
pub const DEFINITION: &'static str = r"^(\[[^\]]+\])\s*:\s*(.+)$";

/// A URL, and after it a title in double quotes or nothing.
pub const URL_AND_TITLE: &'static str = r#"^([^\s"]+)(?:\s+"([^"]+)")?$"#;

/// Where a link leads: a URL and, where one is given, a title.
pub struct Target {
    pub url: Vec<char>,
    pub title: Option<Vec<char>>,
}

/// The value of a `Target`.
pub struct TargetView {
    pub url: Seq<char>,
    pub title: Option<Seq<char>>,
}

impl View for Target {
    type V = TargetView;

    open spec fn view(&self) -> TargetView {
        TargetView {
            url: self.url@,
            title: match self.title {
                Some(t) => Some(t@),
                None => None,
            },
        }
    }
}

/// How a link is written.
#[derive(Clone, Copy, Debug, PartialEq, Eq, Structural)]
pub enum LinkKind {
    /// `[text](url)` or `[text](url "title")`.
    Inline,
    /// `[text][id]`.
    Reference,
    /// `[text]`, with a definition for the text.
    Implicit,
}

/// A link found in a document: its line, its span in the line, its text, where it
/// leads, how it is written, and the id that it was written with (empty for an
/// inline link).
pub struct Link {
    pub line: usize,
    pub span: Span,
    pub text: Vec<char>,
    pub target: Target,
    pub kind: LinkKind,
    pub id: Vec<char>,
}

/// The value of a `Link`.
pub struct LinkView {
    pub line: usize,
    pub span: Span,
    pub text: Seq<char>,
    pub target: TargetView,
    pub kind: LinkKind,
    pub id: Seq<char>,
}

impl View for Link {
    type V = LinkView;

    open spec fn view(&self) -> LinkView {
        LinkView {
            line: self.line,
            span: self.span,
            text: self.text@,
            target: self.target@,
            kind: self.kind,
            id: self.id@,
        }
    }
}

/// An entry of the registry of definitions: the key that it is found by, in
/// brackets; the id of the definition as it was written, without brackets; and
/// where it leads.
pub struct Definition {
    pub key: Vec<char>,
    pub id: Vec<char>,
    pub target: Target,
}

/// The value of a `Definition`.
pub struct DefinitionView {
    pub key: Seq<char>,
    pub id: Seq<char>,
    pub target: TargetView,
}

impl View for Definition {
    type V = DefinitionView;

    open spec fn view(&self) -> DefinitionView {
        DefinitionView { key: self.key@, id: self.id@, target: self.target@ }
    }
}

/// The values of a vector of links.
pub open spec fn link_views(v: Seq<Link>) -> Seq<LinkView> {
    v.map_values(|l: Link| l@)
}

/// The values of a vector of definitions.
pub open spec fn definition_views(v: Seq<Definition>) -> Seq<DefinitionView> {
    v.map_values(|d: Definition| d@)
}

/// A copy of `t`.
pub fn copy_target(t: &Target) -> (r: Target)
    ensures
        r@ == t@,
{
    Target {
        url: copy(&t.url),
        title: match &t.title {
            Some(x) => Some(copy(x)),
            None => None,
        },
    }
}

/// Whether `a` and `b` lead to the same place: the same URL and the same title.
pub fn same_target(a: &Target, b: &Target) -> (r: bool)
    ensures
        r == (a@ == b@),
{
    if !same(&a.url, &b.url) {
        return false;
    }
    match (&a.title, &b.title) {
        (Some(x), Some(y)) => same(x, y),
        (None, None) => true,
        _ => false,
    }
}

/// How many runs of backticks begin in `s` at index `i` or after it; `in_run`
/// says whether the character before `i` belongs to a run, which a backtick at
/// `i` then goes on with. A character after a backslash is passed over.
pub open spec fn runs_from(s: Seq<char>, i: int, in_run: bool) -> nat
    decreases s.len() - i,
{
    if i < 0 || i >= s.len() {
        0
    } else if s[i] == '`' {
        runs_from(s, i + 1, true) + if in_run {
            0nat
        } else {
            1nat
        }
    } else if s[i] == '\\' {
        if i + 2 <= s.len() {
            runs_from(s, i + 2, false)
        } else {
            0
        }
    } else {
        runs_from(s, i + 1, false)
    }
}

/// Whether position `pos` of `text` lies inside a code span: an odd number of
/// backtick delimiters, each a run of backticks, stands before it.
pub open spec fn in_code_span(text: Seq<char>, pos: int) -> bool {
    0 <= pos <= text.len() && runs_from(text.take(pos), 0, false) % 2 == 1
}

/// Whether position `pos` of `text` lies inside a code span.
pub fn is_in_code_span_chars(text: &Vec<char>, pos: usize) -> (r: bool)
    requires
        pos <= text.len(),
    ensures
        r == in_code_span(text@, pos as int),
{
    let ghost before = text@.take(pos as int);
    let mut odd = false;
    let mut in_run = false;
    let mut i: usize = 0;
    while i < pos
        invariant
            i <= pos + 1,
            pos <= text.len(),
            before == text@.take(pos as int),
            (runs_from(before, 0, false) % 2 == 1) == (odd != (runs_from(before, i as int, in_run)
                % 2 == 1)),
        decreases pos + 1 - i,
    {
        assert(before[i as int] == text@[i as int]);
        if text[i] == '`' {
            if !in_run {
                odd = !odd;
            }
            in_run = true;
            i += 1;
        } else if text[i] == '\\' {
            in_run = false;
            if i + 1 >= pos {
                i = pos;
            } else {
                i += 2;
            }
        } else {
            in_run = false;
            i += 1;
        }
    }
    odd
}

/// Whether position `pos` of `text`, counted in characters, lies inside a code span.
pub fn is_in_code_span(text: &str, pos: usize) -> (r: bool)
    requires
        pos <= text@.len(),
    ensures
        r == in_code_span(text@, pos as int),
{
    is_in_code_span_chars(&to_chars(text), pos)
}

/// Whether group `i` of a match took part in it.
pub open spec fn has_group(parts: Seq<Option<Span>>, i: int) -> bool {
    0 <= i < parts.len() && parts[i] is Some
}

/// The target that `part` writes, given what `URL_AND_TITLE` found in it: the URL
/// and the title where it is a URL with or without a title, else all of it as the URL.
pub open spec fn target_from(part: Seq<char>, parts: Option<Seq<Option<Span>>>) -> TargetView {
    match parts {
        Some(c) => TargetView {
            url: group_text(part, c, 1),
            title: if has_group(c, 2) {
                Some(group_text(part, c, 2))
            } else {
                None
            },
        },
        None => TargetView { url: part, title: None },
    }
}

/// The target that `part` writes.
pub open spec fn target_of(part: Seq<char>) -> TargetView {
    target_from(part, first_match(URL_AND_TITLE@, part))
}

/// The target that `part` writes, given its URL and title.
pub fn split_target(part: &Vec<char>, parts: &Option<Vec<Option<Span>>>) -> (r: Target)
    ensures
        r@ == target_from(part@, opt_groups(*parts)),
{
    match parts {
        Some(c) => {
            let title = if 2 < c.len() && c[2].is_some() {
                Some(group_chars(part, c, 2))
            } else {
                None
            };
            Target { url: group_chars(part, c, 1), title }
        },
        None => Target { url: copy(part), title: None },
    }
}

/// The target that `part` writes.
pub fn read_target(part: &Vec<char>) -> (r: Target)
    ensures
        r@ == target_of(part@),
{
    let parts = captures(URL_AND_TITLE, part);
    split_target(part, &parts)
}

/// `s` between brackets.
pub open spec fn bracketed(s: Seq<char>) -> Seq<char> {
    seq!['['] + s + seq![']']
}

/// `s` between brackets.
pub fn bracket(s: &Vec<char>) -> (r: Vec<char>)
    ensures
        r@ == bracketed(s@),
{
    let mut r: Vec<char> = Vec::new();
    r.push('[');
    push_all(&mut r, s);
    r.push(']');
    assert(r@ =~= bracketed(s@));
    r
}

/// The key that a text is looked up by: the text in lower case and trimmed,
/// between brackets.
pub open spec fn normal_key(text: Seq<char>) -> Seq<char> {
    bracketed(trim(lowercase(text)))
}

/// The key that a text is looked up by.
pub fn normalize_key(text: &Vec<char>) -> (r: Vec<char>)
    ensures
        r@ == normal_key(text@),
{
    bracket(&trimmed(&lowered(text)))
}

/// What stands between the brackets of `key`; `key` itself where it is not in brackets.
pub open spec fn unbracketed(key: Seq<char>) -> Seq<char> {
    if key.len() >= 2 && key[0] == '[' && key.last() == ']' {
        key.subrange(1, key.len() - 1)
    } else {
        key
    }
}

/// What stands between the brackets of `key`.
pub fn unbracket(key: &Vec<char>) -> (r: Vec<char>)
    ensures
        r@ == unbracketed(key@),
{
    if key.len() >= 2 && key[0] == '[' && key[key.len() - 1] == ']' {
        slice(key, 1, key.len() - 1)
    } else {
        copy(key)
    }
}

/// The entries that a definition adds to the registry, given its bracketed id,
/// its target, and the normal key of its id: one under the id as written, and
/// one under the normal key where that is another.
pub open spec fn entries_for(
    written: Seq<char>,
    target: TargetView,
    normal: Seq<char>,
) -> Seq<DefinitionView> {
    let first = DefinitionView { key: written, id: unbracketed(written), target };
    if normal != written {
        seq![first, DefinitionView { key: normal, id: unbracketed(written), target }]
    } else {
        seq![first]
    }
}

/// The entries that the line `line` adds to the registry, given what `DEFINITION`
/// found in the trimmed line; `None` where the line is no definition.
pub open spec fn definition_from(
    line: Seq<char>,
    parts: Option<Seq<Option<Span>>>,
) -> Option<Seq<DefinitionView>> {
    match parts {
        Some(c) => Some(
            entries_for(
                group_text(trim(line), c, 1),
                target_of(trim(group_text(trim(line), c, 2))),
                normal_key(unbracketed(group_text(trim(line), c, 1))),
            ),
        ),
        None => None,
    }
}

/// The entries that the line `line` adds to the registry; `None` where the line
/// is no definition.
pub open spec fn definition_in(line: Seq<char>) -> Option<Seq<DefinitionView>> {
    definition_from(line, first_match(DEFINITION@, trim(line)))
}

/// The entries that a definition adds to the registry.
pub fn make_entries(written: Vec<char>, target: Target, normal: Vec<char>) -> (r: Vec<Definition>)
    ensures
        definition_views(r@) == entries_for(written@, target@, normal@),
{
    let mut r: Vec<Definition> = Vec::new();
    let id = unbracket(&written);
    if !same(&normal, &written) {
        let second = Definition { key: normal, id: copy(&id), target: copy_target(&target) };
        r.push(Definition { key: written, id, target });
        r.push(second);
    } else {
        r.push(Definition { key: written, id, target });
    }
    assert(definition_views(r@) =~= entries_for(written@, target@, normal@));
    r
}

/// The entries that the line `line` adds to the registry.
pub fn read_definition(line: &Vec<char>) -> (r: Option<Vec<Definition>>)
    ensures
        match r {
            Some(v) => definition_in(line@) == Some(definition_views(v@)),
            None => definition_in(line@) is None,
        },
{
    let stripped = trimmed(line);
    match captures(DEFINITION, &stripped) {
        Some(c) => {
            let written = group_chars(&stripped, &c, 1);
            let part = trimmed(&group_chars(&stripped, &c, 2));
            let target = read_target(&part);
            let normal = normalize_key(&unbracket(&written));
            Some(make_entries(written, target, normal))
        },
        None => None,
    }
}

/// The index of the last of the first `n` entries that has `key`; -1 where none has.
pub open spec fn find_entry(registry: Seq<DefinitionView>, key: Seq<char>, n: int) -> int
    decreases n,
{
    if n <= 0 || n > registry.len() {
        -1
    } else if registry[n - 1].key == key {
        n - 1
    } else {
        find_entry(registry, key, n - 1)
    }
}

/// The index of the entry that `key` is defined by: the last with that key.
pub open spec fn defined_at(registry: Seq<DefinitionView>, key: Seq<char>) -> int {
    find_entry(registry, key, registry.len() as int)
}

/// The index of the entry that `key` is defined by.
pub fn look_up(registry: &Vec<Definition>, key: &Vec<char>) -> (r: Option<usize>)
    ensures
        match r {
            Some(i) => i == defined_at(definition_views(registry@), key@) && i < registry.len(),
            None => defined_at(definition_views(registry@), key@) == -1,
        },
{
    let ghost reg = definition_views(registry@);
    let mut found: Option<usize> = None;
    let mut n: usize = 0;
    while n < registry.len()
        invariant
            n <= registry.len(),
            reg == definition_views(registry@),
            match found {
                Some(i) => i == find_entry(reg, key@, n as int) && i < n,
                None => find_entry(reg, key@, n as int) == -1,
            },
        decreases registry.len() - n,
    {
        assert(reg[n as int] == registry@[n as int]@);
        if same(&registry[n].key, key) {
            found = Some(n);
        }
        n += 1;
    }
    found
}

} // verus!
