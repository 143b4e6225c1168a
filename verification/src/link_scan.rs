//! Finding the links of a document: the definitions are taken out of its lines,
//! and each remaining line is searched for inline, reference and implicit links.

use vstd::prelude::*;
use crate::classify::{code_fence, is_code_block_chars};
use crate::links::{
    bracket, bracketed, copy_target, defined_at, definition_in, definition_views,
    in_code_span, is_in_code_span_chars, link_views, look_up, normal_key, normalize_key,
    read_definition, read_target, target_of, Definition, DefinitionView, Link, LinkKind,
    LinkView, Target, TargetView,
};
use crate::pattern::{
    all_captures, captures_all, group, group_chars, group_lists, group_of, group_text, Span,
};
use crate::text::{copy, views};

verus! {

/// An inline link: text in brackets, then a target in parentheses.
pub const INLINE_LINK: &'static str = r"\[([^\]]+)\]\(([^)]+)\)";

/// A reference link: text in brackets, then an id in brackets.
pub const REFERENCE_LINK: &'static str = r"\[([^\]]+)\]\[([^\]]+)\]";

/// Text in brackets.
pub const BRACKETS: &'static str = r"\[([^\]]+)\]";

/// Whether a fenced code block is open after the first `n` lines.
pub open spec fn fence_open(lines: Seq<Seq<char>>, n: int) -> bool
    decreases n,
{
    if n <= 0 || n > lines.len() {
        false
    } else {
        fence_open(lines, n - 1) != code_fence(lines[n - 1])
    }
}

/// Whether line `k` belongs to fenced code: it is a fence, or a fenced code block
/// is open where it stands.
pub open spec fn in_fenced_code(lines: Seq<Seq<char>>, k: int) -> bool {
    0 <= k < lines.len() && (code_fence(lines[k]) || fence_open(lines, k))
}

/// The entries that line `k` adds to the registry: those of a definition outside
/// fenced code; `None` for any other line.
pub open spec fn definition_at(lines: Seq<Seq<char>>, k: int) -> Option<Seq<DefinitionView>> {
    if 0 <= k < lines.len() && !in_fenced_code(lines, k) {
        definition_in(lines[k])
    } else {
        None
    }
}

/// The entries that the first `n` lines add to the registry.
pub open spec fn registry_upto(lines: Seq<Seq<char>>, n: int) -> Seq<DefinitionView>
    decreases n,
{
    if n <= 0 || n > lines.len() {
        Seq::<DefinitionView>::empty()
    } else {
        match definition_at(lines, n - 1) {
            Some(e) => registry_upto(lines, n - 1) + e,
            None => registry_upto(lines, n - 1),
        }
    }
}

/// The registry of the definitions of a document: of the definitions that stand
/// outside fenced code.
pub open spec fn registry_of(lines: Seq<Seq<char>>) -> Seq<DefinitionView> {
    registry_upto(lines, lines.len() as int)
}

/// The first `n` lines without the definitions that stand outside fenced code.
pub open spec fn body_upto(lines: Seq<Seq<char>>, n: int) -> Seq<Seq<char>>
    decreases n,
{
    if n <= 0 || n > lines.len() {
        Seq::<Seq<char>>::empty()
    } else if definition_at(lines, n - 1) is Some {
        body_upto(lines, n - 1)
    } else {
        body_upto(lines, n - 1).push(lines[n - 1])
    }
}

/// The lines of a document without its definitions; fenced code stays whole.
pub open spec fn body_of(lines: Seq<Seq<char>>) -> Seq<Seq<char>> {
    body_upto(lines, lines.len() as int)
}

/// A line of fenced code is no definition: it stays in the lines, and the
/// registry takes nothing from it.
pub proof fn fenced_code_is_kept(lines: Seq<Seq<char>>, n: int)
    requires
        0 < n <= lines.len(),
        in_fenced_code(lines, n - 1),
    ensures
        body_upto(lines, n) == body_upto(lines, n - 1).push(lines[n - 1]),
        registry_upto(lines, n) == registry_upto(lines, n - 1),
{
}

/// Takes the definitions out of `lines`: returns the registry and the other lines.
pub fn take_definitions(lines: &Vec<Vec<char>>) -> (r: (Vec<Definition>, Vec<Vec<char>>))
    ensures
        definition_views(r.0@) == registry_of(views(lines@)),
        views(r.1@) == body_of(views(lines@)),
{
    let ghost ls = views(lines@);
    let mut registry: Vec<Definition> = Vec::new();
    let mut body: Vec<Vec<char>> = Vec::new();
    let mut open = false;
    let mut i: usize = 0;
    assert(definition_views(registry@) =~= registry_upto(ls, 0));
    assert(views(body@) =~= body_upto(ls, 0));
    while i < lines.len()
        invariant
            i <= lines.len(),
            ls == views(lines@),
            open == fence_open(ls, i as int),
            definition_views(registry@) == registry_upto(ls, i as int),
            views(body@) == body_upto(ls, i as int),
        decreases lines.len() - i,
    {
        assert(ls[i as int] == lines@[i as int]@);
        let fence = is_code_block_chars(&lines[i]);
        let found = if fence || open {
            None
        } else {
            read_definition(&lines[i])
        };
        match found {
            Some(entries) => {
                let mut entries = entries;
                let ghost before = definition_views(registry@);
                let ghost added = definition_views(entries@);
                registry.append(&mut entries);
                assert(definition_views(registry@) =~= before + added);
            },
            None => {
                let ghost before = views(body@);
                body.push(copy(&lines[i]));
                assert(views(body@) =~= before.push(lines@[i as int]@));
            },
        }
        if fence {
            open = !open;
        }
        i += 1;
    }
    (registry, body)
}

/// A link that was found in a line: how it is written, which of the matches of
/// its pattern it is, and where it stands.
#[derive(Clone, Copy, Debug)]
pub struct Found {
    pub kind: LinkKind,
    pub which: usize,
    pub span: Span,
}

/// Whether the match at `sp` stands outside every code span of `line`.
pub open spec fn outside_code(line: Seq<char>, sp: Span) -> bool {
    sp.start <= line.len() && !in_code_span(line, sp.start as int)
}

/// Whether the match at `sp` is followed at once by `[` or `(`.
pub open spec fn target_follows(line: Seq<char>, sp: Span) -> bool {
    sp.end < line.len() && (line[sp.end as int] == '[' || line[sp.end as int] == '(')
}

/// Whether position `pos` lies inside one of the spans `taken`.
pub open spec fn covered(taken: Seq<Span>, pos: usize) -> bool {
    exists|i: int| 0 <= i < taken.len() && (#[trigger] taken[i]).start <= pos < taken[i].end
}

/// The inline links among the first `n` matches of `INLINE_LINK`: those outside
/// code spans.
pub open spec fn inline_found(line: Seq<char>, matches: Seq<Seq<Option<Span>>>, n: int) -> Seq<
    Found,
>
    decreases n,
{
    if n <= 0 || n > matches.len() {
        Seq::<Found>::empty()
    } else if outside_code(line, group(matches[n - 1], 0)) {
        inline_found(line, matches, n - 1).push(
            Found { kind: LinkKind::Inline, which: (n - 1) as usize, span: group(matches[n - 1], 0) },
        )
    } else {
        inline_found(line, matches, n - 1)
    }
}

/// The spans among the first `n` matches that stand outside code spans.
pub open spec fn spans_outside_code(
    line: Seq<char>,
    matches: Seq<Seq<Option<Span>>>,
    n: int,
) -> Seq<Span>
    decreases n,
{
    if n <= 0 || n > matches.len() {
        Seq::<Span>::empty()
    } else if outside_code(line, group(matches[n - 1], 0)) {
        spans_outside_code(line, matches, n - 1).push(group(matches[n - 1], 0))
    } else {
        spans_outside_code(line, matches, n - 1)
    }
}

/// The index of the entry that the id `id` of a reference link is defined by: the
/// entry for the id as it is written, else the entry for its normal key, so that
/// upper and lower case make no difference; -1 where neither is defined.
pub open spec fn id_entry(
    registry: Seq<DefinitionView>,
    id: Seq<char>,
    key: Option<Seq<char>>,
) -> int {
    if defined_at(registry, bracketed(id)) >= 0 {
        defined_at(registry, bracketed(id))
    } else {
        match key {
            Some(k) => defined_at(registry, k),
            None => -1,
        }
    }
}

/// The reference links among the first `n` matches of `REFERENCE_LINK`: those
/// outside code spans whose id is defined.
pub open spec fn reference_found(
    line: Seq<char>,
    matches: Seq<Seq<Option<Span>>>,
    id_keys: Seq<Seq<char>>,
    registry: Seq<DefinitionView>,
    n: int,
) -> Seq<Found>
    decreases n,
{
    if n <= 0 || n > matches.len() {
        Seq::<Found>::empty()
    } else if outside_code(line, group(matches[n - 1], 0)) && id_entry(
        registry,
        group_text(line, matches[n - 1], 2),
        key_at(id_keys, n - 1),
    ) >= 0 {
        reference_found(line, matches, id_keys, registry, n - 1).push(
            Found {
                kind: LinkKind::Reference,
                which: (n - 1) as usize,
                span: group(matches[n - 1], 0),
            },
        )
    } else {
        reference_found(line, matches, id_keys, registry, n - 1)
    }
}

/// The key of match `k`; `None` where no key was made for it.
pub open spec fn key_at(keys: Seq<Seq<char>>, k: int) -> Option<Seq<char>> {
    if 0 <= k < keys.len() {
        Some(keys[k])
    } else {
        None
    }
}

/// Whether match `k` of `BRACKETS` is an implicit link: it stands outside code
/// spans, outside every inline or reference link, no target follows it, and its
/// text is defined.
pub open spec fn is_implicit(
    line: Seq<char>,
    parts: Seq<Option<Span>>,
    key: Option<Seq<char>>,
    taken: Seq<Span>,
    registry: Seq<DefinitionView>,
) -> bool {
    outside_code(line, group(parts, 0)) && !covered(taken, group(parts, 0).start)
        && !target_follows(line, group(parts, 0)) && key is Some && defined_at(registry, key->0)
        >= 0
}

/// The implicit links among the first `n` matches of `BRACKETS`.
pub open spec fn implicit_found(
    line: Seq<char>,
    matches: Seq<Seq<Option<Span>>>,
    keys: Seq<Seq<char>>,
    taken: Seq<Span>,
    registry: Seq<DefinitionView>,
    n: int,
) -> Seq<Found>
    decreases n,
{
    if n <= 0 || n > matches.len() {
        Seq::<Found>::empty()
    } else if is_implicit(line, matches[n - 1], key_at(keys, n - 1), taken, registry) {
        implicit_found(line, matches, keys, taken, registry, n - 1).push(
            Found {
                kind: LinkKind::Implicit,
                which: (n - 1) as usize,
                span: group(matches[n - 1], 0),
            },
        )
    } else {
        implicit_found(line, matches, keys, taken, registry, n - 1)
    }
}

/// Where among the first `n` links, which stand in order, one that begins at
/// `start` goes: after the last that begins no later.
pub open spec fn place_for(sorted: Seq<Found>, start: usize, n: int) -> int
    decreases n,
{
    if 0 < n <= sorted.len() && sorted[n - 1].span.start > start {
        place_for(sorted, start, n - 1)
    } else {
        n
    }
}

/// The links in the order of where they begin; of two that begin at one place,
/// the one that came first stays first.
pub open spec fn in_order(found: Seq<Found>) -> Seq<Found>
    decreases found.len(),
{
    if found.len() == 0 {
        Seq::<Found>::empty()
    } else {
        let before = in_order(found.drop_last());
        before.insert(
            place_for(before, found.last().span.start, before.len() as int),
            found.last(),
        )
    }
}

/// The links in the order of where they begin.
pub fn put_in_order(found: &Vec<Found>) -> (r: Vec<Found>)
    ensures
        r@ == in_order(found@),
        r.len() == found.len(),
{
    let mut r: Vec<Found> = Vec::new();
    let mut i: usize = 0;
    while i < found.len()
        invariant
            i <= found.len(),
            r@ == in_order(found@.take(i as int)),
            r.len() == i,
        decreases found.len() - i,
    {
        assert(found@.take(i + 1).drop_last() =~= found@.take(i as int));
        let x = found[i];
        let mut k: usize = r.len();
        while k > 0 && r[k - 1].span.start > x.span.start
            invariant
                k <= r.len(),
                place_for(r@, x.span.start, r.len() as int) == place_for(
                    r@,
                    x.span.start,
                    k as int,
                ),
            decreases k,
        {
            k -= 1;
        }
        r.insert(k, x);
        i += 1;
    }
    assert(found@.take(found.len() as int) =~= found@);
    r
}

/// All that is known of a line when its links are made: the matches of the three
/// patterns, the targets of the inline matches, the normal keys of the ids of the
/// reference matches, and the normal keys of the texts of the bracket matches.
pub struct LineMatches {
    pub inline: Seq<Seq<Option<Span>>>,
    pub targets: Seq<TargetView>,
    pub references: Seq<Seq<Option<Span>>>,
    pub id_keys: Seq<Seq<char>>,
    pub brackets: Seq<Seq<Option<Span>>>,
    pub keys: Seq<Seq<char>>,
}

/// The links found in a line, before they are put in order: the inline ones, the
/// reference ones, the implicit ones.
pub open spec fn found_in(
    line: Seq<char>,
    m: LineMatches,
    registry: Seq<DefinitionView>,
) -> Seq<Found> {
    inline_found(line, m.inline, m.inline.len() as int) + reference_found(
        line,
        m.references,
        m.id_keys,
        registry,
        m.references.len() as int,
    ) + implicit_found(
        line,
        m.brackets,
        m.keys,
        spans_outside_code(line, m.inline, m.inline.len() as int) + spans_outside_code(
            line,
            m.references,
            m.references.len() as int,
        ),
        registry,
        m.brackets.len() as int,
    )
}

/// The target of inline match `k`; an empty one where none was made for it.
pub open spec fn target_at(targets: Seq<TargetView>, k: int) -> TargetView {
    if 0 <= k < targets.len() {
        targets[k]
    } else {
        TargetView { url: Seq::<char>::empty(), title: None }
    }
}

/// The entry at index `at`; an empty one where there is none.
pub open spec fn entry_at(registry: Seq<DefinitionView>, at: int) -> DefinitionView {
    if 0 <= at < registry.len() {
        registry[at]
    } else {
        DefinitionView {
            key: Seq::<char>::empty(),
            id: Seq::<char>::empty(),
            target: TargetView { url: Seq::<char>::empty(), title: None },
        }
    }
}

/// The matches of one list; none for an index outside it.
pub open spec fn match_at(matches: Seq<Seq<Option<Span>>>, k: int) -> Seq<Option<Span>> {
    if 0 <= k < matches.len() {
        matches[k]
    } else {
        Seq::<Option<Span>>::empty()
    }
}

/// The link that was found as `f` in line `idx`. An inline link leads where its
/// parentheses say. A reference link leads where its id is defined, and keeps the
/// id as written. An implicit link leads where its text is defined, and has the
/// id of that definition.
pub open spec fn link_for(
    idx: usize,
    line: Seq<char>,
    f: Found,
    m: LineMatches,
    registry: Seq<DefinitionView>,
) -> LinkView {
    match f.kind {
        LinkKind::Inline => LinkView {
            line: idx,
            span: f.span,
            text: group_text(line, match_at(m.inline, f.which as int), 1),
            target: target_at(m.targets, f.which as int),
            kind: LinkKind::Inline,
            id: Seq::<char>::empty(),
        },
        LinkKind::Reference => LinkView {
            line: idx,
            span: f.span,
            text: group_text(line, match_at(m.references, f.which as int), 1),
            target: entry_at(
                registry,
                id_entry(
                    registry,
                    group_text(line, match_at(m.references, f.which as int), 2),
                    key_at(m.id_keys, f.which as int),
                ),
            ).target,
            kind: LinkKind::Reference,
            id: group_text(line, match_at(m.references, f.which as int), 2),
        },
        LinkKind::Implicit => LinkView {
            line: idx,
            span: f.span,
            text: group_text(line, match_at(m.brackets, f.which as int), 1),
            target: entry_at(
                registry,
                match key_at(m.keys, f.which as int) {
                    Some(k) => defined_at(registry, k),
                    None => -1,
                },
            ).target,
            kind: LinkKind::Implicit,
            id: entry_at(
                registry,
                match key_at(m.keys, f.which as int) {
                    Some(k) => defined_at(registry, k),
                    None => -1,
                },
            ).id,
        },
    }
}

/// The links of line `idx`, in the order of where they begin.
pub open spec fn line_links(
    idx: usize,
    line: Seq<char>,
    m: LineMatches,
    registry: Seq<DefinitionView>,
) -> Seq<LinkView> {
    in_order(found_in(line, m, registry)).map_values(
        |f: Found| link_for(idx, line, f, m, registry),
    )
}

/// The values of a vector of targets.
pub open spec fn target_views(v: Seq<Target>) -> Seq<TargetView> {
    v.map_values(|t: Target| t@)
}

/// Whether the match at `sp` stands outside every code span of `line`.
pub fn is_outside_code(line: &Vec<char>, sp: Span) -> (r: bool)
    ensures
        r == outside_code(line@, sp),
{
    sp.start <= line.len() && !is_in_code_span_chars(line, sp.start)
}

/// Whether position `pos` lies inside one of the spans `taken`.
pub fn is_covered(taken: &Vec<Span>, pos: usize) -> (r: bool)
    ensures
        r == covered(taken@, pos),
{
    let mut i: usize = 0;
    while i < taken.len()
        invariant
            i <= taken.len(),
            forall|j: int| 0 <= j < i ==> !((#[trigger] taken@[j]).start <= pos < taken@[j].end),
        decreases taken.len() - i,
    {
        if taken[i].start <= pos && pos < taken[i].end {
            return true;
        }
        i += 1;
    }
    false
}

/// An empty target.
pub fn no_target() -> (r: Target)
    ensures
        r@ == (TargetView { url: Seq::<char>::empty(), title: None }),
{
    Target { url: Vec::new(), title: None }
}

/// The index of the entry that the id `id` of a reference link is defined by.
pub fn find_id_entry(registry: &Vec<Definition>, id: &Vec<char>, key: Option<&Vec<char>>) -> (r:
    Option<usize>)
    ensures
        match r {
            Some(i) => i == id_entry(
                definition_views(registry@),
                id@,
                match key {
                    Some(k) => Some(k@),
                    None => None,
                },
            ) && i < registry.len(),
            None => id_entry(
                definition_views(registry@),
                id@,
                match key {
                    Some(k) => Some(k@),
                    None => None,
                },
            ) == -1,
        },
{
    match look_up(registry, &bracket(id)) {
        Some(i) => Some(i),
        None => match key {
            Some(k) => look_up(registry, k),
            None => None,
        },
    }
}

/// The links of line `idx`, given the matches of the three patterns in it, the
/// targets of the inline matches, the normal keys of the ids of the reference
/// matches and the normal keys of the texts of the bracket matches.
pub fn links_from_matches(
    idx: usize,
    line: &Vec<char>,
    inline: &Vec<Vec<Option<Span>>>,
    targets: &Vec<Target>,
    references: &Vec<Vec<Option<Span>>>,
    id_keys: &Vec<Vec<char>>,
    brackets: &Vec<Vec<Option<Span>>>,
    keys: &Vec<Vec<char>>,
    registry: &Vec<Definition>,
) -> (r: Vec<Link>)
    ensures
        link_views(r@) == line_links(
            idx,
            line@,
            LineMatches {
                inline: group_lists(inline@),
                targets: target_views(targets@),
                references: group_lists(references@),
                id_keys: views(id_keys@),
                brackets: group_lists(brackets@),
                keys: views(keys@),
            },
            definition_views(registry@),
        ),
{
    let ghost m = LineMatches {
        inline: group_lists(inline@),
        targets: target_views(targets@),
        references: group_lists(references@),
        id_keys: views(id_keys@),
        brackets: group_lists(brackets@),
        keys: views(keys@),
    };
    let ghost reg = definition_views(registry@);
    let mut found: Vec<Found> = Vec::new();
    let mut taken: Vec<Span> = Vec::new();
    let mut i: usize = 0;
    while i < inline.len()
        invariant
            i <= inline.len(),
            m.inline == group_lists(inline@),
            found@ == inline_found(line@, m.inline, i as int),
            taken@ == spans_outside_code(line@, m.inline, i as int),
        decreases inline.len() - i,
    {
        assert(m.inline[i as int] == inline@[i as int]@);
        let sp = group_of(&inline[i], 0);
        if is_outside_code(line, sp) {
            found.push(Found { kind: LinkKind::Inline, which: i, span: sp });
            taken.push(sp);
        }
        i += 1;
    }
    let ghost first = found@;
    let mut second_taken: Vec<Span> = Vec::new();
    let mut j: usize = 0;
    while j < references.len()
        invariant
            j <= references.len(),
            m.references == group_lists(references@),
            m.id_keys == views(id_keys@),
            reg == definition_views(registry@),
            found@ == first + reference_found(line@, m.references, m.id_keys, reg, j as int),
            second_taken@ == spans_outside_code(line@, m.references, j as int),
        decreases references.len() - j,
    {
        assert(m.references[j as int] == references@[j as int]@);
        let sp = group_of(&references[j], 0);
        if is_outside_code(line, sp) {
            second_taken.push(sp);
            let id = group_chars(line, &references[j], 2);
            let key = if j < id_keys.len() {
                assert(m.id_keys[j as int] == id_keys@[j as int]@);
                Some(&id_keys[j])
            } else {
                None
            };
            if find_id_entry(registry, &id, key).is_some() {
                found.push(Found { kind: LinkKind::Reference, which: j, span: sp });
                assert(found@ =~= first + reference_found(
                    line@,
                    m.references,
                    m.id_keys,
                    reg,
                    j + 1,
                ));
            }
        }
        j += 1;
    }
    taken.append(&mut second_taken);
    assert(taken@ =~= spans_outside_code(line@, m.inline, m.inline.len() as int)
        + spans_outside_code(line@, m.references, m.references.len() as int));
    let ghost second = found@;
    let mut k: usize = 0;
    while k < brackets.len()
        invariant
            k <= brackets.len(),
            m.brackets == group_lists(brackets@),
            m.keys == views(keys@),
            reg == definition_views(registry@),
            found@ == second + implicit_found(line@, m.brackets, m.keys, taken@, reg, k as int),
        decreases brackets.len() - k,
    {
        assert(m.brackets[k as int] == brackets@[k as int]@);
        let sp = group_of(&brackets[k], 0);
        let follows = sp.end < line.len() && (line[sp.end] == '[' || line[sp.end] == '(');
        if is_outside_code(line, sp) && !is_covered(&taken, sp.start) && !follows && k
            < keys.len() {
            assert(m.keys[k as int] == keys@[k as int]@);
            if look_up(registry, &keys[k]).is_some() {
                found.push(Found { kind: LinkKind::Implicit, which: k, span: sp });
                assert(found@ =~= second + implicit_found(
                    line@,
                    m.brackets,
                    m.keys,
                    taken@,
                    reg,
                    k + 1,
                ));
            }
        }
        k += 1;
    }
    assert(found@ =~= found_in(line@, m, reg));
    let sorted = put_in_order(&found);
    let mut links: Vec<Link> = Vec::new();
    let mut n: usize = 0;
    while n < sorted.len()
        invariant
            n <= sorted.len(),
            links.len() == n,
            m == (LineMatches {
                inline: group_lists(inline@),
                targets: target_views(targets@),
                references: group_lists(references@),
                id_keys: views(id_keys@),
                brackets: group_lists(brackets@),
                keys: views(keys@),
            }),
            reg == definition_views(registry@),
            forall|q: int|
                0 <= q < n ==> (#[trigger] links@[q])@ == link_for(idx, line@, sorted@[q], m, reg),
        decreases sorted.len() - n,
    {
        let f = sorted[n];
        let link = match f.kind {
            LinkKind::Inline => {
                let text = if f.which < inline.len() {
                    assert(m.inline[f.which as int] == inline@[f.which as int]@);
                    group_chars(line, &inline[f.which], 1)
                } else {
                    Vec::new()
                };
                let target = if f.which < targets.len() {
                    assert(m.targets[f.which as int] == targets@[f.which as int]@);
                    copy_target(&targets[f.which])
                } else {
                    no_target()
                };
                assert(text@ =~= group_text(line@, match_at(m.inline, f.which as int), 1));
                assert(target@ == target_at(m.targets, f.which as int));
                Link { line: idx, span: f.span, text, target, kind: LinkKind::Inline, id: Vec::new() }
            },
            LinkKind::Reference => {
                let (text, id) = if f.which < references.len() {
                    assert(m.references[f.which as int] == references@[f.which as int]@);
                    (
                        group_chars(line, &references[f.which], 1),
                        group_chars(line, &references[f.which], 2),
                    )
                } else {
                    (Vec::new(), Vec::new())
                };
                assert(text@ =~= group_text(line@, match_at(m.references, f.which as int), 1));
                assert(id@ =~= group_text(line@, match_at(m.references, f.which as int), 2));
                let key = if f.which < id_keys.len() {
                    assert(m.id_keys[f.which as int] == id_keys@[f.which as int]@);
                    Some(&id_keys[f.which])
                } else {
                    None
                };
                let target = match find_id_entry(registry, &id, key) {
                    Some(at) => {
                        assert(reg[at as int] == registry@[at as int]@);
                        copy_target(&registry[at].target)
                    },
                    None => no_target(),
                };
                Link { line: idx, span: f.span, text, target, kind: LinkKind::Reference, id }
            },
            LinkKind::Implicit => {
                let text = if f.which < brackets.len() {
                    assert(m.brackets[f.which as int] == brackets@[f.which as int]@);
                    group_chars(line, &brackets[f.which], 1)
                } else {
                    Vec::new()
                };
                assert(text@ =~= group_text(line@, match_at(m.brackets, f.which as int), 1));
                let at = if f.which < keys.len() {
                    assert(m.keys[f.which as int] == keys@[f.which as int]@);
                    look_up(registry, &keys[f.which])
                } else {
                    None
                };
                let (target, id) = match at {
                    Some(at) => {
                        assert(reg[at as int] == registry@[at as int]@);
                        (copy_target(&registry[at].target), copy(&registry[at].id))
                    },
                    None => (no_target(), Vec::new()),
                };
                assert(id@ =~= entry_at(
                    reg,
                    match key_at(m.keys, f.which as int) {
                        Some(k) => defined_at(reg, k),
                        None => -1,
                    },
                ).id);
                Link { line: idx, span: f.span, text, target, kind: LinkKind::Implicit, id }
            },
        };
        assert(link@ == link_for(idx, line@, f, m, reg));
        links.push(link);
        n += 1;
    }
    assert(link_views(links@) =~= line_links(idx, line@, m, reg));
    links
}

/// All that is known of `line` when its links are made.
pub open spec fn matches_of(line: Seq<char>) -> LineMatches {
    LineMatches {
        inline: all_captures(INLINE_LINK@, line),
        targets: Seq::new(
            all_captures(INLINE_LINK@, line).len(),
            |k: int| target_of(group_text(line, all_captures(INLINE_LINK@, line)[k], 2)),
        ),
        references: all_captures(REFERENCE_LINK@, line),
        id_keys: Seq::new(
            all_captures(REFERENCE_LINK@, line).len(),
            |k: int| normal_key(group_text(line, all_captures(REFERENCE_LINK@, line)[k], 2)),
        ),
        brackets: all_captures(BRACKETS@, line),
        keys: Seq::new(
            all_captures(BRACKETS@, line).len(),
            |k: int| normal_key(group_text(line, all_captures(BRACKETS@, line)[k], 1)),
        ),
    }
}

/// The links of line `idx`, in the order of where they begin.
pub open spec fn links_in_line(
    idx: usize,
    line: Seq<char>,
    registry: Seq<DefinitionView>,
) -> Seq<LinkView> {
    line_links(idx, line, matches_of(line), registry)
}

/// The links of line `idx`.
pub fn find_line_links(idx: usize, line: &Vec<char>, registry: &Vec<Definition>) -> (r: Vec<Link>)
    ensures
        link_views(r@) == links_in_line(idx, line@, definition_views(registry@)),
{
    let inline = captures_all(INLINE_LINK, line);
    let mut targets: Vec<Target> = Vec::new();
    let mut i: usize = 0;
    while i < inline.len()
        invariant
            i <= inline.len(),
            targets.len() == i,
            forall|q: int|
                0 <= q < i ==> (#[trigger] targets@[q])@ == target_of(
                    group_text(line@, inline@[q]@, 2),
                ),
        decreases inline.len() - i,
    {
        targets.push(read_target(&group_chars(line, &inline[i], 2)));
        i += 1;
    }
    let references = captures_all(REFERENCE_LINK, line);
    let mut id_keys: Vec<Vec<char>> = Vec::new();
    let mut j: usize = 0;
    while j < references.len()
        invariant
            j <= references.len(),
            id_keys.len() == j,
            forall|q: int|
                0 <= q < j ==> (#[trigger] id_keys@[q])@ == normal_key(
                    group_text(line@, references@[q]@, 2),
                ),
        decreases references.len() - j,
    {
        id_keys.push(normalize_key(&group_chars(line, &references[j], 2)));
        j += 1;
    }
    let brackets = captures_all(BRACKETS, line);
    let mut keys: Vec<Vec<char>> = Vec::new();
    let mut k: usize = 0;
    while k < brackets.len()
        invariant
            k <= brackets.len(),
            keys.len() == k,
            forall|q: int|
                0 <= q < k ==> (#[trigger] keys@[q])@ == normal_key(
                    group_text(line@, brackets@[q]@, 1),
                ),
        decreases brackets.len() - k,
    {
        keys.push(normalize_key(&group_chars(line, &brackets[k], 1)));
        k += 1;
    }
    assert(target_views(targets@) =~= matches_of(line@).targets);
    assert(views(keys@) =~= matches_of(line@).keys);
    assert(views(id_keys@) =~= matches_of(line@).id_keys);
    links_from_matches(
        idx,
        line,
        &inline,
        &targets,
        &references,
        &id_keys,
        &brackets,
        &keys,
        registry,
    )
}

/// The links of the first `n` lines: those of the lines that are neither fences
/// nor inside a fenced code block.
pub open spec fn links_upto(
    lines: Seq<Seq<char>>,
    registry: Seq<DefinitionView>,
    n: int,
) -> Seq<LinkView>
    decreases n,
{
    if n <= 0 || n > lines.len() {
        Seq::<LinkView>::empty()
    } else if code_fence(lines[n - 1]) || fence_open(lines, n - 1) {
        links_upto(lines, registry, n - 1)
    } else {
        links_upto(lines, registry, n - 1) + links_in_line(
            (n - 1) as usize,
            lines[n - 1],
            registry,
        )
    }
}

/// The links of a document, line by line and in each line from left to right.
pub open spec fn links_of(lines: Seq<Seq<char>>, registry: Seq<DefinitionView>) -> Seq<LinkView> {
    links_upto(lines, registry, lines.len() as int)
}

/// The links of a document.
pub fn find_links(lines: &Vec<Vec<char>>, registry: &Vec<Definition>) -> (r: Vec<Link>)
    ensures
        link_views(r@) == links_of(views(lines@), definition_views(registry@)),
{
    let ghost ls = views(lines@);
    let ghost reg = definition_views(registry@);
    let mut links: Vec<Link> = Vec::new();
    let mut open = false;
    let mut i: usize = 0;
    assert(link_views(links@) =~= links_upto(ls, reg, 0));
    while i < lines.len()
        invariant
            i <= lines.len(),
            ls == views(lines@),
            reg == definition_views(registry@),
            open == fence_open(ls, i as int),
            link_views(links@) == links_upto(ls, reg, i as int),
        decreases lines.len() - i,
    {
        assert(ls[i as int] == lines@[i as int]@);
        if is_code_block_chars(&lines[i]) {
            open = !open;
        } else if !open {
            let mut found = find_line_links(i, &lines[i], registry);
            let ghost before = link_views(links@);
            let ghost added = link_views(found@);
            links.append(&mut found);
            assert(link_views(links@) =~= before + added);
        }
        i += 1;
    }
    links
}

} // verus!
