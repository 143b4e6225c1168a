//! The ids of reference links: which textual ids are in use, which numbers the
//! inline links are given, and the definition lines that follow from both.

use vstd::prelude::*;
use crate::links::{
    copy_target, link_views, same_target, Link, LinkKind, LinkView, Target, TargetView,
};
use crate::number::{
    decimal, decimal_is_read_back, decimal_of_wide, decimal_tells_apart, number_value,
    parse_number, parsed,
};
use crate::text::{blank, copy, is_blank, push_all, same, trim, trimmed, views};

verus! {

/// A textual id in use, and where it leads.
pub struct Named {
    pub id: Vec<char>,
    pub target: Target,
}

/// The value of a `Named`.
pub struct NamedView {
    pub id: Seq<char>,
    pub target: TargetView,
}

impl View for Named {
    type V = NamedView;

    open spec fn view(&self) -> NamedView {
        NamedView { id: self.id@, target: self.target@ }
    }
}

/// The values of a vector of textual ids.
pub open spec fn named_views(v: Seq<Named>) -> Seq<NamedView> {
    v.map_values(|n: Named| n@)
}

/// The values of a vector of targets.
pub open spec fn targets_view(v: Seq<Target>) -> Seq<TargetView> {
    v.map_values(|t: Target| t@)
}

/// The index of the first of the first `n` textual ids that is `id`; -1 where
/// none is.
pub open spec fn id_index(named: Seq<NamedView>, id: Seq<char>, n: int) -> int
    decreases n,
{
    if n <= 0 || n > named.len() {
        -1
    } else if id_index(named, id, n - 1) >= 0 {
        id_index(named, id, n - 1)
    } else if named[n - 1].id == id {
        n - 1
    } else {
        -1
    }
}

/// Whether a link keeps a textual id: it is a reference or an implicit link, and
/// it leads somewhere.
pub open spec fn keeps_id(l: LinkView) -> bool {
    l.kind != LinkKind::Inline && l.target.url.len() > 0
}

/// Whether a link is given a number: it is an inline link, and it leads somewhere.
pub open spec fn takes_number(l: LinkView) -> bool {
    l.kind == LinkKind::Inline && l.target.url.len() > 0
}

/// The textual ids that the first `n` links keep, in the order of their first
/// use; each leads where its last use leads.
pub open spec fn named_upto(links: Seq<LinkView>, n: int) -> Seq<NamedView>
    decreases n,
{
    if n <= 0 || n > links.len() {
        Seq::<NamedView>::empty()
    } else {
        let before = named_upto(links, n - 1);
        let l = links[n - 1];
        if !keeps_id(l) {
            before
        } else if id_index(before, l.id, before.len() as int) >= 0 {
            before.update(
                id_index(before, l.id, before.len() as int),
                NamedView { id: l.id, target: l.target },
            )
        } else {
            before.push(NamedView { id: l.id, target: l.target })
        }
    }
}

/// The textual ids that the links keep.
pub open spec fn named_of(links: Seq<LinkView>) -> Seq<NamedView> {
    named_upto(links, links.len() as int)
}

/// The index of the first of the first `n` targets that is `t`; -1 where none is.
pub open spec fn target_index(targets: Seq<TargetView>, t: TargetView, n: int) -> int
    decreases n,
{
    if n <= 0 || n > targets.len() {
        -1
    } else if target_index(targets, t, n - 1) >= 0 {
        target_index(targets, t, n - 1)
    } else if targets[n - 1] == t {
        n - 1
    } else {
        -1
    }
}

/// The targets that the inline links among the first `n` links lead to, each
/// once, in the order of their first use.
pub open spec fn numbered_upto(links: Seq<LinkView>, n: int) -> Seq<TargetView>
    decreases n,
{
    if n <= 0 || n > links.len() {
        Seq::<TargetView>::empty()
    } else {
        let before = numbered_upto(links, n - 1);
        let l = links[n - 1];
        if takes_number(l) && target_index(before, l.target, before.len() as int) < 0 {
            before.push(l.target)
        } else {
            before
        }
    }
}

/// The targets that are given numbers.
pub open spec fn numbered_of(links: Seq<LinkView>) -> Seq<TargetView> {
    numbered_upto(links, links.len() as int)
}

/// The number that `id` writes, where it writes one that fits the machine's
/// word; 0 otherwise.
pub open spec fn id_number(id: Seq<char>) -> nat {
    match parsed(id) {
        Some(v) => v as nat,
        None => 0,
    }
}

/// The greatest of the numbers of the first `n` textual ids.
pub open spec fn highest_number(named: Seq<NamedView>, n: int) -> nat
    decreases n,
{
    if n <= 0 || n > named.len() {
        0
    } else if id_number(named[n - 1].id) > highest_number(named, n - 1) {
        id_number(named[n - 1].id)
    } else {
        highest_number(named, n - 1)
    }
}

/// The number from which the numbers for the inline links are looked for: one
/// more than the greatest number of a textual id.
pub open spec fn first_number(named: Seq<NamedView>) -> nat {
    highest_number(named, named.len() as int) + 1
}

/// Whether one of the textual ids in use is `id`.
pub open spec fn id_in_use(named: Seq<NamedView>, id: Seq<char>) -> bool {
    id_index(named, id, named.len() as int) >= 0
}

/// The least number at or above `from` whose decimal is no textual id in use,
/// looked for in at most `tries` steps.
pub open spec fn free_within(named: Seq<NamedView>, from: nat, tries: nat) -> nat
    decreases tries,
{
    if tries > 0 && id_in_use(named, decimal(from)) {
        free_within(named, from + 1, (tries - 1) as nat)
    } else {
        from
    }
}

/// The least number at or above `from` whose decimal is no textual id in use.
/// There are no more ids to pass over than there are ids, so as many steps
/// suffice.
pub open spec fn free_from(named: Seq<NamedView>, from: nat) -> nat {
    free_within(named, from, named.len())
}

/// The number that is given to target `k` of the targets of the inline links: for
/// the first target the least free number from `first_number` on, for each
/// further target the least free number after the number before.
pub open spec fn number_given(named: Seq<NamedView>, k: nat) -> nat
    decreases k,
{
    if k == 0 {
        free_from(named, first_number(named))
    } else {
        free_from(named, number_given(named, (k - 1) as nat) + 1)
    }
}

/// The numbers that are given to `count` targets.
pub open spec fn numbers_given(named: Seq<NamedView>, count: nat) -> Seq<nat> {
    Seq::new(count, |k: int| number_given(named, k as nat))
}

/// The numbers of a vector of numbers.
pub open spec fn naturals(v: Seq<u128>) -> Seq<nat> {
    v.map_values(|n: u128| n as nat)
}

/// How many of the first `n` textual ids write a number that is at least `from`.
pub open spec fn ids_at_least(named: Seq<NamedView>, from: nat, n: int) -> nat
    decreases n,
{
    if n <= 0 || n > named.len() {
        0
    } else {
        ids_at_least(named, from, n - 1) + if number_value(named[n - 1].id) is Some
            && number_value(named[n - 1].id)->0 >= from {
            1nat
        } else {
            0nat
        }
    }
}

proof fn ids_at_least_falls(named: Seq<NamedView>, from: nat, n: int)
    requires
        0 <= n <= named.len(),
    ensures
        ids_at_least(named, from + 1, n) <= ids_at_least(named, from, n) <= n,
        forall|k: int|
            0 <= k < n && number_value(#[trigger] named[k].id) == Some(from) ==> ids_at_least(
                named,
                from + 1,
                n,
            ) < ids_at_least(named, from, n),
    decreases n,
{
    if n > 0 {
        ids_at_least_falls(named, from, n - 1);
    }
}

proof fn id_in_use_is_counted(named: Seq<NamedView>, from: nat)
    requires
        id_in_use(named, decimal(from)),
    ensures
        ids_at_least(named, from + 1, named.len() as int) < ids_at_least(
            named,
            from,
            named.len() as int,
        ),
{
    id_index_finds(named, decimal(from), named.len() as int);
    decimal_is_read_back(from);
    ids_at_least_falls(named, from, named.len() as int);
    let k = id_index(named, decimal(from), named.len() as int);
    assert(number_value(named[k].id) == Some(from));
}

proof fn free_within_is_free(named: Seq<NamedView>, from: nat, tries: nat)
    requires
        tries >= ids_at_least(named, from, named.len() as int),
    ensures
        free_within(named, from, tries) >= from,
        !id_in_use(named, decimal(free_within(named, from, tries))),
    decreases tries,
{
    if id_in_use(named, decimal(from)) {
        id_in_use_is_counted(named, from);
        free_within_is_free(named, from + 1, (tries - 1) as nat);
    }
}

/// The number that `free_from` finds is at or above the number that it looks
/// from, and its decimal is no textual id in use.
pub proof fn free_from_is_free(named: Seq<NamedView>, from: nat)
    ensures
        free_from(named, from) >= from,
        !id_in_use(named, decimal(free_from(named, from))),
{
    ids_at_least_falls(named, from, named.len() as int);
    free_within_is_free(named, from, named.len());
}

/// The numbers that are given rise: a later target is given a greater number.
pub proof fn numbers_given_rise(named: Seq<NamedView>, a: nat, b: nat)
    requires
        a < b,
    ensures
        number_given(named, a) < number_given(named, b),
    decreases b,
{
    free_from_is_free(named, number_given(named, (b - 1) as nat) + 1);
    if a < b - 1 {
        numbers_given_rise(named, a, (b - 1) as nat);
    }
}

/// No number that is given to an inline link is written like a textual id in use,
/// whatever the ids are and however many numbers are given: an id is never used
/// twice.
pub proof fn numbers_are_fresh(named: Seq<NamedView>, k: int, j: nat)
    requires
        0 <= k < named.len(),
    ensures
        named[k].id != decimal(number_given(named, j)),
{
    if j == 0 {
        free_from_is_free(named, first_number(named));
    } else {
        free_from_is_free(named, number_given(named, (j - 1) as nat) + 1);
    }
    id_index_finds(named, decimal(number_given(named, j)), named.len() as int);
}

/// The index of the first textual id that is `id`.
pub fn find_id(named: &Vec<Named>, id: &Vec<char>) -> (r: Option<usize>)
    ensures
        match r {
            Some(i) => i == id_index(named_views(named@), id@, named.len() as int) && i
                < named.len(),
            None => id_index(named_views(named@), id@, named.len() as int) == -1,
        },
{
    let ghost ns = named_views(named@);
    let mut n: usize = 0;
    while n < named.len()
        invariant
            n <= named.len(),
            ns == named_views(named@),
            id_index(ns, id@, n as int) == -1,
        decreases named.len() - n,
    {
        assert(ns[n as int] == named@[n as int]@);
        if same(&named[n].id, id) {
            proof {
                id_index_stays(ns, id@, n + 1, named.len() as int);
            }
            return Some(n);
        }
        n += 1;
    }
    None
}

proof fn id_index_stays(named: Seq<NamedView>, id: Seq<char>, n: int, m: int)
    requires
        0 <= n <= m <= named.len(),
        id_index(named, id, n) >= 0,
    ensures
        id_index(named, id, m) == id_index(named, id, n),
    decreases m - n,
{
    if n < m {
        id_index_stays(named, id, n, m - 1);
    }
}

/// The index of the first target that is `t`.
pub fn find_target(targets: &Vec<Target>, t: &Target) -> (r: Option<usize>)
    ensures
        match r {
            Some(i) => i == target_index(targets_view(targets@), t@, targets.len() as int) && i
                < targets.len(),
            None => target_index(targets_view(targets@), t@, targets.len() as int) == -1,
        },
{
    let ghost ts = targets_view(targets@);
    let mut n: usize = 0;
    while n < targets.len()
        invariant
            n <= targets.len(),
            ts == targets_view(targets@),
            target_index(ts, t@, n as int) == -1,
        decreases targets.len() - n,
    {
        assert(ts[n as int] == targets@[n as int]@);
        if same_target(&targets[n], t) {
            proof {
                target_index_stays(ts, t@, n + 1, targets.len() as int);
            }
            return Some(n);
        }
        n += 1;
    }
    None
}

proof fn target_index_stays(targets: Seq<TargetView>, t: TargetView, n: int, m: int)
    requires
        0 <= n <= m <= targets.len(),
        target_index(targets, t, n) >= 0,
    ensures
        target_index(targets, t, m) == target_index(targets, t, n),
    decreases m - n,
{
    if n < m {
        target_index_stays(targets, t, n, m - 1);
    }
}

/// The textual ids that the links keep.
pub fn collect_named(links: &Vec<Link>) -> (r: Vec<Named>)
    ensures
        named_views(r@) == named_of(link_views(links@)),
{
    let ghost ls = link_views(links@);
    let mut named: Vec<Named> = Vec::new();
    let mut i: usize = 0;
    assert(named_views(named@) =~= named_upto(ls, 0));
    while i < links.len()
        invariant
            i <= links.len(),
            ls == link_views(links@),
            named_views(named@) == named_upto(ls, i as int),
        decreases links.len() - i,
    {
        assert(ls[i as int] == links@[i as int]@);
        let l = &links[i];
        let inline = match l.kind {
            LinkKind::Inline => true,
            _ => false,
        };
        if !inline && l.target.url.len() > 0 {
            let ghost before = named_views(named@);
            let entry = Named { id: copy(&l.id), target: copy_target(&l.target) };
            match find_id(&named, &l.id) {
                Some(at) => {
                    named.set(at, entry);
                    assert(named_views(named@) =~= before.update(at as int, entry@));
                },
                None => {
                    named.push(entry);
                    assert(named_views(named@) =~= before.push(entry@));
                },
            }
        }
        i += 1;
    }
    named
}

/// The targets that are given numbers.
pub fn collect_numbered(links: &Vec<Link>) -> (r: Vec<Target>)
    ensures
        targets_view(r@) == numbered_of(link_views(links@)),
{
    let ghost ls = link_views(links@);
    let mut numbered: Vec<Target> = Vec::new();
    let mut i: usize = 0;
    assert(targets_view(numbered@) =~= numbered_upto(ls, 0));
    while i < links.len()
        invariant
            i <= links.len(),
            ls == link_views(links@),
            targets_view(numbered@) == numbered_upto(ls, i as int),
        decreases links.len() - i,
    {
        assert(ls[i as int] == links@[i as int]@);
        let l = &links[i];
        let inline = match l.kind {
            LinkKind::Inline => true,
            _ => false,
        };
        if inline && l.target.url.len() > 0 && find_target(&numbered, &l.target).is_none() {
            let ghost before = targets_view(numbered@);
            let t = copy_target(&l.target);
            numbered.push(t);
            assert(targets_view(numbered@) =~= before.push(l.target@));
        }
        i += 1;
    }
    numbered
}

/// The first number that is given to an inline link.
pub fn find_first_number(named: &Vec<Named>) -> (r: u128)
    ensures
        r == first_number(named_views(named@)),
        r <= usize::MAX + 1,
{
    let ghost ns = named_views(named@);
    let mut highest: usize = 0;
    let mut i: usize = 0;
    while i < named.len()
        invariant
            i <= named.len(),
            ns == named_views(named@),
            highest == highest_number(ns, i as int),
        decreases named.len() - i,
    {
        assert(ns[i as int] == named@[i as int]@);
        match parse_number(&named[i].id) {
            Some(v) => {
                if v > highest {
                    highest = v;
                }
            },
            None => {},
        }
        i += 1;
    }
    highest as u128 + 1
}

/// The numbers that are given to `count` targets: rising from `first_number` on,
/// without the numbers whose decimal is a textual id in use.
pub fn give_numbers(named: &Vec<Named>, count: usize) -> (r: Vec<u128>)
    ensures
        naturals(r@) == numbers_given(named_views(named@), count as nat),
{
    let ghost ns = named_views(named@);
    let ghost len = named.len() as int;
    assert(ns.len() == len);
    let mut numbers: Vec<u128> = Vec::new();
    let mut candidate: u128 = find_first_number(named);
    let ghost skips: nat = 0;
    proof {
        ids_at_least_falls(ns, candidate as nat, len);
    }
    let mut k: usize = 0;
    while k < count
        invariant
            k <= count,
            ns == named_views(named@),
            len == named.len(),
            numbers.len() == k,
            forall|q: int| 0 <= q < k ==> #[trigger] numbers@[q] == number_given(ns, q as nat),
            candidate == first_number(ns) + k + skips,
            skips + ids_at_least(ns, candidate as nat, len) <= len,
            first_number(ns) <= usize::MAX + 1,
            candidate as nat == if k == 0 {
                first_number(ns)
            } else {
                number_given(ns, (k - 1) as nat) + 1
            },
        decreases count - k,
    {
        let ghost from = candidate as nat;
        let ghost tries: nat = len as nat;
        proof {
            ids_at_least_falls(ns, from, len);
        }
        while find_id(named, &decimal_of_wide(candidate)).is_some()
            invariant
                ns == named_views(named@),
                len == named.len(),
                k < count,
                candidate == first_number(ns) + k + skips,
                skips + ids_at_least(ns, candidate as nat, len) <= len,
                first_number(ns) <= usize::MAX + 1,
                tries >= ids_at_least(ns, candidate as nat, len),
                free_within(ns, candidate as nat, tries) == free_within(ns, from, len as nat),
            decreases ids_at_least(ns, candidate as nat, len),
        {
            proof {
                id_in_use_is_counted(ns, candidate as nat);
                skips = skips + 1;
                tries = (tries - 1) as nat;
            }
            candidate += 1;
        }
        assert(candidate as nat == number_given(ns, k as nat));
        numbers.push(candidate);
        proof {
            ids_at_least_falls(ns, candidate as nat, len);
        }
        candidate += 1;
        k += 1;
    }
    assert(naturals(numbers@) =~= numbers_given(ns, count as nat));
    numbers
}

/// What a target is written as in parentheses or after a definition's colon: the
/// URL, and after a space the title in double quotes where there is one.
pub open spec fn target_text(t: TargetView) -> Seq<char> {
    match t.title {
        Some(title) => t.url + seq![' ', '"'] + title + seq!['"'],
        None => t.url,
    }
}

/// Appends what `t` is written as to `out`.
pub fn push_target(out: &mut Vec<char>, t: &Target)
    ensures
        final(out)@ == old(out)@ + target_text(t@),
{
    push_all(out, &t.url);
    match &t.title {
        Some(title) => {
            out.push(' ');
            out.push('"');
            push_all(out, title);
            out.push('"');
            assert(out@ =~= old(out)@ + target_text(t@));
        },
        None => {},
    }
}

/// The link `l` written as an inline link.
pub open spec fn inline_form(l: LinkView) -> Seq<char> {
    seq!['['] + l.text + seq![']', '('] + target_text(l.target) + seq![')']
}

/// The link `l` written as a reference link: a reference link with its id, an
/// implicit link as its text alone, an inline link with the number of its
/// target. `None` for an inline link whose target has no number.
pub open spec fn reference_form(
    l: LinkView,
    numbered: Seq<TargetView>,
    numbers: Seq<nat>,
) -> Option<Seq<char>> {
    match l.kind {
        LinkKind::Reference => Some(seq!['['] + l.text + seq![']', '['] + l.id + seq![']']),
        LinkKind::Implicit => Some(seq!['['] + l.text + seq![']']),
        LinkKind::Inline => if 0 <= target_index(numbered, l.target, numbered.len() as int)
            < numbers.len() {
            Some(
                seq!['['] + l.text + seq![']', '['] + decimal(
                    numbers[target_index(numbered, l.target, numbered.len() as int)],
                ) + seq![']'],
            )
        } else {
            None
        },
    }
}

/// The link `l` written as an inline link.
pub fn write_inline(l: &Link) -> (r: Vec<char>)
    ensures
        r@ == inline_form(l@),
{
    let mut r: Vec<char> = Vec::new();
    r.push('[');
    push_all(&mut r, &l.text);
    r.push(']');
    r.push('(');
    push_target(&mut r, &l.target);
    r.push(')');
    assert(r@ =~= inline_form(l@));
    r
}

/// The link `l` written as a reference link.
pub fn write_reference(l: &Link, numbered: &Vec<Target>, numbers: &Vec<u128>) -> (r: Option<
    Vec<char>,
>)
    ensures
        match r {
            Some(v) => reference_form(l@, targets_view(numbered@), naturals(numbers@)) == Some(v@),
            None => reference_form(l@, targets_view(numbered@), naturals(numbers@)) is None,
        },
{
    let mut r: Vec<char> = Vec::new();
    r.push('[');
    push_all(&mut r, &l.text);
    r.push(']');
    match l.kind {
        LinkKind::Reference => {
            r.push('[');
            push_all(&mut r, &l.id);
            r.push(']');
            assert(r@ =~= seq!['['] + l@.text + seq![']', '['] + l@.id + seq![']']);
            Some(r)
        },
        LinkKind::Implicit => {
            assert(r@ =~= seq!['['] + l@.text + seq![']']);
            Some(r)
        },
        LinkKind::Inline => match find_target(numbered, &l.target) {
            Some(k) => if k < numbers.len() {
                r.push('[');
                push_all(&mut r, &decimal_of_wide(numbers[k]));
                r.push(']');
                assert(r@ =~= seq!['['] + l@.text + seq![']', '['] + decimal(
                    naturals(numbers@)[k as int],
                ) + seq![']']);
                Some(r)
            } else {
                None
            },
            None => None,
        },
    }
}

/// The definition line for `id`: the id in brackets, a colon and a space, the
/// target, and a line feed.
pub open spec fn definition_line(id: Seq<char>, t: TargetView) -> Seq<char> {
    seq!['['] + id + seq![']', ':', ' '] + target_text(t) + seq!['\n']
}

/// The definition line for `id`.
pub fn write_definition(id: &Vec<char>, t: &Target) -> (r: Vec<char>)
    ensures
        r@ == definition_line(id@, t@),
{
    let mut r: Vec<char> = Vec::new();
    r.push('[');
    push_all(&mut r, id);
    r.push(']');
    r.push(':');
    r.push(' ');
    push_target(&mut r, t);
    r.push('\n');
    assert(r@ =~= definition_line(id@, t@));
    r
}

/// How many of the targets have a number.
pub open spec fn numbered_count(numbered: Seq<TargetView>, numbers: Seq<nat>) -> nat {
    if numbers.len() < numbered.len() {
        numbers.len()
    } else {
        numbered.len()
    }
}

/// The definition lines of a document: those of the textual ids in the order of
/// their first use, then those of the targets that have a number, in the order of
/// the targets.
pub open spec fn definition_lines(
    named: Seq<NamedView>,
    numbered: Seq<TargetView>,
    numbers: Seq<nat>,
) -> Seq<Seq<char>> {
    Seq::new(named.len(), |k: int| definition_line(named[k].id, named[k].target)) + Seq::new(
        numbered_count(numbered, numbers),
        |k: int| definition_line(decimal(numbers[k]), numbered[k]),
    )
}

/// The definition lines of a document.
pub fn write_definitions(named: &Vec<Named>, numbered: &Vec<Target>, numbers: &Vec<u128>) -> (r:
    Vec<Vec<char>>)
    ensures
        views(r@) == definition_lines(
            named_views(named@),
            targets_view(numbered@),
            naturals(numbers@),
        ),
{
    let ghost ns = named_views(named@);
    let ghost ts = targets_view(numbered@);
    let ghost nums = naturals(numbers@);
    let count = if numbers.len() < numbered.len() {
        numbers.len()
    } else {
        numbered.len()
    };
    let mut r: Vec<Vec<char>> = Vec::new();
    let mut i: usize = 0;
    while i < named.len()
        invariant
            i <= named.len(),
            ns == named_views(named@),
            r.len() == i,
            forall|q: int|
                0 <= q < i ==> (#[trigger] r@[q])@ == definition_line(ns[q].id, ns[q].target),
        decreases named.len() - i,
    {
        assert(ns[i as int] == named@[i as int]@);
        r.push(write_definition(&named[i].id, &named[i].target));
        i += 1;
    }
    let mut k: usize = 0;
    while k < count
        invariant
            k <= count,
            count == numbered_count(ts, nums),
            ns == named_views(named@),
            ts == targets_view(numbered@),
            nums == naturals(numbers@),
            r.len() == named.len() + k,
            forall|q: int|
                0 <= q < named.len() ==> (#[trigger] r@[q])@ == definition_line(
                    ns[q].id,
                    ns[q].target,
                ),
            forall|q: int|
                0 <= q < k ==> (#[trigger] r@[named.len() + q])@ == definition_line(
                    decimal(nums[q]),
                    ts[q],
                ),
        decreases count - k,
    {
        assert(ts[k as int] == numbered@[k as int]@);
        let id = decimal_of_wide(numbers[k]);
        r.push(write_definition(&id, &numbered[k]));
        k += 1;
    }
    assert(views(r@) =~= definition_lines(ns, ts, nums)) by {
        assert forall|q: int| 0 <= q < r.len() implies views(r@)[q] == definition_lines(
            ns,
            ts,
            nums,
        )[q] by {
            if q >= named.len() {
                assert(r@[named.len() + (q - named.len())] == r@[q]);
            }
        }
    }
    r
}

/// The length of `lines` without the blank lines at its end.
pub open spec fn unblank_end(lines: Seq<Seq<char>>, n: int) -> int
    decreases n,
{
    if 0 < n <= lines.len() && is_blank(lines[n - 1]) {
        unblank_end(lines, n - 1)
    } else {
        n
    }
}

/// `lines` with the definitions at the end: the blank lines at the end go, and
/// the definitions follow after one blank line. Without definitions the lines
/// stay as they are.
pub open spec fn placed_at_end(lines: Seq<Seq<char>>, definitions: Seq<Seq<char>>) -> Seq<
    Seq<char>,
> {
    if definitions.len() > 0 {
        lines.take(unblank_end(lines, lines.len() as int)).push(seq!['\n']) + definitions
    } else {
        lines
    }
}

/// Whether `line` is a fence of front matter: three dashes and whitespace.
pub open spec fn front_matter_fence(line: Seq<char>) -> bool {
    trim(line) == seq!['-', '-', '-']
}

/// The index of the first fence of front matter at or after line `i`; the number
/// of lines where there is none.
pub open spec fn next_fence(lines: Seq<Seq<char>>, i: int) -> int
    decreases lines.len() - i,
{
    if 0 <= i < lines.len() && !front_matter_fence(lines[i]) {
        next_fence(lines, i + 1)
    } else {
        i
    }
}

/// Where definitions go at the beginning of a document: after the front matter
/// that it begins with, else before its first line.
pub open spec fn beginning(lines: Seq<Seq<char>>) -> int {
    if lines.len() > 0 && front_matter_fence(lines[0]) && next_fence(lines, 1) < lines.len() {
        next_fence(lines, 1) + 1
    } else {
        0
    }
}

/// Whether a blank line goes before the definitions that are put before line
/// `at`: they follow front matter, or the line that they are put before is not blank.
pub open spec fn blank_goes_before(lines: Seq<Seq<char>>, at: int) -> bool {
    at > 0 || (0 <= at < lines.len() && !is_blank(lines[at]))
}

/// Whether a blank line goes after the definitions that are put before line `at`:
/// the line is there and not blank.
pub open spec fn blank_goes_after(lines: Seq<Seq<char>>, at: int) -> bool {
    0 <= at < lines.len() && !is_blank(lines[at])
}

/// One blank line where `wanted` holds, else nothing.
pub open spec fn blank_lines(wanted: bool) -> Seq<Seq<char>> {
    if wanted {
        seq![seq!['\n']]
    } else {
        Seq::<Seq<char>>::empty()
    }
}

/// `lines` with the definitions at the beginning: after the front matter that the
/// document begins with, else before its first line. A blank line stands between
/// front matter and the definitions, and between the definitions and the text
/// that follows them. Without definitions the lines stay as they are.
pub open spec fn placed_at_beginning(lines: Seq<Seq<char>>, definitions: Seq<Seq<char>>) -> Seq<
    Seq<char>,
> {
    let at = beginning(lines);
    if definitions.len() > 0 {
        lines.take(at) + blank_lines(blank_goes_before(lines, at)) + definitions + blank_lines(
            blank_goes_after(lines, at),
        ) + lines.skip(at)
    } else {
        lines
    }
}

/// A line that holds a line feed and nothing else.
pub fn blank_line() -> (r: Vec<char>)
    ensures
        r@ == seq!['\n'],
{
    let mut r: Vec<char> = Vec::new();
    r.push('\n');
    r
}

/// Whether `line` is a fence of front matter.
pub fn is_front_matter_fence(line: &Vec<char>) -> (r: bool)
    ensures
        r == front_matter_fence(line@),
{
    let t = trimmed(line);
    let r = t.len() == 3 && t[0] == '-' && t[1] == '-' && t[2] == '-';
    assert(r ==> t@ =~= seq!['-', '-', '-']);
    r
}

/// Appends copies of the lines `src[from..to]` to `out`.
pub fn push_lines(out: &mut Vec<Vec<char>>, src: &Vec<Vec<char>>, from: usize, to: usize)
    requires
        from <= to <= src.len(),
    ensures
        views(final(out)@) == views(old(out)@) + views(src@).subrange(from as int, to as int),
{
    let mut i: usize = from;
    assert(views(out@) =~= views(old(out)@) + views(src@).subrange(from as int, from as int));
    while i < to
        invariant
            from <= i <= to <= src.len(),
            views(out@) == views(old(out)@) + views(src@).subrange(from as int, i as int),
        decreases to - i,
    {
        let ghost before = views(out@);
        out.push(copy(&src[i]));
        assert(views(out@) =~= before.push(src@[i as int]@));
        assert(views(out@) =~= views(old(out)@) + views(src@).subrange(from as int, i + 1));
        i += 1;
    }
}

/// Puts the definitions at the end of `lines`.
pub fn place_at_end(lines: &Vec<Vec<char>>, definitions: &Vec<Vec<char>>) -> (r: Vec<Vec<char>>)
    ensures
        views(r@) == placed_at_end(views(lines@), views(definitions@)),
{
    let ghost ls = views(lines@);
    let mut out: Vec<Vec<char>> = Vec::new();
    assert(views(out@) =~= Seq::<Seq<char>>::empty());
    if definitions.len() == 0 {
        push_lines(&mut out, lines, 0, lines.len());
        assert(ls.subrange(0, lines.len() as int) =~= ls);
        return out;
    }
    let mut n: usize = lines.len();
    while n > 0 && blank(&lines[n - 1])
        invariant
            n <= lines.len(),
            ls == views(lines@),
            unblank_end(ls, lines.len() as int) == unblank_end(ls, n as int),
        decreases n,
    {
        assert(ls[n - 1] == lines@[n - 1]@);
        n -= 1;
    }
    assert(n > 0 ==> ls[n - 1] == lines@[n - 1]@);
    push_lines(&mut out, lines, 0, n);
    let ghost kept = views(out@);
    out.push(blank_line());
    assert(views(out@) =~= kept.push(seq!['\n']));
    push_lines(&mut out, definitions, 0, definitions.len());
    assert(views(definitions@).subrange(0, definitions.len() as int) =~= views(definitions@));
    assert(views(out@) =~= placed_at_end(ls, views(definitions@)));
    out
}

/// Puts the definitions at the beginning of `lines`.
pub fn place_at_beginning(lines: &Vec<Vec<char>>, definitions: &Vec<Vec<char>>) -> (r: Vec<
    Vec<char>,
>)
    ensures
        views(r@) == placed_at_beginning(views(lines@), views(definitions@)),
{
    let ghost ls = views(lines@);
    let ghost ds = views(definitions@);
    let mut out: Vec<Vec<char>> = Vec::new();
    assert(views(out@) =~= Seq::<Seq<char>>::empty());
    if definitions.len() == 0 {
        push_lines(&mut out, lines, 0, lines.len());
        assert(ls.subrange(0, lines.len() as int) =~= ls);
        return out;
    }
    let mut at: usize = 0;
    if lines.len() > 0 {
        assert(ls[0] == lines@[0]@);
        if is_front_matter_fence(&lines[0]) {
            let mut i: usize = 1;
            while i < lines.len() && !is_front_matter_fence(&lines[i])
                invariant
                    1 <= i <= lines.len(),
                    ls == views(lines@),
                    next_fence(ls, 1) == next_fence(ls, i as int),
                decreases lines.len() - i,
            {
                assert(ls[i as int] == lines@[i as int]@);
                i += 1;
            }
            assert(i < lines.len() ==> ls[i as int] == lines@[i as int]@);
            if i < lines.len() {
                at = i + 1;
            }
        }
    }
    assert(at == beginning(ls));
    let after = at < lines.len() && !blank(&lines[at]);
    assert(at < lines.len() ==> ls[at as int] == lines@[at as int]@);
    let before = at > 0 || after;
    push_lines(&mut out, lines, 0, at);
    if before {
        let ghost so_far = views(out@);
        out.push(blank_line());
        assert(views(out@) =~= so_far + blank_lines(true));
    } else {
        assert(views(out@) =~= views(out@) + blank_lines(false));
    }
    push_lines(&mut out, definitions, 0, definitions.len());
    assert(ds.subrange(0, definitions.len() as int) =~= ds);
    if after {
        let ghost so_far = views(out@);
        out.push(blank_line());
        assert(views(out@) =~= so_far + blank_lines(true));
    } else {
        assert(views(out@) =~= views(out@) + blank_lines(false));
    }
    push_lines(&mut out, lines, at, lines.len());
    assert(views(out@) =~= placed_at_beginning(ls, ds));
    out
}

proof fn target_index_finds(targets: Seq<TargetView>, t: TargetView, n: int)
    requires
        0 <= n <= targets.len(),
    ensures
        -1 <= target_index(targets, t, n) < n,
        target_index(targets, t, n) >= 0 ==> targets[target_index(targets, t, n)] == t,
        target_index(targets, t, n) == -1 ==> forall|i: int|
            0 <= i < n ==> #[trigger] targets[i] != t,
    decreases n,
{
    if n > 0 {
        target_index_finds(targets, t, n - 1);
    }
}

proof fn numbered_holds_targets(links: Seq<LinkView>, m: int, j: int)
    requires
        0 <= j < m <= links.len(),
        takes_number(links[j]),
    ensures
        target_index(
            numbered_upto(links, m),
            links[j].target,
            numbered_upto(links, m).len() as int,
        ) >= 0,
    decreases m,
{
    let before = numbered_upto(links, m - 1);
    let now = numbered_upto(links, m);
    let t = links[j].target;
    target_index_finds(before, t, before.len() as int);
    target_index_finds(now, t, now.len() as int);
    if j < m - 1 {
        numbered_holds_targets(links, m - 1, j);
        let at = target_index(before, t, before.len() as int);
        assert(now[at] == before[at]);
    } else {
        target_index_finds(before, links[m - 1].target, before.len() as int);
        let at = target_index(before, t, before.len() as int);
        if at >= 0 {
            assert(now[at] == before[at]);
        } else {
            assert(now[now.len() - 1] == t);
        }
    }
}

/// The number that the inline link `l` is given among `links`, where the textual
/// ids in use are `named`: the number of its target among the targets of the
/// inline links.
pub open spec fn link_number(links: Seq<LinkView>, named: Seq<NamedView>, l: LinkView) -> nat {
    number_given(
        named,
        target_index(numbered_of(links), l.target, numbered_of(links).len() as int) as nat,
    )
}

/// Every inline link is written with its number as its id, and two inline links
/// are given the same id exactly where they lead to the same place: the same URL
/// with the same title.
pub proof fn numbers_tell_targets_apart(
    links: Seq<LinkView>,
    named: Seq<NamedView>,
    j: int,
    k: int,
)
    requires
        0 <= j < links.len(),
        0 <= k < links.len(),
        takes_number(links[j]),
        takes_number(links[k]),
    ensures
        reference_form(
            links[j],
            numbered_of(links),
            numbers_given(named, numbered_of(links).len()),
        ) == Some(
            seq!['['] + links[j].text + seq![']', '['] + decimal(
                link_number(links, named, links[j]),
            ) + seq![']'],
        ),
        (decimal(link_number(links, named, links[j])) == decimal(
            link_number(links, named, links[k]),
        )) <==> links[j].target == links[k].target,
{
    let ns = numbered_of(links);
    numbered_holds_targets(links, links.len() as int, j);
    numbered_holds_targets(links, links.len() as int, k);
    target_index_finds(ns, links[j].target, ns.len() as int);
    target_index_finds(ns, links[k].target, ns.len() as int);
    let a = target_index(ns, links[j].target, ns.len() as int);
    let b = target_index(ns, links[k].target, ns.len() as int);
    if decimal(number_given(named, a as nat)) == decimal(number_given(named, b as nat)) {
        decimal_tells_apart(number_given(named, a as nat), number_given(named, b as nat));
        if a < b {
            numbers_given_rise(named, a as nat, b as nat);
        }
        if b < a {
            numbers_given_rise(named, b as nat, a as nat);
        }
    }
}

/// The id that an inline link is given is no textual id in use, whatever the ids
/// are: no inline link is written with the id of a link that keeps its id.
pub proof fn given_id_is_no_textual_id(links: Seq<LinkView>, named: Seq<NamedView>, l: LinkView, k: int)
    requires
        0 <= k < named.len(),
    ensures
        named[k].id != decimal(link_number(links, named, l)),
{
    numbers_are_fresh(
        named,
        k,
        target_index(numbered_of(links), l.target, numbered_of(links).len() as int) as nat,
    );
}

/// The definition lines hold no id twice: the textual ids differ from each other,
/// the numbers differ from each other, and no number is written like a textual
/// id.
pub proof fn definition_ids_differ(links: Seq<LinkView>, j: nat, k: nat)
    requires
        j != k,
    ensures
        decimal(number_given(named_of(links), j)) != decimal(number_given(named_of(links), k)),
        j < named_of(links).len() ==> named_of(links)[j as int].id != decimal(
            number_given(named_of(links), k),
        ),
        j < named_of(links).len() && k < named_of(links).len() ==> named_of(links)[j as int].id
            != named_of(links)[k as int].id,
{
    let named = named_of(links);
    if j < k {
        numbers_given_rise(named, j, k);
    } else {
        numbers_given_rise(named, k, j);
    }
    if decimal(number_given(named, j)) == decimal(number_given(named, k)) {
        decimal_tells_apart(number_given(named, j), number_given(named, k));
    }
    if j < named.len() {
        numbers_are_fresh(named, j as int, k);
        if k < named.len() {
            if j < k {
                named_ids_differ(links, links.len() as int, j as int, k as int);
            } else {
                named_ids_differ(links, links.len() as int, k as int, j as int);
            }
        }
    }
}

proof fn id_index_finds(named: Seq<NamedView>, id: Seq<char>, n: int)
    requires
        0 <= n <= named.len(),
    ensures
        -1 <= id_index(named, id, n) < n,
        id_index(named, id, n) >= 0 ==> named[id_index(named, id, n)].id == id,
        id_index(named, id, n) == -1 ==> forall|i: int| 0 <= i < n ==> (#[trigger] named[i]).id != id,
    decreases n,
{
    if n > 0 {
        id_index_finds(named, id, n - 1);
    }
}

/// Each textual id in use is kept once: no two of the ids that get a definition
/// line are the same.
pub proof fn named_ids_differ(links: Seq<LinkView>, n: int, a: int, b: int)
    requires
        0 <= n <= links.len(),
        0 <= a < b < named_upto(links, n).len(),
    ensures
        named_upto(links, n)[a].id != named_upto(links, n)[b].id,
    decreases n,
{
    if n > 0 {
        let before = named_upto(links, n - 1);
        let l = links[n - 1];
        id_index_finds(before, l.id, before.len() as int);
        if b < before.len() {
            named_ids_differ(links, n - 1, a, b);
        }
    }
}

/// A reference link keeps the id that it was written with, and an implicit link
/// stays the text alone that it was.
pub proof fn reference_links_keep_their_ids(l: LinkView, numbered: Seq<TargetView>, numbers: Seq<nat>)
    requires
        l.kind != LinkKind::Inline,
    ensures
        l.kind == LinkKind::Reference ==> reference_form(l, numbered, numbers) == Some(
            seq!['['] + l.text + seq![']', '['] + l.id + seq![']'],
        ),
        l.kind == LinkKind::Implicit ==> reference_form(l, numbered, numbers) == Some(
            seq!['['] + l.text + seq![']'],
        ),
{
}

} // verus!
