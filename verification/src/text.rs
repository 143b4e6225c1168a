//! Character sequences: conversions, copying, comparison, whitespace and trimming.
//!
//! Every text in this library is a `Vec<char>` whose view is a `Seq<char>`;
//! strings are converted at the public surface.

use vstd::prelude::*;

verus! {

/// `String::push` appends one character to the end of the string.
pub assume_specification[ String::push ](s: &mut String, ch: char)
    ensures
        final(s)@ == old(s)@.push(ch),
;

/// The characters of `s`, in order.
pub fn to_chars(s: &str) -> (v: Vec<char>)
    ensures
        v@ == s@,
{
    let mut v: Vec<char> = Vec::new();
    for c in it: s.chars()
        invariant
            v@ == it.seq().take(it.index() as int),
            it.seq() == s@,
    {
        v.push(c);
    }
    v
}

/// The string made of the characters of `v`, in order.
pub fn to_string(v: &Vec<char>) -> (s: String)
    ensures
        s@ == v@,
{
    let mut s = String::new();
    let mut i: usize = 0;
    while i < v.len()
        invariant
            i <= v.len(),
            s@ == v@.take(i as int),
        decreases v.len() - i,
    {
        s.push(v[i]);
        i += 1;
    }
    s
}

/// Appends `src[from..to]` to `out`.
pub fn push_range(out: &mut Vec<char>, src: &Vec<char>, from: usize, to: usize)
    requires
        from <= to <= src.len(),
    ensures
        final(out)@ == old(out)@ + src@.subrange(from as int, to as int),
{
    let mut i: usize = from;
    while i < to
        invariant
            from <= i <= to <= src.len(),
            out@ == old(out)@ + src@.subrange(from as int, i as int),
        decreases to - i,
    {
        out.push(src[i]);
        i += 1;
    }
}

/// Appends all of `src` to `out`.
pub fn push_all(out: &mut Vec<char>, src: &Vec<char>)
    ensures
        final(out)@ == old(out)@ + src@,
{
    push_range(out, src, 0, src.len());
    assert(src@.subrange(0, src.len() as int) =~= src@);
}

/// Appends the characters of `s` to `out`.
pub fn push_str(out: &mut Vec<char>, s: &str)
    ensures
        final(out)@ == old(out)@ + s@,
{
    let v = to_chars(s);
    push_all(out, &v);
}

/// A copy of `src[from..to]`.
pub fn slice(src: &Vec<char>, from: usize, to: usize) -> (r: Vec<char>)
    requires
        from <= to <= src.len(),
    ensures
        r@ == src@.subrange(from as int, to as int),
{
    let mut r: Vec<char> = Vec::new();
    push_range(&mut r, src, from, to);
    r
}

/// A copy of `src`.
pub fn copy(src: &Vec<char>) -> (r: Vec<char>)
    ensures
        r@ == src@,
{
    let mut r: Vec<char> = Vec::new();
    push_all(&mut r, src);
    r
}

/// Whether `a` and `b` hold the same characters.
pub fn same(a: &Vec<char>, b: &Vec<char>) -> (r: bool)
    ensures
        r == (a@ == b@),
{
    if a.len() != b.len() {
        return false;
    }
    let mut i: usize = 0;
    while i < a.len()
        invariant
            i <= a.len(),
            a.len() == b.len(),
            a@.take(i as int) == b@.take(i as int),
        decreases a.len() - i,
    {
        if a[i] != b[i] {
            return false;
        }
        assert(a@.take(i + 1) =~= a@.take(i as int).push(a@[i as int]));
        assert(b@.take(i + 1) =~= b@.take(i as int).push(b@[i as int]));
        i += 1;
    }
    assert(a@.take(a.len() as int) =~= a@);
    assert(b@.take(b.len() as int) =~= b@);
    true
}

/// Whether `a` holds exactly the characters of `s`.
pub fn same_as_str(a: &Vec<char>, s: &str) -> (r: bool)
    ensures
        r == (a@ == s@),
{
    let v = to_chars(s);
    same(a, &v)
}

/// Whether `p` is a prefix of `s`.
pub open spec fn starts_with(s: Seq<char>, p: Seq<char>) -> bool {
    p.len() <= s.len() && s.take(p.len() as int) == p
}

/// Whether `p` is a suffix of `s`.
pub open spec fn ends_with(s: Seq<char>, p: Seq<char>) -> bool {
    p.len() <= s.len() && s.skip(s.len() - p.len()) == p
}

/// Whether `a[at..]` begins with `p`.
pub fn has_at(a: &Vec<char>, at: usize, p: &Vec<char>) -> (r: bool)
    requires
        at <= a.len(),
    ensures
        r == starts_with(a@.skip(at as int), p@),
{
    if p.len() > a.len() - at {
        return false;
    }
    let ghost tail = a@.skip(at as int);
    let mut i: usize = 0;
    while i < p.len()
        invariant
            i <= p.len(),
            at + p.len() <= a.len(),
            tail == a@.skip(at as int),
            tail.take(i as int) == p@.take(i as int),
        decreases p.len() - i,
    {
        if a[at + i] != p[i] {
            assert(tail.take(p.len() as int)[i as int] != p@[i as int]);
            return false;
        }
        assert(tail.take(i + 1) =~= tail.take(i as int).push(tail[i as int]));
        assert(p@.take(i + 1) =~= p@.take(i as int).push(p@[i as int]));
        i += 1;
    }
    assert(p@.take(p.len() as int) =~= p@);
    true
}

/// Whether `a` begins with the characters of `p`.
pub fn begins_with(a: &Vec<char>, p: &str) -> (r: bool)
    ensures
        r == starts_with(a@, p@),
{
    let v = to_chars(p);
    assert(a@.skip(0) =~= a@);
    has_at(a, 0, &v)
}

/// Whether `a` ends with the characters of `p`.
pub fn finishes_with(a: &Vec<char>, p: &str) -> (r: bool)
    ensures
        r == ends_with(a@, p@),
{
    let v = to_chars(p);
    if v.len() > a.len() {
        return false;
    }
    let at = a.len() - v.len();
    let r = has_at(a, at, &v);
    assert(a@.skip(at as int).take(v.len() as int) =~= a@.skip(at as int));
    r
}

/// Whether `a` ends with the character `c`.
pub fn finishes_with_char(a: &Vec<char>, c: char) -> (r: bool)
    ensures
        r == (a@.len() > 0 && a@.last() == c),
{
    a.len() > 0 && a[a.len() - 1] == c
}

/// Whether `a` begins with the character `c`.
pub fn begins_with_char(a: &Vec<char>, c: char) -> (r: bool)
    ensures
        r == (a@.len() > 0 && a@[0] == c),
{
    a.len() > 0 && a[0] == c
}

/// Whether `c` occurs in `a`.
pub fn has_char(a: &Vec<char>, c: char) -> (r: bool)
    ensures
        r == a@.contains(c),
{
    let mut i: usize = 0;
    while i < a.len()
        invariant
            i <= a.len(),
            forall|j: int| 0 <= j < i ==> a@[j] != c,
        decreases a.len() - i,
    {
        if a[i] == c {
            return true;
        }
        i += 1;
    }
    false
}

/// How often `c` occurs in `s`.
pub open spec fn count_of(s: Seq<char>, c: char) -> nat
    decreases s.len(),
{
    if s.len() == 0 {
        0
    } else {
        count_of(s.drop_last(), c) + if s.last() == c {
            1nat
        } else {
            0nat
        }
    }
}

pub proof fn count_of_bound(s: Seq<char>, c: char)
    ensures
        count_of(s, c) <= s.len(),
    decreases s.len(),
{
    if s.len() > 0 {
        count_of_bound(s.drop_last(), c);
    }
}

/// How often `c` occurs in `a`.
pub fn count_char(a: &Vec<char>, c: char) -> (r: usize)
    ensures
        r == count_of(a@, c),
{
    let mut n: usize = 0;
    let mut i: usize = 0;
    while i < a.len()
        invariant
            i <= a.len(),
            n == count_of(a@.take(i as int), c),
            n <= i,
        decreases a.len() - i,
    {
        assert(a@.take(i + 1).drop_last() =~= a@.take(i as int));
        if a[i] == c {
            n += 1;
        }
        i += 1;
    }
    assert(a@.take(a.len() as int) =~= a@);
    n
}

/// The characters that `char::is_whitespace` accepts: the code points with the
/// Unicode property `White_Space`.
pub open spec fn is_space(c: char) -> bool {
    let n = c as u32;
    (0x09 <= n <= 0x0D) || n == 0x20 || n == 0x85 || n == 0xA0 || n == 0x1680 || (0x2000 <= n
        <= 0x200A) || n == 0x2028 || n == 0x2029 || n == 0x202F || n == 0x205F || n == 0x3000
}

/// Whether `c` is whitespace.
pub fn char_is_space(c: char) -> (r: bool)
    ensures
        r == is_space(c),
{
    let n = c as u32;
    (0x09 <= n && n <= 0x0D) || n == 0x20 || n == 0x85 || n == 0xA0 || n == 0x1680 || (0x2000
        <= n && n <= 0x200A) || n == 0x2028 || n == 0x2029 || n == 0x202F || n == 0x205F || n
        == 0x3000
}

/// The first index at or after `i` that holds no whitespace, or the length.
pub open spec fn skip_spaces(s: Seq<char>, i: int) -> int
    decreases s.len() - i,
{
    if 0 <= i < s.len() && is_space(s[i]) {
        skip_spaces(s, i + 1)
    } else {
        i
    }
}

/// The index just after the last character before `j` that is no whitespace, or 0.
pub open spec fn back_spaces(s: Seq<char>, j: int) -> int
    decreases j,
{
    if 0 < j <= s.len() && is_space(s[j - 1]) {
        back_spaces(s, j - 1)
    } else {
        j
    }
}

/// `s` without its leading whitespace.
pub open spec fn trim_start(s: Seq<char>) -> Seq<char> {
    s.skip(skip_spaces(s, 0))
}

/// `s` without its trailing whitespace.
pub open spec fn trim_end(s: Seq<char>) -> Seq<char> {
    s.take(back_spaces(s, s.len() as int))
}

/// `s` without leading and trailing whitespace.
pub open spec fn trim(s: Seq<char>) -> Seq<char> {
    trim_end(trim_start(s))
}

/// Whether `s` holds nothing but whitespace.
pub open spec fn is_blank(s: Seq<char>) -> bool {
    skip_spaces(s, 0) == s.len()
}

/// The index of the first character of `a` at or after `from` that is no whitespace.
pub fn spaces_end(a: &Vec<char>, from: usize) -> (r: usize)
    requires
        from <= a.len(),
    ensures
        r == skip_spaces(a@, from as int),
        from <= r <= a.len(),
{
    let mut i: usize = from;
    while i < a.len() && char_is_space(a[i])
        invariant
            from <= i <= a.len(),
            skip_spaces(a@, from as int) == skip_spaces(a@, i as int),
        decreases a.len() - i,
    {
        i += 1;
    }
    i
}

/// The index just after the last character of `a` before `to` that is no whitespace.
pub fn spaces_start(a: &Vec<char>, to: usize) -> (r: usize)
    requires
        to <= a.len(),
    ensures
        r == back_spaces(a@, to as int),
        r <= to,
{
    let mut j: usize = to;
    while j > 0 && char_is_space(a[j - 1])
        invariant
            j <= to <= a.len(),
            back_spaces(a@, to as int) == back_spaces(a@, j as int),
        decreases j,
    {
        j -= 1;
    }
    j
}

/// `a` without its leading whitespace.
pub fn trimmed_start(a: &Vec<char>) -> (r: Vec<char>)
    ensures
        r@ == trim_start(a@),
{
    let i = spaces_end(a, 0);
    slice(a, i, a.len())
}

/// `a` without its trailing whitespace.
pub fn trimmed_end(a: &Vec<char>) -> (r: Vec<char>)
    ensures
        r@ == trim_end(a@),
{
    let j = spaces_start(a, a.len());
    slice(a, 0, j)
}

/// `a` without leading and trailing whitespace.
pub fn trimmed(a: &Vec<char>) -> (r: Vec<char>)
    ensures
        r@ == trim(a@),
{
    let t = trimmed_start(a);
    trimmed_end(&t)
}

/// Whether `a` holds nothing but whitespace.
pub fn blank(a: &Vec<char>) -> (r: bool)
    ensures
        r == is_blank(a@),
{
    spaces_end(a, 0) == a.len()
}

/// The length of `s` once every trailing `c` is dropped.
pub open spec fn back_chars(s: Seq<char>, c: char, j: int) -> int
    decreases j,
{
    if 0 < j <= s.len() && s[j - 1] == c {
        back_chars(s, c, j - 1)
    } else {
        j
    }
}

/// `s` without its trailing run of `c`.
pub open spec fn trim_end_char(s: Seq<char>, c: char) -> Seq<char> {
    s.take(back_chars(s, c, s.len() as int))
}

/// `s` without its trailing line feeds.
pub open spec fn strip_newlines(s: Seq<char>) -> Seq<char> {
    trim_end_char(s, '\n')
}

/// Whether `s` ends with a line feed.
pub open spec fn has_newline(s: Seq<char>) -> bool {
    s.len() > 0 && s.last() == '\n'
}

/// The length of `a` once every trailing `c` is dropped.
pub fn run_start(a: &Vec<char>, c: char) -> (r: usize)
    ensures
        r == back_chars(a@, c, a@.len() as int),
        r <= a.len(),
{
    let mut j: usize = a.len();
    while j > 0 && a[j - 1] == c
        invariant
            j <= a.len(),
            back_chars(a@, c, a@.len() as int) == back_chars(a@, c, j as int),
        decreases j,
    {
        j -= 1;
    }
    j
}

/// `a` without its trailing run of `c`.
pub fn trimmed_end_char(a: &Vec<char>, c: char) -> (r: Vec<char>)
    ensures
        r@ == trim_end_char(a@, c),
{
    let j = run_start(a, c);
    slice(a, 0, j)
}

/// `s` with a line feed appended when `newline` holds.
pub open spec fn with_newline(s: Seq<char>, newline: bool) -> Seq<char> {
    if newline {
        s.push('\n')
    } else {
        s
    }
}

/// The pieces of `s` between occurrences of `c`; there is always at least one.
pub open spec fn split_on(s: Seq<char>, c: char) -> Seq<Seq<char>>
    decreases s.len(),
{
    if s.len() == 0 {
        seq![Seq::<char>::empty()]
    } else {
        let rest = split_on(s.drop_last(), c);
        if s.last() == c {
            rest.push(Seq::<char>::empty())
        } else {
            rest.update(rest.len() - 1, rest.last().push(s.last()))
        }
    }
}

/// The views of a vector of texts.
pub open spec fn views(v: Seq<Vec<char>>) -> Seq<Seq<char>> {
    v.map_values(|x: Vec<char>| x@)
}

/// The pieces of `a` between occurrences of `c`.
pub fn split(a: &Vec<char>, c: char) -> (r: Vec<Vec<char>>)
    ensures
        views(r@) == split_on(a@, c),
        r.len() >= 1,
{
    let mut done: Vec<Vec<char>> = Vec::new();
    let mut cur: Vec<char> = Vec::new();
    let mut i: usize = 0;
    while i < a.len()
        invariant
            i <= a.len(),
            views(done@).push(cur@) == split_on(a@.take(i as int), c),
        decreases a.len() - i,
    {
        assert(a@.take(i + 1).drop_last() =~= a@.take(i as int));
        let ghost before = views(done@).push(cur@);
        if a[i] == c {
            done.push(cur);
            cur = Vec::new();
            assert(views(done@) =~= before);
        } else {
            cur.push(a[i]);
            assert(views(done@).push(cur@) =~= before.update(
                before.len() - 1,
                before.last().push(a@[i as int]),
            ));
        }
        i += 1;
    }
    assert(a@.take(a.len() as int) =~= a@);
    let ghost before = views(done@).push(cur@);
    done.push(cur);
    assert(views(done@) =~= before);
    done
}

/// `s` with every `from` replaced by `to`.
pub open spec fn replace_char(s: Seq<char>, from: char, to: char) -> Seq<char> {
    s.map_values(
        |c: char|
            if c == from {
                to
            } else {
                c
            },
    )
}

/// `a` with every `from` replaced by `to`.
pub fn replaced_char(a: &Vec<char>, from: char, to: char) -> (r: Vec<char>)
    ensures
        r@ == replace_char(a@, from, to),
{
    let mut r: Vec<char> = Vec::new();
    let mut i: usize = 0;
    while i < a.len()
        invariant
            i <= a.len(),
            r@ == replace_char(a@.take(i as int), from, to),
        decreases a.len() - i,
    {
        let c = a[i];
        r.push(if c == from { to } else { c });
        assert(r@ =~= replace_char(a@.take(i + 1), from, to));
        i += 1;
    }
    assert(a@.take(a.len() as int) =~= a@);
    r
}

/// `n` copies of `c`.
pub open spec fn repeat(c: char, n: nat) -> Seq<char> {
    Seq::new(n, |i: int| c)
}

/// Appends `n` copies of `c` to `out`.
pub fn push_repeat(out: &mut Vec<char>, c: char, n: usize)
    ensures
        final(out)@ == old(out)@ + repeat(c, n as nat),
{
    let mut i: usize = 0;
    while i < n
        invariant
            i <= n,
            out@ == old(out)@ + repeat(c, i as nat),
        decreases n - i,
    {
        out.push(c);
        assert(out@ =~= old(out)@ + repeat(c, (i + 1) as nat));
        i += 1;
    }
}

/// The texts of `v` joined with nothing between them.
pub open spec fn concat(v: Seq<Seq<char>>) -> Seq<char>
    decreases v.len(),
{
    if v.len() == 0 {
        Seq::<char>::empty()
    } else {
        concat(v.drop_last()) + v.last()
    }
}

/// The texts of `v` joined with nothing between them.
pub fn concat_all(v: &Vec<Vec<char>>) -> (r: Vec<char>)
    ensures
        r@ == concat(views(v@)),
{
    let mut r: Vec<char> = Vec::new();
    let mut i: usize = 0;
    while i < v.len()
        invariant
            i <= v.len(),
            r@ == concat(views(v@.take(i as int))),
        decreases v.len() - i,
    {
        push_all(&mut r, &v[i]);
        assert(views(v@.take(i + 1)).drop_last() =~= views(v@.take(i as int)));
        i += 1;
    }
    assert(v@.take(v.len() as int) =~= v@);
    r
}

/// The texts of `v` with `sep` between each two.
pub open spec fn join(v: Seq<Seq<char>>, sep: char) -> Seq<char>
    decreases v.len(),
{
    if v.len() == 0 {
        Seq::<char>::empty()
    } else if v.len() == 1 {
        v[0]
    } else {
        join(v.drop_last(), sep).push(sep) + v.last()
    }
}

/// The texts of `v` with `sep` between each two.
pub fn joined(v: &Vec<Vec<char>>, sep: char) -> (r: Vec<char>)
    ensures
        r@ == join(views(v@), sep),
{
    let mut r: Vec<char> = Vec::new();
    let mut i: usize = 0;
    while i < v.len()
        invariant
            i <= v.len(),
            r@ == join(views(v@.take(i as int)), sep),
        decreases v.len() - i,
    {
        if i > 0 {
            r.push(sep);
        }
        push_all(&mut r, &v[i]);
        assert(views(v@.take(i + 1)).drop_last() =~= views(v@.take(i as int)));
        assert(views(v@.take(i + 1)).last() == v@[i as int]@);
        i += 1;
    }
    assert(v@.take(v.len() as int) =~= v@);
    r
}

/// The lower-case form of `s`: what `str::to_lowercase` returns.
pub uninterp spec fn lowercase(s: Seq<char>) -> Seq<char>;

/// Calls `str::to_lowercase`; the result is named, not described.
#[verifier::external_body]
fn lowercase_string(s: &str) -> (r: String)
    ensures
        r@ == lowercase(s@),
{
    s.to_lowercase()
}

/// The lower-case form of `a`.
pub fn lowered(a: &Vec<char>) -> (r: Vec<char>)
    ensures
        r@ == lowercase(a@),
{
    let s = to_string(a);
    let l = lowercase_string(s.as_str());
    to_chars(l.as_str())
}

/// The first index at or after `i` that does not hold `c`, or the length.
pub open spec fn skip_chars(s: Seq<char>, c: char, i: int) -> int
    decreases s.len() - i,
{
    if 0 <= i < s.len() && s[i] == c {
        skip_chars(s, c, i + 1)
    } else {
        i
    }
}

/// `s` without its leading run of `c`.
pub open spec fn trim_start_char(s: Seq<char>, c: char) -> Seq<char> {
    s.skip(skip_chars(s, c, 0))
}

/// `s` without its leading and trailing runs of `c`.
pub open spec fn trim_char(s: Seq<char>, c: char) -> Seq<char> {
    trim_end_char(trim_start_char(s, c), c)
}

/// `a` without its leading run of `c`.
pub fn trimmed_start_char(a: &Vec<char>, c: char) -> (r: Vec<char>)
    ensures
        r@ == trim_start_char(a@, c),
{
    let mut i: usize = 0;
    while i < a.len() && a[i] == c
        invariant
            i <= a.len(),
            skip_chars(a@, c, 0) == skip_chars(a@, c, i as int),
        decreases a.len() - i,
    {
        i += 1;
    }
    slice(a, i, a.len())
}

/// `a` without its leading and trailing runs of `c`.
pub fn trimmed_char(a: &Vec<char>, c: char) -> (r: Vec<char>)
    ensures
        r@ == trim_char(a@, c),
{
    let t = trimmed_start_char(a, c);
    trimmed_end_char(&t, c)
}

/// The views of a vector of strings.
pub open spec fn string_views(v: Seq<String>) -> Seq<Seq<char>> {
    v.map_values(|x: String| x@)
}

/// The texts of a vector of strings.
pub fn all_to_chars(v: &Vec<String>) -> (r: Vec<Vec<char>>)
    ensures
        views(r@) == string_views(v@),
{
    let mut r: Vec<Vec<char>> = Vec::new();
    let mut i: usize = 0;
    while i < v.len()
        invariant
            i <= v.len(),
            r.len() == i,
            forall|j: int| 0 <= j < i ==> (#[trigger] r@[j])@ == v@[j]@,
        decreases v.len() - i,
    {
        r.push(to_chars(v[i].as_str()));
        i += 1;
    }
    assert(views(r@) =~= string_views(v@));
    r
}

/// The strings of a vector of texts.
pub fn all_to_strings(v: &Vec<Vec<char>>) -> (r: Vec<String>)
    ensures
        string_views(r@) == views(v@),
{
    let mut r: Vec<String> = Vec::new();
    let mut i: usize = 0;
    while i < v.len()
        invariant
            i <= v.len(),
            r.len() == i,
            forall|j: int| 0 <= j < i ==> (#[trigger] r@[j])@ == v@[j]@,
        decreases v.len() - i,
    {
        r.push(to_string(&v[i]));
        i += 1;
    }
    assert(string_views(r@) =~= views(v@));
    r
}

/// A text that does not begin with `c` holds `c` fewer times than it has characters.
pub proof fn count_of_other_first(s: Seq<char>, c: char)
    requires
        s.len() > 0,
        s[0] != c,
    ensures
        count_of(s, c) < s.len(),
    decreases s.len(),
{
    if s.len() > 1 {
        assert(s.drop_last()[0] == s[0]);
        count_of_other_first(s.drop_last(), c);
    } else {
        assert(s.last() == s[0]);
        assert(count_of(s.drop_last(), c) == 0);
    }
}

/// Whether `piece` stands unbroken in `line`, from index `at` on.
pub open spec fn holds_at(line: Seq<char>, piece: Seq<char>, at: int) -> bool {
    0 <= at && at + piece.len() <= line.len() && line.subrange(at, at + piece.len()) == piece
}

/// Whether `piece` stands unbroken somewhere in `line`.
pub open spec fn holds(line: Seq<char>, piece: Seq<char>) -> bool {
    exists|at: int| holds_at(line, piece, at)
}

/// What stands unbroken in a text stands unbroken in the text with more after it.
pub proof fn holds_in_longer(line: Seq<char>, piece: Seq<char>, tail: Seq<char>)
    requires
        holds(line, piece),
    ensures
        holds(line + tail, piece),
{
    let at = choose|at: int| holds_at(line, piece, at);
    assert((line + tail).subrange(at, at + piece.len()) =~= line.subrange(at, at + piece.len()));
    assert(holds_at(line + tail, piece, at));
}

/// What a text ends with stands unbroken in it.
pub proof fn holds_at_end(line: Seq<char>, piece: Seq<char>)
    ensures
        holds(line + piece, piece),
{
    assert((line + piece).subrange(line.len() as int, (line.len() + piece.len()) as int) =~= piece);
    assert(holds_at(line + piece, piece, line.len() as int));
}

/// What stands unbroken in a text stands unbroken in the text with more before it.
pub proof fn holds_after(head: Seq<char>, line: Seq<char>, piece: Seq<char>)
    requires
        holds(line, piece),
    ensures
        holds(head + line, piece),
{
    let at = choose|at: int| holds_at(line, piece, at);
    assert((head + line).subrange(head.len() + at, head.len() + at + piece.len()) =~= line.subrange(
        at,
        at + piece.len(),
    ));
    assert(holds_at(head + line, piece, head.len() + at));
}

/// Whether `s` neither begins nor ends with whitespace.
pub open spec fn clean(s: Seq<char>) -> bool {
    s.len() == 0 || (!is_space(s[0]) && !is_space(s.last()))
}

proof fn skip_spaces_is(s: Seq<char>, i: int, k: int)
    requires
        0 <= i <= k <= s.len(),
        forall|q: int| i <= q < k ==> is_space(#[trigger] s[q]),
        k == s.len() || !is_space(s[k]),
    ensures
        skip_spaces(s, i) == k,
    decreases k - i,
{
    if i < k {
        skip_spaces_is(s, i + 1, k);
    }
}

proof fn back_spaces_is(s: Seq<char>, j: int, k: int)
    requires
        0 <= k <= j <= s.len(),
        forall|q: int| k <= q < j ==> is_space(#[trigger] s[q]),
        k == 0 || !is_space(s[k - 1]),
    ensures
        back_spaces(s, j) == k,
    decreases j - k,
{
    if k < j {
        back_spaces_is(s, j - 1, k);
    }
}

proof fn skip_spaces_reaches(s: Seq<char>, i: int)
    requires
        0 <= i <= s.len(),
    ensures
        i <= skip_spaces(s, i) <= s.len(),
        skip_spaces(s, i) < s.len() ==> !is_space(s[skip_spaces(s, i)]),
    decreases s.len() - i,
{
    if i < s.len() && is_space(s[i]) {
        skip_spaces_reaches(s, i + 1);
    }
}

proof fn back_spaces_reaches(s: Seq<char>, j: int)
    requires
        0 <= j <= s.len(),
    ensures
        0 <= back_spaces(s, j) <= j,
        back_spaces(s, j) > 0 ==> !is_space(s[back_spaces(s, j) - 1]),
        back_spaces(s, j) < j ==> is_space(s[back_spaces(s, j)]),
    decreases j,
{
    if 0 < j && is_space(s[j - 1]) {
        back_spaces_reaches(s, j - 1);
    }
}

/// A trimmed text neither begins nor ends with whitespace.
pub proof fn trim_is_clean(s: Seq<char>)
    ensures
        clean(trim(s)),
{
    skip_spaces_reaches(s, 0);
    let a = trim_start(s);
    back_spaces_reaches(a, a.len() as int);
    let t = trim_end(a);
    if t.len() > 0 {
        assert(t[0] == a[0]);
        assert(a[0] == s[skip_spaces(s, 0)]);
        assert(t.last() == a[t.len() - 1]);
    }
}

/// A text that neither begins nor ends with whitespace is what is left when the
/// spaces put before and after it are trimmed away.
pub proof fn trim_of_padded(t: Seq<char>, before: nat, after: nat)
    requires
        clean(t),
    ensures
        trim(repeat(' ', before) + t + repeat(' ', after)) == t,
{
    let whole = repeat(' ', before) + t + repeat(' ', after);
    assert(is_space(' '));
    if t.len() == 0 {
        assert forall|q: int| 0 <= q < whole.len() implies is_space(#[trigger] whole[q]) by {}
        skip_spaces_is(whole, 0, whole.len() as int);
        assert(trim_start(whole) =~= t);
        assert(trim_end(t) =~= t);
    } else {
        assert(whole[before as int] == t[0]);
        assert forall|q: int| 0 <= q < before implies is_space(#[trigger] whole[q]) by {}
        skip_spaces_is(whole, 0, before as int);
        let a = trim_start(whole);
        assert(a =~= t + repeat(' ', after));
        assert(a[t.len() - 1] == t.last());
        assert forall|q: int| t.len() <= q < a.len() implies is_space(#[trigger] a[q]) by {}
        back_spaces_is(a, a.len() as int, t.len() as int);
        assert(trim_end(a) =~= t);
    }
}

} // verus!
