//! Typography: curly quotes, dashes, the ellipsis and guillemets become plain ASCII.

use vstd::prelude::*;
use crate::text::{push_all, to_chars, to_string};

verus! {

/// What one character is written as: straight quotes for curly ones, hyphens for
/// dashes, three dots for the ellipsis, a straight quote for a guillemet. The em
/// dash and the guillemets are left alone where their flag says to skip them.
pub open spec fn plain_of(c: char, skip_em_dash: bool, skip_guillemet: bool) -> Seq<char> {
    if c == '\u{201C}' || c == '\u{201D}' {
        seq!['"']
    } else if c == '\u{2018}' || c == '\u{2019}' {
        seq!['\'']
    } else if c == '\u{2013}' {
        seq!['-', '-']
    } else if c == '\u{2014}' && !skip_em_dash {
        seq!['-', '-', '-']
    } else if c == '\u{2026}' {
        seq!['.', '.', '.']
    } else if (c == '\u{AB}' || c == '\u{BB}') && !skip_guillemet {
        seq!['"']
    } else {
        seq![c]
    }
}

/// `s` with each character written plainly.
pub open spec fn plain(s: Seq<char>, skip_em_dash: bool, skip_guillemet: bool) -> Seq<char>
    decreases s.len(),
{
    if s.len() == 0 {
        Seq::<char>::empty()
    } else {
        plain(s.drop_last(), skip_em_dash, skip_guillemet) + plain_of(
            s.last(),
            skip_em_dash,
            skip_guillemet,
        )
    }
}

/// What one character is written as.
pub fn plain_char(c: char, skip_em_dash: bool, skip_guillemet: bool) -> (r: Vec<char>)
    ensures
        r@ == plain_of(c, skip_em_dash, skip_guillemet),
{
    let mut r: Vec<char> = Vec::new();
    if c == '\u{201C}' || c == '\u{201D}' {
        r.push('"');
    } else if c == '\u{2018}' || c == '\u{2019}' {
        r.push('\'');
    } else if c == '\u{2013}' {
        r.push('-');
        r.push('-');
    } else if c == '\u{2014}' && !skip_em_dash {
        r.push('-');
        r.push('-');
        r.push('-');
    } else if c == '\u{2026}' {
        r.push('.');
        r.push('.');
        r.push('.');
    } else if (c == '\u{AB}' || c == '\u{BB}') && !skip_guillemet {
        r.push('"');
    } else {
        r.push(c);
    }
    assert(r@ =~= plain_of(c, skip_em_dash, skip_guillemet));
    r
}

/// Replaces curly quotes, dashes, the ellipsis and guillemets by plain ASCII.
pub fn normalize_typography_chars(line: &Vec<char>, skip_em_dash: bool, skip_guillemet: bool) -> (r:
    Vec<char>)
    ensures
        r@ == plain(line@, skip_em_dash, skip_guillemet),
{
    let mut r: Vec<char> = Vec::new();
    let mut i: usize = 0;
    while i < line.len()
        invariant
            i <= line.len(),
            r@ == plain(line@.take(i as int), skip_em_dash, skip_guillemet),
        decreases line.len() - i,
    {
        assert(line@.take(i + 1).drop_last() =~= line@.take(i as int));
        let p = plain_char(line[i], skip_em_dash, skip_guillemet);
        push_all(&mut r, &p);
        i += 1;
    }
    assert(line@.take(line.len() as int) =~= line@);
    r
}

/// Replaces curly quotes, dashes, the ellipsis and guillemets by plain ASCII.
pub fn normalize_typography(line: &str, skip_em_dash: bool, skip_guillemet: bool) -> (r: String)
    ensures
        r@ == plain(line@, skip_em_dash, skip_guillemet),
{
    to_string(&normalize_typography_chars(&to_chars(line), skip_em_dash, skip_guillemet))
}

proof fn plain_of_stays_plain(c: char, skip_em_dash: bool, skip_guillemet: bool)
    ensures
        plain(plain_of(c, skip_em_dash, skip_guillemet), skip_em_dash, skip_guillemet) == plain_of(
            c,
            skip_em_dash,
            skip_guillemet,
        ),
{
    let p = plain_of(c, skip_em_dash, skip_guillemet);
    let e = Seq::<char>::empty();
    assert(plain(e, skip_em_dash, skip_guillemet) == e);
    if p.len() == 1 {
        assert(p.drop_last() =~= e);
        assert(plain(p, skip_em_dash, skip_guillemet) =~= plain_of(
            p[0],
            skip_em_dash,
            skip_guillemet,
        ));
    } else if p.len() == 2 {
        assert(p.drop_last().drop_last() =~= e);
        assert(plain(p.drop_last(), skip_em_dash, skip_guillemet) =~= seq!['-']);
        assert(plain(p, skip_em_dash, skip_guillemet) =~= seq!['-', '-']);
    } else {
        assert(p.len() == 3);
        assert(p.drop_last().drop_last().drop_last() =~= e);
        assert(plain(p.drop_last().drop_last(), skip_em_dash, skip_guillemet) =~= seq![p[0]]);
        assert(plain(p.drop_last(), skip_em_dash, skip_guillemet) =~= seq![p[0], p[1]]);
        assert(plain(p, skip_em_dash, skip_guillemet) =~= p);
    }
}

proof fn plain_of_joined(a: Seq<char>, b: Seq<char>, skip_em_dash: bool, skip_guillemet: bool)
    ensures
        plain(a + b, skip_em_dash, skip_guillemet) == plain(a, skip_em_dash, skip_guillemet)
            + plain(b, skip_em_dash, skip_guillemet),
    decreases b.len(),
{
    if b.len() == 0 {
        assert(a + b =~= a);
        assert(plain(a, skip_em_dash, skip_guillemet) + plain(b, skip_em_dash, skip_guillemet)
            =~= plain(a, skip_em_dash, skip_guillemet));
    } else {
        assert((a + b).drop_last() =~= a + b.drop_last());
        plain_of_joined(a, b.drop_last(), skip_em_dash, skip_guillemet);
        assert(plain(a + b, skip_em_dash, skip_guillemet) =~= plain(a, skip_em_dash, skip_guillemet)
            + plain(b, skip_em_dash, skip_guillemet));
    }
}

/// Text that was written plainly stays as it is when it is written plainly again.
pub proof fn plain_text_stays(s: Seq<char>, skip_em_dash: bool, skip_guillemet: bool)
    ensures
        plain(plain(s, skip_em_dash, skip_guillemet), skip_em_dash, skip_guillemet) == plain(
            s,
            skip_em_dash,
            skip_guillemet,
        ),
    decreases s.len(),
{
    if s.len() > 0 {
        plain_text_stays(s.drop_last(), skip_em_dash, skip_guillemet);
        plain_of_stays_plain(s.last(), skip_em_dash, skip_guillemet);
        plain_of_joined(
            plain(s.drop_last(), skip_em_dash, skip_guillemet),
            plain_of(s.last(), skip_em_dash, skip_guillemet),
            skip_em_dash,
            skip_guillemet,
        );
    }
}

} // verus!
