//! The settings of a run: how the configuration and the command line are merged,
//! and small decisions on paths that are given to the program.

use std::collections::HashSet;
use vstd::prelude::*;
use crate::rules::{
    asks_for_inline_links, config_skips, description_of, inline_links_requested, keyword_of,
    parse_config_rules, rule_description, rule_keyword, Config, DEFAULT_WRAP_WIDTH,
};
use crate::number::{decimal, decimal_of};
use crate::text::{
    finishes_with, has_at, has_char, ends_with, push_all, push_str, starts_with, to_chars,
    to_string, trim, trimmed,
};

verus! {

/// The wrap width of a run: that of the command line, else that of the
/// configuration, else the default.
pub open spec fn width_for(asked: Option<usize>, config: Option<Config>) -> usize {
    match asked {
        Some(w) => w,
        None => match config {
            Some(c) => match c.width {
                Some(w) => w,
                None => DEFAULT_WRAP_WIDTH,
            },
            None => DEFAULT_WRAP_WIDTH,
        },
    }
}

/// The wrap width of a run.
pub fn resolve_width(asked: Option<usize>, config: &Option<Config>) -> (r: usize)
    ensures
        r == width_for(asked, *config),
{
    match asked {
        Some(w) => w,
        None => match config {
            Some(c) => match c.width {
                Some(w) => w,
                None => DEFAULT_WRAP_WIDTH,
            },
            None => DEFAULT_WRAP_WIDTH,
        },
    }
}

/// Whether files are overwritten: the command line asks for it, or the
/// configuration does.
pub open spec fn overwrites(asked: bool, config: Option<Config>) -> bool {
    asked || match config {
        Some(c) => c.overwrite == Some(true),
        None => false,
    }
}

/// Whether files are overwritten.
pub fn resolve_overwrite(asked: bool, config: &Option<Config>) -> (r: bool)
    ensures
        r == overwrites(asked, *config),
{
    asked || match config {
        Some(c) => match c.overwrite {
            Some(b) => b,
            None => false,
        },
        None => false,
    }
}

/// The rules that a run switches off: those of the configuration, those of the
/// command line, and the inline-links rule unless the configuration asks for it
/// in so many words.
pub open spec fn skips_for(config: Option<Config>, asked: Set<u8>) -> Set<u8> {
    match config {
        Some(c) => if asks_for_inline_links(c) {
            config_skips(c).union(asked)
        } else {
            config_skips(c).union(asked).insert(30)
        },
        None => asked.insert(30),
    }
}

/// The rules that a run switches off.
pub fn resolve_skip_rules(config: &Option<Config>, asked: &HashSet<u8>) -> (r: HashSet<u8>)
    ensures
        r@ == skips_for(*config, asked@),
{
    broadcast use vstd::std_specs::hash::group_hash_axioms;

    let mut rules: HashSet<u8> = match config {
        Some(c) => parse_config_rules(c),
        None => HashSet::new(),
    };
    let requested = match config {
        Some(c) => inline_links_requested(c),
        None => false,
    };
    let ghost base = rules@;
    let mut n: u8 = 0;
    let mut more = true;
    assert(rules@ =~= base.union(Set::new(|k: u8| k < 0u8 && asked@.contains(k))));
    while more
        invariant
            more ==> rules@ == base.union(Set::new(|k: u8| k < n && asked@.contains(k))),
            !more ==> rules@ == base.union(asked@),
        decreases 256 - n + if more { 1int } else { 0int },
    {
        if asked.contains(&n) {
            rules.insert(n);
        }
        assert(rules@ =~= base.union(Set::new(|k: u8| k <= n && asked@.contains(k))));
        if n == 255 {
            assert(rules@ =~= base.union(asked@));
            more = false;
        } else {
            assert(Set::new(|k: u8| k <= n && asked@.contains(k)) =~= Set::new(
                |k: u8| k < (n + 1) as u8 && asked@.contains(k),
            ));
            n += 1;
        }
    }
    if !requested {
        rules.insert(30);
    }
    assert(rules@ =~= skips_for(*config, asked@));
    rules
}

/// Whether `p` stands somewhere in `s`, at index `i` or later.
pub open spec fn occurs_from(s: Seq<char>, p: Seq<char>, i: int) -> bool
    decreases s.len() - i,
{
    if i < 0 || i > s.len() {
        false
    } else if starts_with(s.skip(i), p) {
        true
    } else if i == s.len() {
        false
    } else {
        occurs_from(s, p, i + 1)
    }
}

/// Whether `p` stands somewhere in `s`.
pub open spec fn occurs(s: Seq<char>, p: Seq<char>) -> bool {
    occurs_from(s, p, 0)
}

/// Whether `p` stands somewhere in `s`.
pub fn contains_text(s: &Vec<char>, p: &str) -> (r: bool)
    ensures
        r == occurs(s@, p@),
{
    let pattern = to_chars(p);
    let mut i: usize = 0;
    let mut found = false;
    let mut more = true;
    while more
        invariant
            i <= s.len(),
            pattern@ == p@,
            more ==> occurs_from(s@, p@, 0) == occurs_from(s@, p@, i as int),
            !more ==> found == occurs_from(s@, p@, 0),
        decreases s.len() - i + if more { 1int } else { 0int },
    {
        if has_at(s, i, &pattern) {
            found = true;
            more = false;
        } else if i == s.len() {
            found = false;
            more = false;
        } else {
            i += 1;
        }
    }
    found
}

/// Whether the first line of what is piped in names a file: it holds a slash or
/// a backslash, or ends in `.md`.
pub open spec fn names_a_file(line: Seq<char>) -> bool {
    trim(line).contains('/') || trim(line).contains('\\') || ends_with(trim(line), ".md"@)
}

/// Whether the first line of what is piped in names a file.
pub fn looks_like_file_path(line: &str) -> (r: bool)
    ensures
        r == names_a_file(line@),
{
    let t = trimmed(&to_chars(line));
    has_char(&t, '/') || has_char(&t, '\\') || finishes_with(&t, ".md")
}

/// Whether a directory is passed over in the search for markdown files: its path
/// holds `vendor`, `build`, `.git` or `node_modules`.
pub open spec fn passed_over(path: Seq<char>) -> bool {
    occurs(path, "vendor"@) || occurs(path, "build"@) || occurs(path, ".git"@) || occurs(
        path,
        "node_modules"@,
    )
}

/// Whether a directory is passed over in the search for markdown files.
pub fn is_passed_over(path: &str) -> (r: bool)
    ensures
        r == passed_over(path@),
{
    let p = to_chars(path);
    contains_text(&p, "vendor") || contains_text(&p, "build") || contains_text(&p, ".git")
        || contains_text(&p, "node_modules")
}

/// The line of the list of rules for rule `num`: two spaces, the number and a
/// dot, the description, and the keyword in parentheses.
pub open spec fn rule_line(num: int) -> Seq<char> {
    seq![' ', ' '] + decimal(num as nat) + seq!['.', ' '] + description_of(num) + seq![' ', '(']
        + keyword_of(num) + seq![')']
}

/// The first `n` lines of the list of rules, with a line feed between each two.
pub open spec fn rule_lines(n: int) -> Seq<char>
    decreases n,
{
    if n <= 0 {
        Seq::<char>::empty()
    } else if n == 1 {
        rule_line(1)
    } else {
        rule_lines(n - 1).push('\n') + rule_line(n)
    }
}

/// The list of the rules, one on a line.
pub fn rules_list() -> (r: String)
    ensures
        r@ == rule_lines(30),
{
    let mut out: Vec<char> = Vec::new();
    let mut n: u8 = 1;
    assert(out@ =~= rule_lines(0));
    while n <= 30
        invariant
            1 <= n <= 31,
            out@ == rule_lines(n - 1),
        decreases 31 - n,
    {
        let ghost before = out@;
        if n > 1 {
            out.push('\n');
        }
        out.push(' ');
        out.push(' ');
        push_all(&mut out, &decimal_of(n as usize));
        out.push('.');
        out.push(' ');
        push_str(&mut out, rule_description(n));
        out.push(' ');
        out.push('(');
        push_str(&mut out, rule_keyword(n));
        out.push(')');
        assert(out@ =~= if n > 1 {
            before.push('\n') + rule_line(n as int)
        } else {
            rule_line(n as int)
        });
        n += 1;
    }
    to_string(&out)
}

/// The keywords of all rules, in the order of their numbers.
pub fn rule_keywords() -> (r: Vec<String>)
    ensures
        r.len() == 30,
        forall|k: int| 0 <= k < 30 ==> (#[trigger] r@[k])@ == keyword_of(k + 1),
{
    let mut r: Vec<String> = Vec::new();
    let mut n: u8 = 1;
    while n <= 30
        invariant
            1 <= n <= 31,
            r.len() == n - 1,
            forall|k: int| 0 <= k < n - 1 ==> (#[trigger] r@[k])@ == keyword_of(k + 1),
        decreases 31 - n,
    {
        r.push(rule_keyword(n).to_owned());
        n += 1;
    }
    r
}

} // verus!
