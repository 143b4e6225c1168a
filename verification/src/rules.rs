//! The rules: their numbers, keywords and descriptions, and how a list of rules to
//! skip is read from a command line or from a configuration.

use std::collections::HashSet;
use vstd::prelude::*;
use crate::number::{decimal, decimal_of, number_value, parse_number};
use crate::text::{
    push_all, same_as_str, split, split_on, to_chars, to_string, trim, trimmed, views,
};

verus! {

/// The width that text is wrapped to where none is asked for.
pub const DEFAULT_WRAP_WIDTH: usize = 60;

/// Whether `num` is the number of a rule.
pub open spec fn is_rule(num: int) -> bool {
    1 <= num <= 30
}

/// The keyword of rule `num`; empty where there is no such rule.
pub open spec fn keyword_of(num: int) -> Seq<char> {
    if num == 1 {
        "line-endings"@
    } else if num == 2 {
        "trailing"@
    } else if num == 3 {
        "blank-lines"@
    } else if num == 4 {
        "header-spacing"@
    } else if num == 5 {
        "header-newline"@
    } else if num == 6 {
        "code-before"@
    } else if num == 7 {
        "code-after"@
    } else if num == 8 {
        "list-before"@
    } else if num == 9 {
        "list-after"@
    } else if num == 10 {
        "rule-before"@
    } else if num == 11 {
        "rule-after"@
    } else if num == 12 {
        "list-tabs"@
    } else if num == 13 {
        "list-marker"@
    } else if num == 14 {
        "wrap"@
    } else if num == 15 {
        "end-newline"@
    } else if num == 16 {
        "ial-spacing"@
    } else if num == 17 {
        "code-lang-spacing"@
    } else if num == 18 {
        "ref-link-spacing"@
    } else if num == 19 {
        "task-checkbox"@
    } else if num == 20 {
        "blockquote-spacing"@
    } else if num == 21 {
        "math-spacing"@
    } else if num == 22 {
        "table-format"@
    } else if num == 23 {
        "emoji-spellcheck"@
    } else if num == 24 {
        "typography"@
    } else if num == 25 {
        "bold-italic"@
    } else if num == 26 {
        "list-markers"@
    } else if num == 27 {
        "list-reset"@
    } else if num == 28 {
        "reference-links"@
    } else if num == 29 {
        "links-at-end"@
    } else if num == 30 {
        "inline-links"@
    } else {
        ""@
    }
}

/// The keyword of rule `num`.
pub fn rule_keyword(num: u8) -> (r: &'static str)
    ensures
        r@ == keyword_of(num as int),
{
    if num == 1 {
        "line-endings"
    } else if num == 2 {
        "trailing"
    } else if num == 3 {
        "blank-lines"
    } else if num == 4 {
        "header-spacing"
    } else if num == 5 {
        "header-newline"
    } else if num == 6 {
        "code-before"
    } else if num == 7 {
        "code-after"
    } else if num == 8 {
        "list-before"
    } else if num == 9 {
        "list-after"
    } else if num == 10 {
        "rule-before"
    } else if num == 11 {
        "rule-after"
    } else if num == 12 {
        "list-tabs"
    } else if num == 13 {
        "list-marker"
    } else if num == 14 {
        "wrap"
    } else if num == 15 {
        "end-newline"
    } else if num == 16 {
        "ial-spacing"
    } else if num == 17 {
        "code-lang-spacing"
    } else if num == 18 {
        "ref-link-spacing"
    } else if num == 19 {
        "task-checkbox"
    } else if num == 20 {
        "blockquote-spacing"
    } else if num == 21 {
        "math-spacing"
    } else if num == 22 {
        "table-format"
    } else if num == 23 {
        "emoji-spellcheck"
    } else if num == 24 {
        "typography"
    } else if num == 25 {
        "bold-italic"
    } else if num == 26 {
        "list-markers"
    } else if num == 27 {
        "list-reset"
    } else if num == 28 {
        "reference-links"
    } else if num == 29 {
        "links-at-end"
    } else if num == 30 {
        "inline-links"
    } else {
        ""
    }
}

/// What rule `num` does, in words.
pub open spec fn description_of(num: int) -> Seq<char> {
    if num == 1 {
        "Normalize line endings to Unix"@
    } else if num == 2 {
        "Trim trailing whitespace (preserve exactly 2 spaces)"@
    } else if num == 3 {
        "Collapse multiple blank lines (max 1 consecutive)"@
    } else if num == 4 {
        "Normalize headline spacing (exactly 1 space after #)"@
    } else if num == 5 {
        "Ensure blank line after headline"@
    } else if num == 6 {
        "Ensure blank line before code block"@
    } else if num == 7 {
        "Ensure blank line after code block"@
    } else if num == 8 {
        "Ensure blank line before list"@
    } else if num == 9 {
        "Ensure blank line after list"@
    } else if num == 10 {
        "Ensure blank line before horizontal rule"@
    } else if num == 11 {
        "Ensure blank line after horizontal rule"@
    } else if num == 12 {
        "Convert list indentation spaces to tabs"@
    } else if num == 13 {
        "Normalize list marker spacing"@
    } else if num == 14 {
        "Wrap text at specified width"@
    } else if num == 15 {
        "Ensure exactly one blank line at end of file"@
    } else if num == 16 {
        "Normalize IAL spacing"@
    } else if num == 17 {
        "Normalize fenced code block language identifier spacing"@
    } else if num == 18 {
        "Normalize reference-style link definition spacing"@
    } else if num == 19 {
        "Normalize task list checkbox (lowercase x)"@
    } else if num == 20 {
        "Normalize blockquote spacing"@
    } else if num == 21 {
        "Normalize display math block spacing"@
    } else if num == 22 {
        "Normalize table formatting"@
    } else if num == 23 {
        "Normalize emoji names (spellcheck and correct)"@
    } else if num == 24 {
        "Normalize typography (curly quotes, dashes, ellipses, guillemets). Sub-keywords: em-dash, guillemet"@
    } else if num == 25 {
        "Normalize bold/italic markers (bold: __, italic: *)"@
    } else if num == 26 {
        "Normalize list markers (renumber ordered lists, standardize bullet markers by level)"@
    } else if num == 27 {
        "Reset ordered lists to start at 1 (if disabled, preserve starting number)"@
    } else if num == 28 {
        "Convert links to numeric reference links"@
    } else if num == 29 {
        "Place link definitions at the end of the document (if skipped and reference-links enabled, places at beginning)"@
    } else if num == 30 {
        "Convert links to inline format (overrides reference-links if enabled)"@
    } else {
        ""@
    }
}

/// What rule `num` does, in words.
pub fn rule_description(num: u8) -> (r: &'static str)
    ensures
        r@ == description_of(num as int),
{
    if num == 1 {
        "Normalize line endings to Unix"
    } else if num == 2 {
        "Trim trailing whitespace (preserve exactly 2 spaces)"
    } else if num == 3 {
        "Collapse multiple blank lines (max 1 consecutive)"
    } else if num == 4 {
        "Normalize headline spacing (exactly 1 space after #)"
    } else if num == 5 {
        "Ensure blank line after headline"
    } else if num == 6 {
        "Ensure blank line before code block"
    } else if num == 7 {
        "Ensure blank line after code block"
    } else if num == 8 {
        "Ensure blank line before list"
    } else if num == 9 {
        "Ensure blank line after list"
    } else if num == 10 {
        "Ensure blank line before horizontal rule"
    } else if num == 11 {
        "Ensure blank line after horizontal rule"
    } else if num == 12 {
        "Convert list indentation spaces to tabs"
    } else if num == 13 {
        "Normalize list marker spacing"
    } else if num == 14 {
        "Wrap text at specified width"
    } else if num == 15 {
        "Ensure exactly one blank line at end of file"
    } else if num == 16 {
        "Normalize IAL spacing"
    } else if num == 17 {
        "Normalize fenced code block language identifier spacing"
    } else if num == 18 {
        "Normalize reference-style link definition spacing"
    } else if num == 19 {
        "Normalize task list checkbox (lowercase x)"
    } else if num == 20 {
        "Normalize blockquote spacing"
    } else if num == 21 {
        "Normalize display math block spacing"
    } else if num == 22 {
        "Normalize table formatting"
    } else if num == 23 {
        "Normalize emoji names (spellcheck and correct)"
    } else if num == 24 {
        "Normalize typography (curly quotes, dashes, ellipses, guillemets). Sub-keywords: em-dash, guillemet"
    } else if num == 25 {
        "Normalize bold/italic markers (bold: __, italic: *)"
    } else if num == 26 {
        "Normalize list markers (renumber ordered lists, standardize bullet markers by level)"
    } else if num == 27 {
        "Reset ordered lists to start at 1 (if disabled, preserve starting number)"
    } else if num == 28 {
        "Convert links to numeric reference links"
    } else if num == 29 {
        "Place link definitions at the end of the document (if skipped and reference-links enabled, places at beginning)"
    } else if num == 30 {
        "Convert links to inline format (overrides reference-links if enabled)"
    } else {
        ""
    }
}

/// The number of the first rule from `from` on whose keyword is `word`; 0 where
/// there is none.
pub open spec fn keyword_rule(word: Seq<char>, from: int) -> int
    decreases 31 - from,
{
    if from < 1 || from > 30 {
        0
    } else if keyword_of(from) == word {
        from
    } else {
        keyword_rule(word, from + 1)
    }
}

/// The number of the rule whose keyword is `word`.
pub fn find_keyword(word: &Vec<char>) -> (r: Option<u8>)
    ensures
        match r {
            Some(n) => n == keyword_rule(word@, 1) && is_rule(n as int),
            None => keyword_rule(word@, 1) == 0,
        },
{
    let mut n: u8 = 1;
    while n <= 30
        invariant
            1 <= n <= 31,
            keyword_rule(word@, 1) == keyword_rule(word@, n as int),
        decreases 31 - n,
    {
        if same_as_str(word, rule_keyword(n)) {
            return Some(n);
        }
        n += 1;
    }
    None
}

/// What a list of rules to skip comes to: the numbers of the rules, and whether
/// the em dash and the guillemets are left alone by the typography rule.
pub struct Skips {
    pub rules: Set<u8>,
    pub em_dash: bool,
    pub guillemet: bool,
}

/// The message for a number that is no rule's.
pub open spec fn invalid_number(n: nat) -> Seq<char> {
    "Invalid rule number: "@ + decimal(n)
}

/// The message for a word that is no keyword.
pub open spec fn invalid_keyword(word: Seq<char>) -> Seq<char> {
    "Invalid keyword: "@ + word
}

/// Whether `value` writes a number that fits a byte.
pub open spec fn is_byte(value: Seq<char>) -> bool {
    number_value(value) is Some && number_value(value)->0 <= 255
}

/// What one entry of a list of rules to skip adds. A group keyword stands for its
/// rules, `em-dash` and `guillemet` for their flags, a number or a keyword for
/// its rule, `emphasis` for rule 25. Anything else is an error.
pub open spec fn skip_entry(s: Skips, value: Seq<char>) -> Result<Skips, Seq<char>> {
    if value == "code-block-newlines"@ {
        Ok(Skips { rules: s.rules.insert(6).insert(7), ..s })
    } else if value == "display-math-newlines"@ {
        Ok(Skips { rules: s.rules.insert(21), ..s })
    } else if value == "em-dash"@ {
        Ok(Skips { em_dash: true, ..s })
    } else if value == "guillemet"@ {
        Ok(Skips { guillemet: true, ..s })
    } else if is_byte(value) {
        if is_rule(number_value(value)->0 as int) {
            Ok(Skips { rules: s.rules.insert(number_value(value)->0 as u8), ..s })
        } else {
            Err(invalid_number(number_value(value)->0))
        }
    } else if value == "emphasis"@ {
        Ok(Skips { rules: s.rules.insert(25), ..s })
    } else if keyword_rule(value, 1) != 0 {
        Ok(Skips { rules: s.rules.insert(keyword_rule(value, 1) as u8), ..s })
    } else {
        Err(invalid_keyword(value))
    }
}

/// What the first `n` entries come to; the first error among them where there is one.
pub open spec fn skip_entries(values: Seq<Seq<char>>, n: int) -> Result<Skips, Seq<char>>
    decreases n,
{
    if n <= 0 || n > values.len() {
        Ok(Skips { rules: Set::<u8>::empty(), em_dash: false, guillemet: false })
    } else {
        match skip_entries(values, n - 1) {
            Ok(s) => skip_entry(s, trim(values[n - 1])),
            Err(e) => Err(e),
        }
    }
}

/// What the list `skip_str` of rules to skip comes to: its entries stand between
/// commas, with whitespace round them that does not count.
pub open spec fn skips_of(skip_str: Seq<char>) -> Result<Skips, Seq<char>> {
    skip_entries(split_on(skip_str, ','), split_on(skip_str, ',').len() as int)
}

proof fn first_error_stays(values: Seq<Seq<char>>, n: int, m: int)
    requires
        0 <= n <= m <= values.len(),
        skip_entries(values, n) is Err,
    ensures
        skip_entries(values, m) == skip_entries(values, n),
    decreases m - n,
{
    if n < m {
        first_error_stays(values, n, m - 1);
    }
}

/// Reads a list of rules to skip, of numbers and keywords between commas.
pub fn parse_skip_rules(skip_str: &str) -> (r: Result<(HashSet<u8>, bool, bool), String>)
    ensures
        match r {
            Ok(found) => skips_of(skip_str@) == Ok::<Skips, Seq<char>>(
                Skips { rules: found.0@, em_dash: found.1, guillemet: found.2 },
            ),
            Err(message) => skips_of(skip_str@) == Err::<Skips, Seq<char>>(message@),
        },
{
    let values = split(&to_chars(skip_str), ',');
    let ghost vs = views(values@);
    let mut rules: HashSet<u8> = HashSet::new();
    let mut em_dash = false;
    let mut guillemet = false;
    let mut i: usize = 0;
    while i < values.len()
        invariant
            i <= values.len(),
            vs == views(values@),
            vs == split_on(skip_str@, ','),
            skip_entries(vs, i as int) == Ok::<Skips, Seq<char>>(
                Skips { rules: rules@, em_dash, guillemet },
            ),
        decreases values.len() - i,
    {
        assert(vs[i as int] == values@[i as int]@);
        let value = trimmed(&values[i]);
        let ghost before = Skips { rules: rules@, em_dash, guillemet };
        if same_as_str(&value, "code-block-newlines") {
            rules.insert(6);
            rules.insert(7);
        } else if same_as_str(&value, "display-math-newlines") {
            rules.insert(21);
        } else if same_as_str(&value, "em-dash") {
            em_dash = true;
        } else if same_as_str(&value, "guillemet") {
            guillemet = true;
        } else {
            let number = match parse_number(&value) {
                Some(n) => if n <= 255 {
                    Some(n)
                } else {
                    None
                },
                None => None,
            };
            match number {
                Some(n) => {
                    assert(is_byte(value@) && number_value(value@)->0 == n);
                    if 1 <= n && n <= 30 {
                        rules.insert(n as u8);
                    } else {
                        let mut message = to_chars("Invalid rule number: ");
                        push_all(&mut message, &decimal_of(n));
                        assert(skip_entries(vs, i + 1) == Err::<Skips, Seq<char>>(message@));
                        proof {
                            first_error_stays(vs, i + 1, vs.len() as int);
                        }
                        return Err(to_string(&message));
                    }
                },
                None => {
                    assert(!is_byte(value@));
                    if same_as_str(&value, "emphasis") {
                        rules.insert(25);
                    } else {
                        match find_keyword(&value) {
                            Some(n) => {
                                rules.insert(n);
                            },
                            None => {
                                let mut message = to_chars("Invalid keyword: ");
                                push_all(&mut message, &value);
                                assert(skip_entries(vs, i + 1) == Err::<Skips, Seq<char>>(
                                    message@,
                                ));
                                proof {
                                    first_error_stays(vs, i + 1, vs.len() as int);
                                }
                                return Err(to_string(&message));
                            },
                        }
                    }
                },
            }
        }
        assert(skip_entry(before, value@) == Ok::<Skips, Seq<char>>(
            Skips { rules: rules@, em_dash, guillemet },
        ));
        i += 1;
    }
    Ok((rules, em_dash, guillemet))
}

/// A list of rules in a configuration: all of them, or those named.
pub enum RulesList {
    All,
    List(Vec<String>),
}

/// The rules that a configuration skips and those that it includes.
pub struct RulesConfig {
    pub skip: Option<RulesList>,
    pub included: Option<RulesList>,
}

/// A configuration: the wrap width, whether files are overwritten, and the rules.
pub struct Config {
    pub width: Option<usize>,
    pub overwrite: Option<bool>,
    pub rules: Option<RulesConfig>,
}

/// The rules that one entry of a configuration names: those of a group keyword,
/// rule 25 for `emphasis`, the rule of a keyword or of a number; none for
/// anything else.
pub open spec fn entry_rules(item: Seq<char>) -> Set<u8> {
    if item == "code-block-newlines"@ {
        set![6u8, 7u8]
    } else if item == "display-math-newlines"@ {
        set![21u8]
    } else if item == "emphasis"@ {
        set![25u8]
    } else if keyword_rule(item, 1) != 0 {
        set![keyword_rule(item, 1) as u8]
    } else if is_byte(item) && is_rule(number_value(item)->0 as int) {
        set![number_value(item)->0 as u8]
    } else {
        Set::<u8>::empty()
    }
}

/// The rules that the first `n` entries name.
pub open spec fn entries_rules(items: Seq<String>, n: int) -> Set<u8>
    decreases n,
{
    if n <= 0 || n > items.len() {
        Set::<u8>::empty()
    } else {
        entries_rules(items, n - 1).union(entry_rules(items[n - 1]@))
    }
}

/// The numbers of all rules.
pub open spec fn all_rules() -> Set<u8> {
    Set::new(|n: u8| is_rule(n as int))
}

/// The rules that a list names.
pub open spec fn listed(list: Option<RulesList>) -> Set<u8> {
    match list {
        Some(RulesList::All) => all_rules(),
        Some(RulesList::List(items)) => entries_rules(items@, items@.len() as int),
        None => Set::<u8>::empty(),
    }
}

/// The rules that `config` switches off: those that it skips, less those that it
/// includes by name.
pub open spec fn config_skips(config: Config) -> Set<u8> {
    match config.rules {
        Some(rules) => match rules.included {
            Some(RulesList::List(items)) => listed(rules.skip).difference(
                entries_rules(items@, items@.len() as int),
            ),
            _ => listed(rules.skip),
        },
        None => Set::<u8>::empty(),
    }
}

/// Adds rule `n` to `rules`, or takes it out.
pub fn change_rule(rules: &mut HashSet<u8>, n: u8, add: bool)
    ensures
        final(rules)@ == if add {
            old(rules)@.insert(n)
        } else {
            old(rules)@.remove(n)
        },
{
    broadcast use vstd::std_specs::hash::group_hash_axioms;

    if add {
        rules.insert(n);
    } else {
        rules.remove(&n);
    }
}

/// Adds the rules that `item` names to `rules`, or takes them out of it.
pub fn apply_entry(rules: &mut HashSet<u8>, item: &Vec<char>, add: bool)
    ensures
        final(rules)@ == if add {
            old(rules)@.union(entry_rules(item@))
        } else {
            old(rules)@.difference(entry_rules(item@))
        },
{
    if same_as_str(item, "code-block-newlines") {
        change_rule(rules, 6, add);
        change_rule(rules, 7, add);
    } else if same_as_str(item, "display-math-newlines") {
        change_rule(rules, 21, add);
    } else if same_as_str(item, "emphasis") {
        change_rule(rules, 25, add);
    } else {
        match find_keyword(item) {
            Some(n) => {
                change_rule(rules, n, add);
            },
            None => {
                match parse_number(item) {
                    Some(n) => {
                        if 1 <= n && n <= 30 {
                            change_rule(rules, n as u8, add);
                        }
                    },
                    None => {},
                }
            },
        }
    }
    if add {
        assert(rules@ =~= old(rules)@.union(entry_rules(item@)));
    } else {
        assert(rules@ =~= old(rules)@.difference(entry_rules(item@)));
    }
}

/// Adds the rules that `items` name to `rules`, or takes them out of it.
pub fn apply_entries(rules: &mut HashSet<u8>, items: &Vec<String>, add: bool)
    ensures
        final(rules)@ == if add {
            old(rules)@.union(entries_rules(items@, items@.len() as int))
        } else {
            old(rules)@.difference(entries_rules(items@, items@.len() as int))
        },
{
    let mut i: usize = 0;
    assert(rules@ =~= old(rules)@.union(Set::<u8>::empty()));
    assert(rules@ =~= old(rules)@.difference(Set::<u8>::empty()));
    while i < items.len()
        invariant
            i <= items.len(),
            rules@ == if add {
                old(rules)@.union(entries_rules(items@, i as int))
            } else {
                old(rules)@.difference(entries_rules(items@, i as int))
            },
        decreases items.len() - i,
    {
        let ghost before = rules@;
        apply_entry(rules, &to_chars(items[i].as_str()), add);
        if add {
            assert(rules@ =~= old(rules)@.union(entries_rules(items@, i + 1)));
        } else {
            assert(rules@ =~= old(rules)@.difference(entries_rules(items@, i + 1)));
        }
        i += 1;
    }
}

/// The numbers of all rules.
pub fn every_rule() -> (r: HashSet<u8>)
    ensures
        r@ == all_rules(),
{
    broadcast use vstd::std_specs::hash::group_hash_axioms;

    let mut r: HashSet<u8> = HashSet::new();
    let mut n: u8 = 1;
    while n <= 30
        invariant
            1 <= n <= 31,
            r@ == Set::new(|k: u8| 1 <= k < n),
        decreases 31 - n,
    {
        r.insert(n);
        assert(r@ =~= Set::new(|k: u8| 1 <= k < n + 1));
        n += 1;
    }
    assert(r@ =~= all_rules());
    r
}

/// The rules that `config` switches off.
pub fn parse_config_rules(config: &Config) -> (r: HashSet<u8>)
    ensures
        r@ == config_skips(*config),
{
    broadcast use vstd::std_specs::hash::group_hash_axioms;

    let mut rules: HashSet<u8> = HashSet::new();
    match &config.rules {
        Some(rc) => {
            match &rc.skip {
                Some(RulesList::All) => {
                    rules = every_rule();
                },
                Some(RulesList::List(items)) => {
                    apply_entries(&mut rules, items, true);
                    assert(rules@ =~= entries_rules(items@, items@.len() as int));
                },
                None => {},
            }
            match &rc.included {
                Some(RulesList::List(items)) => {
                    apply_entries(&mut rules, items, false);
                },
                _ => {},
            }
        },
        None => {},
    }
    rules
}

/// Whether an entry names the rule that converts links to inline links.
pub open spec fn names_inline_links(item: Seq<char>) -> bool {
    item == "inline-links"@ || (number_value(item) == Some(30nat))
}

/// Whether one of the first `n` entries names the inline-links rule.
pub open spec fn any_names_inline_links(items: Seq<String>, n: int) -> bool
    decreases n,
{
    if n <= 0 || n > items.len() {
        false
    } else {
        any_names_inline_links(items, n - 1) || names_inline_links(items[n - 1]@)
    }
}

/// Whether `config` asks for inline links in so many words: by including the rule
/// where it skips all rules, or by a list of rules to skip that leaves it out.
pub open spec fn asks_for_inline_links(config: Config) -> bool {
    match config.rules {
        Some(rules) => match rules.skip {
            Some(RulesList::All) => match rules.included {
                Some(RulesList::List(items)) => any_names_inline_links(
                    items@,
                    items@.len() as int,
                ),
                _ => false,
            },
            Some(RulesList::List(items)) => !any_names_inline_links(items@, items@.len() as int),
            None => false,
        },
        None => false,
    }
}

/// Whether one of `items` names the inline-links rule.
pub fn names_inline(items: &Vec<String>) -> (r: bool)
    ensures
        r == any_names_inline_links(items@, items@.len() as int),
{
    let mut i: usize = 0;
    while i < items.len()
        invariant
            i <= items.len(),
            !any_names_inline_links(items@, i as int),
        decreases items.len() - i,
    {
        let item = to_chars(items[i].as_str());
        let thirty = match parse_number(&item) {
            Some(n) => n == 30,
            None => false,
        };
        if same_as_str(&item, "inline-links") || thirty {
            assert(any_names_inline_links(items@, i + 1));
            assert(any_names_inline_links(items@, items@.len() as int)) by {
                names_inline_links_stays(items@, i + 1, items@.len() as int);
            }
            return true;
        }
        i += 1;
    }
    false
}

proof fn names_inline_links_stays(items: Seq<String>, n: int, m: int)
    requires
        0 <= n <= m <= items.len(),
        any_names_inline_links(items, n),
    ensures
        any_names_inline_links(items, m),
    decreases m - n,
{
    if n < m {
        names_inline_links_stays(items, n, m - 1);
    }
}

/// Whether `config` asks for inline links in so many words.
pub fn inline_links_requested(config: &Config) -> (r: bool)
    ensures
        r == asks_for_inline_links(*config),
{
    match &config.rules {
        Some(rc) => match &rc.skip {
            Some(RulesList::All) => match &rc.included {
                Some(RulesList::List(items)) => names_inline(items),
                _ => false,
            },
            Some(RulesList::List(items)) => !names_inline(items),
            None => false,
        },
        None => false,
    }
}

} // verus!
