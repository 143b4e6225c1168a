//! Line classification: what kind of markdown construct a line is.

use vstd::prelude::*;
use crate::pattern::{is_match, regex_is_match};
use crate::text::{
    begins_with, begins_with_char, has_char, starts_with, to_chars, trim, trim_start, trimmed,
    trimmed_start,
};

verus! {

/// A list item: a bullet followed by anything, or digits, a dot and whitespace.
pub const LIST_ITEM: &'static str = r"^[-*+]\s+|^[-*+][^\s]|^\d+\.\s+";

/// A heading whose hashes are followed by whitespace.
pub const HEADING_SPACED: &'static str = r"^#+\s";

/// A heading whose hashes are followed directly by its text.
pub const HEADING_TIGHT: &'static str = r"^#+[^\s#]";

/// A horizontal rule: three or more of `-`, `*`, `_` and nothing else.
pub const RULE: &'static str = r"^[-*_]{3,}$";

/// Whether `line` opens or closes a fenced code block.
pub open spec fn code_fence(line: Seq<char>) -> bool {
    starts_with(trim(line), "```"@) || starts_with(trim(line), "~~~"@)
}

/// Whether `line` is a list item.
pub open spec fn list_item(line: Seq<char>) -> bool {
    regex_is_match(LIST_ITEM@, trim_start(line))
}

/// Whether `line` is a heading.
pub open spec fn heading(line: Seq<char>) -> bool {
    regex_is_match(HEADING_SPACED@, trim(line)) || regex_is_match(HEADING_TIGHT@, trim(line))
}

/// Whether `line` is a horizontal rule.
pub open spec fn horizontal_rule(line: Seq<char>) -> bool {
    regex_is_match(RULE@, trim(line))
}

/// Whether `line` is part of a block quote.
pub open spec fn blockquote(line: Seq<char>) -> bool {
    trim_start(line).len() > 0 && trim_start(line)[0] == '>'
}

/// Whether `line` is never re-wrapped: a code fence, a heading, a horizontal rule
/// or a table row.
pub open spec fn preserved(line: Seq<char>) -> bool {
    code_fence(line) || (trim(line).len() > 0 && trim(line)[0] == '#') || horizontal_rule(line)
        || trim(line).contains('|')
}

/// Whether `line` opens or closes a fenced code block.
pub fn is_code_block_chars(line: &Vec<char>) -> (r: bool)
    ensures
        r == code_fence(line@),
{
    let stripped = trimmed(line);
    begins_with(&stripped, "```") || begins_with(&stripped, "~~~")
}

/// Whether `line` opens or closes a fenced code block.
pub fn is_code_block(line: &str) -> (r: bool)
    ensures
        r == code_fence(line@),
{
    is_code_block_chars(&to_chars(line))
}

/// Whether `line` is a list item.
pub fn is_list_item_chars(line: &Vec<char>) -> (r: bool)
    ensures
        r == list_item(line@),
{
    let stripped = trimmed_start(line);
    is_match(LIST_ITEM, &stripped)
}

/// Whether `line` is a list item.
pub fn is_list_item(line: &str) -> (r: bool)
    ensures
        r == list_item(line@),
{
    is_list_item_chars(&to_chars(line))
}

/// Whether `line` is a heading.
pub fn is_headline_chars(line: &Vec<char>) -> (r: bool)
    ensures
        r == heading(line@),
{
    let stripped = trimmed(line);
    is_match(HEADING_SPACED, &stripped) || is_match(HEADING_TIGHT, &stripped)
}

/// Whether `line` is a heading.
pub fn is_headline(line: &str) -> (r: bool)
    ensures
        r == heading(line@),
{
    is_headline_chars(&to_chars(line))
}

/// Whether `line` is a horizontal rule.
pub fn is_horizontal_rule_chars(line: &Vec<char>) -> (r: bool)
    ensures
        r == horizontal_rule(line@),
{
    let stripped = trimmed(line);
    is_match(RULE, &stripped)
}

/// Whether `line` is a horizontal rule.
pub fn is_horizontal_rule(line: &str) -> (r: bool)
    ensures
        r == horizontal_rule(line@),
{
    is_horizontal_rule_chars(&to_chars(line))
}

/// Whether `line` is part of a block quote.
pub fn is_blockquote_chars(line: &Vec<char>) -> (r: bool)
    ensures
        r == blockquote(line@),
{
    let stripped = trimmed_start(line);
    begins_with_char(&stripped, '>')
}

/// Whether `line` is part of a block quote.
pub fn is_blockquote(line: &str) -> (r: bool)
    ensures
        r == blockquote(line@),
{
    is_blockquote_chars(&to_chars(line))
}

/// Whether `line` is never re-wrapped.
pub fn should_preserve_line_chars(line: &Vec<char>) -> (r: bool)
    ensures
        r == preserved(line@),
{
    let stripped = trimmed(line);
    is_code_block_chars(line) || begins_with_char(&stripped, '#') || is_horizontal_rule_chars(line)
        || has_char(&stripped, '|')
}

/// Whether `line` is never re-wrapped.
pub fn should_preserve_line(line: &str) -> (r: bool)
    ensures
        r == preserved(line@),
{
    should_preserve_line_chars(&to_chars(line))
}

} // verus!
