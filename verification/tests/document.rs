use md_fixup::process::{process_content, process_lines, split_lines};
use md_fixup::progress::options_for;
use std::collections::HashSet;

fn defaults() -> HashSet<u8> {
    let mut skip = HashSet::new();
    skip.insert(30);
    skip
}

fn without_links() -> HashSet<u8> {
    let mut skip = HashSet::new();
    skip.insert(28);
    skip.insert(29);
    skip.insert(30);
    skip
}

fn run(content: &str) -> String {
    process_content(content, 60, &without_links(), false, false, false).0
}

#[test]
fn numbered_list_is_renumbered_exactly() {
    assert_eq!(run("1. a\n3. b\n5. c\n"), "1. a\n2. b\n3. c\n\n");
}

#[test]
fn nested_list_is_numbered_from_one() {
    assert_eq!(
        run("7. a\n8. b\n    5. x\n    9. y\n4. c\n"),
        "1. a\n2. b\n\t1. x\n\t2. y\n3. c\n\n"
    );
}

#[test]
fn interrupted_list_gets_a_separator() {
    assert_eq!(
        run("1. a\n2. b\n3. c\n* d\n"),
        "1. a\n2. b\n3. c\n\n<!-- -->\n\n* d\n\n"
    );
}

#[test]
fn nested_change_of_kind_is_no_interruption() {
    let out = run("* a\n    1. x\n    * y\n");
    assert!(!out.contains("<!-- -->"));
    assert_eq!(out, "* a\n\t1. x\n\t2. y\n\n");
}

#[test]
fn table_is_formatted_in_place() {
    assert_eq!(
        run("|A|B|\n|---|---|\n|1|22|\n"),
        "| A | B  |\n|---|----|\n| 1 | 22 |\n\n"
    );
}

#[test]
fn inline_link_avoids_a_number_in_use() {
    let out = process_content(
        "A [link][1] and an [inline link](url-b).\n\n[1]: url-a\n",
        60,
        &defaults(),
        false,
        false,
        false,
    )
    .0;
    assert_eq!(out, "A [link][1] and an [inline link][2].\n\n[1]: url-a\n[2]: url-b\n\n");
}

#[test]
fn emphasis_is_rewritten_in_a_document() {
    assert_eq!(
        run("An _italic_ and **bold** `**code**` :smile:\n\n***both***\n"),
        "An *italic* and __bold__ `**code**` :smile:\n\n__*both*__\n\n"
    );
}

#[test]
fn emphasis_can_be_reversed() {
    let out = process_content("A __bold__ word.\n\nAn *italic* word.\n", 60, &without_links(), false, false, true).0;
    assert_eq!(out, "A **bold** word.\n\nAn _italic_ word.\n\n");
}

#[test]
fn emoji_is_corrected_in_a_document() {
    assert_eq!(run("ok :smle: and :zzzzzzzzzzzzzzzzzzzzzzzz:\n"),
        "ok :smile: and :zzzzzzzzzzzzzzzzzzzzzzzz:\n\n");
}

#[test]
fn long_link_is_not_broken_by_wrapping() {
    let link = "[a very long link text that goes on and on](https://example.com/a/very/long/path/that/is/longer/than/the/width)";
    let out = process_content(
        &format!("Some words before {} and after it.\n", link),
        20,
        &without_links(),
        false,
        false,
        false,
    )
    .0;
    assert!(out.lines().any(|l| l == link));
    assert_eq!(out, format!("Some words before\n{}\nand after it.\n\n", link));
}

#[test]
fn paragraph_is_wrapped_at_the_width() {
    let out = process_content("aaa bbb ccc ddd eee\n", 7, &without_links(), false, false, false);
    assert_eq!(out.0, "aaa bbb\nccc ddd\neee\n\n");
    assert!(out.1);
}

#[test]
fn list_item_is_wrapped_with_a_tab() {
    let out = process_content("- aaa bbb ccc ddd\n", 9, &without_links(), false, false, false).0;
    assert_eq!(out, "* aaa bbb\n\tccc ddd\n\n");
}

#[test]
fn quote_is_wrapped_with_its_marker() {
    let out = process_content(">aaa bbb ccc ddd\n", 9, &without_links(), false, false, false).0;
    assert_eq!(out, "> aaa bbb\n> ccc ddd\n\n");
}

#[test]
fn quote_keeps_its_marker_when_only_the_marker_is_too_much() {
    let out = process_content("> aaaa bbbb\n", 10, &without_links(), false, false, false).0;
    assert_eq!(out, "> aaaa bbbb\n\n");
}

#[test]
fn blank_lines_are_collapsed() {
    assert_eq!(run("a\n\n\n\nb\n"), "a\n\nb\n\n");
}

#[test]
fn heading_gets_space_and_blank_line() {
    assert_eq!(run("#Title\ntext\n"), "# Title\n\ntext\n\n");
}

#[test]
fn rule_gets_blank_lines() {
    assert_eq!(run("a\n---\nb\n"), "a\n\n---\n\nb\n\n");
}

#[test]
fn code_block_is_left_alone() {
    assert_eq!(
        run("text\n```  rust\nlet  x = **1**;   \n\n```\nmore\n"),
        "text\n\n```rust\nlet  x = **1**;   \n```\n\nmore\n\n"
    );
}

#[test]
fn front_matter_is_passed_through() {
    assert_eq!(
        run("---\n\ntitle:   **T**\n\n---\n# H\n"),
        "---\ntitle:   **T**\n---\n# H\n\n"
    );
}

#[test]
fn display_math_is_spaced() {
    assert_eq!(run("a\n$$\n  x + y  \n$$\nb\n"), "a\n\n$$\nx + y  \n$$\n\nb\n\n");
}

#[test]
fn carriage_returns_become_line_feeds() {
    assert_eq!(run("a\r\nb\r\n"), "a\nb\n\n");
}

#[test]
fn empty_document_stays_empty() {
    let out = process_content("", 60, &defaults(), false, false, false);
    assert_eq!(out.0, "");
}

#[test]
fn text_with_other_letters_keeps_its_places() {
    assert_eq!(run("Caf\u{e9} _it_ \u{4e2d}\u{6587} **bold** na\u{ef}ve\n"),
        "Caf\u{e9} *it* \u{4e2d}\u{6587} __bold__ na\u{ef}ve\n\n");
    assert_eq!(run("#\u{dc}ber\n"), "# \u{dc}ber\n\n");
}

#[test]
fn typography_is_applied_in_a_document() {
    assert_eq!(run("\u{201C}q\u{201D} \u{2014} x\u{2026}\n"), "\"q\" --- x...\n\n");
    let out = process_content("\u{2014} \u{AB}x\u{BB}\n", 60, &without_links(), true, true, false).0;
    assert_eq!(out, "\u{2014} \u{AB}x\u{BB}\n\n");
}

#[test]
fn normalized_document_is_a_fixed_point() {
    let input = "# Title\n\nSome **bold** text with a [link](https://example.com).\n\n1. one\n3. two\n\n|A|B|\n|---|---|\n|1|22|\n\n```\ncode\n```\n";
    let once = process_content(input, 60, &defaults(), false, false, false).0;
    let twice = process_content(&once, 60, &defaults(), false, false, false).0;
    assert_eq!(once, twice);
}

#[test]
fn skipped_rules_do_nothing() {
    let mut skip = without_links();
    for n in [3u8, 4, 5, 15, 25, 26] {
        skip.insert(n);
    }
    let out = process_content("#T\n\n\na **b**\n3. x\n", 60, &skip, false, false, false).0;
    assert_eq!(out, "#T\n\n\na **b**\n\n3. x\n");
}

#[test]
fn lines_are_split_at_line_feeds() {
    let chars: Vec<char> = "a\r\nb\n\nc\r".chars().collect();
    let lines: Vec<String> = split_lines(&chars).iter().map(|l| l.iter().collect()).collect();
    assert_eq!(lines, vec!["a\r\n", "b\n", "\n", "c\r"]);
    let none: Vec<char> = Vec::new();
    assert_eq!(split_lines(&none).len(), 0);
}

#[test]
fn pass_reports_whether_it_changed_anything() {
    let mut all = HashSet::new();
    for n in 1u8..=30 {
        all.insert(n);
    }
    let lines: Vec<Vec<char>> = vec!["plain\n".chars().collect()];
    let (out, changed) = process_lines(lines, Vec::new(), options_for(&all, 60, false, false, false));
    assert_eq!(out.len(), 1);
    assert!(!changed);
    let lines: Vec<Vec<char>> = vec!["plain   \n".chars().collect()];
    let (out, changed) = process_lines(lines, Vec::new(), options_for(&without_links(), 60, false, false, false));
    assert_eq!(out.len(), 2);
    assert!(changed);
}

#[test]
fn list_numbering_starts_again_after_a_code_block() {
    assert_eq!(run("1. a\n\n```\nx\n```\n\n2. b\n"), "1. a\n\n```\nx\n```\n\n1. b\n\n");
}

#[test]
fn list_numbering_goes_on_over_blank_lines() {
    assert_eq!(run("1. a\n\n5. b\n"), "1. a\n\n2. b\n\n");
}

#[test]
fn task_boxes_are_lowered_in_a_list() {
    assert_eq!(run("-  [X]  done\n- [ ] open\n"), "* [x] done\n* [ ] open\n\n");
}

#[test]
fn text_after_a_list_gets_a_blank_line() {
    assert_eq!(run("* a\ntext\n"), "* a\n\ntext\n\n");
    assert_eq!(run("text\n* a\n"), "text\n\n* a\n\n");
}

#[test]
fn code_fence_ends_open_display_math() {
    assert_eq!(
        run("$$\nx\n```\n$$ **c**\n```\n**b**\n"),
        "$$\nx\n\n```\n$$ **c**\n```\n\n__b__\n\n"
    );
}

#[test]
fn normalized_document_is_reported_unchanged() {
    let content = "# Title\n\nSome text.\n\n";
    let (out, changed) = process_content(content, 60, &defaults(), false, false, false);
    assert_eq!(out, content);
    assert!(!changed);
}

#[test]
fn altered_document_is_reported_changed() {
    let (out, changed) = process_content("#Title\n", 60, &defaults(), false, false, false);
    assert_eq!(out, "# Title\n\n");
    assert!(changed);
    let (out, changed) = process_content("text", 60, &defaults(), false, false, false);
    assert_eq!(out, "text\n\n");
    assert!(changed);
}

#[test]
fn lines_keep_their_endings_without_the_line_ending_rule() {
    let mut skip = without_links();
    skip.insert(1);
    skip.insert(2);
    let (out, changed) = process_content("a\r\nb\n\n", 60, &skip, false, false, false);
    assert_eq!(out, "a\r\nb\n\n");
    assert!(!changed);
}

#[test]
fn definition_inside_a_code_block_stays() {
    let content = "```\n[id]: http://x\n```\n\n";
    let (out, changed) = process_content(content, 60, &defaults(), false, false, false);
    assert_eq!(out, content);
    assert!(!changed);
}

#[test]
fn single_blank_lines_between_items_stay() {
    assert_eq!(run("* a\n\n* b\n\n* c\n"), "* a\n\n* b\n\n* c\n\n");
    assert_eq!(run("> a\n\n> b\n\n\n> c\n"), "> a\n\n> b\n\n> c\n\n");
}

#[test]
fn every_line_ending_becomes_one_line_feed() {
    assert_eq!(run("a\r\r\nb\r"), "a\nb\n\n");
}

#[test]
fn document_without_links_is_unchanged_by_either_link_style() {
    let content = "# Title\n\nSome text.\n\n";
    let mut at_beginning = HashSet::new();
    at_beginning.insert(29);
    at_beginning.insert(30);
    let (out, changed) = process_content(content, 60, &at_beginning, false, false, false);
    assert_eq!(out, content);
    assert!(!changed);
    let inline = HashSet::new();
    let (out, changed) = process_content(content, 60, &inline, false, false, false);
    assert_eq!(out, content);
    assert!(!changed);
}

#[test]
fn bullet_after_numbered_list_and_blank_lines_keeps_its_bullet() {
    let out = run("1. a\n2. b\n\n\n* c\n");
    assert!(out.contains("\n* c\n"));
    assert!(!out.contains("3. c"));
    assert_eq!(out, "1. a\n2. b\n\n\n<!-- -->\n\n* c\n\n");
}

#[test]
fn number_after_bulleted_list_and_a_blank_line_begins_a_list() {
    let out = run("* a\n* b\n\n7. c\n");
    assert!(!out.contains("* c"));
    assert_eq!(out, "* a\n* b\n\n\n<!-- -->\n\n1. c\n\n");
}
