use md_fixup::classify::{
    is_blockquote, is_code_block, is_headline, is_horizontal_rule, is_list_item,
    should_preserve_line,
};

#[test]
fn test_is_list_item() {
    assert!(is_list_item("* Item"));
    assert!(is_list_item("- Item"));
    assert!(is_list_item("+ Item"));
    assert!(is_list_item("1. Item"));
    assert!(is_list_item("   * Item"));
    assert!(is_list_item("\t* Item"));
    assert!(!is_list_item("Not a list"));
    assert!(!is_list_item(""));
}

#[test]
fn code_fences_are_recognized() {
    assert!(is_code_block("```rust"));
    assert!(is_code_block("  ~~~"));
    assert!(!is_code_block("``"));
}

#[test]
fn headings_and_rules_are_recognized() {
    assert!(is_headline("# Title"));
    assert!(is_headline("##Title"));
    assert!(!is_headline("#"));
    assert!(is_horizontal_rule("---"));
    assert!(is_horizontal_rule(" *** "));
    assert!(!is_horizontal_rule("--"));
}

#[test]
fn quotes_are_recognized() {
    assert!(is_blockquote("> quote"));
    assert!(is_blockquote("   >quote"));
    assert!(!is_blockquote("a > b"));
    assert!(!is_blockquote(""));
}

#[test]
fn some_lines_are_never_wrapped() {
    assert!(should_preserve_line("```rust"));
    assert!(should_preserve_line("# Title"));
    assert!(should_preserve_line("#hashtag"));
    assert!(should_preserve_line("***"));
    assert!(should_preserve_line("a | b"));
    assert!(!should_preserve_line("plain text"));
    assert!(!should_preserve_line(""));
}

#[test]
fn markers_without_text_are_no_list_items() {
    assert!(!is_list_item("*"));
    assert!(is_list_item("* "));
    assert!(is_list_item("---"));
    assert!(!is_list_item("1.x"));
    assert!(is_list_item("12.\tx"));
}
