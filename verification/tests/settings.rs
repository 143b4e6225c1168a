use md_fixup::list::{detect_list_indent_unit, get_list_indent};
use md_fixup::number::{decimal_of, parse_number};
use md_fixup::rules::{
    inline_links_requested, parse_config_rules, parse_skip_rules, rule_description, rule_keyword,
    Config, RulesConfig, RulesList,
};
use md_fixup::settings::{
    is_passed_over, looks_like_file_path, resolve_overwrite, resolve_skip_rules, resolve_width,
    rule_keywords, rules_list,
};
use md_fixup::wrap::{get_blockquote_prefix, tokenize_for_wrap, wrap_text};
use std::collections::HashSet;

fn set(ns: &[u8]) -> HashSet<u8> {
    ns.iter().copied().collect()
}

fn list(items: &[&str]) -> Option<RulesList> {
    Some(RulesList::List(items.iter().map(|s| s.to_string()).collect()))
}

fn config(skip: Option<RulesList>, included: Option<RulesList>) -> Config {
    Config { width: None, overwrite: None, rules: Some(RulesConfig { skip, included }) }
}

#[test]
fn skip_list_is_read() {
    let (rules, em_dash, guillemet) =
        parse_skip_rules("2, wrap,code-block-newlines ,emphasis,em-dash,+7").unwrap();
    assert_eq!(rules, set(&[2, 14, 6, 7, 25]).union(&set(&[7])).copied().collect());
    assert!(em_dash);
    assert!(!guillemet);
    let (rules, em_dash, guillemet) = parse_skip_rules("display-math-newlines,guillemet").unwrap();
    assert_eq!(rules, set(&[21]));
    assert!(!em_dash);
    assert!(guillemet);
}

#[test]
fn unknown_number_is_an_error() {
    assert_eq!(parse_skip_rules("2,31"), Err("Invalid rule number: 31".to_string()));
    assert_eq!(parse_skip_rules("0"), Err("Invalid rule number: 0".to_string()));
}

#[test]
fn unknown_keyword_is_an_error() {
    assert_eq!(parse_skip_rules("nonsense"), Err("Invalid keyword: nonsense".to_string()));
    assert_eq!(parse_skip_rules("300"), Err("Invalid keyword: 300".to_string()));
    assert_eq!(parse_skip_rules(""), Err("Invalid keyword: ".to_string()));
    assert_eq!(parse_skip_rules("wrap,bad,31"), Err("Invalid keyword: bad".to_string()));
}

#[test]
fn config_rules_are_read() {
    let all_but = parse_config_rules(&config(Some(RulesList::All), list(&["wrap", "25", "code-block-newlines"])));
    let mut expected: HashSet<u8> = (1u8..=30).collect();
    for n in [14u8, 25, 6, 7] {
        expected.remove(&n);
    }
    assert_eq!(all_but, expected);
    assert_eq!(parse_config_rules(&config(list(&["trailing", "emphasis", "99", "x"]), None)), set(&[2, 25]));
    assert_eq!(parse_config_rules(&config(list(&["2", "3"]), list(&["blank-lines"]))), set(&[2]));
    assert_eq!(parse_config_rules(&Config { width: None, overwrite: None, rules: None }), set(&[]));
    assert_eq!(parse_config_rules(&config(None, Some(RulesList::All))), set(&[]));
}

#[test]
fn inline_links_must_be_asked_for() {
    assert!(inline_links_requested(&config(Some(RulesList::All), list(&["inline-links"]))));
    assert!(inline_links_requested(&config(Some(RulesList::All), list(&["30"]))));
    assert!(!inline_links_requested(&config(Some(RulesList::All), list(&["wrap"]))));
    assert!(inline_links_requested(&config(list(&["wrap"]), None)));
    assert!(!inline_links_requested(&config(list(&["inline-links"]), None)));
    assert!(!inline_links_requested(&config(None, None)));
}

#[test]
fn settings_are_merged() {
    let with_width = Some(Config { width: Some(72), overwrite: Some(true), rules: None });
    assert_eq!(resolve_width(Some(80), &with_width), 80);
    assert_eq!(resolve_width(None, &with_width), 72);
    assert_eq!(resolve_width(None, &None), 60);
    assert!(resolve_overwrite(false, &with_width));
    assert!(resolve_overwrite(true, &None));
    assert!(!resolve_overwrite(false, &None));
    assert_eq!(resolve_skip_rules(&None, &set(&[2])), set(&[2, 30]));
    assert_eq!(resolve_skip_rules(&Some(config(list(&["wrap"]), None)), &set(&[3, 255])), set(&[14, 3, 255]));
    assert_eq!(
        resolve_skip_rules(&Some(config(list(&["inline-links"]), None)), &set(&[])),
        set(&[30])
    );
}

#[test]
fn rules_are_listed() {
    let text = rules_list();
    let lines: Vec<&str> = text.lines().collect();
    assert_eq!(lines.len(), 30);
    assert_eq!(lines[0], "  1. Normalize line endings to Unix (line-endings)");
    assert_eq!(lines[29], "  30. Convert links to inline format (overrides reference-links if enabled) (inline-links)");
    let keywords = rule_keywords();
    assert_eq!(keywords.len(), 30);
    assert_eq!(keywords[13], "wrap");
    assert_eq!(rule_keyword(22), "table-format");
    assert_eq!(rule_keyword(0), "");
    assert_eq!(rule_description(15), "Ensure exactly one blank line at end of file");
}

#[test]
fn paths_are_judged() {
    assert!(looks_like_file_path("docs/a.txt"));
    assert!(looks_like_file_path("a.md  "));
    assert!(looks_like_file_path("c:\\x"));
    assert!(!looks_like_file_path("# Title"));
    assert!(is_passed_over("./node_modules/x"));
    assert!(is_passed_over("./a/.git"));
    assert!(is_passed_over("./rebuild"));
    assert!(!is_passed_over("./docs"));
}

#[test]
fn numbers_are_written_and_read() {
    let s: String = decimal_of(0).iter().collect();
    assert_eq!(s, "0");
    let s: String = decimal_of(1234567890).iter().collect();
    assert_eq!(s, "1234567890");
    let read = |t: &str| parse_number(&t.chars().collect());
    assert_eq!(read("42"), Some(42));
    assert_eq!(read("+42"), Some(42));
    assert_eq!(read("007"), Some(7));
    assert_eq!(read(""), None);
    assert_eq!(read("+"), None);
    assert_eq!(read("-1"), None);
    assert_eq!(read("4x"), None);
    assert_eq!(read("18446744073709551615"), Some(usize::MAX));
    assert_eq!(read("18446744073709551616"), None);
    assert_eq!(read("99999999999999999999999999"), None);
}

#[test]
fn indent_unit_is_detected() {
    let lines = |v: &[&str]| -> Vec<String> { v.iter().map(|s| s.to_string()).collect() };
    assert_eq!(detect_list_indent_unit(&lines(&["* a", "    * b", "  * c"]), 0), 4);
    assert_eq!(detect_list_indent_unit(&lines(&["* a", "  * b", "    * c"]), 0), 2);
    assert_eq!(detect_list_indent_unit(&lines(&["* a", "* b"]), 1), 2);
    assert_eq!(detect_list_indent_unit(&lines(&["* a", "", "   * b"]), 0), 2);
    assert_eq!(detect_list_indent_unit(&lines(&["* a", "text", "    * b"]), 0), 2);
    assert_eq!(detect_list_indent_unit(&lines(&["text", "* a", "      * b"]), 2), 4);
    assert_eq!(get_list_indent("   x"), 3);
    assert_eq!(get_list_indent("x"), 0);
}

#[test]
fn tokens_keep_links_whole() {
    assert_eq!(
        tokenize_for_wrap("  see [a b](http://x y), and [c d][e f]. [g h] end"),
        vec!["see", "[a b](http://x y),", "and", "[c d][e f].", "[g h]", "end"]
    );
    assert_eq!(tokenize_for_wrap("   "), Vec::<String>::new());
    assert_eq!(tokenize_for_wrap("[open and (more"), vec!["[open and (more"]);
}

#[test]
fn text_is_wrapped() {
    assert_eq!(wrap_text("short", 10, ""), vec!["short"]);
    assert_eq!(wrap_text("aaa bbb ccc", 7, ""), vec!["aaa bbb", "ccc"]);
    assert_eq!(wrap_text("aaa bbb ccc", 7, "> "), vec!["> aaa", "> bbb", "> ccc"]);
    assert_eq!(wrap_text("aaaaaaaaaaaa bb", 5, ""), vec!["aaaaaaaaaaaa", "bb"]);
    assert_eq!(wrap_text("\u{e9}\u{e9}\u{e9} \u{e9}\u{e9}\u{e9}", 6, ""), vec!["\u{e9}\u{e9}\u{e9}", "\u{e9}\u{e9}\u{e9}"]);
    assert_eq!(wrap_text("          ", 3, ""), vec!["          "]);
}

#[test]
fn quote_prefix_is_found() {
    assert_eq!(get_blockquote_prefix("  > quote"), "  >");
    assert_eq!(get_blockquote_prefix("> quote"), ">");
    assert_eq!(get_blockquote_prefix("no quote"), "");
}
