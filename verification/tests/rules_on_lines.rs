use md_fixup::emoji::{
    find_best_emoji_match, levenshtein_distance, normalize_emoji_name, normalize_emoji_names,
    valid_emoji_names_set,
};
use md_fixup::emphasis::normalize_bold_italic;
use md_fixup::math::normalize_math_spacing;
use md_fixup::spacing::{
    normalize_blockquote_spacing, normalize_fenced_code_lang, normalize_headline_spacing,
    normalize_ial_spacing, normalize_reference_link, normalize_task_checkbox,
    normalize_trailing_whitespace,
};
use md_fixup::table::{count_columns, is_separator_row, normalize_table_formatting};
use md_fixup::typography::normalize_typography;

#[test]
fn trailing_whitespace_is_trimmed() {
    assert_eq!(normalize_trailing_whitespace("abc   \n"), "abc\n");
    assert_eq!(normalize_trailing_whitespace("abc \t\n"), "abc\n");
    assert_eq!(normalize_trailing_whitespace("abc"), "abc");
}

#[test]
fn hard_line_break_keeps_two_spaces() {
    assert_eq!(normalize_trailing_whitespace("abc  \n"), "abc  \n");
    assert_eq!(normalize_trailing_whitespace("abc  "), "abc  ");
}

#[test]
fn heading_gets_one_space() {
    assert_eq!(normalize_headline_spacing("##Title\n"), "## Title\n");
    assert_eq!(normalize_headline_spacing("#   Title"), "# Title");
    assert_eq!(normalize_headline_spacing("# Title\n"), "# Title\n");
}

#[test]
fn attribute_lists_are_tidied() {
    assert_eq!(normalize_ial_spacing("# T {:  .a   #b  }\n"), "# T {: .a #b}\n");
    assert_eq!(normalize_ial_spacing("x { .a }"), "x {.a}");
}

#[test]
fn fence_language_is_joined() {
    assert_eq!(normalize_fenced_code_lang("```  rust\n"), "```rust\n");
    assert_eq!(normalize_fenced_code_lang("```rust\n"), "```rust\n");
}

#[test]
fn reference_definition_is_spaced() {
    assert_eq!(normalize_reference_link("[a]:http://x\n"), "[a]: http://x\n");
    assert_eq!(normalize_reference_link("[a]  :   http://x\n"), "[a]: http://x\n");
}

#[test]
fn task_checkbox_is_lowered() {
    assert_eq!(normalize_task_checkbox("-  [X]  done\n"), "- [x] done\n");
    assert_eq!(normalize_task_checkbox("- [ ] open\n"), "- [ ] open\n");
}

#[test]
fn quote_marker_gets_a_space() {
    assert_eq!(normalize_blockquote_spacing(">quote\n"), "> quote\n");
    assert_eq!(normalize_blockquote_spacing("> quote\n"), "> quote\n");
}

#[test]
fn math_is_trimmed() {
    assert_eq!(normalize_math_spacing("a $ x + y $ b\n", false), "a $x + y$ b\n");
    assert_eq!(normalize_math_spacing("$$  x  $$\n", false), "$$x$$\n");
    assert_eq!(normalize_math_spacing("a $ x $ b\n", true), "a $ x $ b\n");
    assert_eq!(normalize_math_spacing("costs $5 and $6\n", false), "costs $5 and $6\n");
}

#[test]
fn typography_becomes_plain() {
    assert_eq!(
        normalize_typography("\u{201C}a\u{201D} \u{2018}b\u{2019} \u{2013} \u{2014} \u{2026} \u{AB}c\u{BB}", false, false),
        "\"a\" 'b' -- --- ... \"c\""
    );
    assert_eq!(normalize_typography("\u{2014}\u{AB}", true, true), "\u{2014}\u{AB}");
}

#[test]
fn edit_distance_is_exact() {
    assert_eq!(levenshtein_distance("kitten", "sitting"), 3);
    assert_eq!(levenshtein_distance("", "abc"), 3);
    assert_eq!(levenshtein_distance("abc", ""), 3);
    assert_eq!(levenshtein_distance("smle", "smile"), 1);
    assert_eq!(levenshtein_distance("same", "same"), 0);
}

#[test]
fn emoji_name_is_normalized() {
    assert_eq!(normalize_emoji_name(":Thumbs-Up:"), "thumbs_up");
}

#[test]
fn emoji_is_corrected() {
    let names = valid_emoji_names_set();
    assert_eq!(names.len(), 871);
    assert_eq!(find_best_emoji_match("smle", 4, &names), Some("smile".to_string()));
    assert_eq!(find_best_emoji_match("Smile", 4, &names), Some("smile".to_string()));
    assert_eq!(find_best_emoji_match("qqqqqqqqqqqqqqqqqqqqqqqq", 4, &names), None);
    assert_eq!(normalize_emoji_names("a :smle: b\n", &names), "a :smile: b\n");
    assert_eq!(
        normalize_emoji_names(":qqqqqqqqqqqqqqqqqqqqqqqq:", &names),
        ":qqqqqqqqqqqqqqqqqqqqqqqq:"
    );
}

#[test]
fn emphasis_is_rewritten() {
    assert_eq!(normalize_bold_italic("**bold**", false), "__bold__");
    assert_eq!(normalize_bold_italic("_italic_", false), "*italic*");
    assert_eq!(normalize_bold_italic("***both***", false), "__*both*__");
    assert_eq!(normalize_bold_italic("__bold__", true), "**bold**");
    assert_eq!(normalize_bold_italic("*italic*", true), "_italic_");
    assert_eq!(normalize_bold_italic("***both***", true), "_**both**_");
}

#[test]
fn emphasis_leaves_code_and_emoji_alone() {
    assert_eq!(normalize_bold_italic("`**code**` and :thumbs_up: and :a_b_c:", false),
        "`**code**` and :thumbs_up: and :a_b_c:");
    assert_eq!(normalize_bold_italic("**a `b** c`", false), "**a `b** c`");
}

#[test]
fn table_is_formatted() {
    let lines = vec!["|A|B|\n".to_string(), "|---|---|\n".to_string(), "|1|22|\n".to_string()];
    let out = normalize_table_formatting(&lines).unwrap();
    assert_eq!(out, vec!["| A | B  |\n", "|---|----|\n", "| 1 | 22 |\n"]);
}

#[test]
fn table_alignment_is_kept() {
    let lines = vec![
        "| a | b | c |".to_string(),
        "|:-:|--:|---|".to_string(),
        "| long cell | x | y |".to_string(),
    ];
    let out = normalize_table_formatting(&lines).unwrap();
    assert_eq!(
        out,
        vec![
            "|     a     | b | c |\n",
            "|:---------:|--:|---|\n",
            "| long cell | x | y |\n",
        ]
    );
}

#[test]
fn table_without_separator_gets_one() {
    let lines = vec!["| a | b |".to_string(), "| c | d |".to_string()];
    let out = normalize_table_formatting(&lines).unwrap();
    assert_eq!(out, vec!["| a | b |\n", "|---|---|\n", "| c | d |\n"]);
}

#[test]
fn short_runs_are_no_table() {
    assert_eq!(normalize_table_formatting(&vec!["| a |".to_string()]), None);
    assert_eq!(normalize_table_formatting(&vec![]), None);
    assert_eq!(normalize_table_formatting(&vec!["| a |".to_string(), "text".to_string()]), None);
}

#[test]
fn separator_rows_and_columns() {
    assert!(is_separator_row("|---|:-:|"));
    assert!(!is_separator_row("| a | b |"));
    assert!(!is_separator_row("---"));
    assert_eq!(count_columns("| a | b |"), 2);
    assert_eq!(count_columns("a | b"), 2);
    assert_eq!(count_columns(""), 0);
}

#[test]
fn emphasis_passes_over_what_touches_code() {
    assert_eq!(normalize_bold_italic("\u{e9}\u{e9} **b** `x`", false), "\u{e9}\u{e9} __b__ `x`");
    assert_eq!(normalize_bold_italic("**a_b**", false), "__a_b__");
    assert_eq!(normalize_bold_italic("**_both_**", false), "__*both*__");
}

#[test]
fn table_counts_letters_not_bytes() {
    let lines = vec!["|\u{e9}\u{e9}\u{e9}|b|".to_string(), "|-|-|".to_string(), "|a|\u{4e2d}|".to_string()];
    let out = normalize_table_formatting(&lines).unwrap();
    assert_eq!(out, vec!["| \u{e9}\u{e9}\u{e9} | b |\n", "|-----|---|\n", "| a   | \u{4e2d} |\n"]);
}

#[test]
fn table_takes_its_columns_from_the_longest_row() {
    let lines = vec!["|a|".to_string(), "|-|".to_string(), "|b|c|".to_string()];
    let out = normalize_table_formatting(&lines).unwrap();
    assert_eq!(out, vec!["| a |   |\n", "|---|---|\n", "| b | c |\n"]);
}

#[test]
fn table_can_begin_with_its_separator() {
    let lines = vec!["|--:|:-:|".to_string(), "|a|b|".to_string()];
    let out = normalize_table_formatting(&lines).unwrap();
    assert_eq!(out, vec!["|--:|:-:|\n", "| a | b |\n"]);
}

#[test]
fn trimming_twice_changes_nothing_more() {
    for line in ["abc  \n", "abc   \n", "abc \t \n", "  \n", "abc", "a\t  \n\n"] {
        let once = normalize_trailing_whitespace(line);
        assert_eq!(normalize_trailing_whitespace(&once), once);
    }
    assert_eq!(normalize_trailing_whitespace("a\t  \n\n"), "a  \n");
    assert_eq!(normalize_trailing_whitespace("  \n"), "  \n");
}

#[test]
fn separator_cells_keep_their_ends() {
    let lines = vec!["|a|b|c|d|".to_string(), "|:--|---|-:|:-:|".to_string(), "|1|2|3|4|".to_string()];
    let out = normalize_table_formatting(&lines).unwrap();
    assert_eq!(out, vec!["| a | b | c | d |\n", "|:--|---|--:|:-:|\n", "| 1 | 2 | 3 | 4 |\n"]);
}
