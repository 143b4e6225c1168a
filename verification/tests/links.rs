use md_fixup::link_convert::convert_links_in_document;
use md_fixup::links::is_in_code_span;

fn doc(lines: &[&str]) -> Vec<String> {
    lines.iter().map(|l| l.to_string()).collect()
}

#[test]
fn code_span_is_told_by_backticks() {
    assert!(!is_in_code_span("a `b` c", 0));
    assert!(is_in_code_span("a `b` c", 3));
    assert!(!is_in_code_span("a `b` c", 6));
    assert!(!is_in_code_span("a \\`b c", 5));
    assert!(is_in_code_span("``x", 2));
    assert!(is_in_code_span("``[a](u)``", 2));
    assert!(!is_in_code_span("``[a](u)`` x", 11));
    assert!(is_in_code_span("`a` ``b", 6));
}

#[test]
fn links_become_inline() {
    let mut lines = doc(&["A [x][one] and [two].\n", "\n", "[one]: http://a \"T\"\n", "[two]: http://b\n"]);
    convert_links_in_document(&mut lines, true, false, false);
    assert_eq!(lines, doc(&["A [x](http://a \"T\") and [two](http://b).\n", "\n"]));
}

#[test]
fn links_become_references_at_the_end() {
    let mut lines = doc(&[
        "A [x](http://a) and [y](http://b \"T\") and [z](http://a).\n",
        "See [Named] too.\n",
        "\n",
        "[named]: http://n\n",
        "\n",
    ]);
    convert_links_in_document(&mut lines, false, true, false);
    assert_eq!(
        lines,
        doc(&[
            "A [x][1] and [y][2] and [z][1].\n",
            "See [Named] too.\n",
            "\n",
            "[named]: http://n\n",
            "[1]: http://a\n",
            "[2]: http://b \"T\"\n",
        ])
    );
}

#[test]
fn definitions_go_after_front_matter() {
    let mut lines = doc(&["---\n", "t: 1\n", "---\n", "A [x](http://a).\n"]);
    convert_links_in_document(&mut lines, false, true, true);
    assert_eq!(
        lines,
        doc(&["---\n", "t: 1\n", "---\n", "\n", "[1]: http://a\n", "\n", "A [x][1].\n"])
    );
}

#[test]
fn numbers_start_after_the_highest_in_use() {
    let mut lines = doc(&["A [a][7] and [b](http://b).\n", "[7]: http://seven\n"]);
    convert_links_in_document(&mut lines, false, true, false);
    assert_eq!(
        lines,
        doc(&["A [a][7] and [b][8].\n", "\n", "[7]: http://seven\n", "[8]: http://b\n"])
    );
}

#[test]
fn undefined_references_stay_as_text() {
    let mut lines = doc(&["A [a][nowhere] and [plain].\n"]);
    convert_links_in_document(&mut lines, false, true, false);
    assert_eq!(lines, doc(&["A [a][nowhere] and [plain].\n"]));
}

#[test]
fn links_in_code_are_left_alone() {
    let mut lines = doc(&["```\n", "[x](http://a)\n", "```\n", "`[y](http://b)` [z](http://c)\n"]);
    convert_links_in_document(&mut lines, false, true, false);
    assert_eq!(
        lines,
        doc(&["```\n", "[x](http://a)\n", "```\n", "`[y](http://b)` [z][1]\n", "\n", "[1]: http://c\n"])
    );
}

#[test]
fn no_style_asked_changes_nothing() {
    let mut lines = doc(&["A [x](http://a).\n", "[d]: http://d\n"]);
    convert_links_in_document(&mut lines, false, false, false);
    assert_eq!(lines, doc(&["A [x](http://a).\n", "[d]: http://d\n"]));
}

#[test]
fn list_items_keep_their_marker() {
    let mut lines = doc(&["- [x](http://a) item\n", "\u{e9} [y](http://b)\n"]);
    convert_links_in_document(&mut lines, false, true, false);
    assert_eq!(
        lines,
        doc(&["- [x][1] item\n", "\u{e9} [y][2]\n", "\n", "[1]: http://a\n", "[2]: http://b\n"])
    );
}

#[test]
fn links_in_double_backticks_are_left_alone() {
    let mut lines = doc(&["``[y](http://b)`` [z](http://c)\n"]);
    convert_links_in_document(&mut lines, false, true, false);
    assert_eq!(lines, doc(&["``[y](http://b)`` [z][1]\n", "\n", "[1]: http://c\n"]));
}

#[test]
fn definitions_in_fenced_code_are_kept() {
    let mut lines = doc(&["```\n", "[id]: http://x\n", "```\n"]);
    convert_links_in_document(&mut lines, false, true, false);
    assert_eq!(lines, doc(&["```\n", "[id]: http://x\n", "```\n"]));
    let mut lines = doc(&["A [a][id].\n", "```\n", "[id]: http://x\n", "```\n", "[id]: http://y\n"]);
    convert_links_in_document(&mut lines, true, false, false);
    assert_eq!(lines, doc(&["A [a](http://y).\n", "```\n", "[id]: http://x\n", "```\n"]));
}

#[test]
fn definitions_after_front_matter_stand_between_blank_lines() {
    let mut lines = doc(&["---\n", "t: 1\n", "---\n", "\n", "A [x](http://a).\n"]);
    convert_links_in_document(&mut lines, false, true, true);
    assert_eq!(
        lines,
        doc(&["---\n", "t: 1\n", "---\n", "\n", "[1]: http://a\n", "\n", "A [x][1].\n"])
    );
}

#[test]
fn lines_without_links_stay_as_they_are() {
    let mut lines = doc(&["text\n", "\n", "\n"]);
    convert_links_in_document(&mut lines, false, true, false);
    assert_eq!(lines, doc(&["text\n", "\n", "\n"]));
    let mut lines = doc(&["text\n", "more\n"]);
    convert_links_in_document(&mut lines, false, true, true);
    assert_eq!(lines, doc(&["text\n", "more\n"]));
}

#[test]
fn reference_ids_are_looked_up_without_regard_to_case() {
    let mut lines = doc(&["A [a][ID] and [b][Id].\n", "\n", "[id]: http://x\n"]);
    convert_links_in_document(&mut lines, true, false, false);
    assert_eq!(lines, doc(&["A [a](http://x) and [b](http://x).\n", "\n"]));
    let mut lines = doc(&["A [a][ID].\n", "[id]: http://lower\n", "[ID]: http://upper\n"]);
    convert_links_in_document(&mut lines, true, false, false);
    assert_eq!(lines, doc(&["A [a](http://upper).\n"]));
}

#[test]
fn numbers_pass_over_ids_beyond_the_word() {
    let mut lines = doc(&[
        "A [a][18446744073709551615], [b][18446744073709551616] and [c](http://c).\n",
        "[18446744073709551615]: http://a\n",
        "[18446744073709551616]: http://b\n",
    ]);
    convert_links_in_document(&mut lines, false, true, false);
    assert_eq!(
        lines,
        doc(&[
            "A [a][18446744073709551615], [b][18446744073709551616] and [c][18446744073709551617].\n",
            "\n",
            "[18446744073709551615]: http://a\n",
            "[18446744073709551616]: http://b\n",
            "[18446744073709551617]: http://c\n",
        ])
    );
}

#[test]
fn numbers_pass_over_each_id_in_use() {
    let mut lines = doc(&[
        "[a][18446744073709551615] [b][18446744073709551616] [c][18446744073709551618]\n",
        "[x](http://x) [y](http://y) [z](http://z) [x again](http://x)\n",
        "[18446744073709551615]: http://a\n",
        "[18446744073709551616]: http://b\n",
        "[18446744073709551618]: http://c\n",
    ]);
    convert_links_in_document(&mut lines, false, true, false);
    assert_eq!(
        lines,
        doc(&[
            "[a][18446744073709551615] [b][18446744073709551616] [c][18446744073709551618]\n",
            "[x][18446744073709551617] [y][18446744073709551619] [z][18446744073709551620] [x again][18446744073709551617]\n",
            "\n",
            "[18446744073709551615]: http://a\n",
            "[18446744073709551616]: http://b\n",
            "[18446744073709551618]: http://c\n",
            "[18446744073709551617]: http://x\n",
            "[18446744073709551619]: http://y\n",
            "[18446744073709551620]: http://z\n",
        ])
    );
}

#[test]
fn an_id_too_long_for_a_number_counts_as_text() {
    let mut lines = doc(&[
        "A [a][99999999999999999999999] and [b](http://b).\n",
        "[99999999999999999999999]: http://a\n",
    ]);
    convert_links_in_document(&mut lines, false, true, false);
    assert_eq!(
        lines,
        doc(&[
            "A [a][99999999999999999999999] and [b][1].\n",
            "\n",
            "[99999999999999999999999]: http://a\n",
            "[1]: http://b\n",
        ])
    );
}
