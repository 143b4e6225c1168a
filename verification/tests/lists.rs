use md_fixup::list::{
    get_list_level, normalize_list_markers, spaces_to_tabs_for_list, ListContext,
};

#[test]
fn test_get_list_level() {
    assert_eq!(get_list_level("", 2), 0);
    assert_eq!(get_list_level("  ", 2), 1);
    assert_eq!(get_list_level("    ", 2), 2);
    assert_eq!(get_list_level("\t", 2), 1);
    assert_eq!(get_list_level("\t  ", 2), 2);
}

#[test]
fn markers_are_renumbered_in_sequence() {
    let mut stack: Vec<ListContext> = Vec::new();
    let (a, ca) = normalize_list_markers("1. a\n", &mut stack, 2, false);
    let (b, cb) = normalize_list_markers("3. b\n", &mut stack, 2, false);
    let (c, cc) = normalize_list_markers("5. c\n", &mut stack, 2, false);
    assert_eq!(a, "1. a\n");
    assert_eq!(b, "2. b\n");
    assert_eq!(c, "3. c\n");
    assert!(!ca);
    assert!(cb);
    assert!(cc);
    assert_eq!(stack.len(), 1);
    assert_eq!(stack[0].current_number, Some(3));
}

#[test]
fn nested_list_restarts_at_one() {
    let mut stack: Vec<ListContext> = Vec::new();
    normalize_list_markers("7. a\n", &mut stack, 2, false);
    normalize_list_markers("8. b\n", &mut stack, 2, false);
    let (n, _) = normalize_list_markers("  4. nested\n", &mut stack, 2, false);
    assert_eq!(n, "  1. nested\n");
    let (p, _) = normalize_list_markers("9. c\n", &mut stack, 2, false);
    assert_eq!(p, "3. c\n");
}

#[test]
fn starting_number_is_kept_on_request() {
    let mut stack: Vec<ListContext> = Vec::new();
    let (a, _) = normalize_list_markers("7. First", &mut stack, 2, true);
    let (b, _) = normalize_list_markers("9. Second", &mut stack, 2, true);
    assert_eq!(a, "7. First");
    assert_eq!(b, "8. Second");
}

#[test]
fn bullets_follow_the_level() {
    let mut stack: Vec<ListContext> = Vec::new();
    let (a, _) = normalize_list_markers("- a\n", &mut stack, 4, false);
    let (b, _) = normalize_list_markers("    * b\n", &mut stack, 4, false);
    let (c, _) = normalize_list_markers("        - c\n", &mut stack, 4, false);
    assert_eq!(a, "* a\n");
    assert_eq!(b, "    - b\n");
    assert_eq!(c, "        + c\n");
}

#[test]
fn spaces_become_tabs() {
    assert_eq!(spaces_to_tabs_for_list("    * Item\n", 4), "\t* Item\n");
    assert_eq!(spaces_to_tabs_for_list("    *   Item", 2), "\t\t* Item");
    assert_eq!(spaces_to_tabs_for_list("Not a list\n", 2), "Not a list\n");
}
