use exspec::suppress::parse_suppression;

#[test]
fn parse_single_rule() {
    let result = parse_suppression("# exspec-ignore: T002");
    assert_eq!(result.len(), 1);
    assert_eq!(result[0].0, "T002");
}

#[test]
fn parse_multiple_rules() {
    let result = parse_suppression("# exspec-ignore: T002, T003");
    assert_eq!(result.len(), 2);
    assert_eq!(result[0].0, "T002");
    assert_eq!(result[1].0, "T003");
}

#[test]
fn parse_no_suppression() {
    let result = parse_suppression("# just a comment");
    assert!(result.is_empty());
}

#[test]
fn parse_suppression_empty_list_gives_one_empty_id() {
    let result = parse_suppression("// exspec-ignore:");
    assert_eq!(result.len(), 1);
    assert_eq!(result[0].0, "");
}

#[test]
fn parse_suppression_trims_unicode_whitespace_and_uses_first_marker() {
    let result = parse_suppression("x exspec-ignore:\u{3000}T001\t,T004 exspec-ignore: T009");
    assert_eq!(result.len(), 2);
    assert_eq!(result[0].0, "T001");
    assert_eq!(result[1].0, "T004 exspec-ignore: T009");
}
