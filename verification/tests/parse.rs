use prompt_composer::catalog::Category;
use prompt_composer::fixtures_data::{GOLDEN_QUERY, GOLDEN_QUERY_SLASH};
use prompt_composer::parse::parse_query;

#[test]
fn parses_example() {
    let q = parse_query("7 1lvl5 2lvl3 1lvl4").unwrap();
    assert_eq!(q.subject_row, 7);
    assert_eq!(q.modules.len(), 3);
    assert_eq!(q.modules[0].level, 1);
    assert_eq!(q.modules[0].index, 5);
    assert_eq!(q.modules[0].category, Category::Outfit);
    assert_eq!(q.modules[1].level, 2);
    assert_eq!(q.modules[1].index, 3);
    assert_eq!(q.modules[1].category, Category::Pose);
    assert_eq!(q.modules[2].level, 1);
    assert_eq!(q.modules[2].index, 4);
    assert_eq!(q.modules[2].category, Category::Action);
}

#[test]
fn parses_golden_fixture_query() {
    let q = parse_query(GOLDEN_QUERY).unwrap();
    assert_eq!(q.subject_row, 2);
    assert_eq!(q.modules.len(), 3);
    assert_eq!(q.modules[0].category, Category::Outfit);
    assert_eq!(q.modules[1].category, Category::Pose);
    assert_eq!(q.modules[2].category, Category::Action);
}

#[test]
fn rejects_bare_row_without_modules() {
    assert!(parse_query("2").is_err());
}

#[test]
fn rejects_non_numeric_prefix() {
    let err = parse_query("abc 7 1lvl5").unwrap_err();
    let msg = err.to_string();
    assert!(msg.contains("row") || format!("{err:?}").contains("unknown_keyword"));
}

#[test]
fn rejects_level_6() {
    let err = parse_query("7 6lvl1").unwrap_err();
    assert!(err.to_string().contains("red/black") || err.to_string().contains("maximum"));
}

#[test]
fn rejects_malformed() {
    assert!(parse_query("7 1lv5").is_err());
    assert!(parse_query("7 lvl5").is_err());
}

#[test]
fn rejects_empty_and_too_many() {
    assert!(parse_query("").is_err());
    assert!(parse_query("2").is_err());
    assert!(parse_query("2 1lvl1 2lvl1 1lvl2 3lvl1 1lvl1").is_err());
}

fn code_of(input: &str) -> String {
    format!("{:?}", parse_query(input).unwrap_err())
}

#[test]
fn parse_error_codes() {
    assert!(code_of("").contains("\"empty\""));
    assert!(code_of("   \t ").contains("\"empty\""));
    assert!(code_of("x 1lvl1").contains("unknown_keyword"));
    assert!(code_of("4294967296 1lvl1").contains("subject_row_invalid"));
    assert!(code_of("1 1lvl1").contains("subject_row_invalid"));
    assert!(code_of("2").contains("missing_modules"));
    assert!(code_of("2 1lvl1 1lvl1 1lvl1 1lvl1 1lvl1").contains("too_many_modules"));
    assert!(code_of("2 256lvl1").contains("level_invalid"));
    assert!(code_of("2 1lvl256").contains("index_invalid"));
    assert!(code_of("2 0lvl1").contains("level_out_of_range"));
    assert!(code_of("2 8lvl1").contains("level_out_of_range"));
    assert!(code_of("2 7lvl1").contains("level_blocked"));
    assert!(code_of("2 1lvl0").contains("index_out_of_range"));
    assert!(code_of("2 1lvl31").contains("index_out_of_range"));
    assert!(code_of("2 abc").contains("malformed_module"));
}

#[test]
fn parse_error_messages_are_exact() {
    let e = parse_query("1 1lvl1").unwrap_err();
    assert_eq!(e.to_string(), "subject row must be >= 2 (Excel data rows), got 1");
    let e = parse_query("2 1lvl1 1lvl1 1lvl1 1lvl1 1lvl1").unwrap_err();
    assert_eq!(
        e.to_string(),
        "expected at most 4 module tokens (Outfit Pose Action Scene), got 5"
    );
    let e = parse_query("2 1lvl31").unwrap_err();
    assert_eq!(e.to_string(), "index in `1lvl31` must be 1–30 (got 31)");
    let e = parse_query("2 0lvl3").unwrap_err();
    assert_eq!(e.to_string(), "level in `0lvl3` must be 1–5 (got 0)");
    let e = parse_query("x").unwrap_err();
    assert_eq!(e.to_string(), "expected a subject row number, got `x`");
}

#[test]
fn malformed_module_suggestions() {
    let s = format!("{:?}", parse_query("2 1level5").unwrap_err());
    assert!(s.contains("not `level`"), "{s}");
    let s = format!("{:?}", parse_query("2 1lv5").unwrap_err());
    assert!(s.contains("two letters"), "{s}");
    let s = format!("{:?}", parse_query("2 lvl5").unwrap_err());
    assert!(s.contains("level number first"), "{s}");
    let s = format!("{:?}", parse_query("2 abc").unwrap_err());
    assert!(s.contains("suggestion: None"), "{s}");
}

#[test]
fn slash_and_case_and_spacing() {
    let a = parse_query(GOLDEN_QUERY_SLASH).unwrap();
    let b = parse_query(GOLDEN_QUERY).unwrap();
    assert_eq!(a, b);
    let c = parse_query("  2\t1LVL1\n2Lvl1   1lvl2 ").unwrap();
    assert_eq!(c, b);
    let d = parse_query("002 01lvl001 2lvl1 1lvl2").unwrap();
    assert_eq!(d, b);
}

#[test]
fn four_modules_take_scene_slot() {
    let q = parse_query("3 5lvl30 1lvl1 4lvl10 1lvl1").unwrap();
    assert_eq!(q.subject_row, 3);
    assert_eq!(q.modules[3].category, Category::Scene);
    assert_eq!(q.modules[0].level, 5);
    assert_eq!(q.modules[0].index, 30);
}

#[test]
fn unicode_whitespace_and_case_do_not_change_a_parse() {
    let plain = parse_query("7 1lvl5 2lvl3 1lvl4").unwrap();
    let spaced = parse_query("\u{3000}7\u{A0}1LvL5\u{2003}\u{2003}2LVL3\r\n1lVl4\u{205F}").unwrap();
    assert_eq!(spaced, plain);
}
