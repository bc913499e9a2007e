use prompt_composer::archive_schema::{
    check_archive_shape, resolve_subjects_sheet, subjects_sheet_to_read, SheetHeader, ShapeOptions, CATEGORY_HEADERS,
    CATEGORY_SHEETS, SUBJECT_HEADERS,
};

fn sheet(name: &str, header: &[&str]) -> SheetHeader {
    SheetHeader {
        name: name.to_string(),
        header: Ok(Some(header.iter().map(|h| h.to_string()).collect())),
    }
}

fn complete(subjects: &str) -> Vec<SheetHeader> {
    let mut v = vec![sheet(subjects, &SUBJECT_HEADERS)];
    for name in CATEGORY_SHEETS {
        v.push(sheet(name, &CATEGORY_HEADERS));
    }
    v
}

#[test]
fn complete_workbook_has_the_shape() {
    assert!(check_archive_shape(&complete("Subjects"), ShapeOptions::fixture()).is_ok());
    assert!(check_archive_shape(&complete("Maidens"), ShapeOptions::fixture()).is_ok());
    let mut t = complete("Subjects");
    t.push(sheet("HowTo", &[]));
    assert!(check_archive_shape(&t, ShapeOptions::template()).is_ok());
}

#[test]
fn shape_check_reports_wrong_headers() {
    let mut v = complete("Subjects");
    v[0] = sheet("Subjects", &["Wrong", "Headers", "Here", "Now"]);
    let msg = check_archive_shape(&v, ShapeOptions::fixture()).unwrap_err().to_string();
    assert!(msg.contains("header"), "expected header mismatch, got: {msg}");
    assert_eq!(
        msg,
        "catalog error: sheet `Subjects` header col 0: expected `Name`, got `Wrong`"
    );
}

#[test]
fn shape_check_reports_missing_category_sheet() {
    let v = vec![sheet("Subjects", &SUBJECT_HEADERS), sheet("Outfits", &CATEGORY_HEADERS)];
    let msg = check_archive_shape(&v, ShapeOptions::fixture()).unwrap_err().to_string();
    assert!(msg.contains("Poses"));
    assert_eq!(msg, "catalog error: missing required sheet `Poses`");
}

#[test]
fn shape_check_legacy_and_howto_rules() {
    let msg = check_archive_shape(&complete("Maidens"), ShapeOptions::template())
        .unwrap_err()
        .to_string();
    assert!(msg.contains("legacy"), "{msg}");
    let msg = check_archive_shape(&complete("Subjects"), ShapeOptions::template())
        .unwrap_err()
        .to_string();
    assert_eq!(msg, "catalog error: missing required sheet `HowTo`");
    let msg = check_archive_shape(&complete("People"), ShapeOptions::fixture())
        .unwrap_err()
        .to_string();
    assert!(msg.contains("missing subjects sheet"), "{msg}");
}

#[test]
fn shape_check_header_row_problems() {
    let mut v = complete("Subjects");
    v[1] = SheetHeader { name: "Outfits".to_string(), header: Ok(None) };
    let msg = check_archive_shape(&v, ShapeOptions::fixture()).unwrap_err().to_string();
    assert_eq!(msg, "catalog error: sheet `Outfits` has no header row");
    v[1] = SheetHeader { name: "Outfits".to_string(), header: Err("corrupt".to_string()) };
    let msg = check_archive_shape(&v, ShapeOptions::fixture()).unwrap_err().to_string();
    assert_eq!(msg, "catalog error: read sheet `Outfits` for shape check: corrupt");
    v[1] = sheet("Outfits", &["Name", "Level"]);
    let msg = check_archive_shape(&v, ShapeOptions::fixture()).unwrap_err().to_string();
    assert_eq!(
        msg,
        "catalog error: sheet `Outfits` header col 2: expected `Status`, got ``"
    );
}

#[test]
fn subjects_sheet_preference() {
    let mut v = complete("Maidens");
    v.push(sheet("Subjects", &SUBJECT_HEADERS));
    assert_eq!(resolve_subjects_sheet(&v, true).unwrap(), "Subjects");
    assert_eq!(resolve_subjects_sheet(&complete("Maidens"), true).unwrap(), "Maidens");
    assert!(resolve_subjects_sheet(&complete("Maidens"), false).is_err());
}

#[test]
fn shape_options_presets() {
    let d = ShapeOptions::default();
    assert!(!d.require_howto && d.allow_legacy_subjects);
    assert_eq!(ShapeOptions::fixture(), d);
    let t = ShapeOptions::template();
    assert!(t.require_howto && !t.allow_legacy_subjects);
}

#[test]
fn extra_sheets_are_allowed() {
    let mut v = complete("Subjects");
    v.push(SheetHeader { name: "Notes".to_string(), header: Err("unreadable".to_string()) });
    assert!(check_archive_shape(&v, ShapeOptions::fixture()).is_ok());
}

#[test]
fn subjects_sheet_to_read_takes_first_opened_candidate() {
    assert_eq!(subjects_sheet_to_read(&vec![true, true]), Some(0));
    assert_eq!(subjects_sheet_to_read(&vec![false, true]), Some(1));
    assert_eq!(subjects_sheet_to_read(&vec![false, false]), None);
}
