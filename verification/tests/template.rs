use prompt_composer::archive_schema::{check_archive_shape, ShapeOptions};
use prompt_composer::catalog::{Catalog, Category};
use prompt_composer::template::{template_headers, template_sheets, TemplateCell};

#[test]
fn template_headers_match_archive_schema() {
    let headers = template_headers();
    assert_eq!(headers.len(), 6);
    assert!(check_archive_shape(&headers, ShapeOptions::template()).is_ok());
    assert!(check_archive_shape(&headers, ShapeOptions::fixture()).is_ok());
}

#[test]
fn template_rows_load_as_catalog() {
    let sheets = template_sheets();
    let rows: Vec<Vec<Vec<String>>> = sheets.iter().map(|s| s.text_rows()).collect();
    let catalog = Catalog::from_sheets(&rows[0], &rows[1], &rows[2], &rows[3], &rows[4]).unwrap();
    let counts = catalog.counts();
    assert_eq!(counts.subjects, 1);
    assert_eq!(counts.outfits, 1);
    assert_eq!(counts.poses, 1);
    assert_eq!(counts.actions, 1);
    assert_eq!(counts.scenes, 1);
    assert!(catalog.subject(2).unwrap().body.contains("e.g."));
    assert!(catalog.entry(Category::Outfit, 1, 1).unwrap().prompt.contains("e.g."));
    assert!(catalog.entry(Category::Pose, 2, 1).is_ok());
    assert!(catalog.entry(Category::Action, 1, 2).is_ok());
    assert!(catalog.entry(Category::Scene, 3, 1).is_ok());
}

#[test]
fn template_levels_read_back_as_decimal_text() {
    assert_eq!(TemplateCell::Level(3).text(), "3");
    assert_eq!(TemplateCell::Text("USE").text(), "USE");
    let sheets = template_sheets();
    assert_eq!(sheets[5].name, "HowTo");
    assert_eq!(sheets[1].text_rows()[1][1], "1");
}
