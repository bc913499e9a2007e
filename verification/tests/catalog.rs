use prompt_composer::catalog::{parse_level_index, Catalog, Category};
use prompt_composer::fixtures_data::{
    ACTION_INDEX, ACTION_LEVEL, ACTION_NAME, ACTION_PROMPT, ALT_ACTION_LEVEL, ALT_ACTION_NAME,
    ALT_ACTION_PROMPT, ALT_OUTFIT_LEVEL, ALT_OUTFIT_NAME, ALT_OUTFIT_PROMPT, ALT_POSE_LEVEL,
    ALT_POSE_NAME, ALT_POSE_PROMPT, ALT_SCENE_LEVEL, ALT_SCENE_NAME, ALT_SCENE_PROMPT,
    ALT_SUBJECT_BODY, ALT_SUBJECT_NAME, EXTRA_ACTION_LEVEL, EXTRA_ACTION_NAME,
    EXTRA_ACTION_PROMPT, EXTRA_OUTFIT_LEVEL, EXTRA_OUTFIT_NAME, EXTRA_OUTFIT_PROMPT,
    EXTRA_POSE_LEVEL, EXTRA_POSE_NAME, EXTRA_POSE_PROMPT, EXTRA_SCENE_LEVEL, EXTRA_SCENE_NAME,
    EXTRA_SCENE_PROMPT, OUTFIT_LEVEL, OUTFIT_NAME, OUTFIT_PROMPT, POSE_LEVEL, POSE_NAME,
    POSE_PROMPT, SCENE_LEVEL, SCENE_NAME, SCENE_PROMPT, SUBJECT_BODY, SUBJECT_NAME,
    FIXTURE_ACTION_COUNT, FIXTURE_OUTFIT_COUNT, FIXTURE_POSE_COUNT, FIXTURE_SCENE_COUNT,
    FIXTURE_SUBJECT_COUNT, OUTFIT_INDEX, SUBJECT_ROW,
};

fn s(x: &str) -> String {
    x.to_string()
}

fn subject_rows() -> Vec<Vec<String>> {
    vec![
        vec![s("Name"), s("Body"), s("Outfit"), s("Accessories")],
        vec![s(SUBJECT_NAME), s(SUBJECT_BODY)],
        vec![s(ALT_SUBJECT_NAME), s(ALT_SUBJECT_BODY)],
    ]
}

fn category_rows(rows: &[(&str, u8, &str)]) -> Vec<Vec<String>> {
    let mut out = vec![vec![s("Name"), s("Level"), s("Status"), s("Prompt")]];
    for &(name, level, prompt) in rows {
        out.push(vec![s(name), level.to_string(), s("USE"), s(prompt)]);
    }
    out
}

fn load_fixture() -> Catalog {
    Catalog::from_sheets(
        &subject_rows(),
        &category_rows(&[
            (OUTFIT_NAME, OUTFIT_LEVEL, OUTFIT_PROMPT),
            (ALT_OUTFIT_NAME, ALT_OUTFIT_LEVEL, ALT_OUTFIT_PROMPT),
            (EXTRA_OUTFIT_NAME, EXTRA_OUTFIT_LEVEL, EXTRA_OUTFIT_PROMPT),
        ]),
        &category_rows(&[
            (POSE_NAME, POSE_LEVEL, POSE_PROMPT),
            (ALT_POSE_NAME, ALT_POSE_LEVEL, ALT_POSE_PROMPT),
            (EXTRA_POSE_NAME, EXTRA_POSE_LEVEL, EXTRA_POSE_PROMPT),
        ]),
        &category_rows(&[
            (ACTION_NAME, ACTION_LEVEL, ACTION_PROMPT),
            (ALT_ACTION_NAME, ALT_ACTION_LEVEL, ALT_ACTION_PROMPT),
            (EXTRA_ACTION_NAME, EXTRA_ACTION_LEVEL, EXTRA_ACTION_PROMPT),
        ]),
        &category_rows(&[
            (SCENE_NAME, SCENE_LEVEL, SCENE_PROMPT),
            (ALT_SCENE_NAME, ALT_SCENE_LEVEL, ALT_SCENE_PROMPT),
            (EXTRA_SCENE_NAME, EXTRA_SCENE_LEVEL, EXTRA_SCENE_PROMPT),
        ]),
    )
    .unwrap()
}

#[test]
fn loads_minimal_fixture() {
    let catalog = load_fixture();
    let counts = catalog.counts();
    assert_eq!(counts.subjects, FIXTURE_SUBJECT_COUNT);
    assert_eq!(counts.outfits, FIXTURE_OUTFIT_COUNT);
    assert_eq!(counts.poses, FIXTURE_POSE_COUNT);
    assert_eq!(counts.actions, FIXTURE_ACTION_COUNT);
    assert_eq!(counts.scenes, FIXTURE_SCENE_COUNT);

    let subject = catalog.subject(SUBJECT_ROW).unwrap();
    assert_eq!(subject.name, SUBJECT_NAME);
    assert_eq!(subject.body, SUBJECT_BODY);

    assert_eq!(
        catalog
            .entry(Category::Outfit, OUTFIT_LEVEL, OUTFIT_INDEX)
            .unwrap()
            .prompt,
        OUTFIT_PROMPT
    );
    assert_eq!(
        catalog
            .entry(Category::Action, ACTION_LEVEL, ACTION_INDEX)
            .unwrap()
            .prompt,
        ACTION_PROMPT
    );
}

#[test]
fn fixture_ranges() {
    let r = load_fixture().ranges();
    assert_eq!(r.subjects.min_row, 2);
    assert_eq!(r.subjects.max_row, 3);
    let o = r.outfits.unwrap();
    assert_eq!((o.min_level, o.max_level, o.min_index, o.max_index), (1, 5, 1, 30));
    let a = r.actions.unwrap();
    assert_eq!((a.min_level, a.max_level, a.min_index, a.max_index), (1, 4, 2, 10));
    let sc = r.scenes.unwrap();
    assert_eq!((sc.min_level, sc.max_level, sc.min_index, sc.max_index), (1, 5, 1, 15));
}

#[test]
fn empty_category_has_no_range() {
    let mut catalog = load_fixture();
    catalog.scenes.clear();
    assert!(catalog.ranges().scenes.is_none());
    assert!(catalog.category_range_for(Category::Scene).is_none());
}

#[test]
fn lookup_errors() {
    let catalog = load_fixture();
    let e = catalog.subject(9).unwrap_err();
    assert_eq!(e.to_string(), "subject row 9 not found (valid Excel rows: 2–3)");
    let e = catalog.entry(Category::Pose, 4, 7).unwrap_err();
    assert_eq!(e.to_string(), "Pose L4-07 not found in Poses");
    let e = catalog.entry(Category::Scene, 2, 12).unwrap_err();
    assert_eq!(e.to_string(), "Scene L2-12 not found in Scenes");
}

#[test]
fn no_subjects_is_a_catalog_error() {
    let header = vec![vec![s("Name"), s("Body")]];
    let e = Catalog::from_sheets(&header, &header, &header, &header, &header).unwrap_err();
    assert_eq!(
        e.to_string(),
        "catalog error: workbook has no subjects — is this a valid prompt archive?"
    );
}

#[test]
fn rows_are_filtered_and_later_keys_replace_earlier() {
    let subjects = vec![
        vec![s("Name"), s("Body")],
        vec![s("NoBody")],
        vec![],
        vec![s(""), s("b")],
        vec![s("Gamma"), s("BODY_GAMMA")],
    ];
    let outfits = vec![
        vec![s("Name"), s("Level"), s("Status"), s("Prompt")],
        vec![s("Outfit L1-01"), s("1"), s("USE"), s("FIRST")],
        vec![s("No key"), s("1"), s("USE"), s("X")],
        vec![s("Outfit L2-02"), s("2"), s("USE"), s("")],
        vec![s("Other L1-01"), s("1"), s("OFF"), s("SECOND")],
    ];
    let c = Catalog::from_sheets(&subjects, &outfits, &outfits, &outfits, &outfits).unwrap();
    assert_eq!(c.subjects.len(), 1);
    assert_eq!(c.subjects[0].row, 5);
    assert_eq!(c.outfits.len(), 1);
    let e = c.entry(Category::Outfit, 1, 1).unwrap();
    assert_eq!(e.prompt, "SECOND");
    assert_eq!(e.name, "Other L1-01");
    assert_eq!(e.status, "OFF");
}

#[test]
fn level_index_in_names() {
    assert_eq!(parse_level_index("Outfit L1-01"), Some((1, 1)));
    assert_eq!(parse_level_index("Outfit L5-30"), Some((5, 30)));
    assert_eq!(parse_level_index("Large L3-+4"), Some((3, 4)));
    assert_eq!(parse_level_index("L2-7 then L3-08"), Some((3, 8)));
    assert_eq!(parse_level_index("Outfit l1-01"), None);
    assert_eq!(parse_level_index("Outfit L1"), None);
    assert_eq!(parse_level_index("Outfit L256-1"), None);
    assert_eq!(parse_level_index("Outfit L-1"), None);
    assert_eq!(parse_level_index("Outfit L+-1"), None);
}

#[test]
fn category_names() {
    assert_eq!(Category::Outfit.sheet_name(), "Outfits");
    assert_eq!(Category::Scene.label(), "Scene");
    assert_eq!(Category::Action.kind(), "action");
    assert_eq!(Category::from_slot(1), Some(Category::Pose));
    assert_eq!(Category::from_slot(4), None);
}
