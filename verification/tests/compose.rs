use fastrand::Rng;
use prompt_composer::catalog::{Catalog, Category, CategoryRange};
use prompt_composer::compose::{compose_from_query, random_compose, random_compose_with_rng};
use prompt_composer::fixtures_data::{
    ACTION_INDEX, ACTION_LEVEL, ACTION_NAME, ACTION_PROMPT, ALT_ACTION_LEVEL, ALT_ACTION_NAME,
    ALT_ACTION_PROMPT, ALT_OUTFIT_LEVEL, ALT_OUTFIT_NAME, ALT_OUTFIT_PROMPT, ALT_POSE_LEVEL,
    ALT_POSE_NAME, ALT_POSE_PROMPT, ALT_SCENE_LEVEL, ALT_SCENE_NAME, ALT_SCENE_PROMPT,
    ALT_SUBJECT_BODY, ALT_SUBJECT_NAME, EXTRA_ACTION_LEVEL, EXTRA_ACTION_NAME,
    EXTRA_ACTION_PROMPT, EXTRA_OUTFIT_LEVEL, EXTRA_OUTFIT_NAME, EXTRA_OUTFIT_PROMPT,
    EXTRA_POSE_LEVEL, EXTRA_POSE_NAME, EXTRA_POSE_PROMPT, EXTRA_SCENE_LEVEL, EXTRA_SCENE_NAME,
    EXTRA_SCENE_PROMPT, OUTFIT_LEVEL, OUTFIT_NAME, OUTFIT_PROMPT, POSE_LEVEL, POSE_NAME,
    POSE_PROMPT, SCENE_LEVEL, SCENE_NAME, SCENE_PROMPT, SUBJECT_BODY, SUBJECT_NAME,
    ALT_PROMPT, ALT_PROMPT_WITH_SCENE, ALT_QUERY, ALT_QUERY_WITH_SCENE, GOLDEN_PROMPT,
    GOLDEN_PROMPT_WITH_SCENE, GOLDEN_QUERY, GOLDEN_QUERY_SLASH, GOLDEN_QUERY_WITH_SCENE,
    OUTFIT_INDEX, OUTFIT_ONLY_PROMPT, OUTFIT_ONLY_QUERY,
};
use prompt_composer::draw::{module_from_draws, row_from_draws_exec};
use prompt_composer::parse::{parse_query, ModuleToken};

fn s(x: &str) -> String {
    x.to_string()
}

fn subject_rows() -> Vec<Vec<String>> {
    vec![
        vec![s("Name"), s("Body"), s("Outfit"), s("Accessories")],
        vec![s(SUBJECT_NAME), s(SUBJECT_BODY)],
        vec![s(ALT_SUBJECT_NAME), s(ALT_SUBJECT_BODY)],
    ]
}

fn category_rows(rows: &[(&str, u8, &str)]) -> Vec<Vec<String>> {
    let mut out = vec![vec![s("Name"), s("Level"), s("Status"), s("Prompt")]];
    for &(name, level, prompt) in rows {
        out.push(vec![s(name), level.to_string(), s("USE"), s(prompt)]);
    }
    out
}

fn load_fixture() -> Catalog {
    Catalog::from_sheets(
        &subject_rows(),
        &category_rows(&[
            (OUTFIT_NAME, OUTFIT_LEVEL, OUTFIT_PROMPT),
            (ALT_OUTFIT_NAME, ALT_OUTFIT_LEVEL, ALT_OUTFIT_PROMPT),
            (EXTRA_OUTFIT_NAME, EXTRA_OUTFIT_LEVEL, EXTRA_OUTFIT_PROMPT),
        ]),
        &category_rows(&[
            (POSE_NAME, POSE_LEVEL, POSE_PROMPT),
            (ALT_POSE_NAME, ALT_POSE_LEVEL, ALT_POSE_PROMPT),
            (EXTRA_POSE_NAME, EXTRA_POSE_LEVEL, EXTRA_POSE_PROMPT),
        ]),
        &category_rows(&[
            (ACTION_NAME, ACTION_LEVEL, ACTION_PROMPT),
            (ALT_ACTION_NAME, ALT_ACTION_LEVEL, ALT_ACTION_PROMPT),
            (EXTRA_ACTION_NAME, EXTRA_ACTION_LEVEL, EXTRA_ACTION_PROMPT),
        ]),
        &category_rows(&[
            (SCENE_NAME, SCENE_LEVEL, SCENE_PROMPT),
            (ALT_SCENE_NAME, ALT_SCENE_LEVEL, ALT_SCENE_PROMPT),
            (EXTRA_SCENE_NAME, EXTRA_SCENE_LEVEL, EXTRA_SCENE_PROMPT),
        ]),
    )
    .unwrap()
}

#[test]
fn golden_example_full_prompt() {
    let catalog = load_fixture();
    let result = compose_from_query(&catalog, GOLDEN_QUERY).unwrap();
    assert_eq!(result.prompt, GOLDEN_PROMPT);
    assert_eq!(result.parts.len(), 4);
    assert_eq!(result.query, GOLDEN_QUERY);
}

#[test]
fn golden_with_scene() {
    let catalog = load_fixture();
    let result = compose_from_query(&catalog, GOLDEN_QUERY_WITH_SCENE).unwrap();
    assert_eq!(result.prompt, GOLDEN_PROMPT_WITH_SCENE);
    assert_eq!(result.parts.len(), 5);
}

#[test]
fn slash_shorthand_composes_same_as_lvl() {
    let catalog = load_fixture();
    let lvl = compose_from_query(&catalog, GOLDEN_QUERY).unwrap();
    let slash = compose_from_query(&catalog, GOLDEN_QUERY_SLASH).unwrap();
    assert_eq!(slash.prompt, lvl.prompt);
    assert_eq!(slash.query, GOLDEN_QUERY);
    assert_eq!(slash.parts, lvl.parts);
}

#[test]
fn alternate_subject_and_levels() {
    let catalog = load_fixture();
    let result = compose_from_query(&catalog, ALT_QUERY).unwrap();
    assert_eq!(result.prompt, ALT_PROMPT);
    assert_eq!(result.parts.len(), 4);
    assert_eq!(result.query, ALT_QUERY);
}

#[test]
fn alternate_with_scene() {
    let catalog = load_fixture();
    let result = compose_from_query(&catalog, ALT_QUERY_WITH_SCENE).unwrap();
    assert_eq!(result.prompt, ALT_PROMPT_WITH_SCENE);
    assert_eq!(result.parts.len(), 5);
}

#[test]
fn outfit_only_query() {
    let catalog = load_fixture();
    let result = compose_from_query(&catalog, OUTFIT_ONLY_QUERY).unwrap();
    assert_eq!(result.prompt, OUTFIT_ONLY_PROMPT);
    assert_eq!(result.parts.len(), 2);
}

#[test]
fn missing_subject_row_errors() {
    let catalog = load_fixture();
    let err = compose_from_query(&catalog, "99 1lvl1").unwrap_err();
    let msg = err.to_string();
    assert!(
        msg.contains("outside archive range")
            || msg.contains("not found")
            || format!("{err:?}").contains("subject_out_of_range"),
        "unexpected error: {msg}"
    );
}

#[test]
fn missing_category_entry_errors() {
    let catalog = load_fixture();
    // Within Outfit ceilings (L1–5 / I1–30) but no Outfit L3-01 in the fixture.
    let err = compose_from_query(&catalog, "2 3lvl1").unwrap_err();
    let msg = err.to_string();
    assert!(
        msg.contains("not found") || format!("{err:?}").contains("entry_not_found"),
        "unexpected error: {msg}"
    );
}

#[test]
fn rejects_level_above_category_max() {
    let catalog = load_fixture();
    // Outfit max level in fixture is 5.
    let err = compose_from_query(&catalog, "2 6lvl1").unwrap_err();
    let msg = err.to_string();
    assert!(
        msg.contains("level") && (msg.contains("1–5") || msg.contains("1-5")),
        "unexpected error: {msg}"
    );
    assert!(format!("{err:?}").contains("level_out_of_range") || msg.contains("level"));
}

#[test]
fn rejects_index_above_category_max() {
    let catalog = load_fixture();
    // Outfit max index in fixture is 30.
    let err = compose_from_query(&catalog, "2 1lvl31").unwrap_err();
    let msg = err.to_string();
    assert!(
        msg.contains("index") && (msg.contains("1–30") || msg.contains("1-30")),
        "unexpected error: {msg}"
    );
    assert!(format!("{err:?}").contains("index_out_of_range") || msg.contains("index"));
}

#[test]
fn rejects_index_below_category_min() {
    let catalog = load_fixture();
    // Action min index in fixture is 2.
    let err = compose_from_query(&catalog, "2 1lvl1 2lvl1 1lvl1").unwrap_err();
    let msg = err.to_string();
    assert!(
        msg.contains("Action") && msg.contains("index"),
        "unexpected error: {msg}"
    );
}

#[test]
fn category_slots_match_token_order() {
    let catalog = load_fixture();
    let result = compose_from_query(&catalog, GOLDEN_QUERY).unwrap();
    assert_eq!(result.parts[0].kind, "subject");
    assert_eq!(result.parts[1].kind, "outfit");
    assert_eq!(result.parts[2].kind, "pose");
    assert_eq!(result.parts[3].kind, "action");
    assert_eq!(
        catalog
            .entry(Category::Outfit, OUTFIT_LEVEL, OUTFIT_INDEX)
            .unwrap()
            .prompt,
        OUTFIT_PROMPT
    );
}

#[test]
fn random_compose_succeeds_and_is_recomposible() {
    let catalog = load_fixture();
    assert!(!catalog.scenes.is_empty(), "fixture should have scenes");
    let ranges = catalog.ranges();

    let mut rng = Rng::with_seed(42);
    for _ in 0..20 {
        let result = random_compose_with_rng(&catalog, &mut rng).unwrap();
        assert_eq!(result.parts.len(), 5, "subject + O/P/A + scene");
        assert_eq!(result.parts[0].kind, "subject");
        assert_eq!(result.parts[1].kind, "outfit");
        assert_eq!(result.parts[2].kind, "pose");
        assert_eq!(result.parts[3].kind, "action");
        assert_eq!(result.parts[4].kind, "scene");

        let parsed = parse_query(&result.query).unwrap();
        assert!(
            parsed.subject_row >= ranges.subjects.min_row
                && parsed.subject_row <= ranges.subjects.max_row
        );
        assert_module_in_range(&parsed.modules[0], ranges.outfits.as_ref().unwrap());
        assert_module_in_range(&parsed.modules[1], ranges.poses.as_ref().unwrap());
        assert_module_in_range(&parsed.modules[2], ranges.actions.as_ref().unwrap());
        assert_module_in_range(&parsed.modules[3], ranges.scenes.as_ref().unwrap());

        let again = compose_from_query(&catalog, &result.query).unwrap();
        assert_eq!(again.prompt, result.prompt);
        assert_eq!(again.query, result.query);
        assert_eq!(again.parts, result.parts);
    }
}

fn assert_module_in_range(module: &ModuleToken, range: &CategoryRange) {
    assert!(
        module.level >= range.min_level && module.level <= range.max_level,
        "{} level {} outside {}–{}",
        module.category.label(),
        module.level,
        range.min_level,
        range.max_level
    );
    assert!(
        module.index >= range.min_index && module.index <= range.max_index,
        "{} index {} outside {}–{}",
        module.category.label(),
        module.index,
        range.min_index,
        range.max_index
    );
}

#[test]
fn random_compose_omits_scene_when_empty() {
    let mut catalog = load_fixture();
    catalog.scenes.clear();

    let mut rng = Rng::with_seed(7);
    let result = random_compose_with_rng(&catalog, &mut rng).unwrap();
    assert_eq!(result.parts.len(), 4);
    assert_eq!(result.parts[3].kind, "action");
    let tokens: Vec<_> = result.query.split_whitespace().collect();
    assert_eq!(tokens.len(), 4); // row + 3 modules
}

#[test]
fn random_compose_errors_when_required_category_empty() {
    let mut catalog = load_fixture();
    catalog.poses.clear();
    let err = random_compose(&catalog).unwrap_err();
    let msg = err.to_string();
    assert!(
        msg.contains("Poses") || format!("{err:?}").contains("empty_catalog"),
        "unexpected error: {msg}"
    );
}

#[test]
fn compose_error_messages_are_exact() {
    let catalog = load_fixture();
    let e = compose_from_query(&catalog, "99 1lvl1").unwrap_err();
    assert_eq!(e.to_string(), "subject row 99 is outside archive range 2–3");
    let e = compose_from_query(&catalog, "2 1lvl1 2lvl1 1lvl1").unwrap_err();
    assert_eq!(e.to_string(), "Action index must be 2–10 (got 1)");
    let e = compose_from_query(&catalog, "2 3lvl1").unwrap_err();
    assert_eq!(e.to_string(), "Outfit L3-01 not found in Outfits");
    let e = compose_from_query(&catalog, "2 1lvl1 4lvl1").unwrap_err();
    assert_eq!(e.to_string(), "Pose level must be 1–3 (got 4)");
}

#[test]
fn compose_labels_and_texts() {
    let catalog = load_fixture();
    let r = compose_from_query(&catalog, "3 2/2 3lvl5").unwrap();
    assert_eq!(r.parts[0].label, "Subject row 3 (Beta)");
    assert_eq!(r.parts[0].text, "BODY_BETA");
    assert_eq!(r.parts[1].label, EXTRA_OUTFIT_NAME);
    assert_eq!(r.parts[2].text, EXTRA_POSE_PROMPT);
    assert_eq!(r.prompt, "BODY_BETA OUTFIT_2_2 POSE_3_5");
    assert_eq!(r.query, "3 2lvl2 3lvl5");
}

#[test]
fn missing_category_sheet_entries_error() {
    let mut catalog = load_fixture();
    catalog.outfits.clear();
    let e = compose_from_query(&catalog, "2 1lvl1").unwrap_err();
    assert_eq!(e.to_string(), "Outfits sheet has no entries in the loaded archive");
    let e = random_compose(&catalog).unwrap_err();
    assert_eq!(e.to_string(), "Outfits sheet has no entries — cannot randomize");
    catalog.subjects.clear();
    let e = random_compose(&catalog).unwrap_err();
    assert_eq!(e.to_string(), "Subjects sheet has no entries — cannot randomize");
}

#[test]
fn module_from_draws_takes_first_existing_draw_else_fallback() {
    let catalog = load_fixture();
    let range = catalog.category_range_for(Category::Outfit).expect("outfit range");
    let keys: Vec<(u8, u8)> = catalog.outfits.iter().map(|e| (e.level, e.index)).collect();
    assert_eq!(keys.len(), 3);
    let draws = vec![(0, 0), keys[1], keys[0]];
    assert_eq!(module_from_draws(&catalog, Category::Outfit, &range, &draws, 0), keys[1]);
    let misses = vec![(0, 0), (9, 9)];
    assert_eq!(module_from_draws(&catalog, Category::Outfit, &range, &misses, 2), keys[2]);
    assert_eq!(module_from_draws(&catalog, Category::Outfit, &range, &Vec::new(), 1), keys[1]);
}

#[test]
fn row_from_draws_takes_first_existing_draw_else_fallback() {
    let catalog = load_fixture();
    let range = catalog.ranges().subjects;
    assert_eq!(row_from_draws_exec(&catalog, &range, &vec![0, 3, 2], 0), 3);
    assert_eq!(row_from_draws_exec(&catalog, &range, &vec![0, 99], 0), 2);
    assert_eq!(row_from_draws_exec(&catalog, &range, &vec![0, 99], 1), 3);
}
