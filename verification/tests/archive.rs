use prompt_composer::archive::{
    clear_state, compose_with_state, install_archive, merge_store_meta, random_compose_with_state,
    state_from_stored, status_from_state, AppState, ArchiveMeta,
};
use prompt_composer::catalog::Catalog;
use prompt_composer::error::ComposeError;
use prompt_composer::fixtures_data::{
    ACTION_INDEX, ACTION_LEVEL, ACTION_NAME, ACTION_PROMPT, ALT_ACTION_LEVEL, ALT_ACTION_NAME,
    ALT_ACTION_PROMPT, ALT_OUTFIT_LEVEL, ALT_OUTFIT_NAME, ALT_OUTFIT_PROMPT, ALT_POSE_LEVEL,
    ALT_POSE_NAME, ALT_POSE_PROMPT, ALT_SCENE_LEVEL, ALT_SCENE_NAME, ALT_SCENE_PROMPT,
    ALT_SUBJECT_BODY, ALT_SUBJECT_NAME, EXTRA_ACTION_LEVEL, EXTRA_ACTION_NAME,
    EXTRA_ACTION_PROMPT, EXTRA_OUTFIT_LEVEL, EXTRA_OUTFIT_NAME, EXTRA_OUTFIT_PROMPT,
    EXTRA_POSE_LEVEL, EXTRA_POSE_NAME, EXTRA_POSE_PROMPT, EXTRA_SCENE_LEVEL, EXTRA_SCENE_NAME,
    EXTRA_SCENE_PROMPT, OUTFIT_LEVEL, OUTFIT_NAME, OUTFIT_PROMPT, POSE_LEVEL, POSE_NAME,
    POSE_PROMPT, SCENE_LEVEL, SCENE_NAME, SCENE_PROMPT, SUBJECT_BODY, SUBJECT_NAME,
    ALT_PROMPT, ALT_QUERY, GOLDEN_PROMPT, GOLDEN_PROMPT_WITH_SCENE, GOLDEN_QUERY,
    GOLDEN_QUERY_WITH_SCENE,
};
use prompt_composer::parse::parse_query;

fn s(x: &str) -> String {
    x.to_string()
}

fn subject_rows() -> Vec<Vec<String>> {
    vec![
        vec![s("Name"), s("Body"), s("Outfit"), s("Accessories")],
        vec![s(SUBJECT_NAME), s(SUBJECT_BODY)],
        vec![s(ALT_SUBJECT_NAME), s(ALT_SUBJECT_BODY)],
    ]
}

fn category_rows(rows: &[(&str, u8, &str)]) -> Vec<Vec<String>> {
    let mut out = vec![vec![s("Name"), s("Level"), s("Status"), s("Prompt")]];
    for &(name, level, prompt) in rows {
        out.push(vec![s(name), level.to_string(), s("USE"), s(prompt)]);
    }
    out
}

fn load_fixture() -> Catalog {
    Catalog::from_sheets(
        &subject_rows(),
        &category_rows(&[
            (OUTFIT_NAME, OUTFIT_LEVEL, OUTFIT_PROMPT),
            (ALT_OUTFIT_NAME, ALT_OUTFIT_LEVEL, ALT_OUTFIT_PROMPT),
            (EXTRA_OUTFIT_NAME, EXTRA_OUTFIT_LEVEL, EXTRA_OUTFIT_PROMPT),
        ]),
        &category_rows(&[
            (POSE_NAME, POSE_LEVEL, POSE_PROMPT),
            (ALT_POSE_NAME, ALT_POSE_LEVEL, ALT_POSE_PROMPT),
            (EXTRA_POSE_NAME, EXTRA_POSE_LEVEL, EXTRA_POSE_PROMPT),
        ]),
        &category_rows(&[
            (ACTION_NAME, ACTION_LEVEL, ACTION_PROMPT),
            (ALT_ACTION_NAME, ALT_ACTION_LEVEL, ALT_ACTION_PROMPT),
            (EXTRA_ACTION_NAME, EXTRA_ACTION_LEVEL, EXTRA_ACTION_PROMPT),
        ]),
        &category_rows(&[
            (SCENE_NAME, SCENE_LEVEL, SCENE_PROMPT),
            (ALT_SCENE_NAME, ALT_SCENE_LEVEL, ALT_SCENE_PROMPT),
            (EXTRA_SCENE_NAME, EXTRA_SCENE_LEVEL, EXTRA_SCENE_PROMPT),
        ]),
    )
    .unwrap()
}

fn meta() -> ArchiveMeta {
    ArchiveMeta {
        original_name: "minimal_prompt_archive.xlsx".to_string(),
        imported_at: 1_700_000_000,
    }
}

#[test]
fn state_lifecycle_install_compose_clear() {
    let mut state = AppState::default();
    let err = compose_with_state(&state, GOLDEN_QUERY).unwrap_err();
    assert!(err.to_string().contains("no archive") || format!("{err:?}").contains("no_archive"));
    assert!(!status_from_state(&state).loaded);

    let status = install_archive(&mut state, load_fixture(), meta());
    assert!(status.loaded);
    assert_eq!(status.original_name.as_deref(), Some("minimal_prompt_archive.xlsx"));
    assert_eq!(status.imported_at, Some(1_700_000_000));
    let counts = status.counts.expect("counts");
    assert_eq!(counts.subjects, 2);
    assert_eq!(counts.outfits, 3);

    let ranges = status.ranges.expect("ranges");
    assert_eq!(ranges.subjects.min_row, 2);
    assert_eq!(ranges.subjects.max_row, 3);
    let outfits = ranges.outfits.expect("outfit ranges");
    assert_eq!(outfits.min_level, 1);
    assert_eq!(outfits.max_level, 5);
    assert_eq!(outfits.min_index, 1);
    assert_eq!(outfits.max_index, 30);

    assert_eq!(compose_with_state(&state, GOLDEN_QUERY).unwrap().prompt, GOLDEN_PROMPT);
    assert_eq!(
        compose_with_state(&state, GOLDEN_QUERY_WITH_SCENE).unwrap().prompt,
        GOLDEN_PROMPT_WITH_SCENE
    );
    assert_eq!(compose_with_state(&state, ALT_QUERY).unwrap().prompt, ALT_PROMPT);

    let cleared = clear_state(&mut state);
    assert!(!cleared.loaded);
    assert!(cleared.counts.is_none() && cleared.ranges.is_none());
    assert!(compose_with_state(&state, GOLDEN_QUERY).is_err());
    assert!(random_compose_with_state(&state).is_err());

    let again = install_archive(&mut state, load_fixture(), meta());
    assert!(again.loaded);
    assert_eq!(compose_with_state(&state, GOLDEN_QUERY).unwrap().prompt, GOLDEN_PROMPT);
}

#[test]
fn e2e_random_compose_stays_within_archive_ranges() {
    let mut state = AppState::default();
    let status = install_archive(&mut state, load_fixture(), meta());
    let ranges = status.ranges.expect("fixture ranges");
    let outfits = ranges.outfits.expect("outfit ranges");
    let poses = ranges.poses.expect("pose ranges");
    let actions = ranges.actions.expect("action ranges");
    let scenes = ranges.scenes.expect("scene ranges");

    let mut seen = std::collections::HashSet::new();
    for _ in 0..25 {
        let result = random_compose_with_state(&state).unwrap();
        assert_eq!(result.parts.len(), 5, "fixture includes scenes");
        assert!(!result.prompt.trim().is_empty());
        let parsed = parse_query(&result.query).unwrap();
        assert!(
            parsed.subject_row >= ranges.subjects.min_row
                && parsed.subject_row <= ranges.subjects.max_row
        );
        assert_eq!(parsed.modules.len(), 4);
        for (m, r) in parsed.modules.iter().zip([outfits, poses, actions, scenes].iter()) {
            assert!(m.level >= r.min_level && m.level <= r.max_level);
            assert!(m.index >= r.min_index && m.index <= r.max_index);
        }
        let again = compose_with_state(&state, &result.query).unwrap();
        assert_eq!(again.prompt, result.prompt);
        assert_eq!(again.query, result.query);
        seen.insert(result.query);
    }
    assert!(seen.len() > 1, "expected multiple distinct random queries, got {seen:?}");
}

#[test]
fn startup_state_from_stored_archive() {
    let s1 = state_from_stored(Some(meta()), Some(Ok(load_fixture())));
    assert!(s1.catalog.is_some());
    assert_eq!(s1.meta.as_ref().unwrap().imported_at, 1_700_000_000);
    assert_eq!(compose_with_state(&s1, GOLDEN_QUERY).unwrap().prompt, GOLDEN_PROMPT);

    let failed: Result<Catalog, ComposeError> = Err(ComposeError::Catalog("bad".to_string()));
    let s2 = state_from_stored(Some(meta()), Some(failed));
    assert!(s2.catalog.is_none() && s2.meta.is_none());

    let s3 = state_from_stored(Some(meta()), None);
    assert!(s3.catalog.is_none() && s3.meta.is_none());
}

#[test]
fn store_meta_merging() {
    let mut loaded = state_from_stored(None, Some(Ok(load_fixture())));
    merge_store_meta(&mut loaded, None, "prompt_archive.xlsx".to_string());
    let m = loaded.meta.as_ref().unwrap();
    assert_eq!(m.original_name, "prompt_archive.xlsx");
    assert_eq!(m.imported_at, 0);

    merge_store_meta(&mut loaded, Some(meta()), "ignored.xlsx".to_string());
    assert_eq!(loaded.meta.as_ref().unwrap().imported_at, 1_700_000_000);

    let mut empty = AppState::default();
    merge_store_meta(&mut empty, Some(meta()), "x.xlsx".to_string());
    assert!(empty.meta.is_none());
}

#[test]
fn no_archive_message() {
    let state = AppState::default();
    let e = compose_with_state(&state, "2 1lvl1").unwrap_err();
    assert_eq!(
        e.to_string(),
        "no archive loaded — upload an .xlsx prompt archive first"
    );
}
