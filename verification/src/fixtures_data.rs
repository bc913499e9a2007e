//! The contents of the minimal archive that the tests compose against: two
//! subjects and three entries per category, with the queries and prompts
//! they give.

use vstd::prelude::*;

verus! {

// Golden path (subject row 2 + L1-01 / L2-01 / L1-02)

pub const SUBJECT_ROW: u32 = 2;
pub const SUBJECT_NAME: &'static str = "Alpha";
pub const SUBJECT_BODY: &'static str = "BODY_ALPHA";

pub const OUTFIT_NAME: &'static str = "Outfit L1-01";
pub const OUTFIT_LEVEL: u8 = 1;
pub const OUTFIT_INDEX: u8 = 1;
pub const OUTFIT_PROMPT: &'static str = "OUTFIT_1_1";

pub const POSE_NAME: &'static str = "Pose L2-01";
pub const POSE_LEVEL: u8 = 2;
pub const POSE_INDEX: u8 = 1;
pub const POSE_PROMPT: &'static str = "POSE_2_1";

pub const ACTION_NAME: &'static str = "Action L1-02";
pub const ACTION_LEVEL: u8 = 1;
pub const ACTION_INDEX: u8 = 2;
pub const ACTION_PROMPT: &'static str = "ACTION_1_2";

pub const SCENE_NAME: &'static str = "Scene L3-01";
pub const SCENE_LEVEL: u8 = 3;
pub const SCENE_INDEX: u8 = 1;
pub const SCENE_PROMPT: &'static str = "SCENE_3_1";

pub const GOLDEN_QUERY: &'static str = "2 1lvl1 2lvl1 1lvl2";
pub const GOLDEN_PROMPT: &'static str = "BODY_ALPHA OUTFIT_1_1 POSE_2_1 ACTION_1_2";

pub const GOLDEN_QUERY_WITH_SCENE: &'static str = "2 1lvl1 2lvl1 1lvl2 3lvl1";
pub const GOLDEN_PROMPT_WITH_SCENE: &'static str = "BODY_ALPHA OUTFIT_1_1 POSE_2_1 ACTION_1_2 SCENE_3_1";

pub const GOLDEN_QUERY_SLASH: &'static str = "2 1/1 2/1 1/2";

pub const OUTFIT_ONLY_QUERY: &'static str = "2 1lvl1";
pub const OUTFIT_ONLY_PROMPT: &'static str = "BODY_ALPHA OUTFIT_1_1";

// Alternate path (subject row 3 + max-level / other indexes)

pub const ALT_SUBJECT_ROW: u32 = 3;
pub const ALT_SUBJECT_NAME: &'static str = "Beta";
pub const ALT_SUBJECT_BODY: &'static str = "BODY_BETA";

pub const ALT_OUTFIT_NAME: &'static str = "Outfit L5-30";
pub const ALT_OUTFIT_LEVEL: u8 = 5;
pub const ALT_OUTFIT_INDEX: u8 = 30;
pub const ALT_OUTFIT_PROMPT: &'static str = "OUTFIT_5_30";

pub const ALT_POSE_NAME: &'static str = "Pose L1-01";
pub const ALT_POSE_LEVEL: u8 = 1;
pub const ALT_POSE_INDEX: u8 = 1;
pub const ALT_POSE_PROMPT: &'static str = "POSE_1_1";

pub const ALT_ACTION_NAME: &'static str = "Action L4-10";
pub const ALT_ACTION_LEVEL: u8 = 4;
pub const ALT_ACTION_INDEX: u8 = 10;
pub const ALT_ACTION_PROMPT: &'static str = "ACTION_4_10";

pub const ALT_SCENE_NAME: &'static str = "Scene L1-01";
pub const ALT_SCENE_LEVEL: u8 = 1;
pub const ALT_SCENE_INDEX: u8 = 1;
pub const ALT_SCENE_PROMPT: &'static str = "SCENE_1_1";

pub const ALT_QUERY: &'static str = "3 5lvl30 1lvl1 4lvl10";
pub const ALT_PROMPT: &'static str = "BODY_BETA OUTFIT_5_30 POSE_1_1 ACTION_4_10";

pub const ALT_QUERY_WITH_SCENE: &'static str = "3 5lvl30 1lvl1 4lvl10 1lvl1";
pub const ALT_PROMPT_WITH_SCENE: &'static str = "BODY_BETA OUTFIT_5_30 POSE_1_1 ACTION_4_10 SCENE_1_1";

/// Further keys, so that a query can parse yet miss the sheet.
pub const EXTRA_OUTFIT_NAME: &'static str = "Outfit L2-02";
pub const EXTRA_OUTFIT_LEVEL: u8 = 2;
pub const EXTRA_OUTFIT_INDEX: u8 = 2;
pub const EXTRA_OUTFIT_PROMPT: &'static str = "OUTFIT_2_2";

pub const EXTRA_POSE_NAME: &'static str = "Pose L3-05";
pub const EXTRA_POSE_LEVEL: u8 = 3;
pub const EXTRA_POSE_INDEX: u8 = 5;
pub const EXTRA_POSE_PROMPT: &'static str = "POSE_3_5";

pub const EXTRA_ACTION_NAME: &'static str = "Action L2-03";
pub const EXTRA_ACTION_LEVEL: u8 = 2;
pub const EXTRA_ACTION_INDEX: u8 = 3;
pub const EXTRA_ACTION_PROMPT: &'static str = "ACTION_2_3";

pub const EXTRA_SCENE_NAME: &'static str = "Scene L5-15";
pub const EXTRA_SCENE_LEVEL: u8 = 5;
pub const EXTRA_SCENE_INDEX: u8 = 15;
pub const EXTRA_SCENE_PROMPT: &'static str = "SCENE_5_15";

pub const FIXTURE_SUBJECT_COUNT: usize = 2;
pub const FIXTURE_OUTFIT_COUNT: usize = 3;
pub const FIXTURE_POSE_COUNT: usize = 3;
pub const FIXTURE_ACTION_COUNT: usize = 3;
pub const FIXTURE_SCENE_COUNT: usize = 3;

} // verus!
