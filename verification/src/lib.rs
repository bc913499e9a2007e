//! Prompt composition over a spreadsheet "prompt archive": a query such as
//! `2 1lvl1 2lvl1 1lvl2` names a subject row and up to four category entries
//! (outfit, pose, action, scene), whose prompt texts are joined into one prompt.

pub mod seqs;
pub mod text;
pub mod archive;
pub mod archive_schema;
pub mod catalog;
pub mod compose;
pub mod draw;
pub mod error;
pub mod fixtures_data;
pub mod laws;
pub mod parse;
pub mod template;
