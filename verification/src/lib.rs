//! Markdown normalization: line classification and the rewrite rules built on it.

pub mod blocks;
pub mod classify;
pub mod course;
pub mod emoji;
pub mod emphasis;
pub mod items;
pub mod link_convert;
pub mod link_ids;
pub mod link_scan;
pub mod links;
pub mod list;
pub mod math;
pub mod number;
pub mod pattern;
pub mod process;
pub mod progress;
pub mod rules;
pub mod settings;
pub mod spacing;
pub mod table;
pub mod text;
pub mod typography;
pub mod wrap;
