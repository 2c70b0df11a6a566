//! Search-and-cache core of a desktop application launcher: query
//! normalization, fuzzy-subsequence ranking over apps, directories and
//! custom commands, and a durable cache of the last filesystem scan.

pub mod normalize;
pub mod order;
pub mod types;
pub mod matcher;
pub mod search;
pub mod cache;
pub mod settings;
pub mod update_checker;
pub mod window_corners;
pub mod launcher;
pub mod app_scanner;
pub mod directory_scanner;
pub mod icon_converter;
pub mod ime_control;
