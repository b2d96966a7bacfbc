//! Catalogue, installation and navigation logic of a launcher for native
//! source ports of console games, with its contracts proved by Verus.

pub mod text;
pub mod theme;
pub mod throttles;
pub mod asset_select;
pub mod cheats;
pub mod chrome;
pub mod config;
pub mod dialog_nav;
pub mod events;
pub mod executable;
pub mod font_fit;
pub mod gamepad_router;
pub mod github_api;
pub mod gitlab_api;
pub mod grid;
pub mod image_cache;
pub mod jobs;
pub mod info_dialog;
pub mod installer;
pub mod json;
pub mod launch;
pub mod library_view;
pub mod konami;
pub mod models;
pub mod numbers;
pub mod path_safety;
pub mod platform_resolve;
pub mod save_backup;
pub mod search;
pub mod sequence;
pub mod settings;
pub mod state;
pub mod version;
