//! Indexing and retrieval engine of a desktop quick-launcher.
//!
//! - `text`, `keywords`: character-level helpers and the keyword clean-up
//!   every catalog entry goes through.
//! - `models`: catalog entries, search results, pending actions.
//! - `bookmarks`, `sources`, `catalog`: the bookmark catalog from a profile's
//!   bookmark tree, application entries from the three sources, and the
//!   application catalog (one entry per launch target, sorted by name).
//! - `scoring`, `ranking`, `query`, `state`: query modes and fuzzy scores, the
//!   stable ranking and cut, one query's rows and actions, and the state that
//!   keeps the last query's actions.
//! - `launch`, `settings`, `internet_shortcut`, `icons`: what carrying out a
//!   result asks of the system, settings updates, `.url` files, icon images.
pub mod text;
pub mod keywords;
pub mod models;
pub mod bookmarks;
pub mod scoring;
pub mod ranking;
pub mod query;
pub mod settings;
pub mod state;
pub mod catalog;
pub mod sources;
pub mod launch;
pub mod internet_shortcut;
pub mod icons;
