//! Verified core of a Balatro mod manager: the mod catalog, mod metadata,
//! and the small state machines behind the terminal interface.

pub mod catalog;
pub mod components;
pub mod flow;
pub mod install;
pub mod listing;
pub mod mods;
pub mod motd;
pub mod order;
pub mod quick;
pub mod search;
pub mod text;

pub use catalog::{default_source, install_dir, merge_catalogs, RemoteMod};
pub use install::dir_name_from_url;
