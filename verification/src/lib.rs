//! Verified core of a mod manager for a game's romfs content: platform
//! content prefixes, canonical resource paths, language codes, and the
//! merging of map-unit edits.

pub mod platform;
pub mod text;
pub mod canon;
pub mod error;
pub mod language;
pub mod content;
pub mod byml_node;
pub mod hash_index;
pub mod map_merge;
pub mod map_unit;
pub mod map_files;
pub mod map_pack;
pub mod laws;
