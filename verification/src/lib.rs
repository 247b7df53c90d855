//! Application discovery, indexing, filtering and recency tracking for a
//! panel start menu.
//!
//! The library owns the data and the decisions of the menu: it
//! normalizes raw desktop-entry data into application records, keeps the
//! deduplicated name-sorted catalog snapshot, partitions it by category,
//! ranks it against fuzzy search queries, tracks launch counts for the
//! recently-used view, and debounces filesystem change notifications.
//! Reading entry files, watching directories, the configuration store,
//! spawning processes and the session bus stay with the host shell,
//! which hands the library plain values and takes plain values back.

pub mod actions;
pub mod catalog;
pub mod category;
pub mod config;
pub mod model;
pub mod order;
pub mod recency;
pub mod search;
pub mod source;
pub mod text;
pub mod watcher;
