//! Catalog projection: turns stored items and agents into the files and
//! configuration documents that AI coding tools read.

pub mod agents;
pub mod entries;
pub mod merge;
pub mod model;
pub mod slug;
pub mod targets;
