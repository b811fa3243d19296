//! Indexes a directory tree into per-entry records, projects them into a
//! columnar table, and answers aggregate queries over that table.

pub mod analysis;
pub mod entry;
pub mod grouping;
pub mod hashing;
pub mod path_data;
pub mod report;
pub mod table;
pub mod walk;

