//! Relocates media files into `year/month/day` directories under their
//! current parent, decided from each file's modification time.
//!
//! The library holds the decisions: which names are eligible, which
//! calendar date and destination a file gets, and how a traversal walks a
//! tree in two phases (every directory is listed before anything moves), so
//! that destination directories created by a run are never descended into.
//! The caller performs the listing, the directory creation and the renames.

pub mod classify;
pub mod date_path;
pub mod report;
pub mod traversal;

pub use classify::is_image_file;
pub use date_path::{
    decimal_string, destination, local_date, year_string, CivilDate, Failure, Stamp,
};
pub use report::{settled_outcome, Outcome, Summary};
pub use traversal::{decide, place, Decision, Entry, EntryKind, Planned, Traversal};
