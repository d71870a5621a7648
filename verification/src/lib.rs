//! Silo: keep a set of source folders mirrored to one destination with
//! rsync, and report what the silo holds.
//!
//! The settings, the folder walks and their statistics, the rsync command
//! lines and outcomes, and the texts shown to the user are computed here;
//! reading the disk, the database, and the rsync process is the program's
//! part.

pub mod config;
pub mod silo_size;
pub mod text;
pub mod numbers;
pub mod words;
pub mod paths;
pub mod scan;
pub mod silo_analysis;
pub mod sync_engine;
pub mod status_format;
pub mod calendar;
pub mod display;
pub mod progress;
pub mod folder_size;
pub mod desktop_entry;
pub mod dialogs;
