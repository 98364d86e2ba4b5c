//! Profile-to-profile settings synchronisation for Vivaldi, as a verified library.
//!
//! Vivaldi keeps each browser profile in a folder of its own, with a `Preferences`
//! JSON document inside.  This crate holds the decisions of the sync tool: which
//! keys of a source document are carried into a destination document, how the
//! profile list and the extension list are assembled from Vivaldi's own JSON files,
//! and how the small system probes are read.  Reading and writing files, the
//! clock, the window and the tray are left to the program that embeds it.

pub mod categories;
pub mod config;
pub mod extensions;
pub mod json;
pub mod order;
pub mod profiles;
pub mod sync;
pub mod system;
pub mod text;

