//! Menu categorization and reactive-binding decisions for a status-bar
//! application launcher.
//!
//! The crate classifies discovered application records into a fixed, ordered
//! set of named menu sections (with a catch-all "Other" section), keeping each
//! section's applications sorted by label, and exposes the pure decision
//! logic behind a module's event bindings (click and scroll dispatch,
//! script-driven visibility).

pub mod bindings;
pub mod config;
pub mod index;
pub mod laws;
pub mod menu;
pub mod order;
pub mod parse;
pub mod records;
pub mod text;
