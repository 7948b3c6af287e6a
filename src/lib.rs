//! Release-state resolution and format-aware version updates.

pub mod text;
pub mod version;
pub mod tags;
pub mod date;
pub mod manpage;
pub mod cargo;
pub mod resolver;
