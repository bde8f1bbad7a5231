//! What a viewer shows: its settings, its rows, and which points it draws. Drawing itself is left
//! to the program.

pub mod config;
pub mod entry;
pub mod projection;
pub mod scan;
pub mod source;
pub mod state;
