//! A library for a terminal directory browser: an entry model with a
//! case-insensitive ordering, a navigation state machine over the current
//! directory, and a viewport calculator that decides which entries are
//! visible for a given screen height.

pub mod display;
pub mod entry;
pub mod file_system;
pub mod navigation;
pub mod ordering;
