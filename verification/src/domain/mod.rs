//! The editable form of a project's data.
pub mod boop;
pub mod palette;
pub mod map;
pub mod screen;
pub mod project;
pub mod order;
