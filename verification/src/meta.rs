//! The metadata that the organiser keeps about people, folders and files.

pub mod model;
pub mod path;
pub mod repository;
