pub mod config;
pub mod content;
pub mod find;
pub mod label;
pub mod matches;
pub mod paths;
pub mod pattern;
pub mod sort;
pub mod walk;
