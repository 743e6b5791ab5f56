//! What turns one stage of a report into the next.

pub mod grouping_laws;
pub mod projects;

pub use projects::ProjectsConsumer;
