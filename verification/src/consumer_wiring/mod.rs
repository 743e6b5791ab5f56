//! Who uses what: projects joined with the installations they declare and the
//! shared stores that hold their dependencies.

pub mod attach;
pub mod caches;
pub mod fact_laws;
pub mod matching;
pub mod matching_laws;
pub mod user_laws;

pub use attach::{attach_associations, attach_project_associations};
