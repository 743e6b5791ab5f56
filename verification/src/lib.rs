//! What is inside build storage, and what removing a piece of it would cost.

pub mod artifact;
pub mod build_adapters;
pub mod build_stores;
pub mod cargo_artifacts;
pub mod catalog;
pub mod consumer_wiring;
pub mod consumers;
pub mod detectors;
pub mod docker;
pub mod evidence;
pub mod external;
pub mod facts;
pub mod fs_events;
pub mod growth;
pub mod json;
pub mod locations;
pub mod lookup_laws;
pub mod number;
pub mod order;
pub mod path;
pub mod report;
pub mod text;
pub mod text_laws;
pub mod toml_text;
