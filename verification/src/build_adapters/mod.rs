//! What is inside a build container, and what removing a piece of it would
//! cost.
//!
//! An adapter says what a directory is, when it was last modified, how many
//! bytes it holds on a stated basis, and what it would cost to get it back. It
//! never says that a unit is unused, and where the evidence runs out the unit
//! carries an explicit unknown.

pub mod adapter;
pub mod android;
pub mod arrange;
pub mod builder;
pub mod claims;
pub mod cargo;
pub mod container;
pub mod context;
pub mod claim_laws;
pub mod coverage_laws;
pub mod docker_buildkit;
pub mod family_laws;
pub mod go;
pub mod gradle;
pub mod identify;
pub mod identity_laws;
pub mod jvm_common;
pub mod layout;
pub mod matrix;
pub mod maven;
pub mod node;
pub mod node_laws;
pub mod pieces;
pub mod python;
pub mod registry;
pub mod summary;
pub mod variant_laws;
pub mod xcode_swift;

pub use adapter::{BuildAdapter, BuildCapabilities};
pub use builder::NestedUnitBuilder;
pub use container::{
    BuildContainer, ContainerCache, FoldedDir, FoldedIndex, DAEMON_STORE_SCHEME, LAST_USED_EVIDENCE,
};
pub use context::BuildCtx;
pub use identify::identify_all;
pub use summary::{
    family_guidance, family_members, summarize_container, summarize_families, ContainerSummary, FamilySummary,
};
