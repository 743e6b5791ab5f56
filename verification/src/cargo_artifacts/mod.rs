//! Read-only inspection of Cargo's build layout.
//!
//! Cargo's build directory is an implementation detail. Claims are made only
//! where the path layout, companion metadata or existing build messages support
//! them; Cargo is never run.

pub mod fingerprint_laws;
pub mod layout;
pub mod layout_laws;
pub mod message_laws;
pub mod messages;
pub mod nesting;
pub mod profile;
pub mod profile_laws;
pub mod refresh_laws;
pub mod root_laws;
pub mod roots;
pub mod target;
pub mod totals;
pub mod tree;
pub mod walk;

pub use layout::{layout_for, CargoEnvironment, CargoLayout};
pub use messages::{apply_message_evidence, parse_json_messages, CargoMessageEvidence};
pub use profile::{CargoDependencyGroup, CargoProfileInspectionLimits};
pub use roots::project_roots;
pub use target::{inspect_target, inspect_target_incremental, CargoInspection};
pub use totals::charge_physical;
pub use walk::{inspect_profile, CargoProfileInspection};
