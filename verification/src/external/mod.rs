//! External storage: locations that belong to no project, measured once each,
//! and the insides of the build stores among them.

pub mod consumers;
pub mod observe;
pub mod pass_laws;
pub mod plan;
pub mod unit;

pub use observe::{discover_and_measure, observe_external, ExternalObservation};
pub use unit::{category_label, load_consumers, total_bytes, unit_key, ExternalConsumer, ExternalUnit};
