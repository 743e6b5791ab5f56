//! Machine-wide build stores: which measured locations are stores, what is kept
//! of their insides between passes, and their history.

pub mod folded;
pub mod history;
pub mod join;
pub mod rows;
pub mod store_laws;
pub mod tables;

pub use folded::{folded_dirs, DirRollup};
pub use history::{record_history, IdentifiedStore};
pub use join::{containers_for, daemon_containers};
pub use rows::{decode, encode};
pub use tables::{load_units, save_units};
