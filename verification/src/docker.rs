//! What the Docker daemon answered this pass.

use crate::text::{copy_all, texts};
use vstd::prelude::*;

verus! {

#[derive(Debug, Clone, PartialEq, Eq)]
pub struct DockerFacts {
    /// Why the daemon could not answer, when it could not.
    pub unavailable: Option<String>,
    /// The builders it described.
    pub builders: Vec<String>,
}

impl DockerFacts {
    pub fn builder_names(&self) -> (r: Vec<String>)
        ensures
            texts(r@) == texts(self.builders@),
    {
        copy_all(&self.builders)
    }
}

} // verus!
