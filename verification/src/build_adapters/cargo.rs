//! Cargo target directories, which are inspected on request rather than on every
//! pass: here a container is one explicit row.
//!
//! The adapter claims no project directory and reads nothing inside a container.
//! That it takes one whole, and the words it says so in, are this library's own
//! choice; what is inside a target directory is read by `cargo_artifacts`.

use super::adapter::{one, BuildAdapter, BuildCapabilities};
use super::builder::NestedUnitBuilder;
use super::container::{BuildContainer, ContainerModel};
use super::context::{BuildCtx, CtxModel};
use crate::artifact::{ArtifactRole, NestedArtifact, UnitModel};
use crate::facts::{FactModel, FileFacts};
use crate::locations::BuildStoreKind;
use crate::path::{FsPath, PathModel};
use vstd::prelude::*;

verus! {

pub struct Adapter;

impl BuildAdapter for Adapter {
    open spec fn trash_roles_spec(&self) -> Seq<ArtifactRole> {
        Seq::empty()
    }

    open spec fn id_spec(&self) -> Seq<char> {
        "cargo"@
    }

    open spec fn name_spec(&self) -> Seq<char> {
        "Rust / Cargo"@
    }

    open spec fn capabilities_spec(&self) -> BuildCapabilities {
        BuildCapabilities {
            identifies_shared_stores: false,
            attributes_package_identity: false,
            actions_available: false,
        }
    }

    open spec fn store_kinds_spec(&self) -> Seq<BuildStoreKind> {
        Seq::empty()
    }

    open spec fn containers_spec(&self, root: PathModel, candidates: Seq<PathModel>, facts: Seq<FactModel>) -> Seq<
        ContainerModel,
    > {
        Seq::empty()
    }

    open spec fn identify_spec(&self, c: ContainerModel, ctx: CtxModel) -> Seq<UnitModel> {
        seq![
            UnitModel::container_root(c, ctx, ArtifactRole::Container).unsupported_layout(
                "a target directory's inside is identified by an explicit inspection"@,
            ),
        ]
    }

    fn trash_roles(&self) -> (r: Vec<ArtifactRole>) {
        let r: Vec<ArtifactRole> = Vec::new();
        assert(r@ =~= self.trash_roles_spec());
        r
    }

    fn id(&self) -> (r: &'static str) {
        "cargo"
    }

    fn name(&self) -> (r: &'static str) {
        "Rust / Cargo"
    }

    fn capabilities(&self) -> (r: BuildCapabilities) {
        BuildCapabilities {
            identifies_shared_stores: false,
            attributes_package_identity: false,
            actions_available: false,
        }
    }

    fn store_kinds(&self) -> (r: Vec<BuildStoreKind>) {
        let r: Vec<BuildStoreKind> = Vec::new();
        assert(r@ =~= self.store_kinds_spec());
        r
    }

    fn containers(&self, project_root: &FsPath, candidates: &Vec<FsPath>, facts: &FileFacts) -> (r: Vec<
        BuildContainer,
    >) {
        let r: Vec<BuildContainer> = Vec::new();
        assert(super::container::containers_view(r@) =~= Seq::<ContainerModel>::empty());
        r
    }

    fn identify(&self, container: &BuildContainer, ctx: &BuildCtx) -> (r: Vec<NestedArtifact>) {
        one(
            NestedUnitBuilder::container_root(container, ctx, ArtifactRole::Container).unsupported_layout(
                "a target directory's inside is identified by an explicit inspection",
            ).build(),
        )
    }
}

} // verus!
