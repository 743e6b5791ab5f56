//! The units of the Gradle adapter.

use super::{all_claim, claims, lemma_builder, lemma_flat_claims, lemma_paths, own_row_first};
use crate::artifact::ArtifactRole;
use crate::build_adapters::adapter::BuildAdapter;
use crate::build_adapters::container::{ContainerModel, DirModel};
use crate::build_adapters::context::CtxModel;
use crate::build_adapters::gradle::{
    Adapter, build_child, build_dir, cache_child, cache_unit, caches, daemon_unit, daemons, dist_unit, dists,
    home_child, home_child_unit, home_part, home_root, module_unit, modules, modules_child, project_cache,
    project_cache_child, project_root_unit, user_home, wrapper, wrapper_child,
};
use crate::path::PathModel;
use vstd::prelude::*;

verus! {

proof fn lemma_project_root_unit(
    c: ContainerModel,
    ctx: CtxModel,
    role: ArtifactRole,
    reason: Seq<char>,
    consequence: Seq<char>,
)
    ensures
        claims(c, project_root_unit(c, ctx, role, reason, consequence)),
{
    lemma_builder(c);
}

proof fn lemma_build_child(c: ContainerModel, d: DirModel)
    ensures
        all_claim(c, build_child(c, d)),
{
    lemma_builder(c);
}

proof fn lemma_build_dir(c: ContainerModel, ctx: CtxModel)
    ensures
        all_claim(c, build_dir(c, ctx)),
{
    lemma_flat_claims::<DirModel>(c);
    assert forall|role: ArtifactRole, reason: Seq<char>, consequence: Seq<char>|
        claims(c, #[trigger] project_root_unit(c, ctx, role, reason, consequence)) by {
        lemma_project_root_unit(c, ctx, role, reason, consequence);
    }
    assert forall|d: DirModel| all_claim(c, #[trigger] build_child(c, d)) by {
        lemma_build_child(c, d);
    }
}

proof fn lemma_project_cache_child(c: ContainerModel, d: DirModel)
    ensures
        all_claim(c, project_cache_child(c, d)),
{
    lemma_builder(c);
}

proof fn lemma_project_cache(c: ContainerModel, ctx: CtxModel)
    ensures
        all_claim(c, project_cache(c, ctx)),
{
    lemma_flat_claims::<DirModel>(c);
    assert forall|role: ArtifactRole, reason: Seq<char>, consequence: Seq<char>|
        claims(c, #[trigger] project_root_unit(c, ctx, role, reason, consequence)) by {
        lemma_project_root_unit(c, ctx, role, reason, consequence);
    }
    assert forall|d: DirModel| all_claim(c, #[trigger] project_cache_child(c, d)) by {
        lemma_project_cache_child(c, d);
    }
}

proof fn lemma_home_part(c: ContainerModel, ctx: CtxModel, part: Seq<char>)
    ensures
        claims(c, home_part(c, ctx, part)),
{
    lemma_builder(c);
}

proof fn lemma_home_root(c: ContainerModel, ctx: CtxModel)
    ensures
        claims(c, home_root(c, ctx)),
{
    lemma_builder(c);
}

proof fn lemma_home_child_unit(c: ContainerModel, d: DirModel)
    ensures
        claims(c, home_child_unit(c, d)),
{
    lemma_builder(c);
}

proof fn lemma_home_child(c: ContainerModel, ctx: CtxModel, d: DirModel)
    ensures
        all_claim(c, home_child(c, ctx, d)),
{
    assert forall|d: DirModel| claims(c, #[trigger] home_child_unit(c, d)) by {
        lemma_home_child_unit(c, d);
    }
    assert forall|dir: PathModel| all_claim(c, #[trigger] caches(c, ctx, dir)) by {
        lemma_caches(c, ctx, dir);
    }
    assert forall|dir: PathModel| all_claim(c, #[trigger] wrapper(c, ctx, dir)) by {
        lemma_wrapper(c, ctx, dir);
    }
    assert forall|dir: PathModel| all_claim(c, #[trigger] daemons(c, ctx, dir)) by {
        lemma_daemons(c, ctx, dir);
    }
}

proof fn lemma_user_home(c: ContainerModel, ctx: CtxModel)
    ensures
        all_claim(c, user_home(c, ctx)),
{
    lemma_flat_claims::<DirModel>(c);
    lemma_home_root(c, ctx);
    assert forall|d: DirModel| all_claim(c, #[trigger] home_child(c, ctx, d)) by {
        lemma_home_child(c, ctx, d);
    }
}

proof fn lemma_cache_unit(c: ContainerModel, d: DirModel)
    ensures
        claims(c, cache_unit(c, d)),
{
    lemma_builder(c);
}

proof fn lemma_cache_child(c: ContainerModel, ctx: CtxModel, d: DirModel)
    ensures
        all_claim(c, cache_child(c, ctx, d)),
{
    assert forall|d: DirModel| claims(c, #[trigger] cache_unit(c, d)) by {
        lemma_cache_unit(c, d);
    }
    assert forall|dir: PathModel| all_claim(c, #[trigger] modules(c, ctx, dir)) by {
        lemma_modules(c, ctx, dir);
    }
}

proof fn lemma_caches(c: ContainerModel, ctx: CtxModel, dir: PathModel)
    ensures
        all_claim(c, caches(c, ctx, dir)),
{
    lemma_flat_claims::<DirModel>(c);
    assert forall|d: DirModel| all_claim(c, #[trigger] cache_child(c, ctx, d)) by {
        lemma_cache_child(c, ctx, d);
    }
}

proof fn lemma_module_unit(c: ContainerModel, files: PathModel, d: DirModel)
    ensures
        all_claim(c, module_unit(c, files, d)),
{
    lemma_builder(c);
}

proof fn lemma_modules_child(c: ContainerModel, ctx: CtxModel, d: DirModel)
    ensures
        all_claim(c, modules_child(c, ctx, d)),
{
    lemma_builder(c);
    lemma_flat_claims::<DirModel>(c);
    assert forall|files: PathModel, d: DirModel| all_claim(c, #[trigger] module_unit(c, files, d)) by {
        lemma_module_unit(c, files, d);
    }
}

proof fn lemma_modules(c: ContainerModel, ctx: CtxModel, dir: PathModel)
    ensures
        all_claim(c, modules(c, ctx, dir)),
{
    lemma_flat_claims::<DirModel>(c);
    assert forall|d: DirModel| all_claim(c, #[trigger] modules_child(c, ctx, d)) by {
        lemma_modules_child(c, ctx, d);
    }
}

proof fn lemma_wrapper_child(c: ContainerModel, ctx: CtxModel, d: DirModel)
    ensures
        all_claim(c, wrapper_child(c, ctx, d)),
{
    assert forall|dir: PathModel| all_claim(c, #[trigger] dists(c, ctx, dir)) by {
        lemma_dists(c, ctx, dir);
    }
}

proof fn lemma_wrapper(c: ContainerModel, ctx: CtxModel, dir: PathModel)
    ensures
        all_claim(c, wrapper(c, ctx, dir)),
{
    lemma_flat_claims::<DirModel>(c);
    assert forall|d: DirModel| all_claim(c, #[trigger] wrapper_child(c, ctx, d)) by {
        lemma_wrapper_child(c, ctx, d);
    }
}

proof fn lemma_dist_unit(c: ContainerModel, d: DirModel)
    ensures
        all_claim(c, dist_unit(c, d)),
{
    lemma_builder(c);
}

proof fn lemma_dists(c: ContainerModel, ctx: CtxModel, dir: PathModel)
    ensures
        all_claim(c, dists(c, ctx, dir)),
{
    lemma_flat_claims::<DirModel>(c);
    assert forall|d: DirModel| all_claim(c, #[trigger] dist_unit(c, d)) by {
        lemma_dist_unit(c, d);
    }
}

proof fn lemma_daemon_unit(c: ContainerModel, d: DirModel)
    ensures
        all_claim(c, daemon_unit(c, d)),
{
    lemma_builder(c);
}

proof fn lemma_daemons(c: ContainerModel, ctx: CtxModel, dir: PathModel)
    ensures
        all_claim(c, daemons(c, ctx, dir)),
{
    lemma_flat_claims::<DirModel>(c);
    assert forall|d: DirModel| all_claim(c, #[trigger] daemon_unit(c, d)) by {
        lemma_daemon_unit(c, d);
    }
}

/// Every unit that the Gradle adapter identifies.
pub(crate) proof fn lemma_identified(c: ContainerModel, ctx: CtxModel)
    ensures
        all_claim(c, Adapter.identify_spec(c, ctx)),
{
    lemma_build_dir(c, ctx);
    lemma_project_cache(c, ctx);
    assert forall|part: Seq<char>| claims(c, #[trigger] home_part(c, ctx, part)) by {
        lemma_home_part(c, ctx, part);
    }
    lemma_user_home(c, ctx);
    assert forall|dir: PathModel| all_claim(c, #[trigger] caches(c, ctx, dir)) by {
        lemma_caches(c, ctx, dir);
    }
    assert forall|dir: PathModel| all_claim(c, #[trigger] dists(c, ctx, dir)) by {
        lemma_dists(c, ctx, dir);
    }
    assert forall|dir: PathModel| all_claim(c, #[trigger] daemons(c, ctx, dir)) by {
        lemma_daemons(c, ctx, dir);
    }
}

pub(crate) proof fn lemma_own_row(c: ContainerModel, ctx: CtxModel)
    ensures
        own_row_first(c, Adapter.identify_spec(c, ctx)),
{
    lemma_paths();
}

} // verus!
