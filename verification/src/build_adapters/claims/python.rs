//! The units of the Python adapter.

use super::{all_claim, claims, grounded, lemma_builder, lemma_flat_claims, lemma_paths, own_row_first};
use crate::build_adapters::adapter::BuildAdapter;
use crate::build_adapters::container::{ContainerModel, DirModel};
use crate::build_adapters::context::CtxModel;
use crate::build_adapters::python::SiteModel;
use crate::build_adapters::python::{
    Adapter, build_child, dist, dist_entry, egg_child, egg_info, eggs, env_base, env_child, env_dir, env_root,
    env_units, lib_units, loose_metadata, pip_cache, pip_child, project_unit, setuptools_build, site_entry, site_in,
    site_packages, site_units, store_root, uv_cache, uv_child, uv_index, uv_package, uv_packages, uv_python,
    uv_pythons, uv_tool, uv_tools, version_child, versioned_cache,
};
use crate::facts::EntryModel;
use crate::path::{same_opt, PathModel};
use vstd::prelude::*;

verus! {

proof fn lemma_project_unit(c: ContainerModel, ctx: CtxModel)
    ensures
        claims(c, project_unit(c, ctx)),
{
    lemma_builder(c);
}

proof fn lemma_loose_metadata(c: ContainerModel, ctx: CtxModel)
    ensures
        all_claim(c, loose_metadata(c, ctx)),
{
    lemma_builder(c);
}

proof fn lemma_dist_entry(c: ContainerModel, ctx: CtxModel, e: EntryModel)
    ensures
        all_claim(c, dist_entry(c, ctx, e)),
{
    lemma_builder(c);
}

proof fn lemma_dist(c: ContainerModel, ctx: CtxModel)
    ensures
        all_claim(c, dist(c, ctx)),
{
    lemma_flat_claims::<EntryModel>(c);
    lemma_project_unit(c, ctx);
    assert forall|e: EntryModel| all_claim(c, #[trigger] dist_entry(c, ctx, e)) by {
        lemma_dist_entry(c, ctx, e);
    }
}

proof fn lemma_build_child(c: ContainerModel, d: DirModel)
    ensures
        all_claim(c, build_child(c, d)),
{
    lemma_builder(c);
}

proof fn lemma_setuptools_build(c: ContainerModel, ctx: CtxModel)
    ensures
        all_claim(c, setuptools_build(c, ctx)),
{
    lemma_flat_claims::<DirModel>(c);
    lemma_project_unit(c, ctx);
    assert forall|d: DirModel| all_claim(c, #[trigger] build_child(c, d)) by {
        lemma_build_child(c, d);
    }
}

proof fn lemma_version_child(c: ContainerModel, name: Seq<char>, d: DirModel)
    ensures
        all_claim(c, version_child(c, name, d)),
{
    lemma_builder(c);
}

proof fn lemma_versioned_cache(c: ContainerModel, ctx: CtxModel, name: Seq<char>)
    ensures
        all_claim(c, versioned_cache(c, ctx, name)),
{
    lemma_flat_claims::<DirModel>(c);
    lemma_project_unit(c, ctx);
    assert forall|name: Seq<char>, d: DirModel| all_claim(c, #[trigger] version_child(c, name, d)) by {
        lemma_version_child(c, name, d);
    }
}

proof fn lemma_env_base(c: ContainerModel, ctx: CtxModel, env: PathModel, is_container: bool)
    ensures
        grounded(c, env_base(c, ctx, env, is_container)),
{
    lemma_builder(c);
}

proof fn lemma_env_root(c: ContainerModel, ctx: CtxModel, env: PathModel, is_container: bool)
    ensures
        claims(c, env_root(c, ctx, env, is_container)),
{
    lemma_builder(c);
    assert forall|env: PathModel, is_container: bool| grounded(c, #[trigger] env_base(c, ctx, env, is_container)) by {
        lemma_env_base(c, ctx, env, is_container);
    }
}

proof fn lemma_env_units(c: ContainerModel, ctx: CtxModel, env: PathModel, is_container: bool)
    ensures
        all_claim(c, env_units(c, ctx, env, is_container)),
{
    assert forall|env: PathModel, is_container: bool| claims(c, #[trigger] env_root(c, ctx, env, is_container)) by {
        lemma_env_root(c, ctx, env, is_container);
    }
    assert forall|env: PathModel| all_claim(c, #[trigger] site_packages(c, ctx, env)) by {
        lemma_site_packages(c, ctx, env);
    }
}

proof fn lemma_env_child(c: ContainerModel, ctx: CtxModel, name: Seq<char>, d: DirModel)
    ensures
        all_claim(c, env_child(c, ctx, name, d)),
{
    lemma_builder(c);
    assert forall|env: PathModel, is_container: bool| all_claim(c, #[trigger] env_units(c, ctx, env, is_container)) by {
        lemma_env_units(c, ctx, env, is_container);
    }
}

proof fn lemma_env_dir(c: ContainerModel, ctx: CtxModel, name: Seq<char>)
    ensures
        all_claim(c, env_dir(c, ctx, name)),
{
    lemma_flat_claims::<DirModel>(c);
    lemma_project_unit(c, ctx);
    assert forall|name: Seq<char>, d: DirModel| all_claim(c, #[trigger] env_child(c, ctx, name, d)) by {
        lemma_env_child(c, ctx, name, d);
    }
}

proof fn lemma_site_entry(c: ContainerModel, ctx: CtxModel, s: SiteModel, d: DirModel)
    ensures
        all_claim(c, site_entry(c, ctx, s, d)),
{
    lemma_builder(c);
}

proof fn lemma_site_units(c: ContainerModel, ctx: CtxModel, site: DirModel)
    ensures
        all_claim(c, site_units(c, ctx, site)),
{
    lemma_flat_claims::<DirModel>(c);
    assert forall|s: SiteModel, d: DirModel| all_claim(c, #[trigger] site_entry(c, ctx, s, d)) by {
        lemma_site_entry(c, ctx, s, d);
    }
}

proof fn lemma_site_in(c: ContainerModel, ctx: CtxModel, dir: PathModel)
    ensures
        all_claim(c, site_in(c, ctx, dir)),
{
    assert forall|site: DirModel| all_claim(c, #[trigger] site_units(c, ctx, site)) by {
        lemma_site_units(c, ctx, site);
    }
}

proof fn lemma_lib_units(c: ContainerModel, ctx: CtxModel, lib: PathModel)
    ensures
        all_claim(c, lib_units(c, ctx, lib)),
{
    lemma_flat_claims::<DirModel>(c);
    assert forall|dir: PathModel| all_claim(c, #[trigger] site_in(c, ctx, dir)) by {
        lemma_site_in(c, ctx, dir);
    }
}

proof fn lemma_site_packages(c: ContainerModel, ctx: CtxModel, env: PathModel)
    ensures
        all_claim(c, site_packages(c, ctx, env)),
{
    assert forall|lib: PathModel| all_claim(c, #[trigger] lib_units(c, ctx, lib)) by {
        lemma_lib_units(c, ctx, lib);
    }
}

proof fn lemma_egg_child(c: ContainerModel, d: DirModel)
    ensures
        all_claim(c, egg_child(c, d)),
{
    lemma_builder(c);
}

proof fn lemma_eggs(c: ContainerModel, ctx: CtxModel)
    ensures
        all_claim(c, eggs(c, ctx)),
{
    lemma_flat_claims::<DirModel>(c);
    lemma_project_unit(c, ctx);
    assert forall|d: DirModel| all_claim(c, #[trigger] egg_child(c, d)) by {
        lemma_egg_child(c, d);
    }
}

proof fn lemma_egg_info(c: ContainerModel, ctx: CtxModel)
    ensures
        all_claim(c, egg_info(c, ctx)),
{
    lemma_builder(c);
}

proof fn lemma_store_root(c: ContainerModel, ctx: CtxModel, what: Seq<char>, consequence: Seq<char>)
    ensures
        claims(c, store_root(c, ctx, what, consequence)),
{
    lemma_builder(c);
}

proof fn lemma_pip_child(c: ContainerModel, d: DirModel)
    ensures
        all_claim(c, pip_child(c, d)),
{
    lemma_builder(c);
}

proof fn lemma_pip_cache(c: ContainerModel, ctx: CtxModel)
    ensures
        all_claim(c, pip_cache(c, ctx)),
{
    lemma_flat_claims::<DirModel>(c);
    assert forall|what: Seq<char>, consequence: Seq<char>|
        claims(c, #[trigger] store_root(c, ctx, what, consequence)) by {
        lemma_store_root(c, ctx, what, consequence);
    }
    assert forall|d: DirModel| all_claim(c, #[trigger] pip_child(c, d)) by {
        lemma_pip_child(c, d);
    }
}

proof fn lemma_uv_package(c: ContainerModel, bucket: Seq<char>, index: Seq<char>, d: DirModel)
    ensures
        all_claim(c, uv_package(c, bucket, index, d)),
{
    lemma_builder(c);
}

proof fn lemma_uv_index(c: ContainerModel, ctx: CtxModel, bucket: Seq<char>, d: DirModel)
    ensures
        all_claim(c, uv_index(c, ctx, bucket, d)),
{
    lemma_builder(c);
    lemma_flat_claims::<DirModel>(c);
    assert forall|bucket: Seq<char>, index: Seq<char>, d: DirModel|
        all_claim(c, #[trigger] uv_package(c, bucket, index, d)) by {
        lemma_uv_package(c, bucket, index, d);
    }
}

proof fn lemma_uv_packages(c: ContainerModel, ctx: CtxModel, bucket: PathModel, name: Seq<char>)
    ensures
        all_claim(c, uv_packages(c, ctx, bucket, name)),
{
    lemma_flat_claims::<DirModel>(c);
    assert forall|bucket: Seq<char>, d: DirModel| all_claim(c, #[trigger] uv_index(c, ctx, bucket, d)) by {
        lemma_uv_index(c, ctx, bucket, d);
    }
}

proof fn lemma_uv_child(c: ContainerModel, ctx: CtxModel, d: DirModel)
    ensures
        all_claim(c, uv_child(c, ctx, d)),
{
    lemma_builder(c);
    assert forall|bucket: PathModel, name: Seq<char>| all_claim(c, #[trigger] uv_packages(c, ctx, bucket, name)) by {
        lemma_uv_packages(c, ctx, bucket, name);
    }
}

proof fn lemma_uv_cache(c: ContainerModel, ctx: CtxModel)
    ensures
        all_claim(c, uv_cache(c, ctx)),
{
    lemma_flat_claims::<DirModel>(c);
    assert forall|what: Seq<char>, consequence: Seq<char>|
        claims(c, #[trigger] store_root(c, ctx, what, consequence)) by {
        lemma_store_root(c, ctx, what, consequence);
    }
    assert forall|d: DirModel| all_claim(c, #[trigger] uv_child(c, ctx, d)) by {
        lemma_uv_child(c, ctx, d);
    }
}

proof fn lemma_uv_python(c: ContainerModel, d: DirModel)
    ensures
        all_claim(c, uv_python(c, d)),
{
    lemma_builder(c);
}

proof fn lemma_uv_pythons(c: ContainerModel, ctx: CtxModel)
    ensures
        all_claim(c, uv_pythons(c, ctx)),
{
    lemma_builder(c);
    lemma_flat_claims::<DirModel>(c);
    assert forall|d: DirModel| all_claim(c, #[trigger] uv_python(c, d)) by {
        lemma_uv_python(c, d);
    }
}

proof fn lemma_uv_tool(c: ContainerModel, ctx: CtxModel, d: DirModel)
    ensures
        all_claim(c, uv_tool(c, ctx, d)),
{
    lemma_builder(c);
    assert forall|env: PathModel, is_container: bool| claims(c, #[trigger] env_root(c, ctx, env, is_container)) by {
        lemma_env_root(c, ctx, env, is_container);
    }
    assert forall|env: PathModel| all_claim(c, #[trigger] site_packages(c, ctx, env)) by {
        lemma_site_packages(c, ctx, env);
    }
}

proof fn lemma_uv_tools(c: ContainerModel, ctx: CtxModel)
    ensures
        all_claim(c, uv_tools(c, ctx)),
{
    lemma_builder(c);
    lemma_flat_claims::<DirModel>(c);
    assert forall|d: DirModel| all_claim(c, #[trigger] uv_tool(c, ctx, d)) by {
        lemma_uv_tool(c, ctx, d);
    }
}

/// Every unit that the Python adapter identifies.
pub(crate) proof fn lemma_identified(c: ContainerModel, ctx: CtxModel)
    ensures
        all_claim(c, Adapter.identify_spec(c, ctx)),
{
    lemma_project_unit(c, ctx);
    lemma_loose_metadata(c, ctx);
    lemma_dist(c, ctx);
    lemma_setuptools_build(c, ctx);
    assert forall|name: Seq<char>| all_claim(c, #[trigger] versioned_cache(c, ctx, name)) by {
        lemma_versioned_cache(c, ctx, name);
    }
    assert forall|env: PathModel, is_container: bool| all_claim(c, #[trigger] env_units(c, ctx, env, is_container)) by {
        lemma_env_units(c, ctx, env, is_container);
    }
    assert forall|name: Seq<char>| all_claim(c, #[trigger] env_dir(c, ctx, name)) by {
        lemma_env_dir(c, ctx, name);
    }
    lemma_eggs(c, ctx);
    lemma_egg_info(c, ctx);
    lemma_pip_cache(c, ctx);
    lemma_uv_cache(c, ctx);
    lemma_uv_pythons(c, ctx);
    lemma_uv_tools(c, ctx);
}

pub(crate) proof fn lemma_own_row(c: ContainerModel, ctx: CtxModel)
    requires
        c.shared || !same_opt(c.project_root, c.path),
    ensures
        own_row_first(c, Adapter.identify_spec(c, ctx)),
{
    lemma_paths();
}

} // verus!
