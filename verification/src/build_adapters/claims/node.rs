//! The units of the Node adapter.

use super::{all_claim, claims, lemma_builder, lemma_flat_claims, lemma_paths, own_row_first};
use crate::build_adapters::adapter::{BuildAdapter, PartModel};
use crate::build_adapters::container::{ContainerModel, DirModel};
use crate::build_adapters::context::CtxModel;
use crate::build_adapters::node::{
    Adapter, container_unit, framework_cache, loose_file, loose_metadata, node_modules, output_tree, package_base,
    read_package, shared_store, special_unit, store_child, unread_package,
};
use crate::path::same_opt;
use vstd::prelude::*;

verus! {

proof fn lemma_container_unit(c: ContainerModel, ctx: CtxModel)
    ensures
        claims(c, container_unit(c, ctx)),
{
    lemma_builder(c);
}

proof fn lemma_framework_cache(c: ContainerModel, d: DirModel)
    ensures
        all_claim(c, framework_cache(c, d)),
{
    lemma_builder(c);
}

proof fn lemma_output_tree(c: ContainerModel, ctx: CtxModel)
    ensures
        all_claim(c, output_tree(c, ctx)),
{
    lemma_flat_claims::<DirModel>(c);
    lemma_container_unit(c, ctx);
    assert forall|d: DirModel| all_claim(c, #[trigger] framework_cache(c, d)) by {
        lemma_framework_cache(c, d);
    }
}

proof fn lemma_loose_file(c: ContainerModel, ctx: CtxModel, p: PartModel)
    ensures
        all_claim(c, loose_file(c, ctx, p)),
{
    lemma_builder(c);
}

proof fn lemma_loose_metadata(c: ContainerModel, ctx: CtxModel)
    ensures
        all_claim(c, loose_metadata(c, ctx)),
{
    lemma_flat_claims::<PartModel>(c);
    assert forall|p: PartModel| all_claim(c, #[trigger] loose_file(c, ctx, p)) by {
        lemma_loose_file(c, ctx, p);
    }
}

proof fn lemma_special_unit(c: ContainerModel, d: DirModel)
    ensures
        all_claim(c, special_unit(c, d)),
{
    lemma_builder(c);
}

proof fn lemma_package_base(c: ContainerModel, d: DirModel)
    ensures
        claims(c, package_base(c, d)),
{
    lemma_builder(c);
}

proof fn lemma_read_package(c: ContainerModel, d: DirModel, identity: Option<(Seq<char>, Option<Seq<char>>)>)
    ensures
        all_claim(c, read_package(c, d, identity)),
{
    lemma_builder(c);
    assert forall|d: DirModel| claims(c, #[trigger] package_base(c, d)) by {
        lemma_package_base(c, d);
    }
}

proof fn lemma_unread_package(c: ContainerModel, d: DirModel)
    ensures
        all_claim(c, unread_package(c, d)),
{
    lemma_builder(c);
    assert forall|d: DirModel| claims(c, #[trigger] package_base(c, d)) by {
        lemma_package_base(c, d);
    }
}

proof fn lemma_node_modules(c: ContainerModel, ctx: CtxModel)
    ensures
        all_claim(c, node_modules(c, ctx)),
{
    lemma_builder(c);
    lemma_flat_claims::<DirModel>(c);
    lemma_container_unit(c, ctx);
    assert forall|d: DirModel| all_claim(c, #[trigger] special_unit(c, d)) by {
        lemma_special_unit(c, d);
    }
    assert forall|d: DirModel, identity: Option<(Seq<char>, Option<Seq<char>>)>|
        all_claim(c, #[trigger] read_package(c, d, identity)) by {
        lemma_read_package(c, d, identity);
    }
    assert forall|d: DirModel| all_claim(c, #[trigger] unread_package(c, d)) by {
        lemma_unread_package(c, d);
    }
}

proof fn lemma_store_child(c: ContainerModel, d: DirModel)
    ensures
        all_claim(c, store_child(c, d)),
{
    lemma_builder(c);
}

proof fn lemma_shared_store(c: ContainerModel, ctx: CtxModel)
    ensures
        all_claim(c, shared_store(c, ctx)),
{
    lemma_builder(c);
    lemma_flat_claims::<DirModel>(c);
    assert forall|d: DirModel| all_claim(c, #[trigger] store_child(c, d)) by {
        lemma_store_child(c, d);
    }
}

/// Every unit that the Node adapter identifies.
pub(crate) proof fn lemma_identified(c: ContainerModel, ctx: CtxModel)
    ensures
        all_claim(c, Adapter.identify_spec(c, ctx)),
{
    lemma_output_tree(c, ctx);
    lemma_loose_metadata(c, ctx);
    lemma_node_modules(c, ctx);
    lemma_shared_store(c, ctx);
}

pub(crate) proof fn lemma_own_row(c: ContainerModel, ctx: CtxModel)
    requires
        c.shared || !same_opt(c.project_root, c.path),
    ensures
        own_row_first(c, Adapter.identify_spec(c, ctx)),
{
    lemma_paths();
}

} // verus!
