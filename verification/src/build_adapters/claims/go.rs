//! The units of the Go adapter.

use super::{all_claim, claims, lemma_builder, lemma_flat_claims, lemma_paths, own_row_first};
use crate::artifact::{ArtifactRole, UnitModel};
use crate::build_adapters::adapter::BuildAdapter;
use crate::build_adapters::container::{ContainerModel, DirModel};
use crate::build_adapters::context::CtxModel;
use crate::build_adapters::go::{
    Adapter, bad_module, bin, bin_entry, bucket_unit, build_cache, cache_unit, deep_unit, dist_child, download_unit,
    downloads, goreleaser_dist, listed_module, module_cache, module_unit, root_unit, sumdb_unit, unlisted_module,
    vendor, vendored_unit, version_unit, with_record,
};
use crate::facts::EntryModel;
use crate::path::PathModel;
use vstd::prelude::*;

verus! {

proof fn lemma_root_unit(
    c: ContainerModel,
    ctx: CtxModel,
    role: ArtifactRole,
    reason: Seq<char>,
    consequence: Seq<char>,
)
    ensures
        claims(c, root_unit(c, ctx, role, reason, consequence)),
{
    lemma_builder(c);
}

proof fn lemma_vendored_unit(c: ContainerModel, ctx: CtxModel, line: Seq<char>)
    ensures
        all_claim(c, vendored_unit(c, ctx, line)),
{
    lemma_builder(c);
}

proof fn lemma_vendor(c: ContainerModel, ctx: CtxModel)
    ensures
        all_claim(c, vendor(c, ctx)),
{
    lemma_builder(c);
    lemma_flat_claims::<Seq<char>>(c);
    assert forall|role: ArtifactRole, reason: Seq<char>, consequence: Seq<char>|
        claims(c, #[trigger] root_unit(c, ctx, role, reason, consequence)) by {
        lemma_root_unit(c, ctx, role, reason, consequence);
    }
    assert forall|line: Seq<char>| all_claim(c, #[trigger] vendored_unit(c, ctx, line)) by {
        lemma_vendored_unit(c, ctx, line);
    }
}

proof fn lemma_bin_entry(c: ContainerModel, ctx: CtxModel, e: EntryModel)
    ensures
        all_claim(c, bin_entry(c, ctx, e)),
{
    lemma_builder(c);
}

proof fn lemma_bin(c: ContainerModel, ctx: CtxModel)
    ensures
        all_claim(c, bin(c, ctx)),
{
    lemma_builder(c);
    lemma_flat_claims::<EntryModel>(c);
    assert forall|role: ArtifactRole, reason: Seq<char>, consequence: Seq<char>|
        claims(c, #[trigger] root_unit(c, ctx, role, reason, consequence)) by {
        lemma_root_unit(c, ctx, role, reason, consequence);
    }
    assert forall|e: EntryModel| all_claim(c, #[trigger] bin_entry(c, ctx, e)) by {
        lemma_bin_entry(c, ctx, e);
    }
}

proof fn lemma_dist_child(c: ContainerModel, d: DirModel)
    ensures
        all_claim(c, dist_child(c, d)),
{
    lemma_builder(c);
}

proof fn lemma_goreleaser_dist(c: ContainerModel, ctx: CtxModel)
    ensures
        all_claim(c, goreleaser_dist(c, ctx)),
{
    lemma_flat_claims::<DirModel>(c);
    assert forall|role: ArtifactRole, reason: Seq<char>, consequence: Seq<char>|
        claims(c, #[trigger] root_unit(c, ctx, role, reason, consequence)) by {
        lemma_root_unit(c, ctx, role, reason, consequence);
    }
    assert forall|d: DirModel| all_claim(c, #[trigger] dist_child(c, d)) by {
        lemma_dist_child(c, d);
    }
}

proof fn lemma_version_unit(c: ContainerModel, d: DirModel, rel: Seq<char>, module: Seq<char>, version: Seq<char>)
    ensures
        claims(c, version_unit(c, d, rel, module, version)),
{
    lemma_builder(c);
}

proof fn lemma_module_unit(c: ContainerModel, d: DirModel)
    ensures
        all_claim(c, module_unit(c, d)),
{
    lemma_builder(c);
    assert forall|d: DirModel, rel: Seq<char>, module: Seq<char>, version: Seq<char>|
        claims(c, #[trigger] version_unit(c, d, rel, module, version)) by {
        lemma_version_unit(c, d, rel, module, version);
    }
}

proof fn lemma_deep_unit(c: ContainerModel, d: DirModel, limit: Seq<char>)
    ensures
        all_claim(c, deep_unit(c, d, limit)),
{
    lemma_builder(c);
}

proof fn lemma_cache_unit(c: ContainerModel, ctx: CtxModel)
    ensures
        all_claim(c, cache_unit(c, ctx)),
{
    lemma_builder(c);
}

proof fn lemma_module_cache(c: ContainerModel, ctx: CtxModel)
    ensures
        all_claim(c, module_cache(c, ctx)),
{
    lemma_builder(c);
    lemma_flat_claims::<DirModel>(c);
    assert forall|d: DirModel| all_claim(c, #[trigger] module_unit(c, d)) by {
        lemma_module_unit(c, d);
    }
    assert forall|d: DirModel, limit: Seq<char>| all_claim(c, #[trigger] deep_unit(c, d, limit)) by {
        lemma_deep_unit(c, d, limit);
    }
    lemma_cache_unit(c, ctx);
}

proof fn lemma_download_unit(
    c: ContainerModel,
    ctx: CtxModel,
    at: PathModel,
    rel: Seq<char>,
    module: Seq<char>,
    v: Seq<char>,
)
    ensures
        all_claim(c, download_unit(c, ctx, at, rel, module, v)),
{
    lemma_builder(c);
}

proof fn lemma_bad_module(c: ContainerModel, d: DirModel, rel: Seq<char>)
    ensures
        all_claim(c, bad_module(c, d, rel)),
{
    lemma_builder(c);
}

proof fn lemma_listed_module(c: ContainerModel, ctx: CtxModel, d: DirModel)
    ensures
        all_claim(c, listed_module(c, ctx, d)),
{
    lemma_flat_claims::<Seq<char>>(c);
    assert forall|at: PathModel, rel: Seq<char>, module: Seq<char>, v: Seq<char>|
        all_claim(c, #[trigger] download_unit(c, ctx, at, rel, module, v)) by {
        lemma_download_unit(c, ctx, at, rel, module, v);
    }
    assert forall|d: DirModel, rel: Seq<char>| all_claim(c, #[trigger] bad_module(c, d, rel)) by {
        lemma_bad_module(c, d, rel);
    }
}

proof fn lemma_unlisted_module(c: ContainerModel, d: DirModel)
    ensures
        all_claim(c, unlisted_module(c, d)),
{
    lemma_builder(c);
    assert forall|d: DirModel, rel: Seq<char>| all_claim(c, #[trigger] bad_module(c, d, rel)) by {
        lemma_bad_module(c, d, rel);
    }
}

proof fn lemma_sumdb_unit(c: ContainerModel, ctx: CtxModel)
    ensures
        all_claim(c, sumdb_unit(c, ctx)),
{
    lemma_builder(c);
}

proof fn lemma_downloads(c: ContainerModel, ctx: CtxModel)
    ensures
        all_claim(c, downloads(c, ctx)),
{
    lemma_builder(c);
    lemma_flat_claims::<DirModel>(c);
    assert forall|d: DirModel, limit: Seq<char>| all_claim(c, #[trigger] deep_unit(c, d, limit)) by {
        lemma_deep_unit(c, d, limit);
    }
    assert forall|d: DirModel| all_claim(c, #[trigger] listed_module(c, ctx, d)) by {
        lemma_listed_module(c, ctx, d);
    }
    assert forall|d: DirModel| all_claim(c, #[trigger] unlisted_module(c, d)) by {
        lemma_unlisted_module(c, d);
    }
    lemma_sumdb_unit(c, ctx);
}

proof fn lemma_with_record(u: UnitModel, c: ContainerModel, ctx: CtxModel, file: Seq<char>, what: Seq<char>)
    requires
        claims(c, u),
    ensures
        claims(c, with_record(u, c, ctx, file, what)),
{
    lemma_builder(c);
}

proof fn lemma_bucket_unit(c: ContainerModel, d: DirModel)
    ensures
        all_claim(c, bucket_unit(c, d)),
{
    lemma_builder(c);
}

proof fn lemma_build_cache(c: ContainerModel, ctx: CtxModel)
    ensures
        all_claim(c, build_cache(c, ctx)),
{
    lemma_builder(c);
    lemma_flat_claims::<DirModel>(c);
    assert forall|u: UnitModel, file: Seq<char>, what: Seq<char>|
        claims(c, u) implies claims(c, #[trigger] with_record(u, c, ctx, file, what)) by {
        lemma_with_record(u, c, ctx, file, what);
    }
    assert forall|d: DirModel| all_claim(c, #[trigger] bucket_unit(c, d)) by {
        lemma_bucket_unit(c, d);
    }
}

/// Every unit that the Go adapter identifies.
pub(crate) proof fn lemma_identified(c: ContainerModel, ctx: CtxModel)
    ensures
        all_claim(c, Adapter.identify_spec(c, ctx)),
{
    lemma_vendor(c, ctx);
    lemma_bin(c, ctx);
    lemma_goreleaser_dist(c, ctx);
    lemma_module_cache(c, ctx);
    lemma_downloads(c, ctx);
    lemma_build_cache(c, ctx);
}

pub(crate) proof fn lemma_own_row(c: ContainerModel, ctx: CtxModel)
    ensures
        own_row_first(c, Adapter.identify_spec(c, ctx)),
{
    lemma_paths();
}

} // verus!
