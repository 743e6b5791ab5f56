//! The units of the Xcode and Swift adapter.

use super::{all_claim, claims, lemma_builder, lemma_flat_claims, lemma_paths, own_row_first};
use crate::artifact::{ArtifactRole, VariantModel};
use crate::build_adapters::adapter::{BuildAdapter, PartModel};
use crate::build_adapters::container::{row_from, row_of, ContainerModel, DirModel};
use crate::build_adapters::context::CtxModel;
use crate::build_adapters::xcode_swift::{
    Adapter, archive_unit, archive_units, archives, archives_read, checkout_unit, checkouts, derived_child,
    derived_data, derived_root_unit, device_support, device_support_dir, device_unit, devices, folder_part,
    folder_unit, product_item, products, products_dir, project_folder, runtime_unit, runtimes, simulator_cache,
    simulator_caches, store_root_unit, swiftpm, swiftpm_child, swiftpm_root, test_result, test_results, triple_config,
};
use crate::facts::ManifestModel;
use crate::locations::BuildStoreKind;
use crate::path::{joined_path, name_of, same_path, PathModel};
use vstd::prelude::*;

verus! {

proof fn lemma_derived_root_unit(c: ContainerModel, ctx: CtxModel)
    ensures
        claims(c, derived_root_unit(c, ctx)),
{
    lemma_builder(c);
}

proof fn lemma_derived_child(c: ContainerModel, ctx: CtxModel, d: DirModel)
    ensures
        all_claim(c, derived_child(c, ctx, d)),
{
    lemma_builder(c);
    assert forall|folder: PathModel| all_claim(c, #[trigger] project_folder(c, ctx, folder)) by {
        lemma_project_folder(c, ctx, folder);
    }
}

proof fn lemma_derived_data(c: ContainerModel, ctx: CtxModel)
    ensures
        all_claim(c, derived_data(c, ctx)),
{
    lemma_flat_claims::<DirModel>(c);
    lemma_derived_root_unit(c, ctx);
    assert forall|d: DirModel| all_claim(c, #[trigger] derived_child(c, ctx, d)) by {
        lemma_derived_child(c, ctx, d);
    }
    assert forall|folder: PathModel| all_claim(c, #[trigger] project_folder(c, ctx, folder)) by {
        lemma_project_folder(c, ctx, folder);
    }
}

proof fn lemma_folder_unit(c: ContainerModel, ctx: CtxModel, dir: DirModel, ws: Option<Seq<char>>)
    ensures
        claims(c, folder_unit(c, ctx, dir, ws)),
{
    lemma_builder(c);
}

proof fn lemma_folder_part(c: ContainerModel, ctx: CtxModel, folder: PathModel, v: VariantModel, p: PartModel)
    ensures
        all_claim(c, folder_part(c, ctx, folder, v, p)),
{
    lemma_builder(c);
}

proof fn lemma_project_folder(c: ContainerModel, ctx: CtxModel, folder: PathModel)
    ensures
        all_claim(c, project_folder(c, ctx, folder)),
{
    lemma_flat_claims::<PartModel>(c);
    assert forall|dir: DirModel, ws: Option<Seq<char>>| claims(c, #[trigger] folder_unit(c, ctx, dir, ws)) by {
        lemma_folder_unit(c, ctx, dir, ws);
    }
    assert forall|folder: PathModel, v: VariantModel, p: PartModel|
        all_claim(c, #[trigger] folder_part(c, ctx, folder, v, p)) by {
        lemma_folder_part(c, ctx, folder, v, p);
    }
    assert forall|folder: PathModel, package: Option<Seq<char>>|
        all_claim(c, #[trigger] products(c, ctx, folder, package)) by {
        lemma_products(c, ctx, folder, package);
    }
    assert forall|folder: PathModel, package: Option<Seq<char>>|
        all_claim(c, #[trigger] test_results(c, ctx, folder, package)) by {
        lemma_test_results(c, ctx, folder, package);
    }
    assert forall|dir: PathModel, state_file: PathModel| all_claim(c, #[trigger] checkouts(c, ctx, dir, state_file)) by {
        lemma_checkouts(c, ctx, dir, state_file);
    }
}

proof fn lemma_product_item(c: ContainerModel, v: VariantModel, d: DirModel)
    ensures
        all_claim(c, product_item(c, v, d)),
{
    lemma_builder(c);
}

proof fn lemma_products_dir(c: ContainerModel, ctx: CtxModel, package: Option<Seq<char>>, d: DirModel)
    ensures
        all_claim(c, products_dir(c, ctx, package, d)),
{
    lemma_builder(c);
    lemma_flat_claims::<DirModel>(c);
    assert forall|v: VariantModel, d: DirModel| all_claim(c, #[trigger] product_item(c, v, d)) by {
        lemma_product_item(c, v, d);
    }
}

proof fn lemma_products(c: ContainerModel, ctx: CtxModel, folder: PathModel, package: Option<Seq<char>>)
    ensures
        all_claim(c, products(c, ctx, folder, package)),
{
    lemma_flat_claims::<DirModel>(c);
    assert forall|package: Option<Seq<char>>, d: DirModel|
        all_claim(c, #[trigger] products_dir(c, ctx, package, d)) by {
        lemma_products_dir(c, ctx, package, d);
    }
}

proof fn lemma_test_result(c: ContainerModel, package: Option<Seq<char>>, d: DirModel)
    ensures
        all_claim(c, test_result(c, package, d)),
{
    lemma_builder(c);
}

proof fn lemma_test_results(c: ContainerModel, ctx: CtxModel, folder: PathModel, package: Option<Seq<char>>)
    ensures
        all_claim(c, test_results(c, ctx, folder, package)),
{
    lemma_flat_claims::<DirModel>(c);
    assert forall|package: Option<Seq<char>>, d: DirModel| all_claim(c, #[trigger] test_result(c, package, d)) by {
        lemma_test_result(c, package, d);
    }
}

proof fn lemma_checkout_unit(
    c: ContainerModel,
    d: DirModel,
    state_read: bool,
    found: Option<(Seq<char>, Option<Seq<char>>)>,
)
    ensures
        claims(c, checkout_unit(c, d, state_read, found)),
{
    lemma_builder(c);
}

proof fn lemma_checkouts(c: ContainerModel, ctx: CtxModel, dir: PathModel, state_file: PathModel)
    ensures
        all_claim(c, checkouts(c, ctx, dir, state_file)),
{
    lemma_flat_claims::<DirModel>(c);
    assert forall|d: DirModel, state_read: bool, found: Option<(Seq<char>, Option<Seq<char>>)>|
        claims(c, #[trigger] checkout_unit(c, d, state_read, found)) by {
        lemma_checkout_unit(c, d, state_read, found);
    }
}

proof fn lemma_swiftpm_root(c: ContainerModel, ctx: CtxModel)
    ensures
        claims(c, swiftpm_root(c, ctx)),
{
    lemma_builder(c);
}

proof fn lemma_triple_config(c: ContainerModel, triple: Seq<char>, d: DirModel)
    ensures
        all_claim(c, triple_config(c, triple, d)),
{
    lemma_builder(c);
}

proof fn lemma_swiftpm_child(c: ContainerModel, ctx: CtxModel, d: DirModel)
    ensures
        all_claim(c, swiftpm_child(c, ctx, d)),
{
    lemma_builder(c);
    lemma_flat_claims::<DirModel>(c);
    assert forall|dir: PathModel, state_file: PathModel| all_claim(c, #[trigger] checkouts(c, ctx, dir, state_file)) by {
        lemma_checkouts(c, ctx, dir, state_file);
    }
    assert forall|triple: Seq<char>, d: DirModel| all_claim(c, #[trigger] triple_config(c, triple, d)) by {
        lemma_triple_config(c, triple, d);
    }
}

proof fn lemma_swiftpm(c: ContainerModel, ctx: CtxModel)
    ensures
        all_claim(c, swiftpm(c, ctx)),
{
    lemma_flat_claims::<DirModel>(c);
    lemma_swiftpm_root(c, ctx);
    assert forall|d: DirModel| all_claim(c, #[trigger] swiftpm_child(c, ctx, d)) by {
        lemma_swiftpm_child(c, ctx, d);
    }
}

proof fn lemma_store_root_unit(
    c: ContainerModel,
    ctx: CtxModel,
    role: ArtifactRole,
    what: Seq<char>,
    consequence: Seq<char>,
    why_no_action: Seq<char>,
)
    ensures
        claims(c, store_root_unit(c, ctx, role, what, consequence, why_no_action)),
{
    lemma_builder(c);
}

proof fn lemma_archive_unit(c: ContainerModel, ctx: CtxModel, d: DirModel, read: int)
    ensures
        claims(c, archive_unit(c, ctx, d, read)),
{
    lemma_builder(c);
}

proof fn lemma_archive_units(c: ContainerModel, ctx: CtxModel, entries: Seq<DirModel>, n: int)
    ensures
        all_claim(c, archive_units(c, ctx, entries, n)),
    decreases n,
{
    if n > 0 {
        lemma_archive_units(c, ctx, entries, n - 1);
        lemma_archive_unit(c, ctx, entries[n - 1], archives_read(entries, n - 1));
    }
}

proof fn lemma_archives(c: ContainerModel, ctx: CtxModel)
    ensures
        all_claim(c, archives(c, ctx)),
{
    assert forall|role: ArtifactRole, what: Seq<char>, consequence: Seq<char>, why_no_action: Seq<char>|
        claims(c, #[trigger] store_root_unit(c, ctx, role, what, consequence, why_no_action)) by {
        lemma_store_root_unit(c, ctx, role, what, consequence, why_no_action);
    }
    assert forall|entries: Seq<DirModel>, n: int| all_claim(c, #[trigger] archive_units(c, ctx, entries, n)) by {
        lemma_archive_units(c, ctx, entries, n);
    }
}

proof fn lemma_device_support_dir(c: ContainerModel, d: DirModel)
    ensures
        all_claim(c, device_support_dir(c, d)),
{
    lemma_builder(c);
}

proof fn lemma_device_support(c: ContainerModel, ctx: CtxModel)
    ensures
        all_claim(c, device_support(c, ctx)),
{
    lemma_flat_claims::<DirModel>(c);
    assert forall|role: ArtifactRole, what: Seq<char>, consequence: Seq<char>, why_no_action: Seq<char>|
        claims(c, #[trigger] store_root_unit(c, ctx, role, what, consequence, why_no_action)) by {
        lemma_store_root_unit(c, ctx, role, what, consequence, why_no_action);
    }
    assert forall|d: DirModel| all_claim(c, #[trigger] device_support_dir(c, d)) by {
        lemma_device_support_dir(c, d);
    }
}

proof fn lemma_device_unit(c: ContainerModel, d: DirModel, m: Option<ManifestModel>)
    ensures
        all_claim(c, device_unit(c, d, m)),
{
    lemma_builder(c);
}

proof fn lemma_devices(c: ContainerModel, ctx: CtxModel)
    ensures
        all_claim(c, devices(c, ctx)),
{
    lemma_flat_claims::<DirModel>(c);
    assert forall|role: ArtifactRole, what: Seq<char>, consequence: Seq<char>, why_no_action: Seq<char>|
        claims(c, #[trigger] store_root_unit(c, ctx, role, what, consequence, why_no_action)) by {
        lemma_store_root_unit(c, ctx, role, what, consequence, why_no_action);
    }
    assert forall|d: DirModel, m: Option<ManifestModel>| all_claim(c, #[trigger] device_unit(c, d, m)) by {
        lemma_device_unit(c, d, m);
    }
}

proof fn lemma_runtime_unit(c: ContainerModel, d: DirModel)
    ensures
        all_claim(c, runtime_unit(c, d)),
{
    lemma_builder(c);
}

proof fn lemma_runtimes(c: ContainerModel, ctx: CtxModel)
    ensures
        all_claim(c, runtimes(c, ctx)),
{
    lemma_flat_claims::<DirModel>(c);
    assert forall|role: ArtifactRole, what: Seq<char>, consequence: Seq<char>, why_no_action: Seq<char>|
        claims(c, #[trigger] store_root_unit(c, ctx, role, what, consequence, why_no_action)) by {
        lemma_store_root_unit(c, ctx, role, what, consequence, why_no_action);
    }
    assert forall|d: DirModel| all_claim(c, #[trigger] runtime_unit(c, d)) by {
        lemma_runtime_unit(c, d);
    }
}

proof fn lemma_simulator_cache(c: ContainerModel, d: DirModel)
    ensures
        all_claim(c, simulator_cache(c, d)),
{
    lemma_builder(c);
}

proof fn lemma_simulator_caches(c: ContainerModel, ctx: CtxModel)
    ensures
        all_claim(c, simulator_caches(c, ctx)),
{
    lemma_builder(c);
    lemma_flat_claims::<DirModel>(c);
    assert forall|d: DirModel| all_claim(c, #[trigger] simulator_cache(c, d)) by {
        lemma_simulator_cache(c, d);
    }
}

/// Every unit that the Xcode and Swift adapter identifies.
pub(crate) proof fn lemma_identified(c: ContainerModel, ctx: CtxModel)
    ensures
        all_claim(c, Adapter.identify_spec(c, ctx)),
{
    lemma_derived_data(c, ctx);
    lemma_swiftpm(c, ctx);
    lemma_archives(c, ctx);
    lemma_device_support(c, ctx);
    lemma_devices(c, ctx);
    lemma_runtimes(c, ctx);
    lemma_simulator_caches(c, ctx);
}

/// Whether a container is a project's build folder of which the walk measured
/// the builds and not the folder itself.
pub open spec fn unmeasured_folder(c: ContainerModel, ctx: CtxModel) -> bool {
    &&& row_of(ctx.rows, joined_path(c.path, "Build"@)) is Some
    &&& row_of(ctx.rows, c.path) is None
    &&& match c.store_kind {
        Some(BuildStoreKind::XcodeArchives) => false,
        Some(BuildStoreKind::XcodeDeviceSupport) => false,
        Some(BuildStoreKind::SimulatorDevices) => false,
        Some(BuildStoreKind::SimulatorRuntimes) => false,
        Some(BuildStoreKind::SimulatorCaches) => false,
        Some(BuildStoreKind::XcodeDerivedData) => true,
        _ => name_of(c.path) != ".build"@,
    }
}

proof fn lemma_row_path(rows: Seq<DirModel>, path: PathModel, i: int)
    ensures
        row_from(rows, path, i) matches Some(d) ==> same_path(d.path, path),
    decreases rows.len() - i,
{
    if 0 <= i < rows.len() && !same_path(rows[i].path, path) {
        lemma_row_path(rows, path, i + 1);
    }
}

pub(crate) proof fn lemma_own_row(c: ContainerModel, ctx: CtxModel)
    requires
        !unmeasured_folder(c, ctx),
    ensures
        own_row_first(c, Adapter.identify_spec(c, ctx)),
{
    lemma_paths();
    lemma_row_path(ctx.rows, c.path, 0);
}

} // verus!
