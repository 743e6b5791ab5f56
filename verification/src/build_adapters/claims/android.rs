//! The units of the Android adapter.

use super::{all_claim, claims, lemma_builder, lemma_flat_claims, lemma_paths, own_row_first};
use crate::artifact::ArtifactRole;
use crate::build_adapters::adapter::{BuildAdapter, PartModel};
use crate::build_adapters::android::{
    Adapter, avd_unit, avds, flavor_output, image_unit, images_of_tag, module_build, module_child, module_root,
    native, native_dir, native_leaf, native_rows, output_child, outputs, package_unit, per_task, sdk_child,
    sdk_packages, task_unit, test_dir, test_dirs, variant_output,
};
use crate::build_adapters::container::{child_rows, ContainerModel, DirModel};
use crate::build_adapters::context::CtxModel;
use crate::path::{name_of, PathModel};
use vstd::prelude::*;

verus! {

proof fn lemma_module_root(c: ContainerModel, ctx: CtxModel)
    ensures
        claims(c, module_root(c, ctx)),
{
    lemma_builder(c);
}

proof fn lemma_module_child(c: ContainerModel, ctx: CtxModel, d: DirModel)
    ensures
        all_claim(c, module_child(c, ctx, d)),
{
    lemma_builder(c);
    assert forall|dir: PathModel| all_claim(c, #[trigger] outputs(c, ctx, dir)) by {
        lemma_outputs(c, ctx, dir);
    }
    assert forall|dir: PathModel, role: ArtifactRole, what: Seq<char>, consequence: Seq<char>|
        all_claim(c, #[trigger] per_task(c, ctx, dir, role, what, consequence)) by {
        lemma_per_task(c, ctx, dir, role, what, consequence);
    }
    assert forall|dir: PathModel| all_claim(c, #[trigger] test_dirs(c, ctx, dir)) by {
        lemma_test_dirs(c, ctx, dir);
    }
}

proof fn lemma_module_build(c: ContainerModel, ctx: CtxModel)
    ensures
        all_claim(c, module_build(c, ctx)),
{
    lemma_flat_claims::<DirModel>(c);
    lemma_module_root(c, ctx);
    assert forall|d: DirModel| all_claim(c, #[trigger] module_child(c, ctx, d)) by {
        lemma_module_child(c, ctx, d);
    }
}

proof fn lemma_flavor_output(c: ContainerModel, p: PartModel, flavor: Seq<char>, d: DirModel)
    ensures
        all_claim(c, flavor_output(c, p, flavor, d)),
{
    lemma_builder(c);
}

proof fn lemma_variant_output(c: ContainerModel, ctx: CtxModel, p: PartModel, d: DirModel)
    ensures
        all_claim(c, variant_output(c, ctx, p, d)),
{
    lemma_builder(c);
    lemma_flat_claims::<DirModel>(c);
    assert forall|p: PartModel, flavor: Seq<char>, d: DirModel|
        all_claim(c, #[trigger] flavor_output(c, p, flavor, d)) by {
        lemma_flavor_output(c, p, flavor, d);
    }
}

proof fn lemma_output_child(c: ContainerModel, ctx: CtxModel, d: DirModel)
    ensures
        all_claim(c, output_child(c, ctx, d)),
{
    lemma_builder(c);
    lemma_flat_claims::<DirModel>(c);
    assert forall|p: PartModel, d: DirModel| all_claim(c, #[trigger] variant_output(c, ctx, p, d)) by {
        lemma_variant_output(c, ctx, p, d);
    }
}

proof fn lemma_outputs(c: ContainerModel, ctx: CtxModel, dir: PathModel)
    ensures
        all_claim(c, outputs(c, ctx, dir)),
{
    lemma_flat_claims::<DirModel>(c);
    assert forall|d: DirModel| all_claim(c, #[trigger] output_child(c, ctx, d)) by {
        lemma_output_child(c, ctx, d);
    }
}

proof fn lemma_task_unit(
    c: ContainerModel,
    ctx: CtxModel,
    role: ArtifactRole,
    what: Seq<char>,
    consequence: Seq<char>,
    d: DirModel,
)
    ensures
        all_claim(c, task_unit(c, ctx, role, what, consequence, d)),
{
    lemma_builder(c);
}

proof fn lemma_per_task(
    c: ContainerModel,
    ctx: CtxModel,
    dir: PathModel,
    role: ArtifactRole,
    what: Seq<char>,
    consequence: Seq<char>,
)
    ensures
        all_claim(c, per_task(c, ctx, dir, role, what, consequence)),
{
    lemma_flat_claims::<DirModel>(c);
    assert forall|role: ArtifactRole, what: Seq<char>, consequence: Seq<char>, d: DirModel|
        all_claim(c, #[trigger] task_unit(c, ctx, role, what, consequence, d)) by {
        lemma_task_unit(c, ctx, role, what, consequence, d);
    }
}

proof fn lemma_test_dir(c: ContainerModel, above: Seq<char>, d: DirModel)
    ensures
        all_claim(c, test_dir(c, above, d)),
{
    lemma_builder(c);
}

proof fn lemma_test_dirs(c: ContainerModel, ctx: CtxModel, dir: PathModel)
    ensures
        all_claim(c, test_dirs(c, ctx, dir)),
{
    lemma_flat_claims::<DirModel>(c);
    assert forall|above: Seq<char>, d: DirModel| all_claim(c, #[trigger] test_dir(c, above, d)) by {
        lemma_test_dir(c, above, d);
    }
}

proof fn lemma_native_leaf(c: ContainerModel, d: DirModel, trail: Seq<Seq<char>>)
    ensures
        claims(c, native_leaf(c, d, trail)),
{
    lemma_builder(c);
}

proof fn lemma_native_dir(c: ContainerModel, ctx: CtxModel, d: DirModel, trail: Seq<Seq<char>>, depth: nat)
    ensures
        all_claim(c, native_dir(c, ctx, d, trail, depth)),
    decreases depth, 0nat,
{
    lemma_builder(c);
    assert forall|d: DirModel, trail: Seq<Seq<char>>| claims(c, #[trigger] native_leaf(c, d, trail)) by {
        lemma_native_leaf(c, d, trail);
    }
    if depth > 0 {
        lemma_native_rows(c, ctx, child_rows(ctx.rows, d.path), trail, (depth - 1) as nat);
    }
}

proof fn lemma_native_rows(c: ContainerModel, ctx: CtxModel, rows: Seq<DirModel>, trail: Seq<Seq<char>>, depth: nat)
    ensures
        all_claim(c, native_rows(c, ctx, rows, trail, depth)),
    decreases depth, 1 + rows.len(),
{
    if rows.len() > 0 {
        lemma_native_dir(c, ctx, rows.last(), trail.push(name_of(rows.last().path)), depth);
        lemma_native_rows(c, ctx, rows.drop_last(), trail, depth);
    }
}

proof fn lemma_native(c: ContainerModel, ctx: CtxModel)
    ensures
        all_claim(c, native(c, ctx)),
{
    lemma_builder(c);
    assert forall|rows: Seq<DirModel>, trail: Seq<Seq<char>>, depth: nat|
        all_claim(c, #[trigger] native_rows(c, ctx, rows, trail, depth)) by {
        lemma_native_rows(c, ctx, rows, trail, depth);
    }
}

proof fn lemma_package_unit(c: ContainerModel, ctx: CtxModel, d: DirModel, label: Seq<char>)
    ensures
        claims(c, package_unit(c, ctx, d, label)),
{
    lemma_builder(c);
}

proof fn lemma_image_unit(c: ContainerModel, ctx: CtxModel, level: Seq<char>, tag: Seq<char>, d: DirModel)
    ensures
        all_claim(c, image_unit(c, ctx, level, tag, d)),
{
    lemma_builder(c);
    assert forall|d: DirModel, label: Seq<char>| claims(c, #[trigger] package_unit(c, ctx, d, label)) by {
        lemma_package_unit(c, ctx, d, label);
    }
}

proof fn lemma_images_of_tag(c: ContainerModel, ctx: CtxModel, level: Seq<char>, tag: DirModel)
    ensures
        all_claim(c, images_of_tag(c, ctx, level, tag)),
{
    lemma_flat_claims::<DirModel>(c);
    assert forall|level: Seq<char>, tag: Seq<char>, d: DirModel|
        all_claim(c, #[trigger] image_unit(c, ctx, level, tag, d)) by {
        lemma_image_unit(c, ctx, level, tag, d);
    }
}

proof fn lemma_sdk_child(c: ContainerModel, ctx: CtxModel, d: DirModel)
    ensures
        all_claim(c, sdk_child(c, ctx, d)),
{
    lemma_flat_claims::<DirModel>(c);
    assert forall|d: DirModel, label: Seq<char>| claims(c, #[trigger] package_unit(c, ctx, d, label)) by {
        lemma_package_unit(c, ctx, d, label);
    }
    assert forall|level: Seq<char>, tag: DirModel| all_claim(c, #[trigger] images_of_tag(c, ctx, level, tag)) by {
        lemma_images_of_tag(c, ctx, level, tag);
    }
}

proof fn lemma_sdk_packages(c: ContainerModel, ctx: CtxModel)
    ensures
        all_claim(c, sdk_packages(c, ctx)),
{
    lemma_builder(c);
    lemma_flat_claims::<DirModel>(c);
    assert forall|d: DirModel| all_claim(c, #[trigger] sdk_child(c, ctx, d)) by {
        lemma_sdk_child(c, ctx, d);
    }
}

proof fn lemma_avd_unit(c: ContainerModel, ctx: CtxModel, d: DirModel)
    ensures
        all_claim(c, avd_unit(c, ctx, d)),
{
    lemma_builder(c);
}

proof fn lemma_avds(c: ContainerModel, ctx: CtxModel)
    ensures
        all_claim(c, avds(c, ctx)),
{
    lemma_builder(c);
    lemma_flat_claims::<DirModel>(c);
    assert forall|d: DirModel| all_claim(c, #[trigger] avd_unit(c, ctx, d)) by {
        lemma_avd_unit(c, ctx, d);
    }
}

/// Every unit that the Android adapter identifies.
pub(crate) proof fn lemma_identified(c: ContainerModel, ctx: CtxModel)
    ensures
        all_claim(c, Adapter.identify_spec(c, ctx)),
{
    lemma_module_build(c, ctx);
    lemma_native(c, ctx);
    lemma_sdk_packages(c, ctx);
    lemma_avds(c, ctx);
}

pub(crate) proof fn lemma_own_row(c: ContainerModel, ctx: CtxModel)
    ensures
        own_row_first(c, Adapter.identify_spec(c, ctx)),
{
    lemma_paths();
}

} // verus!
