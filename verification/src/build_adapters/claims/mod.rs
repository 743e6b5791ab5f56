//! What every unit that an adapter identifies may claim.

use super::adapter::{flat, BuildAdapter};
use super::builder::layout_source;
use super::container::{group_entry, group_of, grouped, groups_stored, ContainerModel, DirModel};
use super::context::{law_a_replayed_container_is_verified_again, written_by, CtxModel};
use super::identify::{
    emitted, law_the_first_emitted_stays, offered, offered_all, one_per_path, over_adapters, over_project,
    over_projects, over_stores, removable, units_by_path, units_for, PassModel,
};
use super::registry::Builtin;
use crate::artifact::{
    law_different_paths_have_different_ids, relative, unit_id, AccountingBasis, ArtifactRole, Confidence, Membership, TimeSource, UnitModel, VariantModel,
};
use crate::build_stores::rows::{decoded, encoded, law_units_read_back, sources_clean, storable, stored};
use crate::facts::{FactModel, StatModel};
use crate::path::{has_path, inside, same_opt, same_path, within, PathModel};
use crate::text::free_of;
use vstd::prelude::*;

pub mod android;
pub mod go;
pub mod gradle;
pub mod node;
pub mod python;
pub mod xcode_swift;

verus! {

/// Whether a unit is what it may be: its container's and its adapter's own,
/// with bytes on a stated basis, a modification from a stated source, a reason
/// for every claim to understand its layout, no charge, no history and no facts
/// of a report, and not offered for removal.
pub open spec fn grounded(c: ContainerModel, u: UnitModel) -> bool {
    &&& u.container_id == Some(c.scope())
    &&& u.adapter == Some(c.adapter_id)
    &&& u.id == unit_id(c.scope(), relative(c.path, u.path))
    &&& u.relative_path == relative(c.path, u.path)
    &&& u.present
    &&& u.growth_bytes is None
    &&& u.regrowth_count == 0
    &&& u.decision_evidence.len() == 0
    &&& u.physical_bytes == 0
    &&& u.physical_total == 0
    &&& u.bytes > 0 ==> u.basis != AccountingBasis::Unknown
    &&& u.mtime_max > 0 ==> u.time_source != TimeSource::Unknown
    &&& u.coverage.supported ==> u.producer_evidence.len() > 0
    &&& plain(c.adapter_id) ==> sources_clean(u.producer_evidence)
    &&& u.consumer_evidence.len() == 0
    &&& !(u.action is TrashPath)
}

/// Whether a unit says what is known of its layout: it is understood, or a
/// limit is named.
pub open spec fn said(u: UnitModel) -> bool {
    u.coverage.supported || u.coverage.limits.len() > 0
}

/// What holds of every unit that is identified in a container.
pub open spec fn claims(c: ContainerModel, u: UnitModel) -> bool {
    grounded(c, u) && said(u)
}

pub open spec fn all_claim(c: ContainerModel, units: Seq<UnitModel>) -> bool {
    forall|i: int| 0 <= i < units.len() ==> claims(c, #[trigger] units[i])
}

/// Whether a text holds no mark between the parts of a stored statement.
pub open spec fn plain(t: Seq<char>) -> bool {
    free_of(t, '\u{1}')
}

proof fn lemma_sources()
    ensures
        plain("android-layout"@),
        plain("android-source-properties"@),
        plain("go-build-cache"@),
        plain("go-layout"@),
        plain("go-module-path"@),
        plain("go-modules-txt"@),
        plain("gradle-layout"@),
        plain("gradle-modules"@),
        plain("gradle-wrapper"@),
        plain("node-layout"@),
        plain("node-package-json"@),
        plain("node-store"@),
        plain("python-direct-url"@),
        plain("python-dist-info"@),
        plain("python-distribution-name"@),
        plain("python-layout"@),
        plain("python-pkg-info"@),
        plain("python-pyvenv-cfg"@),
        plain("python-store"@),
        plain("swiftpm-workspace-state"@),
        plain("xcode-info-plist"@),
{
    assert(plain("android-layout"@)) by {
        reveal_strlit("android-layout");
    }
    assert(plain("android-source-properties"@)) by {
        reveal_strlit("android-source-properties");
    }
    assert(plain("go-build-cache"@)) by {
        reveal_strlit("go-build-cache");
    }
    assert(plain("go-layout"@)) by {
        reveal_strlit("go-layout");
    }
    assert(plain("go-module-path"@)) by {
        reveal_strlit("go-module-path");
    }
    assert(plain("go-modules-txt"@)) by {
        reveal_strlit("go-modules-txt");
    }
    assert(plain("gradle-layout"@)) by {
        reveal_strlit("gradle-layout");
    }
    assert(plain("gradle-modules"@)) by {
        reveal_strlit("gradle-modules");
    }
    assert(plain("gradle-wrapper"@)) by {
        reveal_strlit("gradle-wrapper");
    }
    assert(plain("node-layout"@)) by {
        reveal_strlit("node-layout");
    }
    assert(plain("node-package-json"@)) by {
        reveal_strlit("node-package-json");
    }
    assert(plain("node-store"@)) by {
        reveal_strlit("node-store");
    }
    assert(plain("python-direct-url"@)) by {
        reveal_strlit("python-direct-url");
    }
    assert(plain("python-dist-info"@)) by {
        reveal_strlit("python-dist-info");
    }
    assert(plain("python-distribution-name"@)) by {
        reveal_strlit("python-distribution-name");
    }
    assert(plain("python-layout"@)) by {
        reveal_strlit("python-layout");
    }
    assert(plain("python-pkg-info"@)) by {
        reveal_strlit("python-pkg-info");
    }
    assert(plain("python-pyvenv-cfg"@)) by {
        reveal_strlit("python-pyvenv-cfg");
    }
    assert(plain("python-store"@)) by {
        reveal_strlit("python-store");
    }
    assert(plain("swiftpm-workspace-state"@)) by {
        reveal_strlit("swiftpm-workspace-state");
    }
    assert(plain("xcode-info-plist"@)) by {
        reveal_strlit("xcode-info-plist");
    }
}

proof fn lemma_layout_source(id: Seq<char>)
    requires
        plain(id),
    ensures
        plain(layout_source(id)),
{
    reveal_strlit("-layout");
    let tail = "-layout"@;
    assert forall|i: int| 0 <= i < (id + tail).len() implies #[trigger] (id + tail)[i] != '\u{1}' by {
        if i < id.len() {
            assert(id.contains(id[i]));
        }
    }
}

/// A unit begins grounded, and everything an adapter says of it keeps it so.
pub(crate) proof fn lemma_builder(c: ContainerModel)
    ensures
        plain("android-layout"@),
        plain("android-source-properties"@),
        plain("go-build-cache"@),
        plain("go-layout"@),
        plain("go-module-path"@),
        plain("go-modules-txt"@),
        plain("gradle-layout"@),
        plain("gradle-modules"@),
        plain("gradle-wrapper"@),
        plain("node-layout"@),
        plain("node-package-json"@),
        plain("node-store"@),
        plain("python-direct-url"@),
        plain("python-dist-info"@),
        plain("python-distribution-name"@),
        plain("python-layout"@),
        plain("python-pkg-info"@),
        plain("python-pyvenv-cfg"@),
        plain("python-store"@),
        plain("swiftpm-workspace-state"@),
        plain("xcode-info-plist"@),
        forall|r: ArtifactRole, p: PathModel| grounded(c, #[trigger] UnitModel::blank(c, r, p)),
        forall|u: UnitModel, reason: Seq<char>|
            #![trigger u.supported(reason)]
            grounded(c, u) ==> grounded(c, u.supported(reason)) && said(u.supported(reason)),
        forall|u: UnitModel, limit: Seq<char>|
            #![trigger u.unsupported_layout(limit)]
            grounded(c, u) ==> grounded(c, u.unsupported_layout(limit)) && said(u.unsupported_layout(limit)),
        forall|u: UnitModel, b: bool|
            #![trigger u.complete(b)]
            grounded(c, u) ==> grounded(c, u.complete(b)) && (said(u) ==> said(u.complete(b))),
        forall|u: UnitModel, limit: Seq<char>|
            #![trigger u.limit(limit)]
            grounded(c, u) ==> grounded(c, u.limit(limit)) && said(u.limit(limit)),
        forall|u: UnitModel, b: bool|
            #![trigger u.is_dir(b)]
            grounded(c, u) ==> grounded(c, u.is_dir(b)) && (said(u) ==> said(u.is_dir(b))),
        forall|u: UnitModel, d: DirModel|
            #![trigger u.folded(d)]
            grounded(c, u) ==> grounded(c, u.folded(d)) && (said(u) ==> said(u.folded(d))),
        forall|u: UnitModel, m: StatModel|
            #![trigger u.file_metadata(m)]
            grounded(c, u) ==> grounded(c, u.file_metadata(m)) && (said(u) ==> said(u.file_metadata(m))),
        forall|u: UnitModel, m: Membership|
            #![trigger u.membership(m)]
            grounded(c, u) ==> grounded(c, u.membership(m)) && (said(u) ==> said(u.membership(m))),
        forall|u: UnitModel, v: VariantModel|
            #![trigger u.variant(v)]
            grounded(c, u) ==> grounded(c, u.variant(v)) && (said(u) ==> said(u.variant(v))),
        forall|u: UnitModel, s: Seq<char>, t: Seq<char>, k: Confidence|
            #![trigger u.evidence(s, t, k)]
            grounded(c, u) && plain(s) ==> grounded(c, u.evidence(s, t, k)) && (said(u) ==> said(u.evidence(s, t, k))),
        forall|u: UnitModel, t: Seq<char>|
            #![trigger u.consequence(t)]
            grounded(c, u) ==> grounded(c, u.consequence(t)) && (said(u) ==> said(u.consequence(t))),
        forall|u: UnitModel, t: Seq<char>|
            #![trigger u.no_action_because(t)]
            grounded(c, u) ==> grounded(c, u.no_action_because(t)) && (said(u) ==> said(u.no_action_because(t))),
        forall|u: UnitModel, t: Seq<char>|
            #![trigger u.action_group(t)]
            grounded(c, u) ==> grounded(c, u.action_group(t)) && (said(u) ==> said(u.action_group(t))),
        forall|u: UnitModel, r: ArtifactRole|
            #![trigger u.role(r)]
            grounded(c, u) ==> grounded(c, u.role(r)) && (said(u) ==> said(u.role(r))),
        forall|u: UnitModel, b: bool|
            #![trigger u.complete_only_if(b)]
            grounded(c, u) ==> grounded(c, u.complete_only_if(b)) && (said(u) ==> said(u.complete_only_if(b))),
        forall|u: UnitModel, m: Seq<char>, n: u64, t: Option<u64>|
            #![trigger u.reported_by_manager(m, n, t)]
            grounded(c, u) ==> grounded(c, u.reported_by_manager(m, n, t)) && (said(u) ==> said(
                u.reported_by_manager(m, n, t),
            )),
        forall|u: UnitModel, l: PathModel, t: Seq<char>|
            #![trigger u.writer_lock(l, t)]
            grounded(c, u) ==> grounded(c, u.writer_lock(l, t)) && said(u.writer_lock(l, t)),
        forall|r: ArtifactRole, d: DirModel, s: Seq<char>, t: Seq<char>|
            claims(c, #[trigger] UnitModel::known_dir(c, r, d, s, t)),
        forall|d: DirModel, t: Seq<char>| claims(c, #[trigger] UnitModel::unknown_dir(c, d, t)),
        forall|ctx: CtxModel, r: ArtifactRole| grounded(c, #[trigger] UnitModel::container_root(c, ctx, r)),
{
    lemma_sources();
    if plain(c.adapter_id) {
        lemma_layout_source(c.adapter_id);
    }
    reveal(UnitModel::blank);
    reveal(UnitModel::known_dir);
    reveal(UnitModel::unknown_dir);
    reveal(UnitModel::container_root);
    reveal(UnitModel::supported);
    reveal(UnitModel::unsupported_layout);
    reveal(UnitModel::complete);
    reveal(UnitModel::limit);
    reveal(UnitModel::is_dir);
    reveal(UnitModel::folded);
    reveal(UnitModel::file_metadata);
    reveal(UnitModel::membership);
    reveal(UnitModel::variant);
    reveal(UnitModel::evidence);
    reveal(UnitModel::consequence);
    reveal(UnitModel::no_action_because);
    reveal(UnitModel::action_group);
    reveal(UnitModel::role);
    reveal(UnitModel::complete_only_if);
    reveal(UnitModel::reported_by_manager);
    reveal(UnitModel::writer_lock);
}

proof fn lemma_flat_claims_upto<T>(c: ContainerModel, s: Seq<T>, f: spec_fn(T) -> Seq<UnitModel>)
    requires
        forall|x: T| all_claim(c, #[trigger] f(x)),
    ensures
        all_claim(c, flat(s, f)),
    decreases s.len(),
{
    if s.len() > 0 {
        lemma_flat_claims_upto(c, s.drop_last(), f);
        assert(all_claim(c, f(s.last())));
    }
}

pub(crate) proof fn lemma_flat_claims<T>(c: ContainerModel)
    ensures
        forall|s: Seq<T>, f: spec_fn(T) -> Seq<UnitModel>|
            (forall|x: T| all_claim(c, #[trigger] f(x))) ==> all_claim(c, #[trigger] flat(s, f)),
{
    assert forall|s: Seq<T>, f: spec_fn(T) -> Seq<UnitModel>|
        (forall|x: T| all_claim(c, #[trigger] f(x))) implies all_claim(c, #[trigger] flat(s, f)) by {
        lemma_flat_claims_upto(c, s, f);
    }
}

/// A unit stays at the path that it began with.
pub(crate) proof fn lemma_paths()
    ensures
        forall|c: ContainerModel, r: ArtifactRole, p: PathModel| (#[trigger] UnitModel::blank(c, r, p)).path == p,
        forall|c: ContainerModel, ctx: CtxModel, r: ArtifactRole|
            (#[trigger] UnitModel::container_root(c, ctx, r)).path == c.path,
        forall|u: UnitModel, reason: Seq<char>| (#[trigger] u.supported(reason)).path == u.path,
        forall|u: UnitModel, limit: Seq<char>| (#[trigger] u.unsupported_layout(limit)).path == u.path,
        forall|u: UnitModel, b: bool| (#[trigger] u.complete(b)).path == u.path,
        forall|u: UnitModel, limit: Seq<char>| (#[trigger] u.limit(limit)).path == u.path,
        forall|u: UnitModel, b: bool| (#[trigger] u.is_dir(b)).path == u.path,
        forall|u: UnitModel, d: DirModel| (#[trigger] u.folded(d)).path == u.path,
        forall|u: UnitModel, m: StatModel| (#[trigger] u.file_metadata(m)).path == u.path,
        forall|u: UnitModel, m: Membership| (#[trigger] u.membership(m)).path == u.path,
        forall|u: UnitModel, v: VariantModel| (#[trigger] u.variant(v)).path == u.path,
        forall|u: UnitModel, s: Seq<char>, t: Seq<char>, k: Confidence| (#[trigger] u.evidence(s, t, k)).path == u.path,
        forall|u: UnitModel, t: Seq<char>| (#[trigger] u.consequence(t)).path == u.path,
        forall|u: UnitModel, t: Seq<char>| (#[trigger] u.no_action_because(t)).path == u.path,
        forall|u: UnitModel, t: Seq<char>| (#[trigger] u.action_group(t)).path == u.path,
        forall|u: UnitModel, r: ArtifactRole| (#[trigger] u.role(r)).path == u.path,
        forall|u: UnitModel, b: bool| (#[trigger] u.complete_only_if(b)).path == u.path,
        forall|u: UnitModel, m: Seq<char>, n: u64, t: Option<u64>|
            (#[trigger] u.reported_by_manager(m, n, t)).path == u.path,
        forall|u: UnitModel, l: PathModel, t: Seq<char>| (#[trigger] u.writer_lock(l, t)).path == u.path,
{
    reveal(UnitModel::blank);
    reveal(UnitModel::container_root);
    reveal(UnitModel::supported);
    reveal(UnitModel::unsupported_layout);
    reveal(UnitModel::complete);
    reveal(UnitModel::limit);
    reveal(UnitModel::is_dir);
    reveal(UnitModel::folded);
    reveal(UnitModel::file_metadata);
    reveal(UnitModel::membership);
    reveal(UnitModel::variant);
    reveal(UnitModel::evidence);
    reveal(UnitModel::consequence);
    reveal(UnitModel::no_action_because);
    reveal(UnitModel::action_group);
    reveal(UnitModel::role);
    reveal(UnitModel::complete_only_if);
    reveal(UnitModel::reported_by_manager);
    reveal(UnitModel::writer_lock);
}

/// Whether a list begins with the container's own row.
pub open spec fn own_row_first(c: ContainerModel, units: Seq<UnitModel>) -> bool {
    units.len() > 0 && same_path(units[0].path, c.path)
}

/// Every unit that an adapter identifies is the container's and the adapter's
/// own, states what its bytes and its age rest on, says why its layout is
/// understood or that it is not, and is neither charged nor offered.
pub proof fn law_every_claim_is_grounded(a: Builtin, c: ContainerModel, ctx: CtxModel)
    ensures
        all_claim(c, a.identify_spec(c, ctx)),
{
    lemma_builder(c);
    match a {
        Builtin::Android => android::lemma_identified(c, ctx),
        Builtin::Go => go::lemma_identified(c, ctx),
        Builtin::Gradle => gradle::lemma_identified(c, ctx),
        Builtin::Node => node::lemma_identified(c, ctx),
        Builtin::Python => python::lemma_identified(c, ctx),
        Builtin::XcodeSwift => xcode_swift::lemma_identified(c, ctx),
        Builtin::Cargo => {},
        Builtin::Maven => {},
        Builtin::DockerBuildkit => {},
    }
}

/// Whether a container has no row of its own: a project that stands for its
/// loose files, or a build folder that the walk did not measure itself.
pub open spec fn rowless(a: Builtin, c: ContainerModel, ctx: CtxModel) -> bool {
    match a {
        Builtin::Node => !c.shared && same_opt(c.project_root, c.path),
        Builtin::Python => !c.shared && same_opt(c.project_root, c.path),
        Builtin::XcodeSwift => xcode_swift::unmeasured_folder(c, ctx),
        _ => false,
    }
}

/// A container is never an empty result: its own row comes first, whatever is
/// understood of it.
pub proof fn law_a_container_has_its_own_row(a: Builtin, c: ContainerModel, ctx: CtxModel)
    requires
        !rowless(a, c, ctx),
    ensures
        own_row_first(c, a.identify_spec(c, ctx)),
{
    lemma_paths();
    match a {
        Builtin::Android => android::lemma_own_row(c, ctx),
        Builtin::Go => go::lemma_own_row(c, ctx),
        Builtin::Gradle => gradle::lemma_own_row(c, ctx),
        Builtin::Node => node::lemma_own_row(c, ctx),
        Builtin::Python => python::lemma_own_row(c, ctx),
        Builtin::XcodeSwift => xcode_swift::lemma_own_row(c, ctx),
        Builtin::Cargo => {},
        Builtin::Maven => {},
        Builtin::DockerBuildkit => {},
    }
}

proof fn lemma_no_group(units: Seq<UnitModel>, scope: Seq<char>)
    requires
        forall|i: int| 0 <= i < units.len() ==> group_of(#[trigger] units[i]) != scope,
    ensures
        grouped(units, scope) == Seq::<UnitModel>::empty(),
    decreases units.len(),
{
    reveal(Seq::filter);
    if units.len() > 0 {
        lemma_no_group(units.drop_last(), scope);
    }
}

proof fn lemma_one_group(units: Seq<UnitModel>, scope: Seq<char>)
    requires
        forall|i: int| 0 <= i < units.len() ==> group_of(#[trigger] units[i]) == scope,
    ensures
        grouped(units, scope) == units,
    decreases units.len(),
{
    reveal(Seq::filter);
    if units.len() > 0 {
        lemma_one_group(units.drop_last(), scope);
        assert(units =~= units.drop_last().push(units.last()));
    }
}

proof fn lemma_told(a: Builtin, c: ContainerModel, ctx: CtxModel)
    ensures
        forall|i: int|
            0 <= i < a.identify_spec(c, ctx).len() ==> {
                let u = #[trigger] offered_all(a, c, a.identify_spec(c, ctx))[i];
                group_of(u) == c.scope() && u.adapter == Some(c.adapter_id) && offered(a, c, u) == u
            },
{
    let found = a.identify_spec(c, ctx);
    law_every_claim_is_grounded(a, c, ctx);
    assert forall|i: int| 0 <= i < found.len() implies {
        let u = #[trigger] offered_all(a, c, found)[i];
        group_of(u) == c.scope() && u.adapter == Some(c.adapter_id) && offered(a, c, u) == u
    } by {
        assert(claims(c, found[i]));
        reveal(UnitModel::trash_path);
    }
}

/// A container that is unchanged keeps its units: what was identified and
/// offered in a pass, kept among the units of other containers, is what the next
/// pass gives where its events show that nothing under the container changed.
pub proof fn law_an_unchanged_container_keeps_its_units(
    a: Builtin,
    c: ContainerModel,
    before: CtxModel,
    first: Seq<UnitModel>,
    rest: Seq<UnitModel>,
    at: u64,
    ctx: CtxModel,
)
    requires
        forall|i: int| 0 <= i < first.len() ==> group_of(#[trigger] first[i]) != c.scope(),
        forall|i: int| 0 <= i < rest.len() ==> group_of(#[trigger] rest[i]) != c.scope(),
        a.identify_spec(c, before).len() > 0,
        ctx.cache.enabled,
        groups_stored(ctx.cache, first + offered_all(a, c, a.identify_spec(c, before)) + rest, at),
        ctx.coverage.unchanged_since(c.path, at),
    ensures
        offered_all(a, c, units_for(a, c, ctx)) == offered_all(a, c, a.identify_spec(c, before)),
{
    let found = a.identify_spec(c, before);
    let told = offered_all(a, c, found);
    lemma_told(a, c, before);
    let all = first + told + rest;
    let scope = c.scope();
    let mine = |u: UnitModel| group_of(u) == scope;
    Seq::filter_distributes_over_add(first + told, rest, mine);
    Seq::filter_distributes_over_add(first, told, mine);
    lemma_no_group(first, scope);
    lemma_one_group(told, scope);
    lemma_no_group(rest, scope);
    assert(grouped(all, scope) =~= told);
    assert(ctx.cache.entry(scope) == group_entry(all, scope, at));
    assert(written_by(told, c.adapter_id));
    assert(units_for(a, c, ctx) == told);
    assert(offered_all(a, c, told) =~= told);
}

/// Whether an adapter stands behind removing a unit as an exact path: it names
/// the unit's role, the unit lies inside the project and in no shared store, its
/// layout is understood and what it costs to get back is stated.
pub open spec fn backs(a: Builtin, c: ContainerModel, u: UnitModel) -> bool {
    &&& a.trash_roles_spec().contains(u.role)
    &&& c.project_root matches Some(root) && inside(u.path, root)
    &&& !c.shared
    &&& u.coverage.supported
    &&& u.consequence is Some
}

/// Whether a unit is offered for removal only where an adapter stands behind it.
pub open spec fn backed(u: UnitModel) -> bool {
    u.action is TrashPath ==> exists|a: Builtin, c: ContainerModel| #[trigger] backs(a, c, u)
}

pub open spec fn all_backed(units: Seq<UnitModel>) -> bool {
    forall|i: int| 0 <= i < units.len() ==> backed(#[trigger] units[i])
}

/// Whether nothing that may be replayed is offered unbacked.
pub open spec fn replays_backed(ctx: CtxModel) -> bool {
    forall|c: ContainerModel| #[trigger] ctx.replayed(c) matches Some(units) ==> all_backed(units)
}

proof fn lemma_units_backed(a: Builtin, c: ContainerModel, ctx: CtxModel)
    requires
        replays_backed(ctx),
    ensures
        all_backed(units_for(a, c, ctx)),
        all_backed(offered_all(a, c, units_for(a, c, ctx))),
{
    let units = units_for(a, c, ctx);
    assert forall|i: int| 0 <= i < units.len() implies backed(#[trigger] units[i]) by {
        if ctx.replayed(c) is None {
            law_every_claim_is_grounded(a, c, ctx);
            assert(claims(c, a.identify_spec(c, ctx)[i]));
        }
    }
    let told = offered_all(a, c, units);
    reveal(UnitModel::trash_path);
    assert forall|i: int| 0 <= i < told.len() implies backed(#[trigger] told[i]) by {
        assert(backed(units[i]));
        if removable(a, c, units[i]) {
            assert(backs(a, c, told[i]));
        }
    }
}

proof fn lemma_still_backed(c: ContainerModel, ctx: CtxModel)
    requires
        replays_backed(ctx),
    ensures
        replays_backed(ctx.after(c)),
{
    assert forall|d: ContainerModel| (#[trigger] ctx.after(c).replayed(d)) is Some implies all_backed(
        ctx.after(c).replayed(d)->0,
    ) by {
        if ctx.replayed(c) is Some {
            law_a_replayed_container_is_verified_again(ctx, c, d.scope());
            assert(ctx.replayed(d) is Some ==> all_backed(ctx.replayed(d)->0));
            assert(all_backed(ctx.replayed(c)->0));
        }
    }
}

/// Whether nothing is offered unbacked so far, and nothing that is left to
/// replay either.
spec fn pass_backed(p: PassModel, ctx: CtxModel) -> bool {
    all_backed(p.out) && replays_backed(p.now(ctx))
}

proof fn lemma_visit_backed(a: Builtin, c: ContainerModel, ctx: CtxModel, p: PassModel, offer: bool)
    requires
        pass_backed(p, ctx),
    ensures
        pass_backed(p.visit(a, c, ctx, offer), ctx),
{
    lemma_units_backed(a, c, p.now(ctx));
    lemma_still_backed(c, p.now(ctx));
    if !has_path(p.claimed, c.path) {
        assert(p.visit(a, c, ctx, offer).now(ctx) == p.now(ctx).after(c));
    }
}

proof fn lemma_project_backed(a: Builtin, list: Seq<ContainerModel>, ctx: CtxModel, p: PassModel, n: int)
    requires
        pass_backed(p, ctx),
    ensures
        pass_backed(over_project(a, list, ctx, p, n), ctx),
    decreases n,
{
    if n > 0 {
        lemma_project_backed(a, list, ctx, p, n - 1);
        lemma_visit_backed(a, list[n - 1], ctx, over_project(a, list, ctx, p, n - 1), true);
    }
}

proof fn lemma_projects_backed(
    a: Builtin,
    projects: Seq<(PathModel, Seq<PathModel>)>,
    markers: Seq<FactModel>,
    ctx: CtxModel,
    p: PassModel,
    n: int,
)
    requires
        pass_backed(p, ctx),
    ensures
        pass_backed(over_projects(a, projects, markers, ctx, p, n), ctx),
    decreases n,
{
    if n > 0 {
        lemma_projects_backed(a, projects, markers, ctx, p, n - 1);
        let list = a.containers_spec(projects[n - 1].0, projects[n - 1].1, markers);
        lemma_project_backed(
            a,
            list,
            ctx,
            over_projects(a, projects, markers, ctx, p, n - 1),
            list.len() as int,
        );
    }
}

proof fn lemma_stores_backed(a: Builtin, shared: Seq<ContainerModel>, ctx: CtxModel, p: PassModel, n: int)
    requires
        pass_backed(p, ctx),
    ensures
        pass_backed(over_stores(a, shared, ctx, p, n), ctx),
    decreases n,
{
    if n > 0 {
        lemma_stores_backed(a, shared, ctx, p, n - 1);
        lemma_visit_backed(a, shared[n - 1], ctx, over_stores(a, shared, ctx, p, n - 1), false);
    }
}

proof fn lemma_pass_backed(
    adapters: Seq<Builtin>,
    projects: Seq<(PathModel, Seq<PathModel>)>,
    markers: Seq<FactModel>,
    shared: Seq<ContainerModel>,
    ctx: CtxModel,
    n: int,
)
    requires
        replays_backed(ctx),
    ensures
        pass_backed(over_adapters(adapters, projects, markers, shared, ctx, n), ctx),
    decreases n,
{
    if n > 0 {
        lemma_pass_backed(adapters, projects, markers, shared, ctx, n - 1);
        let a = adapters[n - 1];
        let p = over_adapters(adapters, projects, markers, shared, ctx, n - 1);
        lemma_projects_backed(a, projects, markers, ctx, p, projects.len() as int);
        let q = over_projects(a, projects, markers, ctx, p, projects.len() as int);
        lemma_stores_backed(a, shared, ctx, q, shared.len() as int);
    } else {
        assert(PassModel::begin(ctx).now(ctx) == ctx);
    }
}

/// A pass offers nothing for removal unless an adapter stands behind it, as long
/// as nothing that it may replay was offered otherwise.
pub proof fn law_only_backed_units_are_offered(
    adapters: Seq<Builtin>,
    projects: Seq<(PathModel, Seq<PathModel>)>,
    markers: Seq<FactModel>,
    shared: Seq<ContainerModel>,
    ctx: CtxModel,
    i: int,
)
    requires
        replays_backed(ctx),
        emitted(adapters, projects, markers, shared, ctx).len() <= usize::MAX,
        0 <= i < one_per_path(units_by_path(emitted(adapters, projects, markers, shared, ctx))).len(),
    ensures
        backed(one_per_path(units_by_path(emitted(adapters, projects, markers, shared, ctx)))[i]),
{
    lemma_pass_backed(adapters, projects, markers, shared, ctx, adapters.len() as int);
    law_the_first_emitted_stays(emitted(adapters, projects, markers, shared, ctx), i);
}

proof fn lemma_adapter_ids(a: Builtin)
    ensures
        plain(a.id_spec()),
{
    reveal_strlit("android");
    reveal_strlit("cargo");
    reveal_strlit("docker-buildkit");
    reveal_strlit("go");
    reveal_strlit("gradle");
    reveal_strlit("maven");
    reveal_strlit("node");
    reveal_strlit("python");
    reveal_strlit("xcode-swift");
}

/// What an adapter identified in its container is read back from what is kept
/// of it just as it was, as long as it gave each path one unit.
pub proof fn law_what_is_identified_reads_back(a: Builtin, c: ContainerModel, ctx: CtxModel)
    requires
        c.adapter_id == a.id_spec(),
        forall|i: int| 0 <= i < a.identify_spec(c, ctx).len() ==> within(
            (#[trigger] a.identify_spec(c, ctx)[i]).path,
            c.path,
        ),
        forall|i: int, j: int|
            0 <= i < j < a.identify_spec(c, ctx).len() ==> !same_path(
                (#[trigger] a.identify_spec(c, ctx)[i]).path,
                (#[trigger] a.identify_spec(c, ctx)[j]).path,
            ),
    ensures
        decoded(encoded(a.identify_spec(c, ctx))) == a.identify_spec(c, ctx),
{
    let units = a.identify_spec(c, ctx);
    law_every_claim_is_grounded(a, c, ctx);
    lemma_adapter_ids(a);
    assert forall|i: int| 0 <= i < units.len() implies storable(#[trigger] units[i]) by {
        assert(claims(c, units[i]));
    }
    assert forall|i: int, j: int| 0 <= i < j < units.len() implies (#[trigger] units[i]).id != (
    #[trigger] units[j]).id by {
        assert(claims(c, units[i]) && claims(c, units[j]));
        law_different_paths_have_different_ids(c.scope(), c.path, units[i].path, units[j].path);
    }
    law_units_read_back(units);
    assert forall|i: int| 0 <= i < units.len() implies stored(#[trigger] units[i]) == units[i] by {
        assert(units[i].decision_evidence =~= Seq::empty());
        assert(claims(c, units[i]));
    }
    assert(units.map_values(|u: UnitModel| stored(u)) =~= units);
}

} // verus!
