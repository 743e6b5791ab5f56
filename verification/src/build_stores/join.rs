//! Which locations are stores an adapter identifies: what detectors declare,
//! joined with what adapters claim, and nothing else.

use crate::build_adapters::adapter::BuildAdapter;
use crate::build_adapters::container::{
    containers_view, push_container, BuildContainer, ContainerModel, DAEMON_STORE_SCHEME,
};
use crate::build_adapters::registry::{
    builtins, identifies, law_each_store_kind_has_one_adapter, owner_of, Builtin, Registry as AdapterRegistry,
};
use crate::catalog::declares;
use crate::detectors::{
    anchored, anchored_places, located_view, Detector, DetectorModel, Located, LocatedModel, Registry as DetectorRegistry,
};
use crate::docker::DockerFacts;
use crate::locations::{all_store_kinds, BuildStoreKind};
use crate::path::path_of;
use crate::text::texts;
use vstd::prelude::*;

verus! {

/// The first adapter, from place `i` on, that claims a kind of store.
pub open spec fn claimant_from(adapters: Seq<Builtin>, kind: BuildStoreKind, i: int) -> Option<Builtin>
    decreases adapters.len() - i,
{
    if i < 0 || i >= adapters.len() {
        None
    } else if identifies(adapters[i], kind) {
        Some(adapters[i])
    } else {
        claimant_from(adapters, kind, i + 1)
    }
}

/// A store: the place of its location, and its container.
pub type StoreModel = (usize, ContainerModel);

pub open spec fn already(found: Seq<StoreModel>, place: usize) -> bool {
    exists|k: int| 0 <= k < found.len() && (#[trigger] found[k]).0 == place
}

/// The stores after the first `n` places one declaration selects. A location is
/// one store: the first declaration that selects it wins.
pub open spec fn over_places(
    found: Seq<StoreModel>,
    located: Seq<LocatedModel>,
    places: Seq<usize>,
    a: Builtin,
    kind: BuildStoreKind,
    n: int,
) -> Seq<StoreModel>
    decreases n,
{
    if n <= 0 {
        found
    } else {
        let before = over_places(found, located, places, a, kind, n - 1);
        let i = places[n - 1];
        if already(before, i) {
            before
        } else {
            before.push((i, ContainerModel::of_store(a.id_spec(), located[i as int].path, Some(kind))))
        }
    }
}

pub open spec fn over_decls(
    found: Seq<StoreModel>,
    adapters: Seq<Builtin>,
    located: Seq<LocatedModel>,
    d: DetectorModel,
    n: int,
) -> Seq<StoreModel>
    decreases n,
{
    if n <= 0 {
        found
    } else {
        let before = over_decls(found, adapters, located, d, n - 1);
        let decl = d.build_stores[n - 1];
        match claimant_from(adapters, decl.kind, 0) {
            Some(a) => {
                let places = anchored(located, d.id, decl.anchor);
                over_places(before, located, places, a, decl.kind, places.len() as int)
            },
            None => before,
        }
    }
}

pub open spec fn over_detectors(
    adapters: Seq<Builtin>,
    detectors: Seq<DetectorModel>,
    located: Seq<LocatedModel>,
    n: int,
) -> Seq<StoreModel>
    decreases n,
{
    if n <= 0 {
        Seq::empty()
    } else {
        let d = detectors[n - 1];
        over_decls(
            over_detectors(adapters, detectors, located, n - 1),
            adapters,
            located,
            d,
            d.build_stores.len() as int,
        )
    }
}

/// The stores among measured locations.
pub open spec fn stores_among(
    adapters: Seq<Builtin>,
    detectors: Seq<DetectorModel>,
    located: Seq<LocatedModel>,
) -> Seq<StoreModel> {
    over_detectors(adapters, detectors, located, detectors.len() as int)
}

pub open spec fn stores_view(s: Seq<(usize, BuildContainer)>) -> Seq<StoreModel> {
    Seq::new(s.len(), |i: int| (s[i].0, s[i].1@))
}

fn claims_kind(a: Builtin, kind: BuildStoreKind) -> (r: bool)
    ensures
        r == identifies(a, kind),
{
    let kinds = a.store_kinds();
    let mut i: usize = 0;
    while i < kinds.len()
        invariant
            i <= kinds@.len(),
            kinds@ == a.store_kinds_spec(),
            forall|k: int| 0 <= k < i ==> kinds@[k] != kind,
        decreases kinds@.len() - i,
    {
        if kinds[i] == kind {
            assert(kinds@[i as int] == kind);
            return true;
        }
        i += 1;
    }
    false
}

fn find_claimant(adapters: &Vec<Builtin>, kind: BuildStoreKind) -> (r: Option<Builtin>)
    ensures
        r == claimant_from(adapters@, kind, 0),
{
    let mut i: usize = 0;
    while i < adapters.len()
        invariant
            i <= adapters@.len(),
            claimant_from(adapters@, kind, 0) == claimant_from(adapters@, kind, i as int),
        decreases adapters@.len() - i,
    {
        if claims_kind(adapters[i], kind) {
            return Some(adapters[i]);
        }
        i += 1;
    }
    None
}

fn is_there(found: &Vec<(usize, BuildContainer)>, place: usize) -> (r: bool)
    ensures
        r == already(stores_view(found@), place),
{
    let ghost all = stores_view(found@);
    let mut i: usize = 0;
    while i < found.len()
        invariant
            i <= found@.len(),
            all == stores_view(found@),
            forall|k: int| 0 <= k < i ==> (#[trigger] all[k]).0 != place,
        decreases found@.len() - i,
    {
        assert(all[i as int].0 == found@[i as int].0);
        if found[i].0 == place {
            return true;
        }
        i += 1;
    }
    false
}

fn take_places(
    found: &mut Vec<(usize, BuildContainer)>,
    located: &Vec<Located>,
    places: &Vec<usize>,
    a: Builtin,
    kind: BuildStoreKind,
)
    requires
        forall|k: int| 0 <= k < places@.len() ==> (#[trigger] places@[k]) < located@.len(),
    ensures
        stores_view(final(found)@) == over_places(
            stores_view(old(found)@),
            located_view(located@),
            places@,
            a,
            kind,
            places@.len() as int,
        ),
{
    let ghost start = stores_view(found@);
    let ghost all = located_view(located@);
    let mut i: usize = 0;
    while i < places.len()
        invariant
            i <= places@.len(),
            all == located_view(located@),
            forall|k: int| 0 <= k < places@.len() ==> (#[trigger] places@[k]) < located@.len(),
            stores_view(found@) == over_places(start, all, places@, a, kind, i as int),
        decreases places@.len() - i,
    {
        let p: usize = places[i];
        assert(places@[i as int] < located@.len());
        if !is_there(found, p) {
            assert(all[p as int] == located@[p as int]@);
            let ghost prior = found@;
            let c = BuildContainer::shared_store_of(a.id(), located[p].path.copy(), kind);
            let ghost cm = c@;
            found.push((p, c));
            assert(stores_view(found@) =~= stores_view(prior).push((p, cm)));
        }
        i += 1;
    }
}

fn take_decls(
    found: &mut Vec<(usize, BuildContainer)>,
    adapters: &Vec<Builtin>,
    located: &Vec<Located>,
    d: &Detector,
)
    ensures
        stores_view(final(found)@) == over_decls(
            stores_view(old(found)@),
            adapters@,
            located_view(located@),
            d@,
            d@.build_stores.len() as int,
        ),
{
    let ghost start = stores_view(found@);
    let ghost all = located_view(located@);
    let mut i: usize = 0;
    while i < d.build_stores.len()
        invariant
            i <= d.build_stores@.len(),
            all == located_view(located@),
            stores_view(found@) == over_decls(start, adapters@, all, d@, i as int),
        decreases d.build_stores@.len() - i,
    {
        let decl = &d.build_stores[i];
        assert(d@.build_stores[i as int] == decl@);
        match find_claimant(adapters, decl.kind) {
            Some(a) => {
                let places = anchored_places(located, d.id, &decl.anchor);
                take_places(found, located, &places, a, decl.kind);
            },
            None => {},
        }
        i += 1;
    }
}

/// The stores among measured locations: each kind of store goes to the first
/// adapter that claims it.
pub fn containers_for(
    adapters: &AdapterRegistry,
    detectors: &DetectorRegistry,
    located: &Vec<Located>,
) -> (r: Vec<(usize, BuildContainer)>)
    ensures
        stores_view(r@) == stores_among(adapters@, detectors@, located_view(located@)),
{
    let mut found: Vec<(usize, BuildContainer)> = Vec::new();
    let ghost all = located_view(located@);
    let list = detectors.detectors();
    let claims = adapters.adapters();
    let mut i: usize = 0;
    assert(stores_view(found@) =~= Seq::<StoreModel>::empty());
    assert(detectors@.len() == list@.len());
    while i < list.len()
        invariant
            i <= list@.len(),
            all == located_view(located@),
            detectors@ == crate::detectors::detectors_view(list@),
            claims@ == adapters@,
            stores_view(found@) == over_detectors(adapters@, detectors@, all, i as int),
        decreases list@.len() - i,
    {
        assert(detectors@[i as int] == list@[i as int]@);
        take_decls(&mut found, claims, located, &list[i]);
        i += 1;
    }
    found
}

// ---------------------------------------------------------------------
// Stores a daemon answers for
// ---------------------------------------------------------------------

pub open spec fn declared_by_any(detectors: Seq<DetectorModel>, kind: BuildStoreKind) -> bool {
    exists|i: int| 0 <= i < detectors.len() && declares(#[trigger] detectors[i], kind)
}

/// The stores of the builders a daemon described, of one kind, the first `n`.
pub open spec fn builder_stores(a: Builtin, kind: BuildStoreKind, builders: Seq<Seq<char>>, n: int) -> Seq<ContainerModel>
    decreases n,
{
    if n <= 0 {
        Seq::empty()
    } else {
        builder_stores(a, kind, builders, n - 1).push(
            ContainerModel::of_store(
                a.id_spec(),
                path_of(DAEMON_STORE_SCHEME@ + builders[n - 1]),
                Some(kind),
            ),
        )
    }
}

/// The daemon's stores of the first `n` kinds, in the order of the kinds.
pub open spec fn daemon_stores(
    adapters: Seq<Builtin>,
    detectors: Seq<DetectorModel>,
    builders: Seq<Seq<char>>,
    n: int,
) -> Seq<ContainerModel>
    decreases n,
{
    if n <= 0 {
        Seq::empty()
    } else {
        let kind = all_store_kinds()[n - 1];
        let before = daemon_stores(adapters, detectors, builders, n - 1);
        if kind.daemon_answered() && declared_by_any(detectors, kind) {
            match claimant_from(adapters, kind, 0) {
                Some(a) => before + builder_stores(a, kind, builders, builders.len() as int),
                None => before,
            }
        } else {
            before
        }
    }
}

fn does_declare(d: &Detector, kind: BuildStoreKind) -> (r: bool)
    ensures
        r == declares(d@, kind),
{
    let mut i: usize = 0;
    while i < d.build_stores.len()
        invariant
            i <= d.build_stores@.len(),
            forall|k: int| 0 <= k < i ==> (#[trigger] d@.build_stores[k]).kind != kind,
        decreases d.build_stores@.len() - i,
    {
        assert(d@.build_stores[i as int] == d.build_stores@[i as int]@);
        if d.build_stores[i].kind == kind {
            return true;
        }
        i += 1;
    }
    false
}

fn is_declared(list: &Vec<Detector>, kind: BuildStoreKind) -> (r: bool)
    ensures
        r == declared_by_any(crate::detectors::detectors_view(list@), kind),
{
    let ghost all = crate::detectors::detectors_view(list@);
    let mut i: usize = 0;
    while i < list.len()
        invariant
            i <= list@.len(),
            all == crate::detectors::detectors_view(list@),
            forall|k: int| 0 <= k < i ==> !declares(#[trigger] all[k], kind),
        decreases list@.len() - i,
    {
        assert(all[i as int] == list@[i as int]@);
        if does_declare(&list[i], kind) {
            return true;
        }
        i += 1;
    }
    false
}

fn push_builders(out: &mut Vec<BuildContainer>, a: Builtin, kind: BuildStoreKind, builders: &Vec<String>)
    ensures
        containers_view(final(out)@) == containers_view(old(out)@) + builder_stores(
            a,
            kind,
            texts(builders@),
            builders@.len() as int,
        ),
{
    let ghost start = containers_view(out@);
    let ghost names = texts(builders@);
    let mut i: usize = 0;
    assert(start + builder_stores(a, kind, names, 0) =~= start);
    while i < builders.len()
        invariant
            i <= builders@.len(),
            names == texts(builders@),
            containers_view(out@) == start + builder_stores(a, kind, names, i as int),
        decreases builders@.len() - i,
    {
        assert(names[i as int] == builders@[i as int]@);
        push_container(out, BuildContainer::daemon_store(a.id(), builders[i].as_str(), kind));
        i += 1;
        assert(containers_view(out@) =~= start + builder_stores(a, kind, names, i as int));
    }
}

/// The stores a daemon answers for: one for each builder it described. None
/// when the daemon could not answer; that is not an empty cache.
pub fn daemon_containers(
    adapters: &AdapterRegistry,
    detectors: &DetectorRegistry,
    facts: &DockerFacts,
) -> (r: Vec<BuildContainer>)
    ensures
        containers_view(r@) == (if facts.unavailable is Some {
            Seq::empty()
        } else {
            daemon_stores(adapters@, detectors@, texts(facts.builders@), all_store_kinds().len() as int)
        }),
{
    let mut out: Vec<BuildContainer> = Vec::new();
    assert(containers_view(out@) =~= Seq::<ContainerModel>::empty());
    if facts.unavailable.is_some() {
        return out;
    }
    let builders = facts.builder_names();
    let kinds = BuildStoreKind::all();
    let list = detectors.detectors();
    let claims = adapters.adapters();
    let ghost names = texts(facts.builders@);
    assert(names.len() == builders@.len());
    let mut i: usize = 0;
    while i < kinds.len()
        invariant
            i <= kinds@.len(),
            kinds@ == all_store_kinds(),
            names == texts(builders@),
            names.len() == builders@.len(),
            detectors@ == crate::detectors::detectors_view(list@),
            claims@ == adapters@,
            containers_view(out@) == daemon_stores(adapters@, detectors@, names, i as int),
        decreases kinds@.len() - i,
    {
        let kind = kinds[i];
        if kind.answered_by_daemon() && is_declared(list, kind) {
            match find_claimant(claims, kind) {
                Some(a) => {
                    push_builders(&mut out, a, kind, &builders);
                },
                None => {},
            }
        }
        i += 1;
    }
    out
}

// ---------------------------------------------------------------------
// Laws
// ---------------------------------------------------------------------

pub open spec fn places_once(found: Seq<StoreModel>) -> bool {
    forall|i: int, j: int| 0 <= i < j < found.len() ==> (#[trigger] found[i]).0 != (#[trigger] found[j]).0
}

proof fn lemma_places_once(
    found: Seq<StoreModel>,
    located: Seq<LocatedModel>,
    places: Seq<usize>,
    a: Builtin,
    kind: BuildStoreKind,
    n: int,
)
    requires
        places_once(found),
    ensures
        places_once(over_places(found, located, places, a, kind, n)),
    decreases n,
{
    if n > 0 {
        lemma_places_once(found, located, places, a, kind, n - 1);
    }
}

proof fn lemma_decls_once(
    found: Seq<StoreModel>,
    adapters: Seq<Builtin>,
    located: Seq<LocatedModel>,
    d: DetectorModel,
    n: int,
)
    requires
        places_once(found),
    ensures
        places_once(over_decls(found, adapters, located, d, n)),
    decreases n,
{
    if n > 0 {
        lemma_decls_once(found, adapters, located, d, n - 1);
        let decl = d.build_stores[n - 1];
        if claimant_from(adapters, decl.kind, 0) is Some {
            let places = anchored(located, d.id, decl.anchor);
            lemma_places_once(
                over_decls(found, adapters, located, d, n - 1),
                located,
                places,
                claimant_from(adapters, decl.kind, 0)->0,
                decl.kind,
                places.len() as int,
            );
        }
    }
}

/// A location is one store, whatever declarations select it.
pub proof fn law_a_location_is_one_store(
    adapters: Seq<Builtin>,
    detectors: Seq<DetectorModel>,
    located: Seq<LocatedModel>,
    n: int,
)
    ensures
        places_once(over_detectors(adapters, detectors, located, n)),
    decreases n,
{
    if n > 0 {
        law_a_location_is_one_store(adapters, detectors, located, n - 1);
        let d = detectors[n - 1];
        lemma_decls_once(
            over_detectors(adapters, detectors, located, n - 1),
            adapters,
            located,
            d,
            d.build_stores.len() as int,
        );
    }
}

proof fn lemma_claimant(kind: BuildStoreKind, i: int)
    requires
        0 <= i,
        exists|k: int| i <= k < builtins().len() && builtins()[k] == owner_of(kind),
    ensures
        claimant_from(builtins(), kind, i) == Some(owner_of(kind)),
    decreases builtins().len() - i,
{
    law_each_store_kind_has_one_adapter(builtins()[i], kind);
    if builtins()[i] != owner_of(kind) {
        lemma_claimant(kind, i + 1);
    }
}

spec fn claimant_place(kind: BuildStoreKind) -> int {
    match owner_of(kind) {
        Builtin::Cargo => 0,
        Builtin::Node => 1,
        Builtin::Android => 2,
        Builtin::Gradle => 3,
        Builtin::Maven => 4,
        Builtin::Python => 5,
        Builtin::Go => 6,
        Builtin::XcodeSwift => 7,
        Builtin::DockerBuildkit => 8,
    }
}

/// Every kind of store a detector may declare reaches the one adapter that
/// identifies it.
pub proof fn law_every_kind_reaches_its_adapter(kind: BuildStoreKind)
    ensures
        claimant_from(builtins(), kind, 0) == Some(owner_of(kind)),
{
    assert(builtins()[claimant_place(kind)] == owner_of(kind));
    lemma_claimant(kind, 0);
}

} // verus!
