//! What a match comes to: a unit is named for a package or a version only where
//! it holds just that.

use super::caches::{DeclarationModel, IdentityModel};
use super::matching::{
    contributing, found_in, holder, holders, holders_in, installed_for, installed_in, listing_from, over_catalog,
    over_conventions, resolved_name, satisfies, version_dir, versions_in, AnswerModel, EntryFound, InstalledModel,
    ListingModel, NamedModel,
};
use crate::detectors::{
    anchored, anchored_upto, AnchorModel, ConventionModel, DetectorModel, InstalledVersionLayout, LocatedModel,
    RoleModel,
};
use crate::locations::StorageCategory;
use crate::path::{file_name, joined_path, same_path, PathModel};
use vstd::prelude::*;

verus! {

/// Whether a package is among what was found in a unit: in that store, of that
/// ecosystem, by that name and in that version.
pub open spec fn found_there(u: LocatedModel, id: IdentityModel, entries: Seq<EntryFound>) -> bool {
    exists|k: int|
        0 <= k < entries.len() && {
            let e = #[trigger] entries[k];
            &&& same_path(e.store, u.path)
            &&& e.ecosystem == id.ecosystem
            &&& e.name == id.name
            &&& e.version == id.version
        }
}

/// Whether a detector keeps packages of an ecosystem in a store that can be
/// asked for one.
pub open spec fn keeps(d: DetectorModel, ecosystem: Seq<char>) -> bool {
    exists|c: int| 0 <= c < d.manager_conventions.len() && keeps_by(#[trigger] d.manager_conventions[c], ecosystem)
}

pub open spec fn keeps_by(c: ConventionModel, ecosystem: Seq<char>) -> bool {
    &&& c.tool == Some(ecosystem)
    &&& c.role matches RoleModel::DependencyStore { lookup, .. } && lookup !is ContentAddressed && lookup !is WholeStore
}

/// Whether unit `p` is rightly named as the holder of a package.
pub open spec fn rightly_named(
    units: Seq<LocatedModel>,
    detectors: Seq<DetectorModel>,
    id: IdentityModel,
    entries: Seq<EntryFound>,
    p: usize,
) -> bool {
    &&& p < units.len()
    &&& found_there(units[p as int], id, entries)
    &&& exists|d: int|
        0 <= d < detectors.len() && units[p as int].detector_id == (#[trigger] detectors[d]).id && keeps(
            detectors[d],
            id.ecosystem,
        )
}

proof fn lemma_anchored(list: Seq<LocatedModel>, id: Seq<char>, anchor: AnchorModel, n: int)
    requires
        0 <= n <= list.len() <= usize::MAX,
    ensures
        forall|k: int|
            0 <= k < anchored_upto(list, id, anchor, n).len() ==> {
                let p = #[trigger] anchored_upto(list, id, anchor, n)[k];
                p < n && list[p as int].detector_id == id
            },
    decreases n,
{
    if n > 0 {
        lemma_anchored(list, id, anchor, n - 1);
    }
}

proof fn lemma_holders_in(
    units: Seq<LocatedModel>,
    d: DetectorModel,
    id: IdentityModel,
    entries: Seq<EntryFound>,
    n: int,
)
    requires
        units.len() <= usize::MAX,
        0 <= n <= d.manager_conventions.len(),
    ensures
        forall|k: int|
            0 <= k < holders_in(units, d, id, entries, n).len() ==> {
                let p = #[trigger] holders_in(units, d, id, entries, n)[k];
                &&& p < units.len()
                &&& found_there(units[p as int], id, entries)
                &&& units[p as int].detector_id == d.id
                &&& keeps(d, id.ecosystem)
            },
    decreases n,
{
    if n > 0 {
        lemma_holders_in(units, d, id, entries, n - 1);
        let c = d.manager_conventions[n - 1];
        match c.role {
            RoleModel::DependencyStore { anchor, lookup } => {
                if holder(units, d.id, c, id, entries) is Some {
                    lemma_anchored(units, d.id, anchor, units.len() as int);
                    let p = anchored(units, d.id, anchor)[0];
                    let e = choose|e: int|
                        0 <= e < entries.len() && same_path((#[trigger] entries[e]).store, units[p as int].path)
                            && entries[e].ecosystem == id.ecosystem && entries[e].name == id.name
                            && entries[e].version == id.version;
                    assert(same_path(entries[e].store, units[p as int].path));
                    assert(found_there(units[p as int], id, entries));
                    assert(keeps_by(d.manager_conventions[n - 1], id.ecosystem));
                }
            },
            _ => {},
        }
    }
}

/// A unit is named as the holder of a package only where just that package was
/// found in it: its ecosystem, its name and its version. A store that holds
/// another version of it is not named.
pub proof fn law_a_holder_holds_the_very_package(
    units: Seq<LocatedModel>,
    detectors: Seq<DetectorModel>,
    id: IdentityModel,
    entries: Seq<EntryFound>,
    n: int,
)
    requires
        units.len() <= usize::MAX,
        0 <= n <= detectors.len(),
    ensures
        forall|k: int|
            0 <= k < holders(units, detectors, id, entries, n).len() ==> rightly_named(
                units,
                detectors,
                id,
                entries,
                #[trigger] holders(units, detectors, id, entries, n)[k],
            ),
        (forall|e: int|
            0 <= e < entries.len() ==> (#[trigger] entries[e]).version != id.version || entries[e].name != id.name
                || entries[e].ecosystem != id.ecosystem) ==> holders(units, detectors, id, entries, n).len() == 0,
    decreases n,
{
    if n > 0 {
        law_a_holder_holds_the_very_package(units, detectors, id, entries, n - 1);
        let d = detectors[n - 1];
        let before = holders(units, detectors, id, entries, n - 1);
        let more = holders_in(units, d, id, entries, d.manager_conventions.len() as int);
        lemma_holders_in(units, d, id, entries, d.manager_conventions.len() as int);
        let all = holders(units, detectors, id, entries, n);
        assert forall|k: int| 0 <= k < all.len() implies rightly_named(
            units,
            detectors,
            id,
            entries,
            #[trigger] all[k],
        ) by {
            if k < before.len() {
                assert(all[k] == before[k]);
            } else {
                assert(all[k] == more[k - before.len()]);
                assert(units[all[k] as int].detector_id == detectors[n - 1].id);
            }
        }
    }
    let all = holders(units, detectors, id, entries, n);
    if all.len() > 0 {
        assert(rightly_named(units, detectors, id, entries, all[0]));
        let e = choose|e: int|
            0 <= e < entries.len() && same_path((#[trigger] entries[e]).store, units[all[0] as int].path)
                && entries[e].ecosystem == id.ecosystem && entries[e].name == id.name && entries[e].version
                == id.version;
        assert(entries[e].version == id.version);
    }
}

proof fn lemma_holder_kept(
    units: Seq<LocatedModel>,
    d: DetectorModel,
    id: IdentityModel,
    entries: Seq<EntryFound>,
    n: int,
    c: int,
    p: usize,
)
    requires
        0 <= c < n <= d.manager_conventions.len(),
        holder(units, d.id, d.manager_conventions[c], id, entries) == Some(p),
    ensures
        holders_in(units, d, id, entries, n).contains(p),
    decreases n,
{
    let all = holders_in(units, d, id, entries, n);
    if c == n - 1 {
        assert(all[all.len() - 1] == p);
    } else {
        lemma_holder_kept(units, d, id, entries, n - 1, c, p);
        let before = holders_in(units, d, id, entries, n - 1);
        let k = choose|k: int| 0 <= k < before.len() && before[k] == p;
        assert(all[k] == p);
    }
}

/// A store that a detector keeps packages of an ecosystem in, and in which a
/// package was found, is named as its holder.
pub proof fn law_a_store_that_holds_a_package_is_named(
    units: Seq<LocatedModel>,
    detectors: Seq<DetectorModel>,
    id: IdentityModel,
    entries: Seq<EntryFound>,
    n: int,
    d: int,
    c: int,
)
    requires
        units.len() <= usize::MAX,
        0 <= d < n <= detectors.len(),
        0 <= c < detectors[d].manager_conventions.len(),
        keeps_by(detectors[d].manager_conventions[c], id.ecosystem),
        ({
            let places = anchored(units, detectors[d].id, detectors[d].manager_conventions[c].role->DependencyStore_anchor);
            places.len() > 0 && found_there(units[places[0] as int], id, entries)
        }),
    ensures
        holders(units, detectors, id, entries, n).contains(
            anchored(units, detectors[d].id, detectors[d].manager_conventions[c].role->DependencyStore_anchor)[0],
        ),
    decreases n,
{
    let p = anchored(units, detectors[d].id, detectors[d].manager_conventions[c].role->DependencyStore_anchor)[0];
    let all = holders(units, detectors, id, entries, n);
    let before = holders(units, detectors, id, entries, n - 1);
    if d == n - 1 {
        let e = choose|e: int|
            0 <= e < entries.len() && same_path((#[trigger] entries[e]).store, units[p as int].path)
                && entries[e].ecosystem == id.ecosystem && entries[e].name == id.name && entries[e].version
                == id.version;
        assert(same_path(entries[e].store, units[p as int].path));
        let m = detectors[d].manager_conventions.len() as int;
        assert(holder(units, detectors[d].id, detectors[d].manager_conventions[c], id, entries) == Some(p));
        lemma_holder_kept(units, detectors[d], id, entries, m, c, p);
        let more = holders_in(units, detectors[d], id, entries, m);
        let k = choose|k: int| 0 <= k < more.len() && more[k] == p;
        assert(all[before.len() + k] == p);
    } else {
        law_a_store_that_holds_a_package_is_named(units, detectors, id, entries, n - 1, d, c);
        let k = choose|k: int| 0 <= k < before.len() && before[k] == p;
        assert(all[k] == p);
    }
}

// ---------------------------------------------------------------------
// Declared versions
// ---------------------------------------------------------------------

/// Whether a version's directory was listed in an installation: directly in it,
/// or in the tool's own directory there.
pub open spec fn installed_there(u: LocatedModel, tool: Seq<char>, name: Seq<char>, listings: Seq<ListingModel>) -> bool {
    exists|l: int|
        0 <= l < listings.len() && (#[trigger] listings[l]).names.contains(name) && (same_path(
            listings[l].path,
            u.path,
        ) || same_path(listings[l].path, joined_path(u.path, tool)))
}

/// Whether a version was rightly found in unit `p`: an installation of a
/// detector that answers for the tool in a file of that name.
pub open spec fn rightly_found(
    units: Seq<LocatedModel>,
    detectors: Seq<DetectorModel>,
    file: Seq<char>,
    tool: Seq<char>,
    listings: Seq<ListingModel>,
    named: NamedModel,
) -> bool {
    let u = units[named.1 as int];
    &&& named.1 < units.len()
    &&& u.category == StorageCategory::Installation
    &&& installed_there(u, tool, named.0, listings)
    &&& exists|d: int|
        0 <= d < detectors.len() && u.detector_id == (#[trigger] detectors[d]).id && installs(detectors[d], file, tool)
}

/// Whether a detector says where the versions of a tool that a file declares are
/// installed.
pub open spec fn installs(d: DetectorModel, file: Seq<char>, tool: Seq<char>) -> bool {
    exists|c: int|
        0 <= c < d.manager_conventions.len() && {
            let m = #[trigger] d.manager_conventions[c];
            &&& m.role matches RoleModel::DeclaredVersions { declaration_files, .. } && declaration_files.contains(file)
            &&& m.answers(tool)
        }
}

proof fn lemma_listing(listings: Seq<ListingModel>, path: PathModel, i: int)
    requires
        0 <= i <= listings.len(),
    ensures
        listing_from(listings, path, i) matches Some(l) ==> exists|k: int|
            0 <= k < listings.len() && #[trigger] listings[k] == l && same_path(listings[k].path, path),
    decreases listings.len() - i,
{
    if i < listings.len() {
        if same_path(listings[i].path, path) {
            assert(listings[i] == listing_from(listings, path, i)->0);
        } else {
            lemma_listing(listings, path, i + 1);
        }
    }
}

proof fn lemma_installed_in(
    units: Seq<LocatedModel>,
    id: Seq<char>,
    layout: InstalledVersionLayout,
    tool: Seq<char>,
    listings: Seq<ListingModel>,
    n: int,
)
    requires
        0 <= n <= units.len() <= usize::MAX,
    ensures
        forall|k: int|
            0 <= k < installed_in(units, id, layout, tool, listings, n).len() ==> {
                let f = #[trigger] installed_in(units, id, layout, tool, listings, n)[k];
                &&& f.1 < units.len()
                &&& units[f.1 as int].category == StorageCategory::Installation
                &&& units[f.1 as int].detector_id == id
                &&& installed_there(units[f.1 as int], tool, f.0, listings)
            },
    decreases n,
{
    if n > 0 {
        lemma_installed_in(units, id, layout, tool, listings, n - 1);
        let before = installed_in(units, id, layout, tool, listings, n - 1);
        let all = installed_in(units, id, layout, tool, listings, n);
        let u = units[n - 1];
        let dir = version_dir(layout, u.path, tool);
        lemma_listing(listings, dir, 0);
        assert forall|k: int| 0 <= k < all.len() implies {
            let f = #[trigger] all[k];
            &&& f.1 < units.len()
            &&& units[f.1 as int].category == StorageCategory::Installation
            &&& units[f.1 as int].detector_id == id
            &&& installed_there(units[f.1 as int], tool, f.0, listings)
        } by {
            if k < before.len() {
                assert(all[k] == before[k]);
            } else {
                let names = versions_in(layout, u.path, tool, listings);
                let name = names[k - before.len()];
                assert(all[k] == (name, (n - 1) as usize));
                let l = listing_from(listings, dir, 0)->0;
                assert(names == l.names);
                assert(l.names.contains(name));
                let q = choose|q: int|
                    0 <= q < listings.len() && #[trigger] listings[q] == l && same_path(listings[q].path, dir);
                assert(listings[q].names.contains(name));
            }
        }
    }
}

proof fn lemma_over_conventions(
    before: InstalledModel,
    units: Seq<LocatedModel>,
    detectors: Seq<DetectorModel>,
    i: int,
    file: Seq<char>,
    tool: Seq<char>,
    listings: Seq<ListingModel>,
    n: int,
)
    requires
        units.len() <= usize::MAX,
        0 <= i < detectors.len(),
        0 <= n <= detectors[i].manager_conventions.len(),
        forall|k: int|
            0 <= k < before.named.len() ==> rightly_found(
                units,
                detectors,
                file,
                tool,
                listings,
                #[trigger] before.named[k],
            ),
    ensures
        forall|k: int|
            0 <= k < over_conventions(before, units, detectors[i], file, tool, listings, n).named.len()
                ==> rightly_found(
                units,
                detectors,
                file,
                tool,
                listings,
                #[trigger] over_conventions(before, units, detectors[i], file, tool, listings, n).named[k],
            ),
    decreases n,
{
    if n > 0 {
        lemma_over_conventions(before, units, detectors, i, file, tool, listings, n - 1);
        let d = detectors[i];
        let c = d.manager_conventions[n - 1];
        let prior = over_conventions(before, units, d, file, tool, listings, n - 1);
        let now = over_conventions(before, units, d, file, tool, listings, n);
        if satisfies(c, file, tool) {
            let layout = c.role->DeclaredVersions_layout;
            let more = installed_in(units, d.id, layout, tool, listings, units.len() as int);
            lemma_installed_in(units, d.id, layout, tool, listings, units.len() as int);
            assert(d.manager_conventions[n - 1].answers(tool));
            assert(installs(detectors[i], file, tool));
            assert forall|k: int| 0 <= k < now.named.len() implies rightly_found(
                units,
                detectors,
                file,
                tool,
                listings,
                #[trigger] now.named[k],
            ) by {
                if k < prior.named.len() {
                    assert(now.named[k] == prior.named[k]);
                } else {
                    assert(now.named[k] == more[k - prior.named.len()]);
                    assert(units[now.named[k].1 as int].detector_id == detectors[i].id);
                }
            }
        }
    }
}

proof fn lemma_over_catalog(
    units: Seq<LocatedModel>,
    detectors: Seq<DetectorModel>,
    file: Seq<char>,
    tool: Seq<char>,
    listings: Seq<ListingModel>,
    n: int,
)
    requires
        units.len() <= usize::MAX,
        0 <= n <= detectors.len(),
    ensures
        forall|k: int|
            0 <= k < over_catalog(units, detectors, file, tool, listings, n).named.len() ==> rightly_found(
                units,
                detectors,
                file,
                tool,
                listings,
                #[trigger] over_catalog(units, detectors, file, tool, listings, n).named[k],
            ),
    decreases n,
{
    if n > 0 {
        lemma_over_catalog(units, detectors, file, tool, listings, n - 1);
        let before = over_catalog(units, detectors, file, tool, listings, n - 1);
        lemma_over_conventions(
            before,
            units,
            detectors,
            n - 1,
            file,
            tool,
            listings,
            detectors[n - 1].manager_conventions.len() as int,
        );
    }
}

proof fn lemma_found_in(named: Seq<NamedModel>, name: Seq<char>, n: int)
    requires
        0 <= n <= named.len(),
    ensures
        forall|k: int|
            0 <= k < found_in(named, name, n).len() ==> exists|q: int|
                0 <= q < n && #[trigger] named[q] == (name, #[trigger] found_in(named, name, n)[k]),
        forall|q: int| 0 <= q < n && (#[trigger] named[q]).0 == name ==> found_in(named, name, n).contains(named[q].1),
    decreases n,
{
    if n > 0 {
        lemma_found_in(named, name, n - 1);
        let before = found_in(named, name, n - 1);
        let all = found_in(named, name, n);
        assert forall|k: int| 0 <= k < all.len() implies exists|q: int|
            0 <= q < n && #[trigger] named[q] == (name, #[trigger] all[k]) by {
            if k < before.len() {
                assert(all[k] == before[k]);
                let q = choose|q: int| 0 <= q < n - 1 && #[trigger] named[q] == (name, before[k]);
                assert(named[q] == (name, all[k]));
            } else {
                assert(named[n - 1] == (name, all[k]));
            }
        }
        assert forall|q: int| 0 <= q < n && (#[trigger] named[q]).0 == name implies all.contains(named[q].1) by {
            if q < n - 1 {
                let k = choose|k: int| 0 <= k < before.len() && before[k] == named[q].1;
                assert(all[k] == named[q].1);
            } else {
                assert(all[all.len() - 1] == named[q].1);
            }
        }
    }
}

/// A declaration is answered by a unit only where the version it comes to was
/// listed in that very installation, and by every unit it was found in.
pub proof fn law_a_declared_version_is_where_it_is_installed(
    a: AnswerModel,
    d: DeclarationModel,
    units: Seq<LocatedModel>,
    detectors: Seq<DetectorModel>,
    listings: Seq<ListingModel>,
    i: InstalledModel,
)
    requires
        units.len() <= usize::MAX,
        i == installed_for(d, units, detectors, listings),
    ensures
        forall|k: int|
            0 <= k < contributing(a, i).len() ==> resolved_name(a, i) is Some && file_name(d.source_path) is Some
                && rightly_found(
                units,
                detectors,
                file_name(d.source_path)->0,
                d.tool,
                listings,
                (resolved_name(a, i)->0, #[trigger] contributing(a, i)[k]),
            ),
        forall|q: int|
            0 <= q < i.named.len() && resolved_name(a, i) == Some((#[trigger] i.named[q]).0) ==> contributing(
                a,
                i,
            ).contains(i.named[q].1),
{
    match file_name(d.source_path) {
        Some(file) => {
            lemma_over_catalog(units, detectors, file, d.tool, listings, detectors.len() as int);
        },
        None => {},
    }
    match resolved_name(a, i) {
        Some(name) => {
            lemma_found_in(i.named, name, i.named.len() as int);
            let all = contributing(a, i);
            assert forall|k: int| 0 <= k < all.len() implies file_name(d.source_path) is Some && rightly_found(
                units,
                detectors,
                file_name(d.source_path)->0,
                d.tool,
                listings,
                (name, #[trigger] all[k]),
            ) by {
                let q = choose|q: int|
                    0 <= q < i.named.len() && #[trigger] i.named[q] == (name, all[k]);
                assert(i.named[q] == (name, all[k]));
            }
        },
        None => {},
    }
}

} // verus!
