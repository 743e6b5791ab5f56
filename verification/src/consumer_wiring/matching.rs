//! Matching what projects declare and depend on with what is installed and kept.
//!
//! Which detector answers which question is what the detectors declare; nothing
//! here knows a detector by name.

use super::caches::{CachedIdentity, DeclarationModel, IdentityModel, ToolVersionDeclaration};
use crate::detectors::{
    anchored, anchored_places, located_view, strs, ConventionModel, ConventionRole, DetectorModel,
    InstalledVersionLayout, InstalledVersionNaming, Located, LocatedModel, LookupModel, ManagerConvention, Registry,
    RoleModel, StoreEntryLookup,
};
use crate::evidence::{Evidence, FactModelled};
use crate::locations::StorageCategory;
use crate::path::{file_name, joined_path, same_path, FsPath, PathModel};
use crate::text::{opt_text, same, texts};
use vstd::prelude::*;

verus! {

// ---------------------------------------------------------------------
// What is installed
// ---------------------------------------------------------------------

/// The names directly in a directory.
#[derive(Debug, Clone, PartialEq, Eq)]
pub struct Listing {
    pub path: FsPath,
    pub is_dir: bool,
    pub names: Vec<String>,
}

pub struct ListingModel {
    pub path: PathModel,
    pub is_dir: bool,
    pub names: Seq<Seq<char>>,
}

impl View for Listing {
    type V = ListingModel;

    open spec fn view(&self) -> ListingModel {
        ListingModel { path: self.path@, is_dir: self.is_dir, names: texts(self.names@) }
    }
}

pub open spec fn listings_view(s: Seq<Listing>) -> Seq<ListingModel> {
    Seq::new(s.len(), |i: int| s[i]@)
}

pub open spec fn listing_from(list: Seq<ListingModel>, path: PathModel, i: int) -> Option<ListingModel>
    decreases list.len() - i,
{
    if i < 0 || i >= list.len() {
        None
    } else if same_path(list[i].path, path) {
        Some(list[i])
    } else {
        listing_from(list, path, i + 1)
    }
}

/// The names directly in a directory; none where it was not listed.
pub open spec fn names_in(list: Seq<ListingModel>, path: PathModel) -> Seq<Seq<char>> {
    match listing_from(list, path, 0) {
        Some(l) => l.names,
        None => Seq::empty(),
    }
}

pub open spec fn is_listed_dir(list: Seq<ListingModel>, path: PathModel) -> bool {
    listing_from(list, path, 0) matches Some(l) && l.is_dir
}

pub fn find_listing<'a>(list: &'a Vec<Listing>, path: &FsPath) -> (r: Option<&'a Listing>)
    ensures
        match r {
            Some(l) => listing_from(listings_view(list@), path@, 0) == Some(l@),
            None => listing_from(listings_view(list@), path@, 0) is None,
        },
{
    let ghost all = listings_view(list@);
    let mut i: usize = 0;
    while i < list.len()
        invariant
            i <= list@.len(),
            all == listings_view(list@),
            listing_from(all, path@, 0) == listing_from(all, path@, i as int),
        decreases list@.len() - i,
    {
        assert(all[i as int] == list@[i as int]@);
        if list[i].path.same(path) {
            return Some(&list[i]);
        }
        i += 1;
    }
    None
}

/// An installed version, and the place of the unit it was found in.
pub type NamedModel = (Seq<char>, usize);

/// What the measured installations offer for one declaration.
pub struct InstalledModel {
    pub named: Seq<NamedModel>,
    /// Whether a store names what it installs by channel and host.
    pub channel_qualified: bool,
}

pub open spec fn named_by(names: Seq<Seq<char>>, place: usize) -> Seq<NamedModel> {
    Seq::new(names.len(), |i: int| (names[i], place))
}

pub open spec fn is_installation(u: LocatedModel, id: Seq<char>) -> bool {
    u.detector_id == id && u.category == StorageCategory::Installation
}

/// Where the versions of a tool lie in an installation.
pub open spec fn version_dir(layout: InstalledVersionLayout, path: PathModel, tool: Seq<char>) -> PathModel {
    match layout {
        InstalledVersionLayout::VersionPerEntry => path,
        InstalledVersionLayout::ToolThenVersion => joined_path(path, tool),
    }
}

/// The versions in one installation.
pub open spec fn versions_in(layout: InstalledVersionLayout, path: PathModel, tool: Seq<char>, listings: Seq<ListingModel>) -> Seq<
    Seq<char>,
> {
    let dir = version_dir(layout, path, tool);
    if layout == InstalledVersionLayout::ToolThenVersion && !is_listed_dir(listings, dir) {
        Seq::empty()
    } else {
        names_in(listings, dir)
    }
}

/// The versions in a detector's installations among the first `n` units.
pub open spec fn installed_in(
    units: Seq<LocatedModel>,
    id: Seq<char>,
    layout: InstalledVersionLayout,
    tool: Seq<char>,
    listings: Seq<ListingModel>,
    n: int,
) -> Seq<NamedModel>
    decreases n,
{
    if n <= 0 {
        Seq::empty()
    } else {
        let before = installed_in(units, id, layout, tool, listings, n - 1);
        if is_installation(units[n - 1], id) {
            before + named_by(versions_in(layout, units[n - 1].path, tool, listings), (n - 1) as usize)
        } else {
            before
        }
    }
}

/// Whether a convention answers a declaration: it names the file the declaration
/// was read from, and speaks for its tool.
pub open spec fn satisfies(c: ConventionModel, file: Seq<char>, tool: Seq<char>) -> bool {
    c.role matches RoleModel::DeclaredVersions { declaration_files, .. } && declaration_files.contains(file) && c.answers(
        tool,
    )
}

pub open spec fn with_convention(
    before: InstalledModel,
    units: Seq<LocatedModel>,
    id: Seq<char>,
    c: ConventionModel,
    file: Seq<char>,
    tool: Seq<char>,
    listings: Seq<ListingModel>,
) -> InstalledModel {
    match c.role {
        RoleModel::DeclaredVersions { declaration_files, layout, naming, .. } => if satisfies(c, file, tool) {
            InstalledModel {
                named: before.named + installed_in(units, id, layout, tool, listings, units.len() as int),
                channel_qualified: before.channel_qualified || naming == InstalledVersionNaming::ChannelWithHostTriple,
            }
        } else {
            before
        },
        _ => before,
    }
}

pub open spec fn over_conventions(
    before: InstalledModel,
    units: Seq<LocatedModel>,
    d: DetectorModel,
    file: Seq<char>,
    tool: Seq<char>,
    listings: Seq<ListingModel>,
    n: int,
) -> InstalledModel
    decreases n,
{
    if n <= 0 {
        before
    } else {
        with_convention(
            over_conventions(before, units, d, file, tool, listings, n - 1),
            units,
            d.id,
            d.manager_conventions[n - 1],
            file,
            tool,
            listings,
        )
    }
}

pub open spec fn over_catalog(
    units: Seq<LocatedModel>,
    detectors: Seq<DetectorModel>,
    file: Seq<char>,
    tool: Seq<char>,
    listings: Seq<ListingModel>,
    n: int,
) -> InstalledModel
    decreases n,
{
    if n <= 0 {
        InstalledModel { named: Seq::empty(), channel_qualified: false }
    } else {
        let d = detectors[n - 1];
        over_conventions(
            over_catalog(units, detectors, file, tool, listings, n - 1),
            units,
            d,
            file,
            tool,
            listings,
            d.manager_conventions.len() as int,
        )
    }
}

/// What the measured installations offer for a declaration.
pub open spec fn installed_for(
    d: DeclarationModel,
    units: Seq<LocatedModel>,
    detectors: Seq<DetectorModel>,
    listings: Seq<ListingModel>,
) -> InstalledModel {
    match file_name(d.source_path) {
        Some(file) => over_catalog(units, detectors, file, d.tool, listings, detectors.len() as int),
        None => InstalledModel { named: Seq::empty(), channel_qualified: false },
    }
}

#[derive(Debug, Clone, PartialEq, Eq)]
pub struct InstalledVersions {
    pub named: Vec<(String, usize)>,
    pub channel_qualified: bool,
}

pub open spec fn named_view(s: Seq<(String, usize)>) -> Seq<NamedModel> {
    Seq::new(s.len(), |i: int| (s[i].0@, s[i].1))
}

impl View for InstalledVersions {
    type V = InstalledModel;

    open spec fn view(&self) -> InstalledModel {
        InstalledModel { named: named_view(self.named@), channel_qualified: self.channel_qualified }
    }
}

fn push_names(out: &mut Vec<(String, usize)>, names: &Vec<String>, place: usize)
    ensures
        named_view(final(out)@) == named_view(old(out)@) + named_by(texts(names@), place),
{
    let ghost start = named_view(out@);
    let ghost all = named_by(texts(names@), place);
    let mut i: usize = 0;
    assert(start + all.take(0) =~= start);
    while i < names.len()
        invariant
            i <= names@.len(),
            all == named_by(texts(names@), place),
            named_view(out@) == start + all.take(i as int),
        decreases names@.len() - i,
    {
        let ghost prior = out@;
        out.push((names[i].as_str().to_owned(), place));
        assert(named_view(out@) =~= named_view(prior).push((names@[i as int]@, place)));
        i += 1;
        assert(start + all.take(i as int) =~= (start + all.take(i - 1)).push(all[i - 1]));
    }
    assert(all.take(i as int) =~= all);
}

fn push_versions(
    out: &mut Vec<(String, usize)>,
    place: usize,
    layout: InstalledVersionLayout,
    path: &FsPath,
    tool: &str,
    listings: &Vec<Listing>,
)
    ensures
        named_view(final(out)@) == named_view(old(out)@) + named_by(
            versions_in(layout, path@, tool@, listings_view(listings@)),
            place,
        ),
{
    let ghost start = named_view(out@);
    let dir = match layout {
        InstalledVersionLayout::VersionPerEntry => path.copy(),
        InstalledVersionLayout::ToolThenVersion => path.join(tool),
    };
    assert(start + named_by(Seq::empty(), place) =~= start);
    match find_listing(listings, &dir) {
        Some(l) => {
            if layout == InstalledVersionLayout::VersionPerEntry || l.is_dir {
                push_names(out, &l.names, place);
            }
        },
        None => {},
    }
}

fn push_installed(
    out: &mut Vec<(String, usize)>,
    units: &Vec<Located>,
    id: &str,
    layout: InstalledVersionLayout,
    tool: &str,
    listings: &Vec<Listing>,
)
    ensures
        named_view(final(out)@) == named_view(old(out)@) + installed_in(
            located_view(units@),
            id@,
            layout,
            tool@,
            listings_view(listings@),
            units@.len() as int,
        ),
{
    let ghost start = named_view(out@);
    let ghost all = located_view(units@);
    let ghost lists = listings_view(listings@);
    let mut i: usize = 0;
    assert(start + installed_in(all, id@, layout, tool@, lists, 0) =~= start);
    while i < units.len()
        invariant
            i <= units@.len(),
            all == located_view(units@),
            lists == listings_view(listings@),
            named_view(out@) == start + installed_in(all, id@, layout, tool@, lists, i as int),
        decreases units@.len() - i,
    {
        let u = &units[i];
        assert(all[i as int] == u@);
        if same(u.detector_id.as_str(), id) && u.category == StorageCategory::Installation {
            push_versions(out, i, layout, &u.path, tool, listings);
        }
        i += 1;
        assert(named_view(out@) =~= start + installed_in(all, id@, layout, tool@, lists, i as int));
    }
}

fn holds_str(list: &Vec<&'static str>, s: &str) -> (r: bool)
    ensures
        r == strs(list@).contains(s@),
{
    let ghost all = strs(list@);
    let mut i: usize = 0;
    while i < list.len()
        invariant
            i <= list@.len(),
            all == strs(list@),
            forall|k: int| 0 <= k < i ==> #[trigger] all[k] != s@,
        decreases list@.len() - i,
    {
        assert(all[i as int] == list@[i as int]@);
        if same(list[i], s) {
            return true;
        }
        i += 1;
    }
    false
}

fn take_convention(
    out: &mut InstalledVersions,
    units: &Vec<Located>,
    id: &str,
    c: &ManagerConvention,
    file: &str,
    tool: &str,
    listings: &Vec<Listing>,
)
    ensures
        final(out)@ == with_convention(
            old(out)@,
            located_view(units@),
            id@,
            c@,
            file@,
            tool@,
            listings_view(listings@),
        ),
{
    assert(located_view(units@).len() == units@.len());
    match &c.role {
        ConventionRole::DeclaredVersions { declaration_files, layout, naming, global_default } => {
            if holds_str(declaration_files, file) && c.answers_for(tool) {
                push_installed(&mut out.named, units, id, *layout, tool, listings);
                if *naming == InstalledVersionNaming::ChannelWithHostTriple {
                    out.channel_qualified = true;
                }
            }
        },
        _ => {},
    }
}

/// What the measured installations offer for a declaration. A tool that nothing
/// measures has nothing on offer.
pub fn installed_versions_for(
    d: &ToolVersionDeclaration,
    units: &Vec<Located>,
    registry: &Registry,
    listings: &Vec<Listing>,
) -> (r: InstalledVersions)
    ensures
        r@ == installed_for(d@, located_view(units@), registry@, listings_view(listings@)),
{
    let mut out = InstalledVersions { named: Vec::new(), channel_qualified: false };
    assert(named_view(out.named@) =~= Seq::<NamedModel>::empty());
    let file = match d.source_path.file_name() {
        Some(f) => f,
        None => {
            return out;
        },
    };
    let list = registry.detectors();
    let ghost all = located_view(units@);
    let ghost lists = listings_view(listings@);
    assert(registry@.len() == list@.len());
    let mut i: usize = 0;
    while i < list.len()
        invariant
            i <= list@.len(),
            all == located_view(units@),
            lists == listings_view(listings@),
            registry@ == crate::detectors::detectors_view(list@),
            out@ == over_catalog(all, registry@, file@, d@.tool, lists, i as int),
        decreases list@.len() - i,
    {
        let det = &list[i];
        assert(registry@[i as int] == det@);
        let ghost start = out@;
        let mut k: usize = 0;
        while k < det.manager_conventions.len()
            invariant
                k <= det.manager_conventions@.len(),
                all == located_view(units@),
                lists == listings_view(listings@),
                out@ == over_conventions(start, all, det@, file@, d@.tool, lists, k as int),
            decreases det.manager_conventions@.len() - k,
        {
            let c = &det.manager_conventions[k];
            assert(det@.manager_conventions[k as int] == c@);
            take_convention(&mut out, units, det.id, c, file.as_str(), d.tool.as_str(), listings);
            k += 1;
        }
        i += 1;
    }
    out
}

// ---------------------------------------------------------------------
// Resolving a declaration
// ---------------------------------------------------------------------

/// A declaration, and what its resolution is: of its version as it stands, and
/// of the installed directory its channel names on this host.
#[derive(Debug, Clone)]
pub struct DeclarationAnswer {
    pub declaration: ToolVersionDeclaration,
    /// The installed directory the declared channel names, if any.
    pub channel_dir: Option<String>,
    /// The installed version the declaration matches as it stands, if any.
    pub exact: Option<String>,
    /// What is said of the declaration as it stands.
    pub plain: Evidence,
    /// What is said of it where its channel's directory is installed.
    pub by_channel: Evidence,
}

pub struct AnswerModel {
    pub declaration: DeclarationModel,
    pub channel_dir: Option<Seq<char>>,
    pub exact: Option<Seq<char>>,
    pub plain: FactModelled,
    pub by_channel: FactModelled,
}

impl View for DeclarationAnswer {
    type V = AnswerModel;

    open spec fn view(&self) -> AnswerModel {
        AnswerModel {
            declaration: self.declaration@,
            channel_dir: opt_text(self.channel_dir),
            exact: opt_text(self.exact),
            plain: self.plain@,
            by_channel: self.by_channel@,
        }
    }
}

pub open spec fn answers_view(s: Seq<DeclarationAnswer>) -> Seq<AnswerModel> {
    Seq::new(s.len(), |i: int| s[i]@)
}

pub open spec fn installed_names(i: InstalledModel) -> Seq<Seq<char>> {
    Seq::new(i.named.len(), |k: int| i.named[k].0)
}

/// Whether a declared channel is looked up by host: only where a store names
/// what it installs so, and no installed version is called as declared.
pub open spec fn widened(a: AnswerModel, i: InstalledModel) -> bool {
    i.channel_qualified && !installed_names(i).contains(a.declaration.version_spec) && a.channel_dir is Some
}

/// The installed version a declaration comes to.
pub open spec fn resolved_name(a: AnswerModel, i: InstalledModel) -> Option<Seq<char>> {
    if widened(a, i) {
        a.channel_dir
    } else {
        a.exact
    }
}

pub open spec fn resolved_evidence(a: AnswerModel, i: InstalledModel) -> FactModelled {
    if widened(a, i) {
        a.by_channel
    } else {
        a.plain
    }
}

/// The units that an installed version was found in, among the first `n` finds.
pub open spec fn found_in(named: Seq<NamedModel>, name: Seq<char>, n: int) -> Seq<usize>
    decreases n,
{
    if n <= 0 {
        Seq::empty()
    } else if named[n - 1].0 == name {
        found_in(named, name, n - 1).push(named[n - 1].1)
    } else {
        found_in(named, name, n - 1)
    }
}

/// The units that hold what a declaration comes to.
pub open spec fn contributing(a: AnswerModel, i: InstalledModel) -> Seq<usize> {
    match resolved_name(a, i) {
        Some(name) => found_in(i.named, name, i.named.len() as int),
        None => Seq::empty(),
    }
}

fn has_name(i: &InstalledVersions, name: &str) -> (r: bool)
    ensures
        r == installed_names(i@).contains(name@),
{
    let ghost all = installed_names(i@);
    let mut k: usize = 0;
    while k < i.named.len()
        invariant
            k <= i.named@.len(),
            all == installed_names(i@),
            forall|j: int| 0 <= j < k ==> #[trigger] all[j] != name@,
        decreases i.named@.len() - k,
    {
        assert(i@.named[k as int] == (i.named@[k as int].0@, i.named@[k as int].1));
        assert(all[k as int] == i.named@[k as int].0@);
        if same(i.named[k].0.as_str(), name) {
            return true;
        }
        k += 1;
    }
    false
}

fn find_found(named: &Vec<(String, usize)>, name: &str) -> (r: Vec<usize>)
    ensures
        r@ == found_in(named_view(named@), name@, named@.len() as int),
{
    let ghost all = named_view(named@);
    let mut out: Vec<usize> = Vec::new();
    let mut i: usize = 0;
    while i < named.len()
        invariant
            i <= named@.len(),
            all == named_view(named@),
            out@ == found_in(all, name@, i as int),
        decreases named@.len() - i,
    {
        assert(all[i as int] == (named@[i as int].0@, named@[i as int].1));
        if same(named[i].0.as_str(), name) {
            out.push(named[i].1);
        }
        i += 1;
    }
    out
}

/// What a declaration comes to: what is said of it, and the units that hold it.
pub fn resolve_declaration(a: &DeclarationAnswer, i: &InstalledVersions) -> (r: (Evidence, Vec<usize>))
    ensures
        r.0@ == resolved_evidence(a@, i@),
        r.1@ == contributing(a@, i@),
{
    let wide = i.channel_qualified && a.channel_dir.is_some() && !has_name(i, a.declaration.version_spec.as_str());
    let name = if wide {
        &a.channel_dir
    } else {
        &a.exact
    };
    assert(i@.named.len() == i.named@.len());
    let units = match name {
        Some(n) => find_found(&i.named, n.as_str()),
        None => Vec::new(),
    };
    let evidence = if wide {
        a.by_channel.copy()
    } else {
        a.plain.copy()
    };
    (evidence, units)
}

// ---------------------------------------------------------------------
// Dependencies
// ---------------------------------------------------------------------

/// A package that was found in a store.
#[derive(Debug, Clone, PartialEq, Eq)]
pub struct StoreEntry {
    pub store: FsPath,
    pub ecosystem: String,
    pub name: String,
    pub version: String,
}

pub struct EntryFound {
    pub store: PathModel,
    pub ecosystem: Seq<char>,
    pub name: Seq<char>,
    pub version: Seq<char>,
}

impl View for StoreEntry {
    type V = EntryFound;

    open spec fn view(&self) -> EntryFound {
        EntryFound { store: self.store@, ecosystem: self.ecosystem@, name: self.name@, version: self.version@ }
    }
}

pub open spec fn found_view(s: Seq<StoreEntry>) -> Seq<EntryFound> {
    Seq::new(s.len(), |i: int| s[i]@)
}

pub open spec fn was_found(entries: Seq<EntryFound>, store: PathModel, id: IdentityModel) -> bool {
    exists|k: int|
        0 <= k < entries.len() && same_path((#[trigger] entries[k]).store, store) && entries[k].ecosystem == id.ecosystem
            && entries[k].name == id.name && entries[k].version == id.version
}

/// Whether a store holds a package; nothing where it cannot be asked for one.
pub open spec fn holds_entry(lookup: LookupModel, entries: Seq<EntryFound>, store: PathModel, id: IdentityModel) -> Option<bool> {
    match lookup {
        LookupModel::ContentAddressed { .. } => None,
        LookupModel::WholeStore => None,
        _ => Some(was_found(entries, store, id)),
    }
}

/// The unit a convention contributes for a package, if any: the first it is
/// anchored to, where that holds the package.
pub open spec fn holder(
    units: Seq<LocatedModel>,
    id: Seq<char>,
    c: ConventionModel,
    identity: IdentityModel,
    entries: Seq<EntryFound>,
) -> Option<usize> {
    match c.role {
        RoleModel::DependencyStore { anchor, lookup } => {
            let places = anchored(units, id, anchor);
            if c.tool == Some(identity.ecosystem) && places.len() > 0 && holds_entry(
                lookup,
                entries,
                units[places[0] as int].path,
                identity,
            ) == Some(true) {
                Some(places[0])
            } else {
                None
            }
        },
        _ => None,
    }
}

pub open spec fn holders_in(
    units: Seq<LocatedModel>,
    d: DetectorModel,
    identity: IdentityModel,
    entries: Seq<EntryFound>,
    n: int,
) -> Seq<usize>
    decreases n,
{
    if n <= 0 {
        Seq::empty()
    } else {
        let before = holders_in(units, d, identity, entries, n - 1);
        match holder(units, d.id, d.manager_conventions[n - 1], identity, entries) {
            Some(p) => before.push(p),
            None => before,
        }
    }
}

/// The units that hold a package.
pub open spec fn holders(
    units: Seq<LocatedModel>,
    detectors: Seq<DetectorModel>,
    identity: IdentityModel,
    entries: Seq<EntryFound>,
    n: int,
) -> Seq<usize>
    decreases n,
{
    if n <= 0 {
        Seq::empty()
    } else {
        let d = detectors[n - 1];
        holders(units, detectors, identity, entries, n - 1) + holders_in(
            units,
            d,
            identity,
            entries,
            d.manager_conventions.len() as int,
        )
    }
}

fn is_found(entries: &Vec<StoreEntry>, store: &FsPath, id: &CachedIdentity) -> (r: bool)
    ensures
        r == was_found(found_view(entries@), store@, id@),
{
    let ghost all = found_view(entries@);
    let mut i: usize = 0;
    while i < entries.len()
        invariant
            i <= entries@.len(),
            all == found_view(entries@),
            forall|k: int|
                0 <= k < i ==> !(same_path((#[trigger] all[k]).store, store@) && all[k].ecosystem == id@.ecosystem
                    && all[k].name == id@.name && all[k].version == id@.version),
        decreases entries@.len() - i,
    {
        let e = &entries[i];
        assert(all[i as int] == e@);
        if e.store.same(store) && same(e.ecosystem.as_str(), id.ecosystem.as_str()) && same(
            e.name.as_str(),
            id.name.as_str(),
        ) && same(e.version.as_str(), id.version.as_str()) {
            return true;
        }
        i += 1;
    }
    false
}

/// Whether a store holds a package; nothing where it cannot be asked for one.
pub fn store_holds_entry(
    lookup: &StoreEntryLookup,
    entries: &Vec<StoreEntry>,
    store: &FsPath,
    id: &CachedIdentity,
) -> (r: Option<bool>)
    ensures
        r == holds_entry(lookup@, found_view(entries@), store@, id@),
{
    match lookup {
        StoreEntryLookup::ContentAddressed { .. } => None,
        StoreEntryLookup::WholeStore => None,
        _ => Some(is_found(entries, store, id)),
    }
}

fn find_holder(
    units: &Vec<Located>,
    id: &str,
    c: &ManagerConvention,
    identity: &CachedIdentity,
    entries: &Vec<StoreEntry>,
) -> (r: Option<usize>)
    ensures
        r == holder(located_view(units@), id@, c@, identity@, found_view(entries@)),
        r matches Some(p) ==> p < units@.len(),
{
    match &c.role {
        ConventionRole::DependencyStore { anchor, lookup } => {
            if !c.is_for(identity.ecosystem.as_str()) {
                return None;
            }
            let places = anchored_places(units, id, anchor);
            if places.len() == 0 {
                return None;
            }
            let p: usize = places[0];
            assert(places@[0] < units@.len());
            assert(located_view(units@)[p as int] == units@[p as int]@);
            match store_holds_entry(lookup, entries, &units[p].path, identity) {
                Some(held) => if held {
                    Some(p)
                } else {
                    None
                },
                None => None,
            }
        },
        _ => None,
    }
}

/// The units that hold a package.
pub fn match_identity(
    identity: &CachedIdentity,
    units: &Vec<Located>,
    registry: &Registry,
    entries: &Vec<StoreEntry>,
) -> (r: Vec<usize>)
    ensures
        r@ == holders(located_view(units@), registry@, identity@, found_view(entries@), registry@.len() as int),
{
    let ghost all = located_view(units@);
    let ghost found = found_view(entries@);
    let list = registry.detectors();
    assert(registry@.len() == list@.len());
    let mut out: Vec<usize> = Vec::new();
    let mut i: usize = 0;
    while i < list.len()
        invariant
            i <= list@.len(),
            all == located_view(units@),
            found == found_view(entries@),
            registry@ == crate::detectors::detectors_view(list@),
            out@ == holders(all, registry@, identity@, found, i as int),
        decreases list@.len() - i,
    {
        let d = &list[i];
        assert(registry@[i as int] == d@);
        let ghost start = out@;
        let mut k: usize = 0;
        assert(start + holders_in(all, d@, identity@, found, 0) =~= start);
        while k < d.manager_conventions.len()
            invariant
                k <= d.manager_conventions@.len(),
                all == located_view(units@),
                found == found_view(entries@),
                out@ == start + holders_in(all, d@, identity@, found, k as int),
            decreases d.manager_conventions@.len() - k,
        {
            assert(d@.manager_conventions[k as int] == d.manager_conventions@[k as int]@);
            match find_holder(units, d.id, &d.manager_conventions[k], identity, entries) {
                Some(p) => {
                    out.push(p);
                },
                None => {},
            }
            k += 1;
            assert(out@ =~= start + holders_in(all, d@, identity@, found, k as int));
        }
        i += 1;
    }
    out
}

/// The unit a convention makes of an ecosystem as a whole, if it keeps it so.
pub open spec fn whole_in(units: Seq<LocatedModel>, id: Seq<char>, c: ConventionModel, ecosystem: Seq<char>) -> Option<usize> {
    match c.role {
        RoleModel::DependencyStore { anchor, lookup } => {
            let places = anchored(units, id, anchor);
            if c.tool == Some(ecosystem) && lookup is WholeStore && places.len() > 0 {
                Some(places[0])
            } else {
                None
            }
        },
        _ => None,
    }
}

pub open spec fn first_whole_in(units: Seq<LocatedModel>, d: DetectorModel, ecosystem: Seq<char>, i: int) -> Option<usize>
    decreases d.manager_conventions.len() - i,
{
    if i < 0 || i >= d.manager_conventions.len() {
        None
    } else {
        match whole_in(units, d.id, d.manager_conventions[i], ecosystem) {
            Some(p) => Some(p),
            None => first_whole_in(units, d, ecosystem, i + 1),
        }
    }
}

/// The store that can only be said to hold something of an ecosystem.
pub open spec fn whole_store(
    units: Seq<LocatedModel>,
    detectors: Seq<DetectorModel>,
    ecosystem: Seq<char>,
    i: int,
) -> Option<usize>
    decreases detectors.len() - i,
{
    if i < 0 || i >= detectors.len() {
        None
    } else {
        match first_whole_in(units, detectors[i], ecosystem, 0) {
            Some(p) => Some(p),
            None => whole_store(units, detectors, ecosystem, i + 1),
        }
    }
}

fn find_whole_in(units: &Vec<Located>, id: &str, c: &ManagerConvention, ecosystem: &str) -> (r: Option<usize>)
    ensures
        r == whole_in(located_view(units@), id@, c@, ecosystem@),
{
    match &c.role {
        ConventionRole::DependencyStore { anchor, lookup } => {
            if !c.is_for(ecosystem) || !matches!(lookup, StoreEntryLookup::WholeStore) {
                return None;
            }
            let places = anchored_places(units, id, anchor);
            if places.len() > 0 {
                Some(places[0])
            } else {
                None
            }
        },
        _ => None,
    }
}

/// The store that can only be said to hold something of an ecosystem: a project
/// that names any package of it uses the store as a whole.
pub fn whole_store_unit(ecosystem: &str, units: &Vec<Located>, registry: &Registry) -> (r: Option<usize>)
    ensures
        r == whole_store(located_view(units@), registry@, ecosystem@, 0),
{
    let ghost all = located_view(units@);
    let list = registry.detectors();
    assert(registry@.len() == list@.len());
    let mut i: usize = 0;
    while i < list.len()
        invariant
            i <= list@.len(),
            all == located_view(units@),
            registry@ == crate::detectors::detectors_view(list@),
            registry@.len() == list@.len(),
            whole_store(all, registry@, ecosystem@, 0) == whole_store(all, registry@, ecosystem@, i as int),
        decreases list@.len() - i,
    {
        let d = &list[i];
        assert(registry@[i as int] == d@);
        let mut k: usize = 0;
        while k < d.manager_conventions.len()
            invariant
                k <= d.manager_conventions@.len(),
                all == located_view(units@),
                i < registry@.len(),
                registry@[i as int] == d@,
                whole_store(all, registry@, ecosystem@, 0) == whole_store(all, registry@, ecosystem@, i as int),
                first_whole_in(all, d@, ecosystem@, 0) == first_whole_in(all, d@, ecosystem@, k as int),
            decreases d.manager_conventions@.len() - k,
        {
            assert(d@.manager_conventions[k as int] == d.manager_conventions@[k as int]@);
            match find_whole_in(units, d.id, &d.manager_conventions[k], ecosystem) {
                Some(p) => {
                    return Some(p);
                },
                None => {},
            }
            k += 1;
        }
        assert(d@.manager_conventions.len() == d.manager_conventions@.len());
        i += 1;
    }
    None
}

// ---------------------------------------------------------------------
// Laws
// ---------------------------------------------------------------------

/// A content-addressed store never says which package it holds.
pub proof fn law_content_addressed_stores_are_never_guessed(
    units: Seq<LocatedModel>,
    id: Seq<char>,
    c: ConventionModel,
    identity: IdentityModel,
    entries: Seq<EntryFound>,
)
    requires
        c.role matches RoleModel::DependencyStore { lookup, .. } && lookup is ContentAddressed,
    ensures
        holder(units, id, c, identity, entries) is None,
        whole_in(units, id, c, identity.ecosystem) is None,
{
}

} // verus!
