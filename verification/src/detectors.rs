//! What the detectors of machine-wide storage declare about it.
//!
//! A detector says where its tool keeps things; here stands what it says of
//! those places: which are build stores, where a project's declared versions are
//! installed, and where its dependencies are kept.

use crate::locations::{BuildStoreKind, StorageCategory};
use crate::path::{same_opt, FsPath, PathModel};
use crate::text::same;
use vstd::prelude::*;

verus! {

pub open spec fn strs(s: Seq<&'static str>) -> Seq<Seq<char>> {
    Seq::new(s.len(), |i: int| s[i]@)
}

// ---------------------------------------------------------------------
// Anchors
// ---------------------------------------------------------------------

/// Which of a detector's own locations a declaration speaks of.
#[derive(Debug, Clone, PartialEq, Eq)]
pub enum StoreAnchor {
    /// Every location it publishes.
    SoleLocation,
    /// Those of a category whose path ends with these names.
    Categorized { category: StorageCategory, suffix: Vec<&'static str> },
    /// Those of a category whose path ends with none of these.
    CategorizedExcept { category: StorageCategory, except: Vec<Vec<&'static str>> },
    /// Those of a category that lie `up` levels above its first location of
    /// another.
    AncestorOfSibling { sibling: StorageCategory, up: usize, category: StorageCategory },
}

pub enum AnchorModel {
    SoleLocation,
    Categorized { category: StorageCategory, suffix: Seq<Seq<char>> },
    CategorizedExcept { category: StorageCategory, except: Seq<Seq<Seq<char>>> },
    AncestorOfSibling { sibling: StorageCategory, up: nat, category: StorageCategory },
}

pub open spec fn str_lists(s: Seq<Vec<&'static str>>) -> Seq<Seq<Seq<char>>> {
    Seq::new(s.len(), |i: int| strs(s[i]@))
}

impl View for StoreAnchor {
    type V = AnchorModel;

    open spec fn view(&self) -> AnchorModel {
        match self {
            StoreAnchor::SoleLocation => AnchorModel::SoleLocation,
            StoreAnchor::Categorized { category, suffix } => AnchorModel::Categorized {
                category: *category,
                suffix: strs(suffix@),
            },
            StoreAnchor::CategorizedExcept { category, except } => AnchorModel::CategorizedExcept {
                category: *category,
                except: str_lists(except@),
            },
            StoreAnchor::AncestorOfSibling { sibling, up, category } => AnchorModel::AncestorOfSibling {
                sibling: *sibling,
                up: *up as nat,
                category: *category,
            },
        }
    }
}

/// A location a detector published.
#[derive(Debug, Clone, PartialEq, Eq)]
pub struct Located {
    pub detector_id: String,
    pub category: StorageCategory,
    pub path: FsPath,
}

pub struct LocatedModel {
    pub detector_id: Seq<char>,
    pub category: StorageCategory,
    pub path: PathModel,
}

impl View for Located {
    type V = LocatedModel;

    open spec fn view(&self) -> LocatedModel {
        LocatedModel { detector_id: self.detector_id@, category: self.category, path: self.path@ }
    }
}

pub open spec fn located_view(s: Seq<Located>) -> Seq<LocatedModel> {
    Seq::new(s.len(), |i: int| s[i]@)
}

/// Whether a path ends with these names.
pub open spec fn ends_with(path: PathModel, suffix: Seq<Seq<char>>) -> bool {
    suffix.len() <= path.len() && path.parts().skip(path.len() - suffix.len()) == suffix
}

/// The directory `up` levels above a path.
pub open spec fn above(path: PathModel, up: nat) -> Option<PathModel>
    decreases up,
{
    if up == 0 {
        Some(path)
    } else {
        match crate::path::parent(path) {
            Some(p) => above(p, (up - 1) as nat),
            None => None,
        }
    }
}

/// The path of a detector's first location of a category, from place `i` on.
pub open spec fn sibling_from(list: Seq<LocatedModel>, id: Seq<char>, category: StorageCategory, i: int) -> Option<PathModel>
    decreases list.len() - i,
{
    if i < 0 || i >= list.len() {
        None
    } else if list[i].detector_id == id && list[i].category == category {
        Some(list[i].path)
    } else {
        sibling_from(list, id, category, i + 1)
    }
}

pub open spec fn excepted(path: PathModel, except: Seq<Seq<Seq<char>>>) -> bool {
    exists|k: int| 0 <= k < except.len() && ends_with(path, #[trigger] except[k])
}

/// Whether a detector's declaration speaks of location `i`.
pub open spec fn anchors(list: Seq<LocatedModel>, id: Seq<char>, anchor: AnchorModel, i: int) -> bool {
    let at = list[i];
    at.detector_id == id && match anchor {
        AnchorModel::SoleLocation => true,
        AnchorModel::Categorized { category, suffix } => at.category == category && ends_with(at.path, suffix),
        AnchorModel::CategorizedExcept { category, except } => at.category == category && !excepted(at.path, except),
        AnchorModel::AncestorOfSibling { sibling, up, category } => at.category == category && (match sibling_from(
            list,
            id,
            sibling,
            0,
        ) {
            Some(p) => same_opt(above(p, up), at.path),
            None => false,
        }),
    }
}

/// The places among the first `n` that a declaration speaks of.
pub open spec fn anchored_upto(list: Seq<LocatedModel>, id: Seq<char>, anchor: AnchorModel, n: int) -> Seq<usize>
    decreases n,
{
    if n <= 0 {
        Seq::empty()
    } else if anchors(list, id, anchor, n - 1) {
        anchored_upto(list, id, anchor, n - 1).push((n - 1) as usize)
    } else {
        anchored_upto(list, id, anchor, n - 1)
    }
}

pub open spec fn anchored(list: Seq<LocatedModel>, id: Seq<char>, anchor: AnchorModel) -> Seq<usize> {
    anchored_upto(list, id, anchor, list.len() as int)
}

pub fn path_ends_with(path: &FsPath, suffix: &Vec<&'static str>) -> (r: bool)
    ensures
        r == ends_with(path@, strs(suffix@)),
{
    let n: usize = path.len();
    let m: usize = suffix.len();
    assert(strs(suffix@).len() == suffix@.len());
    if m > n {
        return false;
    }
    let ghost tail = path@.parts().skip(n - m);
    let mut i: usize = 0;
    while i < m
        invariant
            i <= m <= n,
            n == path@.len(),
            m == suffix@.len(),
            tail == path@.parts().skip(n - m),
            forall|k: int| 0 <= k < i ==> #[trigger] tail[k] == strs(suffix@)[k],
        decreases m - i,
    {
        assert(tail[i as int] == path@.parts()[n - m + i]);
        if !same(path.part(n - m + i), suffix[i]) {
            assert(tail[i as int] != strs(suffix@)[i as int]);
            return false;
        }
        i += 1;
    }
    assert(tail =~= strs(suffix@));
    true
}

fn is_excepted(path: &FsPath, except: &Vec<Vec<&'static str>>) -> (r: bool)
    ensures
        r == excepted(path@, str_lists(except@)),
{
    let ghost all = str_lists(except@);
    let mut i: usize = 0;
    while i < except.len()
        invariant
            i <= except@.len(),
            all == str_lists(except@),
            forall|k: int| 0 <= k < i ==> !ends_with(path@, #[trigger] all[k]),
        decreases except@.len() - i,
    {
        if path_ends_with(path, &except[i]) {
            assert(ends_with(path@, all[i as int]));
            return true;
        }
        i += 1;
    }
    false
}

fn find_above(path: &FsPath, up: usize) -> (r: Option<FsPath>)
    ensures
        crate::path::opt_path(r) == above(path@, up as nat),
    decreases up,
{
    if up == 0 {
        Some(path.copy())
    } else {
        match path.parent() {
            Some(p) => find_above(&p, up - 1),
            None => None,
        }
    }
}

fn find_sibling(list: &Vec<Located>, id: &str, category: StorageCategory) -> (r: Option<FsPath>)
    ensures
        crate::path::opt_path(r) == sibling_from(located_view(list@), id@, category, 0),
{
    let ghost all = located_view(list@);
    let mut i: usize = 0;
    while i < list.len()
        invariant
            i <= list@.len(),
            all == located_view(list@),
            sibling_from(all, id@, category, 0) == sibling_from(all, id@, category, i as int),
        decreases list@.len() - i,
    {
        assert(all[i as int] == list@[i as int]@);
        if same(list[i].detector_id.as_str(), id) && list[i].category == category {
            return Some(list[i].path.copy());
        }
        i += 1;
    }
    None
}

fn is_anchored(list: &Vec<Located>, id: &str, anchor: &StoreAnchor, i: usize) -> (r: bool)
    requires
        i < list@.len(),
    ensures
        r == anchors(located_view(list@), id@, anchor@, i as int),
{
    let at = &list[i];
    assert(located_view(list@)[i as int] == at@);
    if !same(at.detector_id.as_str(), id) {
        return false;
    }
    match anchor {
        StoreAnchor::SoleLocation => true,
        StoreAnchor::Categorized { category, suffix } => at.category == *category && path_ends_with(&at.path, suffix),
        StoreAnchor::CategorizedExcept { category, except } => {
            at.category == *category && !is_excepted(&at.path, except)
        },
        StoreAnchor::AncestorOfSibling { sibling, up, category } => {
            if at.category != *category {
                false
            } else {
                match find_sibling(list, id, *sibling) {
                    Some(p) => match find_above(&p, *up) {
                        Some(q) => q.same(&at.path),
                        None => false,
                    },
                    None => false,
                }
            }
        },
    }
}

/// The places of the locations that a detector's declaration speaks of.
pub fn anchored_places(list: &Vec<Located>, id: &str, anchor: &StoreAnchor) -> (r: Vec<usize>)
    ensures
        r@ == anchored(located_view(list@), id@, anchor@),
        forall|k: int| 0 <= k < r@.len() ==> (#[trigger] r@[k]) < list@.len(),
{
    let ghost all = located_view(list@);
    let mut out: Vec<usize> = Vec::new();
    let mut i: usize = 0;
    while i < list.len()
        invariant
            i <= list@.len(),
            all == located_view(list@),
            out@ == anchored_upto(all, id@, anchor@, i as int),
            forall|k: int| 0 <= k < out@.len() ==> (#[trigger] out@[k]) < list@.len(),
        decreases list@.len() - i,
    {
        if is_anchored(list, id, anchor, i) {
            out.push(i);
        }
        i += 1;
    }
    assert(all.len() == list@.len());
    out
}

// ---------------------------------------------------------------------
// Declarations
// ---------------------------------------------------------------------

/// Which of a detector's locations are build stores, and of which kind.
#[derive(Debug, Clone, PartialEq, Eq)]
pub struct BuildStoreDecl {
    pub kind: BuildStoreKind,
    pub anchor: StoreAnchor,
}

/// How installed versions lie under an installation.
#[derive(Debug, Clone, Copy, PartialEq, Eq, Structural)]
pub enum InstalledVersionLayout {
    VersionPerEntry,
    ToolThenVersion,
}

/// How installed versions are named.
#[derive(Debug, Clone, Copy, PartialEq, Eq, Structural)]
pub enum InstalledVersionNaming {
    AsDeclared,
    ChannelWithHostTriple,
}

/// Where a manager records its machine-wide default.
#[derive(Debug, Clone, Copy, PartialEq, Eq)]
pub struct GlobalDefaultFile {
    pub file_name: &'static str,
    pub field: &'static str,
}

/// How a store is asked for one package.
#[derive(Debug, Clone, Copy, PartialEq, Eq)]
pub enum StoreEntryLookup {
    RegistrySourceTree,
    GoModulePath,
    GradleModules,
    MavenLayout,
    /// Entries are named by what they hold, so no package can be looked up.
    ContentAddressed { basis: &'static str, reason: &'static str },
    /// The store can only be asked as a whole.
    WholeStore,
}

pub enum LookupModel {
    RegistrySourceTree,
    GoModulePath,
    GradleModules,
    MavenLayout,
    ContentAddressed { basis: Seq<char>, reason: Seq<char> },
    WholeStore,
}

impl View for StoreEntryLookup {
    type V = LookupModel;

    open spec fn view(&self) -> LookupModel {
        match self {
            StoreEntryLookup::RegistrySourceTree => LookupModel::RegistrySourceTree,
            StoreEntryLookup::GoModulePath => LookupModel::GoModulePath,
            StoreEntryLookup::GradleModules => LookupModel::GradleModules,
            StoreEntryLookup::MavenLayout => LookupModel::MavenLayout,
            StoreEntryLookup::ContentAddressed { basis, reason } => LookupModel::ContentAddressed {
                basis: basis@,
                reason: reason@,
            },
            StoreEntryLookup::WholeStore => LookupModel::WholeStore,
        }
    }
}

/// What a detector says its locations are for.
#[derive(Debug, Clone, PartialEq, Eq)]
pub enum ConventionRole {
    /// Its installations satisfy versions that these files declare.
    DeclaredVersions {
        declaration_files: Vec<&'static str>,
        layout: InstalledVersionLayout,
        naming: InstalledVersionNaming,
        global_default: Option<GlobalDefaultFile>,
    },
    /// It keeps an ecosystem's dependencies.
    DependencyStore { anchor: StoreAnchor, lookup: StoreEntryLookup },
    /// It keeps build output by project.
    BuildOutputWorkspaceIndex { anchor: StoreAnchor },
}

pub enum RoleModel {
    DeclaredVersions {
        declaration_files: Seq<Seq<char>>,
        layout: InstalledVersionLayout,
        naming: InstalledVersionNaming,
        global_default: Option<(Seq<char>, Seq<char>)>,
    },
    DependencyStore { anchor: AnchorModel, lookup: LookupModel },
    BuildOutputWorkspaceIndex { anchor: AnchorModel },
}

impl View for ConventionRole {
    type V = RoleModel;

    open spec fn view(&self) -> RoleModel {
        match self {
            ConventionRole::DeclaredVersions {
                declaration_files,
                layout,
                naming,
                global_default,
            } => RoleModel::DeclaredVersions {
                declaration_files: strs(declaration_files@),
                layout: *layout,
                naming: *naming,
                global_default: match global_default {
                    Some(g) => Some((g.file_name@, g.field@)),
                    None => None,
                },
            },
            ConventionRole::DependencyStore { anchor, lookup } => RoleModel::DependencyStore {
                anchor: anchor@,
                lookup: lookup@,
            },
            ConventionRole::BuildOutputWorkspaceIndex { anchor } => RoleModel::BuildOutputWorkspaceIndex {
                anchor: anchor@,
            },
        }
    }
}

/// One thing a detector declares, for one tool or ecosystem or for any.
#[derive(Debug, Clone, PartialEq, Eq)]
pub struct ManagerConvention {
    pub tool: Option<&'static str>,
    pub role: ConventionRole,
}

pub struct ConventionModel {
    pub tool: Option<Seq<char>>,
    pub role: RoleModel,
}

impl View for ManagerConvention {
    type V = ConventionModel;

    open spec fn view(&self) -> ConventionModel {
        ConventionModel {
            tool: match self.tool {
                Some(t) => Some(t@),
                None => None,
            },
            role: self.role@,
        }
    }
}

impl ConventionModel {
    /// Whether a convention speaks for a tool: its own, or any.
    pub open spec fn answers(self, tool: Seq<char>) -> bool {
        self.tool is None || self.tool == Some(tool)
    }
}

impl ManagerConvention {
    pub fn answers_for(&self, tool: &str) -> (r: bool)
        ensures
            r == self@.answers(tool@),
    {
        match self.tool {
            Some(t) => same(t, tool),
            None => true,
        }
    }

    pub fn is_for(&self, tool: &str) -> (r: bool)
        ensures
            r == (self@.tool == Some(tool@)),
    {
        match self.tool {
            Some(t) => same(t, tool),
            None => false,
        }
    }
}

/// One detector's declarations.
#[derive(Debug, Clone, PartialEq, Eq)]
pub struct Detector {
    pub id: &'static str,
    pub name: &'static str,
    pub build_stores: Vec<BuildStoreDecl>,
    pub manager_conventions: Vec<ManagerConvention>,
}

pub struct DeclModel {
    pub kind: BuildStoreKind,
    pub anchor: AnchorModel,
}

pub struct DetectorModel {
    pub id: Seq<char>,
    pub name: Seq<char>,
    pub build_stores: Seq<DeclModel>,
    pub manager_conventions: Seq<ConventionModel>,
}

impl View for BuildStoreDecl {
    type V = DeclModel;

    open spec fn view(&self) -> DeclModel {
        DeclModel { kind: self.kind, anchor: self.anchor@ }
    }
}

pub open spec fn decls_view(s: Seq<BuildStoreDecl>) -> Seq<DeclModel> {
    Seq::new(s.len(), |i: int| s[i]@)
}

pub open spec fn conventions_view(s: Seq<ManagerConvention>) -> Seq<ConventionModel> {
    Seq::new(s.len(), |i: int| s[i]@)
}

impl View for Detector {
    type V = DetectorModel;

    open spec fn view(&self) -> DetectorModel {
        DetectorModel {
            id: self.id@,
            name: self.name@,
            build_stores: decls_view(self.build_stores@),
            manager_conventions: conventions_view(self.manager_conventions@),
        }
    }
}

impl DetectorModel {
    pub open spec fn of(id: Seq<char>, name: Seq<char>) -> DetectorModel {
        DetectorModel { id, name, build_stores: Seq::empty(), manager_conventions: Seq::empty() }
    }

    pub open spec fn store(self, kind: BuildStoreKind, anchor: AnchorModel) -> DetectorModel {
        DetectorModel { build_stores: self.build_stores.push(DeclModel { kind, anchor }), ..self }
    }

    pub open spec fn convention(self, tool: Option<Seq<char>>, role: RoleModel) -> DetectorModel {
        DetectorModel { manager_conventions: self.manager_conventions.push(ConventionModel { tool, role }), ..self }
    }
}

impl Detector {
    pub fn of(id: &'static str, name: &'static str) -> (r: Self)
        ensures
            r@ == DetectorModel::of(id@, name@),
    {
        let r = Detector { id, name, build_stores: Vec::new(), manager_conventions: Vec::new() };
        assert(decls_view(r.build_stores@) =~= Seq::<DeclModel>::empty());
        assert(conventions_view(r.manager_conventions@) =~= Seq::<ConventionModel>::empty());
        r
    }

    /// Declares a build store.
    pub fn store(self, kind: BuildStoreKind, anchor: StoreAnchor) -> (r: Self)
        ensures
            r@ == self@.store(kind, anchor@),
    {
        let mut out = self;
        let ghost prior = out.build_stores@;
        let ghost am = anchor@;
        out.build_stores.push(BuildStoreDecl { kind, anchor });
        assert(decls_view(out.build_stores@) =~= decls_view(prior).push(DeclModel { kind, anchor: am }));
        out
    }

    /// Declares what its locations are for.
    pub fn convention(self, tool: Option<&'static str>, role: ConventionRole) -> (r: Self)
        ensures
            r@ == self@.convention(
                match tool {
                    Some(t) => Some(t@),
                    None => None,
                },
                role@,
            ),
    {
        let mut out = self;
        let ghost prior = out.manager_conventions@;
        let c = ManagerConvention { tool, role };
        let ghost cm = c@;
        out.manager_conventions.push(c);
        assert(conventions_view(out.manager_conventions@) =~= conventions_view(prior).push(cm));
        out
    }
}

pub open spec fn detectors_view(s: Seq<Detector>) -> Seq<DetectorModel> {
    Seq::new(s.len(), |i: int| s[i]@)
}

/// A catalog of detectors.
#[derive(Debug, Clone, PartialEq, Eq)]
pub struct Registry {
    pub list: Vec<Detector>,
}

impl View for Registry {
    type V = Seq<DetectorModel>;

    open spec fn view(&self) -> Seq<DetectorModel> {
        detectors_view(self.list@)
    }
}

impl Registry {
    pub fn detectors(&self) -> (r: &Vec<Detector>)
        ensures
            detectors_view(r@) == self@,
    {
        &self.list
    }
}

} // verus!
