//! Inspecting one Cargo profile: how its dependency files add up, by the
//! targets that fingerprints name.
//!
//! An inspection is bounded in entries, in time and in metadata bytes. Nothing
//! is followed through a link, and a file that no unique target-named
//! fingerprint matches stays a residual.

use crate::artifact::{no_variant, ArtifactVariant, VariantModel};
use crate::facts::{opt_stat, FileStat, StatModel};
use crate::json::{text_items, text_of_node, text_under, texts_in, JsonModel, JsonNode};
use crate::path::{file_name, paths, FsPath, PathModel};
use crate::text::{
    after_prefix, copy_opt, cut_first, cut_last, drop_prefix, first_piece, join_texts, joined, opt_text, piece_before,
    same, split_first, split_last, trim_suffixes, without_suffixes,
};
use vstd::prelude::*;

verus! {

/// Bounds for one explicit inspection, clamped to the ceilings below.
#[derive(Debug, Clone, Copy, PartialEq, Eq)]
pub struct CargoProfileInspectionLimits {
    pub max_entries: usize,
    /// Nanoseconds.
    pub max_duration: u64,
    pub max_metadata_bytes: usize,
}

impl Default for CargoProfileInspectionLimits {
    fn default() -> (r: Self)
        ensures
            r.max_entries == 262_144,
            r.max_duration == 5_000_000_000,
            r.max_metadata_bytes == 8_388_608,
    {
        CargoProfileInspectionLimits {
            max_entries: 262_144,
            max_duration: 5_000_000_000,
            max_metadata_bytes: 8_388_608,
        }
    }
}

pub const MAX_PROFILE_INSPECTION_ENTRIES: usize = 262_144;

/// Thirty seconds, in nanoseconds.
pub const MAX_PROFILE_INSPECTION_TIME: u64 = 30_000_000_000;

pub const MAX_PROFILE_METADATA_BYTES: usize = 67_108_864;

/// The bounds an inspection runs under.
#[derive(Debug, Clone, Copy, PartialEq, Eq)]
pub struct Bounds {
    pub entries: usize,
    pub nanos: u64,
    pub metadata: usize,
    /// The most bytes one fingerprint record may have.
    pub record: u32,
}

pub open spec fn clamped(n: int, low: int, high: int) -> int {
    if n < low {
        low
    } else if n > high {
        high
    } else {
        n
    }
}

pub open spec fn bounds_of(limits: CargoProfileInspectionLimits, record: u32) -> Bounds {
    Bounds {
        entries: clamped(limits.max_entries as int, 1, MAX_PROFILE_INSPECTION_ENTRIES as int) as usize,
        nanos: clamped(limits.max_duration as int, 1_000_000, MAX_PROFILE_INSPECTION_TIME as int) as u64,
        metadata: clamped(limits.max_metadata_bytes as int, 1, MAX_PROFILE_METADATA_BYTES as int) as usize,
        record,
    }
}

pub fn set_bounds(limits: &CargoProfileInspectionLimits, record: u32) -> (r: Bounds)
    ensures
        r == bounds_of(*limits, record),
        1 <= r.entries <= MAX_PROFILE_INSPECTION_ENTRIES,
        1 <= r.metadata <= MAX_PROFILE_METADATA_BYTES,
{
    let entries: usize = if limits.max_entries < 1 {
        1
    } else if limits.max_entries > MAX_PROFILE_INSPECTION_ENTRIES {
        MAX_PROFILE_INSPECTION_ENTRIES
    } else {
        limits.max_entries
    };
    let nanos: u64 = if limits.max_duration < 1_000_000 {
        1_000_000
    } else if limits.max_duration > MAX_PROFILE_INSPECTION_TIME {
        MAX_PROFILE_INSPECTION_TIME
    } else {
        limits.max_duration
    };
    let metadata: usize = if limits.max_metadata_bytes < 1 {
        1
    } else if limits.max_metadata_bytes > MAX_PROFILE_METADATA_BYTES {
        MAX_PROFILE_METADATA_BYTES
    } else {
        limits.max_metadata_bytes
    };
    Bounds { entries, nanos, metadata, record }
}

/// What is known at one moment of an inspection: whether it was cancelled, and
/// how many nanoseconds it has taken.
#[derive(Debug, Clone, Copy, PartialEq, Eq)]
pub struct Pulse {
    pub cancelled: bool,
    pub elapsed: u64,
}

/// A directory entry that was read: its name, and its own metadata where that
/// could be had.
#[derive(Debug, Clone)]
pub struct SeenEntry {
    pub name: String,
    pub stat: Option<FileStat>,
}

pub struct SeenModel {
    pub name: Seq<char>,
    pub stat: Option<StatModel>,
}

impl View for SeenEntry {
    type V = SeenModel;

    open spec fn view(&self) -> SeenModel {
        SeenModel { name: self.name@, stat: opt_stat(self.stat) }
    }
}

pub open spec fn opt_seen(o: Option<SeenEntry>) -> Option<SeenModel> {
    match o {
        Some(e) => Some(e@),
        None => None,
    }
}

/// What to do after an entry.
#[derive(Debug, Clone, Copy, PartialEq, Eq, Structural)]
pub enum EntryStep {
    /// Stop reading this tree.
    Stop,
    /// Go on with the next entry.
    Skip,
    /// Look inside: list the directory, or read the file.
    Open,
}

// ---------------------------------------------------------------------
// Fingerprint names
// ---------------------------------------------------------------------

/// The kind and target a fingerprint's stem names: the first prefix that fits.
pub open spec fn fingerprint_target(stem: Seq<char>) -> Option<(Seq<char>, Seq<char>)> {
    fingerprint_from(stem, 0)
}

pub open spec fn fingerprint_prefixes() -> Seq<(Seq<char>, Seq<char>)> {
    seq![
        ("test-integration-test-"@, "test-integration-test"@),
        ("integration-test-"@, "integration-test"@),
        ("test-example-"@, "test-example"@),
        ("test-proc-macro-"@, "test-proc-macro"@),
        ("test-bin-"@, "test-bin"@),
        ("test-lib-"@, "test-lib"@),
        ("proc-macro-"@, "proc-macro"@),
        ("example-"@, "example"@),
        ("bin-"@, "bin"@),
        ("lib-"@, "lib"@),
    ]
}

pub open spec fn fingerprint_from(stem: Seq<char>, i: int) -> Option<(Seq<char>, Seq<char>)>
    decreases fingerprint_prefixes().len() - i,
{
    if i < 0 || i >= fingerprint_prefixes().len() {
        None
    } else {
        match after_prefix(stem, fingerprint_prefixes()[i].0) {
            Some(target) => Some((fingerprint_prefixes()[i].1, target)),
            None => fingerprint_from(stem, i + 1),
        }
    }
}

pub open spec fn kind_target(o: Option<(&'static str, String)>) -> Option<(Seq<char>, Seq<char>)> {
    match o {
        Some(p) => Some((p.0@, p.1@)),
        None => None,
    }
}

pub fn parse_fingerprint_target(stem: &str) -> (r: Option<(&'static str, String)>)
    ensures
        kind_target(r) == fingerprint_target(stem@),
{
    let table: Vec<(&'static str, &'static str)> = vec![
        ("test-integration-test-", "test-integration-test"),
        ("integration-test-", "integration-test"),
        ("test-example-", "test-example"),
        ("test-proc-macro-", "test-proc-macro"),
        ("test-bin-", "test-bin"),
        ("test-lib-", "test-lib"),
        ("proc-macro-", "proc-macro"),
        ("example-", "example"),
        ("bin-", "bin"),
        ("lib-", "lib"),
    ];
    let ghost rows = fingerprint_prefixes();
    let mut i: usize = 0;
    while i < table.len()
        invariant
            i <= table@.len(),
            rows == fingerprint_prefixes(),
            table@.len() == rows.len(),
            forall|k: int| 0 <= k < rows.len() ==> (#[trigger] table@[k]).0@ == rows[k].0 && table@[k].1@ == rows[k].1,
            fingerprint_target(stem@) == fingerprint_from(stem@, i as int),
        decreases table@.len() - i,
    {
        assert(table@[i as int].0@ == rows[i as int].0);
        match drop_prefix(stem, table[i].0) {
            Some(target) => {
                return Some((table[i].1, target));
            },
            None => {},
        }
        i += 1;
    }
    None
}

// ---------------------------------------------------------------------
// Records
// ---------------------------------------------------------------------

/// What one fingerprint states of a build target.
#[derive(Debug, Clone)]
pub struct FingerprintRecord {
    pub hash: String,
    pub target: String,
    pub kind: String,
    pub features: Option<String>,
    pub package_id: Option<String>,
    pub toolchain: Option<String>,
    pub path: FsPath,
}

pub struct RecordModel {
    pub hash: Seq<char>,
    pub target: Seq<char>,
    pub kind: Seq<char>,
    pub features: Option<Seq<char>>,
    pub package_id: Option<Seq<char>>,
    pub toolchain: Option<Seq<char>>,
    pub path: PathModel,
}

impl View for FingerprintRecord {
    type V = RecordModel;

    open spec fn view(&self) -> RecordModel {
        RecordModel {
            hash: self.hash@,
            target: self.target@,
            kind: self.kind@,
            features: opt_text(self.features),
            package_id: opt_text(self.package_id),
            toolchain: opt_text(self.toolchain),
            path: self.path@,
        }
    }
}

pub open spec fn records_view(s: Seq<FingerprintRecord>) -> Seq<RecordModel> {
    Seq::new(s.len(), |i: int| s[i]@)
}

/// The features a record states: a text as it is, or a list joined by commas.
pub open spec fn stated_features(v: JsonModel) -> Option<Seq<char>> {
    match v.get("features"@) {
        Some(f) => match f.as_text() {
            Some(t) => Some(t),
            None => match f.as_list() {
                Some(list) => Some(joined(texts_in(list, list.len() as int), ","@)),
                None => None,
            },
        },
        None => None,
    }
}

pub fn features_of(v: &JsonNode) -> (r: Option<String>)
    ensures
        opt_text(r) == stated_features(v@),
{
    match v.get("features") {
        Some(f) => match f.as_text() {
            Some(t) => Some(t.to_owned()),
            None => match f.as_list() {
                Some(list) => {
                    let items = text_items(list);
                    proof {
                        crate::json::lemma_json_models(list@);
                    }
                    Some(join_texts(&items, ","))
                },
                None => None,
            },
        },
        None => None,
    }
}

/// The hash at the end of a fingerprint directory's name.
pub open spec fn directory_hash(dirname: Seq<char>) -> Seq<char> {
    match cut_last(dirname, '-') {
        Some((_, hash)) => hash,
        None => dirname,
    }
}

fn hash_of_directory(dirname: &str) -> (r: String)
    ensures
        r@ == directory_hash(dirname@),
{
    match split_last(dirname, '-') {
        Some((_, hash)) => hash,
        None => dirname.to_owned(),
    }
}

/// The record that a fingerprint file makes: nothing when its name names no
/// target.
pub open spec fn record_of(v: JsonModel, dirname: Seq<char>, filename: Seq<char>, path: PathModel) -> Option<RecordModel> {
    match fingerprint_target(without_suffixes(filename, ".json"@)) {
        Some((kind, target)) => Some(
            RecordModel {
                hash: directory_hash(dirname),
                target,
                kind,
                features: stated_features(v),
                package_id: text_under(v.get("package_id"@)),
                toolchain: text_under(v.get("rustc"@)),
                path,
            },
        ),
        None => None,
    }
}

pub fn read_record(v: &JsonNode, dirname: &str, filename: &str, path: FsPath) -> (r: Option<FingerprintRecord>)
    ensures
        match r {
            Some(x) => record_of(v@, dirname@, filename@, path@) == Some(x@),
            None => record_of(v@, dirname@, filename@, path@) is None,
        },
{
    let stem = trim_suffixes(filename, ".json");
    match parse_fingerprint_target(stem.as_str()) {
        Some((kind, target)) => Some(
            FingerprintRecord {
                hash: hash_of_directory(dirname),
                target,
                kind: kind.to_owned(),
                features: features_of(v),
                package_id: text_of_node(v.get("package_id")),
                toolchain: text_of_node(v.get("rustc")),
                path,
            },
        ),
        None => None,
    }
}

/// The hash in a dependency file's name.
pub open spec fn file_hash(filename: Seq<char>) -> Option<Seq<char>> {
    match cut_last(filename, '-') {
        Some((_, h)) => Some(first_piece(h, '.')),
        None => None,
    }
}

/// The target name in a dependency file's name.
pub open spec fn artifact_stem(filename: Seq<char>) -> Seq<char> {
    let bare = match after_prefix(filename, "lib"@) {
        Some(b) => b,
        None => filename,
    };
    match cut_first(bare, '-') {
        Some((name, _)) => name,
        None => Seq::empty(),
    }
}

fn stem_of_file(filename: &str) -> (r: String)
    ensures
        r@ == artifact_stem(filename@),
{
    let bare = match drop_prefix(filename, "lib") {
        Some(b) => b,
        None => filename.to_owned(),
    };
    match split_first(bare.as_str(), '-') {
        Some((name, _)) => name,
        None => {
            let s = String::new();
            assert(s@ =~= Seq::<char>::empty());
            s
        },
    }
}

pub open spec fn fits(r: RecordModel, hash: Seq<char>, stem: Seq<char>) -> bool {
    r.hash == hash && r.target == stem
}

/// The place of the first record that fits, from place `i` on.
pub open spec fn fitting_from(records: Seq<RecordModel>, hash: Seq<char>, stem: Seq<char>, i: int) -> int
    decreases records.len() - i,
{
    if i < 0 || i >= records.len() || fits(records[i], hash, stem) {
        i
    } else {
        fitting_from(records, hash, stem, i + 1)
    }
}

/// The one record that a dependency file's hash and name fit; nothing when none
/// does, or more than one.
pub open spec fn matching(records: Seq<RecordModel>, filename: Seq<char>) -> Option<RecordModel> {
    match file_hash(filename) {
        None => None,
        Some(hash) => {
            let stem = artifact_stem(filename);
            let first = fitting_from(records, hash, stem, 0);
            if first >= records.len() || fitting_from(records, hash, stem, first + 1) < records.len() {
                None
            } else {
                Some(records[first])
            }
        },
    }
}

fn find_fitting(records: &Vec<FingerprintRecord>, hash: &str, stem: &str, from: usize) -> (r: usize)
    requires
        from <= records@.len(),
    ensures
        r == fitting_from(records_view(records@), hash@, stem@, from as int),
        from <= r <= records@.len(),
{
    let ghost all = records_view(records@);
    let mut i: usize = from;
    while i < records.len()
        invariant
            from <= i <= records@.len(),
            all == records_view(records@),
            fitting_from(all, hash@, stem@, from as int) == fitting_from(all, hash@, stem@, i as int),
        decreases records@.len() - i,
    {
        assert(all[i as int] == records@[i as int]@);
        if same(records[i].hash.as_str(), hash) && same(records[i].target.as_str(), stem) {
            return i;
        }
        i += 1;
    }
    i
}

pub fn find_matching_record<'a>(records: &'a Vec<FingerprintRecord>, filename: &str) -> (r: Option<&'a FingerprintRecord>)
    ensures
        match r {
            Some(x) => matching(records_view(records@), filename@) == Some(x@),
            None => matching(records_view(records@), filename@) is None,
        },
{
    match split_last(filename, '-') {
        None => None,
        Some((_, h)) => {
            let hash = piece_before(h.as_str(), '.');
            let stem = stem_of_file(filename);
            let first = find_fitting(records, hash.as_str(), stem.as_str(), 0);
            if first >= records.len() {
                return None;
            }
            let second = find_fitting(records, hash.as_str(), stem.as_str(), first + 1);
            if second < records.len() {
                None
            } else {
                assert(records_view(records@)[first as int] == records@[first as int]@);
                Some(&records[first])
            }
        },
    }
}

// ---------------------------------------------------------------------
// Groups
// ---------------------------------------------------------------------

/// The dependency files of one build target, or of none that is known.
#[derive(Debug, Clone, PartialEq, Eq)]
pub struct CargoDependencyGroup {
    /// `None` for the residual group. A name comes from a target-named
    /// fingerprint file, never from a hash.
    pub target: Option<String>,
    pub target_kind: Option<String>,
    /// Only set when metadata states it directly.
    pub package_id: Option<String>,
    pub variant: ArtifactVariant,
    pub allocated_bytes: u64,
    /// Inode-deduplicated within this group.
    pub unique_allocated_bytes: u64,
    pub logical_bytes: u64,
    pub entries: usize,
    pub hardlinked_entries: usize,
    pub fingerprint_paths: Vec<FsPath>,
    pub residual_reason: Option<String>,
}

pub struct GroupModel {
    pub target: Option<Seq<char>>,
    pub target_kind: Option<Seq<char>>,
    pub package_id: Option<Seq<char>>,
    pub variant: VariantModel,
    pub allocated_bytes: u64,
    pub unique_allocated_bytes: u64,
    pub logical_bytes: u64,
    pub entries: usize,
    pub hardlinked_entries: usize,
    pub fingerprint_paths: Seq<PathModel>,
    pub residual_reason: Option<Seq<char>>,
}

impl View for CargoDependencyGroup {
    type V = GroupModel;

    open spec fn view(&self) -> GroupModel {
        GroupModel {
            target: opt_text(self.target),
            target_kind: opt_text(self.target_kind),
            package_id: opt_text(self.package_id),
            variant: self.variant@,
            allocated_bytes: self.allocated_bytes,
            unique_allocated_bytes: self.unique_allocated_bytes,
            logical_bytes: self.logical_bytes,
            entries: self.entries,
            hardlinked_entries: self.hardlinked_entries,
            fingerprint_paths: paths(self.fingerprint_paths@),
            residual_reason: opt_text(self.residual_reason),
        }
    }
}

pub open spec fn groups_view(s: Seq<CargoDependencyGroup>) -> Seq<GroupModel> {
    Seq::new(s.len(), |i: int| s[i]@)
}

pub const RESIDUAL_REASON: &'static str = "no unique target-named fingerprint matched this artifact";

/// Whether a group is the one of a record's target and variant, or for no
/// record the residual group.
pub open spec fn is_group_of(g: GroupModel, m: Option<RecordModel>) -> bool {
    match m {
        Some(r) => {
            &&& g.residual_reason is None
            &&& g.target == Some(r.target)
            &&& g.target_kind == Some(r.kind)
            &&& g.package_id == r.package_id
            &&& g.variant.features == r.features
            &&& g.variant.toolchain == r.toolchain
        },
        None => g.residual_reason is Some,
    }
}

/// The place of the first group of `m`, from place `i` on.
pub open spec fn group_from(groups: Seq<GroupModel>, m: Option<RecordModel>, i: int) -> int
    decreases groups.len() - i,
{
    if i < 0 || i >= groups.len() || is_group_of(groups[i], m) {
        i
    } else {
        group_from(groups, m, i + 1)
    }
}

/// A group with nothing in it yet.
pub open spec fn fresh_group(profile: PathModel, m: Option<RecordModel>) -> GroupModel {
    let v = VariantModel { profile: file_name(profile), ..no_variant() }.unknown("target triple/architecture"@);
    GroupModel {
        target: match m {
            Some(r) => Some(r.target),
            None => None,
        },
        target_kind: match m {
            Some(r) => Some(r.kind),
            None => None,
        },
        package_id: match m {
            Some(r) => r.package_id,
            None => None,
        },
        variant: match m {
            Some(r) => VariantModel { target: Some(r.target), features: r.features, toolchain: r.toolchain, ..v },
            None => v.unknown("target and package identity"@),
        },
        allocated_bytes: 0,
        unique_allocated_bytes: 0,
        logical_bytes: 0,
        entries: 0,
        hardlinked_entries: 0,
        fingerprint_paths: Seq::empty(),
        residual_reason: match m {
            Some(_) => None,
            None => Some(RESIDUAL_REASON@),
        },
    }
}

pub open spec fn opt_record(o: Option<&FingerprintRecord>) -> Option<RecordModel> {
    match o {
        Some(r) => Some(r@),
        None => None,
    }
}

pub fn make_group(profile: &FsPath, m: Option<&FingerprintRecord>) -> (r: CargoDependencyGroup)
    ensures
        r@ == fresh_group(profile@, opt_record(m)),
{
    let mut v = ArtifactVariant::none();
    v.profile = profile.file_name();
    let v = v.unknown("target triple/architecture");
    let none: Vec<FsPath> = Vec::new();
    assert(paths(none@) =~= Seq::<PathModel>::empty());
    match m {
        Some(r) => {
            let mut named = v;
            named.target = Some(r.target.as_str().to_owned());
            named.features = copy_opt(&r.features);
            named.toolchain = copy_opt(&r.toolchain);
            CargoDependencyGroup {
                target: Some(r.target.as_str().to_owned()),
                target_kind: Some(r.kind.as_str().to_owned()),
                package_id: copy_opt(&r.package_id),
                variant: named,
                allocated_bytes: 0,
                unique_allocated_bytes: 0,
                logical_bytes: 0,
                entries: 0,
                hardlinked_entries: 0,
                fingerprint_paths: none,
                residual_reason: None,
            }
        },
        None => CargoDependencyGroup {
            target: None,
            target_kind: None,
            package_id: None,
            variant: v.unknown("target and package identity"),
            allocated_bytes: 0,
            unique_allocated_bytes: 0,
            logical_bytes: 0,
            entries: 0,
            hardlinked_entries: 0,
            fingerprint_paths: none,
            residual_reason: Some(RESIDUAL_REASON.to_owned()),
        },
    }
}

fn opt_same(a: &Option<String>, b: &Option<String>) -> (r: bool)
    ensures
        r == (opt_text(*a) == opt_text(*b)),
{
    match (a, b) {
        (Some(x), Some(y)) => same(x.as_str(), y.as_str()),
        (None, None) => true,
        _ => false,
    }
}

fn opt_is_text(a: &Option<String>, b: &str) -> (r: bool)
    ensures
        r == (opt_text(*a) == Some(b@)),
{
    match a {
        Some(x) => same(x.as_str(), b),
        None => false,
    }
}

fn belongs(g: &CargoDependencyGroup, m: Option<&FingerprintRecord>) -> (r: bool)
    ensures
        r == is_group_of(g@, opt_record(m)),
{
    match m {
        Some(r) => g.residual_reason.is_none() && opt_is_text(&g.target, r.target.as_str()) && opt_is_text(
            &g.target_kind,
            r.kind.as_str(),
        ) && opt_same(&g.package_id, &r.package_id) && opt_same(&g.variant.features, &r.features) && opt_same(
            &g.variant.toolchain,
            &r.toolchain,
        ),
        None => g.residual_reason.is_some(),
    }
}

pub fn find_group_of(groups: &Vec<CargoDependencyGroup>, m: Option<&FingerprintRecord>) -> (r: usize)
    ensures
        r == group_from(groups_view(groups@), opt_record(m), 0),
        r <= groups@.len(),
{
    let ghost all = groups_view(groups@);
    let mut i: usize = 0;
    while i < groups.len()
        invariant
            i <= groups@.len(),
            all == groups_view(groups@),
            group_from(all, opt_record(m), 0) == group_from(all, opt_record(m), i as int),
        decreases groups@.len() - i,
    {
        assert(all[i as int] == groups@[i as int]@);
        if belongs(&groups[i], m) {
            return i;
        }
        i += 1;
    }
    i
}

} // verus!
