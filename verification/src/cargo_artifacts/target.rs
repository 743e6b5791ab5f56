//! Inspecting a whole target directory, and the fingerprints that tell its test
//! executables apart.

use super::totals::{
    aggregate_units, aggregated, charge_physical, charged, charges_fit, do_charges_fit, do_sizes_fit, rolled, sizes_fit,
};
use super::tree::{visit, visited, TargetNode, Visit, VisitModel, Visited};
use crate::artifact::{
    evidences, push_evidence, push_unit, relative, relative_path, storage_id, unit_id, units_view, AccountingBasis,
    ActionModel, ArtifactCoverage, ArtifactEvidence, ArtifactRole, ArtifactVariant, Confidence, CoverageModel,
    EvidenceModel, Membership, NestedActionCapability, NestedArtifact, TimeSource, UnitModel, VariantModel,
};
use crate::evidence::no_facts;
use crate::facts::{whole_manifest_of, FactModel, FileFacts, FileStat};
use crate::json::{opt_node, parse_json, parsed_json, JsonModel, JsonNode};
use crate::path::{extension, file_name, joined_path, parent, path_text, paths, same_path, FsPath, PathModel};
use crate::text::{
    after_prefix, begins, cat2, cat3, cut_at, cut_last, drop_prefix, extend_texts, opt_is, opt_text, push_text, same,
    split_at, split_last, starts, texts, trim_suffixes, without_suffixes,
};
use vstd::prelude::*;

verus! {

/// A target directory, inspected.
#[derive(Debug, Clone, PartialEq, Eq)]
pub struct CargoInspection {
    pub target_dir: FsPath,
    pub build_dir: Option<FsPath>,
    pub total_bytes: u64,
    pub physical_bytes: u64,
    pub units: Vec<NestedArtifact>,
    pub coverage: ArtifactCoverage,
}

// ---------------------------------------------------------------------
// Fingerprints
// ---------------------------------------------------------------------

/// What a fingerprint says of a test executable: which file it is, its target,
/// the record, and where the record is.
pub struct FactModelOf {
    pub dest: PathModel,
    pub target: Seq<char>,
    pub json: JsonModel,
    pub source: PathModel,
}

/// The test target a fingerprint's stem names.
pub open spec fn test_target(stem: Seq<char>) -> Option<Seq<char>> {
    match after_prefix(stem, "test-lib-"@) {
        Some(t) => Some(t),
        None => match after_prefix(stem, "test-bin-"@) {
            Some(t) => Some(t),
            None => after_prefix(stem, "test-integration-test-"@),
        },
    }
}

/// Whether a unit is a test's fingerprint record, by where it is.
pub open spec fn is_record(u: UnitModel) -> bool {
    &&& !u.is_dir
    &&& u.role == ArtifactRole::CompanionMetadata
    &&& cut_at(u.relative_path, "/.fingerprint/"@) is Some
    &&& extension(u.path) == Some("json"@)
    &&& file_name(u.path) matches Some(name) && begins(name, "test-"@)
}

/// The executable a record at `path` speaks of, and its target.
pub open spec fn executable_of(path: PathModel) -> Option<(PathModel, Seq<char>)> {
    match (file_name(path), parent(path)) {
        (Some(name), Some(dir)) => match file_name(dir) {
            Some(crate_hash) => match cut_last(crate_hash, '-') {
                Some((_, hash)) => match test_target(without_suffixes(name, ".json"@)) {
                    Some(target) => match parent(dir) {
                        Some(fingerprints) => match parent(fingerprints) {
                            Some(profile) => Some(
                                (
                                    joined_path(joined_path(profile, "deps"@), target + "-"@ + hash),
                                    target,
                                ),
                            ),
                            None => None,
                        },
                        None => None,
                    },
                    None => None,
                },
                None => None,
            },
            None => None,
        },
        _ => None,
    }
}

pub open spec fn fact_of_unit(u: UnitModel, facts: Seq<FactModel>) -> Option<FactModelOf> {
    if is_record(u) {
        match executable_of(u.path) {
            Some((dest, target)) => match whole_manifest_of(facts, u.path) {
                Some(m) => match parsed_json(m.text) {
                    Some(json) => Some(FactModelOf { dest, target, json, source: u.path }),
                    None => None,
                },
                None => None,
            },
            None => None,
        }
    } else {
        None
    }
}

/// What the records of the first `n` units say of a path: the last that speaks
/// of it.
pub open spec fn said_of(units: Seq<UnitModel>, facts: Seq<FactModel>, path: PathModel, n: int) -> Option<FactModelOf>
    decreases n,
{
    if n <= 0 {
        None
    } else {
        match fact_of_unit(units[n - 1], facts) {
            Some(f) => if same_path(f.dest, path) {
                Some(f)
            } else {
                said_of(units, facts, path, n - 1)
            },
            None => said_of(units, facts, path, n - 1),
        }
    }
}

/// A unit without what an earlier fingerprint said of it: such a thing is
/// current evidence, not identity.
pub open spec fn unsaid(u: UnitModel) -> UnitModel {
    if u.role == ArtifactRole::TestExecutable {
        UnitModel {
            role: ArtifactRole::Dependency,
            variant: VariantModel { target: None, features: None, toolchain: None, ..u.variant },
            action_group: None,
            producer_evidence: u.producer_evidence.filter(|e: EvidenceModel| e.source != "cargo-fingerprint"@),
            ..u
        }
    } else {
        u
    }
}

pub open spec fn node_text(n: Option<JsonModel>) -> Option<Seq<char>> {
    match n {
        Some(x) => Some(x.text),
        None => None,
    }
}

/// A unit that a fingerprint says is a test executable.
pub open spec fn said(root: PathModel, u: UnitModel, f: FactModelOf) -> UnitModel {
    UnitModel {
        role: ArtifactRole::TestExecutable,
        variant: VariantModel {
            target: Some(f.target),
            features: node_text(f.json.get("features"@)),
            toolchain: match node_text(f.json.get("rustc"@)) {
                Some(t) => Some("fingerprint:"@ + t),
                None => None,
            },
            ..u.variant
        },
        producer_evidence: u.producer_evidence.push(
            EvidenceModel {
                source: "cargo-fingerprint"@,
                detail: path_text(f.source),
                confidence: Confidence::Medium,
            },
        ),
        action_group: Some(storage_id(root, "action:"@ + u.relative_path)),
        ..u
    }
}

pub open spec fn enriched_unit(root: PathModel, units: Seq<UnitModel>, facts: Seq<FactModel>, i: int) -> UnitModel {
    let u = unsaid(units[i]);
    match said_of(units, facts, u.path, units.len() as int) {
        Some(f) => said(root, u, f),
        None => u,
    }
}

/// Units with the test executables that fingerprints tell apart. Fingerprints
/// describe an observed build variant, never current intent.
pub open spec fn enriched(root: PathModel, units: Seq<UnitModel>, facts: Seq<FactModel>) -> Seq<UnitModel> {
    Seq::new(units.len(), |i: int| enriched_unit(root, units, facts, i))
}

struct Fact {
    dest: FsPath,
    target: String,
    json: JsonNode,
    source: FsPath,
}

impl View for Fact {
    type V = FactModelOf;

    closed spec fn view(&self) -> FactModelOf {
        FactModelOf { dest: self.dest@, target: self.target@, json: self.json@, source: self.source@ }
    }
}

fn find_test_target(stem: &str) -> (r: Option<String>)
    ensures
        opt_text(r) == test_target(stem@),
{
    match drop_prefix(stem, "test-lib-") {
        Some(t) => Some(t),
        None => match drop_prefix(stem, "test-bin-") {
            Some(t) => Some(t),
            None => drop_prefix(stem, "test-integration-test-"),
        },
    }
}

fn is_test_record(u: &NestedArtifact) -> (r: bool)
    ensures
        r == is_record(u@),
{
    if u.is_dir || u.role != ArtifactRole::CompanionMetadata {
        return false;
    }
    if split_at(u.relative_path.as_str(), "/.fingerprint/").is_none() {
        return false;
    }
    let ext = u.path.extension();
    if !opt_is(&ext, "json") {
        return false;
    }
    match u.path.file_name() {
        Some(name) => starts(name.as_str(), "test-"),
        None => false,
    }
}

fn find_executable(path: &FsPath) -> (r: Option<(FsPath, String)>)
    ensures
        match r {
            Some(p) => executable_of(path@) == Some((p.0@, p.1@)),
            None => executable_of(path@) is None,
        },
{
    let name = match path.file_name() {
        Some(n) => n,
        None => {
            return None;
        },
    };
    let dir = match path.parent() {
        Some(d) => d,
        None => {
            return None;
        },
    };
    let crate_hash = match dir.file_name() {
        Some(n) => n,
        None => {
            return None;
        },
    };
    let hash = match split_last(crate_hash.as_str(), '-') {
        Some(p) => p.1,
        None => {
            return None;
        },
    };
    let stem = trim_suffixes(name.as_str(), ".json");
    let target = match find_test_target(stem.as_str()) {
        Some(t) => t,
        None => {
            return None;
        },
    };
    let fingerprints = match dir.parent() {
        Some(p) => p,
        None => {
            return None;
        },
    };
    match fingerprints.parent() {
        Some(profile) => {
            let file = cat3(target.as_str(), "-", hash.as_str());
            Some((profile.join("deps").join(file.as_str()), target))
        },
        None => None,
    }
}

fn find_fact(u: &NestedArtifact, facts: &FileFacts) -> (r: Option<Fact>)
    ensures
        match r {
            Some(f) => fact_of_unit(u@, facts@) == Some(f@),
            None => fact_of_unit(u@, facts@) is None,
        },
{
    if !is_test_record(u) {
        return None;
    }
    match find_executable(&u.path) {
        Some((dest, target)) => match facts.whole_manifest(&u.path) {
            Some(m) => match parse_json(m.text.as_str()) {
                Some(json) => Some(Fact { dest, target, json, source: u.path.copy() }),
                None => None,
            },
            None => None,
        },
        None => None,
    }
}

spec fn opt_facts(s: Seq<Option<Fact>>) -> Seq<Option<FactModelOf>> {
    Seq::new(
        s.len(),
        |i: int|
            match s[i] {
                Some(f) => Some(f@),
                None => None,
            },
    )
}

spec fn unit_facts(units: Seq<UnitModel>, facts: Seq<FactModel>) -> Seq<Option<FactModelOf>> {
    Seq::new(units.len(), |i: int| fact_of_unit(units[i], facts))
}

fn find_facts(units: &Vec<NestedArtifact>, facts: &FileFacts) -> (r: Vec<Option<Fact>>)
    ensures
        opt_facts(r@) == unit_facts(units_view(units@), facts@),
{
    let ghost all = units_view(units@);
    let mut out: Vec<Option<Fact>> = Vec::new();
    let mut i: usize = 0;
    assert(opt_facts(out@) =~= unit_facts(all, facts@).take(0));
    while i < units.len()
        invariant
            i <= units@.len(),
            all == units_view(units@),
            opt_facts(out@) == unit_facts(all, facts@).take(i as int),
        decreases units@.len() - i,
    {
        assert(all[i as int] == units@[i as int]@);
        let f = find_fact(&units[i], facts);
        let ghost prior = out@;
        let ghost fm = f;
        out.push(f);
        i += 1;
        assert(opt_facts(out@) =~= unit_facts(all, facts@).take(i as int)) by {
            assert(opt_facts(prior).len() == prior.len());
            assert forall|k: int| 0 <= k < out@.len() implies opt_facts(out@)[k] == unit_facts(all, facts@)[k] by {
                if k < prior.len() {
                    assert(opt_facts(prior)[k] == unit_facts(all, facts@).take(i - 1)[k]);
                } else {
                    assert(out@[k] == fm);
                }
            }
        }
    }
    assert(unit_facts(all, facts@).take(i as int) =~= unit_facts(all, facts@));
    out
}

fn find_said<'a>(known: &'a Vec<Option<Fact>>, path: &FsPath, Ghost(units): Ghost<Seq<UnitModel>>, Ghost(facts): Ghost<Seq<FactModel>>) -> (r: Option<&'a Fact>)
    requires
        opt_facts(known@) == unit_facts(units, facts),
    ensures
        match r {
            Some(f) => said_of(units, facts, path@, units.len() as int) == Some(f@),
            None => said_of(units, facts, path@, units.len() as int) is None,
        },
{
    let ghost all = unit_facts(units, facts);
    assert(known@.len() == opt_facts(known@).len());
    let mut n: usize = known.len();
    while n > 0
        invariant
            n <= known@.len(),
            known@.len() == units.len(),
            all == unit_facts(units, facts),
            opt_facts(known@) == all,
            said_of(units, facts, path@, units.len() as int) == said_of(units, facts, path@, n as int),
        decreases n,
    {
        assert(all[n - 1] == fact_of_unit(units[n - 1], facts));
        assert(opt_facts(known@)[n - 1] == all[n - 1]);
        match &known[n - 1] {
            Some(f) => {
                if f.dest.same(path) {
                    return Some(f);
                }
            },
            None => {},
        }
        n -= 1;
    }
    None
}

fn without_fingerprints(list: &Vec<ArtifactEvidence>) -> (r: Vec<ArtifactEvidence>)
    ensures
        evidences(r@) == evidences(list@).filter(|e: EvidenceModel| e.source != "cargo-fingerprint"@),
{
    let ghost all = evidences(list@);
    let ghost keep = |e: EvidenceModel| e.source != "cargo-fingerprint"@;
    let mut out: Vec<ArtifactEvidence> = Vec::new();
    let mut i: usize = 0;
    assert(evidences(out@) =~= all.take(0).filter(keep)) by {
        reveal(Seq::filter);
    }
    while i < list.len()
        invariant
            i <= list@.len(),
            all == evidences(list@),
            keep == (|e: EvidenceModel| e.source != "cargo-fingerprint"@),
            evidences(out@) == all.take(i as int).filter(keep),
        decreases list@.len() - i,
    {
        assert(all[i as int] == list@[i as int]@);
        if !same(list[i].source.as_str(), "cargo-fingerprint") {
            push_evidence(&mut out, list[i].copy());
        }
        proof {
            crate::build_adapters::container::lemma_filter_step(all, keep, i as int);
        }
        i += 1;
    }
    assert(all.take(i as int) =~= all);
    out
}

fn forget(u: &NestedArtifact) -> (r: NestedArtifact)
    ensures
        r@ == unsaid(u@),
{
    let mut out = u.copy();
    if u.role == ArtifactRole::TestExecutable {
        out.role = ArtifactRole::Dependency;
        out.variant.target = None;
        out.variant.features = None;
        out.variant.toolchain = None;
        out.action_group = None;
        out.producer_evidence = without_fingerprints(&u.producer_evidence);
    }
    out
}

fn text_of_json(n: Option<&JsonNode>) -> (r: Option<String>)
    ensures
        opt_text(r) == node_text(opt_node(n)),
{
    match n {
        Some(x) => Some(x.text.as_str().to_owned()),
        None => None,
    }
}

fn say(root: &FsPath, u: NestedArtifact, f: &Fact) -> (r: NestedArtifact)
    ensures
        r@ == said(root@, u@, f@),
{
    let mut out = u;
    let group = cat2("action:", out.relative_path.as_str());
    out.action_group = Some(NestedArtifact::storage_id(root, group.as_str()));
    out.role = ArtifactRole::TestExecutable;
    out.variant.target = Some(f.target.as_str().to_owned());
    out.variant.features = text_of_json(f.json.get("features"));
    out.variant.toolchain = match text_of_json(f.json.get("rustc")) {
        Some(t) => Some(cat2("fingerprint:", t.as_str())),
        None => None,
    };
    let detail = f.source.text();
    push_evidence(
        &mut out.producer_evidence,
        ArtifactEvidence::of("cargo-fingerprint", detail.as_str(), Confidence::Medium),
    );
    out
}

/// Tells test executables apart by their fingerprints, without running Cargo.
pub fn enrich_fingerprints(root: &FsPath, units: &mut Vec<NestedArtifact>, facts: &FileFacts)
    ensures
        units_view(final(units)@) == enriched(root@, units_view(old(units)@), facts@),
{
    let ghost all = units_view(units@);
    let known = find_facts(units, facts);
    let mut out: Vec<NestedArtifact> = Vec::new();
    let mut i: usize = 0;
    assert(units_view(out@) =~= enriched(root@, all, facts@).take(0));
    while i < units.len()
        invariant
            i <= units@.len(),
            all == units_view(units@),
            opt_facts(known@) == unit_facts(all, facts@),
            units_view(out@) == enriched(root@, all, facts@).take(i as int),
        decreases units@.len() - i,
    {
        assert(all[i as int] == units@[i as int]@);
        let u = forget(&units[i]);
        let next = match find_said(&known, &u.path, Ghost(all), Ghost(facts@)) {
            Some(f) => say(root, u, f),
            None => u,
        };
        push_unit(&mut out, next);
        i += 1;
        assert(units_view(out@) =~= enriched(root@, all, facts@).take(i as int));
    }
    assert(enriched(root@, all, facts@).take(i as int) =~= enriched(root@, all, facts@));
    *units = out;
}

/// A fingerprint changes what a unit is said to be, never which unit it is or
/// what it holds.
pub proof fn law_enrichment_keeps_identity(root: PathModel, units: Seq<UnitModel>, facts: Seq<FactModel>, i: int)
    requires
        0 <= i < units.len(),
    ensures
        enriched(root, units, facts)[i].same_identity(units[i]),
        enriched(root, units, facts)[i].bytes == units[i].bytes,
        enriched(root, units, facts)[i].physical_total == units[i].physical_total,
        enriched(root, units, facts)[i].role == ArtifactRole::TestExecutable <==> said_of(
            units,
            facts,
            units[i].path,
            units.len() as int,
        ) is Some,
{
}

// ---------------------------------------------------------------------
// The inspection
// ---------------------------------------------------------------------

pub open spec fn covered_unit(u: UnitModel, limits: Seq<Seq<char>>, complete: bool, owned: bool) -> UnitModel {
    UnitModel {
        coverage: CoverageModel {
            supported: owned && complete,
            complete,
            limits: u.coverage.limits + limits,
        },
        ..u
    }
}

/// Every unit with how far the whole walk was understood and read.
pub open spec fn covered_units(units: Seq<UnitModel>, limits: Seq<Seq<char>>, complete: bool, owned: bool) -> Seq<UnitModel> {
    Seq::new(units.len(), |i: int| covered_unit(units[i], limits, complete, owned))
}

/// What is said of a directory that no workspace is known for.
pub const UNOWNED: &'static str = "Cargo.toml was not established; ownership unknown";

pub open spec fn walk_limits(w: Visited, owned: bool) -> Seq<Seq<char>> {
    if owned {
        w.limits
    } else {
        w.limits.push(UNOWNED@)
    }
}

/// The units of a walk before anything is added up.
pub open spec fn plain_units(w: Visited, owned: bool) -> Seq<UnitModel> {
    covered_units(w.units, walk_limits(w, owned), w.limits.len() == 0, owned)
}

/// The units of a walk, added up and charged.
pub open spec fn added_units(w: Visited, owned: bool) -> Seq<UnitModel> {
    let plain = plain_units(w, owned);
    let sized = aggregated(plain, plain.len() as int);
    rolled(charged(sized), sized.len() as int)
}

/// Whether everything an inspection adds up fits.
pub open spec fn inspection_fits(w: Visited, owned: bool) -> bool {
    let plain = plain_units(w, owned);
    let sized = aggregated(plain, plain.len() as int);
    &&& sizes_fit(plain, plain.len() as int)
    &&& charges_fit(charged(sized), sized.len() as int)
    &&& physical_sum(added_units(w, owned), added_units(w, owned).len() as int) <= u64::MAX
}

pub open spec fn physical_sum(units: Seq<UnitModel>, n: int) -> nat
    decreases n,
{
    if n <= 0 {
        0
    } else {
        physical_sum(units, n - 1) + units[n - 1].physical_bytes as nat
    }
}

/// Whether an inspection is that of a walk.
pub open spec fn inspects(r: CargoInspection, root: PathModel, w: Visited, owned: bool, facts: Seq<FactModel>) -> bool {
    let units = added_units(w, owned);
    &&& r.target_dir@ == root
    &&& r.build_dir is None
    &&& units_view(r.units@) == enriched(root, units, facts)
    &&& r.physical_bytes == physical_sum(units, units.len() as int)
    &&& r.total_bytes == (if units.len() > 0 {
        units[0].bytes
    } else {
        0
    })
    &&& r.coverage@ == CoverageModel {
        supported: owned && w.limits.len() == 0,
        complete: w.limits.len() == 0,
        limits: walk_limits(w, owned),
    }
}

fn cover_units(units: &Vec<NestedArtifact>, limits: &Vec<String>, complete: bool, owned: bool) -> (r: Vec<NestedArtifact>)
    ensures
        units_view(r@) == covered_units(units_view(units@), texts(limits@), complete, owned),
{
    let ghost all = units_view(units@);
    let ghost want = covered_units(all, texts(limits@), complete, owned);
    let mut out: Vec<NestedArtifact> = Vec::new();
    let mut i: usize = 0;
    assert(units_view(out@) =~= want.take(0));
    while i < units.len()
        invariant
            i <= units@.len(),
            all == units_view(units@),
            want == covered_units(all, texts(limits@), complete, owned),
            units_view(out@) == want.take(i as int),
        decreases units@.len() - i,
    {
        assert(all[i as int] == units@[i as int]@);
        let mut u = units[i].copy();
        u.coverage.supported = owned && complete;
        u.coverage.complete = complete;
        extend_texts(&mut u.coverage.limits, limits);
        assert(u@ == covered_unit(all[i as int], texts(limits@), complete, owned));
        push_unit(&mut out, u);
        i += 1;
        assert(units_view(out@) =~= want.take(i as int));
    }
    assert(want.take(i as int) =~= want);
    out
}

proof fn lemma_physical_grows(units: Seq<UnitModel>, n: int, m: int)
    requires
        n <= m,
    ensures
        physical_sum(units, n) <= physical_sum(units, m),
    decreases m - n,
{
    if n < m {
        lemma_physical_grows(units, n, m - 1);
    }
}

fn sum_physical(units: &Vec<NestedArtifact>) -> (r: u64)
    requires
        physical_sum(units_view(units@), units@.len() as int) <= u64::MAX,
    ensures
        r == physical_sum(units_view(units@), units@.len() as int),
{
    let ghost all = units_view(units@);
    let mut sum: u64 = 0;
    let mut i: usize = 0;
    while i < units.len()
        invariant
            i <= units@.len(),
            all == units_view(units@),
            sum == physical_sum(all, i as int),
            physical_sum(all, units@.len() as int) <= u64::MAX,
        decreases units@.len() - i,
    {
        proof {
            assert(all[i as int] == units@[i as int]@);
            lemma_physical_grows(all, i + 1, units@.len() as int);
        }
        sum = sum + units[i].physical_bytes;
        i += 1;
    }
    sum
}

/// What a refresh of a target directory walks by.
pub open spec fn refresh(target_dir: PathModel, cached: Seq<UnitModel>, changed: Option<Seq<PathModel>>) -> VisitModel {
    VisitModel { root: target_dir, scope: storage_id(target_dir, Seq::empty()), cached, changed }
}

/// Tests whether the physical bytes of units fit together.
fn does_physical_fit(units: &Vec<NestedArtifact>) -> (r: bool)
    ensures
        r == (physical_sum(units_view(units@), units@.len() as int) <= u64::MAX),
{
    let ghost all = units_view(units@);
    let mut sum: u64 = 0;
    let mut i: usize = 0;
    while i < units.len()
        invariant
            i <= units@.len(),
            all == units_view(units@),
            sum == physical_sum(all, i as int),
        decreases units@.len() - i,
    {
        assert(all[i as int] == units@[i as int]@);
        proof {
            lemma_physical_grows(all, i + 1, units@.len() as int);
        }
        if units[i].physical_bytes > u64::MAX - sum {
            return false;
        }
        sum = sum + units[i].physical_bytes;
        i += 1;
    }
    true
}

/// Tests what an inspection asks of what was read: that everything it adds up
/// fits.
pub fn does_inspection_fit(
    target_dir: &FsPath,
    workspace_root: Option<&FsPath>,
    cached: &Vec<NestedArtifact>,
    changed: Option<&Vec<FsPath>>,
    seen: &TargetNode,
) -> (r: bool)
    ensures
        r == inspection_fits(
            visited(
                refresh(
                    target_dir@,
                    units_view(cached@),
                    match changed {
                        Some(v) => Some(paths(v@)),
                        None => None,
                    },
                ),
                *seen,
            ),
            workspace_root is Some,
        ),
{
    let scope = NestedArtifact::storage_id(target_dir, "");
    proof {
        reveal_strlit("");
        assert(""@ =~= Seq::<char>::empty());
    }
    let v = Visit { root: target_dir, scope, cached, changed };
    let ghost w = visited(v@, *seen);
    let (found, why) = visit(&v, seen);
    let mut limits = why;
    let owned = workspace_root.is_some();
    assert(texts(limits@).len() == limits@.len());
    let complete = limits.len() == 0;
    if !owned {
        push_text(&mut limits, UNOWNED);
    }
    assert(texts(limits@) == walk_limits(w, owned));
    let mut units = cover_units(&found, &limits, complete, owned);
    assert(units_view(units@) == plain_units(w, owned));
    assert(units@.len() == plain_units(w, owned).len());
    if !do_sizes_fit(&units) {
        return false;
    }
    aggregate_units(&mut units);
    let ghost sized = units_view(units@);
    assert(units@.len() == sized.len());
    if !do_charges_fit(&units) {
        return false;
    }
    charge_physical(&mut units);
    assert(units_view(units@) == added_units(w, owned));
    assert(units@.len() == added_units(w, owned).len());
    does_physical_fit(&units)
}

/// A refresh: only what a complete batch of changes names is read again;
/// unaffected subtrees are taken over from before.
pub fn inspect_target_incremental(
    target_dir: &FsPath,
    workspace_root: Option<&FsPath>,
    cached: &Vec<NestedArtifact>,
    changed: Option<&Vec<FsPath>>,
    seen: &TargetNode,
    facts: &FileFacts,
) -> (r: CargoInspection)
    requires
        inspection_fits(
            visited(
                refresh(
                    target_dir@,
                    units_view(cached@),
                    match changed {
                        Some(v) => Some(paths(v@)),
                        None => None,
                    },
                ),
                *seen,
            ),
            workspace_root is Some,
        ),
    ensures
        inspects(
            r,
            target_dir@,
            visited(
                refresh(
                    target_dir@,
                    units_view(cached@),
                    match changed {
                        Some(v) => Some(paths(v@)),
                        None => None,
                    },
                ),
                *seen,
            ),
            workspace_root is Some,
            facts@,
        ),
        r.coverage.supported <==> workspace_root is Some && r.coverage.complete,
        r.coverage.complete <==> r.coverage.limits@.len() == (if workspace_root is Some {
            0int
        } else {
            1
        }),
        workspace_root is None ==> texts(r.coverage.limits@).contains(UNOWNED@),
{
    let scope = NestedArtifact::storage_id(target_dir, "");
    proof {
        reveal_strlit("");
        assert(""@ =~= Seq::<char>::empty());
    }
    let v = Visit { root: target_dir, scope, cached, changed };
    let ghost w = visited(v@, *seen);
    let (found, why) = visit(&v, seen);
    let mut limits = why;
    let owned = workspace_root.is_some();
    assert(texts(limits@).len() == limits@.len());
    let complete = limits.len() == 0;
    if !owned {
        push_text(&mut limits, UNOWNED);
    }
    assert(texts(limits@) == walk_limits(w, owned));
    let mut units = cover_units(&found, &limits, complete, owned);
    let ghost plain = plain_units(w, owned);
    assert(units_view(units@) == plain);
    assert(units@.len() == plain.len());
    aggregate_units(&mut units);
    let ghost sized = units_view(units@);
    assert(units@.len() == sized.len());
    charge_physical(&mut units);
    let ghost added = units_view(units@);
    assert(units@.len() == added.len());
    let physical_bytes = sum_physical(&units);
    let total_bytes: u64 = if units.len() > 0 {
        assert(added[0] == units@[0]@);
        units[0].bytes
    } else {
        0
    };
    enrich_fingerprints(target_dir, &mut units, facts);
    assert(texts(limits@).len() == limits@.len());
    proof {
        if !owned {
            assert(texts(limits@).last() == UNOWNED@);
        }
    }
    CargoInspection {
        target_dir: target_dir.copy(),
        build_dir: None,
        total_bytes,
        physical_bytes,
        units,
        coverage: ArtifactCoverage { supported: owned && complete, complete, limits },
    }
}

/// Inspects a target directory with nothing kept from before.
pub fn inspect_target(
    target_dir: &FsPath,
    workspace_root: Option<&FsPath>,
    seen: &TargetNode,
    facts: &FileFacts,
) -> (r: CargoInspection)
    requires
        inspection_fits(
            visited(refresh(target_dir@, Seq::empty(), None), *seen),
            workspace_root is Some,
        ),
    ensures
        inspects(
            r,
            target_dir@,
            visited(refresh(target_dir@, Seq::empty(), None), *seen),
            workspace_root is Some,
            facts@,
        ),
        r.coverage.supported <==> workspace_root is Some && r.coverage.complete,
        r.coverage.complete <==> r.coverage.limits@.len() == (if workspace_root is Some {
            0int
        } else {
            1
        }),
        workspace_root is None ==> texts(r.coverage.limits@).contains(UNOWNED@),
{
    let none: Vec<NestedArtifact> = Vec::new();
    assert(units_view(none@) =~= Seq::<UnitModel>::empty());
    inspect_target_incremental(target_dir, workspace_root, &none, None, seen, facts)
}

// ---------------------------------------------------------------------
// Reviewing one unit again
// ---------------------------------------------------------------------

/// A path that is looked at again, and what Cargo's layout makes of it.
pub struct ReviewedPath {
    pub path: FsPath,
    pub role: ArtifactRole,
    pub variant: ArtifactVariant,
}

pub struct ReviewedModel {
    pub path: PathModel,
    pub role: ArtifactRole,
    pub variant: VariantModel,
}

impl View for ReviewedPath {
    type V = ReviewedModel;

    open spec fn view(&self) -> ReviewedModel {
        ReviewedModel { path: self.path@, role: self.role, variant: self.variant@ }
    }
}

/// The unit of a path of which only the place is known.
pub open spec fn folded_node(root: PathModel, at: ReviewedModel, is_dir: bool) -> UnitModel {
    let scope = storage_id(root, Seq::empty());
    let rel = relative(root, at.path);
    UnitModel {
        id: unit_id(scope, rel),
        path: at.path,
        relative_path: rel,
        parent_id: if same_path(at.path, root) {
            None
        } else {
            match parent(at.path) {
                Some(p) => Some(unit_id(scope, relative(root, p))),
                None => None,
            }
        },
        container_id: Some(scope),
        role: at.role,
        membership: Membership::Unknown,
        is_dir,
        device: 0,
        inode: 0,
        logical_bytes: 0,
        bytes: 0,
        physical_bytes: 0,
        physical_total: 0,
        mtime_max: 0,
        variant: at.variant,
        producer_evidence: seq![
            EvidenceModel {
                source: "cargo-folded-v2"@,
                detail: "directory aggregates; internal files are not retained"@,
                confidence: Confidence::High,
            },
        ],
        consumer_evidence: Seq::empty(),
        coverage: CoverageModel {
            supported: true,
            complete: true,
            limits: seq!["internal file history and subgroup hardlink attribution are not retained"@],
        },
        action_group: None,
        present: true,
        growth_bytes: None,
        regrowth_count: 0,
        decision_evidence: Seq::empty(),
        adapter: Some("cargo"@),
        basis: AccountingBasis::Allocated,
        time_source: TimeSource::FileModification,
        action: ActionModel::InspectionOnly,
        consequence: None,
        reported_by: None,
        writer_lock: None,
    }
}

/// The selected unit, then its recorded fingerprints.
pub open spec fn reviewed_units(root: PathModel, selected: ReviewedModel, is_dir: bool, fingerprints: Seq<ReviewedModel>) -> Seq<UnitModel> {
    seq![folded_node(root, selected, is_dir)] + Seq::new(
        fingerprints.len(),
        |i: int| folded_node(root, fingerprints[i], false),
    )
}

pub open spec fn reviewed_view(s: Seq<ReviewedPath>) -> Seq<ReviewedModel> {
    Seq::new(s.len(), |i: int| s[i]@)
}

fn make_folded_node(root: &FsPath, at: &ReviewedPath, is_dir: bool) -> (r: NestedArtifact)
    ensures
        r@ == folded_node(root@, at@, is_dir),
{
    let scope = NestedArtifact::storage_id(root, "");
    proof {
        reveal_strlit("");
        assert(""@ =~= Seq::<char>::empty());
    }
    let rel = relative_path(root, &at.path);
    let mut limits: Vec<String> = Vec::new();
    push_text(&mut limits, "internal file history and subgroup hardlink attribution are not retained");
    assert(texts(limits@) =~= seq!["internal file history and subgroup hardlink attribution are not retained"@]);
    let mut producer: Vec<ArtifactEvidence> = Vec::new();
    push_evidence(
        &mut producer,
        ArtifactEvidence::of(
            "cargo-folded-v2",
            "directory aggregates; internal files are not retained",
            Confidence::High,
        ),
    );
    assert(evidences(producer@) =~= seq![
        EvidenceModel {
            source: "cargo-folded-v2"@,
            detail: "directory aggregates; internal files are not retained"@,
            confidence: Confidence::High,
        },
    ]);
    let consumer: Vec<ArtifactEvidence> = Vec::new();
    assert(evidences(consumer@) =~= Seq::<EvidenceModel>::empty());
    let parent_id = if at.path.same(root) {
        None
    } else {
        match at.path.parent() {
            Some(p) => {
                let above = relative_path(root, &p);
                Some(NestedArtifact::within(scope.as_str(), above.as_str()))
            },
            None => None,
        }
    };
    NestedArtifact {
        id: NestedArtifact::within(scope.as_str(), rel.as_str()),
        path: at.path.copy(),
        relative_path: rel,
        parent_id,
        container_id: Some(scope),
        role: at.role,
        membership: Membership::Unknown,
        is_dir,
        device: 0,
        inode: 0,
        logical_bytes: 0,
        bytes: 0,
        physical_bytes: 0,
        physical_total: 0,
        mtime_max: 0,
        variant: at.variant.copy(),
        producer_evidence: producer,
        consumer_evidence: consumer,
        coverage: ArtifactCoverage { supported: true, complete: true, limits },
        action_group: None,
        present: true,
        growth_bytes: None,
        regrowth_count: 0,
        decision_evidence: no_facts(),
        adapter: Some("cargo".to_owned()),
        basis: AccountingBasis::Allocated,
        time_source: TimeSource::FileModification,
        action: NestedActionCapability::InspectionOnly,
        consequence: None,
        reported_by: None,
        writer_lock: None,
    }
}

/// Looks again at the selected unit and its recorded producer evidence only:
/// the role it has now, and whether it is a directory. `stat` is the selected
/// path's own metadata; nothing is returned when that could not be read.
pub fn reviewed_role(
    root: &FsPath,
    selected: &ReviewedPath,
    stat: Option<&FileStat>,
    fingerprints: &Vec<ReviewedPath>,
    facts: &FileFacts,
) -> (r: Option<(ArtifactRole, bool)>)
    ensures
        r == (match stat {
            Some(meta) => Some(
                (
                    enriched(
                        root@,
                        reviewed_units(root@, selected@, meta@.is_dir(), reviewed_view(fingerprints@)),
                        facts@,
                    )[0].role,
                    meta@.is_dir(),
                ),
            ),
            None => None,
        }),
{
    let is_dir = match stat {
        Some(meta) => meta.is_dir(),
        None => {
            return None;
        },
    };
    let ghost records = reviewed_view(fingerprints@);
    let ghost all = reviewed_units(root@, selected@, is_dir, records);
    let mut units: Vec<NestedArtifact> = Vec::new();
    push_unit(&mut units, make_folded_node(root, selected, is_dir));
    assert(units_view(units@) =~= all.take(1));
    let mut i: usize = 0;
    while i < fingerprints.len()
        invariant
            i <= fingerprints@.len(),
            records == reviewed_view(fingerprints@),
            all == reviewed_units(root@, selected@, is_dir, records),
            units_view(units@) == all.take(1 + i as int),
        decreases fingerprints@.len() - i,
    {
        assert(records[i as int] == fingerprints@[i as int]@);
        push_unit(&mut units, make_folded_node(root, &fingerprints[i], false));
        i += 1;
        assert(units_view(units@) =~= all.take(1 + i as int));
    }
    assert(all.take(1 + i as int) =~= all);
    enrich_fingerprints(root, &mut units, facts);
    let ghost after = units_view(units@);
    assert(after.len() == units@.len());
    assert(after[0] == units@[0]@);
    Some((units[0].role, is_dir))
}

} // verus!
