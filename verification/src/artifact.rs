//! One identified piece of build storage: what it is, how large, since when,
//! on what evidence, and what can be done about it.

use crate::evidence::{copy_facts, evidence_view, Evidence, FactModelled};
use crate::path::{
    copy_opt_path, law_spelled_components_read_back, lemma_components_are_legal, opt_path, part_legal, path_text,
    same_path, spelled, well_formed, within, FsPath, Parts, PathModel,
};
use crate::text::{cat2, cat3, copy_all, copy_opt, opt_text, same, texts};
use vstd::prelude::*;

verus! {

/// What a unit is.
#[derive(Debug, Clone, Copy, PartialEq, Eq, Structural)]
pub enum ArtifactRole {
    Output,
    FinalOutput,
    Example,
    TestOutput,
    TestExecutable,
    Intermediate,
    Incremental,
    BuildScriptOutput,
    Dependency,
    InstalledDependencies,
    SharedStoreEntry,
    Metadata,
    CompanionMetadata,
    Installation,
    DeviceState,
    Archive,
    Container,
    Residual,
    Unknown,
}

/// The families roles collapse into.
#[derive(Debug, Clone, Copy, PartialEq, Eq, Structural)]
pub enum RoleFamily {
    Intermediates,
    Outputs,
    Tests,
    Dependencies,
    SharedStore,
    Metadata,
    Installations,
    State,
    Container,
    Residual,
    Unknown,
}

/// The families a summary has rows for, in the order it shows them.
pub open spec fn all_families() -> Seq<RoleFamily> {
    seq![
        RoleFamily::Intermediates,
        RoleFamily::Outputs,
        RoleFamily::Tests,
        RoleFamily::Dependencies,
        RoleFamily::SharedStore,
        RoleFamily::Metadata,
        RoleFamily::Installations,
        RoleFamily::State,
        RoleFamily::Residual,
        RoleFamily::Unknown,
    ]
}

impl RoleFamily {
    /// The families a summary has rows for, in the order it shows them.
    pub fn all() -> (r: Vec<RoleFamily>)
        ensures
            r@ == all_families(),
    {
        let r: Vec<RoleFamily> = vec![
            RoleFamily::Intermediates,
            RoleFamily::Outputs,
            RoleFamily::Tests,
            RoleFamily::Dependencies,
            RoleFamily::SharedStore,
            RoleFamily::Metadata,
            RoleFamily::Installations,
            RoleFamily::State,
            RoleFamily::Residual,
            RoleFamily::Unknown,
        ];
        assert(r@ =~= all_families());
        r
    }
}

impl ArtifactRole {
    pub open spec fn family_spec(self) -> RoleFamily {
        match self {
            ArtifactRole::Output | ArtifactRole::FinalOutput | ArtifactRole::Example => RoleFamily::Outputs,
            ArtifactRole::TestOutput | ArtifactRole::TestExecutable => RoleFamily::Tests,
            ArtifactRole::Intermediate | ArtifactRole::Incremental | ArtifactRole::BuildScriptOutput => RoleFamily::Intermediates,
            ArtifactRole::Dependency | ArtifactRole::InstalledDependencies => RoleFamily::Dependencies,
            ArtifactRole::SharedStoreEntry => RoleFamily::SharedStore,
            ArtifactRole::Metadata | ArtifactRole::CompanionMetadata => RoleFamily::Metadata,
            ArtifactRole::Installation => RoleFamily::Installations,
            ArtifactRole::DeviceState | ArtifactRole::Archive => RoleFamily::State,
            ArtifactRole::Container => RoleFamily::Container,
            ArtifactRole::Residual => RoleFamily::Residual,
            ArtifactRole::Unknown => RoleFamily::Unknown,
        }
    }

    pub fn family(&self) -> (r: RoleFamily)
        ensures
            r == self.family_spec(),
    {
        match self {
            ArtifactRole::Output | ArtifactRole::FinalOutput | ArtifactRole::Example => RoleFamily::Outputs,
            ArtifactRole::TestOutput | ArtifactRole::TestExecutable => RoleFamily::Tests,
            ArtifactRole::Intermediate | ArtifactRole::Incremental | ArtifactRole::BuildScriptOutput => RoleFamily::Intermediates,
            ArtifactRole::Dependency | ArtifactRole::InstalledDependencies => RoleFamily::Dependencies,
            ArtifactRole::SharedStoreEntry => RoleFamily::SharedStore,
            ArtifactRole::Metadata | ArtifactRole::CompanionMetadata => RoleFamily::Metadata,
            ArtifactRole::Installation => RoleFamily::Installations,
            ArtifactRole::DeviceState | ArtifactRole::Archive => RoleFamily::State,
            ArtifactRole::Container => RoleFamily::Container,
            ArtifactRole::Residual => RoleFamily::Residual,
            ArtifactRole::Unknown => RoleFamily::Unknown,
        }
    }

    pub open spec fn label_spec(self) -> Seq<char> {
        match self {
            ArtifactRole::Output => "output"@,
            ArtifactRole::FinalOutput => "final-output"@,
            ArtifactRole::Example => "example"@,
            ArtifactRole::TestOutput => "test-output"@,
            ArtifactRole::TestExecutable => "test-executable"@,
            ArtifactRole::Intermediate => "intermediate"@,
            ArtifactRole::Incremental => "incremental"@,
            ArtifactRole::BuildScriptOutput => "build-script-output"@,
            ArtifactRole::Dependency => "dependency"@,
            ArtifactRole::InstalledDependencies => "installed-dependencies"@,
            ArtifactRole::SharedStoreEntry => "shared-store-entry"@,
            ArtifactRole::Metadata => "metadata"@,
            ArtifactRole::CompanionMetadata => "companion-metadata"@,
            ArtifactRole::Installation => "installation"@,
            ArtifactRole::DeviceState => "device-state"@,
            ArtifactRole::Archive => "archive"@,
            ArtifactRole::Container => "container"@,
            ArtifactRole::Residual => "residual"@,
            ArtifactRole::Unknown => "unknown"@,
        }
    }

    pub fn label(&self) -> (r: &'static str)
        ensures
            r@ == self.label_spec(),
    {
        match self {
            ArtifactRole::Output => "output",
            ArtifactRole::FinalOutput => "final-output",
            ArtifactRole::Example => "example",
            ArtifactRole::TestOutput => "test-output",
            ArtifactRole::TestExecutable => "test-executable",
            ArtifactRole::Intermediate => "intermediate",
            ArtifactRole::Incremental => "incremental",
            ArtifactRole::BuildScriptOutput => "build-script-output",
            ArtifactRole::Dependency => "dependency",
            ArtifactRole::InstalledDependencies => "installed-dependencies",
            ArtifactRole::SharedStoreEntry => "shared-store-entry",
            ArtifactRole::Metadata => "metadata",
            ArtifactRole::CompanionMetadata => "companion-metadata",
            ArtifactRole::Installation => "installation",
            ArtifactRole::DeviceState => "device-state",
            ArtifactRole::Archive => "archive",
            ArtifactRole::Container => "container",
            ArtifactRole::Residual => "residual",
            ArtifactRole::Unknown => "unknown",
        }
    }

    /// The role a label names.
    pub open spec fn from_label_spec(s: Seq<char>) -> Option<ArtifactRole> {
        if s == "output"@ {
            Some(ArtifactRole::Output)
        } else if s == "final-output"@ {
            Some(ArtifactRole::FinalOutput)
        } else if s == "example"@ {
            Some(ArtifactRole::Example)
        } else if s == "test-output"@ {
            Some(ArtifactRole::TestOutput)
        } else if s == "test-executable"@ {
            Some(ArtifactRole::TestExecutable)
        } else if s == "intermediate"@ {
            Some(ArtifactRole::Intermediate)
        } else if s == "incremental"@ {
            Some(ArtifactRole::Incremental)
        } else if s == "build-script-output"@ {
            Some(ArtifactRole::BuildScriptOutput)
        } else if s == "dependency"@ {
            Some(ArtifactRole::Dependency)
        } else if s == "installed-dependencies"@ {
            Some(ArtifactRole::InstalledDependencies)
        } else if s == "shared-store-entry"@ {
            Some(ArtifactRole::SharedStoreEntry)
        } else if s == "metadata"@ {
            Some(ArtifactRole::Metadata)
        } else if s == "companion-metadata"@ {
            Some(ArtifactRole::CompanionMetadata)
        } else if s == "installation"@ {
            Some(ArtifactRole::Installation)
        } else if s == "device-state"@ {
            Some(ArtifactRole::DeviceState)
        } else if s == "archive"@ {
            Some(ArtifactRole::Archive)
        } else if s == "container"@ {
            Some(ArtifactRole::Container)
        } else if s == "residual"@ {
            Some(ArtifactRole::Residual)
        } else if s == "unknown"@ {
            Some(ArtifactRole::Unknown)
        } else {
            None
        }
    }

    pub fn from_label(s: &str) -> (r: Option<ArtifactRole>)
        ensures
            r == ArtifactRole::from_label_spec(s@),
    {
        if same(s, "output") {
            Some(ArtifactRole::Output)
        } else if same(s, "final-output") {
            Some(ArtifactRole::FinalOutput)
        } else if same(s, "example") {
            Some(ArtifactRole::Example)
        } else if same(s, "test-output") {
            Some(ArtifactRole::TestOutput)
        } else if same(s, "test-executable") {
            Some(ArtifactRole::TestExecutable)
        } else if same(s, "intermediate") {
            Some(ArtifactRole::Intermediate)
        } else if same(s, "incremental") {
            Some(ArtifactRole::Incremental)
        } else if same(s, "build-script-output") {
            Some(ArtifactRole::BuildScriptOutput)
        } else if same(s, "dependency") {
            Some(ArtifactRole::Dependency)
        } else if same(s, "installed-dependencies") {
            Some(ArtifactRole::InstalledDependencies)
        } else if same(s, "shared-store-entry") {
            Some(ArtifactRole::SharedStoreEntry)
        } else if same(s, "metadata") {
            Some(ArtifactRole::Metadata)
        } else if same(s, "companion-metadata") {
            Some(ArtifactRole::CompanionMetadata)
        } else if same(s, "installation") {
            Some(ArtifactRole::Installation)
        } else if same(s, "device-state") {
            Some(ArtifactRole::DeviceState)
        } else if same(s, "archive") {
            Some(ArtifactRole::Archive)
        } else if same(s, "container") {
            Some(ArtifactRole::Container)
        } else if same(s, "residual") {
            Some(ArtifactRole::Residual)
        } else if same(s, "unknown") {
            Some(ArtifactRole::Unknown)
        } else {
            None
        }
    }
}

/// A role's label names that role and no other.
pub proof fn law_role_labels_read_back(r: ArtifactRole)
    ensures
        ArtifactRole::from_label_spec(r.label_spec()) == Some(r),
{
    reveal_strlit("output");
    assert("output"@.len() == 6);
    reveal_strlit("final-output");
    assert("final-output"@.len() == 12);
    reveal_strlit("example");
    assert("example"@.len() == 7);
    reveal_strlit("test-output");
    assert("test-output"@.len() == 11);
    reveal_strlit("test-executable");
    assert("test-executable"@.len() == 15);
    reveal_strlit("intermediate");
    assert("intermediate"@.len() == 12);
    reveal_strlit("incremental");
    assert("incremental"@.len() == 11);
    reveal_strlit("build-script-output");
    assert("build-script-output"@.len() == 19);
    reveal_strlit("dependency");
    assert("dependency"@.len() == 10);
    reveal_strlit("installed-dependencies");
    assert("installed-dependencies"@.len() == 22);
    reveal_strlit("shared-store-entry");
    assert("shared-store-entry"@.len() == 18);
    reveal_strlit("metadata");
    assert("metadata"@.len() == 8);
    reveal_strlit("companion-metadata");
    assert("companion-metadata"@.len() == 18);
    reveal_strlit("installation");
    assert("installation"@.len() == 12);
    reveal_strlit("device-state");
    assert("device-state"@.len() == 12);
    reveal_strlit("archive");
    assert("archive"@.len() == 7);
    reveal_strlit("container");
    assert("container"@.len() == 9);
    reveal_strlit("residual");
    assert("residual"@.len() == 8);
    reveal_strlit("unknown");
    assert("unknown"@.len() == 7);
    assert("final-output"@[0] != "intermediate"@[0]);
    assert("final-output"@[0] != "installation"@[0]);
    assert("final-output"@[0] != "device-state"@[0]);
    assert("intermediate"@[2] != "installation"@[2]);
    assert("intermediate"@[0] != "device-state"@[0]);
    assert("installation"@[0] != "device-state"@[0]);
    assert("example"@[0] != "archive"@[0]);
    assert("example"@[0] != "unknown"@[0]);
    assert("archive"@[0] != "unknown"@[0]);
    assert("test-output"@[0] != "incremental"@[0]);
    assert("shared-store-entry"@[0] != "companion-metadata"@[0]);
    assert("metadata"@[0] != "residual"@[0]);
}

/// How a unit's bytes were counted.
#[derive(Debug, Clone, Copy, PartialEq, Eq, Structural)]
pub enum AccountingBasis {
    Unknown,
    Allocated,
    UniqueAllocated,
    Logical,
}

impl AccountingBasis {
    pub open spec fn label_spec(self) -> Seq<char> {
        match self {
            AccountingBasis::Unknown => "unknown"@,
            AccountingBasis::Allocated => "allocated"@,
            AccountingBasis::UniqueAllocated => "unique-allocated"@,
            AccountingBasis::Logical => "logical"@,
        }
    }

    pub fn label(&self) -> (r: &'static str)
        ensures
            r@ == self.label_spec(),
    {
        match self {
            AccountingBasis::Unknown => "unknown",
            AccountingBasis::Allocated => "allocated",
            AccountingBasis::UniqueAllocated => "unique-allocated",
            AccountingBasis::Logical => "logical",
        }
    }

    /// The basis a label names; nothing for any other text.
    pub open spec fn from_label_spec(s: Seq<char>) -> Option<AccountingBasis> {
        if s == "allocated"@ {
            Some(AccountingBasis::Allocated)
        } else if s == "unique-allocated"@ {
            Some(AccountingBasis::UniqueAllocated)
        } else if s == "logical"@ {
            Some(AccountingBasis::Logical)
        } else if s == "unknown"@ {
            Some(AccountingBasis::Unknown)
        } else {
            None
        }
    }

    pub fn from_label(s: &str) -> (r: Option<AccountingBasis>)
        ensures
            r == AccountingBasis::from_label_spec(s@),
    {
        if same(s, "allocated") {
            Some(AccountingBasis::Allocated)
        } else if same(s, "unique-allocated") {
            Some(AccountingBasis::UniqueAllocated)
        } else if same(s, "logical") {
            Some(AccountingBasis::Logical)
        } else if same(s, "unknown") {
            Some(AccountingBasis::Unknown)
        } else {
            None
        }
    }
}

pub proof fn lemma_accounting_basis_reads_back(x: AccountingBasis)
    ensures
        AccountingBasis::from_label_spec(x.label_spec()) == Some(x),
{
    reveal_strlit("unknown");
    assert("unknown"@.len() == 7);
    reveal_strlit("allocated");
    assert("allocated"@.len() == 9);
    reveal_strlit("unique-allocated");
    assert("unique-allocated"@.len() == 16);
    reveal_strlit("logical");
    assert("logical"@.len() == 7);
    assert("unknown"@[0] != "logical"@[0]);
}

/// Where a unit's modification time comes from.
#[derive(Debug, Clone, Copy, PartialEq, Eq, Structural)]
pub enum TimeSource {
    Unknown,
    FileModification,
    FoldedDirectoryModification,
    ToolRecorded,
}

impl TimeSource {
    pub open spec fn label_spec(self) -> Seq<char> {
        match self {
            TimeSource::Unknown => "unknown"@,
            TimeSource::FileModification => "file-modification"@,
            TimeSource::FoldedDirectoryModification => "folded-directory-modification"@,
            TimeSource::ToolRecorded => "tool-recorded"@,
        }
    }

    pub fn label(&self) -> (r: &'static str)
        ensures
            r@ == self.label_spec(),
    {
        match self {
            TimeSource::Unknown => "unknown",
            TimeSource::FileModification => "file-modification",
            TimeSource::FoldedDirectoryModification => "folded-directory-modification",
            TimeSource::ToolRecorded => "tool-recorded",
        }
    }

    /// The source a label names; nothing for any other text.
    pub open spec fn from_label_spec(s: Seq<char>) -> Option<TimeSource> {
        if s == "file-modification"@ {
            Some(TimeSource::FileModification)
        } else if s == "folded-directory-modification"@ {
            Some(TimeSource::FoldedDirectoryModification)
        } else if s == "tool-recorded"@ {
            Some(TimeSource::ToolRecorded)
        } else if s == "unknown"@ {
            Some(TimeSource::Unknown)
        } else {
            None
        }
    }

    pub fn from_label(s: &str) -> (r: Option<TimeSource>)
        ensures
            r == TimeSource::from_label_spec(s@),
    {
        if same(s, "file-modification") {
            Some(TimeSource::FileModification)
        } else if same(s, "folded-directory-modification") {
            Some(TimeSource::FoldedDirectoryModification)
        } else if same(s, "tool-recorded") {
            Some(TimeSource::ToolRecorded)
        } else if same(s, "unknown") {
            Some(TimeSource::Unknown)
        } else {
            None
        }
    }
}

pub proof fn lemma_time_source_reads_back(x: TimeSource)
    ensures
        TimeSource::from_label_spec(x.label_spec()) == Some(x),
{
    reveal_strlit("unknown");
    assert("unknown"@.len() == 7);
    reveal_strlit("file-modification");
    assert("file-modification"@.len() == 17);
    reveal_strlit("folded-directory-modification");
    assert("folded-directory-modification"@.len() == 29);
    reveal_strlit("tool-recorded");
    assert("tool-recorded"@.len() == 13);
}

/// Whether a unit's bytes are its own.
#[derive(Debug, Clone, Copy, PartialEq, Eq, Structural)]
pub enum Membership {
    Unknown,
    Exclusive,
    SharedHardlink,
    Residual,
}

impl Membership {
    pub open spec fn label_spec(self) -> Seq<char> {
        match self {
            Membership::Unknown => "unknown"@,
            Membership::Exclusive => "exclusive"@,
            Membership::SharedHardlink => "shared-hardlink"@,
            Membership::Residual => "residual"@,
        }
    }

    pub fn label(&self) -> (r: &'static str)
        ensures
            r@ == self.label_spec(),
    {
        match self {
            Membership::Unknown => "unknown",
            Membership::Exclusive => "exclusive",
            Membership::SharedHardlink => "shared-hardlink",
            Membership::Residual => "residual",
        }
    }

    /// The membership a label names; nothing for any other text.
    pub open spec fn from_label_spec(s: Seq<char>) -> Option<Membership> {
        if s == "exclusive"@ {
            Some(Membership::Exclusive)
        } else if s == "shared-hardlink"@ {
            Some(Membership::SharedHardlink)
        } else if s == "residual"@ {
            Some(Membership::Residual)
        } else if s == "unknown"@ {
            Some(Membership::Unknown)
        } else {
            None
        }
    }

    pub fn from_label(s: &str) -> (r: Option<Membership>)
        ensures
            r == Membership::from_label_spec(s@),
    {
        if same(s, "exclusive") {
            Some(Membership::Exclusive)
        } else if same(s, "shared-hardlink") {
            Some(Membership::SharedHardlink)
        } else if same(s, "residual") {
            Some(Membership::Residual)
        } else if same(s, "unknown") {
            Some(Membership::Unknown)
        } else {
            None
        }
    }
}

pub proof fn lemma_membership_reads_back(x: Membership)
    ensures
        Membership::from_label_spec(x.label_spec()) == Some(x),
{
    reveal_strlit("unknown");
    assert("unknown"@.len() == 7);
    reveal_strlit("exclusive");
    assert("exclusive"@.len() == 9);
    reveal_strlit("shared-hardlink");
    assert("shared-hardlink"@.len() == 15);
    reveal_strlit("residual");
    assert("residual"@.len() == 8);
}

/// How far evidence carries.
#[derive(Debug, Clone, Copy, PartialEq, Eq, Structural)]
pub enum Confidence {
    High,
    Medium,
    Low,
}

impl Confidence {
    pub open spec fn label_spec(self) -> Seq<char> {
        match self {
            Confidence::High => "high"@,
            Confidence::Medium => "medium"@,
            Confidence::Low => "low"@,
        }
    }

    pub fn label(&self) -> (r: &'static str)
        ensures
            r@ == self.label_spec(),
    {
        match self {
            Confidence::High => "high",
            Confidence::Medium => "medium",
            Confidence::Low => "low",
        }
    }

    /// The confidence a label names; nothing for any other text.
    pub open spec fn from_label_spec(s: Seq<char>) -> Option<Confidence> {
        if s == "high"@ {
            Some(Confidence::High)
        } else if s == "low"@ {
            Some(Confidence::Low)
        } else if s == "medium"@ {
            Some(Confidence::Medium)
        } else {
            None
        }
    }

    pub fn from_label(s: &str) -> (r: Option<Confidence>)
        ensures
            r == Confidence::from_label_spec(s@),
    {
        if same(s, "high") {
            Some(Confidence::High)
        } else if same(s, "low") {
            Some(Confidence::Low)
        } else if same(s, "medium") {
            Some(Confidence::Medium)
        } else {
            None
        }
    }
}

pub proof fn lemma_confidence_reads_back(x: Confidence)
    ensures
        Confidence::from_label_spec(x.label_spec()) == Some(x),
{
    reveal_strlit("high");
    assert("high"@.len() == 4);
    reveal_strlit("medium");
    assert("medium"@.len() == 6);
    reveal_strlit("low");
    assert("low"@.len() == 3);
}

/// What can be done with a unit.
#[derive(Debug, Clone, PartialEq, Eq)]
pub enum NestedActionCapability {
    InspectionOnly,
    Unsupported { reason: String },
    TrashPath,
}

/// What can be done with a unit, as a value to reason about.
pub enum ActionModel {
    InspectionOnly,
    Unsupported { reason: Seq<char> },
    TrashPath,
}

impl View for NestedActionCapability {
    type V = ActionModel;

    open spec fn view(&self) -> ActionModel {
        match self {
            NestedActionCapability::InspectionOnly => ActionModel::InspectionOnly,
            NestedActionCapability::Unsupported { reason } => ActionModel::Unsupported { reason: reason@ },
            NestedActionCapability::TrashPath => ActionModel::TrashPath,
        }
    }
}

impl NestedActionCapability {
    pub fn copy(&self) -> (r: Self)
        ensures
            r@ == self@,
    {
        match self {
            NestedActionCapability::InspectionOnly => NestedActionCapability::InspectionOnly,
            NestedActionCapability::Unsupported { reason } => NestedActionCapability::Unsupported {
                reason: reason.clone(),
            },
            NestedActionCapability::TrashPath => NestedActionCapability::TrashPath,
        }
    }
}

/// One statement about a unit and where it was read.
#[derive(Debug, Clone, PartialEq, Eq)]
pub struct ArtifactEvidence {
    pub source: String,
    pub detail: String,
    pub confidence: Confidence,
}

pub struct EvidenceModel {
    pub source: Seq<char>,
    pub detail: Seq<char>,
    pub confidence: Confidence,
}

impl View for ArtifactEvidence {
    type V = EvidenceModel;

    open spec fn view(&self) -> EvidenceModel {
        EvidenceModel { source: self.source@, detail: self.detail@, confidence: self.confidence }
    }
}

pub open spec fn evidences(s: Seq<ArtifactEvidence>) -> Seq<EvidenceModel> {
    Seq::new(s.len(), |i: int| s[i]@)
}

impl ArtifactEvidence {
    pub fn of(source: &str, detail: &str, confidence: Confidence) -> (r: Self)
        ensures
            r@ == (EvidenceModel { source: source@, detail: detail@, confidence }),
    {
        ArtifactEvidence { source: source.to_owned(), detail: detail.to_owned(), confidence }
    }

    pub fn copy(&self) -> (r: Self)
        ensures
            r@ == self@,
    {
        ArtifactEvidence {
            source: self.source.clone(),
            detail: self.detail.clone(),
            confidence: self.confidence,
        }
    }
}

pub fn push_evidence(v: &mut Vec<ArtifactEvidence>, e: ArtifactEvidence)
    ensures
        evidences(final(v)@) == evidences(old(v)@).push(e@),
{
    let ghost m = e@;
    v.push(e);
    assert(evidences(v@) =~= evidences(old(v)@).push(m));
}

pub fn copy_evidence(v: &Vec<ArtifactEvidence>) -> (r: Vec<ArtifactEvidence>)
    ensures
        evidences(r@) == evidences(v@),
{
    let mut out: Vec<ArtifactEvidence> = Vec::new();
    let mut i: usize = 0;
    assert(evidences(out@) =~= evidences(v@).take(0));
    while i < v.len()
        invariant
            i <= v@.len(),
            evidences(out@) == evidences(v@).take(i as int),
        decreases v@.len() - i,
    {
        push_evidence(&mut out, v[i].copy());
        i += 1;
        assert(evidences(out@) =~= evidences(v@).take(i as int));
    }
    assert(evidences(v@).take(i as int) =~= evidences(v@));
    out
}

/// What distinguishes one build of a thing from another, where it is known.
#[derive(Debug, Clone, PartialEq, Eq)]
pub struct ArtifactVariant {
    pub package: Option<String>,
    pub version: Option<String>,
    pub target: Option<String>,
    pub profile: Option<String>,
    pub architecture: Option<String>,
    pub toolchain: Option<String>,
    pub features: Option<String>,
    pub configuration: Option<String>,
    pub generation: Option<String>,
    /// The distinctions that could not be established.
    pub unknowns: Vec<String>,
}

pub struct VariantModel {
    pub package: Option<Seq<char>>,
    pub version: Option<Seq<char>>,
    pub target: Option<Seq<char>>,
    pub profile: Option<Seq<char>>,
    pub architecture: Option<Seq<char>>,
    pub toolchain: Option<Seq<char>>,
    pub features: Option<Seq<char>>,
    pub configuration: Option<Seq<char>>,
    pub generation: Option<Seq<char>>,
    pub unknowns: Seq<Seq<char>>,
}

impl View for ArtifactVariant {
    type V = VariantModel;

    open spec fn view(&self) -> VariantModel {
        VariantModel {
            package: opt_text(self.package),
            version: opt_text(self.version),
            target: opt_text(self.target),
            profile: opt_text(self.profile),
            architecture: opt_text(self.architecture),
            toolchain: opt_text(self.toolchain),
            features: opt_text(self.features),
            configuration: opt_text(self.configuration),
            generation: opt_text(self.generation),
            unknowns: texts(self.unknowns@),
        }
    }
}

/// A variant of which nothing is known and nothing is asked.
pub open spec fn no_variant() -> VariantModel {
    VariantModel {
        package: None,
        version: None,
        target: None,
        profile: None,
        architecture: None,
        toolchain: None,
        features: None,
        configuration: None,
        generation: None,
        unknowns: Seq::empty(),
    }
}

impl ArtifactVariant {
    pub fn none() -> (r: Self)
        ensures
            r@ == no_variant(),
    {
        let r = ArtifactVariant {
            package: None,
            version: None,
            target: None,
            profile: None,
            architecture: None,
            toolchain: None,
            features: None,
            configuration: None,
            generation: None,
            unknowns: Vec::new(),
        };
        assert(texts(r.unknowns@) =~= Seq::<Seq<char>>::empty());
        r
    }

    pub fn copy(&self) -> (r: Self)
        ensures
            r@ == self@,
    {
        ArtifactVariant {
            package: copy_opt(&self.package),
            version: copy_opt(&self.version),
            target: copy_opt(&self.target),
            profile: copy_opt(&self.profile),
            architecture: copy_opt(&self.architecture),
            toolchain: copy_opt(&self.toolchain),
            features: copy_opt(&self.features),
            configuration: copy_opt(&self.configuration),
            generation: copy_opt(&self.generation),
            unknowns: copy_all(&self.unknowns),
        }
    }

    /// The same variant with its package known.
    pub fn with_package(self, text: &str) -> (r: Self)
        ensures
            r@ == self@.with_package(text@),
    {
        let mut out = self;
        out.package = Some(text.to_owned());
        out
    }

    /// The same variant with its version known.
    pub fn with_version(self, text: &str) -> (r: Self)
        ensures
            r@ == self@.with_version(text@),
    {
        let mut out = self;
        out.version = Some(text.to_owned());
        out
    }

    /// The same variant with its target known.
    pub fn with_target(self, text: &str) -> (r: Self)
        ensures
            r@ == self@.with_target(text@),
    {
        let mut out = self;
        out.target = Some(text.to_owned());
        out
    }

    /// The same variant with its profile known.
    pub fn with_profile(self, text: &str) -> (r: Self)
        ensures
            r@ == self@.with_profile(text@),
    {
        let mut out = self;
        out.profile = Some(text.to_owned());
        out
    }

    /// The same variant with its architecture known.
    pub fn with_architecture(self, text: &str) -> (r: Self)
        ensures
            r@ == self@.with_architecture(text@),
    {
        let mut out = self;
        out.architecture = Some(text.to_owned());
        out
    }

    /// The same variant with its toolchain known.
    pub fn with_toolchain(self, text: &str) -> (r: Self)
        ensures
            r@ == self@.with_toolchain(text@),
    {
        let mut out = self;
        out.toolchain = Some(text.to_owned());
        out
    }

    /// The same variant with its configuration known.
    pub fn with_configuration(self, text: &str) -> (r: Self)
        ensures
            r@ == self@.with_configuration(text@),
    {
        let mut out = self;
        out.configuration = Some(text.to_owned());
        out
    }

    /// The same variant with one more distinction known to be unknown.
    pub fn unknown(self, what: &str) -> (r: Self)
        ensures
            r@ == self@.unknown(what@),
    {
        let mut out = self;
        crate::text::push_text(&mut out.unknowns, what);
        out
    }
}

impl Default for ArtifactVariant {
    fn default() -> (r: Self)
        ensures
            r@ == no_variant(),
    {
        ArtifactVariant::none()
    }
}

impl VariantModel {
    pub open spec fn with_package(self, text: Seq<char>) -> VariantModel {
        VariantModel { package: Some(text), ..self }
    }

    pub open spec fn with_version(self, text: Seq<char>) -> VariantModel {
        VariantModel { version: Some(text), ..self }
    }

    pub open spec fn with_target(self, text: Seq<char>) -> VariantModel {
        VariantModel { target: Some(text), ..self }
    }

    pub open spec fn with_profile(self, text: Seq<char>) -> VariantModel {
        VariantModel { profile: Some(text), ..self }
    }

    pub open spec fn with_architecture(self, text: Seq<char>) -> VariantModel {
        VariantModel { architecture: Some(text), ..self }
    }

    pub open spec fn with_toolchain(self, text: Seq<char>) -> VariantModel {
        VariantModel { toolchain: Some(text), ..self }
    }

    pub open spec fn with_configuration(self, text: Seq<char>) -> VariantModel {
        VariantModel { configuration: Some(text), ..self }
    }

    pub open spec fn unknown(self, what: Seq<char>) -> VariantModel {
        VariantModel { unknowns: self.unknowns.push(what), ..self }
    }
}

/// How far a unit's layout is understood and was read.
#[derive(Debug, Clone, PartialEq, Eq)]
pub struct ArtifactCoverage {
    pub supported: bool,
    pub complete: bool,
    pub limits: Vec<String>,
}

pub struct CoverageModel {
    pub supported: bool,
    pub complete: bool,
    pub limits: Seq<Seq<char>>,
}

impl View for ArtifactCoverage {
    type V = CoverageModel;

    open spec fn view(&self) -> CoverageModel {
        CoverageModel { supported: self.supported, complete: self.complete, limits: texts(self.limits@) }
    }
}

impl ArtifactCoverage {
    pub fn copy(&self) -> (r: Self)
        ensures
            r@ == self@,
    {
        ArtifactCoverage {
            supported: self.supported,
            complete: self.complete,
            limits: copy_all(&self.limits),
        }
    }
}

/// One identified unit inside a build container.
#[derive(Debug, Clone, PartialEq, Eq)]
pub struct NestedArtifact {
    /// The unit's storage id, which no role or history changes.
    pub id: String,
    pub path: FsPath,
    /// Where the unit is, from its container.
    pub relative_path: String,
    pub parent_id: Option<String>,
    pub container_id: Option<String>,
    pub role: ArtifactRole,
    pub membership: Membership,
    pub is_dir: bool,
    pub device: u64,
    pub inode: u64,
    pub logical_bytes: u64,
    /// The unit's bytes, counted on `basis`.
    pub bytes: u64,
    /// The bytes charged to this unit alone.
    pub physical_bytes: u64,
    /// The bytes charged to this unit and everything inside it.
    pub physical_total: u64,
    pub mtime_max: u64,
    pub variant: ArtifactVariant,
    pub producer_evidence: Vec<ArtifactEvidence>,
    pub consumer_evidence: Vec<ArtifactEvidence>,
    pub coverage: ArtifactCoverage,
    pub action_group: Option<String>,
    pub present: bool,
    /// History: how the unit grew over the reported window.
    pub growth_bytes: Option<i64>,
    pub regrowth_count: u32,
    /// Facts for a person's decision about the unit. They are gathered anew for
    /// each report, from what other parts of a report know; a unit is identified
    /// and stored without any.
    pub decision_evidence: Vec<Evidence>,
    pub adapter: Option<String>,
    pub basis: AccountingBasis,
    pub time_source: TimeSource,
    pub action: NestedActionCapability,
    /// What getting the bytes back would cost.
    pub consequence: Option<String>,
    /// The manager whose record this is, when nothing was measured.
    pub reported_by: Option<String>,
    /// A writer's lock file found present.
    pub writer_lock: Option<FsPath>,
}

/// A unit as a value to reason about.
pub struct UnitModel {
    pub id: Seq<char>,
    pub path: PathModel,
    pub relative_path: Seq<char>,
    pub parent_id: Option<Seq<char>>,
    pub container_id: Option<Seq<char>>,
    pub role: ArtifactRole,
    pub membership: Membership,
    pub is_dir: bool,
    pub device: u64,
    pub inode: u64,
    pub logical_bytes: u64,
    pub bytes: u64,
    pub physical_bytes: u64,
    pub physical_total: u64,
    pub mtime_max: u64,
    pub variant: VariantModel,
    pub producer_evidence: Seq<EvidenceModel>,
    pub consumer_evidence: Seq<EvidenceModel>,
    pub coverage: CoverageModel,
    pub action_group: Option<Seq<char>>,
    pub present: bool,
    pub growth_bytes: Option<i64>,
    pub regrowth_count: u32,
    pub decision_evidence: Seq<FactModelled>,
    pub adapter: Option<Seq<char>>,
    pub basis: AccountingBasis,
    pub time_source: TimeSource,
    pub action: ActionModel,
    pub consequence: Option<Seq<char>>,
    pub reported_by: Option<Seq<char>>,
    pub writer_lock: Option<PathModel>,
}

impl View for NestedArtifact {
    type V = UnitModel;

    open spec fn view(&self) -> UnitModel {
        UnitModel {
            id: self.id@,
            path: self.path@,
            relative_path: self.relative_path@,
            parent_id: opt_text(self.parent_id),
            container_id: opt_text(self.container_id),
            role: self.role,
            membership: self.membership,
            is_dir: self.is_dir,
            device: self.device,
            inode: self.inode,
            logical_bytes: self.logical_bytes,
            bytes: self.bytes,
            physical_bytes: self.physical_bytes,
            physical_total: self.physical_total,
            mtime_max: self.mtime_max,
            variant: self.variant@,
            producer_evidence: evidences(self.producer_evidence@),
            consumer_evidence: evidences(self.consumer_evidence@),
            coverage: self.coverage@,
            action_group: opt_text(self.action_group),
            present: self.present,
            growth_bytes: self.growth_bytes,
            regrowth_count: self.regrowth_count,
            decision_evidence: evidence_view(self.decision_evidence@),
            adapter: opt_text(self.adapter),
            basis: self.basis,
            time_source: self.time_source,
            action: self.action@,
            consequence: opt_text(self.consequence),
            reported_by: opt_text(self.reported_by),
            writer_lock: opt_path(self.writer_lock),
        }
    }
}

pub open spec fn units_view(s: Seq<NestedArtifact>) -> Seq<UnitModel> {
    Seq::new(s.len(), |i: int| s[i]@)
}

pub fn push_unit(v: &mut Vec<NestedArtifact>, u: NestedArtifact)
    ensures
        units_view(final(v)@) == units_view(old(v)@).push(u@),
{
    let ghost m = u@;
    v.push(u);
    assert(units_view(v@) =~= units_view(old(v)@).push(m));
}

pub fn append_units(v: &mut Vec<NestedArtifact>, more: Vec<NestedArtifact>)
    ensures
        units_view(final(v)@) == units_view(old(v)@) + units_view(more@),
{
    let mut rest = more;
    v.append(&mut rest);
    assert(units_view(v@) =~= units_view(old(v)@) + units_view(more@));
}

pub fn copy_units(v: &Vec<NestedArtifact>) -> (r: Vec<NestedArtifact>)
    ensures
        units_view(r@) == units_view(v@),
{
    let mut out: Vec<NestedArtifact> = Vec::new();
    let mut i: usize = 0;
    assert(units_view(out@) =~= units_view(v@).take(0));
    while i < v.len()
        invariant
            i <= v@.len(),
            units_view(out@) == units_view(v@).take(i as int),
        decreases v@.len() - i,
    {
        push_unit(&mut out, v[i].copy());
        i += 1;
        assert(units_view(out@) =~= units_view(v@).take(i as int));
    }
    assert(units_view(v@).take(i as int) =~= units_view(v@));
    out
}

impl NestedArtifact {
    pub fn copy(&self) -> (r: Self)
        ensures
            r@ == self@,
    {
        NestedArtifact {
            id: self.id.clone(),
            path: self.path.copy(),
            relative_path: self.relative_path.clone(),
            parent_id: copy_opt(&self.parent_id),
            container_id: copy_opt(&self.container_id),
            role: self.role,
            membership: self.membership,
            is_dir: self.is_dir,
            device: self.device,
            inode: self.inode,
            logical_bytes: self.logical_bytes,
            bytes: self.bytes,
            physical_bytes: self.physical_bytes,
            physical_total: self.physical_total,
            mtime_max: self.mtime_max,
            variant: self.variant.copy(),
            producer_evidence: copy_evidence(&self.producer_evidence),
            consumer_evidence: copy_evidence(&self.consumer_evidence),
            coverage: self.coverage.copy(),
            action_group: copy_opt(&self.action_group),
            present: self.present,
            growth_bytes: self.growth_bytes,
            regrowth_count: self.regrowth_count,
            decision_evidence: copy_facts(&self.decision_evidence),
            adapter: copy_opt(&self.adapter),
            basis: self.basis,
            time_source: self.time_source,
            action: self.action.copy(),
            consequence: copy_opt(&self.consequence),
            reported_by: copy_opt(&self.reported_by),
            writer_lock: copy_opt_path(&self.writer_lock),
        }
    }

    /// The storage id of the thing `rel` names under `path`.
    pub fn storage_id(path: &FsPath, rel: &str) -> (r: String)
        ensures
            r@ == storage_id(path@, rel@),
    {
        let at = path.text();
        let scope = cat2("storage:", at.as_str());
        if rel.is_empty() {
            scope
        } else {
            NestedArtifact::within(scope.as_str(), rel)
        }
    }

    /// The id of the unit at `rel` inside the container `scope`.
    pub fn within(scope: &str, rel: &str) -> (r: String)
        ensures
            r@ == unit_id(scope@, rel@),
    {
        cat3(scope, "#", rel)
    }

    /// The id of an action group.
    pub fn action_group(group: &str) -> (r: String)
        ensures
            r@ == group_id(group@),
    {
        cat2("action:", group)
    }

    /// The id of a unit known only by its place in a layout. What the unit is
    /// plays no part in it.
    pub fn stable_id(relative: &str, role: &ArtifactRole) -> (r: String)
        ensures
            r@ == stable_id(relative@, *role),
    {
        cat2("unit:", relative)
    }
}

pub open spec fn storage_id(path: PathModel, rel: Seq<char>) -> Seq<char> {
    if rel.len() == 0 {
        "storage:"@ + path_text(path)
    } else {
        unit_id("storage:"@ + path_text(path), rel)
    }
}

pub open spec fn unit_id(scope: Seq<char>, rel: Seq<char>) -> Seq<char> {
    scope + "#"@ + rel
}

pub open spec fn group_id(group: Seq<char>) -> Seq<char> {
    "action:"@ + group
}

pub open spec fn stable_id(relative: Seq<char>, role: ArtifactRole) -> Seq<char> {
    "unit:"@ + relative
}

/// Reclassifying a unit keeps its identity.
pub proof fn law_identity_survives_reclassification(relative: Seq<char>, a: ArtifactRole, b: ArtifactRole)
    ensures
        stable_id(relative, a) == stable_id(relative, b),
{
}

/// Where `path` is, from `base`: the names below it, or the whole path when it
/// does not lie under it.
pub open spec fn relative(base: PathModel, path: PathModel) -> Seq<char> {
    if within(path, base) {
        spelled(path.parts().skip(base.len() as int))
    } else {
        path_text(path)
    }
}

pub fn relative_path(base: &FsPath, path: &FsPath) -> (r: String)
    ensures
        r@ == relative(base@, path@),
{
    if path.within(base) {
        path.rest(base.len())
    } else {
        path.text()
    }
}

/// Two paths inside one base are told apart by what they are relative to it.
pub proof fn law_relative_paths_differ(base: PathModel, p: PathModel, q: PathModel)
    requires
        within(p, base),
        within(q, base),
        !same_path(p, q),
    ensures
        relative(base, p) != relative(base, q),
{
    let n = base.len() as int;
    let rp = p.parts().skip(n);
    let rq = q.parts().skip(n);
    lemma_components_are_legal(p.text);
    lemma_components_are_legal(q.text);
    lemma_rest_well_formed(p.parts(), n);
    lemma_rest_well_formed(q.parts(), n);
    law_spelled_components_read_back(rp);
    law_spelled_components_read_back(rq);
    if rp == rq {
        assert(p.parts() =~= base.parts() + rp);
        assert(q.parts() =~= base.parts() + rq);
    }
}

proof fn lemma_rest_well_formed(p: Parts, n: int)
    requires
        well_formed(p),
        0 <= n <= p.len(),
    ensures
        well_formed(p.skip(n)),
{
    let r = p.skip(n);
    assert forall|i: int| 0 <= i < r.len() implies #[trigger] part_legal(r, i) by {
        assert(part_legal(p, i + n));
        assert(r[i] == p[i + n]);
    }
}

/// Units at different paths of one container never share an identity.
pub proof fn law_different_paths_have_different_ids(scope: Seq<char>, base: PathModel, p: PathModel, q: PathModel)
    requires
        within(p, base),
        within(q, base),
        !same_path(p, q),
    ensures
        unit_id(scope, relative(base, p)) != unit_id(scope, relative(base, q)),
{
    law_relative_paths_differ(base, p, q);
    let a = relative(base, p);
    let b = relative(base, q);
    let mark = "#"@;
    if unit_id(scope, a) == unit_id(scope, b) {
        let n = (scope + mark).len() as int;
        assert(unit_id(scope, a).skip(n) =~= a);
        assert(unit_id(scope, b).skip(n) =~= b);
    }
}

} // verus!
