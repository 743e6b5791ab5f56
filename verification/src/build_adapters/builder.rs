//! The one way a unit is built. A new unit claims nothing; each claim about it
//! is one named step.

use super::container::{row_of, BuildContainer, ContainerModel, DirModel, FoldedDir};
use super::context::{BuildCtx, CtxModel};
use crate::artifact::{
    evidences, group_id, no_variant, push_evidence, relative, relative_path, unit_id, AccountingBasis, ActionModel,
    ArtifactCoverage, ArtifactEvidence, ArtifactRole, ArtifactVariant, Confidence, CoverageModel, EvidenceModel,
    Membership, NestedActionCapability, NestedArtifact, TimeSource, UnitModel, VariantModel,
};
use crate::evidence::no_facts;
use crate::facts::{FileStat, StatModel};
use crate::path::{name_of, parent, same_path, FsPath, PathModel};
use crate::text::{cat2, cat5, push_text, texts};
use vstd::prelude::*;

verus! {

/// What an adapter names its layout evidence.
pub open spec fn layout_source(adapter: Seq<char>) -> Seq<char> {
    adapter + "-layout"@
}

impl UnitModel {
    /// A unit of which nothing is claimed.
    #[verifier::opaque]
    pub open spec fn blank(c: ContainerModel, role: ArtifactRole, path: PathModel) -> UnitModel {
        UnitModel {
            id: unit_id(c.scope(), relative(c.path, path)),
            path,
            relative_path: relative(c.path, path),
            parent_id: if same_path(path, c.path) {
                None
            } else {
                match parent(path) {
                    Some(p) => Some(unit_id(c.scope(), relative(c.path, p))),
                    None => None,
                }
            },
            container_id: Some(c.scope()),
            role,
            membership: Membership::Unknown,
            is_dir: false,
            device: 0,
            inode: 0,
            logical_bytes: 0,
            bytes: 0,
            physical_bytes: 0,
            physical_total: 0,
            mtime_max: 0,
            variant: no_variant(),
            producer_evidence: Seq::empty(),
            consumer_evidence: Seq::empty(),
            coverage: CoverageModel { supported: false, complete: false, limits: Seq::empty() },
            action_group: None,
            present: true,
            growth_bytes: None,
            regrowth_count: 0,
            decision_evidence: Seq::empty(),
            adapter: Some(c.adapter_id),
            basis: AccountingBasis::Unknown,
            time_source: TimeSource::Unknown,
            action: ActionModel::InspectionOnly,
            consequence: None,
            reported_by: None,
            writer_lock: None,
        }
    }

    /// A measured directory that an adapter identifies.
    #[verifier::opaque]
    pub open spec fn known_dir(
        c: ContainerModel,
        role: ArtifactRole,
        dir: DirModel,
        reason: Seq<char>,
        consequence: Seq<char>,
    ) -> UnitModel {
        UnitModel::blank(c, role, dir.path).folded(dir).supported(reason).evidence(
            layout_source(c.adapter_id),
            reason,
            Confidence::Medium,
        ).consequence(consequence)
    }

    /// A measured directory that an adapter does not identify.
    #[verifier::opaque]
    pub open spec fn unknown_dir(c: ContainerModel, dir: DirModel, limit: Seq<char>) -> UnitModel {
        UnitModel::blank(c, ArtifactRole::Residual, dir.path).folded(dir).unsupported_layout(limit)
    }

    /// The container's own unit.
    #[verifier::opaque]
    pub open spec fn container_root(c: ContainerModel, ctx: CtxModel, role: ArtifactRole) -> UnitModel {
        let b = UnitModel::blank(c, role, c.path).is_dir(true);
        match row_of(ctx.rows, c.path) {
            Some(d) => b.folded(d),
            None => b.limit("this directory was not measured by the walk this pass"@),
        }
    }

    /// The layout is understood, for this reason.
    #[verifier::opaque]
    pub open spec fn supported(self, reason: Seq<char>) -> UnitModel {
        UnitModel {
            coverage: CoverageModel { supported: true, ..self.coverage },
            producer_evidence: self.producer_evidence.push(
                EvidenceModel {
                    source: layout_source(
                        match self.adapter {
                            Some(a) => a,
                            None => Seq::empty(),
                        },
                    ),
                    detail: reason,
                    confidence: Confidence::Medium,
                },
            ),
            ..self
        }
    }

    #[verifier::opaque]
    pub open spec fn unsupported_layout(self, limit: Seq<char>) -> UnitModel {
        UnitModel {
            coverage: CoverageModel {
                supported: false,
                limits: self.coverage.limits.push(limit),
                ..self.coverage
            },
            action: ActionModel::Unsupported { reason: "the layout is not one this adapter identifies"@ },
            ..self
        }
    }

    #[verifier::opaque]
    pub open spec fn complete(self, complete: bool) -> UnitModel {
        UnitModel { coverage: CoverageModel { complete, ..self.coverage }, ..self }
    }

    #[verifier::opaque]
    pub open spec fn limit(self, limit: Seq<char>) -> UnitModel {
        UnitModel {
            coverage: CoverageModel { limits: self.coverage.limits.push(limit), ..self.coverage },
            ..self
        }
    }

    #[verifier::opaque]
    pub open spec fn is_dir(self, is_dir: bool) -> UnitModel {
        UnitModel { is_dir, ..self }
    }

    /// A folded directory's bytes and time, with their basis and source.
    #[verifier::opaque]
    pub open spec fn folded(self, dir: DirModel) -> UnitModel {
        UnitModel {
            bytes: dir.allocated_total,
            basis: AccountingBasis::Allocated,
            mtime_max: dir.mtime_max,
            time_source: TimeSource::FoldedDirectoryModification,
            is_dir: true,
            coverage: CoverageModel {
                complete: dir.complete,
                limits: if dir.complete {
                    self.coverage.limits
                } else {
                    self.coverage.limits.push("the walk could not read all of this directory"@)
                },
                ..self.coverage
            },
            ..self
        }
    }

    /// One file's own metadata.
    #[verifier::opaque]
    pub open spec fn file_metadata(self, meta: StatModel) -> UnitModel {
        UnitModel {
            bytes: meta.allocated() as u64,
            basis: AccountingBasis::Allocated,
            logical_bytes: meta.len,
            mtime_max: meta.modified(),
            time_source: TimeSource::FileModification,
            device: meta.dev,
            inode: meta.ino,
            is_dir: meta.is_dir(),
            membership: if meta.nlink > 1 && meta.is_file() {
                Membership::SharedHardlink
            } else {
                Membership::Exclusive
            },
            coverage: CoverageModel { complete: true, ..self.coverage },
            ..self
        }
    }

    /// The bytes charged to this unit alone, for a file with one link.
    #[verifier::opaque]
    pub open spec fn charged_uniquely(self) -> UnitModel {
        if self.membership == Membership::Exclusive && !self.is_dir {
            UnitModel {
                physical_total: self.bytes,
                physical_bytes: self.bytes,
                basis: AccountingBasis::UniqueAllocated,
                ..self
            }
        } else {
            self
        }
    }

    #[verifier::opaque]
    pub open spec fn bytes_on_basis(self, bytes: u64, basis: AccountingBasis) -> UnitModel {
        UnitModel { bytes, basis, ..self }
    }

    #[verifier::opaque]
    pub open spec fn modified(self, mtime: u64, source: TimeSource) -> UnitModel {
        UnitModel { mtime_max: mtime, time_source: source, ..self }
    }

    #[verifier::opaque]
    pub open spec fn membership(self, m: Membership) -> UnitModel {
        UnitModel { membership: m, ..self }
    }

    #[verifier::opaque]
    pub open spec fn variant(self, v: VariantModel) -> UnitModel {
        UnitModel { variant: v, ..self }
    }

    #[verifier::opaque]
    pub open spec fn evidence(self, source: Seq<char>, detail: Seq<char>, c: Confidence) -> UnitModel {
        UnitModel {
            producer_evidence: self.producer_evidence.push(EvidenceModel { source, detail, confidence: c }),
            ..self
        }
    }

    #[verifier::opaque]
    pub open spec fn consequence(self, text: Seq<char>) -> UnitModel {
        UnitModel { consequence: Some(text), ..self }
    }

    #[verifier::opaque]
    pub open spec fn no_action_because(self, reason: Seq<char>) -> UnitModel {
        UnitModel { action: ActionModel::Unsupported { reason }, ..self }
    }

    #[verifier::opaque]
    pub open spec fn action_group(self, group: Seq<char>) -> UnitModel {
        UnitModel { action_group: Some(group_id(group)), ..self }
    }

    #[verifier::opaque]
    pub open spec fn role(self, role: ArtifactRole) -> UnitModel {
        UnitModel { role, ..self }
    }

    #[verifier::opaque]
    pub open spec fn modified_at_least(self, mtime: u64) -> UnitModel {
        UnitModel {
            mtime_max: if self.mtime_max < mtime {
                mtime
            } else {
                self.mtime_max
            },
            ..self
        }
    }

    #[verifier::opaque]
    pub open spec fn complete_only_if(self, complete: bool) -> UnitModel {
        UnitModel {
            coverage: CoverageModel { complete: self.coverage.complete && complete, ..self.coverage },
            ..self
        }
    }

    /// Bytes and a time a manager reported rather than anything measured.
    #[verifier::opaque]
    pub open spec fn reported_by_manager(
        self,
        manager: Seq<char>,
        logical_bytes: u64,
        recorded_at: Option<u64>,
    ) -> UnitModel {
        UnitModel {
            reported_by: Some(manager),
            bytes: logical_bytes,
            logical_bytes,
            basis: AccountingBasis::Logical,
            mtime_max: match recorded_at {
                Some(t) => t,
                None => 0,
            },
            time_source: match recorded_at {
                Some(_) => TimeSource::ToolRecorded,
                None => TimeSource::Unknown,
            },
            coverage: CoverageModel { complete: true, ..self.coverage },
            ..self
        }
    }

    /// A writer's lock found present, and no action while it is.
    #[verifier::opaque]
    pub open spec fn writer_lock(self, lock: PathModel, tool: Seq<char>) -> UnitModel {
        UnitModel {
            coverage: CoverageModel {
                limits: self.coverage.limits.push(
                    "`"@ + name_of(lock) + "` is present: "@ + tool
                        + " may be writing here now (a crashed build also leaves one)"@,
                ),
                ..self.coverage
            },
            writer_lock: Some(lock),
            action: ActionModel::Unsupported { reason: tool + " may be writing here now"@ },
            ..self
        }
    }

    #[verifier::opaque]
    pub open spec fn history(self, growth_bytes: Option<i64>, regrowth_count: u32) -> UnitModel {
        UnitModel { growth_bytes, regrowth_count, ..self }
    }

    #[verifier::opaque]
    pub open spec fn action_group_id(self, id: Seq<char>) -> UnitModel {
        UnitModel { action_group: Some(id), ..self }
    }

    #[verifier::opaque]
    pub open spec fn trash_path(self) -> UnitModel {
        UnitModel { action: ActionModel::TrashPath, ..self }
    }

    /// Whether two units are the same piece of storage.
    pub open spec fn same_identity(self, other: UnitModel) -> bool {
        &&& self.id == other.id
        &&& self.path == other.path
        &&& self.relative_path == other.relative_path
        &&& self.parent_id == other.parent_id
        &&& self.container_id == other.container_id
    }
}

/// Builds one unit.
pub struct NestedUnitBuilder {
    unit: NestedArtifact,
    /// Whether the unit was measured by a file's own metadata.
    from_file: bool,
}

impl View for NestedUnitBuilder {
    type V = UnitModel;

    closed spec fn view(&self) -> UnitModel {
        self.unit@
    }
}

impl NestedUnitBuilder {
    /// Whether the unit was measured by a file's own metadata.
    pub closed spec fn from_file(&self) -> bool {
        self.from_file
    }

    /// A new unit inside `container`, at `path`, in `role`. Nothing else is
    /// claimed of it.
    pub fn new(container: &BuildContainer, role: ArtifactRole, path: FsPath) -> (r: Self)
        ensures
            r@ == UnitModel::blank(container@, role, path@),
            !r.from_file(),
    {
        let scope = container.scope();
        let rel = relative_path(&container.path, &path);
        let id = NestedArtifact::within(scope.as_str(), rel.as_str());
        let parent_id = if path.same(&container.path) {
            None
        } else {
            match path.parent() {
                Some(p) => {
                    let above = relative_path(&container.path, &p);
                    Some(NestedArtifact::within(scope.as_str(), above.as_str()))
                },
                None => None,
            }
        };
        let ghost at = path@;
        let unit = NestedArtifact {
            id,
            path,
            relative_path: rel,
            parent_id,
            container_id: Some(scope),
            role,
            membership: Membership::Unknown,
            is_dir: false,
            device: 0,
            inode: 0,
            logical_bytes: 0,
            bytes: 0,
            physical_bytes: 0,
            physical_total: 0,
            mtime_max: 0,
            variant: ArtifactVariant::none(),
            producer_evidence: Vec::new(),
            consumer_evidence: Vec::new(),
            coverage: ArtifactCoverage { supported: false, complete: false, limits: Vec::new() },
            action_group: None,
            present: true,
            growth_bytes: None,
            regrowth_count: 0,
            decision_evidence: no_facts(),
            adapter: Some(container.adapter_id.to_owned()),
            basis: AccountingBasis::Unknown,
            time_source: TimeSource::Unknown,
            action: NestedActionCapability::InspectionOnly,
            consequence: None,
            reported_by: None,
            writer_lock: None,
        };
        proof {
            reveal(UnitModel::blank);
            assert(evidences(unit.producer_evidence@) =~= Seq::<EvidenceModel>::empty());
            assert(evidences(unit.consumer_evidence@) =~= Seq::<EvidenceModel>::empty());
            assert(texts(unit.coverage.limits@) =~= Seq::<Seq<char>>::empty());
        }
        NestedUnitBuilder { unit, from_file: false }
    }

    /// A measured directory, identified: its role, the layout claim that makes
    /// it reviewable, and what removing it costs.
    pub fn known_dir(
        container: &BuildContainer,
        role: ArtifactRole,
        dir: &FoldedDir,
        reason: &str,
        consequence: &str,
    ) -> (r: Self)
        ensures
            r@ == UnitModel::known_dir(container@, role, dir@, reason@, consequence@),
            !r.from_file(),
    {
        proof {
            reveal(UnitModel::known_dir);
        }
        let source = cat2(container.adapter_id, "-layout");
        NestedUnitBuilder::new(container, role, dir.path.copy()).folded(dir).supported_with_reason(
            reason,
        ).evidence(source.as_str(), reason, Confidence::Medium).consequence(consequence)
    }

    /// A measured directory this adapter does not identify: a residual, named,
    /// never dropped.
    pub fn unknown_dir(container: &BuildContainer, dir: &FoldedDir, limit: &str) -> (r: Self)
        ensures
            r@ == UnitModel::unknown_dir(container@, dir@, limit@),
            !r.from_file(),
    {
        proof {
            reveal(UnitModel::unknown_dir);
        }
        NestedUnitBuilder::new(container, ArtifactRole::Residual, dir.path.copy()).folded(
            dir,
        ).unsupported_layout(limit)
    }

    /// The container's own unit, measured when the walk measured it, and saying
    /// so when it did not.
    pub fn container_root(container: &BuildContainer, ctx: &BuildCtx, role: ArtifactRole) -> (r: Self)
        ensures
            r@ == UnitModel::container_root(container@, ctx@, role),
            !r.from_file(),
    {
        proof {
            reveal(UnitModel::container_root);
        }
        let b = NestedUnitBuilder::new(container, role, container.path.copy()).is_dir(true);
        match ctx.folded().get(&container.path) {
            Some(d) => b.folded(d),
            None => b.limit("this directory was not measured by the walk this pass"),
        }
    }

    /// Declares this unit's layout understood, with the reason that makes the
    /// claim reviewable.
    pub fn supported_with_reason(self, reason: &str) -> (r: Self)
        ensures
            r@ == self@.supported(reason@),
            r.from_file() == self.from_file(),
    {
        let from_file = self.from_file;
        let mut unit = self.unit;
        unit.coverage.supported = true;
        let none = String::new();
        let adapter = match &unit.adapter {
            Some(a) => a.as_str(),
            None => none.as_str(),
        };
        assert(none@ =~= Seq::<char>::empty());
        let source = cat2(adapter, "-layout");
        push_evidence(
            &mut unit.producer_evidence,
            ArtifactEvidence::of(source.as_str(), reason, Confidence::Medium),
        );
        proof {
            reveal(UnitModel::supported);
        }
        NestedUnitBuilder { unit, from_file }
    }

    /// Marks the layout as one this adapter does not understand.
    pub fn unsupported_layout(self, limit: &str) -> (r: Self)
        ensures
            r@ == self@.unsupported_layout(limit@),
            r.from_file() == self.from_file(),
    {
        let from_file = self.from_file;
        let mut unit = self.unit;
        unit.coverage.supported = false;
        push_text(&mut unit.coverage.limits, limit);
        unit.action = NestedActionCapability::Unsupported {
            reason: "the layout is not one this adapter identifies".to_owned(),
        };
        proof {
            reveal(UnitModel::unsupported_layout);
        }
        NestedUnitBuilder { unit, from_file }
    }

    pub fn complete(self, complete: bool) -> (r: Self)
        ensures
            r@ == self@.complete(complete),
            r.from_file() == self.from_file(),
    {
        let from_file = self.from_file;
        let mut unit = self.unit;
        unit.coverage.complete = complete;
        proof {
            reveal(UnitModel::complete);
        }
        NestedUnitBuilder { unit, from_file }
    }

    pub fn limit(self, limit: &str) -> (r: Self)
        ensures
            r@ == self@.limit(limit@),
            r.from_file() == self.from_file(),
    {
        let from_file = self.from_file;
        let mut unit = self.unit;
        push_text(&mut unit.coverage.limits, limit);
        proof {
            reveal(UnitModel::limit);
        }
        NestedUnitBuilder { unit, from_file }
    }

    pub fn is_dir(self, is_dir: bool) -> (r: Self)
        ensures
            r@ == self@.is_dir(is_dir),
            r.from_file() == self.from_file(),
    {
        let from_file = self.from_file;
        let mut unit = self.unit;
        unit.is_dir = is_dir;
        proof {
            reveal(UnitModel::is_dir);
        }
        NestedUnitBuilder { unit, from_file }
    }

    /// Allocated bytes from a folded directory measurement, with the basis and
    /// the timestamp source recorded together.
    pub fn folded(self, dir: &FoldedDir) -> (r: Self)
        ensures
            r@ == self@.folded(dir@),
            r.from_file() == self.from_file(),
    {
        let from_file = self.from_file;
        let mut unit = self.unit;
        unit.bytes = dir.allocated_total;
        unit.basis = AccountingBasis::Allocated;
        unit.mtime_max = dir.mtime_max;
        unit.time_source = TimeSource::FoldedDirectoryModification;
        unit.is_dir = true;
        unit.coverage.complete = dir.complete;
        if !dir.complete {
            push_text(&mut unit.coverage.limits, "the walk could not read all of this directory");
        }
        proof {
            reveal(UnitModel::folded);
        }
        NestedUnitBuilder { unit, from_file }
    }

    /// One file's own metadata.
    pub fn from_file_metadata(self, meta: &FileStat) -> (r: Self)
        ensures
            r@ == self@.file_metadata(meta@),
            r.from_file(),
    {
        let mut unit = self.unit;
        unit.bytes = meta.allocated();
        unit.basis = AccountingBasis::Allocated;
        unit.logical_bytes = meta.len();
        unit.mtime_max = meta.modified();
        unit.time_source = TimeSource::FileModification;
        unit.device = meta.dev();
        unit.inode = meta.ino();
        unit.is_dir = meta.is_dir();
        unit.membership = if meta.nlink() > 1 && meta.is_file() {
            Membership::SharedHardlink
        } else {
            Membership::Exclusive
        };
        unit.coverage.complete = true;
        proof {
            reveal(UnitModel::file_metadata);
        }
        NestedUnitBuilder { unit, from_file: true }
    }

    /// Charges this file's allocated bytes to this unit alone. Only for a file
    /// with exactly one link: of a file with more, nothing here can tell which
    /// unit to charge. Called after [`Self::from_file_metadata`], and without
    /// effect otherwise: a unit that was not measured has nothing honest to
    /// charge.
    pub fn charged_uniquely(self) -> (r: Self)
        ensures
            r@ == (if self.from_file() {
                self@.charged_uniquely()
            } else {
                self@
            }),
            r.from_file() == self.from_file(),
    {
        let from_file = self.from_file;
        let mut unit = self.unit;
        if from_file && unit.membership == Membership::Exclusive && !unit.is_dir {
            unit.physical_total = unit.bytes;
            unit.physical_bytes = unit.bytes;
            unit.basis = AccountingBasis::UniqueAllocated;
        }
        proof {
            reveal(UnitModel::charged_uniquely);
        }
        NestedUnitBuilder { unit, from_file }
    }

    pub fn bytes_on_basis(self, bytes: u64, basis: AccountingBasis) -> (r: Self)
        ensures
            r@ == self@.bytes_on_basis(bytes, basis),
            r.from_file() == self.from_file(),
    {
        let from_file = self.from_file;
        let mut unit = self.unit;
        unit.bytes = bytes;
        unit.basis = basis;
        proof {
            reveal(UnitModel::bytes_on_basis);
        }
        NestedUnitBuilder { unit, from_file }
    }

    pub fn modified(self, mtime: u64, source: TimeSource) -> (r: Self)
        ensures
            r@ == self@.modified(mtime, source),
            r.from_file() == self.from_file(),
    {
        let from_file = self.from_file;
        let mut unit = self.unit;
        unit.mtime_max = mtime;
        unit.time_source = source;
        proof {
            reveal(UnitModel::modified);
        }
        NestedUnitBuilder { unit, from_file }
    }

    pub fn membership(self, m: Membership) -> (r: Self)
        ensures
            r@ == self@.membership(m),
            r.from_file() == self.from_file(),
    {
        let from_file = self.from_file;
        let mut unit = self.unit;
        unit.membership = m;
        proof {
            reveal(UnitModel::membership);
        }
        NestedUnitBuilder { unit, from_file }
    }

    pub fn variant(self, v: ArtifactVariant) -> (r: Self)
        ensures
            r@ == self@.variant(v@),
            r.from_file() == self.from_file(),
    {
        let from_file = self.from_file;
        let mut unit = self.unit;
        unit.variant = v;
        proof {
            reveal(UnitModel::variant);
        }
        NestedUnitBuilder { unit, from_file }
    }

    pub fn evidence(self, source: &str, detail: &str, c: Confidence) -> (r: Self)
        ensures
            r@ == self@.evidence(source@, detail@, c),
            r.from_file() == self.from_file(),
    {
        let from_file = self.from_file;
        let mut unit = self.unit;
        push_evidence(&mut unit.producer_evidence, ArtifactEvidence::of(source, detail, c));
        proof {
            reveal(UnitModel::evidence);
        }
        NestedUnitBuilder { unit, from_file }
    }

    /// What it would cost to get these bytes back. A consequence, never a
    /// verdict.
    pub fn consequence(self, text: &str) -> (r: Self)
        ensures
            r@ == self@.consequence(text@),
            r.from_file() == self.from_file(),
    {
        let from_file = self.from_file;
        let mut unit = self.unit;
        unit.consequence = Some(text.to_owned());
        proof {
            reveal(UnitModel::consequence);
        }
        NestedUnitBuilder { unit, from_file }
    }

    /// Declares that no action is available for this unit, and why.
    pub fn no_action_because(self, reason: &str) -> (r: Self)
        ensures
            r@ == self@.no_action_because(reason@),
            r.from_file() == self.from_file(),
    {
        let from_file = self.from_file;
        let mut unit = self.unit;
        unit.action = NestedActionCapability::Unsupported { reason: reason.to_owned() };
        proof {
            reveal(UnitModel::no_action_because);
        }
        NestedUnitBuilder { unit, from_file }
    }

    /// The members that would have to be considered together. Naming the group
    /// does not make it actionable.
    pub fn action_group(self, group: &str) -> (r: Self)
        ensures
            r@ == self@.action_group(group@),
            r.from_file() == self.from_file(),
    {
        let from_file = self.from_file;
        let mut unit = self.unit;
        unit.action_group = Some(NestedArtifact::action_group(group));
        proof {
            reveal(UnitModel::action_group);
        }
        NestedUnitBuilder { unit, from_file }
    }

    /// Re-opens a unit that was already built.
    pub fn amend(unit: NestedArtifact) -> (r: Self)
        ensures
            r@ == unit@,
            !r.from_file(),
    {
        NestedUnitBuilder { unit, from_file: false }
    }

    /// Replaces the role.
    pub fn role(self, role: ArtifactRole) -> (r: Self)
        ensures
            r@ == self@.role(role),
            r.from_file() == self.from_file(),
    {
        let from_file = self.from_file;
        let mut unit = self.unit;
        unit.role = role;
        proof {
            reveal(UnitModel::role);
        }
        NestedUnitBuilder { unit, from_file }
    }

    /// Raises the recorded modification time to at least `mtime`.
    pub fn modified_at_least(self, mtime: u64) -> (r: Self)
        ensures
            r@ == self@.modified_at_least(mtime),
            r.from_file() == self.from_file(),
    {
        let from_file = self.from_file;
        let mut unit = self.unit;
        if unit.mtime_max < mtime {
            unit.mtime_max = mtime;
        }
        proof {
            reveal(UnitModel::modified_at_least);
        }
        NestedUnitBuilder { unit, from_file }
    }

    /// Narrows completeness. There is deliberately no method that widens it.
    pub fn complete_only_if(self, complete: bool) -> (r: Self)
        ensures
            r@ == self@.complete_only_if(complete),
            r.from_file() == self.from_file(),
    {
        let from_file = self.from_file;
        let mut unit = self.unit;
        unit.coverage.complete = unit.coverage.complete && complete;
        proof {
            reveal(UnitModel::complete_only_if);
        }
        NestedUnitBuilder { unit, from_file }
    }

    /// Bytes and a time a manager reported rather than anything measured.
    pub fn reported_by_manager(self, manager: &str, logical_bytes: u64, recorded_at: Option<u64>) -> (r: Self)
        ensures
            r@ == self@.reported_by_manager(manager@, logical_bytes, recorded_at),
            r.from_file() == self.from_file(),
    {
        let from_file = self.from_file;
        let mut unit = self.unit;
        unit.reported_by = Some(manager.to_owned());
        unit.bytes = logical_bytes;
        unit.logical_bytes = logical_bytes;
        unit.basis = AccountingBasis::Logical;
        match recorded_at {
            Some(t) => {
                unit.mtime_max = t;
                unit.time_source = TimeSource::ToolRecorded;
            },
            None => {
                unit.mtime_max = 0;
                unit.time_source = TimeSource::Unknown;
            },
        }
        unit.coverage.complete = true;
        proof {
            reveal(UnitModel::reported_by_manager);
        }
        NestedUnitBuilder { unit, from_file }
    }

    /// Records a writer's lock file found present, and withholds any action
    /// while it is there.
    pub fn writer_lock(self, lock: FsPath, tool: &str) -> (r: Self)
        ensures
            r@ == self@.writer_lock(lock@, tool@),
            r.from_file() == self.from_file(),
    {
        let from_file = self.from_file;
        let mut unit = self.unit;
        let name = lock.name();
        let limit = cat5(
            "`",
            name.as_str(),
            "` is present: ",
            tool,
            " may be writing here now (a crashed build also leaves one)",
        );
        push_text(&mut unit.coverage.limits, limit.as_str());
        unit.writer_lock = Some(lock);
        unit.action = NestedActionCapability::Unsupported { reason: cat2(tool, " may be writing here now") };
        proof {
            reveal(UnitModel::writer_lock);
        }
        NestedUnitBuilder { unit, from_file }
    }

    /// This pass's history for the unit. History is annotation, never identity.
    pub fn history(self, growth_bytes: Option<i64>, regrowth_count: u32) -> (r: Self)
        ensures
            r@ == self@.history(growth_bytes, regrowth_count),
            r.from_file() == self.from_file(),
    {
        let from_file = self.from_file;
        let mut unit = self.unit;
        unit.growth_bytes = growth_bytes;
        unit.regrowth_count = regrowth_count;
        proof {
            reveal(UnitModel::history);
        }
        NestedUnitBuilder { unit, from_file }
    }

    /// An action group by its already computed storage id.
    pub fn action_group_id(self, id: String) -> (r: Self)
        ensures
            r@ == self@.action_group_id(id@),
            r.from_file() == self.from_file(),
    {
        let from_file = self.from_file;
        let mut unit = self.unit;
        unit.action_group = Some(id);
        proof {
            reveal(UnitModel::action_group_id);
        }
        NestedUnitBuilder { unit, from_file }
    }

    pub fn build(self) -> (r: NestedArtifact)
        ensures
            r@ == self@,
    {
        self.unit
    }

    pub fn trash_path(self) -> (r: Self)
        ensures
            r@ == self@.trash_path(),
            r.from_file() == self.from_file(),
    {
        let from_file = self.from_file;
        let mut unit = self.unit;
        unit.action = NestedActionCapability::TrashPath;
        proof {
            reveal(UnitModel::trash_path);
        }
        NestedUnitBuilder { unit, from_file }
    }
}

// ---------------------------------------------------------------------
// What building promises
// ---------------------------------------------------------------------

/// A new unit understates: nothing about it is supported, complete, measured,
/// dated, charged or actionable.
pub proof fn law_a_new_unit_claims_nothing(c: ContainerModel, role: ArtifactRole, path: PathModel)
    ensures
        ({
            let u = UnitModel::blank(c, role, path);
            &&& !u.coverage.supported
            &&& !u.coverage.complete
            &&& u.basis == AccountingBasis::Unknown
            &&& u.time_source == TimeSource::Unknown
            &&& u.membership == Membership::Unknown
            &&& u.physical_total == 0
            &&& u.physical_bytes == 0
            &&& u.action is InspectionOnly
            &&& u.consequence is None
        }),
{
    reveal(UnitModel::blank);
}

/// Amending a unit keeps its identity, never makes it older and never widens
/// its completeness.
pub proof fn law_amending_keeps_identity(
    u: UnitModel,
    role: ArtifactRole,
    mtime: u64,
    complete: bool,
    growth: Option<i64>,
    regrowth: u32,
)
    ensures
        u.role(role).same_identity(u),
        u.modified_at_least(mtime).same_identity(u),
        u.complete_only_if(complete).same_identity(u),
        u.history(growth, regrowth).same_identity(u),
        u.trash_path().same_identity(u),
        u.modified_at_least(mtime).mtime_max >= u.mtime_max,
        u.complete_only_if(complete).coverage.complete ==> u.coverage.complete,
{
    reveal(UnitModel::role);
    reveal(UnitModel::modified_at_least);
    reveal(UnitModel::complete_only_if);
    reveal(UnitModel::history);
    reveal(UnitModel::trash_path);
}

/// A unit's bytes are charged to it alone only when it is a file with a single
/// link.
pub proof fn law_only_single_link_files_are_charged(u: UnitModel, meta: StatModel)
    requires
        u.physical_bytes == 0,
        u.physical_total == 0,
    ensures
        ({
            let c = u.file_metadata(meta).charged_uniquely();
            c.physical_bytes > 0 ==> !meta.is_dir() && !(meta.nlink > 1 && meta.is_file())
        }),
{
    reveal(UnitModel::file_metadata);
    reveal(UnitModel::charged_uniquely);
}

/// A measured directory that is not identified stays in the result: it is
/// named, unsupported, and nothing can be done with it.
pub proof fn law_unknown_layout_is_explicit(c: ContainerModel, dir: DirModel, limit: Seq<char>)
    ensures
        ({
            let u = UnitModel::unknown_dir(c, dir, limit);
            &&& !u.coverage.supported
            &&& u.coverage.limits.contains(limit)
            &&& u.path == dir.path
            &&& u.bytes == dir.allocated_total
            &&& u.action is Unsupported
        }),
{
    reveal(UnitModel::unknown_dir);
    reveal(UnitModel::blank);
    reveal(UnitModel::folded);
    reveal(UnitModel::unsupported_layout);
    let u = UnitModel::unknown_dir(c, dir, limit);
    assert(u.coverage.limits.last() == limit);
}

/// Age is a fact about a unit and no verdict on it: whenever a measured
/// directory was last modified, it is identified the same way.
pub proof fn law_age_is_not_obsolescence(
    c: ContainerModel,
    role: ArtifactRole,
    dir: DirModel,
    mtime: u64,
    reason: Seq<char>,
    consequence: Seq<char>,
)
    ensures
        ({
            let other = DirModel { mtime_max: mtime, ..dir };
            let a = UnitModel::known_dir(c, role, dir, reason, consequence);
            let b = UnitModel::known_dir(c, role, other, reason, consequence);
            &&& b == UnitModel { mtime_max: mtime, ..a }
            &&& a.time_source == TimeSource::FoldedDirectoryModification
        }),
{
    reveal(UnitModel::known_dir);
    reveal(UnitModel::blank);
    reveal(UnitModel::folded);
    reveal(UnitModel::supported);
    reveal(UnitModel::evidence);
    reveal(UnitModel::consequence);
}

} // verus!
