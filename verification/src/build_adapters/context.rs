//! What an adapter identifies through: the measured rows, the records of what
//! was read, and what may be replayed from before.

use super::container::{
    law_stamping_changes_one_time, BuildContainer, CacheModel, ContainerCache, ContainerModel, DirModel, EntryStored,
    FoldedIndex,
};
use crate::artifact::{copy_units, units_view, NestedArtifact, UnitModel};
use crate::docker::DockerFacts;
use crate::facts::{
    entries_view, listed_of, listing_of, manifest_of, opt_manifest_ref, opt_stat, stat_of, whole_manifest_of,
    EntryModel, FactModel, FileFacts, FileStat, Manifest, ShallowEntry, Truncation,
};
use crate::fs_events::{CoverageWindow, EventCoverage};
use crate::path::FsPath;
use crate::text::opt_is;
use vstd::prelude::*;

verus! {

/// What an adapter identifies through.
pub struct BuildCtx<'a> {
    pub observed_at: u64,
    folded: &'a FoldedIndex,
    coverage: &'a EventCoverage,
    cache: ContainerCache,
    facts: Option<&'a FileFacts>,
    daemon: Option<&'a DockerFacts>,
}

pub struct CtxModel {
    pub observed_at: u64,
    pub rows: Seq<DirModel>,
    pub facts: Seq<FactModel>,
    pub coverage: CoverageWindow,
    pub cache: CacheModel,
    pub daemon: Option<DockerFacts>,
}

impl<'a> View for BuildCtx<'a> {
    type V = CtxModel;

    closed spec fn view(&self) -> CtxModel {
        CtxModel {
            observed_at: self.observed_at,
            rows: self.folded@,
            facts: match self.facts {
                Some(f) => f@,
                None => Seq::empty(),
            },
            coverage: self.coverage@,
            cache: self.cache@,
            daemon: match self.daemon {
                Some(d) => Some(*d),
                None => None,
            },
        }
    }
}

/// Whether every stored unit was written by this adapter.
pub open spec fn written_by(units: Seq<UnitModel>, adapter_id: Seq<char>) -> bool {
    forall|i: int| 0 <= i < units.len() ==> #[trigger] units[i].adapter == Some(adapter_id)
}

impl CtxModel {
    /// What may be replayed for a container: its stored units, when they were
    /// all written by the adapter that claims it now and the event window shows
    /// that nothing under it changed since they were verified. A stored answer
    /// with no units is replayed like any other.
    pub open spec fn replayed(self, c: ContainerModel) -> Option<Seq<UnitModel>> {
        match self.cache.entry(c.scope()) {
            Some(e) => if self.cache.enabled && written_by(e.units, c.adapter_id)
                && self.coverage.unchanged_since(c.path, e.stored_at) {
                Some(e.units)
            } else {
                None
            },
            None => None,
        }
    }

    /// The context after a container: where its stored units were replayed, they
    /// are verified as of this observation, so that the next window, which
    /// begins where this one ended, can vouch for them again.
    pub open spec fn after(self, c: ContainerModel) -> CtxModel {
        if self.replayed(c) is Some {
            CtxModel { cache: self.cache.stamped(c.scope(), self.observed_at), ..self }
        } else {
            self
        }
    }
}

/// A container that was replayed is verified as of the observation that replayed
/// it, with the units it had; nothing else in the cache changes.
pub proof fn law_a_replayed_container_is_verified_again(ctx: CtxModel, c: ContainerModel, other: Seq<char>)
    requires
        ctx.replayed(c) is Some,
    ensures
        ctx.after(c).cache.entry(c.scope()) matches Some(e) && e.stored_at == ctx.observed_at && Some(e.units)
            == ctx.replayed(c),
        other != c.scope() ==> ctx.after(c).cache.entry(other) == ctx.cache.entry(other),
{
    law_stamping_changes_one_time(ctx.cache, c.scope(), ctx.observed_at, other);
}

/// What was replayed in one pass is replayed in the next, under a window that
/// vouches for it from this pass on.
pub proof fn law_replaying_goes_on(ctx: CtxModel, c: ContainerModel, next: CtxModel)
    requires
        ctx.replayed(c) is Some,
        next.cache == ctx.after(c).cache,
        next.coverage.unchanged_since(c.path, ctx.observed_at),
    ensures
        next.replayed(c) == ctx.replayed(c),
{
    law_stamping_changes_one_time(ctx.cache, c.scope(), ctx.observed_at, c.scope());
}

/// A stored container is replayed under a window that shows it unchanged,
/// whatever its number of units.
pub proof fn law_a_stored_answer_is_replayed(ctx: CtxModel, c: ContainerModel, e: EntryStored)
    requires
        ctx.cache.enabled,
        ctx.cache.entry(c.scope()) == Some(e),
        written_by(e.units, c.adapter_id),
        ctx.coverage.unchanged_since(c.path, e.stored_at),
    ensures
        ctx.replayed(c) == Some(e.units),
        e.units.len() == 0 ==> ctx.replayed(c) == Some(Seq::<UnitModel>::empty()),
{
    if e.units.len() == 0 {
        assert(e.units =~= Seq::<UnitModel>::empty());
    }
}

/// Nothing is replayed without a trusted window over the container.
pub proof fn law_no_window_no_replay(ctx: CtxModel, c: ContainerModel)
    requires
        ctx.coverage is Untrusted,
    ensures
        ctx.replayed(c) is None,
{
}

/// Nothing is replayed once something under the container changed.
pub proof fn law_an_event_inside_stops_replay(ctx: CtxModel, c: ContainerModel, k: int)
    requires
        ctx.coverage is Trusted,
        0 <= k < ctx.coverage->events.len(),
        crate::path::within(ctx.coverage->events[k], c.path),
    ensures
        ctx.replayed(c) is None,
{
}

/// Rows written by another adapter are never replayed.
pub proof fn law_other_adapters_rows_are_not_replayed(ctx: CtxModel, c: ContainerModel, k: int)
    requires
        ctx.cache.entry(c.scope()) is Some,
        0 <= k < ctx.cache.entry(c.scope())->0.units.len(),
        ctx.cache.entry(c.scope())->0.units[k].adapter != Some(c.adapter_id),
    ensures
        ctx.replayed(c) is None,
{
}

impl<'a> BuildCtx<'a> {
    pub fn new(
        observed_at: u64,
        folded: &'a FoldedIndex,
        coverage: &'a EventCoverage,
        cache: &ContainerCache,
    ) -> (r: Self)
        ensures
            r@ == (CtxModel {
                observed_at,
                rows: folded@,
                facts: Seq::empty(),
                coverage: coverage@,
                cache: cache@,
                daemon: None,
            }),
    {
        BuildCtx { observed_at, folded, coverage, cache: cache.copy(), facts: None, daemon: None }
    }

    /// The same context with the records of what was read.
    pub fn with_facts(self, facts: &'a FileFacts) -> (r: Self)
        ensures
            r@ == (CtxModel { facts: facts@, ..self@ }),
    {
        BuildCtx { facts: Some(facts), ..self }
    }

    /// The same context with the daemon's answers.
    pub fn with_daemon(self, facts: &'a DockerFacts) -> (r: Self)
        ensures
            r@ == (CtxModel { daemon: Some(*facts), ..self@ }),
    {
        BuildCtx { daemon: Some(facts), ..self }
    }

    pub fn daemon(&self) -> (r: Option<&DockerFacts>)
        ensures
            match r {
                Some(d) => self@.daemon == Some(*d),
                None => self@.daemon is None,
            },
    {
        self.daemon
    }

    pub fn now(&self) -> (r: u64)
        ensures
            r == self@.observed_at,
    {
        self.observed_at
    }

    pub fn folded(&self) -> (r: &FoldedIndex)
        ensures
            r@ == self@.rows,
    {
        self.folded
    }

    /// The stored units of a container, when they may be replayed.
    pub fn replay(&self, container: &BuildContainer) -> (r: Option<Vec<NestedArtifact>>)
        ensures
            match r {
                Some(units) => self@.replayed(container@) == Some(units_view(units@)),
                None => self@.replayed(container@) is None,
            },
    {
        let scope = container.scope();
        match self.cache.stored(scope.as_str()) {
            Some(entry) => {
                let units = entry.1;
                if all_written_by(units, container.adapter_id) && self.coverage.unchanged_since(
                    &container.path,
                    entry.0,
                ) {
                    Some(copy_units(units))
                } else {
                    None
                }
            },
            None => None,
        }
    }

    /// Whether a container's stored units may be replayed.
    pub fn can_reuse(&self, container: &BuildContainer) -> (r: bool)
        ensures
            r == (self@.replayed(container@) is Some),
    {
        self.replay(container).is_some()
    }

    /// The units of one container: the stored ones when they may be replayed,
    /// which are then verified as of this observation, and otherwise what
    /// `identify` finds.
    pub fn container<F: Fn(&BuildCtx<'a>) -> Vec<NestedArtifact>>(
        &mut self,
        container: &BuildContainer,
        identify: F,
    ) -> (r: Vec<NestedArtifact>)
        requires
            forall|x: &BuildCtx<'a>| #[trigger] identify.requires((x,)),
        ensures
            final(self)@ == old(self)@.after(container@),
            match old(self)@.replayed(container@) {
                Some(units) => units_view(r@) == units,
                None => exists|x: &BuildCtx<'a>| x@ == old(self)@ && #[trigger] identify.ensures((x,), r),
            },
    {
        match self.replay(container) {
            Some(units) => {
                let scope = container.scope();
                self.cache.restamp(scope.as_str(), self.observed_at);
                units
            },
            None => identify(self),
        }
    }

    /// What may be replayed in a later pass.
    pub fn cache(&self) -> (r: &ContainerCache)
        ensures
            r@ == self@.cache,
    {
        &self.cache
    }

    /// The entries of one directory.
    pub fn list(&self, dir: &FsPath) -> (r: Vec<ShallowEntry>)
        ensures
            entries_view(r@) == listing_of(self@.facts, dir@),
    {
        match self.facts {
            Some(f) => f.list(dir),
            None => {
                let v: Vec<ShallowEntry> = Vec::new();
                assert(entries_view(v@) =~= Seq::<EntryModel>::empty());
                v
            },
        }
    }

    /// The entries of one directory, and whether they are all of them.
    pub fn list_checked(&self, dir: &FsPath) -> (r: (Vec<ShallowEntry>, Truncation))
        ensures
            entries_view(r.0@) == listing_of(self@.facts, dir@),
            r.1 == listed_of(self@.facts, dir@),
    {
        let listed = match self.facts {
            Some(f) => f.listed(dir),
            None => Truncation::Unreadable,
        };
        (self.list(dir), listed)
    }

    /// One path's own metadata.
    pub fn stat(&self, path: &FsPath) -> (r: Option<FileStat>)
        ensures
            opt_stat(r) == stat_of(self@.facts, path@),
    {
        match self.facts {
            Some(f) => f.stat(path),
            None => None,
        }
    }

    /// One named manifest, up to the read cap.
    pub fn manifest(&self, path: &FsPath) -> (r: Option<&Manifest>)
        ensures
            opt_manifest_ref(r) == manifest_of(self@.facts, path@),
    {
        match self.facts {
            Some(f) => f.manifest(path),
            None => None,
        }
    }

    /// One named manifest that was read to its end.
    pub fn whole_manifest(&self, path: &FsPath) -> (r: Option<&Manifest>)
        ensures
            opt_manifest_ref(r) == whole_manifest_of(self@.facts, path@),
    {
        match self.facts {
            Some(f) => f.whole_manifest(path),
            None => None,
        }
    }
}

fn all_written_by(units: &Vec<NestedArtifact>, adapter_id: &str) -> (r: bool)
    ensures
        r == written_by(units_view(units@), adapter_id@),
{
    let mut i: usize = 0;
    while i < units.len()
        invariant
            i <= units@.len(),
            forall|k: int| 0 <= k < i ==> #[trigger] units_view(units@)[k].adapter == Some(adapter_id@),
        decreases units@.len() - i,
    {
        if !opt_is(&units[i].adapter, adapter_id) {
            assert(units_view(units@)[i as int].adapter != Some(adapter_id@));
            return false;
        }
        assert(units_view(units@)[i as int].adapter == Some(adapter_id@));
        i += 1;
    }
    true
}

} // verus!
