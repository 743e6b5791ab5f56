//! Event coverage: which paths a pass's event window can vouch for.

use crate::path::{paths, within, FsPath, PathModel};
use vstd::prelude::*;

verus! {

/// A window of file-system events a pass trusts, or none.
#[derive(Debug, Clone, PartialEq, Eq)]
pub enum EventCoverage {
    Untrusted,
    /// Every event under `root` since `since` is one of `events`.
    Trusted { root: FsPath, events: Vec<FsPath>, since: u64 },
}

pub enum CoverageWindow {
    Untrusted,
    Trusted { root: PathModel, events: Seq<PathModel>, since: u64 },
}

impl View for EventCoverage {
    type V = CoverageWindow;

    open spec fn view(&self) -> CoverageWindow {
        match self {
            EventCoverage::Untrusted => CoverageWindow::Untrusted,
            EventCoverage::Trusted { root, events, since } => CoverageWindow::Trusted {
                root: root@,
                events: paths(events@),
                since: *since,
            },
        }
    }
}

/// Whether no event is at or under `path`.
pub open spec fn quiet(events: Seq<PathModel>, path: PathModel) -> bool {
    forall|i: int| 0 <= i < events.len() ==> !within(#[trigger] events[i], path)
}

impl CoverageWindow {
    /// Whether nothing at or under `path` changed since `stored_at`: the window
    /// is trusted, covers the path, was open by then and saw no event there.
    pub open spec fn unchanged_since(self, path: PathModel, stored_at: u64) -> bool {
        match self {
            CoverageWindow::Untrusted => false,
            CoverageWindow::Trusted { root, events, since } => {
                &&& within(path, root)
                &&& since <= stored_at
                &&& quiet(events, path)
            },
        }
    }
}

fn no_event_under(events: &Vec<FsPath>, path: &FsPath) -> (r: bool)
    ensures
        r == quiet(paths(events@), path@),
{
    let mut i: usize = 0;
    while i < events.len()
        invariant
            i <= events@.len(),
            forall|k: int| 0 <= k < i ==> !within(#[trigger] paths(events@)[k], path@),
        decreases events@.len() - i,
    {
        if events[i].within(path) {
            assert(within(paths(events@)[i as int], path@));
            return false;
        }
        i += 1;
    }
    true
}

impl EventCoverage {
    pub fn untrusted() -> (r: Self)
        ensures
            r@ is Untrusted,
    {
        EventCoverage::Untrusted
    }

    pub fn trusted(root: FsPath, events: Vec<FsPath>, since: u64) -> (r: Self)
        ensures
            r@ == (CoverageWindow::Trusted { root: root@, events: paths(events@), since }),
    {
        EventCoverage::Trusted { root, events, since }
    }

    pub fn unchanged_since(&self, path: &FsPath, stored_at: u64) -> (r: bool)
        ensures
            r == self@.unchanged_since(path@, stored_at),
    {
        match self {
            EventCoverage::Untrusted => false,
            EventCoverage::Trusted { root, events, since } => {
                path.within(root) && *since <= stored_at && no_event_under(events, path)
            },
        }
    }
}

} // verus!
