//! The steps of a profile inspection: what each thing that was read changes,
//! and whether the reading goes on.

use super::profile::{
    bounds_of, find_group_of, find_matching_record, fresh_group, group_from, groups_view, make_group, matching,
    opt_seen, read_record, record_of, records_view, set_bounds, Bounds, CargoDependencyGroup,
    CargoProfileInspectionLimits, EntryStep, FingerprintRecord, GroupModel, MAX_PROFILE_INSPECTION_ENTRIES,
    MAX_PROFILE_METADATA_BYTES, Pulse, RecordModel, SeenEntry, SeenModel,
};
use crate::artifact::{ArtifactCoverage, CoverageModel};
use crate::facts::{opt_stat, FileKind, FileStat, StatModel};
use crate::json::{parse_json, parsed_json};
use crate::number::{decimal, write_u64};
use crate::path::{has_path, holds_path, joined_path, push_path, FsPath, PathModel};
use crate::text::{byte_len, cat3, ends, finishes, holds_text, opt_text, push_text, text_bytes, texts};
use vstd::prelude::*;

verus! {

/// How far an inspection has come.
pub struct WalkModel {
    pub profile: PathModel,
    pub bounds: Bounds,
    pub supported: bool,
    pub complete: bool,
    pub limits: Seq<Seq<char>>,
    /// Entries examined.
    pub examined: nat,
    /// Metadata bytes read.
    pub read: nat,
    pub records: Seq<RecordModel>,
    pub groups: Seq<GroupModel>,
    /// Inodes counted so far.
    pub inodes: Seq<(u64, u64)>,
    /// Inodes counted so far, by group.
    pub charged: Seq<(int, u64, u64)>,
    pub allocated: u64,
    pub unique: u64,
}

pub open spec fn saturating(a: u64, b: u64) -> u64 {
    if a + b > u64::MAX {
        u64::MAX
    } else {
        (a + b) as u64
    }
}

impl WalkModel {
    pub open spec fn begin(profile: PathModel, bounds: Bounds) -> WalkModel {
        WalkModel {
            profile,
            bounds,
            supported: false,
            complete: true,
            limits: Seq::empty(),
            examined: 0,
            read: 0,
            records: Seq::empty(),
            groups: Seq::empty(),
            inodes: Seq::empty(),
            charged: Seq::empty(),
            allocated: 0,
            unique: 0,
        }
    }

    /// An observation that is not complete, and why; each reason once.
    pub open spec fn limited(self, reason: Seq<char>) -> WalkModel {
        WalkModel {
            complete: false,
            limits: if self.limits.contains(reason) {
                self.limits
            } else {
                self.limits.push(reason)
            },
            ..self
        }
    }

    pub open spec fn examine(self) -> WalkModel {
        WalkModel { examined: self.examined + 1, ..self }
    }

    /// Why the budget is used up, if it is.
    pub open spec fn spent(self, pulse: Pulse) -> Option<Seq<char>> {
        if pulse.cancelled {
            Some("inspection cancelled; results are partial"@)
        } else if self.examined >= self.bounds.entries {
            Some("entry limit reached ("@ + decimal(self.bounds.entries as nat) + ")"@)
        } else if pulse.elapsed >= self.bounds.nanos {
            Some("time limit reached ("@ + decimal((self.bounds.nanos / 1_000_000) as nat) + " ms)"@)
        } else if self.read >= self.bounds.metadata {
            Some("fingerprint metadata byte limit reached ("@ + decimal(self.bounds.metadata as nat) + ")"@)
        } else {
            None
        }
    }

    /// The same while fingerprints are read, for which half of the entries is
    /// reserved: a large fingerprint tree must not use up what dependency
    /// entries need.
    pub open spec fn fingerprints_spent(self, pulse: Pulse) -> Option<Seq<char>> {
        if self.examined >= self.bounds.entries / 2 {
            Some("fingerprint entry budget reached; remaining budget reserved for deps"@)
        } else {
            self.spent(pulse)
        }
    }

    /// The selected profile itself.
    pub open spec fn profile_seen(self, stat: Option<StatModel>) -> WalkModel {
        match stat {
            None => self.limited("selected profile is unavailable"@),
            Some(m) => if m.kind == FileKind::Directory {
                WalkModel { supported: true, ..self }
            } else {
                self.limited("selected profile is not a directory"@)
            },
        }
    }

    /// A directory of the profile, which is listed only if it is a real one.
    pub open spec fn directory_seen(self, stat: Option<StatModel>, unreal: Seq<char>, missing: Seq<char>) -> WalkModel {
        match stat {
            Some(m) => if m.kind == FileKind::Directory {
                self
            } else {
                self.limited(unreal)
            },
            None => self.limited(missing),
        }
    }

    pub open spec fn fingerprints_seen(self, stat: Option<StatModel>) -> WalkModel {
        self.directory_seen(
            stat,
            "profile .fingerprint is not a real directory; not followed"@,
            "profile .fingerprint directory unavailable"@,
        )
    }

    pub open spec fn fingerprints_unlisted(self) -> WalkModel {
        self.limited("fingerprint metadata unavailable; dependency files remain residual"@)
    }

    pub open spec fn deps_seen(self, stat: Option<StatModel>) -> WalkModel {
        self.directory_seen(
            stat,
            "profile deps is not a real directory; not followed"@,
            "profile deps directory unavailable"@,
        )
    }

    pub open spec fn deps_unlisted(self) -> WalkModel {
        self.limited("selected profile deps directory is unavailable"@)
    }

    /// One entry of the fingerprint directory.
    pub open spec fn fingerprint_entry(self, pulse: Pulse, entry: Option<SeenModel>) -> (WalkModel, EntryStep) {
        match self.fingerprints_spent(pulse) {
            Some(reason) => (self.limited(reason), EntryStep::Stop),
            None => match entry {
                None => (self.limited("fingerprint directory entry could not be read"@), EntryStep::Skip),
                Some(e) => match e.stat {
                    None => (
                        self.examine().limited("fingerprint entry became unavailable during inspection"@),
                        EntryStep::Skip,
                    ),
                    Some(m) => if m.kind == FileKind::Symlink {
                        (
                            self.examine().limited("symlink in fingerprint directory was not followed"@),
                            EntryStep::Skip,
                        )
                    } else if m.kind == FileKind::Directory {
                        (self.examine(), EntryStep::Open)
                    } else {
                        (self.examine(), EntryStep::Skip)
                    },
                },
            },
        }
    }

    pub open spec fn fingerprint_unlisted(self) -> WalkModel {
        self.limited("fingerprint subdirectory could not be listed"@)
    }

    /// One file of a fingerprint subdirectory.
    pub open spec fn record_entry(self, pulse: Pulse, entry: Option<SeenModel>) -> (WalkModel, EntryStep) {
        match self.fingerprints_spent(pulse) {
            Some(reason) => (self.limited(reason), EntryStep::Stop),
            None => match entry {
                None => (self.limited("fingerprint file entry could not be read"@), EntryStep::Skip),
                Some(e) => if !finishes(e.name, ".json"@) {
                    (self.examine(), EntryStep::Skip)
                } else {
                    match e.stat {
                        None => (self.examine(), EntryStep::Skip),
                        Some(m) => if m.kind == FileKind::Symlink {
                            (
                                self.examine().limited("symlink fingerprint metadata was not followed"@),
                                EntryStep::Skip,
                            )
                        } else if m.kind != FileKind::File {
                            (self.examine(), EntryStep::Skip)
                        } else if self.read + m.len > self.bounds.metadata || m.len > self.bounds.record {
                            (
                                self.examine().limited(
                                    "fingerprint metadata byte/file-size limit reached; remaining records omitted"@,
                                ),
                                EntryStep::Stop,
                            )
                        } else {
                            (self.examine(), EntryStep::Open)
                        },
                    }
                },
            },
        }
    }

    /// The text of a fingerprint record; one that is longer than a record may
    /// be is as good as unreadable.
    pub open spec fn record_text(self, dirname: Seq<char>, filename: Seq<char>, text: Option<Seq<char>>) -> WalkModel {
        match text {
            Some(t) => if byte_len(t) > self.bounds.record {
                self
            } else {
                let after = WalkModel { read: self.read + byte_len(t), ..self };
                match parsed_json(t) {
                    Some(v) => {
                        let path = joined_path(
                            joined_path(joined_path(self.profile, ".fingerprint"@), dirname),
                            filename,
                        );
                        match record_of(v, dirname, filename, path) {
                            Some(r) => WalkModel { records: after.records.push(r), ..after },
                            None => after,
                        }
                    },
                    None => after,
                }
            },
            None => self,
        }
    }

    /// A group that counts one more file.
    pub open spec fn counted(g: GroupModel, meta: StatModel, record: Option<RecordModel>, fresh: bool) -> GroupModel {
        let bytes = meta.allocated() as u64;
        GroupModel {
            fingerprint_paths: match record {
                Some(r) => if has_path(g.fingerprint_paths, r.path) {
                    g.fingerprint_paths
                } else {
                    g.fingerprint_paths.push(r.path)
                },
                None => g.fingerprint_paths,
            },
            allocated_bytes: saturating(g.allocated_bytes, bytes),
            logical_bytes: saturating(g.logical_bytes, meta.len),
            entries: (g.entries + 1) as usize,
            hardlinked_entries: if meta.nlink > 1 {
                (g.hardlinked_entries + 1) as usize
            } else {
                g.hardlinked_entries
            },
            unique_allocated_bytes: if fresh {
                saturating(g.unique_allocated_bytes, bytes)
            } else {
                g.unique_allocated_bytes
            },
            ..g
        }
    }

    /// One dependency file, counted in the group it belongs to and in the
    /// profile; an inode that was counted before adds nothing to what is
    /// unique.
    pub open spec fn dependency(self, name: Seq<char>, meta: StatModel) -> WalkModel {
        let record = matching(self.records, name);
        let place = group_from(self.groups, record, 0);
        let groups = if place < self.groups.len() {
            self.groups
        } else {
            self.groups.push(fresh_group(self.profile, record))
        };
        let bytes = meta.allocated() as u64;
        let inode = (meta.dev, meta.ino);
        let charge = (place, meta.dev, meta.ino);
        let fresh = !self.charged.contains(charge);
        WalkModel {
            groups: groups.update(place, WalkModel::counted(groups[place], meta, record, fresh)),
            allocated: saturating(self.allocated, bytes),
            unique: if self.inodes.contains(inode) {
                self.unique
            } else {
                saturating(self.unique, bytes)
            },
            inodes: if self.inodes.contains(inode) {
                self.inodes
            } else {
                self.inodes.push(inode)
            },
            charged: if fresh {
                self.charged.push(charge)
            } else {
                self.charged
            },
            ..self
        }
    }

    /// One entry of the dependency directory, and whether reading goes on.
    pub open spec fn dependency_entry(self, pulse: Pulse, entry: Option<SeenModel>) -> (WalkModel, bool) {
        match self.spent(pulse) {
            Some(reason) => (self.limited(reason), false),
            None => match entry {
                None => (self.limited("dependency file entry could not be read"@), true),
                Some(e) => match e.stat {
                    None => (
                        self.examine().limited("dependency entry became unavailable during inspection"@),
                        true,
                    ),
                    Some(m) => if m.kind == FileKind::Symlink {
                        (self.examine().limited("symlink in dependency directory was not followed"@), true)
                    } else if m.kind != FileKind::File {
                        (self.examine(), true)
                    } else {
                        (self.examine().dependency(e.name, m), true)
                    },
                },
            },
        }
    }

    /// What holds at every point of an inspection.
    pub open spec fn sound(self) -> bool {
        &&& 1 <= self.bounds.entries <= MAX_PROFILE_INSPECTION_ENTRIES
        &&& 1 <= self.bounds.metadata <= MAX_PROFILE_METADATA_BYTES
        &&& self.examined <= self.bounds.entries
        &&& self.read <= self.bounds.metadata + self.bounds.record
        &&& self.unique <= self.allocated
        &&& self.complete <==> self.limits.len() == 0
        &&& forall|i: int| 0 <= i < self.groups.len() ==> group_sound(#[trigger] self.groups[i], self.examined)
    }
}

/// A group counts no more than was examined, and it names no target exactly
/// where it says why its files could not be matched.
pub open spec fn group_sound(g: GroupModel, examined: nat) -> bool {
    &&& g.target is None <==> g.residual_reason is Some
    &&& g.hardlinked_entries <= g.entries <= examined
    &&& g.unique_allocated_bytes <= g.allocated_bytes
}

/// An inspection under way.
pub struct ProfileWalk {
    profile: FsPath,
    bounds: Bounds,
    supported: bool,
    complete: bool,
    limits: Vec<String>,
    examined: usize,
    read: u64,
    records: Vec<FingerprintRecord>,
    groups: Vec<CargoDependencyGroup>,
    inodes: Vec<(u64, u64)>,
    charged: Vec<(usize, u64, u64)>,
    allocated: u64,
    unique: u64,
}

pub open spec fn charges(s: Seq<(usize, u64, u64)>) -> Seq<(int, u64, u64)> {
    Seq::new(s.len(), |i: int| (s[i].0 as int, s[i].1, s[i].2))
}

impl View for ProfileWalk {
    type V = WalkModel;

    closed spec fn view(&self) -> WalkModel {
        WalkModel {
            profile: self.profile@,
            bounds: self.bounds,
            supported: self.supported,
            complete: self.complete,
            limits: texts(self.limits@),
            examined: self.examined as nat,
            read: self.read as nat,
            records: records_view(self.records@),
            groups: groups_view(self.groups@),
            inodes: self.inodes@,
            charged: charges(self.charged@),
            allocated: self.allocated,
            unique: self.unique,
        }
    }
}

fn saturate(a: u64, b: u64) -> (r: u64)
    ensures
        r == saturating(a, b),
{
    if a > u64::MAX - b {
        u64::MAX
    } else {
        a + b
    }
}

fn holds_inode(list: &Vec<(u64, u64)>, dev: u64, ino: u64) -> (r: bool)
    ensures
        r == list@.contains((dev, ino)),
{
    let mut i: usize = 0;
    while i < list.len()
        invariant
            i <= list@.len(),
            forall|k: int| 0 <= k < i ==> list@[k] != (dev, ino),
        decreases list@.len() - i,
    {
        if list[i].0 == dev && list[i].1 == ino {
            assert(list@[i as int] == (dev, ino));
            return true;
        }
        i += 1;
    }
    false
}

fn holds_charge(list: &Vec<(usize, u64, u64)>, place: usize, dev: u64, ino: u64) -> (r: bool)
    ensures
        r == charges(list@).contains((place as int, dev, ino)),
{
    let ghost all = charges(list@);
    let mut i: usize = 0;
    while i < list.len()
        invariant
            i <= list@.len(),
            all == charges(list@),
            forall|k: int| 0 <= k < i ==> all[k] != (place as int, dev, ino),
        decreases list@.len() - i,
    {
        assert(all[i as int] == (list@[i as int].0 as int, list@[i as int].1, list@[i as int].2));
        if list[i].0 == place && list[i].1 == dev && list[i].2 == ino {
            assert(all[i as int] == (place as int, dev, ino));
            return true;
        }
        i += 1;
    }
    false
}

impl ProfileWalk {
    pub fn new(profile: &FsPath, limits: &CargoProfileInspectionLimits, record_cap: u32) -> (r: Self)
        ensures
            r@ == WalkModel::begin(profile@, bounds_of(*limits, record_cap)),
            r@.sound(),
    {
        let bounds = set_bounds(limits, record_cap);
        let r = ProfileWalk {
            profile: profile.copy(),
            bounds,
            supported: false,
            complete: true,
            limits: Vec::new(),
            examined: 0,
            read: 0,
            records: Vec::new(),
            groups: Vec::new(),
            inodes: Vec::new(),
            charged: Vec::new(),
            allocated: 0,
            unique: 0,
        };
        proof {
            let m = WalkModel::begin(profile@, bounds_of(*limits, record_cap));
            assert(r@.limits =~= m.limits);
            assert(r@.records =~= m.records);
            assert(r@.groups =~= m.groups);
            assert(r@.inodes =~= m.inodes);
            assert(r@.charged =~= m.charged);
        }
        r
    }

    fn limit(&mut self, reason: &str)
        requires
            old(self)@.sound(),
        ensures
            final(self)@ == old(self)@.limited(reason@),
            final(self)@.sound(),
    {
        self.complete = false;
        if !holds_text(&self.limits, reason) {
            push_text(&mut self.limits, reason);
        }
        proof {
            assert(self@ == old(self)@.limited(reason@));
            assert(self@.limits.len() > 0);
            assert forall|i: int| 0 <= i < self@.groups.len() implies group_sound(
                #[trigger] self@.groups[i],
                self@.examined,
            ) by {
                assert(group_sound(old(self)@.groups[i], old(self)@.examined));
            }
        }
    }

    /// Whether the budget is used up; if it is, the observation says so.
    fn is_spent(&mut self, pulse: &Pulse) -> (r: bool)
        requires
            old(self)@.sound(),
        ensures
            final(self)@.sound(),
            match old(self)@.spent(*pulse) {
                Some(reason) => r && final(self)@ == old(self)@.limited(reason),
                None => !r && final(self)@ == old(self)@,
            },
    {
        if pulse.cancelled {
            self.limit("inspection cancelled; results are partial");
            return true;
        }
        if self.examined >= self.bounds.entries {
            let n = write_u64(self.bounds.entries as u64);
            let reason = cat3("entry limit reached (", n.as_str(), ")");
            self.limit(reason.as_str());
            return true;
        }
        if pulse.elapsed >= self.bounds.nanos {
            let n = write_u64(self.bounds.nanos / 1_000_000);
            let reason = cat3("time limit reached (", n.as_str(), " ms)");
            self.limit(reason.as_str());
            return true;
        }
        if self.read >= self.bounds.metadata as u64 {
            let n = write_u64(self.bounds.metadata as u64);
            let reason = cat3("fingerprint metadata byte limit reached (", n.as_str(), ")");
            self.limit(reason.as_str());
            return true;
        }
        false
    }

    fn fingerprints_are_spent(&mut self, pulse: &Pulse) -> (r: bool)
        requires
            old(self)@.sound(),
        ensures
            final(self)@.sound(),
            match old(self)@.fingerprints_spent(*pulse) {
                Some(reason) => r && final(self)@ == old(self)@.limited(reason),
                None => !r && final(self)@ == old(self)@,
            },
    {
        if self.examined >= self.bounds.entries / 2 {
            self.limit("fingerprint entry budget reached; remaining budget reserved for deps");
            return true;
        }
        self.is_spent(pulse)
    }

    fn examine(&mut self)
        requires
            old(self)@.sound(),
            old(self)@.examined < old(self)@.bounds.entries,
        ensures
            final(self)@ == old(self)@.examine(),
            final(self)@.sound(),
    {
        self.examined = self.examined + 1;
        assert forall|i: int| 0 <= i < self@.groups.len() implies group_sound(
            #[trigger] self@.groups[i],
            self@.examined,
        ) by {
            assert(group_sound(old(self)@.groups[i], old(self)@.examined));
        }
    }

    /// The selected profile itself; whether there is anything to inspect.
    pub fn profile_seen(&mut self, stat: &Option<FileStat>) -> (r: bool)
        requires
            old(self)@.sound(),
        ensures
            final(self)@ == old(self)@.profile_seen(opt_stat(*stat)),
            final(self)@.sound(),
            r == (opt_stat(*stat) matches Some(m) && m.kind == FileKind::Directory),
    {
        match stat {
            None => {
                self.limit("selected profile is unavailable");
                false
            },
            Some(m) => {
                if m.is_dir() {
                    self.supported = true;
                    true
                } else {
                    self.limit("selected profile is not a directory");
                    false
                }
            },
        }
    }

    fn directory_seen(&mut self, stat: &Option<FileStat>, unreal: &str, missing: &str) -> (r: bool)
        requires
            old(self)@.sound(),
        ensures
            final(self)@ == old(self)@.directory_seen(opt_stat(*stat), unreal@, missing@),
            final(self)@.sound(),
            r == (opt_stat(*stat) matches Some(m) && m.kind == FileKind::Directory),
    {
        match stat {
            Some(m) => {
                if m.is_dir() {
                    true
                } else {
                    self.limit(unreal);
                    false
                }
            },
            None => {
                self.limit(missing);
                false
            },
        }
    }

    /// The profile's fingerprint directory; whether to list it.
    pub fn fingerprints_seen(&mut self, stat: &Option<FileStat>) -> (r: bool)
        requires
            old(self)@.sound(),
        ensures
            final(self)@ == old(self)@.fingerprints_seen(opt_stat(*stat)),
            final(self)@.sound(),
            r == (opt_stat(*stat) matches Some(m) && m.kind == FileKind::Directory),
    {
        self.directory_seen(
            stat,
            "profile .fingerprint is not a real directory; not followed",
            "profile .fingerprint directory unavailable",
        )
    }

    /// The fingerprint directory could not be listed.
    pub fn fingerprints_unlisted(&mut self)
        requires
            old(self)@.sound(),
        ensures
            final(self)@ == old(self)@.fingerprints_unlisted(),
            final(self)@.sound(),
    {
        self.limit("fingerprint metadata unavailable; dependency files remain residual");
    }

    /// The profile's dependency directory; whether to list it.
    pub fn deps_seen(&mut self, stat: &Option<FileStat>) -> (r: bool)
        requires
            old(self)@.sound(),
        ensures
            final(self)@ == old(self)@.deps_seen(opt_stat(*stat)),
            final(self)@.sound(),
            r == (opt_stat(*stat) matches Some(m) && m.kind == FileKind::Directory),
    {
        self.directory_seen(
            stat,
            "profile deps is not a real directory; not followed",
            "profile deps directory unavailable",
        )
    }

    /// The dependency directory was not listed.
    pub fn deps_unlisted(&mut self)
        requires
            old(self)@.sound(),
        ensures
            final(self)@ == old(self)@.deps_unlisted(),
            final(self)@.sound(),
    {
        self.limit("selected profile deps directory is unavailable");
    }

    /// One entry of the fingerprint directory.
    pub fn fingerprint_entry(&mut self, pulse: &Pulse, entry: &Option<SeenEntry>) -> (r: EntryStep)
        requires
            old(self)@.sound(),
        ensures
            (final(self)@, r) == old(self)@.fingerprint_entry(*pulse, opt_seen(*entry)),
            final(self)@.sound(),
    {
        if self.fingerprints_are_spent(pulse) {
            return EntryStep::Stop;
        }
        match entry {
            None => {
                self.limit("fingerprint directory entry could not be read");
                EntryStep::Skip
            },
            Some(e) => {
                self.examine();
                match &e.stat {
                    None => {
                        self.limit("fingerprint entry became unavailable during inspection");
                        EntryStep::Skip
                    },
                    Some(m) => {
                        if m.is_symlink() {
                            self.limit("symlink in fingerprint directory was not followed");
                            EntryStep::Skip
                        } else if m.is_dir() {
                            EntryStep::Open
                        } else {
                            EntryStep::Skip
                        }
                    },
                }
            },
        }
    }

    /// A fingerprint subdirectory could not be listed.
    pub fn fingerprint_unlisted(&mut self)
        requires
            old(self)@.sound(),
        ensures
            final(self)@ == old(self)@.fingerprint_unlisted(),
            final(self)@.sound(),
    {
        self.limit("fingerprint subdirectory could not be listed");
    }

    /// One file of a fingerprint subdirectory.
    pub fn record_entry(&mut self, pulse: &Pulse, entry: &Option<SeenEntry>) -> (r: EntryStep)
        requires
            old(self)@.sound(),
        ensures
            (final(self)@, r) == old(self)@.record_entry(*pulse, opt_seen(*entry)),
            final(self)@.sound(),
            r == EntryStep::Open ==> final(self)@.read < final(self)@.bounds.metadata,
    {
        if self.fingerprints_are_spent(pulse) {
            return EntryStep::Stop;
        }
        match entry {
            None => {
                self.limit("fingerprint file entry could not be read");
                EntryStep::Skip
            },
            Some(e) => {
                self.examine();
                if !ends(e.name.as_str(), ".json") {
                    return EntryStep::Skip;
                }
                match &e.stat {
                    None => EntryStep::Skip,
                    Some(m) => {
                        if m.is_symlink() {
                            self.limit("symlink fingerprint metadata was not followed");
                            EntryStep::Skip
                        } else if !m.is_file() {
                            EntryStep::Skip
                        } else if m.len() > self.bounds.metadata as u64 - self.read || m.len()
                            > self.bounds.record as u64 {
                            self.limit(
                                "fingerprint metadata byte/file-size limit reached; remaining records omitted",
                            );
                            EntryStep::Stop
                        } else {
                            EntryStep::Open
                        }
                    },
                }
            },
        }
    }

    /// The text of a fingerprint record that was to be read.
    pub fn record_text(&mut self, dirname: &str, filename: &str, text: &Option<String>)
        requires
            old(self)@.sound(),
            old(self)@.read < old(self)@.bounds.metadata,
        ensures
            final(self)@ == old(self)@.record_text(dirname@, filename@, crate::text::opt_text(*text)),
            final(self)@.sound(),
    {
        match text {
            Some(t) => {
                let n: usize = text_bytes(t.as_str());
                if n as u64 > self.bounds.record as u64 {
                    return;
                }
                self.read = self.read + n as u64;
                match parse_json(t.as_str()) {
                    Some(v) => {
                        let path = self.profile.join(".fingerprint").join(dirname).join(filename);
                        match read_record(&v, dirname, filename, path) {
                            Some(r) => {
                                let ghost prior = self.records@;
                                self.records.push(r);
                                assert(records_view(self.records@) =~= records_view(prior).push(r@));
                            },
                            None => {},
                        }
                    },
                    None => {},
                }
            },
            None => {},
        }
    }

    fn count(&mut self, name: &str, meta: &FileStat)
        requires
            old(self)@.sound(),
            old(self)@.examined >= 1,
            forall|i: int|
                0 <= i < old(self)@.groups.len() ==> (#[trigger] old(self)@.groups[i]).entries < old(self)@.examined,
        ensures
            final(self)@ == old(self)@.dependency(name@, meta@),
            final(self)@.sound(),
    {
        let ghost before = self@;
        let bytes: u64 = meta.allocated();
        let ghost record = matching(before.records, name@);
        let (place, fresh) = {
            let found = find_matching_record(&self.records, name);
            let place: usize = find_group_of(&self.groups, found);
            if place >= self.groups.len() {
                let g = make_group(&self.profile, found);
                let ghost prior = self.groups@;
                self.groups.push(g);
                assert(groups_view(self.groups@) =~= groups_view(prior).push(g@));
            }
            let fresh = !holds_charge(&self.charged, place, meta.dev(), meta.ino());
            let ghost mid = groups_view(self.groups@);
            let ghost g0 = mid[place as int];
            assert(g0 == self.groups@[place as int]@);
            proof {
                if place < before.groups.len() {
                    assert(mid[place as int] == before.groups[place as int]);
                    assert(group_sound(before.groups[place as int], before.examined));
                } else {
                    assert(g0 == fresh_group(before.profile, record));
                }
            }
            let mut fingerprint_paths: Vec<FsPath> = crate::path::copy_paths(&self.groups[place].fingerprint_paths);
            match found {
                Some(r) => {
                    if !holds_path(&fingerprint_paths, &r.path) {
                        push_path(&mut fingerprint_paths, r.path.copy());
                    }
                },
                None => {},
            }
            let g = &self.groups[place];
            let next = CargoDependencyGroup {
                target: crate::text::copy_opt(&g.target),
                target_kind: crate::text::copy_opt(&g.target_kind),
                package_id: crate::text::copy_opt(&g.package_id),
                variant: g.variant.copy(),
                allocated_bytes: saturate(g.allocated_bytes, bytes),
                unique_allocated_bytes: if fresh {
                    saturate(g.unique_allocated_bytes, bytes)
                } else {
                    g.unique_allocated_bytes
                },
                logical_bytes: saturate(g.logical_bytes, meta.len()),
                entries: g.entries + 1,
                hardlinked_entries: if meta.nlink() > 1 {
                    g.hardlinked_entries + 1
                } else {
                    g.hardlinked_entries
                },
                fingerprint_paths,
                residual_reason: crate::text::copy_opt(&g.residual_reason),
            };
            assert(next@ == WalkModel::counted(g0, meta@, record, fresh));
            let ghost prior = self.groups@;
            self.groups.set(place, next);
            assert(groups_view(self.groups@) =~= mid.update(place as int, next@));
            (place, fresh)
        };
        self.allocated = saturate(self.allocated, bytes);
        if !holds_inode(&self.inodes, meta.dev(), meta.ino()) {
            self.unique = saturate(self.unique, bytes);
            self.inodes.push((meta.dev(), meta.ino()));
        }
        if fresh {
            let ghost prior = self.charged@;
            self.charged.push((place, meta.dev(), meta.ino()));
            assert(charges(self.charged@) =~= charges(prior).push((place as int, meta@.dev, meta@.ino)));
        }
        proof {
            let after = before.dependency(name@, meta@);
            assert(self@.groups =~= after.groups);
            assert(self@ == after);
            assert forall|i: int| 0 <= i < self@.groups.len() implies group_sound(
                #[trigger] self@.groups[i],
                self@.examined,
            ) by {
                if i != place && i < before.groups.len() {
                    assert(group_sound(before.groups[i], before.examined));
                }
            }
        }
    }

    /// One entry of the dependency directory; whether reading goes on.
    pub fn dependency_entry(&mut self, pulse: &Pulse, entry: &Option<SeenEntry>) -> (r: bool)
        requires
            old(self)@.sound(),
        ensures
            (final(self)@, r) == old(self)@.dependency_entry(*pulse, opt_seen(*entry)),
            final(self)@.sound(),
    {
        if self.is_spent(pulse) {
            return false;
        }
        match entry {
            None => {
                self.limit("dependency file entry could not be read");
                true
            },
            Some(e) => {
                let ghost before = self@;
                self.examine();
                match &e.stat {
                    None => {
                        self.limit("dependency entry became unavailable during inspection");
                        true
                    },
                    Some(m) => {
                        if m.is_symlink() {
                            self.limit("symlink in dependency directory was not followed");
                            true
                        } else if !m.is_file() {
                            true
                        } else {
                            proof {
                                assert forall|i: int| 0 <= i < self@.groups.len() implies (
                                #[trigger] self@.groups[i]).entries < self@.examined by {
                                    assert(group_sound(before.groups[i], before.examined));
                                }
                            }
                            self.count(e.name.as_str(), m);
                            true
                        }
                    },
                }
            },
        }
    }
}

// ---------------------------------------------------------------------
// A whole inspection
// ---------------------------------------------------------------------

/// One profile, inspected.
#[derive(Debug, Clone, PartialEq, Eq)]
pub struct CargoProfileInspection {
    pub profile_path: FsPath,
    pub inspected_at: u64,
    pub elapsed_ms: u64,
    pub entries_examined: usize,
    pub groups: Vec<CargoDependencyGroup>,
    /// The allocated bytes of every dependency entry; hard links may be counted
    /// more than once.
    pub allocated_bytes: u64,
    /// The allocated bytes with each inode counted once.
    pub unique_allocated_bytes: u64,
    pub metadata_bytes_read: u64,
    pub coverage: ArtifactCoverage,
    pub accounting_note: String,
}

pub const ACCOUNTING_NOTE: &'static str =
    "This observation is not atomic; concurrent builds may change files. Allocated bytes count each dependency entry; profile unique bytes deduplicate filesystem inode identity. These are storage observations, not reclaimable bytes or proof of final-binary contribution.";

impl ProfileWalk {
    /// The inspection as far as it came.
    pub fn finish(self, inspected_at: u64, elapsed_ms: u64) -> (r: CargoProfileInspection)
        ensures
            reports(r, self@),
            r.inspected_at == inspected_at,
            r.elapsed_ms == elapsed_ms,
    {
        CargoProfileInspection {
            profile_path: self.profile,
            inspected_at,
            elapsed_ms,
            entries_examined: self.examined,
            groups: self.groups,
            allocated_bytes: self.allocated,
            unique_allocated_bytes: self.unique,
            metadata_bytes_read: self.read,
            coverage: ArtifactCoverage { supported: self.supported, complete: self.complete, limits: self.limits },
            accounting_note: ACCOUNTING_NOTE.to_owned(),
        }
    }
}

/// Whether an inspection reports where a walk has come.
pub open spec fn reports(r: CargoProfileInspection, m: WalkModel) -> bool {
    &&& r.profile_path@ == m.profile
    &&& r.entries_examined == m.examined
    &&& groups_view(r.groups@) == m.groups
    &&& r.allocated_bytes == m.allocated
    &&& r.unique_allocated_bytes == m.unique
    &&& r.metadata_bytes_read == m.read
    &&& r.coverage@ == CoverageModel { supported: m.supported, complete: m.complete, limits: m.limits }
    &&& r.accounting_note@ == ACCOUNTING_NOTE@
}

/// A fingerprint file, as it was read.
#[derive(Debug, Clone)]
pub struct SeenRecord {
    pub pulse: Pulse,
    pub entry: Option<SeenEntry>,
    pub text: Option<String>,
}

pub struct RecordSeen {
    pub pulse: Pulse,
    pub entry: Option<SeenModel>,
    pub text: Option<Seq<char>>,
}

impl View for SeenRecord {
    type V = RecordSeen;

    open spec fn view(&self) -> RecordSeen {
        RecordSeen { pulse: self.pulse, entry: opt_seen(self.entry), text: opt_text(self.text) }
    }
}

pub open spec fn seen_records(s: Seq<SeenRecord>) -> Seq<RecordSeen> {
    Seq::new(s.len(), |i: int| s[i]@)
}

/// An entry of the fingerprint directory, and what it lists.
#[derive(Debug, Clone)]
pub struct SeenFingerprint {
    pub pulse: Pulse,
    pub entry: Option<SeenEntry>,
    pub files: Option<Vec<SeenRecord>>,
}

pub struct FingerprintSeen {
    pub pulse: Pulse,
    pub entry: Option<SeenModel>,
    pub files: Option<Seq<RecordSeen>>,
}

impl View for SeenFingerprint {
    type V = FingerprintSeen;

    open spec fn view(&self) -> FingerprintSeen {
        FingerprintSeen {
            pulse: self.pulse,
            entry: opt_seen(self.entry),
            files: match self.files {
                Some(v) => Some(seen_records(v@)),
                None => None,
            },
        }
    }
}

pub open spec fn seen_fingerprints(s: Seq<SeenFingerprint>) -> Seq<FingerprintSeen> {
    Seq::new(s.len(), |i: int| s[i]@)
}

/// An entry of the dependency directory.
#[derive(Debug, Clone)]
pub struct SeenDependency {
    pub pulse: Pulse,
    pub entry: Option<SeenEntry>,
}

pub struct DependencySeen {
    pub pulse: Pulse,
    pub entry: Option<SeenModel>,
}

impl View for SeenDependency {
    type V = DependencySeen;

    open spec fn view(&self) -> DependencySeen {
        DependencySeen { pulse: self.pulse, entry: opt_seen(self.entry) }
    }
}

pub open spec fn seen_dependencies(s: Seq<SeenDependency>) -> Seq<DependencySeen> {
    Seq::new(s.len(), |i: int| s[i]@)
}

/// Everything that was read of a profile, in the order of reading.
#[derive(Debug, Clone)]
pub struct ProfileObservation {
    pub profile: Option<FileStat>,
    pub fingerprints: Option<FileStat>,
    pub fingerprint_dirs: Option<Vec<SeenFingerprint>>,
    pub deps: Option<FileStat>,
    pub dependencies: Option<Vec<SeenDependency>>,
    /// The most bytes one fingerprint record may have.
    pub record_cap: u32,
    pub inspected_at: u64,
    pub elapsed_ms: u64,
}

/// A walk after the first `n` files of a fingerprint subdirectory, and whether
/// it stopped.
pub open spec fn after_records(s: WalkModel, dirname: Seq<char>, files: Seq<RecordSeen>, n: int) -> (WalkModel, bool)
    decreases n,
{
    if n <= 0 {
        (s, false)
    } else {
        let (p, stopped) = after_records(s, dirname, files, n - 1);
        if stopped {
            (p, true)
        } else {
            let f = files[n - 1];
            let (q, step) = p.record_entry(f.pulse, f.entry);
            match step {
                EntryStep::Stop => (q, true),
                EntryStep::Skip => (q, false),
                EntryStep::Open => (q.record_text(dirname, f.entry->0.name, f.text), false),
            }
        }
    }
}

/// A walk after the first `n` entries of the fingerprint directory, and whether
/// it stopped.
pub open spec fn after_fingerprints(s: WalkModel, dirs: Seq<FingerprintSeen>, n: int) -> (WalkModel, bool)
    decreases n,
{
    if n <= 0 {
        (s, false)
    } else {
        let (p, stopped) = after_fingerprints(s, dirs, n - 1);
        if stopped {
            (p, true)
        } else {
            let d = dirs[n - 1];
            let (q, step) = p.fingerprint_entry(d.pulse, d.entry);
            match step {
                EntryStep::Stop => (q, true),
                EntryStep::Skip => (q, false),
                EntryStep::Open => match d.files {
                    Some(files) => after_records(q, d.entry->0.name, files, files.len() as int),
                    None => (q.fingerprint_unlisted(), false),
                },
            }
        }
    }
}

/// A walk after the first `n` entries of the dependency directory, and whether
/// it stopped.
pub open spec fn after_dependencies(s: WalkModel, files: Seq<DependencySeen>, n: int) -> (WalkModel, bool)
    decreases n,
{
    if n <= 0 {
        (s, false)
    } else {
        let (p, stopped) = after_dependencies(s, files, n - 1);
        if stopped {
            (p, true)
        } else {
            let (q, goes_on) = p.dependency_entry(files[n - 1].pulse, files[n - 1].entry);
            (q, !goes_on)
        }
    }
}

pub open spec fn is_directory(stat: Option<StatModel>) -> bool {
    stat matches Some(m) && m.kind == FileKind::Directory
}

/// A walk over everything that was read.
pub open spec fn walked(s: WalkModel, o: ProfileObservation) -> WalkModel {
    let seen = s.profile_seen(opt_stat(o.profile));
    if !is_directory(opt_stat(o.profile)) {
        seen
    } else {
        let before = seen.fingerprints_seen(opt_stat(o.fingerprints));
        let named = if is_directory(opt_stat(o.fingerprints)) {
            match o.fingerprint_dirs {
                Some(dirs) => after_fingerprints(before, seen_fingerprints(dirs@), dirs@.len() as int).0,
                None => before.fingerprints_unlisted(),
            }
        } else {
            before
        };
        let ready = named.deps_seen(opt_stat(o.deps));
        match o.dependencies {
            Some(files) => if is_directory(opt_stat(o.deps)) {
                after_dependencies(ready, seen_dependencies(files@), files@.len() as int).0
            } else {
                ready.deps_unlisted()
            },
            None => ready.deps_unlisted(),
        }
    }
}

fn walk_records(w: &mut ProfileWalk, dirname: &str, files: &Vec<SeenRecord>) -> (stopped: bool)
    requires
        old(w)@.sound(),
    ensures
        (final(w)@, stopped) == after_records(old(w)@, dirname@, seen_records(files@), files@.len() as int),
        final(w)@.sound(),
{
    let ghost all = seen_records(files@);
    let ghost start = w@;
    let mut i: usize = 0;
    while i < files.len()
        invariant
            i <= files@.len(),
            all == seen_records(files@),
            start == old(w)@,
            w@.sound(),
            (w@, false) == after_records(start, dirname@, all, i as int),
        decreases files@.len() - i,
    {
        let f = &files[i];
        assert(all[i as int] == f@);
        let step = w.record_entry(&f.pulse, &f.entry);
        match step {
            EntryStep::Stop => {
                proof {
                    lemma_records_stay(start, dirname@, all, i + 1, files@.len() as int);
                }
                return true;
            },
            EntryStep::Skip => {},
            EntryStep::Open => {
                match &f.entry {
                    Some(e) => {
                        w.record_text(dirname, e.name.as_str(), &f.text);
                    },
                    None => {},
                }
            },
        }
        i += 1;
    }
    false
}

/// Once a walk has stopped, nothing more is read.
proof fn lemma_records_stay(s: WalkModel, dirname: Seq<char>, files: Seq<RecordSeen>, n: int, m: int)
    requires
        0 <= n <= m,
        after_records(s, dirname, files, n).1,
    ensures
        after_records(s, dirname, files, m) == after_records(s, dirname, files, n),
    decreases m - n,
{
    if n < m {
        lemma_records_stay(s, dirname, files, n, m - 1);
    }
}

proof fn lemma_fingerprints_stay(s: WalkModel, dirs: Seq<FingerprintSeen>, n: int, m: int)
    requires
        0 <= n <= m,
        after_fingerprints(s, dirs, n).1,
    ensures
        after_fingerprints(s, dirs, m) == after_fingerprints(s, dirs, n),
    decreases m - n,
{
    if n < m {
        lemma_fingerprints_stay(s, dirs, n, m - 1);
    }
}

proof fn lemma_dependencies_stay(s: WalkModel, files: Seq<DependencySeen>, n: int, m: int)
    requires
        0 <= n <= m,
        after_dependencies(s, files, n).1,
    ensures
        after_dependencies(s, files, m) == after_dependencies(s, files, n),
    decreases m - n,
{
    if n < m {
        lemma_dependencies_stay(s, files, n, m - 1);
    }
}

fn walk_fingerprints(w: &mut ProfileWalk, dirs: &Vec<SeenFingerprint>)
    requires
        old(w)@.sound(),
    ensures
        final(w)@ == after_fingerprints(old(w)@, seen_fingerprints(dirs@), dirs@.len() as int).0,
        final(w)@.sound(),
{
    let ghost all = seen_fingerprints(dirs@);
    let ghost start = w@;
    let mut i: usize = 0;
    while i < dirs.len()
        invariant
            i <= dirs@.len(),
            all == seen_fingerprints(dirs@),
            start == old(w)@,
            w@.sound(),
            (w@, false) == after_fingerprints(start, all, i as int),
        decreases dirs@.len() - i,
    {
        let d = &dirs[i];
        assert(all[i as int] == d@);
        let step = w.fingerprint_entry(&d.pulse, &d.entry);
        let mut stopped = false;
        match step {
            EntryStep::Stop => {
                stopped = true;
            },
            EntryStep::Skip => {},
            EntryStep::Open => {
                match &d.files {
                    Some(files) => {
                        assert(seen_records(files@).len() == files@.len());
                        match &d.entry {
                            Some(e) => {
                                stopped = walk_records(w, e.name.as_str(), files);
                            },
                            None => {},
                        }
                    },
                    None => {
                        w.fingerprint_unlisted();
                    },
                }
            },
        }
        i += 1;
        assert((w@, stopped) == after_fingerprints(start, all, i as int));
        if stopped {
            proof {
                lemma_fingerprints_stay(start, all, i as int, dirs@.len() as int);
            }
            return;
        }
    }
}

fn walk_dependencies(w: &mut ProfileWalk, files: &Vec<SeenDependency>)
    requires
        old(w)@.sound(),
    ensures
        final(w)@ == after_dependencies(old(w)@, seen_dependencies(files@), files@.len() as int).0,
        final(w)@.sound(),
{
    let ghost all = seen_dependencies(files@);
    let ghost start = w@;
    let mut i: usize = 0;
    while i < files.len()
        invariant
            i <= files@.len(),
            all == seen_dependencies(files@),
            start == old(w)@,
            w@.sound(),
            (w@, false) == after_dependencies(start, all, i as int),
        decreases files@.len() - i,
    {
        let f = &files[i];
        assert(all[i as int] == f@);
        let goes_on = w.dependency_entry(&f.pulse, &f.entry);
        i += 1;
        if !goes_on {
            proof {
                lemma_dependencies_stay(start, all, i as int, files@.len() as int);
            }
            return;
        }
    }
}

/// Inspects one already selected Cargo profile from what was read of it. The
/// entries examined stay within the bounds, what is unique is never more than
/// what is allocated, in the whole and in each group, an observation that is
/// not complete says why, and a group without a target says why it has none.
pub fn inspect_profile(
    profile_path: &FsPath,
    limits: &CargoProfileInspectionLimits,
    seen: &ProfileObservation,
) -> (r: CargoProfileInspection)
    ensures
        reports(r, walked(WalkModel::begin(profile_path@, bounds_of(*limits, seen.record_cap)), *seen)),
        r.inspected_at == seen.inspected_at,
        r.elapsed_ms == seen.elapsed_ms,
        r.entries_examined <= bounds_of(*limits, seen.record_cap).entries,
        r.unique_allocated_bytes <= r.allocated_bytes,
        r.coverage.complete <==> r.coverage.limits@.len() == 0,
        forall|i: int|
            0 <= i < r.groups@.len() ==> {
                let g = #[trigger] r.groups@[i];
                &&& g.target is None <==> g.residual_reason is Some
                &&& g.unique_allocated_bytes <= g.allocated_bytes
                &&& g.hardlinked_entries <= g.entries <= r.entries_examined
            },
{
    let mut w = ProfileWalk::new(profile_path, limits, seen.record_cap);
    if w.profile_seen(&seen.profile) {
        if w.fingerprints_seen(&seen.fingerprints) {
            match &seen.fingerprint_dirs {
                Some(dirs) => {
                    walk_fingerprints(&mut w, dirs);
                },
                None => {
                    w.fingerprints_unlisted();
                },
            }
        }
        let safe = w.deps_seen(&seen.deps);
        match &seen.dependencies {
            Some(files) => {
                if safe {
                    walk_dependencies(&mut w, files);
                } else {
                    w.deps_unlisted();
                }
            },
            None => {
                w.deps_unlisted();
            },
        }
    }
    assert(w@.bounds == bounds_of(*limits, seen.record_cap)) by {
        lemma_bounds_stay(WalkModel::begin(profile_path@, bounds_of(*limits, seen.record_cap)), *seen);
    }
    let r = w.finish(seen.inspected_at, seen.elapsed_ms);
    assert(r.coverage@.limits.len() == r.coverage.limits@.len());
    assert forall|i: int| 0 <= i < r.groups@.len() implies group_sound(
        (#[trigger] r.groups@[i])@,
        r.entries_examined as nat,
    ) by {
        assert(groups_view(r.groups@)[i] == r.groups@[i]@);
        assert(group_sound(w@.groups[i], w@.examined));
    }
    r
}

proof fn lemma_records_bounds(s: WalkModel, dirname: Seq<char>, files: Seq<RecordSeen>, n: int)
    ensures
        after_records(s, dirname, files, n).0.bounds == s.bounds,
    decreases n,
{
    if n > 0 {
        lemma_records_bounds(s, dirname, files, n - 1);
    }
}

proof fn lemma_fingerprints_bounds(s: WalkModel, dirs: Seq<FingerprintSeen>, n: int)
    ensures
        after_fingerprints(s, dirs, n).0.bounds == s.bounds,
    decreases n,
{
    if n > 0 {
        lemma_fingerprints_bounds(s, dirs, n - 1);
        let (p, _) = after_fingerprints(s, dirs, n - 1);
        let d = dirs[n - 1];
        let (q, _) = p.fingerprint_entry(d.pulse, d.entry);
        match d.files {
            Some(files) => {
                lemma_records_bounds(q, d.entry->0.name, files, files.len() as int);
            },
            None => {},
        }
    }
}

proof fn lemma_dependencies_bounds(s: WalkModel, files: Seq<DependencySeen>, n: int)
    ensures
        after_dependencies(s, files, n).0.bounds == s.bounds,
    decreases n,
{
    if n > 0 {
        lemma_dependencies_bounds(s, files, n - 1);
    }
}

/// A walk keeps its bounds.
proof fn lemma_bounds_stay(s: WalkModel, o: ProfileObservation)
    ensures
        walked(s, o).bounds == s.bounds,
{
    let before = s.profile_seen(opt_stat(o.profile)).fingerprints_seen(opt_stat(o.fingerprints));
    match o.fingerprint_dirs {
        Some(dirs) => {
            lemma_fingerprints_bounds(before, seen_fingerprints(dirs@), dirs@.len() as int);
        },
        None => {},
    }
    let named = if is_directory(opt_stat(o.fingerprints)) {
        match o.fingerprint_dirs {
            Some(dirs) => after_fingerprints(before, seen_fingerprints(dirs@), dirs@.len() as int).0,
            None => before.fingerprints_unlisted(),
        }
    } else {
        before
    };
    let ready = named.deps_seen(opt_stat(o.deps));
    match o.dependencies {
        Some(files) => {
            lemma_dependencies_bounds(ready, seen_dependencies(files@), files@.len() as int);
        },
        None => {},
    }
}

// ---------------------------------------------------------------------
// Laws
// ---------------------------------------------------------------------

/// A second link to an inode that was already counted adds its bytes to what is
/// allocated and nothing to what is unique.
pub proof fn law_hard_links_are_unique_once(s: WalkModel, name: Seq<char>, meta: StatModel)
    requires
        s.inodes.contains((meta.dev, meta.ino)),
    ensures
        s.dependency(name, meta).unique == s.unique,
        s.dependency(name, meta).allocated == saturating(s.allocated, meta.allocated() as u64),
{
}

/// A file that no unique fingerprint matches is counted in a residual group,
/// which names no target and no package.
pub proof fn law_unmatched_files_are_residual(s: WalkModel, name: Seq<char>, meta: StatModel)
    requires
        matching(s.records, name) is None,
    ensures
        ({
            let place = group_from(s.groups, None, 0);
            let after = s.dependency(name, meta);
            0 <= place < after.groups.len() && after.groups[place].residual_reason is Some
        }),
{
    lemma_group_place(s.groups, None, 0);
}

proof fn lemma_group_place(groups: Seq<GroupModel>, m: Option<RecordModel>, i: int)
    requires
        0 <= i <= groups.len(),
    ensures
        i <= group_from(groups, m, i) <= groups.len(),
        group_from(groups, m, i) < groups.len() ==> super::profile::is_group_of(groups[group_from(groups, m, i)], m),
    decreases groups.len() - i,
{
    if i < groups.len() && !super::profile::is_group_of(groups[i], m) {
        lemma_group_place(groups, m, i + 1);
    }
}

/// After a cancellation nothing more is counted.
pub proof fn law_cancelled_inspections_count_nothing(s: WalkModel, pulse: Pulse, entry: Option<SeenModel>)
    requires
        pulse.cancelled,
    ensures
        !s.dependency_entry(pulse, entry).1,
        s.dependency_entry(pulse, entry).0.allocated == s.allocated,
        s.dependency_entry(pulse, entry).0.groups == s.groups,
        !s.dependency_entry(pulse, entry).0.complete,
{
}

proof fn lemma_records_leave_room(s: WalkModel, dirname: Seq<char>, files: Seq<RecordSeen>, n: int)
    requires
        s.examined <= s.bounds.entries / 2,
    ensures
        after_records(s, dirname, files, n).0.examined <= s.bounds.entries / 2,
    decreases n,
{
    if n > 0 {
        lemma_records_leave_room(s, dirname, files, n - 1);
        lemma_records_bounds(s, dirname, files, n - 1);
    }
}

/// However many fingerprints there are, half of the entries that may be examined
/// are left for dependency files.
pub proof fn law_room_is_left_for_dependencies(s: WalkModel, dirs: Seq<FingerprintSeen>, n: int)
    requires
        s.examined <= s.bounds.entries / 2,
    ensures
        after_fingerprints(s, dirs, n).0.examined <= s.bounds.entries / 2,
    decreases n,
{
    if n > 0 {
        law_room_is_left_for_dependencies(s, dirs, n - 1);
        lemma_fingerprints_bounds(s, dirs, n - 1);
        let (p, _) = after_fingerprints(s, dirs, n - 1);
        let d = dirs[n - 1];
        let (q, _) = p.fingerprint_entry(d.pulse, d.entry);
        if q.examined <= q.bounds.entries / 2 {
            match d.files {
                Some(files) => {
                    lemma_records_leave_room(q, d.entry->0.name, files, files.len() as int);
                },
                None => {},
            }
        }
    }
}

/// What the first `n` groups hold together.
pub open spec fn groups_hold(groups: Seq<GroupModel>, n: int) -> nat
    decreases n,
{
    if n <= 0 {
        0
    } else {
        groups_hold(groups, n - 1) + groups[n - 1].allocated_bytes as nat
    }
}

proof fn lemma_hold_update(groups: Seq<GroupModel>, p: int, g: GroupModel, n: int)
    requires
        0 <= p < groups.len(),
        n <= groups.len(),
    ensures
        groups_hold(groups.update(p, g), n) == groups_hold(groups, n) + (if p < n {
            g.allocated_bytes - groups[p].allocated_bytes
        } else {
            0
        }),
        p < n ==> groups[p].allocated_bytes <= groups_hold(groups, n),
    decreases n,
{
    if n > 0 {
        lemma_hold_update(groups, p, g, n - 1);
    }
}

proof fn lemma_hold_front(groups: Seq<GroupModel>, g: GroupModel, n: int)
    requires
        n <= groups.len(),
    ensures
        groups_hold(groups.push(g), n) == groups_hold(groups, n),
    decreases n,
{
    if n > 0 {
        lemma_hold_front(groups, g, n - 1);
    }
}

/// Unless the profile's count is full, its groups hold together what is
/// allocated to it: no dependency file is left out of every group, and none is
/// in two.
pub proof fn law_groups_add_up_to_the_profile(s: WalkModel, files: Seq<DependencySeen>, n: int)
    requires
        s.allocated < u64::MAX ==> groups_hold(s.groups, s.groups.len() as int) == s.allocated,
        0 <= n <= files.len(),
    ensures
        ({
            let r = after_dependencies(s, files, n).0;
            r.allocated < u64::MAX ==> groups_hold(r.groups, r.groups.len() as int) == r.allocated
        }),
    decreases n,
{
    if n > 0 {
        law_groups_add_up_to_the_profile(s, files, n - 1);
        let (p, stopped) = after_dependencies(s, files, n - 1);
        let e = files[n - 1].entry;
        if !stopped && p.spent(files[n - 1].pulse) is None {
            if let Some(seen) = e {
                if let Some(meta) = seen.stat {
                    lemma_one_more(p.examine(), seen.name, meta);
                }
            }
        }
    }
}

proof fn lemma_one_more(s: WalkModel, name: Seq<char>, meta: StatModel)
    requires
        s.allocated < u64::MAX ==> groups_hold(s.groups, s.groups.len() as int) == s.allocated,
    ensures
        ({
            let r = s.dependency(name, meta);
            r.allocated < u64::MAX ==> groups_hold(r.groups, r.groups.len() as int) == r.allocated
        }),
{
    let record = matching(s.records, name);
    let place = group_from(s.groups, record, 0);
    lemma_group_place(s.groups, record, 0);
    let fresh = fresh_group(s.profile, record);
    let groups = if place < s.groups.len() {
        s.groups
    } else {
        s.groups.push(fresh)
    };
    if place >= s.groups.len() {
        lemma_hold_front(s.groups, fresh, s.groups.len() as int);
        assert(groups[s.groups.len() as int] == fresh);
    }
    let r = s.dependency(name, meta);
    lemma_hold_update(groups, place, r.groups[place], groups.len() as int);
}

} // verus!
