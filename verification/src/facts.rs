//! What a pass has read of the file system: one record per path it looked at.
//!
//! Identification never reads anything itself. It asks these records, and a
//! path without a record is one nothing is known of.

use crate::path::{same_path, FsPath, PathModel};
use crate::text::{opt_text, same, texts};
use vstd::prelude::*;

verus! {

/// What a path itself is, links not followed.
#[derive(Debug, Clone, Copy, PartialEq, Eq, Structural)]
pub enum FileKind {
    File,
    Directory,
    Symlink,
    Other,
}

/// One path's own metadata, links not followed. Its allocated blocks come to
/// a number of bytes that fits.
#[derive(Debug, Clone, Copy, PartialEq, Eq)]
pub struct FileStat {
    kind: FileKind,
    /// Allocated 512-byte blocks.
    blocks: u64,
    len: u64,
    mtime: i64,
    dev: u64,
    ino: u64,
    nlink: u64,
}

pub struct StatModel {
    pub kind: FileKind,
    pub blocks: u64,
    pub len: u64,
    pub mtime: i64,
    pub dev: u64,
    pub ino: u64,
    pub nlink: u64,
}

impl View for FileStat {
    type V = StatModel;

    closed spec fn view(&self) -> StatModel {
        StatModel {
            kind: self.kind,
            blocks: self.blocks,
            len: self.len,
            mtime: self.mtime,
            dev: self.dev,
            ino: self.ino,
            nlink: self.nlink,
        }
    }
}

impl StatModel {
    /// The bytes of the allocated blocks.
    pub open spec fn allocated(self) -> int {
        self.blocks * 512
    }

    /// The modification time in seconds, at the epoch when it is before it.
    pub open spec fn modified(self) -> u64 {
        if self.mtime > 0 {
            self.mtime as u64
        } else {
            0
        }
    }

    pub open spec fn is_file(self) -> bool {
        self.kind == FileKind::File
    }

    pub open spec fn is_dir(self) -> bool {
        self.kind == FileKind::Directory
    }
}

impl FileStat {
    #[verifier::type_invariant]
    spec fn fits(self) -> bool {
        self.blocks * 512 <= u64::MAX
    }

    pub fn new(kind: FileKind, blocks: u64, len: u64, mtime: i64, dev: u64, ino: u64, nlink: u64) -> (r: FileStat)
        requires
            blocks * 512 <= u64::MAX,
        ensures
            r@ == (StatModel { kind, blocks, len, mtime, dev, ino, nlink }),
    {
        FileStat { kind, blocks, len, mtime, dev, ino, nlink }
    }

    pub fn allocated(&self) -> (r: u64)
        ensures
            r == self@.allocated(),
    {
        proof {
            use_type_invariant(self);
        }
        self.blocks * 512
    }

    pub fn modified(&self) -> (r: u64)
        ensures
            r == self@.modified(),
    {
        if self.mtime > 0 {
            self.mtime as u64
        } else {
            0
        }
    }

    pub fn is_file(&self) -> (r: bool)
        ensures
            r == self@.is_file(),
    {
        matches!(self.kind, FileKind::File)
    }

    pub fn is_dir(&self) -> (r: bool)
        ensures
            r == self@.is_dir(),
    {
        matches!(self.kind, FileKind::Directory)
    }

    pub fn is_symlink(&self) -> (r: bool)
        ensures
            r == (self@.kind == FileKind::Symlink),
    {
        matches!(self.kind, FileKind::Symlink)
    }

    pub fn len(&self) -> (r: u64)
        ensures
            r == self@.len,
    {
        self.len
    }

    pub fn dev(&self) -> (r: u64)
        ensures
            r == self@.dev,
    {
        self.dev
    }

    pub fn ino(&self) -> (r: u64)
        ensures
            r == self@.ino,
    {
        self.ino
    }

    pub fn nlink(&self) -> (r: u64)
        ensures
            r == self@.nlink,
    {
        self.nlink
    }
}

pub open spec fn opt_stat(o: Option<FileStat>) -> Option<StatModel> {
    match o {
        Some(m) => Some(m@),
        None => None,
    }
}

/// One entry of a single-level listing.
#[derive(Debug, Clone, PartialEq, Eq)]
pub struct ShallowEntry {
    pub name: String,
    pub is_dir: bool,
}

pub struct EntryModel {
    pub name: Seq<char>,
    pub is_dir: bool,
}

impl View for ShallowEntry {
    type V = EntryModel;

    open spec fn view(&self) -> EntryModel {
        EntryModel { name: self.name@, is_dir: self.is_dir }
    }
}

pub open spec fn entries_view(s: Seq<ShallowEntry>) -> Seq<EntryModel> {
    Seq::new(s.len(), |i: int| s[i]@)
}

pub fn copy_entries(v: &Vec<ShallowEntry>) -> (r: Vec<ShallowEntry>)
    ensures
        entries_view(r@) == entries_view(v@),
{
    let mut out: Vec<ShallowEntry> = Vec::new();
    let mut i: usize = 0;
    while i < v.len()
        invariant
            i <= v@.len(),
            out@.len() == i,
            forall|k: int| 0 <= k < i ==> #[trigger] out@[k]@ == v@[k]@,
        decreases v@.len() - i,
    {
        out.push(ShallowEntry { name: v[i].name.clone(), is_dir: v[i].is_dir });
        i += 1;
    }
    assert(entries_view(out@) =~= entries_view(v@));
    out
}

/// How a listing ended.
#[derive(Debug, Clone, Copy, PartialEq, Eq, Structural)]
pub enum Truncation {
    /// Every entry is there.
    Complete,
    /// The listing stopped at its cap.
    Capped,
    /// The directory could not be read.
    Unreadable,
}

/// One scalar of a property list, by the keys that lead to it.
#[derive(Debug, Clone, PartialEq, Eq)]
pub struct PlistScalar {
    pub keys: Vec<String>,
    pub value: String,
}

pub struct ScalarModel {
    pub keys: Seq<Seq<char>>,
    pub value: Seq<char>,
}

impl View for PlistScalar {
    type V = ScalarModel;

    open spec fn view(&self) -> ScalarModel {
        ScalarModel { keys: texts(self.keys@), value: self.value@ }
    }
}

/// A named file read up to a fixed cap.
#[derive(Debug, Clone, PartialEq, Eq)]
pub struct Manifest {
    pub text: String,
    /// Whether the file went on past the cap.
    pub truncated: bool,
    /// The scalars of the file when it is a property list.
    pub scalars: Vec<PlistScalar>,
}

pub struct ManifestModel {
    pub text: Seq<char>,
    pub truncated: bool,
    pub scalars: Seq<ScalarModel>,
}

impl View for Manifest {
    type V = ManifestModel;

    open spec fn view(&self) -> ManifestModel {
        ManifestModel {
            text: self.text@,
            truncated: self.truncated,
            scalars: Seq::new(self.scalars@.len(), |i: int| self.scalars@[i]@),
        }
    }
}

pub open spec fn opt_manifest(o: Option<Manifest>) -> Option<ManifestModel> {
    match o {
        Some(m) => Some(m@),
        None => None,
    }
}

pub open spec fn opt_manifest_ref(o: Option<&Manifest>) -> Option<ManifestModel> {
    match o {
        Some(m) => Some(m@),
        None => None,
    }
}

/// The value of the first scalar with exactly these keys, from place `i` on.
pub open spec fn scalar_from(s: Seq<ScalarModel>, keys: Seq<Seq<char>>, i: int) -> Option<Seq<char>>
    decreases s.len() - i,
{
    if i < 0 || i >= s.len() {
        None
    } else if s[i].keys == keys {
        Some(s[i].value)
    } else {
        scalar_from(s, keys, i + 1)
    }
}

impl ManifestModel {
    pub open spec fn scalar(self, keys: Seq<Seq<char>>) -> Option<Seq<char>> {
        scalar_from(self.scalars, keys, 0)
    }
}

impl Manifest {
    /// The property-list scalar that `keys` lead to.
    pub fn scalar(&self, keys: &Vec<String>) -> (r: Option<String>)
        ensures
            opt_text(r) == self@.scalar(texts(keys@)),
    {
        let mut i: usize = 0;
        while i < self.scalars.len()
            invariant
                i <= self.scalars@.len(),
                self@.scalar(texts(keys@)) == scalar_from(self@.scalars, texts(keys@), i as int),
            decreases self.scalars@.len() - i,
        {
            let s = &self.scalars[i];
            assert(self@.scalars[i as int] == s@);
            if same_texts(&s.keys, keys) {
                return Some(s.value.clone());
            }
            i += 1;
        }
        None
    }

    /// The property-list scalar under one top-level key.
    pub fn top_scalar(&self, key: &str) -> (r: Option<String>)
        ensures
            opt_text(r) == self@.scalar(seq![key@]),
    {
        let mut keys: Vec<String> = Vec::new();
        crate::text::push_text(&mut keys, key);
        assert(texts(keys@) =~= seq![key@]);
        self.scalar(&keys)
    }

    /// The property-list scalar under two nested keys.
    pub fn nested_scalar(&self, outer: &str, inner: &str) -> (r: Option<String>)
        ensures
            opt_text(r) == self@.scalar(seq![outer@, inner@]),
    {
        let mut keys: Vec<String> = Vec::new();
        crate::text::push_text(&mut keys, outer);
        crate::text::push_text(&mut keys, inner);
        assert(texts(keys@) =~= seq![outer@, inner@]);
        self.scalar(&keys)
    }
}

fn same_texts(a: &Vec<String>, b: &Vec<String>) -> (r: bool)
    ensures
        r == (texts(a@) == texts(b@)),
{
    if a.len() != b.len() {
        assert(texts(a@).len() != texts(b@).len());
        return false;
    }
    let mut i: usize = 0;
    while i < a.len()
        invariant
            i <= a@.len(),
            a@.len() == b@.len(),
            forall|k: int| 0 <= k < i ==> texts(a@)[k] == texts(b@)[k],
        decreases a@.len() - i,
    {
        if !same(a[i].as_str(), b[i].as_str()) {
            assert(texts(a@)[i as int] != texts(b@)[i as int]);
            return false;
        }
        i += 1;
    }
    assert(texts(a@) =~= texts(b@));
    true
}

/// Everything read of one path.
#[derive(Debug, Clone, PartialEq, Eq)]
pub struct FileFact {
    pub path: FsPath,
    /// The path's own metadata, when it exists and could be read.
    pub stat: Option<FileStat>,
    /// Whether the path leads to a file, links followed.
    pub is_file: bool,
    /// Whether the path leads to a directory, links followed.
    pub is_dir: bool,
    pub listing: Vec<ShallowEntry>,
    pub listed: Truncation,
    pub manifest: Option<Manifest>,
}

pub struct FactModel {
    pub path: PathModel,
    pub stat: Option<StatModel>,
    pub is_file: bool,
    pub is_dir: bool,
    pub listing: Seq<EntryModel>,
    pub listed: Truncation,
    pub manifest: Option<ManifestModel>,
}

impl View for FileFact {
    type V = FactModel;

    open spec fn view(&self) -> FactModel {
        FactModel {
            path: self.path@,
            stat: opt_stat(self.stat),
            is_file: self.is_file,
            is_dir: self.is_dir,
            listing: entries_view(self.listing@),
            listed: self.listed,
            manifest: opt_manifest(self.manifest),
        }
    }
}

/// The record of one path, from place `i` on.
pub open spec fn fact_from(facts: Seq<FactModel>, path: PathModel, i: int) -> Option<FactModel>
    decreases facts.len() - i,
{
    if i < 0 || i >= facts.len() {
        None
    } else if same_path(facts[i].path, path) {
        Some(facts[i])
    } else {
        fact_from(facts, path, i + 1)
    }
}

/// What is known of a path.
pub open spec fn fact_of(facts: Seq<FactModel>, path: PathModel) -> Option<FactModel> {
    fact_from(facts, path, 0)
}

pub open spec fn stat_of(facts: Seq<FactModel>, path: PathModel) -> Option<StatModel> {
    match fact_of(facts, path) {
        Some(f) => f.stat,
        None => None,
    }
}

pub open spec fn is_file_at(facts: Seq<FactModel>, path: PathModel) -> bool {
    fact_of(facts, path) matches Some(f) && f.is_file
}

pub open spec fn is_dir_at(facts: Seq<FactModel>, path: PathModel) -> bool {
    fact_of(facts, path) matches Some(f) && f.is_dir
}

pub open spec fn listing_of(facts: Seq<FactModel>, path: PathModel) -> Seq<EntryModel> {
    match fact_of(facts, path) {
        Some(f) => f.listing,
        None => Seq::empty(),
    }
}

pub open spec fn listed_of(facts: Seq<FactModel>, path: PathModel) -> Truncation {
    match fact_of(facts, path) {
        Some(f) => f.listed,
        None => Truncation::Unreadable,
    }
}

pub open spec fn manifest_of(facts: Seq<FactModel>, path: PathModel) -> Option<ManifestModel> {
    match fact_of(facts, path) {
        Some(f) => f.manifest,
        None => None,
    }
}

/// A manifest read to its end.
pub open spec fn whole_manifest_of(facts: Seq<FactModel>, path: PathModel) -> Option<ManifestModel> {
    match manifest_of(facts, path) {
        Some(m) => if m.truncated {
            None
        } else {
            Some(m)
        },
        None => None,
    }
}

/// What a pass has read.
#[derive(Debug, Clone, PartialEq, Eq)]
pub struct FileFacts {
    pub facts: Vec<FileFact>,
}

impl View for FileFacts {
    type V = Seq<FactModel>;

    open spec fn view(&self) -> Seq<FactModel> {
        Seq::new(self.facts@.len(), |i: int| self.facts@[i]@)
    }
}

impl FileFacts {
    /// A pass that has read nothing.
    pub fn none() -> (r: FileFacts)
        ensures
            r@ == Seq::<FactModel>::empty(),
    {
        let r = FileFacts { facts: Vec::new() };
        assert(r@ =~= Seq::<FactModel>::empty());
        r
    }

    fn find(&self, path: &FsPath) -> (r: Option<&FileFact>)
        ensures
            r is None <==> fact_of(self@, path@) is None,
            r is Some ==> fact_of(self@, path@) == Some(r->0@),
    {
        let mut i: usize = 0;
        while i < self.facts.len()
            invariant
                i <= self.facts@.len(),
                fact_of(self@, path@) == fact_from(self@, path@, i as int),
            decreases self.facts@.len() - i,
        {
            let f = &self.facts[i];
            assert(self@[i as int] == f@);
            if f.path.same(path) {
                return Some(f);
            }
            i += 1;
        }
        None
    }

    pub fn stat(&self, path: &FsPath) -> (r: Option<FileStat>)
        ensures
            opt_stat(r) == stat_of(self@, path@),
    {
        match self.find(path) {
            Some(f) => f.stat,
            None => None,
        }
    }

    pub fn is_file(&self, path: &FsPath) -> (r: bool)
        ensures
            r == is_file_at(self@, path@),
    {
        match self.find(path) {
            Some(f) => f.is_file,
            None => false,
        }
    }

    pub fn is_dir(&self, path: &FsPath) -> (r: bool)
        ensures
            r == is_dir_at(self@, path@),
    {
        match self.find(path) {
            Some(f) => f.is_dir,
            None => false,
        }
    }

    pub fn list(&self, path: &FsPath) -> (r: Vec<ShallowEntry>)
        ensures
            entries_view(r@) == listing_of(self@, path@),
    {
        match self.find(path) {
            Some(f) => copy_entries(&f.listing),
            None => {
                let v: Vec<ShallowEntry> = Vec::new();
                assert(entries_view(v@) =~= Seq::<EntryModel>::empty());
                v
            },
        }
    }

    pub fn listed(&self, path: &FsPath) -> (r: Truncation)
        ensures
            r == listed_of(self@, path@),
    {
        match self.find(path) {
            Some(f) => f.listed,
            None => Truncation::Unreadable,
        }
    }

    pub fn manifest(&self, path: &FsPath) -> (r: Option<&Manifest>)
        ensures
            opt_manifest_ref(r) == manifest_of(self@, path@),
    {
        match self.find(path) {
            Some(f) => match &f.manifest {
                Some(m) => Some(m),
                None => None,
            },
            None => None,
        }
    }

    pub fn whole_manifest(&self, path: &FsPath) -> (r: Option<&Manifest>)
        ensures
            opt_manifest_ref(r) == whole_manifest_of(self@, path@),
    {
        match self.manifest(path) {
            Some(m) => if m.truncated {
                None
            } else {
                Some(m)
            },
            None => None,
        }
    }
}

/// Paths and what they resolve to.
#[derive(Debug, Clone, PartialEq, Eq)]
pub struct CanonicalPaths {
    pub pairs: Vec<(FsPath, FsPath)>,
}

impl View for CanonicalPaths {
    type V = Seq<(PathModel, PathModel)>;

    open spec fn view(&self) -> Seq<(PathModel, PathModel)> {
        Seq::new(self.pairs@.len(), |i: int| (self.pairs@[i].0@, self.pairs@[i].1@))
    }
}

/// What a path resolves to, from place `i` of the list on; itself where nothing
/// says otherwise.
pub open spec fn resolved_from(pairs: Seq<(PathModel, PathModel)>, path: PathModel, i: int) -> PathModel
    decreases pairs.len() - i,
{
    if i < 0 || i >= pairs.len() {
        path
    } else if same_path(pairs[i].0, path) {
        pairs[i].1
    } else {
        resolved_from(pairs, path, i + 1)
    }
}

pub open spec fn resolved(pairs: Seq<(PathModel, PathModel)>, path: PathModel) -> PathModel {
    resolved_from(pairs, path, 0)
}

impl CanonicalPaths {
    pub fn of(&self, path: &FsPath) -> (r: FsPath)
        ensures
            r@ == resolved(self@, path@),
    {
        let mut i: usize = 0;
        while i < self.pairs.len()
            invariant
                i <= self.pairs@.len(),
                resolved(self@, path@) == resolved_from(self@, path@, i as int),
            decreases self.pairs@.len() - i,
        {
            assert(self@[i as int] == (self.pairs@[i as int].0@, self.pairs@[i as int].1@));
            if self.pairs[i].0.same(path) {
                return self.pairs[i].1.copy();
            }
            i += 1;
        }
        path.copy()
    }
}

/// A manifest that was cut off says nothing: what is read of it is what is read
/// of no manifest.
pub proof fn law_a_cut_manifest_says_nothing(facts: Seq<FactModel>, path: PathModel)
    requires
        manifest_of(facts, path) matches Some(m) && m.truncated,
    ensures
        whole_manifest_of(facts, path) is None,
{
}

} // verus!
