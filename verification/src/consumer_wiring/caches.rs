//! What was read of a worktree's declarations and lockfiles, kept for as long as
//! none of those files changes.

use crate::build_stores::rows::rows_view;
use crate::build_stores::tables::{cached_view, CachedModel, CachedRows};
use crate::detectors::strs;
use crate::number::{decimal, write_u64};
use crate::order::at_places;
use crate::path::{joined_path, law_path_texts_read_back, path_of, path_text, same_path, FsPath, PathModel};
use crate::text::{
    all_codes, cat2, cat3, cut_first, free_of, join_texts, joined, lemma_cut_first, opt_text, push_text, same,
    split_first, text_from_char, text_places, texts,
};
use vstd::prelude::*;

verus! {

// ---------------------------------------------------------------------
// Fingerprints
// ---------------------------------------------------------------------

/// The files versions are declared in.
pub open spec fn declaration_filenames() -> Seq<Seq<char>> {
    seq![
        ".tool-versions"@,
        ".mise.toml"@,
        "mise.toml"@,
        ".python-version"@,
        ".ruby-version"@,
        ".nvmrc"@,
        ".node-version"@,
        "rust-toolchain"@,
        "rust-toolchain.toml"@,
    ]
}

pub fn declaration_files() -> (r: Vec<&'static str>)
    ensures
        strs(r@) == declaration_filenames(),
{
    let r: Vec<&'static str> = vec![
        ".tool-versions",
        ".mise.toml",
        "mise.toml",
        ".python-version",
        ".ruby-version",
        ".nvmrc",
        ".node-version",
        "rust-toolchain",
        "rust-toolchain.toml",
    ];
    assert(strs(r@) =~= declaration_filenames());
    r
}

/// The files dependencies are locked in.
pub open spec fn lockfile_filenames() -> Seq<Seq<char>> {
    seq![
        "Cargo.lock"@,
        "package-lock.json"@,
        "pnpm-lock.yaml"@,
        "go.sum"@,
        "gradle.lockfile"@,
        "pom.xml"@,
    ]
}

pub fn lockfiles() -> (r: Vec<&'static str>)
    ensures
        strs(r@) == lockfile_filenames(),
{
    let r: Vec<&'static str> = vec![
        "Cargo.lock",
        "package-lock.json",
        "pnpm-lock.yaml",
        "go.sum",
        "gradle.lockfile",
        "pom.xml",
    ];
    assert(strs(r@) =~= lockfile_filenames());
    r
}

/// The modification times of the files that are there, links followed.
#[derive(Debug, Clone, PartialEq, Eq)]
pub struct FileTimes {
    pub pairs: Vec<(FsPath, i64)>,
}

impl View for FileTimes {
    type V = Seq<(PathModel, i64)>;

    open spec fn view(&self) -> Seq<(PathModel, i64)> {
        Seq::new(self.pairs@.len(), |i: int| (self.pairs@[i].0@, self.pairs@[i].1))
    }
}

pub open spec fn time_from(pairs: Seq<(PathModel, i64)>, path: PathModel, i: int) -> Option<i64>
    decreases pairs.len() - i,
{
    if i < 0 || i >= pairs.len() {
        None
    } else if same_path(pairs[i].0, path) {
        Some(pairs[i].1)
    } else {
        time_from(pairs, path, i + 1)
    }
}

impl FileTimes {
    pub fn of(&self, path: &FsPath) -> (r: Option<i64>)
        ensures
            r == time_from(self@, path@, 0),
    {
        let mut i: usize = 0;
        while i < self.pairs.len()
            invariant
                i <= self.pairs@.len(),
                time_from(self@, path@, 0) == time_from(self@, path@, i as int),
            decreases self.pairs@.len() - i,
        {
            assert(self@[i as int] == (self.pairs@[i as int].0@, self.pairs@[i as int].1));
            if self.pairs[i].0.same(path) {
                return Some(self.pairs[i].1);
            }
            i += 1;
        }
        None
    }
}

/// The texts of the files that could be read, by name.
pub open spec fn text_named(files: Seq<(Seq<char>, Seq<char>)>, name: Seq<char>, i: int) -> Option<Seq<char>>
    decreases files.len() - i,
{
    if i < 0 || i >= files.len() {
        None
    } else if files[i].0 == name {
        Some(files[i].1)
    } else {
        text_named(files, name, i + 1)
    }
}

pub open spec fn files_view(s: Seq<(String, String)>) -> Seq<(Seq<char>, Seq<char>)> {
    Seq::new(s.len(), |i: int| (s[i].0@, s[i].1@))
}

/// The texts versions are declared in, each where its format is read.
#[derive(Debug, Clone, PartialEq, Eq)]
pub struct ProjectDeclarationSources {
    pub tool_versions: Option<String>,
    pub mise_toml: Option<String>,
    pub python_version: Option<String>,
    pub ruby_version: Option<String>,
    pub nvmrc: Option<String>,
    pub node_version: Option<String>,
    pub rust_toolchain: Option<String>,
    pub rust_toolchain_toml: Option<String>,
    pub java_version: Option<String>,
}

fn find_text(files: &Vec<(String, String)>, name: &str) -> (r: Option<String>)
    ensures
        opt_text(r) == text_named(files_view(files@), name@, 0),
{
    let ghost all = files_view(files@);
    let mut i: usize = 0;
    while i < files.len()
        invariant
            i <= files@.len(),
            all == files_view(files@),
            text_named(all, name@, 0) == text_named(all, name@, i as int),
        decreases files@.len() - i,
    {
        assert(all[i as int] == (files@[i as int].0@, files@[i as int].1@));
        if same(files[i].0.as_str(), name) {
            return Some(files[i].1.as_str().to_owned());
        }
        i += 1;
    }
    None
}

/// The declaration texts among the files of a worktree. Of the two names
/// mise's file may have, the hidden one decides; no file declares a Java version
/// here.
pub fn declaration_sources(files: &Vec<(String, String)>) -> (r: ProjectDeclarationSources)
    ensures
        opt_text(r.tool_versions) == text_named(files_view(files@), ".tool-versions"@, 0),
        opt_text(r.mise_toml) == (match text_named(files_view(files@), ".mise.toml"@, 0) {
            Some(t) => Some(t),
            None => text_named(files_view(files@), "mise.toml"@, 0),
        }),
        opt_text(r.python_version) == text_named(files_view(files@), ".python-version"@, 0),
        opt_text(r.ruby_version) == text_named(files_view(files@), ".ruby-version"@, 0),
        opt_text(r.nvmrc) == text_named(files_view(files@), ".nvmrc"@, 0),
        opt_text(r.node_version) == text_named(files_view(files@), ".node-version"@, 0),
        opt_text(r.rust_toolchain) == text_named(files_view(files@), "rust-toolchain"@, 0),
        opt_text(r.rust_toolchain_toml) == text_named(files_view(files@), "rust-toolchain.toml"@, 0),
        r.java_version is None,
{
    ProjectDeclarationSources {
        tool_versions: find_text(files, ".tool-versions"),
        mise_toml: match find_text(files, ".mise.toml") {
            Some(t) => Some(t),
            None => find_text(files, "mise.toml"),
        },
        python_version: find_text(files, ".python-version"),
        ruby_version: find_text(files, ".ruby-version"),
        nvmrc: find_text(files, ".nvmrc"),
        node_version: find_text(files, ".node-version"),
        rust_toolchain: find_text(files, "rust-toolchain"),
        rust_toolchain_toml: find_text(files, "rust-toolchain.toml"),
        java_version: None,
    }
}

pub open spec fn in_seconds(t: i64) -> u64 {
    if t > 0 {
        t as u64
    } else {
        0
    }
}

/// The files among the first `n` names that are there, each with its time.
pub open spec fn stamps_upto(root: PathModel, names: Seq<Seq<char>>, times: Seq<(PathModel, i64)>, n: int) -> Seq<
    (Seq<char>, u64),
>
    decreases n,
{
    if n <= 0 {
        Seq::empty()
    } else {
        match time_from(times, joined_path(root, names[n - 1]), 0) {
            Some(t) => stamps_upto(root, names, times, n - 1).push((names[n - 1], in_seconds(t))),
            None => stamps_upto(root, names, times, n - 1),
        }
    }
}

pub open spec fn stamp_names(list: Seq<(Seq<char>, u64)>) -> Seq<Seq<char>> {
    Seq::new(list.len(), |i: int| list[i].0)
}

/// Every file that is there with its time, in the order of the names.
pub open spec fn stamps(root: PathModel, names: Seq<Seq<char>>, times: Seq<(PathModel, i64)>) -> Seq<(Seq<char>, u64)> {
    let all = stamps_upto(root, names, times, names.len() as int);
    at_places(all, crate::order::stable_places(all_codes(stamp_names(all))))
}

pub open spec fn stamp_text(s: (Seq<char>, u64)) -> Seq<char> {
    s.0 + ":"@ + decimal(s.1 as nat)
}

pub open spec fn stamp_texts(list: Seq<(Seq<char>, u64)>) -> Seq<Seq<char>> {
    Seq::new(list.len(), |i: int| stamp_text(list[i]))
}

/// Stamps as one text.
pub open spec fn fingerprint_text(list: Seq<(Seq<char>, u64)>) -> Seq<char> {
    joined(stamp_texts(list), ";"@)
}

pub open spec fn stamps_view(s: Seq<(String, u64)>) -> Seq<(Seq<char>, u64)> {
    Seq::new(s.len(), |i: int| (s[i].0@, s[i].1))
}

fn seconds(t: i64) -> (r: u64)
    ensures
        r == in_seconds(t),
{
    if t > 0 {
        t as u64
    } else {
        0
    }
}

/// Every file that is there with its time. Two passes with one result read the
/// same files.
pub fn fingerprint(root: &FsPath, names: &Vec<&'static str>, times: &FileTimes) -> (r: Vec<(String, u64)>)
    ensures
        stamps_view(r@) == stamps(root@, strs(names@), times@),
{
    let ghost all = strs(names@);
    let mut found: Vec<(String, u64)> = Vec::new();
    let mut keys: Vec<String> = Vec::new();
    let mut i: usize = 0;
    assert(stamps_view(found@) =~= stamps_upto(root@, all, times@, 0));
    assert(texts(keys@) =~= stamp_names(stamps_view(found@)));
    while i < names.len()
        invariant
            i <= names@.len(),
            all == strs(names@),
            keys@.len() == found@.len(),
            texts(keys@) == stamp_names(stamps_view(found@)),
            stamps_view(found@) == stamps_upto(root@, all, times@, i as int),
        decreases names@.len() - i,
    {
        assert(all[i as int] == names@[i as int]@);
        let at = root.join(names[i]);
        match times.of(&at) {
            Some(t) => {
                let ghost prior = found@;
                let ghost prior_keys = keys@;
                found.push((names[i].to_owned(), seconds(t)));
                push_text(&mut keys, names[i]);
                assert(stamps_view(found@) =~= stamps_view(prior).push((names@[i as int]@, in_seconds(t))));
                assert(texts(keys@).len() == keys@.len());
                assert(texts(prior_keys).len() == prior_keys.len());
                assert(texts(keys@) =~= stamp_names(stamps_view(found@)));
            },
            None => {},
        }
        i += 1;
    }
    assert(all.len() == names@.len());
    let order = text_places(&keys);
    let ghost chosen = stamps_view(found@);
    let ghost want = stamps(root@, all, times@);
    let mut out: Vec<(String, u64)> = Vec::new();
    let mut n: usize = 0;
    assert(stamps_view(out@) =~= want.take(0));
    while n < order.len()
        invariant
            n <= order@.len(),
            chosen == stamps_view(found@),
            want == at_places(chosen, order@),
            keys@.len() == found@.len(),
            forall|j: int| 0 <= j < order@.len() ==> 0 <= #[trigger] order@[j] < keys@.len(),
            stamps_view(out@) == want.take(n as int),
        decreases order@.len() - n,
    {
        assert(order@[n as int] < keys@.len());
        let s = &found[order[n]];
        assert(want[n as int] == (s.0@, s.1));
        let ghost prior = out@;
        out.push((s.0.as_str().to_owned(), s.1));
        n += 1;
        assert(stamps_view(out@) =~= stamps_view(prior).push((s.0@, s.1)));
        assert(stamps_view(out@) =~= want.take(n as int));
    }
    assert(want.take(n as int) =~= want);
    out
}

/// Stamps as one text.
pub fn fingerprint_string(list: &Vec<(String, u64)>) -> (r: String)
    ensures
        r@ == fingerprint_text(stamps_view(list@)),
{
    let ghost all = stamp_texts(stamps_view(list@));
    let mut parts: Vec<String> = Vec::new();
    let mut i: usize = 0;
    assert(texts(parts@) =~= all.take(0));
    while i < list.len()
        invariant
            i <= list@.len(),
            all == stamp_texts(stamps_view(list@)),
            texts(parts@) == all.take(i as int),
        decreases list@.len() - i,
    {
        assert(stamps_view(list@)[i as int] == (list@[i as int].0@, list@[i as int].1));
        let n = write_u64(list[i].1);
        let t = cat3(list[i].0.as_str(), ":", n.as_str());
        push_text(&mut parts, t.as_str());
        i += 1;
        assert(texts(parts@) =~= all.take(i as int));
    }
    assert(all.take(i as int) =~= all);
    join_texts(&parts, ";")
}

// ---------------------------------------------------------------------
// Tables
// ---------------------------------------------------------------------

/// The place of an entry, from place `i` on.
pub open spec fn entry_place(cache: Seq<CachedModel>, key: Seq<char>, i: int) -> int
    decreases cache.len() - i,
{
    if i < 0 || i >= cache.len() {
        cache.len() as int
    } else if cache[i].key == key {
        i
    } else {
        entry_place(cache, key, i + 1)
    }
}

/// The rows kept under a key, when the fingerprint is still the same.
pub open spec fn hit(cache: Seq<CachedModel>, key: Seq<char>, fingerprint: Seq<char>) -> Option<Seq<Seq<Seq<char>>>> {
    let at = entry_place(cache, key, 0);
    if at < cache.len() && cache[at].fingerprint == fingerprint {
        Some(cache[at].rows)
    } else {
        None
    }
}

/// A table with an entry put in place of the one under its key.
pub open spec fn put(cache: Seq<CachedModel>, e: CachedModel) -> Seq<CachedModel> {
    let at = entry_place(cache, e.key, 0);
    if at < cache.len() {
        cache.update(at, e)
    } else {
        cache.push(e)
    }
}

fn find_entry(cache: &Vec<CachedRows>, key: &str) -> (r: usize)
    ensures
        r == entry_place(cached_view(cache@), key@, 0),
        r <= cache@.len(),
{
    let ghost all = cached_view(cache@);
    let mut i: usize = 0;
    while i < cache.len()
        invariant
            i <= cache@.len(),
            all == cached_view(cache@),
            entry_place(all, key@, 0) == entry_place(all, key@, i as int),
        decreases cache@.len() - i,
    {
        assert(all[i as int] == cache@[i as int]@);
        if same(cache[i].key.as_str(), key) {
            return i;
        }
        i += 1;
    }
    i
}

/// The rows kept under a key, when the fingerprint is still the same.
pub fn find_hit<'a>(cache: &'a Vec<CachedRows>, key: &str, fingerprint: &str) -> (r: Option<&'a Vec<Vec<String>>>)
    ensures
        match r {
            Some(rows) => hit(cached_view(cache@), key@, fingerprint@) == Some(rows_view(rows@)),
            None => hit(cached_view(cache@), key@, fingerprint@) is None,
        },
{
    let at = find_entry(cache, key);
    assert(cached_view(cache@).len() == cache@.len());
    if at < cache.len() {
        assert(cached_view(cache@)[at as int] == cache@[at as int]@);
        if same(cache[at].fingerprint.as_str(), fingerprint) {
            return Some(&cache[at].rows);
        }
    }
    None
}

pub fn put_entry(cache: &mut Vec<CachedRows>, e: CachedRows)
    ensures
        cached_view(final(cache)@) == put(cached_view(old(cache)@), e@),
{
    let ghost before = cached_view(cache@);
    let ghost em = e@;
    let at = find_entry(cache, e.key.as_str());
    if at < cache.len() {
        cache.set(at, e);
        assert(cached_view(cache@) =~= before.update(at as int, em));
    } else {
        cache.push(e);
        assert(cached_view(cache@) =~= before.push(em));
    }
}

// ---------------------------------------------------------------------
// Declarations
// ---------------------------------------------------------------------

/// What a declaration is for.
#[derive(Debug, Clone, PartialEq, Eq)]
pub enum DeclarationScope {
    Project(FsPath),
    GlobalDefault,
}

pub enum ScopeModel {
    Project(PathModel),
    GlobalDefault,
}

impl View for DeclarationScope {
    type V = ScopeModel;

    open spec fn view(&self) -> ScopeModel {
        match self {
            DeclarationScope::Project(p) => ScopeModel::Project(p@),
            DeclarationScope::GlobalDefault => ScopeModel::GlobalDefault,
        }
    }
}

/// A version of a tool that a file declares.
#[derive(Debug, Clone, PartialEq, Eq)]
pub struct ToolVersionDeclaration {
    pub manager: String,
    pub tool: String,
    pub version_spec: String,
    pub source_path: FsPath,
    pub scope: DeclarationScope,
}

pub struct DeclarationModel {
    pub manager: Seq<char>,
    pub tool: Seq<char>,
    pub version_spec: Seq<char>,
    pub source_path: PathModel,
    pub scope: ScopeModel,
}

impl View for ToolVersionDeclaration {
    type V = DeclarationModel;

    open spec fn view(&self) -> DeclarationModel {
        DeclarationModel {
            manager: self.manager@,
            tool: self.tool@,
            version_spec: self.version_spec@,
            source_path: self.source_path@,
            scope: self.scope@,
        }
    }
}

pub open spec fn declarations_view(s: Seq<ToolVersionDeclaration>) -> Seq<DeclarationModel> {
    Seq::new(s.len(), |i: int| s[i]@)
}

impl ToolVersionDeclaration {
    pub fn copy(&self) -> (r: Self)
        ensures
            r@ == self@,
    {
        ToolVersionDeclaration {
            manager: self.manager.as_str().to_owned(),
            tool: self.tool.as_str().to_owned(),
            version_spec: self.version_spec.as_str().to_owned(),
            source_path: self.source_path.copy(),
            scope: match &self.scope {
                DeclarationScope::Project(p) => DeclarationScope::Project(p.copy()),
                DeclarationScope::GlobalDefault => DeclarationScope::GlobalDefault,
            },
        }
    }
}

pub open spec fn part_mark() -> Seq<char> {
    seq!['\u{2}']
}

/// The row a declaration is kept as.
pub open spec fn declaration_row(d: DeclarationModel) -> Seq<Seq<char>> {
    seq![
        d.manager + part_mark() + d.tool,
        d.version_spec,
        path_text(d.source_path),
        match d.scope {
            ScopeModel::Project(p) => "project"@ + part_mark() + path_text(p),
            ScopeModel::GlobalDefault => "global"@ + part_mark(),
        },
    ]
}

/// The declaration a row is; nothing where a part is missing.
pub open spec fn declaration_in(row: Seq<Seq<char>>) -> Option<DeclarationModel> {
    if row.len() < 4 {
        None
    } else {
        match (cut_first(row[0], '\u{2}'), cut_first(row[3], '\u{2}')) {
            (Some((manager, tool)), Some((role, scope_path))) => Some(
                DeclarationModel {
                    manager,
                    tool,
                    version_spec: row[1],
                    source_path: path_of(row[2]),
                    scope: if role == "global"@ {
                        ScopeModel::GlobalDefault
                    } else {
                        ScopeModel::Project(path_of(scope_path))
                    },
                },
            ),
            _ => None,
        }
    }
}

pub open spec fn declaration_rows(list: Seq<DeclarationModel>) -> Seq<Seq<Seq<char>>> {
    Seq::new(list.len(), |i: int| declaration_row(list[i]))
}

pub open spec fn declarations_in(rows: Seq<Seq<Seq<char>>>, n: int) -> Seq<DeclarationModel>
    decreases n,
{
    if n <= 0 {
        Seq::empty()
    } else {
        match declaration_in(rows[n - 1]) {
            Some(d) => declarations_in(rows, n - 1).push(d),
            None => declarations_in(rows, n - 1),
        }
    }
}

pub fn declaration_to_row(d: &ToolVersionDeclaration) -> (r: Vec<String>)
    ensures
        texts(r@) == declaration_row(d@),
{
    let mark = text_from_char('\u{2}');
    let mut row: Vec<String> = Vec::new();
    let names = cat3(d.manager.as_str(), mark.as_str(), d.tool.as_str());
    push_text(&mut row, names.as_str());
    push_text(&mut row, d.version_spec.as_str());
    let source = d.source_path.text();
    push_text(&mut row, source.as_str());
    let scope = match &d.scope {
        DeclarationScope::Project(p) => {
            let at = p.text();
            cat3("project", mark.as_str(), at.as_str())
        },
        DeclarationScope::GlobalDefault => cat2("global", mark.as_str()),
    };
    push_text(&mut row, scope.as_str());
    assert(texts(row@) =~= declaration_row(d@));
    row
}

pub fn declaration_from_row(row: &Vec<String>) -> (r: Option<ToolVersionDeclaration>)
    ensures
        match r {
            Some(d) => declaration_in(texts(row@)) == Some(d@),
            None => declaration_in(texts(row@)) is None,
        },
{
    assert(texts(row@).len() == row@.len());
    if row.len() < 4 {
        return None;
    }
    match split_first(row[0].as_str(), '\u{2}') {
        Some((manager, tool)) => match split_first(row[3].as_str(), '\u{2}') {
            Some((role, scope_path)) => Some(
                ToolVersionDeclaration {
                    manager,
                    tool,
                    version_spec: row[1].as_str().to_owned(),
                    source_path: FsPath::parse(row[2].as_str()),
                    scope: if same(role.as_str(), "global") {
                        DeclarationScope::GlobalDefault
                    } else {
                        DeclarationScope::Project(FsPath::parse(scope_path.as_str()))
                    },
                },
            ),
            None => None,
        },
        None => None,
    }
}

fn push_declaration(v: &mut Vec<ToolVersionDeclaration>, d: ToolVersionDeclaration)
    ensures
        declarations_view(final(v)@) == declarations_view(old(v)@).push(d@),
{
    let ghost m = d@;
    v.push(d);
    assert(declarations_view(v@) =~= declarations_view(old(v)@).push(m));
}

fn read_declaration_rows(rows: &Vec<Vec<String>>) -> (r: Vec<ToolVersionDeclaration>)
    ensures
        declarations_view(r@) == declarations_in(rows_view(rows@), rows@.len() as int),
{
    let ghost all = rows_view(rows@);
    let mut out: Vec<ToolVersionDeclaration> = Vec::new();
    let mut i: usize = 0;
    assert(declarations_view(out@) =~= declarations_in(all, 0));
    while i < rows.len()
        invariant
            i <= rows@.len(),
            all == rows_view(rows@),
            declarations_view(out@) == declarations_in(all, i as int),
        decreases rows@.len() - i,
    {
        assert(all[i as int] == texts(rows@[i as int]@));
        match declaration_from_row(&rows[i]) {
            Some(d) => {
                push_declaration(&mut out, d);
            },
            None => {},
        }
        i += 1;
    }
    out
}

fn write_declaration_rows(list: &Vec<ToolVersionDeclaration>) -> (r: Vec<Vec<String>>)
    ensures
        rows_view(r@) == declaration_rows(declarations_view(list@)),
{
    let ghost want = declaration_rows(declarations_view(list@));
    let mut out: Vec<Vec<String>> = Vec::new();
    let mut i: usize = 0;
    assert(rows_view(out@) =~= want.take(0));
    while i < list.len()
        invariant
            i <= list@.len(),
            want == declaration_rows(declarations_view(list@)),
            rows_view(out@) == want.take(i as int),
        decreases list@.len() - i,
    {
        assert(declarations_view(list@)[i as int] == list@[i as int]@);
        let row = declaration_to_row(&list[i]);
        let ghost cells = row@;
        let ghost prior = out@;
        out.push(row);
        i += 1;
        assert(rows_view(out@) =~= rows_view(prior).push(texts(cells)));
        assert(rows_view(out@) =~= want.take(i as int));
    }
    assert(want.take(i as int) =~= want);
    out
}

fn copy_declarations(list: &Vec<ToolVersionDeclaration>) -> (r: Vec<ToolVersionDeclaration>)
    ensures
        declarations_view(r@) == declarations_view(list@),
{
    let ghost all = declarations_view(list@);
    let mut out: Vec<ToolVersionDeclaration> = Vec::new();
    let mut i: usize = 0;
    assert(declarations_view(out@) =~= all.take(0));
    while i < list.len()
        invariant
            i <= list@.len(),
            all == declarations_view(list@),
            declarations_view(out@) == all.take(i as int),
        decreases list@.len() - i,
    {
        push_declaration(&mut out, list[i].copy());
        i += 1;
        assert(declarations_view(out@) =~= all.take(i as int));
    }
    assert(all.take(i as int) =~= all);
    out
}

/// Whether a worktree's declarations are still kept: nothing has to be read.
pub fn declarations_kept(cache: &Vec<CachedRows>, worktree: &FsPath, fingerprint: &str) -> (r: bool)
    ensures
        r == (hit(cached_view(cache@), path_text(worktree@), fingerprint@) is Some),
{
    let key = worktree.text();
    find_hit(cache, key.as_str(), fingerprint).is_some()
}

/// A worktree's declarations: those kept, while its files are as they were, and
/// otherwise `fresh`, which are kept from now on.
pub fn cached_declarations(
    cache: &mut Vec<CachedRows>,
    worktree: &FsPath,
    fingerprint: &str,
    fresh: &Vec<ToolVersionDeclaration>,
) -> (r: Vec<ToolVersionDeclaration>)
    ensures
        match hit(cached_view(old(cache)@), path_text(worktree@), fingerprint@) {
            Some(rows) => {
                &&& declarations_view(r@) == declarations_in(rows, rows.len() as int)
                &&& cached_view(final(cache)@) == cached_view(old(cache)@)
            },
            None => {
                &&& declarations_view(r@) == declarations_view(fresh@)
                &&& cached_view(final(cache)@) == put(
                    cached_view(old(cache)@),
                    (CachedModel {
                        key: path_text(worktree@),
                        fingerprint: fingerprint@,
                        observed_at: 0,
                        rows: declaration_rows(declarations_view(fresh@)),
                    }),
                )
            },
        },
{
    let key = worktree.text();
    match find_hit(cache, key.as_str(), fingerprint) {
        Some(rows) => {
            assert(rows_view(rows@).len() == rows@.len());
            return read_declaration_rows(rows);
        },
        None => {},
    }
    let rows = write_declaration_rows(fresh);
    put_entry(
        cache,
        CachedRows { key, fingerprint: fingerprint.to_owned(), observed_at: 0, rows },
    );
    copy_declarations(fresh)
}

// ---------------------------------------------------------------------
// Identities
// ---------------------------------------------------------------------

/// A package a lockfile names.
#[derive(Debug, Clone, PartialEq, Eq)]
pub struct CachedIdentity {
    pub ecosystem: String,
    pub name: String,
    pub version: String,
}

pub struct IdentityModel {
    pub ecosystem: Seq<char>,
    pub name: Seq<char>,
    pub version: Seq<char>,
}

impl View for CachedIdentity {
    type V = IdentityModel;

    open spec fn view(&self) -> IdentityModel {
        IdentityModel { ecosystem: self.ecosystem@, name: self.name@, version: self.version@ }
    }
}

pub open spec fn identities_view(s: Seq<CachedIdentity>) -> Seq<IdentityModel> {
    Seq::new(s.len(), |i: int| s[i]@)
}

/// What could not be read of a lockfile, and of which ecosystem.
#[derive(Debug, Clone, PartialEq, Eq)]
pub struct Gap {
    pub ecosystem: String,
    pub message: String,
}

pub struct GapModel {
    pub ecosystem: Seq<char>,
    pub message: Seq<char>,
}

impl View for Gap {
    type V = GapModel;

    open spec fn view(&self) -> GapModel {
        GapModel { ecosystem: self.ecosystem@, message: self.message@ }
    }
}

pub open spec fn gaps_view(s: Seq<Gap>) -> Seq<GapModel> {
    Seq::new(s.len(), |i: int| s[i]@)
}

/// What the lockfiles of a worktree were read as; nothing for a file that is not
/// there.
#[derive(Debug)]
pub struct LockfileReadings {
    pub cargo: Option<Result<Vec<CachedIdentity>, String>>,
    pub npm: Option<Result<Vec<CachedIdentity>, String>>,
    pub pnpm: Option<Vec<CachedIdentity>>,
    pub go: Option<Vec<CachedIdentity>>,
    pub gradle: Option<Vec<CachedIdentity>>,
    /// Packages, and the dependencies whose version it does not state.
    pub maven: Option<Result<(Vec<CachedIdentity>, Vec<String>), String>>,
}

pub open spec fn named_in(o: Option<Result<Vec<CachedIdentity>, String>>) -> Seq<IdentityModel> {
    match o {
        Some(Ok(v)) => identities_view(v@),
        _ => Seq::empty(),
    }
}

pub open spec fn listed_in(o: Option<Vec<CachedIdentity>>) -> Seq<IdentityModel> {
    match o {
        Some(v) => identities_view(v@),
        None => Seq::empty(),
    }
}

pub open spec fn failed_in(o: Option<Result<Vec<CachedIdentity>, String>>, ecosystem: Seq<char>) -> Seq<GapModel> {
    match o {
        Some(Err(e)) => seq![GapModel { ecosystem, message: e@ }],
        _ => Seq::empty(),
    }
}

pub open spec fn unresolved(list: Seq<String>) -> Seq<GapModel> {
    Seq::new(list.len(), |i: int| GapModel { ecosystem: "maven-unresolved"@, message: list[i]@ })
}

/// Every package that lockfiles name, file by file.
pub open spec fn identities_of(r: LockfileReadings) -> Seq<IdentityModel> {
    named_in(r.cargo) + named_in(r.npm) + listed_in(r.pnpm) + listed_in(r.go) + listed_in(r.gradle) + (match r.maven {
        Some(Ok(pair)) => identities_view(pair.0@),
        _ => Seq::empty(),
    })
}

/// What could not be read: a lockfile that is none, and a dependency without a
/// stated version. A gap is said, never passed over.
pub open spec fn gaps_of(r: LockfileReadings) -> Seq<GapModel> {
    failed_in(r.cargo, "cargo"@) + failed_in(r.npm, "npm"@) + (match r.maven {
        Some(Ok(pair)) => unresolved(pair.1@),
        Some(Err(e)) => seq![GapModel { ecosystem: "maven"@, message: e@ }],
        None => Seq::empty(),
    })
}

fn extend_identities(out: &mut Vec<CachedIdentity>, more: &Vec<CachedIdentity>)
    ensures
        identities_view(final(out)@) == identities_view(old(out)@) + identities_view(more@),
{
    let ghost start = identities_view(out@);
    let ghost all = identities_view(more@);
    let mut i: usize = 0;
    assert(start + all.take(0) =~= start);
    while i < more.len()
        invariant
            i <= more@.len(),
            all == identities_view(more@),
            identities_view(out@) == start + all.take(i as int),
        decreases more@.len() - i,
    {
        let x = CachedIdentity {
            ecosystem: more[i].ecosystem.as_str().to_owned(),
            name: more[i].name.as_str().to_owned(),
            version: more[i].version.as_str().to_owned(),
        };
        let ghost xm = x@;
        let ghost prior = out@;
        out.push(x);
        i += 1;
        assert(identities_view(out@) =~= identities_view(prior).push(xm));
        assert(start + all.take(i as int) =~= (start + all.take(i - 1)).push(all[i - 1]));
    }
    assert(all.take(i as int) =~= all);
}

fn push_gap(out: &mut Vec<Gap>, ecosystem: &str, message: &str)
    ensures
        gaps_view(final(out)@) == gaps_view(old(out)@).push(GapModel { ecosystem: ecosystem@, message: message@ }),
{
    let ghost prior = out@;
    let g = Gap { ecosystem: ecosystem.to_owned(), message: message.to_owned() };
    let ghost gm = g@;
    out.push(g);
    assert(gaps_view(out@) =~= gaps_view(prior).push(gm));
}

fn take_named(
    out: &mut Vec<CachedIdentity>,
    gaps: &mut Vec<Gap>,
    o: &Option<Result<Vec<CachedIdentity>, String>>,
    ecosystem: &str,
)
    ensures
        identities_view(final(out)@) == identities_view(old(out)@) + named_in(*o),
        gaps_view(final(gaps)@) == gaps_view(old(gaps)@) + failed_in(*o, ecosystem@),
{
    let ghost ids = identities_view(out@);
    let ghost gs = gaps_view(gaps@);
    assert(ids + Seq::<IdentityModel>::empty() =~= ids);
    assert(gs + Seq::<GapModel>::empty() =~= gs);
    match o {
        Some(Ok(v)) => {
            extend_identities(out, v);
        },
        Some(Err(e)) => {
            push_gap(gaps, ecosystem, e.as_str());
            assert(gaps_view(gaps@) =~= gs + seq![GapModel { ecosystem: ecosystem@, message: e@ }]);
        },
        None => {},
    }
}

fn take_listed(out: &mut Vec<CachedIdentity>, o: &Option<Vec<CachedIdentity>>)
    ensures
        identities_view(final(out)@) == identities_view(old(out)@) + listed_in(*o),
{
    let ghost ids = identities_view(out@);
    assert(ids + Seq::<IdentityModel>::empty() =~= ids);
    match o {
        Some(v) => {
            extend_identities(out, v);
        },
        None => {},
    }
}

fn take_unresolved(gaps: &mut Vec<Gap>, list: &Vec<String>)
    ensures
        gaps_view(final(gaps)@) == gaps_view(old(gaps)@) + unresolved(list@),
{
    let ghost start = gaps_view(gaps@);
    let ghost all = unresolved(list@);
    let mut i: usize = 0;
    assert(start + all.take(0) =~= start);
    while i < list.len()
        invariant
            i <= list@.len(),
            all == unresolved(list@),
            gaps_view(gaps@) == start + all.take(i as int),
        decreases list@.len() - i,
    {
        push_gap(gaps, "maven-unresolved", list[i].as_str());
        i += 1;
        assert(start + all.take(i as int) =~= (start + all.take(i - 1)).push(all[i - 1]));
    }
    assert(all.take(i as int) =~= all);
}

/// Every package a worktree's lockfiles name, and what could not be read.
pub fn read_identities(readings: &LockfileReadings) -> (r: (Vec<CachedIdentity>, Vec<Gap>))
    ensures
        identities_view(r.0@) == identities_of(*readings),
        gaps_view(r.1@) == gaps_of(*readings),
{
    let mut out: Vec<CachedIdentity> = Vec::new();
    let mut gaps: Vec<Gap> = Vec::new();
    assert(identities_view(out@) =~= Seq::<IdentityModel>::empty());
    assert(gaps_view(gaps@) =~= Seq::<GapModel>::empty());
    assert(Seq::<IdentityModel>::empty() + named_in(readings.cargo) =~= named_in(readings.cargo));
    assert(Seq::<GapModel>::empty() + failed_in(readings.cargo, "cargo"@) =~= failed_in(readings.cargo, "cargo"@));
    take_named(&mut out, &mut gaps, &readings.cargo, "cargo");
    take_named(&mut out, &mut gaps, &readings.npm, "npm");
    take_listed(&mut out, &readings.pnpm);
    take_listed(&mut out, &readings.go);
    take_listed(&mut out, &readings.gradle);
    let ghost ids = identities_view(out@);
    let ghost gs = gaps_view(gaps@);
    assert(ids + Seq::<IdentityModel>::empty() =~= ids);
    assert(gs + Seq::<GapModel>::empty() =~= gs);
    match &readings.maven {
        Some(Ok(pair)) => {
            extend_identities(&mut out, &pair.0);
            take_unresolved(&mut gaps, &pair.1);
        },
        Some(Err(e)) => {
            push_gap(&mut gaps, "maven", e.as_str());
            assert(gaps_view(gaps@) =~= gs + seq![GapModel { ecosystem: "maven"@, message: e@ }]);
        },
        None => {},
    }
    (out, gaps)
}

/// The rows packages and gaps are kept as.
pub open spec fn identity_rows(ids: Seq<IdentityModel>, gaps: Seq<GapModel>) -> Seq<Seq<Seq<char>>> {
    Seq::new(ids.len(), |i: int| seq!["identity"@, ids[i].ecosystem, ids[i].name, ids[i].version]) + Seq::new(
        gaps.len(),
        |i: int| seq!["gap"@, gaps[i].ecosystem, gaps[i].message, Seq::<char>::empty()],
    )
}

pub open spec fn cell(row: Seq<Seq<char>>, i: int) -> Seq<char> {
    if 0 <= i < row.len() {
        row[i]
    } else {
        Seq::empty()
    }
}

pub open spec fn identities_in(rows: Seq<Seq<Seq<char>>>, n: int) -> Seq<IdentityModel>
    decreases n,
{
    if n <= 0 {
        Seq::empty()
    } else {
        let row = rows[n - 1];
        if row.len() > 0 && row[0] == "identity"@ {
            identities_in(rows, n - 1).push(
                IdentityModel { ecosystem: cell(row, 1), name: cell(row, 2), version: cell(row, 3) },
            )
        } else {
            identities_in(rows, n - 1)
        }
    }
}

pub open spec fn gaps_in(rows: Seq<Seq<Seq<char>>>, n: int) -> Seq<GapModel>
    decreases n,
{
    if n <= 0 {
        Seq::empty()
    } else {
        let row = rows[n - 1];
        if row.len() > 0 && row[0] == "gap"@ {
            gaps_in(rows, n - 1).push(GapModel { ecosystem: cell(row, 1), message: cell(row, 2) })
        } else {
            gaps_in(rows, n - 1)
        }
    }
}

fn read_cell(row: &Vec<String>, i: usize) -> (r: String)
    ensures
        r@ == cell(texts(row@), i as int),
{
    if i < row.len() {
        row[i].as_str().to_owned()
    } else {
        let none = String::new();
        assert(none@ =~= Seq::<char>::empty());
        none
    }
}

proof fn lemma_row_kinds()
    ensures
        "identity"@ != "gap"@,
{
    reveal_strlit("identity");
    reveal_strlit("gap");
    assert("identity"@.len() != "gap"@.len());
}

fn read_identity_rows(rows: &Vec<Vec<String>>) -> (r: (Vec<CachedIdentity>, Vec<Gap>))
    ensures
        identities_view(r.0@) == identities_in(rows_view(rows@), rows@.len() as int),
        gaps_view(r.1@) == gaps_in(rows_view(rows@), rows@.len() as int),
{
    let ghost all = rows_view(rows@);
    let mut ids: Vec<CachedIdentity> = Vec::new();
    let mut gaps: Vec<Gap> = Vec::new();
    let mut i: usize = 0;
    assert(identities_view(ids@) =~= identities_in(all, 0));
    assert(gaps_view(gaps@) =~= gaps_in(all, 0));
    while i < rows.len()
        invariant
            i <= rows@.len(),
            all == rows_view(rows@),
            identities_view(ids@) == identities_in(all, i as int),
            gaps_view(gaps@) == gaps_in(all, i as int),
        decreases rows@.len() - i,
    {
        let row = &rows[i];
        assert(all[i as int] == texts(row@));
        proof {
            lemma_row_kinds();
        }
        if row.len() > 0 {
            if same(row[0].as_str(), "identity") {
                let x = CachedIdentity { ecosystem: read_cell(row, 1), name: read_cell(row, 2), version: read_cell(row, 3) };
                let ghost xm = x@;
                let ghost prior = ids@;
                ids.push(x);
                assert(identities_view(ids@) =~= identities_view(prior).push(xm));
            } else if same(row[0].as_str(), "gap") {
                let e = read_cell(row, 1);
                let m = read_cell(row, 2);
                push_gap(&mut gaps, e.as_str(), m.as_str());
            }
        }
        i += 1;
    }
    (ids, gaps)
}

fn write_row(a: &str, b: &str, c: &str, d: &str) -> (r: Vec<String>)
    ensures
        texts(r@) == seq![a@, b@, c@, d@],
{
    let mut row: Vec<String> = Vec::new();
    push_text(&mut row, a);
    push_text(&mut row, b);
    push_text(&mut row, c);
    push_text(&mut row, d);
    assert(texts(row@) =~= seq![a@, b@, c@, d@]);
    row
}

fn write_identity_rows(ids: &Vec<CachedIdentity>, gaps: &Vec<Gap>) -> (r: Vec<Vec<String>>)
    ensures
        rows_view(r@) == identity_rows(identities_view(ids@), gaps_view(gaps@)),
{
    let ghost want = identity_rows(identities_view(ids@), gaps_view(gaps@));
    let mut out: Vec<Vec<String>> = Vec::new();
    let mut i: usize = 0;
    assert(rows_view(out@) =~= want.take(0));
    while i < ids.len()
        invariant
            i <= ids@.len(),
            want == identity_rows(identities_view(ids@), gaps_view(gaps@)),
            rows_view(out@) == want.take(i as int),
        decreases ids@.len() - i,
    {
        assert(identities_view(ids@)[i as int] == ids@[i as int]@);
        let row = write_row("identity", ids[i].ecosystem.as_str(), ids[i].name.as_str(), ids[i].version.as_str());
        let ghost cells = row@;
        let ghost prior = out@;
        out.push(row);
        assert(want[i as int] == texts(cells));
        i += 1;
        assert(rows_view(out@) =~= rows_view(prior).push(texts(cells)));
        assert(rows_view(out@) =~= want.take(i as int));
    }
    let mut k: usize = 0;
    let ghost n = ids@.len() as int;
    while k < gaps.len()
        invariant
            k <= gaps@.len(),
            n == ids@.len(),
            want == identity_rows(identities_view(ids@), gaps_view(gaps@)),
            rows_view(out@) == want.take(n + k),
        decreases gaps@.len() - k,
    {
        assert(gaps_view(gaps@)[k as int] == gaps@[k as int]@);
        let none = String::new();
        assert(none@ =~= Seq::<char>::empty());
        let row = write_row("gap", gaps[k].ecosystem.as_str(), gaps[k].message.as_str(), none.as_str());
        let ghost cells = row@;
        let ghost prior = out@;
        out.push(row);
        assert(want[n + k] == texts(cells));
        k += 1;
        assert(rows_view(out@) =~= rows_view(prior).push(texts(cells)));
        assert(rows_view(out@) =~= want.take(n + k));
    }
    assert(want.take(n + k) =~= want);
    out
}

/// A worktree's packages: those kept, while its lockfiles are as they were, and
/// otherwise what `fresh` names, which is kept from now on.
pub fn cached_identities(
    cache: &mut Vec<CachedRows>,
    worktree: &FsPath,
    fingerprint: &str,
    fresh: &LockfileReadings,
) -> (r: (Vec<CachedIdentity>, Vec<Gap>))
    ensures
        match hit(cached_view(old(cache)@), path_text(worktree@), fingerprint@) {
            Some(rows) => {
                &&& identities_view(r.0@) == identities_in(rows, rows.len() as int)
                &&& gaps_view(r.1@) == gaps_in(rows, rows.len() as int)
                &&& cached_view(final(cache)@) == cached_view(old(cache)@)
            },
            None => {
                &&& identities_view(r.0@) == identities_of(*fresh)
                &&& gaps_view(r.1@) == gaps_of(*fresh)
                &&& cached_view(final(cache)@) == put(
                    cached_view(old(cache)@),
                    (CachedModel {
                        key: path_text(worktree@),
                        fingerprint: fingerprint@,
                        observed_at: 0,
                        rows: identity_rows(identities_of(*fresh), gaps_of(*fresh)),
                    }),
                )
            },
        },
{
    let key = worktree.text();
    match find_hit(cache, key.as_str(), fingerprint) {
        Some(rows) => {
            assert(rows_view(rows@).len() == rows@.len());
            return read_identity_rows(rows);
        },
        None => {},
    }
    let (ids, gaps) = read_identities(fresh);
    let rows = write_identity_rows(&ids, &gaps);
    put_entry(
        cache,
        CachedRows { key, fingerprint: fingerprint.to_owned(), observed_at: 0, rows },
    );
    (ids, gaps)
}

// ---------------------------------------------------------------------
// Laws
// ---------------------------------------------------------------------

/// Whether a declaration can be told from its row.
pub open spec fn declaration_stored(d: DeclarationModel) -> bool {
    free_of(d.manager, '\u{2}')
}

/// A declaration's row reads back as the declaration.
pub proof fn law_declarations_read_back(d: DeclarationModel)
    requires
        declaration_stored(d),
    ensures
        declaration_in(declaration_row(d)) == Some(d),
{
    lemma_cut_first(d.manager, '\u{2}', d.tool);
    law_path_texts_read_back(d.source_path);
    reveal_strlit("project");
    reveal_strlit("global");
    assert("project"@.len() == 7);
    assert("global"@.len() == 6);
    match d.scope {
        ScopeModel::Project(p) => {
            assert(free_of("project"@, '\u{2}')) by {
                let s = "project"@;
                assert forall|i: int| 0 <= i < s.len() implies #[trigger] s[i] != '\u{2}' by {}
            }
            lemma_cut_first("project"@, '\u{2}', path_text(p));
            law_path_texts_read_back(p);
        },
        ScopeModel::GlobalDefault => {
            assert(free_of("global"@, '\u{2}')) by {
                let s = "global"@;
                assert forall|i: int| 0 <= i < s.len() implies #[trigger] s[i] != '\u{2}' by {}
            }
            assert("global"@ + part_mark() =~= "global"@ + part_mark() + Seq::<char>::empty());
            lemma_cut_first("global"@, '\u{2}', Seq::empty());
        },
    }
}

proof fn lemma_entry_place(cache: Seq<CachedModel>, key: Seq<char>, i: int)
    requires
        0 <= i,
    ensures
        entry_place(cache, key, i) <= cache.len(),
        i <= cache.len() ==> i <= entry_place(cache, key, i),
        entry_place(cache, key, i) < cache.len() ==> cache[entry_place(cache, key, i)].key == key,
        forall|k: int| i <= k < entry_place(cache, key, i) ==> (#[trigger] cache[k]).key != key,
    decreases cache.len() - i,
{
    if i < cache.len() && cache[i].key != key {
        lemma_entry_place(cache, key, i + 1);
    }
}

/// What is put in a table is what the table then holds under that key; every
/// other key keeps what it had.
pub proof fn law_what_is_put_is_found(cache: Seq<CachedModel>, e: CachedModel, other: Seq<char>, fingerprint: Seq<char>)
    ensures
        hit(put(cache, e), e.key, e.fingerprint) == Some(e.rows),
        other != e.key ==> hit(put(cache, e), other, fingerprint) == hit(cache, other, fingerprint),
{
    let next = put(cache, e);
    lemma_entry_place(cache, e.key, 0);
    lemma_entry_place(next, e.key, 0);
    lemma_entry_place(cache, other, 0);
    lemma_entry_place(next, other, 0);
    let at = entry_place(cache, e.key, 0);
    let there = entry_place(next, e.key, 0);
    assert(next[at] == e);
    if there < at {
        assert(next[there] == cache[there]);
    }
    if there > at {
        assert(next[at].key != e.key);
    }
    if other != e.key {
        let a = entry_place(cache, other, 0);
        let b = entry_place(next, other, 0);
        if a < cache.len() {
            assert(next[a] == cache[a]);
            if b > a {
                assert(next[a].key != other);
            }
        }
        if b < next.len() {
            if b != at {
                assert(next[b] == cache[b]);
                if a > b {
                    assert(cache[b].key != other);
                }
            }
        }
    }
}

proof fn lemma_identity_rows(ids: Seq<IdentityModel>, gaps: Seq<GapModel>, n: int)
    requires
        0 <= n <= ids.len() + gaps.len(),
    ensures
        identities_in(identity_rows(ids, gaps), n) == (if n <= ids.len() {
            ids.take(n)
        } else {
            ids
        }),
        gaps_in(identity_rows(ids, gaps), n) == (if n <= ids.len() {
            Seq::empty()
        } else {
            gaps.take(n - ids.len())
        }),
    decreases n,
{
    let rows = identity_rows(ids, gaps);
    lemma_row_kinds();
    if n > 0 {
        lemma_identity_rows(ids, gaps, n - 1);
        if n <= ids.len() {
            assert(rows[n - 1] == seq!["identity"@, ids[n - 1].ecosystem, ids[n - 1].name, ids[n - 1].version]);
            assert(ids.take(n) =~= ids.take(n - 1).push(ids[n - 1]));
        } else {
            let k = n - 1 - ids.len();
            assert(rows[n - 1] == seq!["gap"@, gaps[k].ecosystem, gaps[k].message, Seq::<char>::empty()]);
            assert(gaps.take(k + 1) =~= gaps.take(k).push(gaps[k]));
            assert(ids.take(ids.len() as int) =~= ids);
            assert(gaps.take(0) =~= Seq::<GapModel>::empty());
        }
    } else {
        assert(ids.take(0) =~= Seq::<IdentityModel>::empty());
    }
}

/// Packages and gaps read back from their rows as they were.
pub proof fn law_identities_read_back(ids: Seq<IdentityModel>, gaps: Seq<GapModel>)
    ensures
        identities_in(identity_rows(ids, gaps), identity_rows(ids, gaps).len() as int) == ids,
        gaps_in(identity_rows(ids, gaps), identity_rows(ids, gaps).len() as int) == gaps,
{
    let n = (ids.len() + gaps.len()) as int;
    lemma_identity_rows(ids, gaps, n);
    assert(ids.take(ids.len() as int) =~= ids);
    assert(gaps.take(gaps.len() as int) =~= gaps);
}

} // verus!
