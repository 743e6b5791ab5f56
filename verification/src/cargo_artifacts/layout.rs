//! Where Cargo builds to, as far as local configuration and the environment
//! say. A command-line override is unknown to an observer.

use crate::facts::{is_file_at, whole_manifest_of, FactModel, FileFacts};
use crate::path::{is_absolute, join, joined_path, opt_path, parent, path_of, FsPath, PathModel};
use crate::text::{opt_text, push_text, texts};
use crate::toml_text::{parse_toml, parsed_toml, read_as, TomlModel, TomlNode};
use vstd::prelude::*;

verus! {

/// The effective local Cargo directories.
#[derive(Debug, Clone, PartialEq, Eq)]
pub struct CargoLayout {
    pub target_dir: Option<FsPath>,
    pub build_dir: Option<FsPath>,
    pub config_path: Option<FsPath>,
    pub notes: Vec<String>,
}

pub struct LayoutModel {
    pub target_dir: Option<PathModel>,
    pub build_dir: Option<PathModel>,
    pub config_path: Option<PathModel>,
    pub notes: Seq<Seq<char>>,
}

impl View for CargoLayout {
    type V = LayoutModel;

    open spec fn view(&self) -> LayoutModel {
        LayoutModel {
            target_dir: opt_path(self.target_dir),
            build_dir: opt_path(self.build_dir),
            config_path: opt_path(self.config_path),
            notes: texts(self.notes@),
        }
    }
}

/// The environment variables Cargo takes directories from.
#[derive(Debug, Clone, PartialEq, Eq)]
pub struct CargoEnvironment {
    /// `CARGO_TARGET_DIR`.
    pub target_dir: Option<String>,
    /// `CARGO_BUILD_TARGET_DIR`.
    pub build_target_dir: Option<String>,
    /// `CARGO_BUILD_BUILD_DIR`.
    pub build_dir: Option<String>,
}

/// The directory the environment names for targets.
pub open spec fn env_target(env: CargoEnvironment) -> Option<Seq<char>> {
    match opt_text(env.target_dir) {
        Some(t) => Some(t),
        None => opt_text(env.build_target_dir),
    }
}

/// The configuration file of a directory, if there is one.
pub open spec fn config_in(dir: PathModel, facts: Seq<FactModel>) -> Option<PathModel> {
    let bare = joined_path(joined_path(dir, ".cargo"@), "config"@);
    let toml = joined_path(joined_path(dir, ".cargo"@), "config.toml"@);
    if is_file_at(facts, bare) {
        Some(bare)
    } else if is_file_at(facts, toml) {
        Some(toml)
    } else {
        None
    }
}

/// The configuration file that applies to a directory: its own, or the nearest
/// one above it.
pub open spec fn nearest_config(dir: PathModel, facts: Seq<FactModel>) -> Option<PathModel>
    decreases dir.len(),
{
    match config_in(dir, facts) {
        Some(p) => Some(p),
        None => match parent(dir) {
            Some(up) => if up.len() < dir.len() {
                nearest_config(up, facts)
            } else {
                None
            },
            None => None,
        },
    }
}

fn find_config_in(dir: &FsPath, facts: &FileFacts) -> (r: Option<FsPath>)
    ensures
        opt_path(r) == config_in(dir@, facts@),
{
    let at = dir.join(".cargo");
    let bare = at.join("config");
    if facts.is_file(&bare) {
        return Some(bare);
    }
    let toml = at.join("config.toml");
    if facts.is_file(&toml) {
        Some(toml)
    } else {
        None
    }
}

fn find_config(dir: &FsPath, facts: &FileFacts) -> (r: Option<FsPath>)
    ensures
        opt_path(r) == nearest_config(dir@, facts@),
    decreases dir@.len(),
{
    match find_config_in(dir, facts) {
        Some(p) => Some(p),
        None => match dir.parent() {
            Some(up) => if up.len() < dir.len() {
                find_config(&up, facts)
            } else {
                None
            },
            None => None,
        },
    }
}

/// What a configuration document sets `build.<key>` to.
pub open spec fn build_setting(v: Option<TomlModel>, key: Seq<char>) -> Option<Seq<char>> {
    match v {
        Some(doc) => match doc.get("build"@) {
            Some(b) => match b.get(key) {
                Some(n) => n.text(),
                None => None,
            },
            None => None,
        },
        None => None,
    }
}

pub fn build_path(v: &Option<TomlNode>, key: &str) -> (r: Option<String>)
    ensures
        opt_text(r) == build_setting(read_as(*v), key@),
{
    match v {
        Some(doc) => match doc.get("build") {
            Some(b) => match b.get(key) {
                Some(n) => n.text(),
                None => None,
            },
            None => None,
        },
        None => None,
    }
}

/// The target and build directories a configuration text sets.
pub fn parse_build_paths(text: &str) -> (r: (Option<FsPath>, Option<FsPath>))
    ensures
        opt_path(r.0) == as_path(build_setting(parsed_toml(text@), "target-dir"@)),
        opt_path(r.1) == as_path(build_setting(parsed_toml(text@), "build-dir"@)),
{
    let v = parse_toml(text);
    (to_path(build_path(&v, "target-dir")), to_path(build_path(&v, "build-dir")))
}

pub open spec fn as_path(o: Option<Seq<char>>) -> Option<PathModel> {
    match o {
        Some(t) => Some(path_of(t)),
        None => None,
    }
}

fn to_path(o: Option<String>) -> (r: Option<FsPath>)
    ensures
        opt_path(r) == as_path(opt_text(o)),
{
    match o {
        Some(t) => Some(FsPath::parse(t.as_str())),
        None => None,
    }
}

/// A configured path, taken from the directory that holds `.cargo`.
pub open spec fn resolved(config: Option<PathModel>, value: PathModel) -> PathModel {
    if is_absolute(value) {
        value
    } else {
        match config {
            Some(c) => match parent(c) {
                Some(up) => match parent(up) {
                    Some(base) => join(base, value),
                    None => value,
                },
                None => value,
            },
            None => value,
        }
    }
}

pub fn resolve_config_path(config: &Option<FsPath>, value: FsPath) -> (r: FsPath)
    ensures
        r@ == resolved(opt_path(*config), value@),
{
    if value.is_absolute() {
        return value;
    }
    match config {
        Some(c) => match c.parent() {
            Some(up) => match up.parent() {
                Some(base) => base.join_path(&value),
                None => value,
            },
            None => value,
        },
        None => value,
    }
}

/// A setting of the environment over one of the configuration over none, a
/// relative one taken from the worktree.
pub open spec fn effective(worktree: PathModel, config: Option<PathModel>, set: Option<Seq<char>>, env: Option<Seq<char>>) -> Option<
    PathModel,
> {
    let chosen = match env {
        Some(t) => Some(path_of(t)),
        None => match set {
            Some(t) => Some(resolved(config, path_of(t))),
            None => None,
        },
    };
    match chosen {
        Some(p) => if is_absolute(p) {
            Some(p)
        } else {
            Some(join(worktree, p))
        },
        None => None,
    }
}

/// What the configuration that applies sets `build.<key>` to.
pub open spec fn configured(config: Option<PathModel>, facts: Seq<FactModel>, key: Seq<char>) -> Option<Seq<char>> {
    match config {
        Some(c) => match whole_manifest_of(facts, c) {
            Some(m) => build_setting(parsed_toml(m.text), key),
            None => None,
        },
        None => None,
    }
}

/// The layout of a worktree: targets default to its `target`, and build files
/// to where targets go.
pub open spec fn layout_of(worktree: PathModel, facts: Seq<FactModel>, env: CargoEnvironment) -> LayoutModel {
    let config = nearest_config(worktree, facts);
    let target = match effective(worktree, config, configured(config, facts, "target-dir"@), env_target(env)) {
        Some(p) => p,
        None => joined_path(worktree, "target"@),
    };
    let build = match effective(
        worktree,
        config,
        configured(config, facts, "build-dir"@),
        opt_text(env.build_dir),
    ) {
        Some(p) => p,
        None => target,
    };
    LayoutModel {
        target_dir: Some(target),
        build_dir: Some(build),
        config_path: config,
        notes: if config is None {
            seq!["no local Cargo config was observed"@]
        } else {
            Seq::empty()
        },
    }
}

fn choose_path(worktree: &FsPath, config: &Option<FsPath>, set: Option<FsPath>, env: Option<&String>, Ghost(text): Ghost<Option<Seq<char>>>) -> (r: Option<FsPath>)
    requires
        opt_path(set) == as_path(text),
    ensures
        opt_path(r) == effective(
            worktree@,
            opt_path(*config),
            text,
            match env {
                Some(t) => Some(t@),
                None => None,
            },
        ),
{
    let chosen = match env {
        Some(t) => Some(FsPath::parse(t.as_str())),
        None => match set {
            Some(p) => Some(resolve_config_path(config, p)),
            None => None,
        },
    };
    match chosen {
        Some(p) => if p.is_absolute() {
            Some(p)
        } else {
            Some(worktree.join_path(&p))
        },
        None => None,
    }
}

pub fn layout_for(worktree: &FsPath, facts: &FileFacts, env: &CargoEnvironment) -> (r: CargoLayout)
    ensures
        r@ == layout_of(worktree@, facts@, *env),
{
    let config = find_config(worktree, facts);
    let (set_target, set_build): (Option<FsPath>, Option<FsPath>) = match &config {
        Some(c) => match facts.whole_manifest(c) {
            Some(m) => parse_build_paths(m.text.as_str()),
            None => (None, None),
        },
        None => (None, None),
    };
    let ghost want_target = configured(opt_path(config), facts@, "target-dir"@);
    let ghost want_build = configured(opt_path(config), facts@, "build-dir"@);
    let from_env = match &env.target_dir {
        Some(t) => Some(t),
        None => env.build_target_dir.as_ref(),
    };
    let target = match choose_path(worktree, &config, set_target, from_env, Ghost(want_target)) {
        Some(p) => p,
        None => worktree.join("target"),
    };
    let build = match choose_path(worktree, &config, set_build, env.build_dir.as_ref(), Ghost(want_build)) {
        Some(p) => p,
        None => target.copy(),
    };
    let mut notes: Vec<String> = Vec::new();
    assert(texts(notes@) =~= Seq::<Seq<char>>::empty());
    if config.is_none() {
        push_text(&mut notes, "no local Cargo config was observed");
        assert(texts(notes@) =~= seq!["no local Cargo config was observed"@]);
    }
    CargoLayout { target_dir: Some(target), build_dir: Some(build), config_path: config, notes }
}

/// An environment setting decides, whatever a configuration file says.
pub proof fn law_the_environment_decides(worktree: PathModel, facts: Seq<FactModel>, env: CargoEnvironment)
    requires
        opt_text(env.target_dir) is Some,
        is_absolute(path_of(opt_text(env.target_dir)->0)),
    ensures
        layout_of(worktree, facts, env).target_dir == Some(path_of(opt_text(env.target_dir)->0)),
{
}

} // verus!
