//! Which configuration applies to a worktree, and what it is built to.

use super::layout::{layout_of, nearest_config, CargoEnvironment};
use crate::detectors::above;
use crate::facts::{fact_of, FactModel};
use crate::path::{
    is_absolute, join, joined_path, lemma_parent_parts, parent, path_of, PathModel,
};
use crate::text::opt_text;
use vstd::prelude::*;

verus! {

pub open spec fn is_file_there(facts: Seq<FactModel>, path: PathModel) -> bool {
    fact_of(facts, path) is Some && fact_of(facts, path)->0.is_file
}

/// Whether a path is one of a directory's own configuration files.
pub open spec fn is_config_of(dir: PathModel, name: Seq<char>, path: PathModel) -> bool {
    path == joined_path(joined_path(dir, ".cargo"@), name)
}

/// Whether a directory has a configuration file of its own.
pub open spec fn has_config(dir: PathModel, facts: Seq<FactModel>) -> bool {
    ||| is_file_there(facts, joined_path(joined_path(dir, ".cargo"@), "config"@))
    ||| is_file_there(facts, joined_path(joined_path(dir, ".cargo"@), "config.toml"@))
}

/// The configuration that applies is that of the nearest directory that has one,
/// the directory itself or one above it; of its two files, the one without an
/// ending.
pub proof fn law_the_nearest_configuration_applies(dir: PathModel, facts: Seq<FactModel>) -> (up: nat)
    ensures
        nearest_config(dir, facts) matches Some(c) ==> {
            &&& above(dir, up) is Some
            &&& is_file_there(facts, c)
            &&& is_config_of(above(dir, up)->0, "config"@, c) || (is_config_of(above(dir, up)->0, "config.toml"@, c)
                && !is_file_there(facts, joined_path(joined_path(above(dir, up)->0, ".cargo"@), "config"@)))
            &&& forall|j: nat| j < up ==> above(dir, j) is Some && !has_config(#[trigger] above(dir, j)->0, facts)
        },
        nearest_config(dir, facts) is None ==> forall|j: nat|
            above(dir, j) is Some ==> !has_config(#[trigger] above(dir, j)->0, facts),
    decreases dir.len(),
{
    if has_config(dir, facts) {
        0
    } else {
        match parent(dir) {
            Some(p) => {
                lemma_parent_parts(dir);
                let k = law_the_nearest_configuration_applies(p, facts);
                let up: nat = k + 1;
                assert(above(dir, up) == above(p, k));
                assert forall|j: nat| 0 < j implies above(dir, j) == #[trigger] above(p, (j - 1) as nat) by {}
                assert(above(dir, 0) == Some(dir));
                if nearest_config(dir, facts) is Some {
                    assert forall|j: nat| j < up implies above(dir, j) is Some && !has_config(
                        #[trigger] above(dir, j)->0,
                        facts,
                    ) by {
                        if j > 0 {
                            assert(above(dir, j) == above(p, (j - 1) as nat));
                            assert(!has_config(above(p, (j - 1) as nat)->0, facts));
                        }
                    }
                } else {
                    assert forall|j: nat| above(dir, j) is Some implies !has_config(
                        #[trigger] above(dir, j)->0,
                        facts,
                    ) by {
                        if j > 0 {
                            assert(above(dir, j) == above(p, (j - 1) as nat));
                            assert(!has_config(above(p, (j - 1) as nat)->0, facts));
                        }
                    }
                }
                up
            },
            None => {
                assert forall|j: nat| above(dir, j) is Some implies !has_config(#[trigger] above(dir, j)->0, facts) by {
                    if j > 0 {
                        assert(above(dir, j) is None);
                    }
                }
                0
            },
        }
    }
}

/// A path from the environment, a relative one from the worktree.
pub open spec fn from_worktree(worktree: PathModel, p: PathModel) -> PathModel {
    if is_absolute(p) {
        p
    } else {
        join(worktree, p)
    }
}

/// What the environment says decides, the plain variable before the other one;
/// where neither it nor a configuration says anything, targets go to the
/// worktree's `target`, and build files to where targets go.
pub proof fn law_where_cargo_builds_to(worktree: PathModel, facts: Seq<FactModel>, env: CargoEnvironment)
    ensures
        opt_text(env.target_dir) matches Some(t) ==> layout_of(worktree, facts, env).target_dir == Some(
            from_worktree(worktree, path_of(t)),
        ),
        opt_text(env.target_dir) is None ==> (opt_text(env.build_target_dir) matches Some(t) ==> layout_of(
            worktree,
            facts,
            env,
        ).target_dir == Some(from_worktree(worktree, path_of(t)))),
        opt_text(env.build_dir) matches Some(t) ==> layout_of(worktree, facts, env).build_dir == Some(
            from_worktree(worktree, path_of(t)),
        ),
        nearest_config(worktree, facts) is None && opt_text(env.target_dir) is None && opt_text(env.build_target_dir)
            is None ==> layout_of(worktree, facts, env).target_dir == Some(joined_path(worktree, "target"@)),
        nearest_config(worktree, facts) is None && opt_text(env.build_dir) is None ==> layout_of(
            worktree,
            facts,
            env,
        ).build_dir == layout_of(worktree, facts, env).target_dir,
        nearest_config(worktree, facts) == layout_of(worktree, facts, env).config_path,
        nearest_config(worktree, facts) is None <==> layout_of(worktree, facts, env).notes.len() > 0,
{
}

} // verus!
