//! What the JVM build tools share: the conventional build layout and module
//! coordinates.
//!
//! Which entries count as conventional, and what is said of each, is this
//! library's own choice: no build tool publishes such a list.

use super::adapter::{views, KnownPart, PartModel};
use crate::artifact::ArtifactRole;
use crate::text::{cat3, cat5, opt_text, split, split_text, texts};
use vstd::prelude::*;

verus! {

/// The conventional entries of a Gradle build directory.
pub open spec fn gradle_build_entries_spec() -> Seq<PartModel> {
    seq![
        PartModel {
            name: "classes"@,
            role: ArtifactRole::Output,
            what: "compiled classes"@,
            consequence: "the next build compiles them again"@,
        },
        PartModel {
            name: "libs"@,
            role: ArtifactRole::Output,
            what: "packaged archives"@,
            consequence: "the next build packages them again"@,
        },
        PartModel {
            name: "tmp"@,
            role: ArtifactRole::Intermediate,
            what: "temporary task files"@,
            consequence: "the next build writes them again (a slower build)"@,
        },
        PartModel {
            name: "reports"@,
            role: ArtifactRole::TestOutput,
            what: "reports"@,
            consequence: "the next check run regenerates them"@,
        },
        PartModel {
            name: "test-results"@,
            role: ArtifactRole::TestOutput,
            what: "test results"@,
            consequence: "the next test run regenerates them"@,
        },
        PartModel {
            name: "generated"@,
            role: ArtifactRole::Output,
            what: "generated sources"@,
            consequence: "the next build generates them again"@,
        },
        PartModel {
            name: "intermediates"@,
            role: ArtifactRole::Intermediate,
            what: "intermediates"@,
            consequence: "the next build regenerates them (a slower build)"@,
        },
    ]
}

pub fn gradle_build_entries() -> (r: Vec<KnownPart>)
    ensures
        views(r@) == gradle_build_entries_spec(),
{
    let r: Vec<KnownPart> = vec![
        KnownPart {
            name: "classes",
            role: ArtifactRole::Output,
            what: "compiled classes",
            consequence: "the next build compiles them again",
        },
        KnownPart {
            name: "libs",
            role: ArtifactRole::Output,
            what: "packaged archives",
            consequence: "the next build packages them again",
        },
        KnownPart {
            name: "tmp",
            role: ArtifactRole::Intermediate,
            what: "temporary task files",
            consequence: "the next build writes them again (a slower build)",
        },
        KnownPart {
            name: "reports",
            role: ArtifactRole::TestOutput,
            what: "reports",
            consequence: "the next check run regenerates them",
        },
        KnownPart {
            name: "test-results",
            role: ArtifactRole::TestOutput,
            what: "test results",
            consequence: "the next test run regenerates them",
        },
        KnownPart {
            name: "generated",
            role: ArtifactRole::Output,
            what: "generated sources",
            consequence: "the next build generates them again",
        },
        KnownPart {
            name: "intermediates",
            role: ArtifactRole::Intermediate,
            what: "intermediates",
            consequence: "the next build regenerates them (a slower build)",
        },
    ];
    assert(views(r@) =~= gradle_build_entries_spec());
    r
}

/// Module coordinates, as far as a path names them.
pub struct Coordinates {
    pub group: String,
    pub artifact: String,
    pub version: Option<String>,
}

pub struct CoordinatesModel {
    pub group: Seq<char>,
    pub artifact: Seq<char>,
    pub version: Option<Seq<char>>,
}

impl View for Coordinates {
    type V = CoordinatesModel;

    open spec fn view(&self) -> CoordinatesModel {
        CoordinatesModel {
            group: self.group@,
            artifact: self.artifact@,
            version: opt_text(self.version),
        }
    }
}

impl CoordinatesModel {
    pub open spec fn shown(self) -> Seq<char> {
        match self.version {
            Some(v) => self.group + ":"@ + self.artifact + ":"@ + v,
            None => self.group + ":"@ + self.artifact,
        }
    }
}

/// The coordinates of `<group>/<artifact>` or `<group>/<artifact>/<version>`.
pub open spec fn coordinates_of(rel: Seq<char>) -> Option<CoordinatesModel> {
    let p = split(rel, '/');
    if p.len() == 2 && p[0].len() > 0 && p[1].len() > 0 {
        Some(CoordinatesModel { group: p[0], artifact: p[1], version: None })
    } else if p.len() == 3 && p[0].len() > 0 && p[1].len() > 0 && p[2].len() > 0 {
        Some(CoordinatesModel { group: p[0], artifact: p[1], version: Some(p[2]) })
    } else {
        None
    }
}

pub open spec fn opt_coordinates(o: Option<Coordinates>) -> Option<CoordinatesModel> {
    match o {
        Some(c) => Some(c@),
        None => None,
    }
}

pub fn coordinates_from_relative(rel: &str) -> (r: Option<Coordinates>)
    ensures
        opt_coordinates(r) == coordinates_of(rel@),
{
    let p = split_text(rel, '/');
    let ghost pieces = split(rel@, '/');
    assert(forall|i: int| 0 <= i < p@.len() ==> pieces[i] == #[trigger] p@[i]@) by {
        assert(pieces == texts(p@));
    }
    assert(pieces.len() == p@.len());
    if p.len() == 2 && !p[0].as_str().is_empty() && !p[1].as_str().is_empty() {
        Some(Coordinates { group: p[0].clone(), artifact: p[1].clone(), version: None })
    } else if p.len() == 3 && !p[0].as_str().is_empty() && !p[1].as_str().is_empty() && !p[2].as_str().is_empty() {
        Some(Coordinates { group: p[0].clone(), artifact: p[1].clone(), version: Some(p[2].clone()) })
    } else {
        None
    }
}

impl Coordinates {
    pub fn display(&self) -> (r: String)
        ensures
            r@ == self@.shown(),
    {
        match &self.version {
            Some(v) => cat5(self.group.as_str(), ":", self.artifact.as_str(), ":", v.as_str()),
            None => cat3(self.group.as_str(), ":", self.artifact.as_str()),
        }
    }
}

} // verus!
