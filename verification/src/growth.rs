//! The keys history is kept under, and what a pass hands to it and gets back.

use crate::number::{decimal, law_numbers_read_back, lemma_decimal, parse_u64, read_u64, write_u64};
use crate::path::{paths, FsPath, PathModel};
use crate::text::{cat7, free_of, joined, law_split_undoes_join, same, split, split_text, text_from_char, texts};
use vstd::prelude::*;

verus! {

/// What the category of a unit inside a build store begins with.
pub const BUILD_STORE_CATEGORY_PREFIX: &'static str = "build-store:";

/// The character between the parts of a key.
pub open spec fn key_mark() -> Seq<char> {
    seq!['\u{1}']
}

/// The key of one external location or unit: its detector, its category, its
/// device and its path.
pub open spec fn row_key(detector_id: Seq<char>, category: Seq<char>, device: u64, path: Seq<char>) -> Seq<char> {
    detector_id + key_mark() + category + key_mark() + decimal(device as nat) + key_mark() + path
}

pub fn external_row_key(detector_id: &str, category: &str, device: u64, path: &str) -> (r: String)
    ensures
        r@ == row_key(detector_id@, category@, device, path@),
{
    let mark = text_from_char('\u{1}');
    let number = write_u64(device);
    let r = cat7(
        detector_id,
        mark.as_str(),
        category,
        mark.as_str(),
        number.as_str(),
        mark.as_str(),
        path,
    );
    assert(r@ =~= row_key(detector_id@, category@, device, path@));
    r
}

/// The parts of a key; nothing where it has too few or no device.
pub open spec fn key_parts(key: Seq<char>) -> Option<(Seq<char>, Seq<char>, u64, Seq<char>)> {
    let parts = split(key, '\u{1}');
    if parts.len() >= 4 {
        match read_u64(parts[2]) {
            Some(device) => Some((parts[0], parts[1], device, parts[3])),
            None => None,
        }
    } else {
        None
    }
}

pub fn parse_external_key(key: &str) -> (r: Option<(String, String, u64, String)>)
    ensures
        match r {
            Some(p) => key_parts(key@) == Some((p.0@, p.1@, p.2, p.3@)),
            None => key_parts(key@) is None,
        },
{
    let parts = split_text(key, '\u{1}');
    assert(texts(parts@).len() == parts@.len());
    if parts.len() < 4 {
        return None;
    }
    match parse_u64(parts[2].as_str()) {
        Some(device) => Some(
            (
                parts[0].as_str().to_owned(),
                parts[1].as_str().to_owned(),
                device,
                parts[3].as_str().to_owned(),
            ),
        ),
        None => None,
    }
}

/// A key made of parts without the mark reads back as those parts.
pub proof fn law_keys_read_back(detector_id: Seq<char>, category: Seq<char>, device: u64, path: Seq<char>)
    requires
        free_of(detector_id, '\u{1}'),
        free_of(category, '\u{1}'),
        free_of(path, '\u{1}'),
    ensures
        key_parts(row_key(detector_id, category, device, path)) == Some((detector_id, category, device, path)),
{
    let number = decimal(device as nat);
    lemma_decimal(device as nat);
    assert(free_of(number, '\u{1}')) by {
        assert forall|i: int| 0 <= i < number.len() implies #[trigger] number[i] != '\u{1}' by {
            assert(crate::number::is_digit(number[i]));
        }
    }
    let parts = seq![detector_id, category, number, path];
    let three = seq![detector_id, category, number];
    let two = seq![detector_id, category];
    let one = seq![detector_id];
    assert(parts.drop_last() =~= three);
    assert(three.drop_last() =~= two);
    assert(two.drop_last() =~= one);
    reveal_with_fuel(joined, 5);
    assert(joined(parts, key_mark()) =~= row_key(detector_id, category, device, path));
    assert forall|i: int| 0 <= i < parts.len() implies free_of(#[trigger] parts[i], '\u{1}') by {}
    law_split_undoes_join(parts, '\u{1}');
    law_numbers_read_back(device);
}

/// Which rows of history a pass may speak of.
#[derive(Debug, Clone, Copy, PartialEq, Eq, Structural)]
pub enum KeyFamily {
    External,
    BuildStore,
}

/// What a pass measured, for history.
#[derive(Debug, Clone, PartialEq, Eq)]
pub struct ObservedExternal {
    pub key: String,
    pub detector_id: String,
    pub category: String,
    pub device: u64,
    pub path: String,
    pub bytes: u64,
    pub hardlinked: bool,
}

pub struct ObservedModel {
    pub key: Seq<char>,
    pub detector_id: Seq<char>,
    pub category: Seq<char>,
    pub device: u64,
    pub path: Seq<char>,
    pub bytes: u64,
    pub hardlinked: bool,
}

impl View for ObservedExternal {
    type V = ObservedModel;

    open spec fn view(&self) -> ObservedModel {
        ObservedModel {
            key: self.key@,
            detector_id: self.detector_id@,
            category: self.category@,
            device: self.device,
            path: self.path@,
            bytes: self.bytes,
            hardlinked: self.hardlinked,
        }
    }
}

pub open spec fn observed_view(s: Seq<ObservedExternal>) -> Seq<ObservedModel> {
    Seq::new(s.len(), |i: int| s[i]@)
}

pub fn push_observed(v: &mut Vec<ObservedExternal>, o: ObservedExternal)
    ensures
        observed_view(final(v)@) == observed_view(old(v)@).push(o@),
{
    let ghost m = o@;
    v.push(o);
    assert(observed_view(v@) =~= observed_view(old(v)@).push(m));
}

/// The regions whose disappearances a pass may record: `roots`, without
/// `excluded`.
#[derive(Debug, Clone, PartialEq, Eq)]
pub struct ObservationOwnership {
    pub family: KeyFamily,
    pub roots: Vec<FsPath>,
    pub excluded: Vec<FsPath>,
}

pub struct OwnershipModel {
    pub family: KeyFamily,
    pub roots: Seq<PathModel>,
    pub excluded: Seq<PathModel>,
}

impl View for ObservationOwnership {
    type V = OwnershipModel;

    open spec fn view(&self) -> OwnershipModel {
        OwnershipModel { family: self.family, roots: paths(self.roots@), excluded: paths(self.excluded@) }
    }
}

/// What history says of one key: growth over the window, and how often it came
/// back.
#[derive(Debug, Clone, PartialEq, Eq)]
pub struct Annotation {
    pub key: String,
    pub growth_bytes: Option<i64>,
    pub regrowth_count: u32,
}

pub struct AnnotationModel {
    pub key: Seq<char>,
    pub growth_bytes: Option<i64>,
    pub regrowth_count: u32,
}

impl View for Annotation {
    type V = AnnotationModel;

    open spec fn view(&self) -> AnnotationModel {
        AnnotationModel { key: self.key@, growth_bytes: self.growth_bytes, regrowth_count: self.regrowth_count }
    }
}

pub open spec fn annotations_view(s: Seq<Annotation>) -> Seq<AnnotationModel> {
    Seq::new(s.len(), |i: int| s[i]@)
}

/// What history says of a key, from place `i` on.
pub open spec fn annotation_from(list: Seq<AnnotationModel>, key: Seq<char>, i: int) -> Option<(Option<i64>, u32)>
    decreases list.len() - i,
{
    if i < 0 || i >= list.len() {
        None
    } else if list[i].key == key {
        Some((list[i].growth_bytes, list[i].regrowth_count))
    } else {
        annotation_from(list, key, i + 1)
    }
}

pub fn find_annotation(list: &Vec<Annotation>, key: &str) -> (r: Option<(Option<i64>, u32)>)
    ensures
        r == annotation_from(annotations_view(list@), key@, 0),
{
    let ghost all = annotations_view(list@);
    let mut i: usize = 0;
    while i < list.len()
        invariant
            i <= list@.len(),
            all == annotations_view(list@),
            annotation_from(all, key@, 0) == annotation_from(all, key@, i as int),
        decreases list@.len() - i,
    {
        assert(all[i as int] == list@[i as int]@);
        if same(list[i].key.as_str(), key) {
            return Some((list[i].growth_bytes, list[i].regrowth_count));
        }
        i += 1;
    }
    None
}

} // verus!
