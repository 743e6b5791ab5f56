//! Small readers the adapters share: property files, header files, and the
//! shapes of versions and of names that carry one.
//!
//! How much of each format is read, and which shapes count as a version, is this
//! library's own choice: enough to name what a directory holds, and no more.

use crate::number::{char_is_digit, is_digit};
use crate::text::{
    chars_of, cut_first, cut_last, lines, opt_text, pair_text, same, split_first, split_last, split_lines, texts, trim,
    trimmed,
};
use vstd::prelude::*;

verus! {

/// The key and value a line of a property file sets: `key=value`, trimmed.
/// Blank lines, comments and section heads set nothing.
pub open spec fn property_line(line: Seq<char>) -> Option<(Seq<char>, Seq<char>)> {
    let l = trimmed(line);
    if l.len() == 0 || l[0] == '#' || l[0] == '!' || l[0] == ';' || l[0] == '[' {
        None
    } else {
        match cut_first(l, '=') {
            Some((k, v)) => Some((trimmed(k), trimmed(v))),
            None => None,
        }
    }
}

/// What the first `n` lines set `key` to: the last of them that sets it.
pub open spec fn property_among(ls: Seq<Seq<char>>, key: Seq<char>, n: int) -> Option<Seq<char>>
    decreases n,
{
    if n <= 0 {
        None
    } else {
        match property_line(ls[n - 1]) {
            Some((k, v)) => if k == key {
                Some(v)
            } else {
                property_among(ls, key, n - 1)
            },
            None => property_among(ls, key, n - 1),
        }
    }
}

/// What a property file sets `key` to.
pub open spec fn property_of(text: Seq<char>, key: Seq<char>) -> Option<Seq<char>> {
    property_among(lines(text), key, lines(text).len() as int)
}

fn read_property_line(line: &str) -> (r: Option<(String, String)>)
    ensures
        pair_text(r) == property_line(line@),
{
    let l = trim(line);
    let v = chars_of(l.as_str());
    if v.len() == 0 || v[0] == '#' || v[0] == '!' || v[0] == ';' || v[0] == '[' {
        None
    } else {
        match split_first(l.as_str(), '=') {
            Some(p) => Some((trim(p.0.as_str()), trim(p.1.as_str()))),
            None => None,
        }
    }
}

pub fn property(text: &str, key: &str) -> (r: Option<String>)
    ensures
        opt_text(r) == property_of(text@, key@),
{
    let ls = split_lines(text);
    let mut n: usize = ls.len();
    while n > 0
        invariant
            n <= ls@.len(),
            texts(ls@) == lines(text@),
            property_of(text@, key@) == property_among(lines(text@), key@, n as int),
        decreases n,
    {
        assert(lines(text@)[n - 1] == ls@[n - 1]@);
        match read_property_line(ls[n - 1].as_str()) {
            Some(p) => {
                if same(p.0.as_str(), key) {
                    return Some(p.1);
                }
            },
            None => {},
        }
        n -= 1;
    }
    None
}

/// The value of the first header line `key: value`, from place `i` on. A blank
/// line ends the headers.
pub open spec fn header_from(ls: Seq<Seq<char>>, key: Seq<char>, i: int) -> Option<Seq<char>>
    decreases ls.len() - i,
{
    if i < 0 || i >= ls.len() || trimmed(ls[i]).len() == 0 {
        None
    } else {
        match cut_first(ls[i], ':') {
            Some((k, v)) => if trimmed(k) == key {
                Some(trimmed(v))
            } else {
                header_from(ls, key, i + 1)
            },
            None => header_from(ls, key, i + 1),
        }
    }
}

/// The value of a header of a metadata file.
pub open spec fn header_of(text: Seq<char>, key: Seq<char>) -> Option<Seq<char>> {
    header_from(lines(text), key, 0)
}

pub fn header(text: &str, key: &str) -> (r: Option<String>)
    ensures
        opt_text(r) == header_of(text@, key@),
{
    let ls = split_lines(text);
    let mut i: usize = 0;
    while i < ls.len()
        invariant
            i <= ls@.len(),
            texts(ls@) == lines(text@),
            header_of(text@, key@) == header_from(lines(text@), key@, i as int),
        decreases ls@.len() - i,
    {
        let l = ls[i].as_str();
        assert(lines(text@)[i as int] == l@);
        if trim(l).as_str().is_empty() {
            return None;
        }
        match split_first(l, ':') {
            Some(p) => {
                let k = trim(p.0.as_str());
                if same(k.as_str(), key) {
                    return Some(trim(p.1.as_str()));
                }
            },
            None => {},
        }
        i += 1;
    }
    None
}

/// Whether a text has the shape of a version: it begins with a digit, with or
/// without a `v` before it.
pub open spec fn is_versionish(s: Seq<char>) -> bool {
    ||| s.len() > 0 && is_digit(s[0])
    ||| s.len() > 1 && s[0] == 'v' && is_digit(s[1])
}

pub fn versionish(s: &str) -> (r: bool)
    ensures
        r == is_versionish(s@),
{
    let v = chars_of(s);
    (v.len() > 0 && char_is_digit(v[0])) || (v.len() > 1 && v[0] == 'v' && char_is_digit(v[1]))
}

/// The name and version of `<name>-<version>`, split at the last dash.
pub open spec fn name_and_version(s: Seq<char>) -> Option<(Seq<char>, Seq<char>)> {
    match cut_last(s, '-') {
        Some((n, v)) => if n.len() > 0 && is_versionish(v) {
            Some((n, v))
        } else {
            None
        },
        None => None,
    }
}

pub fn split_name_version(s: &str) -> (r: Option<(String, String)>)
    ensures
        pair_text(r) == name_and_version(s@),
{
    match split_last(s, '-') {
        Some(p) => if !p.0.as_str().is_empty() && versionish(p.1.as_str()) {
            Some(p)
        } else {
            None
        },
        None => None,
    }
}

} // verus!
