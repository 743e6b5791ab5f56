//! TOML values as the library reads them.

use crate::text::{opt_text, same};
use vstd::prelude::*;

verus! {

/// A TOML value. Numbers, booleans and times are told apart from texts and no
/// further.
#[derive(Debug)]
pub enum TomlNode {
    Text(String),
    Scalar,
    Array(Vec<TomlNode>),
    Table(Vec<TomlMember>),
}

/// One member of a TOML table.
#[derive(Debug)]
pub struct TomlMember {
    pub key: String,
    pub node: TomlNode,
}

/// A TOML value as plain values.
pub enum TomlModel {
    Text(Seq<char>),
    Scalar,
    Array(Seq<TomlModel>),
    Table(Seq<(Seq<char>, TomlModel)>),
}

pub open spec fn toml_model(n: TomlNode) -> TomlModel
    decreases n,
{
    match n {
        TomlNode::Text(s) => TomlModel::Text(s@),
        TomlNode::Scalar => TomlModel::Scalar,
        TomlNode::Array(v) => TomlModel::Array(toml_models(v@)),
        TomlNode::Table(m) => TomlModel::Table(member_models(m@)),
    }
}

pub open spec fn toml_models(s: Seq<TomlNode>) -> Seq<TomlModel>
    decreases s,
{
    if s.len() == 0 {
        Seq::empty()
    } else {
        toml_models(s.drop_last()).push(toml_model(s.last()))
    }
}

pub open spec fn member_models(s: Seq<TomlMember>) -> Seq<(Seq<char>, TomlModel)>
    decreases s,
{
    if s.len() == 0 {
        Seq::empty()
    } else {
        member_models(s.drop_last()).push((s.last().key@, toml_model(s.last().node)))
    }
}

impl View for TomlNode {
    type V = TomlModel;

    open spec fn view(&self) -> TomlModel {
        toml_model(*self)
    }
}

proof fn lemma_member_models(s: Seq<TomlMember>)
    ensures
        member_models(s).len() == s.len(),
        forall|i: int| 0 <= i < s.len() ==> #[trigger] member_models(s)[i] == (s[i].key@, s[i].node@),
    decreases s.len(),
{
    if s.len() > 0 {
        lemma_member_models(s.drop_last());
        assert forall|i: int| 0 <= i < s.len() implies #[trigger] member_models(s)[i] == (s[i].key@, s[i].node@) by {
            if i < s.len() - 1 {
                assert(s.drop_last()[i] == s[i]);
                assert(member_models(s)[i] == member_models(s.drop_last())[i]);
            }
        }
    }
}

/// The document that `toml` reads a text as; nothing when it is no TOML.
pub uninterp spec fn parsed_toml(text: Seq<char>) -> Option<TomlModel>;

/// `toml::Value`, carried but never looked into.
#[verifier::external_type_specification]
#[verifier::external_body]
pub struct ExTomlValue(toml::Value);

pub open spec fn read_as(o: Option<TomlNode>) -> Option<TomlModel> {
    match o {
        Some(n) => Some(n@),
        None => None,
    }
}

/// `str::parse::<toml::Value>`, the document turned into a [`TomlNode`] one for
/// one. What a text reads as is a function of the text alone; which texts are
/// TOML and what they read as is left to that name.
#[verifier::external_body]
pub(crate) fn parse_toml(text: &str) -> (r: Option<TomlNode>)
    ensures
        read_as(r) == parsed_toml(text@),
{
    match text.parse::<toml::Value>() {
        Ok(v) => Some(node_of(v)),
        Err(_) => None,
    }
}

/// One `toml::Value` as a [`TomlNode`], variant by variant. Nothing is claimed
/// of it.
#[verifier::external_body]
fn node_of(v: toml::Value) -> TomlNode {
    match v {
        toml::Value::String(s) => TomlNode::Text(s),
        toml::Value::Integer(_) => TomlNode::Scalar,
        toml::Value::Float(_) => TomlNode::Scalar,
        toml::Value::Boolean(_) => TomlNode::Scalar,
        toml::Value::Datetime(_) => TomlNode::Scalar,
        toml::Value::Array(a) => TomlNode::Array(a.into_iter().map(node_of).collect()),
        toml::Value::Table(t) => TomlNode::Table(
            t.into_iter().map(|(key, x)| TomlMember { key, node: node_of(x) }).collect(),
        ),
    }
}

/// The member of a table with this key, from place `i` on.
pub open spec fn member_from(members: Seq<(Seq<char>, TomlModel)>, key: Seq<char>, i: int) -> Option<TomlModel>
    decreases members.len() - i,
{
    if i < 0 || i >= members.len() {
        None
    } else if members[i].0 == key {
        Some(members[i].1)
    } else {
        member_from(members, key, i + 1)
    }
}

pub open spec fn opt_toml(o: Option<&TomlNode>) -> Option<TomlModel> {
    match o {
        Some(n) => Some(n@),
        None => None,
    }
}

impl TomlModel {
    /// What a table holds under a key; nothing of any other value.
    pub open spec fn get(self, key: Seq<char>) -> Option<TomlModel> {
        match self {
            TomlModel::Table(members) => member_from(members, key, 0),
            _ => None,
        }
    }

    pub open spec fn text(self) -> Option<Seq<char>> {
        match self {
            TomlModel::Text(s) => Some(s),
            _ => None,
        }
    }
}

fn find_member<'a>(members: &'a Vec<TomlMember>, key: &str) -> (r: Option<&'a TomlNode>)
    ensures
        opt_toml(r) == member_from(member_models(members@), key@, 0),
{
    let ghost all = member_models(members@);
    proof {
        lemma_member_models(members@);
    }
    let mut i: usize = 0;
    while i < members.len()
        invariant
            i <= members@.len(),
            all == member_models(members@),
            all.len() == members@.len(),
            forall|k: int| 0 <= k < members@.len() ==> #[trigger] all[k] == (members@[k].key@, members@[k].node@),
            member_from(all, key@, 0) == member_from(all, key@, i as int),
        decreases members@.len() - i,
    {
        assert(all[i as int] == (members@[i as int].key@, members@[i as int].node@));
        if same(members[i].key.as_str(), key) {
            return Some(&members[i].node);
        }
        i += 1;
    }
    None
}

impl TomlNode {
    pub fn get(&self, key: &str) -> (r: Option<&TomlNode>)
        ensures
            opt_toml(r) == self@.get(key@),
    {
        match self {
            TomlNode::Table(members) => find_member(members, key),
            _ => None,
        }
    }

    pub fn text(&self) -> (r: Option<String>)
        ensures
            opt_text(r) == self@.text(),
    {
        match self {
            TomlNode::Text(s) => Some(s.as_str().to_owned()),
            _ => None,
        }
    }
}

} // verus!
