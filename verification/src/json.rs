//! JSON values as the library reads them.

use crate::text::{same, texts};
use vstd::prelude::*;

verus! {

/// A JSON value, beside the compact text it is written as.
#[derive(Debug)]
pub struct JsonNode {
    pub text: String,
    pub value: JsonValue,
}

#[derive(Debug)]
pub enum JsonValue {
    Null,
    Bool(bool),
    Number,
    Text(String),
    Array(Vec<JsonNode>),
    Object(Vec<JsonMember>),
}

/// One member of a JSON object.
#[derive(Debug)]
pub struct JsonMember {
    pub key: String,
    pub node: JsonNode,
}

/// A JSON value as plain values.
pub struct JsonModel {
    pub text: Seq<char>,
    pub value: JsonKind,
}

pub enum JsonKind {
    Null,
    Bool(bool),
    Number,
    Text(Seq<char>),
    Array(Seq<JsonModel>),
    Object(Seq<(Seq<char>, JsonModel)>),
}

pub open spec fn json_model(n: JsonNode) -> JsonModel
    decreases n,
{
    JsonModel {
        text: n.text@,
        value: match n.value {
            JsonValue::Null => JsonKind::Null,
            JsonValue::Bool(b) => JsonKind::Bool(b),
            JsonValue::Number => JsonKind::Number,
            JsonValue::Text(s) => JsonKind::Text(s@),
            JsonValue::Array(v) => JsonKind::Array(json_models(v@)),
            JsonValue::Object(m) => JsonKind::Object(member_models(m@)),
        },
    }
}

pub open spec fn json_models(s: Seq<JsonNode>) -> Seq<JsonModel>
    decreases s,
{
    if s.len() == 0 {
        Seq::empty()
    } else {
        json_models(s.drop_last()).push(json_model(s.last()))
    }
}

pub open spec fn member_models(s: Seq<JsonMember>) -> Seq<(Seq<char>, JsonModel)>
    decreases s,
{
    if s.len() == 0 {
        Seq::empty()
    } else {
        member_models(s.drop_last()).push((s.last().key@, json_model(s.last().node)))
    }
}

impl View for JsonNode {
    type V = JsonModel;

    open spec fn view(&self) -> JsonModel {
        json_model(*self)
    }
}

pub proof fn lemma_json_models(s: Seq<JsonNode>)
    ensures
        json_models(s).len() == s.len(),
        forall|i: int| 0 <= i < s.len() ==> #[trigger] json_models(s)[i] == s[i]@,
    decreases s.len(),
{
    if s.len() > 0 {
        lemma_json_models(s.drop_last());
        assert forall|i: int| 0 <= i < s.len() implies #[trigger] json_models(s)[i] == s[i]@ by {
            if i < s.len() - 1 {
                assert(s.drop_last()[i] == s[i]);
                assert(json_models(s)[i] == json_models(s.drop_last())[i]);
            }
        }
    }
}

pub proof fn lemma_member_models(s: Seq<JsonMember>)
    ensures
        member_models(s).len() == s.len(),
        forall|i: int| 0 <= i < s.len() ==> #[trigger] member_models(s)[i] == (s[i].key@, s[i].node@),
    decreases s.len(),
{
    if s.len() > 0 {
        lemma_member_models(s.drop_last());
        assert forall|i: int| 0 <= i < s.len() implies #[trigger] member_models(s)[i] == (s[i].key@, s[i].node@) by {
            if i < s.len() - 1 {
                assert(s.drop_last()[i] == s[i]);
                assert(member_models(s)[i] == member_models(s.drop_last())[i]);
            }
        }
    }
}

/// The value that `serde_json` reads a text as, each value in it beside the
/// compact text that it is written as; nothing when the text is no JSON.
pub uninterp spec fn parsed_json(text: Seq<char>) -> Option<JsonModel>;

/// `serde_json::Value`, carried but never looked into.
#[verifier::external_type_specification]
#[verifier::external_body]
pub struct ExJsonValue(serde_json::Value);

pub open spec fn read_as(o: Option<JsonNode>) -> Option<JsonModel> {
    match o {
        Some(n) => Some(n@),
        None => None,
    }
}

/// `serde_json::from_str`, the value turned into a [`JsonNode`] one for one.
/// What a text reads as is a function of the text alone; which texts are JSON
/// and what they read as is left to that name.
#[verifier::external_body]
pub(crate) fn parse_json(text: &str) -> (r: Option<JsonNode>)
    ensures
        read_as(r) == parsed_json(text@),
{
    match serde_json::from_str::<serde_json::Value>(text) {
        Ok(v) => Some(node_of(v)),
        Err(_) => None,
    }
}

/// One `serde_json::Value` as a [`JsonNode`], variant by variant, beside the
/// text its `to_string` writes. Nothing is claimed of it.
#[verifier::external_body]
fn node_of(v: serde_json::Value) -> JsonNode {
    let text = v.to_string();
    let value = match v {
        serde_json::Value::Null => JsonValue::Null,
        serde_json::Value::Bool(b) => JsonValue::Bool(b),
        serde_json::Value::Number(_) => JsonValue::Number,
        serde_json::Value::String(s) => JsonValue::Text(s),
        serde_json::Value::Array(a) => JsonValue::Array(a.into_iter().map(node_of).collect()),
        serde_json::Value::Object(m) => JsonValue::Object(
            m.into_iter().map(|(key, x)| JsonMember { key, node: node_of(x) }).collect(),
        ),
    };
    JsonNode { text, value }
}

/// The member of an object with this key, from place `i` on.
pub open spec fn member_from(members: Seq<(Seq<char>, JsonModel)>, key: Seq<char>, i: int) -> Option<JsonModel>
    decreases members.len() - i,
{
    if i < 0 || i >= members.len() {
        None
    } else if members[i].0 == key {
        Some(members[i].1)
    } else {
        member_from(members, key, i + 1)
    }
}

pub open spec fn opt_node(o: Option<&JsonNode>) -> Option<JsonModel> {
    match o {
        Some(n) => Some(n@),
        None => None,
    }
}

impl JsonModel {
    /// What an object holds under a key; nothing of any other value.
    pub open spec fn get(self, key: Seq<char>) -> Option<JsonModel> {
        match self.value {
            JsonKind::Object(members) => member_from(members, key, 0),
            _ => None,
        }
    }

    pub open spec fn as_text(self) -> Option<Seq<char>> {
        match self.value {
            JsonKind::Text(s) => Some(s),
            _ => None,
        }
    }

    pub open spec fn as_list(self) -> Option<Seq<JsonModel>> {
        match self.value {
            JsonKind::Array(v) => Some(v),
            _ => None,
        }
    }
}

/// The texts of an array, everything else in it passed over.
pub open spec fn texts_in(list: Seq<JsonModel>, n: int) -> Seq<Seq<char>>
    decreases n,
{
    if n <= 0 {
        Seq::empty()
    } else {
        match list[n - 1].as_text() {
            Some(t) => texts_in(list, n - 1).push(t),
            None => texts_in(list, n - 1),
        }
    }
}

impl JsonNode {
    pub fn get(&self, key: &str) -> (r: Option<&JsonNode>)
        ensures
            opt_node(r) == self@.get(key@),
    {
        match &self.value {
            JsonValue::Object(members) => find_member(members, key),
            _ => None,
        }
    }

    pub fn as_text(&self) -> (r: Option<&str>)
        ensures
            opt_str(r) == self@.as_text(),
    {
        match &self.value {
            JsonValue::Text(s) => Some(s.as_str()),
            _ => None,
        }
    }

    pub fn as_list(&self) -> (r: Option<&Vec<JsonNode>>)
        ensures
            match r {
                Some(v) => self@.as_list() == Some(json_models(v@)),
                None => self@.as_list() is None,
            },
    {
        match &self.value {
            JsonValue::Array(v) => Some(v),
            _ => None,
        }
    }
}

pub open spec fn opt_str(o: Option<&str>) -> Option<Seq<char>> {
    match o {
        Some(s) => Some(s@),
        None => None,
    }
}

fn find_member<'a>(members: &'a Vec<JsonMember>, key: &str) -> (r: Option<&'a JsonNode>)
    ensures
        opt_node(r) == member_from(member_models(members@), key@, 0),
{
    let ghost all = member_models(members@);
    proof {
        lemma_member_models(members@);
    }
    let mut i: usize = 0;
    while i < members.len()
        invariant
            i <= members@.len(),
            all == member_models(members@),
            all.len() == members@.len(),
            forall|k: int| 0 <= k < members@.len() ==> #[trigger] all[k] == (members@[k].key@, members@[k].node@),
            member_from(all, key@, 0) == member_from(all, key@, i as int),
        decreases members@.len() - i,
    {
        assert(all[i as int] == (members@[i as int].key@, members@[i as int].node@));
        if same(members[i].key.as_str(), key) {
            return Some(&members[i].node);
        }
        i += 1;
    }
    None
}

/// What is under `outer`, and there under `inner`.
pub open spec fn get2(n: JsonModel, outer: Seq<char>, inner: Seq<char>) -> Option<JsonModel> {
    match n.get(outer) {
        Some(m) => m.get(inner),
        None => None,
    }
}

pub fn get_nested<'a>(n: &'a JsonNode, outer: &str, inner: &str) -> (r: Option<&'a JsonNode>)
    ensures
        opt_node(r) == get2(n@, outer@, inner@),
{
    match n.get(outer) {
        Some(m) => m.get(inner),
        None => None,
    }
}

pub open spec fn text_under(n: Option<JsonModel>) -> Option<Seq<char>> {
    match n {
        Some(m) => m.as_text(),
        None => None,
    }
}

/// The text a found value is.
pub fn text_of_node(n: Option<&JsonNode>) -> (r: Option<String>)
    ensures
        crate::text::opt_text(r) == text_under(opt_node(n)),
{
    match n {
        Some(m) => match m.as_text() {
            Some(s) => Some(s.to_owned()),
            None => None,
        },
        None => None,
    }
}

/// The texts of an array, everything else in it passed over.
pub fn text_items(list: &Vec<JsonNode>) -> (r: Vec<String>)
    ensures
        texts(r@) == texts_in(json_models(list@), list@.len() as int),
{
    let ghost all = json_models(list@);
    proof {
        lemma_json_models(list@);
    }
    let mut out: Vec<String> = Vec::new();
    let mut i: usize = 0;
    assert(texts(out@) =~= texts_in(all, 0));
    while i < list.len()
        invariant
            i <= list@.len(),
            all == json_models(list@),
            forall|k: int| 0 <= k < list@.len() ==> #[trigger] all[k] == list@[k]@,
            texts(out@) == texts_in(all, i as int),
        decreases list@.len() - i,
    {
        assert(all[i as int] == list@[i as int]@);
        match list[i].as_text() {
            Some(s) => {
                crate::text::push_text(&mut out, s);
            },
            None => {},
        }
        i += 1;
    }
    out
}

} // verus!
