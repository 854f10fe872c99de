//! JSON documents as plain trees; reading and writing of JSON text is
//! delegated to `serde_json`.

use crate::text::{chars_equal, chars_of};
use serde_json::Value;
use vstd::prelude::*;

verus! {

/// A JSON number.
#[derive(Debug, Clone, PartialEq, Eq)]
pub enum JsonNumber {
    /// An integer in the range of `i64`.
    Int(i64),
    /// An integer above the range of `i64`.
    Big(u64),
    /// Any other number, by its decimal text.
    Real(String),
}

/// Mathematical model of a [`JsonNumber`].
pub enum JsonNumberView {
    Int(i64),
    Big(u64),
    Real(Seq<char>),
}

impl DeepView for JsonNumber {
    type V = JsonNumberView;

    open spec fn deep_view(&self) -> JsonNumberView {
        match self {
            JsonNumber::Int(i) => JsonNumberView::Int(*i),
            JsonNumber::Big(u) => JsonNumberView::Big(*u),
            JsonNumber::Real(text) => JsonNumberView::Real(text@),
        }
    }
}

/// A JSON document.
#[derive(Debug, PartialEq, Eq)]
pub enum JsonValue {
    Null,
    Bool(bool),
    Number(JsonNumber),
    String(String),
    Array(Vec<JsonValue>),
    /// The members of an object, each a name and a value, in the order in
    /// which they are kept. A document that was read has no name twice;
    /// where one is built with a name twice, the last member of the name is
    /// the one that counts.
    Object(Vec<(String, JsonValue)>),
}

/// Mathematical model of a [`JsonValue`].
pub enum JsonTree {
    Null,
    Bool(bool),
    Number(JsonNumberView),
    String(Seq<char>),
    Array(Seq<JsonTree>),
    Object(Seq<(Seq<char>, JsonTree)>),
}

/// The model of a document.
pub open spec fn tree_of(value: JsonValue) -> JsonTree
    decreases value,
{
    match value {
        JsonValue::Null => JsonTree::Null,
        JsonValue::Bool(b) => JsonTree::Bool(b),
        JsonValue::Number(n) => JsonTree::Number(n.deep_view()),
        JsonValue::String(s) => JsonTree::String(s@),
        JsonValue::Array(items) => JsonTree::Array(trees_of(items@)),
        JsonValue::Object(members) => JsonTree::Object(members_of(members@)),
    }
}

/// The models of a list of documents.
pub open spec fn trees_of(items: Seq<JsonValue>) -> Seq<JsonTree>
    decreases items,
{
    if items.len() == 0 {
        Seq::empty()
    } else {
        trees_of(items.drop_last()).push(tree_of(items.last()))
    }
}

/// The models of the members of an object.
pub open spec fn members_of(members: Seq<(String, JsonValue)>) -> Seq<(Seq<char>, JsonTree)>
    decreases members,
{
    if members.len() == 0 {
        Seq::empty()
    } else {
        members_of(members.drop_last()).push((members.last().0@, tree_of(members.last().1)))
    }
}

impl DeepView for JsonValue {
    type V = JsonTree;

    open spec fn deep_view(&self) -> JsonTree {
        tree_of(*self)
    }
}

/// The model of a list holds the model of each item, in order.
pub proof fn lemma_trees_of(items: Seq<JsonValue>)
    ensures
        trees_of(items).len() == items.len(),
        forall|i: int| 0 <= i < items.len() ==> #[trigger] trees_of(items)[i] == tree_of(items[i]),
    decreases items.len(),
{
    if items.len() > 0 {
        lemma_trees_of(items.drop_last());
    }
}

/// The model of an object holds the name and the model of each member, in
/// order.
pub proof fn lemma_members_of(members: Seq<(String, JsonValue)>)
    ensures
        members_of(members).len() == members.len(),
        forall|i: int|
            0 <= i < members.len() ==> #[trigger] members_of(members)[i] == (
                members[i].0@,
                tree_of(members[i].1),
            ),
    decreases members.len(),
{
    if members.len() > 0 {
        lemma_members_of(members.drop_last());
    }
}

impl JsonTree {
    /// The value of the member named `key`, where `self` is an object that
    /// has one. Where several members have the name, the last of them
    /// counts, as it does when `serde_json` reads or writes the object.
    pub open spec fn get(self, key: Seq<char>) -> Option<JsonTree> {
        match self {
            JsonTree::Object(members) => member_value(members, key, members.len() as int),
            _ => None,
        }
    }

    /// The text of a string value.
    pub open spec fn as_str(self) -> Option<Seq<char>> {
        match self {
            JsonTree::String(s) => Some(s),
            _ => None,
        }
    }
}

/// The value of the last member named `key` among the first `upto`.
pub open spec fn member_value(
    members: Seq<(Seq<char>, JsonTree)>,
    key: Seq<char>,
    upto: int,
) -> Option<JsonTree>
    decreases upto,
{
    if upto <= 0 || upto > members.len() {
        None
    } else if members[upto - 1].0 == key {
        Some(members[upto - 1].1)
    } else {
        member_value(members, key, upto - 1)
    }
}

impl Clone for JsonValue {
    fn clone(&self) -> (out: Self)
        ensures
            out.deep_view() == self.deep_view(),
        decreases self,
    {
        match self {
            JsonValue::Null => JsonValue::Null,
            JsonValue::Bool(b) => JsonValue::Bool(*b),
            JsonValue::Number(n) => {
                let copy = match n {
                    JsonNumber::Int(i) => JsonNumber::Int(*i),
                    JsonNumber::Big(u) => JsonNumber::Big(*u),
                    JsonNumber::Real(text) => JsonNumber::Real(text.clone()),
                };
                JsonValue::Number(copy)
            },
            JsonValue::String(s) => JsonValue::String(s.clone()),
            JsonValue::Array(items) => {
                let mut copies: Vec<JsonValue> = Vec::new();
                let mut i: usize = 0;
                while i < items.len()
                    invariant
                        i <= items.len(),
                        copies.len() == i,
                        *self is Array,
                        self->Array_0 == *items,
                        forall|j: int|
                            0 <= j < i ==> (#[trigger] copies@[j]).deep_view()
                                == items@[j].deep_view(),
                    decreases items.len() - i,
                {
                    assert(decreases_to!(*self => self->Array_0));
                    let copy = items[i].clone();
                    copies.push(copy);
                    i += 1;
                }
                proof {
                    lemma_trees_of(copies@);
                    lemma_trees_of(items@);
                    assert(trees_of(copies@) =~= trees_of(items@));
                }
                JsonValue::Array(copies)
            },
            JsonValue::Object(members) => {
                let mut copies: Vec<(String, JsonValue)> = Vec::new();
                let mut i: usize = 0;
                while i < members.len()
                    invariant
                        i <= members.len(),
                        copies.len() == i,
                        *self is Object,
                        self->Object_0 == *members,
                        forall|j: int|
                            0 <= j < i ==> (#[trigger] copies@[j]).0@ == members@[j].0@
                                && copies@[j].1.deep_view() == members@[j].1.deep_view(),
                    decreases members.len() - i,
                {
                    assert(decreases_to!(*self => self->Object_0));
                    let name = members[i].0.clone();
                    let copy = members[i].1.clone();
                    copies.push((name, copy));
                    i += 1;
                }
                proof {
                    lemma_members_of(copies@);
                    lemma_members_of(members@);
                    assert(members_of(copies@) =~= members_of(members@));
                }
                JsonValue::Object(copies)
            },
        }
    }
}

impl JsonValue {
    /// Looks up a member of an object by name; of several members with the
    /// name, the last. Anything but an object has no members.
    pub fn get(&self, key: &str) -> (found: Option<&JsonValue>)
        ensures
            found.deep_view() == self.deep_view().get(key@),
    {
        match self {
            JsonValue::Object(members) => {
                let wanted = chars_of(key);
                let ghost model = members_of(members@);
                proof {
                    lemma_members_of(members@);
                }
                let mut i: usize = members.len();
                while i > 0
                    invariant
                        i <= members.len(),
                        wanted@ == key@,
                        *self is Object,
                        self->Object_0 == *members,
                        model == members_of(members@),
                        model.len() == members.len(),
                        forall|j: int|
                            0 <= j < members.len() ==> #[trigger] model[j] == (
                                members@[j].0@,
                                tree_of(members@[j].1),
                            ),
                        member_value(model, key@, model.len() as int) == member_value(
                            model,
                            key@,
                            i as int,
                        ),
                    decreases i,
                {
                    let name = chars_of(members[i - 1].0.as_str());
                    if chars_equal(&name, &wanted) {
                        return Some(&members[i - 1].1);
                    }
                    i -= 1;
                }
                None
            },
            _ => None,
        }
    }

    /// The items of an array value.
    pub fn as_array(&self) -> (items: Option<&Vec<JsonValue>>)
        ensures
            items is Some <==> self.deep_view() is Array,
            items matches Some(list) ==> self.deep_view() == JsonTree::Array(trees_of(list@)),
    {
        match self {
            JsonValue::Array(items) => Some(items),
            _ => None,
        }
    }

    /// The text of a string value.
    pub fn as_str(&self) -> (text: Option<&str>)
        ensures
            text.deep_view() == self.deep_view().as_str(),
    {
        match self {
            JsonValue::String(s) => Some(s.as_str()),
            _ => None,
        }
    }
}

/// Failure reported by `serde_json`.
#[verifier::external_type_specification]
#[verifier::external_body]
pub struct ExJsonError(serde_json::Error);

/// Document type of `serde_json`.
#[verifier::external_type_specification]
#[verifier::external_body]
pub struct ExSerdeValue(serde_json::Value);

/// The document that `serde_json` reads from `text`, or `None` where it
/// rejects the text.
pub uninterp spec fn json_document(text: Seq<char>) -> Option<JsonTree>;

/// The indented JSON text that `serde_json` writes for a document, numbers
/// that are kept by their text being read back by it first.
pub uninterp spec fn json_pretty(tree: JsonTree) -> Seq<char>;

/// Converts a `serde_json::Value` into a [`JsonValue`], variant by variant.
/// An integer goes to `Int` if `Number::as_i64` has it, else to `Big`; any
/// other number is kept by the text that `Number` displays. Object members
/// come in the order in which `serde_json::Map` yields them.
#[verifier::external_body]
fn from_serde(value: &Value) -> JsonValue {
    match value {
        Value::Null => JsonValue::Null,
        Value::Bool(b) => JsonValue::Bool(*b),
        Value::Number(n) => JsonValue::Number(match (n.as_i64(), n.as_u64()) {
            (Some(i), _) => JsonNumber::Int(i),
            (None, Some(u)) => JsonNumber::Big(u),
            _ => JsonNumber::Real(n.to_string()),
        }),
        Value::String(s) => JsonValue::String(s.clone()),
        Value::Array(items) => JsonValue::Array(items.iter().map(from_serde).collect()),
        Value::Object(map) => JsonValue::Object(
            map.iter().map(|(k, v)| (k.clone(), from_serde(v))).collect()),
    }
}

/// Converts a [`JsonValue`] into a `serde_json::Value`, variant by variant;
/// the text of a `Real` is read back by `serde_json::from_str`, and of
/// several members with one name `serde_json::Map` keeps the last.
#[verifier::external_body]
fn to_serde(value: &JsonValue) -> Value {
    match value {
        JsonValue::Null => Value::Null,
        JsonValue::Bool(b) => Value::Bool(*b),
        JsonValue::Number(JsonNumber::Int(i)) => Value::from(*i),
        JsonValue::Number(JsonNumber::Big(u)) => Value::from(*u),
        JsonValue::Number(JsonNumber::Real(text)) => serde_json::from_str(text).unwrap_or_default(),
        JsonValue::String(s) => Value::String(s.clone()),
        JsonValue::Array(items) => Value::Array(items.iter().map(to_serde).collect()),
        JsonValue::Object(members) => Value::Object(
            members.iter().map(|(k, v)| (k.clone(), to_serde(v))).collect()),
    }
}

/// Reads one JSON document with `serde_json::from_str`.
///
/// Trusted: whether the text is accepted, and the document read from it,
/// depend on the text alone; [`json_document`] names them.
#[verifier::external_body]
pub(crate) fn parse_document(text: &str) -> (parsed: Result<JsonValue, serde_json::Error>)
    ensures
        parsed is Ok <==> json_document(text@) is Some,
        parsed matches Ok(value) ==> json_document(text@) == Some(value.deep_view()),
{
    serde_json::from_str::<Value>(text).map(|value| from_serde(&value))
}

/// Writes a document as indented JSON text with
/// `serde_json::to_string_pretty`; the empty string if that fails.
///
/// Trusted: the text depends on the document alone; [`json_pretty`] names it.
/// Two functions of `serde_json` stand behind the name: a number that is
/// kept by its text is first read back with `serde_json::from_str`, then
/// the whole document is written.
#[verifier::external_body]
pub(crate) fn pretty(value: &JsonValue) -> (text: String)
    ensures
        text@ == json_pretty(value.deep_view()),
{
    serde_json::to_string_pretty(&to_serde(value)).unwrap_or_default()
}

/// The message that a `serde_json::Error` displays.
#[verifier::external_body]
pub(crate) fn error_text(error: &serde_json::Error) -> String {
    error.to_string()
}

} // verus!
