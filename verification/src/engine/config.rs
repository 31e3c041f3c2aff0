//! Configuration documents: JSON first, YAML as the second spelling.

use vstd::prelude::*;
use vstd::string::*;
use vstd::utf8::{decode_utf8, valid_utf8};

use crate::engine::{CoreError, CoreFault};
use crate::text::{joined, same_str, utf8_complaint, utf8_string};

verus! {

/// One member of a table.
pub struct Member {
    pub key: String,
    pub value: Document,
}

/// An untyped configuration document.
pub enum Document {
    Null,
    Bool(bool),
    /// A number that is an unsigned 64-bit integer.
    Natural(u64),
    /// Any other number.
    OtherNumber,
    Text(String),
    List(Vec<Document>),
    Table(Vec<Member>),
}

/// Mathematical counterpart of [`Document`].
pub enum DocModel {
    Null,
    Bool(bool),
    Natural(u64),
    OtherNumber,
    Text(Seq<char>),
    List(Seq<DocModel>),
    Table(Seq<(Seq<char>, DocModel)>),
}

impl Document {
    /// What the document says.
    pub open spec fn model(self) -> DocModel
        decreases self,
    {
        match self {
            Document::Null => DocModel::Null,
            Document::Bool(b) => DocModel::Bool(b),
            Document::Natural(n) => DocModel::Natural(n),
            Document::OtherNumber => DocModel::OtherNumber,
            Document::Text(s) => DocModel::Text(s@),
            Document::List(items) => DocModel::List(
                Seq::new(
                    items@.len(),
                    |i: int|
                        if 0 <= i < items@.len() {
                            items@[i].model()
                        } else {
                            DocModel::Null
                        },
                ),
            ),
            Document::Table(members) => DocModel::Table(
                Seq::new(
                    members@.len(),
                    |i: int|
                        if 0 <= i < members@.len() {
                            (members@[i].key@, members@[i].value.model())
                        } else {
                            (Seq::empty(), DocModel::Null)
                        },
                ),
            ),
        }
    }
}

/// The position of the first member with a key, the number of members if there is none.
pub open spec fn member_index(members: Seq<(Seq<char>, DocModel)>, key: Seq<char>) -> int
    decreases members.len(),
{
    if members.len() == 0 || members[0].0 == key {
        0
    } else {
        1 + member_index(members.skip(1), key)
    }
}

impl DocModel {
    /// The member of a table with a key.
    pub open spec fn get(self, key: Seq<char>) -> Option<DocModel> {
        match self {
            DocModel::Table(members) => {
                let i = member_index(members, key);
                if i < members.len() {
                    Some(members[i].1)
                } else {
                    None
                }
            },
            _ => None,
        }
    }

    /// The text of a text.
    pub open spec fn text(self) -> Option<Seq<char>> {
        match self {
            DocModel::Text(s) => Some(s),
            _ => None,
        }
    }

    /// The number of a number.
    pub open spec fn natural(self) -> Option<u64> {
        match self {
            DocModel::Natural(n) => Some(n),
            _ => None,
        }
    }

    /// The truth value of a truth value.
    pub open spec fn truth(self) -> Option<bool> {
        match self {
            DocModel::Bool(b) => Some(b),
            _ => None,
        }
    }

    /// The items of a list.
    pub open spec fn items(self) -> Option<Seq<DocModel>> {
        match self {
            DocModel::List(items) => Some(items),
            _ => None,
        }
    }
}

impl Document {
    /// The member of a table with a key.
    pub fn get(&self, key: &str) -> (r: Option<&Document>)
        ensures
            match (r, self.model().get(key@)) {
                (Some(d), Some(m)) => d.model() == m,
                (None, None) => true,
                _ => false,
            },
    {
        match self {
            Document::Table(members) => {
                let ghost all = self.model()->Table_0;
                assert(all.skip(0) =~= all);
                let mut i: usize = 0;
                while i < members.len()
                    invariant
                        0 <= i <= members@.len(),
                        self.model() == DocModel::Table(all),
                        all.len() == members@.len(),
                        *self == Document::Table(*members),
                        member_index(all, key@) == i + member_index(all.skip(i as int), key@),
                    decreases members@.len() - i,
                {
                    assert(all.skip(i as int).skip(1) =~= all.skip(i + 1));
                    assert(all[i as int] == (
                        members@[i as int].key@,
                        members@[i as int].value.model(),
                    ));
                    if same_str(members[i].key.as_str(), key) {
                        return Some(&members[i].value);
                    }
                    i += 1;
                }
                None
            },
            _ => None,
        }
    }

    /// The text of a text.
    pub fn as_str(&self) -> (r: Option<&str>)
        ensures
            match (r, self.model().text()) {
                (Some(s), Some(m)) => s@ == m,
                (None, None) => true,
                _ => false,
            },
    {
        match self {
            Document::Text(s) => Some(s.as_str()),
            _ => None,
        }
    }

    /// The number of a number.
    pub fn as_u64(&self) -> (r: Option<u64>)
        ensures
            r == self.model().natural(),
    {
        match self {
            Document::Natural(n) => Some(*n),
            _ => None,
        }
    }

    /// The truth value of a truth value.
    pub fn as_bool(&self) -> (r: Option<bool>)
        ensures
            r == self.model().truth(),
    {
        match self {
            Document::Bool(b) => Some(*b),
            _ => None,
        }
    }

    /// The items of a list.
    pub fn as_array(&self) -> (r: Option<&Vec<Document>>)
        ensures
            match (r, self.model().items()) {
                (Some(v), Some(m)) => {
                    &&& v@.len() == m.len()
                    &&& forall|i: int| 0 <= i < m.len() ==> (#[trigger] v@[i]).model() == m[i]
                },
                (None, None) => true,
                _ => false,
            },
    {
        match self {
            Document::List(items) => Some(items),
            _ => None,
        }
    }
}

/// A value of `serde_json`.
#[verifier::external_type_specification]
#[verifier::external_body]
pub struct ExJsonValue(serde_json::Value);

/// What a value of `serde_json` holds.
pub uninterp spec fn json_contents(value: serde_json::Value) -> DocModel;

/// The value that a text spells as JSON, or why it is no JSON.
pub uninterp spec fn json_value(text: Seq<char>) -> Result<serde_json::Value, Seq<char>>;

/// What a text says as JSON, or why it is no JSON.
pub open spec fn json_reading(text: Seq<char>) -> Result<DocModel, Seq<char>> {
    match json_value(text) {
        Ok(value) => Ok(json_contents(value)),
        Err(why) => Err(why),
    }
}

/// A value of `serde_json` as compact JSON.
pub uninterp spec fn json_text(value: serde_json::Value) -> Seq<char>;

/// What a text says as YAML, or why it is no YAML.
pub uninterp spec fn yaml_reading(text: Seq<char>) -> Result<DocModel, Seq<char>>;

/// Calls `serde_json::from_str`; an error is returned as its text.
///
/// Claimed of it: the outcome depends on the text alone.
#[verifier::external_body]
pub(crate) fn read_json(text: &str) -> (r: Result<serde_json::Value, String>)
    ensures
        match (r, json_value(text@)) {
            (Ok(v), Ok(m)) => v == m,
            (Err(e), Err(m)) => e@ == m,
            _ => false,
        },
{
    serde_json::from_str(text).map_err(|e| e.to_string())
}

/// Calls `serde_yaml::from_str`; an error is returned as its text.
///
/// Claimed of it: the outcome depends on the text alone.
#[verifier::external_body]
fn read_yaml(text: &str) -> (r: Result<serde_json::Value, String>)
    ensures
        match (r, yaml_reading(text@)) {
            (Ok(v), Ok(m)) => json_contents(v) == m,
            (Err(e), Err(m)) => e@ == m,
            _ => false,
        },
{
    serde_yaml::from_str(text).map_err(|e| e.to_string())
}

/// Calls the `to_string` of `serde_json::Value`.
///
/// Claimed of it: the result depends on the value alone.
#[verifier::external_body]
pub(crate) fn write_json(value: &serde_json::Value) -> (r: String)
    ensures
        r@ == json_text(*value),
{
    value.to_string()
}

/// Takes a value of `serde_json` apart, variant by variant.
///
/// Claimed of it: the document says what the value holds.
#[verifier::external_body]
pub(crate) fn document_of(value: serde_json::Value) -> (r: Document)
    ensures
        r.model() == json_contents(value),
{
    match value {
        serde_json::Value::Null => Document::Null,
        serde_json::Value::Bool(b) => Document::Bool(b),
        serde_json::Value::Number(n) => n.as_u64().map_or(Document::OtherNumber, Document::Natural),
        serde_json::Value::String(s) => Document::Text(s),
        serde_json::Value::Array(a) => Document::List(a.into_iter().map(document_of).collect()),
        serde_json::Value::Object(m) => Document::Table(
            m.into_iter().map(|(key, v)| Member { key, value: document_of(v) }).collect(),
        ),
    }
}

/// A text as a JSON string, quotes and escapes included.
pub uninterp spec fn json_string(text: Seq<char>) -> Seq<char>;

/// Calls `serde_json::to_string` on a text, which never fails.
///
/// Claimed of it: the result depends on the text alone.
#[verifier::external_body]
pub(crate) fn to_json_string(text: &str) -> (r: String)
    ensures
        r@ == json_string(text@),
{
    serde_json::to_string(text).expect("a text is always written")
}

/// What a text says, given its readings as JSON and as YAML.
pub open spec fn document_reading(
    json: Result<DocModel, Seq<char>>,
    yaml: Result<DocModel, Seq<char>>,
) -> Result<DocModel, CoreFault> {
    match json {
        Ok(m) => Ok(m),
        Err(_) => match yaml {
            Ok(m) => Ok(m),
            Err(why) => Err(
                CoreFault::ConfigError("Invalid config (neither JSON nor YAML): "@ + why),
            ),
        },
    }
}

/// The outcome of reading a text that is no JSON as YAML.
pub fn yaml_outcome(yaml: Result<Document, String>) -> (r: Result<Document, CoreError>)
    ensures
        match (r, yaml) {
            (Ok(d), Ok(y)) => d == y,
            (Err(e), Err(why)) => e@ == CoreFault::ConfigError(
                "Invalid config (neither JSON nor YAML): "@ + why@,
            ),
            _ => false,
        },
{
    match yaml {
        Ok(d) => Ok(d),
        Err(why) => Err(
            CoreError::ConfigError(
                joined("Invalid config (neither JSON nor YAML): ", why.as_str()),
            ),
        ),
    }
}

/// Reads a JSON document.
pub fn parse_json(raw: &str) -> (r: Result<Document, String>)
    ensures
        match (r, json_reading(raw@)) {
            (Ok(d), Ok(m)) => d.model() == m,
            (Err(why), Err(m)) => why@ == m,
            _ => false,
        },
{
    match read_json(raw) {
        Ok(value) => Ok(document_of(value)),
        Err(why) => Err(why),
    }
}

/// Reads a configuration document: as JSON, and where it is none, as YAML.
pub fn parse_document(raw: &str) -> (r: Result<Document, CoreError>)
    ensures
        match (r, document_reading(json_reading(raw@), yaml_reading(raw@))) {
            (Ok(d), Ok(m)) => d.model() == m,
            (Err(e), Err(fault)) => e@ == fault,
            _ => false,
        },
{
    if let Ok(value) = read_json(raw) {
        return Ok(document_of(value));
    }
    match read_yaml(raw) {
        Ok(value) => yaml_outcome(Ok(document_of(value))),
        Err(why) => yaml_outcome(Err(why)),
    }
}

/// Reads the contents of a configuration file.
pub fn parse_bytes(raw: Vec<u8>) -> (r: Result<Document, CoreError>)
    ensures
        match r {
            Ok(d) => {
                let text = decode_utf8(raw@);
                &&& valid_utf8(raw@)
                &&& document_reading(json_reading(text), yaml_reading(text)) == Ok::<_, CoreFault>(
                    d.model(),
                )
            },
            Err(e) => if valid_utf8(raw@) {
                let text = decode_utf8(raw@);
                document_reading(json_reading(text), yaml_reading(text)) == Err::<DocModel, _>(e@)
            } else {
                e@ == CoreFault::ConfigError("config not UTF-8: "@ + utf8_complaint(raw@))
            },
        },
{
    match utf8_string(raw) {
        Ok(text) => parse_document(text.as_str()),
        Err(why) => Err(CoreError::ConfigError(joined("config not UTF-8: ", why.as_str()))),
    }
}

/// A table gives the value that stands beside a key, the first where there are several,
/// and nothing for a key that it does not have. Nothing else has members.
pub proof fn members_are_found_by_their_key(doc: DocModel, key: Seq<char>)
    ensures
        match doc {
            DocModel::Table(members) => {
                &&& forall|i: int|
                    0 <= i < members.len() && (#[trigger] members[i]).0 == key && (forall|j: int|
                        0 <= j < i ==> (#[trigger] members[j]).0 != key) ==> doc.get(key) == Some(
                        members[i].1,
                    )
                &&& (forall|i: int| 0 <= i < members.len() ==> (#[trigger] members[i]).0 != key)
                    ==> doc.get(key) is None
            },
            _ => doc.get(key) is None,
        },
{
    if let DocModel::Table(members) = doc {
        lemma_member_index(members, key);
        let k = member_index(members, key);
        assert forall|i: int|
            0 <= i < members.len() && (#[trigger] members[i]).0 == key && (forall|j: int|
                0 <= j < i ==> (#[trigger] members[j]).0 != key) implies doc.get(key) == Some(
            members[i].1,
        ) by {
            if k < i {
                assert(members[k].0 == key);
            }
            assert(k == i);
        }
    }
}

proof fn lemma_member_index(members: Seq<(Seq<char>, DocModel)>, key: Seq<char>)
    ensures
        0 <= member_index(members, key) <= members.len(),
        member_index(members, key) < members.len() ==> members[member_index(members, key)].0
            == key,
        forall|j: int| 0 <= j < member_index(members, key) ==> (#[trigger] members[j]).0 != key,
    decreases members.len(),
{
    if members.len() > 0 && members[0].0 != key {
        let rest = members.skip(1);
        lemma_member_index(rest, key);
        assert forall|j: int| 0 <= j < member_index(members, key) implies (
        #[trigger] members[j]).0 != key by {
            if j > 0 {
                assert(rest[j - 1] == members[j]);
            }
        }
    }
}

/// A text that is JSON is read as such, whatever it would be as YAML; any other one is read as
/// YAML, and refused where it is neither.
pub proof fn json_comes_before_yaml(
    json: Result<DocModel, Seq<char>>,
    yaml: Result<DocModel, Seq<char>>,
)
    ensures
        json matches Ok(m) ==> document_reading(json, yaml) == Ok::<DocModel, CoreFault>(m),
        json is Err && yaml is Ok ==> document_reading(json, yaml) == Ok::<DocModel, CoreFault>(
            yaml->Ok_0,
        ),
        json is Err && yaml is Err ==> (document_reading(json, yaml) matches Err(fault)
            && fault is ConfigError),
{
}

} // verus!
