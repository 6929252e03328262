//! JSON objects as the log records and the messages of the protocol use them.

use crate::text::views;
use vstd::prelude::*;

verus! {

#[verifier::external_type_specification]
#[verifier::external_body]
#[verifier::reject_recursive_types(K)]
#[verifier::reject_recursive_types(V)]
pub struct ExJsonMap<K, V>(serde_json::Map<K, V>);

#[verifier::external_type_specification]
#[verifier::external_body]
pub struct ExJsonValue(serde_json::Value);

#[verifier::external_type_specification]
#[verifier::external_body]
pub struct ExJsonError(serde_json::Error);

/// The value of a member of a log record.
pub enum Member {
    Text(String),
    Number(i32),
    List(Vec<String>),
}

/// The value of a member of a JSON object. `Other` stands for the values that no log record holds,
/// by their JSON text.
pub enum MemberView {
    Text(Seq<char>),
    Number(int),
    List(Seq<Seq<char>>),
    Other(Seq<char>),
}

impl View for Member {
    type V = MemberView;

    open spec fn view(&self) -> MemberView {
        match self {
            Member::Text(text) => MemberView::Text(text@),
            Member::Number(n) => MemberView::Number(*n as int),
            Member::List(list) => MemberView::List(views(list@)),
        }
    }
}

/// The members of a JSON object under construction.
pub uninterp spec fn object_members(
    object: serde_json::Map<String, serde_json::Value>,
) -> Map<Seq<char>, MemberView>;

/// The compact JSON text of an object with these members.
pub uninterp spec fn json_text(members: Map<Seq<char>, MemberView>) -> Seq<char>;

/// The members of a JSON value that are texts. A value that is no object has none.
pub uninterp spec fn value_texts(value: serde_json::Value) -> Map<Seq<char>, Seq<char>>;

/// The members of a JSON text that are texts, or `None` where it cannot be read.
pub uninterp spec fn parsed_texts(text: Seq<char>) -> Option<Map<Seq<char>, Seq<char>>>;

/// No members.
pub open spec fn no_members() -> Map<Seq<char>, MemberView> {
    Map::empty()
}

/// Those of the members of an object that are texts.
pub open spec fn text_members(members: Map<Seq<char>, MemberView>) -> Map<Seq<char>, Seq<char>> {
    Map::new(
        |key: Seq<char>| members.contains_key(key) && members[key] is Text,
        |key: Seq<char>| members[key]->Text_0,
    )
}

/// Whether each member is one that a log record can hold, under a key that does not begin with a
/// dollar sign.
pub open spec fn plain_members(members: Map<Seq<char>, MemberView>) -> bool {
    forall|key: Seq<char>| #[trigger]
        members.contains_key(key) ==> members[key] !is Other && !(key.len() > 0 && key[0] == '$')
}

/// `serde_json::Map::new`: an object without members.
#[verifier::external_body]
pub(crate) fn new_object() -> (r: serde_json::Map<String, serde_json::Value>)
    ensures
        object_members(r) == no_members(),
{
    serde_json::Map::new()
}

/// `serde_json::Map::insert`: the member is set under the key, whether or not there was one
/// before, and the other members stay.
#[verifier::external_body]
pub(crate) fn put(
    object: &mut serde_json::Map<String, serde_json::Value>,
    key: &str,
    member: Member,
)
    ensures
        object_members(*final(object)) == object_members(*old(object)).insert(key@, member@),
{
    let value = match member {
        Member::Text(text) => serde_json::Value::from(text),
        Member::Number(n) => serde_json::Value::from(n),
        Member::List(list) => serde_json::Value::from(list),
    };
    object.insert(key.to_string(), value);
}

/// `serde_json::Value::to_string` on an object: its compact JSON text, which its members decide.
/// Reading that text gives back the members that are texts.
#[verifier::external_body]
pub(crate) fn object_text(object: serde_json::Map<String, serde_json::Value>) -> (r: String)
    ensures
        r@ == json_text(object_members(object)),
        plain_members(object_members(object)) ==> parsed_texts(r@) == Some(
            text_members(object_members(object)),
        ),
{
    serde_json::Value::Object(object).to_string()
}

/// `serde_json::from_str` to a value: an error exactly where the crate does not take the text,
/// because it is not well-formed JSON, holds a number out of range, or nests deeper than the
/// crate's limit of 128.
#[verifier::external_body]
pub(crate) fn parse(text: &str) -> (r: Result<serde_json::Value, serde_json::Error>)
    ensures
        match r {
            Ok(value) => parsed_texts(text@) == Some(value_texts(value)),
            Err(_) => parsed_texts(text@) is None,
        },
{
    serde_json::from_str::<serde_json::Value>(text)
}

/// `serde_json::Value::get` by a key, and `serde_json::Value::as_str` of the member: the member
/// under the key, if the value is an object that has it and it is a text.
#[verifier::external_body]
pub(crate) fn text_member<'a>(value: &'a serde_json::Value, key: &str) -> (r: Option<&'a str>)
    ensures
        match r {
            Some(text) => value_texts(*value).contains_key(key@) && value_texts(*value)[key@]
                == text@,
            None => !value_texts(*value).contains_key(key@),
        },
{
    value.get(key).and_then(serde_json::Value::as_str)
}

/// The member of a JSON text under a key, if the text is a well-formed object that has it and it
/// is a text itself.
pub open spec fn text_under(text: Seq<char>, key: Seq<char>) -> Option<Seq<char>> {
    match parsed_texts(text) {
        Some(texts) => if texts.contains_key(key) {
            Some(texts[key])
        } else {
            None
        },
        None => None,
    }
}

/// Reads the member of a JSON text under a key.
pub fn read_text(text: &str, key: &str) -> (r: Option<String>)
    ensures
        match r {
            Some(member) => text_under(text@, key@) == Some(member@),
            None => text_under(text@, key@) is None,
        },
{
    match parse(text) {
        Ok(value) => match text_member(&value, key) {
            Some(member) => Some(member.to_owned()),
            None => None,
        },
        Err(_) => None,
    }
}

/// A text is found under a key exactly where the whole can be read and has that text there.
pub proof fn law_text_under(text: Seq<char>, key: Seq<char>, member: Seq<char>)
    ensures
        text_under(text, key) == Some(member) <==> parsed_texts(text) is Some && parsed_texts(
            text,
        )->Some_0.contains_pair(key, member),
        text_under(text, key) is None <==> parsed_texts(text) is None || !parsed_texts(
            text,
        )->Some_0.dom().contains(key),
{
}

/// The texts of an object are those of its members that are texts, under their keys.
pub proof fn law_text_members(
    members: Map<Seq<char>, MemberView>,
    key: Seq<char>,
    text: Seq<char>,
)
    ensures
        text_members(members).contains_pair(key, text) <==> members.contains_pair(
            key,
            MemberView::Text(text),
        ),
        text_members(members).dom().contains(key) ==> members.dom().contains(key) && members[key]
            is Text,
{
}

/// What is set under a key of an object is found there as it was.
pub proof fn law_member_values(text: String, n: i32, list: Vec<String>)
    ensures
        Member::Text(text)@ == MemberView::Text(text@),
        Member::Number(n)@ == MemberView::Number(n as int),
        Member::List(list)@ matches MemberView::List(texts) && texts.len() == list@.len() && (
        forall|i: int| 0 <= i < list@.len() ==> #[trigger] texts[i] == list@[i]@),
        no_members().dom() == Set::<Seq<char>>::empty(),
{
}

} // verus!
