//! Saved settings as JSON objects: reading a member, and writing one.
use vstd::prelude::*;

verus! {

/// `serde_json::Value`, carried as it is.
#[verifier::external_type_specification]
#[verifier::external_body]
pub struct ExJsonValue(serde_json::Value);

/// What a member of a JSON object is, as far as settings go.
pub enum Member {
    Bool(bool),
    Text(Seq<char>),
    /// A number that is a `u64`.
    Whole(u64),
    /// An object, with its members in the order it lists them.
    Object(Seq<(Seq<char>, bool)>),
    /// A list, with each of its items.
    List(Seq<SpellingView>),
    Other,
}

/// A saved value as far as it can spell a choice: a text, or an object's members,
/// each with its name and whether it is null.
#[derive(Debug)]
pub enum Spelling {
    Text(String),
    Members(Vec<(String, bool)>),
    Other,
}

/// [`Spelling`] over mathematical values.
pub enum SpellingView {
    Text(Seq<char>),
    Members(Seq<(Seq<char>, bool)>),
    Other,
}

impl DeepView for Spelling {
    type V = SpellingView;

    open spec fn deep_view(&self) -> SpellingView {
        match *self {
            Spelling::Text(text) => SpellingView::Text(text@),
            Spelling::Members(members) => SpellingView::Members(members.deep_view()),
            Spelling::Other => SpellingView::Other,
        }
    }
}

impl SpellingView {
    /// The name this spells a choice by: a text is one, and so is an object whose
    /// only member is null, by that member's name.
    pub open spec fn name(self) -> Option<Seq<char>> {
        match self {
            SpellingView::Text(text) => Some(text),
            SpellingView::Members(members) => if members.len() == 1 && members[0].1 {
                Some(members[0].0)
            } else {
                None
            },
            SpellingView::Other => None,
        }
    }
}

impl Spelling {
    pub fn named(&self) -> (name: Option<&str>)
        ensures
            name.deep_view() == self.deep_view().name(),
    {
        match self {
            Spelling::Text(text) => Some(text.as_str()),
            Spelling::Members(members) => if members.len() == 1 && members[0].1 {
                Some(members[0].0.as_str())
            } else {
                None
            },
            Spelling::Other => None,
        }
    }
}

/// The members a JSON object holds, by name; a value that is no object holds
/// none.
pub uninterp spec fn json_members(value: serde_json::Value) -> Map<Seq<char>, Member>;

/// Whether a JSON value is an object.
pub uninterp spec fn json_is_object(value: serde_json::Value) -> bool;

/// No members.
pub open spec fn no_members() -> Map<Seq<char>, Member> {
    Map::empty()
}

/// `serde_json::Value::Object` of an empty `serde_json::Map`.
///
/// Trusted: it is an object, and holds no member.
#[verifier::external_body]
pub(crate) fn empty_object() -> (value: serde_json::Value)
    ensures
        json_is_object(value),
        json_members(value) == no_members(),
{
    serde_json::Value::Object(serde_json::Map::new())
}

/// `serde_json::Map::insert` of a `serde_json::Value::Bool`.
///
/// Trusted: the member is that boolean afterwards, whatever it was, and no other
/// member changes.
#[verifier::external_body]
pub(crate) fn put_bool(value: &mut serde_json::Value, name: &str, b: bool)
    requires
        json_is_object(*old(value)),
    ensures
        json_is_object(*final(value)),
        json_members(*final(value)) == json_members(*old(value)).insert(name@, Member::Bool(b)),
{
    if let Some(members) = value.as_object_mut() {
        members.insert(name.to_owned(), serde_json::Value::Bool(b));
    }
}

/// `serde_json::Map::insert` of a `serde_json::Value::String`.
///
/// Trusted: the member is that text afterwards, whatever it was, and no other
/// member changes.
#[verifier::external_body]
pub(crate) fn put_text(value: &mut serde_json::Value, name: &str, text: &str)
    requires
        json_is_object(*old(value)),
    ensures
        json_is_object(*final(value)),
        json_members(*final(value)) == json_members(*old(value)).insert(
            name@,
            Member::Text(text@),
        ),
{
    if let Some(members) = value.as_object_mut() {
        members.insert(name.to_owned(), serde_json::Value::String(text.to_owned()));
    }
}

/// `serde_json::Map::insert` of a `serde_json::Value::Number`.
///
/// Trusted: the member is that number afterwards, whatever it was, and no other
/// member changes.
#[verifier::external_body]
pub(crate) fn put_whole(value: &mut serde_json::Value, name: &str, n: u64)
    requires
        json_is_object(*old(value)),
    ensures
        json_is_object(*final(value)),
        json_members(*final(value)) == json_members(*old(value)).insert(name@, Member::Whole(n)),
{
    if let Some(members) = value.as_object_mut() {
        members.insert(name.to_owned(), serde_json::Value::Number(n.into()));
    }
}

/// A list of texts with nothing else in it.
pub open spec fn texts(items: Seq<Seq<char>>) -> Seq<SpellingView> {
    items.map_values(|item: Seq<char>| SpellingView::Text(item))
}

/// `serde_json::Map::insert` of a `serde_json::Value::Array` of strings.
///
/// Trusted: the member is that list afterwards, in that order, whatever it was,
/// and no other member changes.
#[verifier::external_body]
pub(crate) fn put_texts(value: &mut serde_json::Value, name: &str, items: Vec<String>)
    requires
        json_is_object(*old(value)),
    ensures
        json_is_object(*final(value)),
        json_members(*final(value)) == json_members(*old(value)).insert(
            name@,
            Member::List(texts(items.deep_view())),
        ),
{
    if let Some(members) = value.as_object_mut() {
        let list = items.into_iter().map(serde_json::Value::String).collect();
        members.insert(name.to_owned(), serde_json::Value::Array(list));
    }
}

/// What a member is, where there is one.
pub open spec fn member(value: serde_json::Value, name: Seq<char>) -> Option<Member> {
    if json_members(value).contains_key(name) {
        Some(json_members(value)[name])
    } else {
        None
    }
}

/// The boolean a member is.
pub open spec fn bool_member(value: serde_json::Value, name: Seq<char>) -> Option<bool> {
    match member(value, name) {
        Some(Member::Bool(b)) => Some(b),
        _ => None,
    }
}

/// The text a member is.
pub open spec fn text_member(value: serde_json::Value, name: Seq<char>) -> Option<Seq<char>> {
    match member(value, name) {
        Some(Member::Text(text)) => Some(text),
        _ => None,
    }
}

/// The number a member is.
pub open spec fn whole_member(value: serde_json::Value, name: Seq<char>) -> Option<u64> {
    match member(value, name) {
        Some(Member::Whole(n)) => Some(n),
        _ => None,
    }
}

/// The list a member is.
pub open spec fn list_member(value: serde_json::Value, name: Seq<char>) -> Option<
    Seq<SpellingView>,
> {
    match member(value, name) {
        Some(Member::List(items)) => Some(items),
        _ => None,
    }
}

/// A member as far as it can spell a choice.
pub open spec fn spelling_member(value: serde_json::Value, name: Seq<char>) -> Option<
    SpellingView,
> {
    match member(value, name) {
        Some(Member::Text(text)) => Some(SpellingView::Text(text)),
        Some(Member::Object(members)) => Some(SpellingView::Members(members)),
        Some(_) => Some(SpellingView::Other),
        None => None,
    }
}

/// `serde_json::Value::get` and `as_bool`.
///
/// Trusted: the boolean the member is, and nothing where there is no such member
/// or it is something else.
#[verifier::external_body]
pub(crate) fn get_bool(value: &serde_json::Value, name: &str) -> (b: Option<bool>)
    ensures
        b == bool_member(*value, name@),
{
    value.get(name).and_then(|m| m.as_bool())
}

/// `serde_json::Value::get` and `as_str`.
///
/// Trusted: the text the member is, and nothing where there is no such member or
/// it is something else.
#[verifier::external_body]
pub(crate) fn get_text(value: &serde_json::Value, name: &str) -> (text: Option<String>)
    ensures
        text.deep_view() == text_member(*value, name@),
{
    value.get(name).and_then(|m| m.as_str()).map(|text| text.to_owned())
}

/// `serde_json::Value::get` and `as_u64`.
///
/// Trusted: the number the member is, and nothing where there is no such member
/// or it is no `u64`.
#[verifier::external_body]
pub(crate) fn get_whole(value: &serde_json::Value, name: &str) -> (n: Option<u64>)
    ensures
        n == whole_member(*value, name@),
{
    value.get(name).and_then(|m| m.as_u64())
}

/// `serde_json::Value::get`, what it finds taken apart by its variant, and a
/// `serde_json::Map` walked by its `iter`.
///
/// Trusted: the text the member is, or the members of the object it is, each with
/// its name and whether it is `serde_json::Value::Null`, and nothing where there
/// is no such member.
#[verifier::external_body]
pub(crate) fn get_spelling(value: &serde_json::Value, name: &str) -> (found: Option<Spelling>)
    ensures
        found.deep_view() == spelling_member(*value, name@),
{
    value.get(name).map(|member| match member {
        serde_json::Value::String(text) => Spelling::Text(text.to_owned()),
        serde_json::Value::Object(members) => Spelling::Members(
            members.iter().map(|(name, inner)| (name.to_owned(), inner.is_null())).collect(),
        ),
        _ => Spelling::Other,
    })
}

/// `serde_json::Value::get` and `as_array`, each item taken apart by its variant,
/// and a `serde_json::Map` walked by its `iter`.
///
/// Trusted: the list the member is, in its order, with each item's text where it
/// is text and its members where it is an object, and nothing where there is no
/// such member or it is no list.
#[verifier::external_body]
pub(crate) fn get_list(value: &serde_json::Value, name: &str) -> (items: Option<Vec<Spelling>>)
    ensures
        items.deep_view() == list_member(*value, name@),
{
    let list = value.get(name).and_then(|member| member.as_array());
    list.map(|items| items.iter().map(|item| match item {
        serde_json::Value::String(text) => Spelling::Text(text.to_owned()),
        serde_json::Value::Object(members) => Spelling::Members(
            members.iter().map(|(name, inner)| (name.to_owned(), inner.is_null())).collect(),
        ),
        _ => Spelling::Other,
    }).collect())
}

} // verus!
