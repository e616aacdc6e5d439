//! JSON documents.
//!
//! [`Json`] is the document type of this library. Text is read and written by
//! `serde_json`, whose `Value` is turned into a [`Json`] and back.
use crate::list;
use crate::text;
use crate::text::same_text;
use vstd::prelude::*;
use vstd::string::*;

verus! {

/// A JSON number of `serde_json`, carried through unchanged.
#[verifier::external_type_specification]
#[verifier::external_body]
pub struct ExNumber(serde_json::Number);

/// A JSON document of `serde_json`.
#[verifier::external_type_specification]
#[verifier::external_body]
pub struct ExValue(serde_json::Value);

/// A JSON document. In an object a later member hides an earlier one of the same
/// name.
pub enum Json {
    Null,
    Bool(bool),
    Number(serde_json::Number),
    Text(String),
    List(Vec<Json>),
    Object(Vec<(String, Json)>),
}

/// What a JSON document says: the members of an object have no order.
pub enum JsonView {
    Null,
    Bool(bool),
    Number(serde_json::Number),
    Text(Seq<char>),
    List(Seq<JsonView>),
    Object(Map<Seq<char>, JsonView>),
}

/// What a document says.
pub open spec fn view_of(json: Json) -> JsonView
    decreases json,
{
    match json {
        Json::Null => JsonView::Null,
        Json::Bool(b) => JsonView::Bool(b),
        Json::Number(n) => JsonView::Number(n),
        Json::Text(s) => JsonView::Text(s@),
        Json::List(items) => JsonView::List(list_view(items@)),
        Json::Object(members) => JsonView::Object(members_view(members@)),
    }
}

/// What the items of a list say.
pub open spec fn list_view(items: Seq<Json>) -> Seq<JsonView>
    decreases items,
{
    if items.len() == 0 {
        Seq::empty()
    } else {
        list_view(items.drop_last()).push(view_of(items.last()))
    }
}

/// What the members of an object say.
pub open spec fn members_view(members: Seq<(String, Json)>) -> Map<Seq<char>, JsonView>
    decreases members,
{
    if members.len() == 0 {
        Map::empty()
    } else {
        members_view(members.drop_last()).insert(members.last().0@, view_of(members.last().1))
    }
}

impl View for Json {
    type V = JsonView;

    open spec fn view(&self) -> JsonView {
        view_of(*self)
    }
}

/// The member of an object with the given name.
pub open spec fn member(v: JsonView, key: Seq<char>) -> Option<JsonView> {
    match v {
        JsonView::Object(m) => if m.contains_key(key) {
            Some(m[key])
        } else {
            None
        },
        _ => None,
    }
}

/// The text that a value is, if it is one.
pub open spec fn text_in(v: Option<JsonView>) -> Option<Seq<char>> {
    match v {
        Some(JsonView::Text(s)) => Some(s),
        _ => None,
    }
}

/// The text of the member of the given name, if it is one.
pub open spec fn text_member(v: JsonView, key: Seq<char>) -> Option<Seq<char>> {
    text_in(member(v, key))
}

/// The truth value of the member of the given name, if it is one.
pub open spec fn bool_member(v: JsonView, key: Seq<char>) -> Option<bool> {
    match member(v, key) {
        Some(JsonView::Bool(b)) => Some(b),
        _ => None,
    }
}

/// The member of the given name as an integer that is not negative, if it is one.
pub open spec fn u64_member(v: JsonView, key: Seq<char>) -> Option<u64> {
    match member(v, key) {
        Some(JsonView::Number(n)) => number_u64(n),
        _ => None,
    }
}

/// The view of an optional string.
pub open spec fn opt_text(s: Option<String>) -> Option<Seq<char>> {
    match s {
        Some(s) => Some(s@),
        None => None,
    }
}

/// The view of an optional reference to a string.
pub open spec fn opt_text_ref(s: Option<&String>) -> Option<Seq<char>> {
    match s {
        Some(s) => Some(s@),
        None => None,
    }
}

/// The view of an optional reference to a document.
pub open spec fn opt_view(v: Option<&Json>) -> Option<JsonView> {
    match v {
        Some(v) => Some(v@),
        None => None,
    }
}

pub(crate) proof fn lemma_list_view(items: Seq<Json>)
    ensures
        list_view(items).len() == items.len(),
        forall|i: int| 0 <= i < items.len() ==> #[trigger] list_view(items)[i] == view_of(items[i]),
    decreases items.len(),
{
    if items.len() > 0 {
        lemma_list_view(items.drop_last());
    }
}

pub(crate) proof fn lemma_list_view_push(items: Seq<Json>, item: Json)
    ensures
        list_view(items.push(item)) == list_view(items).push(item@),
{
    assert(items.push(item).drop_last() =~= items);
}

pub(crate) proof fn lemma_members_view_push(members: Seq<(String, Json)>, entry: (String, Json))
    ensures
        members_view(members.push(entry)) == members_view(members).insert(entry.0@, entry.1@),
{
    assert(members.push(entry).drop_last() =~= members);
}

/// An item is smaller than the list that holds it.
proof fn lemma_item_smaller(json: Json, items: Vec<Json>, i: int)
    requires
        json == Json::List(items),
        0 <= i < items@.len(),
    ensures
        decreases_to!(json => items@[i]),
{
    assert(decreases_to!(json => json->List_0));
    assert(decreases_to!(items => items@));
    assert(decreases_to!(items@ => items@[i]));
}

/// The value of a member is smaller than the object that holds it.
proof fn lemma_entry_smaller(json: Json, members: Vec<(String, Json)>, i: int)
    requires
        json == Json::Object(members),
        0 <= i < members@.len(),
    ensures
        decreases_to!(json => members@[i].1),
{
    assert(decreases_to!(json => json->Object_0));
    assert(decreases_to!(members => members@));
    assert(decreases_to!(members@ => members@[i]));
    assert(decreases_to!(members@[i] => members@[i].1));
}

/// A name that no entry has is no member.
proof fn lemma_members_absent(members: Seq<(String, Json)>, key: Seq<char>)
    requires
        forall|i: int| 0 <= i < members.len() ==> (#[trigger] members[i]).0@ != key,
    ensures
        !members_view(members).contains_key(key),
    decreases members.len(),
{
    if members.len() > 0 {
        assert(members.last() == members[members.len() - 1]);
        assert forall|i: int| 0 <= i < members.drop_last().len() implies (
        #[trigger] members.drop_last()[i]).0@ != key by {
            assert(members.drop_last()[i] == members[i]);
        }
        lemma_members_absent(members.drop_last(), key);
    }
}

/// The last entry of a name gives the member of that name.
proof fn lemma_members_last(members: Seq<(String, Json)>, at: int)
    requires
        0 <= at < members.len(),
        forall|i: int|
            at < i < members.len() ==> (#[trigger] members[i]).0@ != members[at].0@,
    ensures
        members_view(members).contains_key(members[at].0@),
        members_view(members)[members[at].0@] == members[at].1@,
    decreases members.len(),
{
    if at < members.len() - 1 {
        assert(members.last() == members[members.len() - 1]);
        assert(members.drop_last()[at] == members[at]);
        assert forall|i: int| at < i < members.drop_last().len() implies (
        #[trigger] members.drop_last()[i]).0@ != members.drop_last()[at].0@ by {
            assert(members.drop_last()[i] == members[i]);
        }
        lemma_members_last(members.drop_last(), at);
    }
}

/// Dropping one entry of a name changes no other member.
proof fn lemma_members_drop_entry(members: Seq<(String, Json)>, at: int)
    requires
        0 <= at < members.len(),
    ensures
        members_view(members.remove(at)).remove(members[at].0@) == members_view(members).remove(
            members[at].0@,
        ),
    decreases members.len(),
{
    let key = members[at].0@;
    if at == members.len() - 1 {
        assert(members.remove(at) =~= members.drop_last());
        assert(members_view(members).remove(key) =~= members_view(members.drop_last()).remove(key));
    } else {
        let rest = members.drop_last();
        assert(rest[at] == members[at]);
        lemma_members_drop_entry(rest, at);
        assert(members.remove(at).drop_last() =~= rest.remove(at));
        assert(members.remove(at).last() == members.last());
        let k = members.last().0@;
        let v = view_of(members.last().1);
        let left = members_view(rest.remove(at));
        let right = members_view(rest);
        if k == key {
            assert(left.insert(k, v).remove(key) =~= left.remove(key));
            assert(right.insert(k, v).remove(key) =~= right.remove(key));
        } else {
            assert(left.insert(k, v).remove(key) =~= left.remove(key).insert(k, v));
            assert(right.insert(k, v).remove(key) =~= right.remove(key).insert(k, v));
        }
    }
}

// ---------------------------------------------------------------------------
// Members
// ---------------------------------------------------------------------------

/// The last entry with the given name.
fn entry_of(members: &Vec<(String, Json)>, key: &str) -> (r: Option<usize>)
    ensures
        match r {
            Some(i) => i < members@.len() && members@[i as int].0@ == key@ && forall|j: int|
                i < j < members@.len() ==> (#[trigger] members@[j]).0@ != key@,
            None => forall|j: int|
                0 <= j < members@.len() ==> (#[trigger] members@[j]).0@ != key@,
        },
{
    let mut i: usize = members.len();
    while 0 < i
        invariant
            i <= members@.len(),
            forall|j: int| i <= j < members@.len() ==> (#[trigger] members@[j]).0@ != key@,
        decreases i,
    {
        i -= 1;
        if same_text(members[i].0.as_str(), key) {
            return Some(i);
        }
    }
    None
}

/// The member with the given name.
pub fn get_member<'a>(members: &'a Vec<(String, Json)>, key: &str) -> (r: Option<&'a Json>)
    ensures
        opt_view(r) == member(JsonView::Object(members_view(members@)), key@),
{
    match entry_of(members, key) {
        Some(i) => {
            proof {
                lemma_members_last(members@, i as int);
            }
            Some(&members[i].1)
        },
        None => {
            proof {
                lemma_members_absent(members@, key@);
            }
            None
        },
    }
}

/// Takes the member of the given name out. Says whether there was one.
pub fn remove_member(members: &mut Vec<(String, Json)>, key: &str) -> (r: bool)
    ensures
        members_view(final(members)@) == members_view(old(members)@).remove(key@),
        r == members_view(old(members)@).contains_key(key@),
{
    let mut removed: bool = false;
    loop
        invariant
            members_view(members@).remove(key@) == members_view(old(members)@).remove(key@),
            removed ==> members_view(old(members)@).contains_key(key@),
            !removed ==> members@ == old(members)@,
        decreases members@.len(),
    {
        match entry_of(members, key) {
            Some(i) => {
                proof {
                    if !removed {
                        lemma_members_last(members@, i as int);
                    }
                    lemma_members_drop_entry(members@, i as int);
                }
                let _ = members.remove(i);
                removed = true;
            },
            None => {
                proof {
                    lemma_members_absent(members@, key@);
                    assert(members_view(members@).remove(key@) =~= members_view(members@));
                }
                return removed;
            },
        }
    }
}

/// Sets the member of the given name.
pub fn set_member(members: &mut Vec<(String, Json)>, key: &str, value: Json)
    ensures
        members_view(final(members)@) == members_view(old(members)@).insert(key@, value@),
{
    let _ = remove_member(members, key);
    let ghost rest = members@;
    let entry: (String, Json) = (key.to_owned(), value);
    proof {
        lemma_members_view_push(rest, entry);
        assert(members_view(old(members)@).remove(key@).insert(key@, value@) =~= members_view(
            old(members)@,
        ).insert(key@, value@));
    }
    members.push(entry);
}

// ---------------------------------------------------------------------------
// Numbers
// ---------------------------------------------------------------------------

/// The number that `serde_json` makes of an integer.
pub uninterp spec fn json_integer(i: i64) -> serde_json::Number;

/// What `serde_json::Number::as_u64` gives for a number.
pub uninterp spec fn number_u64(n: serde_json::Number) -> Option<u64>;

/// `<serde_json::Number as From<i64>>::from`: the same integer always gives the
/// same number, and `as_u64` gives an integer that is not negative back.
#[verifier::external_body]
fn number_from(i: i64) -> (r: serde_json::Number)
    ensures
        r == json_integer(i),
        number_u64(r) == (if i >= 0 {
            Some(i as u64)
        } else {
            None
        }),
{
    serde_json::Number::from(i)
}

/// `serde_json::Number::as_u64`: a function of the number alone.
pub assume_specification[ serde_json::Number::as_u64 ](n: &serde_json::Number) -> (r: Option<u64>)
    ensures
        r == number_u64(*n),
;

/// Cloning a `serde_json::Number` gives the same number.
pub assume_specification[ <serde_json::Number as Clone>::clone ](n: &serde_json::Number) -> (r:
    serde_json::Number)
    ensures
        r == *n,
;

// ---------------------------------------------------------------------------
// Documents
// ---------------------------------------------------------------------------

impl Clone for Json {
    fn clone(&self) -> (r: Self)
        ensures
            r@ == self@,
        decreases self,
    {
        match self {
            Json::Null => Json::Null,
            Json::Bool(b) => Json::Bool(*b),
            Json::Number(n) => Json::Number(n.clone()),
            Json::Text(s) => Json::Text(s.clone()),
            Json::List(items) => {
                let mut copies: Vec<Json> = Vec::new();
                let mut i: usize = 0;
                assert(items@.take(0) =~= Seq::<Json>::empty());
                while i < items.len()
                    invariant
                        i <= items@.len(),
                        *self == Json::List(*items),
                        list_view(copies@) == list_view(items@.take(i as int)),
                    decreases items@.len() - i,
                {
                    proof {
                        lemma_item_smaller(*self, *items, i as int);
                    }
                    let copy: Json = items[i].clone();
                    proof {
                        lemma_list_view_push(copies@, copy);
                        lemma_list_view_push(items@.take(i as int), items@[i as int]);
                        assert(items@.take(i + 1) =~= items@.take(i as int).push(items@[i as int]));
                    }
                    copies.push(copy);
                    i += 1;
                }
                assert(items@.take(items@.len() as int) =~= items@);
                Json::List(copies)
            },
            Json::Object(members) => {
                let mut copies: Vec<(String, Json)> = Vec::new();
                let mut i: usize = 0;
                assert(members@.take(0) =~= Seq::<(String, Json)>::empty());
                while i < members.len()
                    invariant
                        i <= members@.len(),
                        *self == Json::Object(*members),
                        members_view(copies@) == members_view(members@.take(i as int)),
                    decreases members@.len() - i,
                {
                    proof {
                        lemma_entry_smaller(*self, *members, i as int);
                    }
                    let copy: (String, Json) = (members[i].0.clone(), members[i].1.clone());
                    proof {
                        lemma_members_view_push(copies@, copy);
                        lemma_members_view_push(members@.take(i as int), members@[i as int]);
                        assert(members@.take(i + 1) =~= members@.take(i as int).push(
                            members@[i as int],
                        ));
                    }
                    copies.push(copy);
                    i += 1;
                }
                assert(members@.take(members@.len() as int) =~= members@);
                Json::Object(copies)
            },
        }
    }
}

/// An object with the member set.
pub open spec fn with_member(v: JsonView, key: Seq<char>, value: JsonView) -> JsonView {
    match v {
        JsonView::Object(m) => JsonView::Object(m.insert(key, value)),
        _ => v,
    }
}

/// The object without members.
pub open spec fn empty_object() -> JsonView {
    JsonView::Object(Map::empty())
}

impl Json {
    /// A text.
    pub fn text(s: &str) -> (r: Json)
        ensures
            r@ == JsonView::Text(s@),
    {
        Json::Text(s.to_owned())
    }

    /// An integer. One that is not negative is read as such.
    pub fn integer(i: i64) -> (r: Json)
        ensures
            r@ == JsonView::Number(json_integer(i)),
            number_u64(json_integer(i)) == (if i >= 0 {
                Some(i as u64)
            } else {
                None
            }),
    {
        Json::Number(number_from(i))
    }

    /// The object without members.
    pub fn object() -> (r: Json)
        ensures
            r@ == empty_object(),
    {
        Json::Object(Vec::new())
    }

    /// The same object with one member set. What is no object stays as it is.
    pub fn with(self, key: &str, value: Json) -> (r: Json)
        ensures
            r@ == with_member(self@, key@, value@),
    {
        match self {
            Json::Object(members) => {
                let mut members: Vec<(String, Json)> = members;
                set_member(&mut members, key, value);
                Json::Object(members)
            },
            other => other,
        }
    }

    /// The member of the given name.
    pub fn get(&self, key: &str) -> (r: Option<&Json>)
        ensures
            opt_view(r) == member(self@, key@),
    {
        match self {
            Json::Object(members) => get_member(members, key),
            _ => None,
        }
    }

    /// The text that the document is, if it is one.
    pub fn as_text(&self) -> (r: Option<&String>)
        ensures
            opt_text_ref(r) == text_in(Some(self@)),
    {
        match self {
            Json::Text(s) => Some(s),
            _ => None,
        }
    }

    /// The text of the member of the given name, if it is one.
    pub fn get_text(&self, key: &str) -> (r: Option<&String>)
        ensures
            opt_text_ref(r) == text_member(self@, key@),
    {
        match self.get(key) {
            Some(value) => value.as_text(),
            None => None,
        }
    }

    /// The truth value of the member of the given name, if it is one.
    pub fn get_bool(&self, key: &str) -> (r: Option<bool>)
        ensures
            r == bool_member(self@, key@),
    {
        match self.get(key) {
            Some(Json::Bool(b)) => Some(*b),
            _ => None,
        }
    }

    /// The member of the given name as an integer that is not negative, if it is one.
    pub fn get_u64(&self, key: &str) -> (r: Option<u64>)
        ensures
            r == u64_member(self@, key@),
    {
        match self.get(key) {
            Some(Json::Number(n)) => n.as_u64(),
            _ => None,
        }
    }
}

/// A list of texts.
pub open spec fn texts_view(items: Seq<Seq<char>>) -> JsonView {
    JsonView::List(Seq::new(items.len(), |i: int| JsonView::Text(items[i])))
}

/// A list of texts.
pub fn texts(items: Vec<String>) -> (r: Json)
    ensures
        r@ == texts_view(text::strings(items@)),
{
    let mut out: Vec<Json> = Vec::new();
    let mut i: usize = 0;
    while i < items.len()
        invariant
            i <= items@.len(),
            list_view(out@).len() == i,
            forall|j: int|
                0 <= j < i ==> #[trigger] list_view(out@)[j] == JsonView::Text(items@[j]@),
        decreases items@.len() - i,
    {
        let item: Json = Json::Text(items[i].clone());
        proof {
            lemma_list_view_push(out@, item);
        }
        out.push(item);
        i += 1;
    }
    assert(list_view(out@) =~= texts_view(text::strings(items@))->List_0);
    Json::List(out)
}

// ---------------------------------------------------------------------------
// Reading and writing text
// ---------------------------------------------------------------------------

/// What a document of `serde_json` says.
pub uninterp spec fn json_of(value: serde_json::Value) -> JsonView;

/// What `serde_json::from_str` makes of a text: nothing where it reports an error.
pub uninterp spec fn parsed_json(raw: Seq<char>) -> Option<JsonView>;

/// The text that `serde_json::to_string` writes for a document.
pub uninterp spec fn compact_json(v: JsonView) -> Seq<char>;

/// The text that `serde_json::to_string_pretty` writes for a document.
pub uninterp spec fn pretty_json(v: JsonView) -> Seq<char>;

/// A document of `serde_json`, opened by one level.
enum JsonNode {
    Null,
    Bool(bool),
    Number(serde_json::Number),
    Text(String),
    List(Vec<serde_json::Value>),
    Object(Vec<(String, serde_json::Value)>),
}

spec fn values_view(values: Seq<serde_json::Value>) -> Seq<JsonView> {
    Seq::new(values.len(), |i: int| json_of(values[i]))
}

spec fn value_members_view(members: Seq<(String, serde_json::Value)>) -> Map<Seq<char>, JsonView>
    decreases members.len(),
{
    if members.len() == 0 {
        Map::empty()
    } else {
        value_members_view(members.drop_last()).insert(
            members.last().0@,
            json_of(members.last().1),
        )
    }
}

spec fn node_view(node: JsonNode) -> JsonView {
    match node {
        JsonNode::Null => JsonView::Null,
        JsonNode::Bool(b) => JsonView::Bool(b),
        JsonNode::Number(n) => JsonView::Number(n),
        JsonNode::Text(s) => JsonView::Text(s@),
        JsonNode::List(values) => JsonView::List(values_view(values@)),
        JsonNode::Object(members) => JsonView::Object(value_members_view(members@)),
    }
}

spec fn distinct_names(members: Seq<(String, serde_json::Value)>) -> bool {
    forall|i: int, j: int|
        0 <= i < j < members.len() ==> (#[trigger] members[i]).0@ != (#[trigger] members[j]).0@
}

/// Tells the variants of `serde_json::Value` apart. The members of an object come
/// from a map, so that no two have the same name.
#[verifier::external_body]
fn open_value(value: serde_json::Value) -> (r: JsonNode)
    ensures
        node_view(r) == json_of(value),
        r matches JsonNode::Object(members) ==> distinct_names(members@),
{
    match value {
        serde_json::Value::Null => JsonNode::Null,
        serde_json::Value::Bool(b) => JsonNode::Bool(b),
        serde_json::Value::Number(n) => JsonNode::Number(n),
        serde_json::Value::String(s) => JsonNode::Text(s),
        serde_json::Value::Array(items) => JsonNode::List(items),
        serde_json::Value::Object(map) => JsonNode::Object(map.into_iter().collect()),
    }
}

/// Makes a `serde_json::Value` of its variant and content. The members of an object go
/// into a map, and no two of them have the same name.
#[verifier::external_body]
fn close_value(node: JsonNode) -> (r: serde_json::Value)
    requires
        node matches JsonNode::Object(members) ==> distinct_names(members@),
    ensures
        json_of(r) == node_view(node),
{
    match node {
        JsonNode::Null => serde_json::Value::Null,
        JsonNode::Bool(b) => serde_json::Value::Bool(b),
        JsonNode::Number(n) => serde_json::Value::Number(n),
        JsonNode::Text(s) => serde_json::Value::String(s),
        JsonNode::List(items) => serde_json::Value::Array(items),
        JsonNode::Object(members) => serde_json::Value::Object(members.into_iter().collect()),
    }
}

/// Whether a number is an integer of 64 bits, with or without a sign.
pub open spec fn is_integer(n: serde_json::Number) -> bool {
    number_u64(n) is Some || exists|i: i64| n == #[trigger] json_integer(i)
}

/// Whether lists and objects are nested no deeper than the levels, and all numbers are
/// integers.
pub open spec fn nested_within(v: JsonView, levels: nat) -> bool
    decreases levels,
{
    match v {
        JsonView::List(items) => levels > 0 && forall|i: int|
            0 <= i < items.len() ==> nested_within(#[trigger] items[i], (levels - 1) as nat),
        JsonView::Object(m) => levels > 0 && forall|k: Seq<char>| #[trigger]
            m.contains_key(k) ==> nested_within(m[k], (levels - 1) as nat),
        JsonView::Number(n) => is_integer(n),
        _ => true,
    }
}

/// Whether a text written for the document reads back as the same document for
/// certain: its numbers are integers, and it is nested no deeper than the reader goes.
pub open spec fn reads_back(v: JsonView) -> bool {
    nested_within(v, 127)
}

/// `serde_json::from_str::<serde_json::Value>`: a function of the text alone.
#[verifier::external_body]
fn parse_value(raw: &str) -> (r: Option<serde_json::Value>)
    ensures
        match r {
            Some(value) => parsed_json(raw@) == Some(json_of(value)),
            None => parsed_json(raw@) is None,
        },
{
    serde_json::from_str(raw).ok()
}

/// `serde_json::to_string` on a `serde_json::Value`: a function of what the document
/// says. It does not fail, since every object has text for its names. The text of a
/// document that is not too deep and has no other numbers than [`reads_back`] allows is
/// read as the same document.
#[verifier::external_body]
fn value_to_string(value: &serde_json::Value) -> (r: Option<String>)
    ensures
        r is Some,
        r->0@ == compact_json(json_of(*value)),
        reads_back(json_of(*value)) ==> parsed_json(r->0@) == Some(json_of(*value)),
{
    serde_json::to_string(value).ok()
}

/// `serde_json::to_string_pretty` on a `serde_json::Value`: a function of what the
/// document says. It does not fail, since every object has text for its names. The text
/// of a document that is not too deep and has no other numbers than [`reads_back`] allows
/// is read as the same document.
#[verifier::external_body]
fn value_to_string_pretty(value: &serde_json::Value) -> (r: Option<String>)
    ensures
        r is Some,
        r->0@ == pretty_json(json_of(*value)),
        reads_back(json_of(*value)) ==> parsed_json(r->0@) == Some(json_of(*value)),
{
    serde_json::to_string_pretty(value).ok()
}

proof fn lemma_value_member(members: Seq<(String, serde_json::Value)>, at: int)
    requires
        distinct_names(members),
        0 <= at < members.len(),
    ensures
        value_members_view(members).dom().finite(),
        value_members_view(members).contains_key(members[at].0@),
        value_members_view(members)[members[at].0@] == json_of(members[at].1),
    decreases members.len(),
{
    let rest = members.drop_last();
    assert(members.last() == members[members.len() - 1]);
    assert forall|i: int, j: int| 0 <= i < j < rest.len() implies (#[trigger] rest[i]).0@ != (
    #[trigger] rest[j]).0@ by {
        assert(rest[i] == members[i]);
        assert(rest[j] == members[j]);
    }
    if rest.len() > 0 {
        if at < rest.len() {
            lemma_value_member(rest, at);
            assert(rest[at] == members[at]);
            assert(members[at].0@ != members.last().0@);
        } else {
            lemma_value_member(rest, 0);
        }
    } else {
        assert(value_members_view(rest) =~= Map::<Seq<char>, JsonView>::empty());
    }
}

/// The document that a document of `serde_json` says.
fn json_from_value(value: serde_json::Value) -> (r: Json)
    ensures
        r@ == json_of(value),
    decreases json_of(value),
{
    match open_value(value) {
        JsonNode::Null => Json::Null,
        JsonNode::Bool(b) => Json::Bool(b),
        JsonNode::Number(n) => Json::Number(n),
        JsonNode::Text(s) => Json::Text(s),
        JsonNode::List(values) => {
            let ghost all = values@;
            let mut waiting: Vec<serde_json::Value> = list::reversed(values);
            let mut items: Vec<Json> = Vec::new();
            assert(values_view(all).take(0) =~= Seq::<JsonView>::empty());
            while 0 < waiting.len()
                invariant
                    json_of(value) == JsonView::List(values_view(all)),
                    waiting@.len() <= all.len(),
                    forall|i: int|
                        0 <= i < waiting@.len() ==> #[trigger] waiting@[i] == all[all.len() - 1
                            - i],
                    list_view(items@) == values_view(all).take(all.len() - waiting@.len()),
                decreases waiting@.len(),
            {
                let ghost at = all.len() - waiting@.len();
                if let Some(first) = waiting.pop() {
                    proof {
                        assert(first == all[at]);
                        assert(values_view(all)[at] == json_of(first));
                        assert(decreases_to!(json_of(value) => json_of(value)->List_0));
                        assert(decreases_to!(values_view(all) => values_view(all)[at]));
                    }
                    let item: Json = json_from_value(first);
                    proof {
                        lemma_list_view_push(items@, item);
                        assert(values_view(all).take(at + 1) =~= values_view(all).take(at).push(
                            json_of(first),
                        ));
                    }
                    items.push(item);
                }
            }
            assert(values_view(all).take(all.len() as int) =~= values_view(all));
            Json::List(items)
        },
        JsonNode::Object(members) => {
            let ghost all = members@;
            let mut waiting: Vec<(String, serde_json::Value)> = list::reversed(members);
            let mut entries: Vec<(String, Json)> = Vec::new();
            assert(all.take(0) =~= Seq::<(String, serde_json::Value)>::empty());
            while 0 < waiting.len()
                invariant
                    json_of(value) == JsonView::Object(value_members_view(all)),
                    distinct_names(all),
                    waiting@.len() <= all.len(),
                    forall|i: int|
                        0 <= i < waiting@.len() ==> #[trigger] waiting@[i] == all[all.len() - 1
                            - i],
                    members_view(entries@) == value_members_view(
                        all.take(all.len() - waiting@.len()),
                    ),
                decreases waiting@.len(),
            {
                let ghost at = all.len() - waiting@.len();
                if let Some(first) = waiting.pop() {
                    proof {
                        assert(first == all[at]);
                        lemma_value_member(all, at);
                        assert(decreases_to!(json_of(value) => json_of(value)->Object_0));
                        assert(decreases_to!(value_members_view(all) => value_members_view(
                            all,
                        )[first.0@]));
                    }
                    let entry: (String, Json) = (first.0, json_from_value(first.1));
                    proof {
                        lemma_members_view_push(entries@, entry);
                        assert(all.take(at + 1).drop_last() =~= all.take(at));
                        assert(all.take(at + 1).last() == all[at]);
                    }
                    entries.push(entry);
                }
            }
            assert(all.take(all.len() as int) =~= all);
            Json::Object(entries)
        },
    }
}

/// Where the member of a name is replaced, what the members say changes for that name
/// alone.
proof fn lemma_value_replaced(
    members: Seq<(String, serde_json::Value)>,
    at: int,
    entry: (String, serde_json::Value),
)
    requires
        distinct_names(members),
        0 <= at < members.len(),
        members[at].0@ == entry.0@,
    ensures
        distinct_names(members.update(at, entry)),
        value_members_view(members.update(at, entry)) == value_members_view(members).insert(
            entry.0@,
            json_of(entry.1),
        ),
    decreases members.len(),
{
    let after = members.update(at, entry);
    assert forall|i: int, j: int| 0 <= i < j < after.len() implies (#[trigger] after[i]).0@ != (
    #[trigger] after[j]).0@ by {
        assert(after[i].0@ == members[i].0@);
        assert(after[j].0@ == members[j].0@);
    }
    let rest = members.drop_last();
    let key = entry.0@;
    let value = json_of(entry.1);
    let last = members.last();
    assert(last == members[members.len() - 1]);
    let before = value_members_view(rest);
    if at == members.len() - 1 {
        assert(after.drop_last() =~= rest);
        assert(after.last() == entry);
        assert(before.insert(key, json_of(last.1)).insert(key, value) =~= before.insert(key, value));
    } else {
        assert(rest[at] == members[at]);
        assert forall|i: int, j: int| 0 <= i < j < rest.len() implies (#[trigger] rest[i]).0@ != (
        #[trigger] rest[j]).0@ by {
            assert(rest[i] == members[i]);
            assert(rest[j] == members[j]);
        }
        lemma_value_replaced(rest, at, entry);
        assert(after.drop_last() =~= rest.update(at, entry));
        assert(after.last() == last);
        assert(before.insert(key, value).insert(last.0@, json_of(last.1)) =~= before.insert(
            last.0@,
            json_of(last.1),
        ).insert(key, value));
    }
}

/// Where the member of a name stands.
fn find_name(members: &Vec<(String, serde_json::Value)>, name: &str) -> (r: Option<usize>)
    ensures
        match r {
            Some(i) => i < members@.len() && members@[i as int].0@ == name@,
            None => forall|j: int|
                0 <= j < members@.len() ==> (#[trigger] members@[j]).0@ != name@,
        },
{
    let mut i: usize = 0;
    while i < members.len()
        invariant
            i <= members@.len(),
            forall|j: int| 0 <= j < i ==> (#[trigger] members@[j]).0@ != name@,
        decreases members@.len() - i,
    {
        if same_text(members[i].0.as_str(), name) {
            return Some(i);
        }
        i += 1;
    }
    None
}

/// The document of `serde_json` that says what a document says. Of members with the same
/// name the last is kept.
fn value_from_json(json: &Json) -> (r: serde_json::Value)
    ensures
        json_of(r) == json@,
    decreases json,
{
    match json {
        Json::Null => close_value(JsonNode::Null),
        Json::Bool(b) => close_value(JsonNode::Bool(*b)),
        Json::Number(n) => close_value(JsonNode::Number(n.clone())),
        Json::Text(s) => close_value(JsonNode::Text(s.clone())),
        Json::List(items) => {
            let mut values: Vec<serde_json::Value> = Vec::new();
            let mut i: usize = 0;
            while i < items.len()
                invariant
                    i <= items@.len(),
                    *json == Json::List(*items),
                    values@.len() == i,
                    forall|j: int|
                        0 <= j < i ==> json_of(#[trigger] values@[j]) == view_of(items@[j]),
                decreases items@.len() - i,
            {
                proof {
                    lemma_item_smaller(*json, *items, i as int);
                }
                let value: serde_json::Value = value_from_json(&items[i]);
                values.push(value);
                i += 1;
            }
            proof {
                lemma_list_view(items@);
                assert(values_view(values@) =~= list_view(items@));
            }
            close_value(JsonNode::List(values))
        },
        Json::Object(members) => {
            let mut entries: Vec<(String, serde_json::Value)> = Vec::new();
            let mut i: usize = 0;
            assert(members@.take(0) =~= Seq::<(String, Json)>::empty());
            while i < members.len()
                invariant
                    i <= members@.len(),
                    *json == Json::Object(*members),
                    distinct_names(entries@),
                    value_members_view(entries@) == members_view(members@.take(i as int)),
                decreases members@.len() - i,
            {
                proof {
                    lemma_entry_smaller(*json, *members, i as int);
                }
                let entry: (String, serde_json::Value) = (
                    members[i].0.clone(),
                    value_from_json(&members[i].1),
                );
                proof {
                    assert(entries@.push(entry).drop_last() =~= entries@);
                    assert(members@.take(i + 1).drop_last() =~= members@.take(i as int));
                    assert(members@.take(i + 1).last() == members@[i as int]);
                }
                match find_name(&entries, members[i].0.as_str()) {
                    Some(at) => {
                        proof {
                            lemma_value_replaced(entries@, at as int, entry);
                        }
                        entries.set(at, entry);
                    },
                    None => {
                        entries.push(entry);
                    },
                }
                i += 1;
            }
            assert(members@.take(members@.len() as int) =~= members@);
            close_value(JsonNode::Object(entries))
        },
    }
}

/// Reads a document. Nothing comes back where the text is no JSON.
pub fn parse_json(raw: &str) -> (r: Option<Json>)
    ensures
        match r {
            Some(json) => parsed_json(raw@) == Some(json@),
            None => parsed_json(raw@) is None,
        },
{
    match parse_value(raw) {
        Some(value) => Some(json_from_value(value)),
        None => None,
    }
}

/// Writes a document on one line.
pub fn json_string(json: &Json) -> (r: String)
    ensures
        r@ == compact_json(json@),
        reads_back(json@) ==> parsed_json(r@) == Some(json@),
{
    let value: serde_json::Value = value_from_json(json);
    value_to_string(&value).unwrap()
}

/// Writes a document over several lines, indented.
pub fn json_string_pretty(json: &Json) -> (r: String)
    ensures
        r@ == pretty_json(json@),
        reads_back(json@) ==> parsed_json(r@) == Some(json@),
{
    let value: serde_json::Value = value_from_json(json);
    value_to_string_pretty(&value).unwrap()
}

// ---------------------------------------------------------------------------
// Laws
// ---------------------------------------------------------------------------

/// A document says what it holds: a text its characters, a list its items in order, an
/// object the last value of each name.
pub proof fn documents_say_what_they_hold(
    s: String,
    items: Vec<Json>,
    members: Vec<(String, Json)>,
    i: int,
)
    ensures
        Json::Null@ == JsonView::Null,
        Json::Bool(true)@ == JsonView::Bool(true),
        Json::Bool(false)@ == JsonView::Bool(false),
        Json::Text(s)@ == JsonView::Text(s@),
        Json::List(items)@ matches JsonView::List(said) && said.len() == items@.len() && (0 <= i
            < items@.len() ==> said[i] == items@[i]@),
        Json::Object(members)@ is Object,
        0 <= i < members@.len() && (forall|j: int|
            i < j < members@.len() ==> (#[trigger] members@[j]).0@ != members@[i].0@)
            ==> Json::Object(members)@->Object_0.contains_key(members@[i].0@)
            && Json::Object(members)@->Object_0[members@[i].0@] == members@[i].1@,
{
    lemma_list_view(items@);
    if 0 <= i < members@.len() && (forall|j: int|
        i < j < members@.len() ==> (#[trigger] members@[j]).0@ != members@[i].0@) {
        lemma_members_last(members@, i);
    }
}

/// An object has no member that nobody gave it.
pub proof fn objects_say_nothing_else(members: Vec<(String, Json)>, key: Seq<char>)
    requires
        forall|i: int| 0 <= i < members@.len() ==> (#[trigger] members@[i]).0@ != key,
    ensures
        !Json::Object(members)@->Object_0.contains_key(key),
{
    lemma_members_absent(members@, key);
}

/// A member is found under its name and nowhere else: an object says of a name what its
/// members say.
pub proof fn members_are_found_under_their_name(m: Map<Seq<char>, JsonView>, key: Seq<char>)
    ensures
        m.contains_key(key) ==> member(JsonView::Object(m), key) == Some(m[key]),
        !m.contains_key(key) ==> member(JsonView::Object(m), key) is None,
        member(JsonView::Null, key) is None,
        empty_object() == JsonView::Object(Map::empty()),
{
}

/// A member that is set is found as it was given; every other member stays.
pub proof fn set_members_are_found(v: JsonView, key: Seq<char>, value: JsonView, other: Seq<char>)
    ensures
        v is Object ==> with_member(v, key, value) is Object && member(
            with_member(v, key, value),
            key,
        ) == Some(value),
        key != other ==> member(with_member(v, key, value), other) == member(v, other),
        !(v is Object) ==> with_member(v, key, value) == v,
{
}

/// Members are read as what they are: a text with all its characters, a truth value, a
/// number. A member of another kind is not read.
pub proof fn members_are_read_as_they_are(v: JsonView, key: Seq<char>)
    ensures
        match member(v, key) {
            Some(JsonView::Text(s)) => text_member(v, key) == Some(s) && bool_member(v, key) is None
                && u64_member(v, key) is None,
            Some(JsonView::Bool(b)) => bool_member(v, key) == Some(b) && text_member(v, key) is None
                && u64_member(v, key) is None,
            Some(JsonView::Number(n)) => u64_member(v, key) == number_u64(n) && text_member(
                v,
                key,
            ) is None && bool_member(v, key) is None,
            _ => text_member(v, key) is None && bool_member(v, key) is None && u64_member(
                v,
                key,
            ) is None,
        },
{
}

/// An optional text says what it holds.
pub proof fn optional_texts_say_what_they_hold(s: String)
    ensures
        opt_text(Some(s)) == Some(s@),
        opt_text(None) is None,
        opt_text_ref(Some(&s)) == Some(s@),
        opt_text_ref(None) is None,
{
}

/// An optional document says what it holds.
pub proof fn optional_documents_say_what_they_hold(json: Json)
    ensures
        opt_view(Some(&json)) == Some(json@),
        opt_view(None) is None,
{
}

/// A list of texts holds the texts, in order.
pub proof fn lists_of_texts_hold_the_texts(items: Seq<Seq<char>>, i: int)
    requires
        0 <= i < items.len(),
    ensures
        texts_view(items) matches JsonView::List(said) && said.len() == items.len() && said[i]
            == JsonView::Text(items[i]),
{
}

/// A number is carried as it is.
pub proof fn numbers_are_carried(n: serde_json::Number)
    ensures
        Json::Number(n)@ == JsonView::Number(n),
{
}

}
