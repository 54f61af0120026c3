//! JSON values as the library reads and builds them.

use vstd::prelude::*;

use crate::text::{same, texts};

verus! {

/// A JSON value. An object keeps its members in order; where a name occurs
/// more than once, the first member of that name counts.
#[derive(Debug, PartialEq)]
pub enum Json {
    Null,
    Bool(bool),
    /// A number, as its decimal text.
    Number(String),
    Text(String),
    Array(Vec<Json>),
    Object(Vec<(String, Json)>),
}

/// A JSON value in contracts.
#[verifier::ext_equal]
pub enum JsonView {
    Null,
    Bool(bool),
    Number(Seq<char>),
    Text(Seq<char>),
    Array(Seq<JsonView>),
    Object(Seq<(Seq<char>, JsonView)>),
}

impl View for Json {
    type V = JsonView;

    open spec fn view(&self) -> JsonView
        decreases self,
    {
        match self {
            Json::Null => JsonView::Null,
            Json::Bool(value) => JsonView::Bool(*value),
            Json::Number(text) => JsonView::Number(text@),
            Json::Text(text) => JsonView::Text(text@),
            Json::Array(items) => JsonView::Array(
                Seq::new(
                    items@.len(),
                    |i: int|
                        if 0 <= i < items@.len() {
                            items@[i].view()
                        } else {
                            JsonView::Null
                        },
                ),
            ),
            Json::Object(members) => JsonView::Object(
                Seq::new(
                    members@.len(),
                    |i: int|
                        if 0 <= i < members@.len() {
                            (members@[i].0@, members@[i].1.view())
                        } else {
                            (Seq::empty(), JsonView::Null)
                        },
                ),
            ),
        }
    }
}

/// The values of a list.
pub open spec fn json_items(items: Seq<Json>) -> Seq<JsonView> {
    Seq::new(items.len(), |i: int| items[i]@)
}

/// The members of an object.
pub open spec fn json_members(members: Seq<(String, Json)>) -> Seq<(Seq<char>, JsonView)> {
    Seq::new(members.len(), |i: int| (members[i].0@, members[i].1@))
}

/// The view of an array is the array of its items' views.
pub broadcast proof fn lemma_array_view(items: Vec<Json>)
    ensures
        #[trigger] Json::Array(items).view() == JsonView::Array(json_items(items@)),
{
    reveal_with_fuel(<Json as View>::view, 2);
    let seen = Json::Array(items)@->Array_0;
    assert forall|i: int| 0 <= i < items@.len() implies seen[i] == json_items(items@)[i] by {
        assert(seen[i] == items@[i]@);
    }
    assert(seen =~= json_items(items@));
}

/// The view of an object is the object of its members' views.
pub broadcast proof fn lemma_object_view(members: Vec<(String, Json)>)
    ensures
        #[trigger] Json::Object(members).view() == JsonView::Object(json_members(members@)),
{
    reveal_with_fuel(<Json as View>::view, 2);
    let seen = Json::Object(members)@->Object_0;
    assert forall|i: int| 0 <= i < members@.len() implies seen[i] == json_members(members@)[i] by {
        assert(seen[i] == (members@[i].0@, members@[i].1@));
    }
    assert(seen =~= json_members(members@));
}

/// The value that an optional reference holds.
pub open spec fn opt_json(value: Option<&Json>) -> Option<JsonView> {
    match value {
        Some(value) => Some(value@),
        None => None,
    }
}

/// The value of the first member with the given name.
pub open spec fn member_value(members: Seq<(Seq<char>, JsonView)>, name: Seq<char>) -> Option<
    JsonView,
>
    decreases members.len(),
{
    if members.len() == 0 {
        None
    } else if members[0].0 == name {
        Some(members[0].1)
    } else {
        member_value(members.skip(1), name)
    }
}

/// Members with the named one set: in place of the first of that name, or at
/// the end where there is none.
pub open spec fn set_member(
    members: Seq<(Seq<char>, JsonView)>,
    name: Seq<char>,
    value: JsonView,
) -> Seq<(Seq<char>, JsonView)>
    decreases members.len(),
{
    if members.len() == 0 {
        Seq::empty().push((name, value))
    } else if members[0].0 == name {
        Seq::empty().push((name, value)) + members.skip(1)
    } else {
        Seq::empty().push(members[0]) + set_member(members.skip(1), name, value)
    }
}

/// Setting a member sets that one, and leaves every other as it is.
pub proof fn lemma_set_member(
    members: Seq<(Seq<char>, JsonView)>,
    name: Seq<char>,
    value: JsonView,
    sought: Seq<char>,
)
    ensures
        member_value(set_member(members, name, value), sought) == (if sought == name {
            Some(value)
        } else {
            member_value(members, sought)
        }),
    decreases members.len(),
{
    let result = set_member(members, name, value);
    if members.len() == 0 {
        assert(result.skip(1) =~= members);
    } else if members[0].0 == name {
        assert(result.skip(1) =~= members.skip(1));
    } else {
        lemma_set_member(members.skip(1), name, value, sought);
        assert(result.skip(1) =~= set_member(members.skip(1), name, value));
    }
}

/// The object without members.
pub open spec fn empty_object() -> JsonView {
    JsonView::Object(Seq::empty())
}

impl JsonView {
    /// The member of an object; nothing for any other value.
    pub open spec fn member(self, name: Seq<char>) -> Option<JsonView> {
        match self {
            JsonView::Object(members) => member_value(members, name),
            _ => None,
        }
    }

    /// The object with one more member at its end.
    pub open spec fn with(self, name: Seq<char>, value: JsonView) -> JsonView {
        match self {
            JsonView::Object(members) => JsonView::Object(members.push((name, value))),
            other => other,
        }
    }

    /// The object with the named member set.
    pub open spec fn set(self, name: Seq<char>, value: JsonView) -> JsonView {
        match self {
            JsonView::Object(members) => JsonView::Object(set_member(members, name, value)),
            other => other,
        }
    }

    /// The text of a text value.
    pub open spec fn text(self) -> Option<Seq<char>> {
        match self {
            JsonView::Text(text) => Some(text),
            _ => None,
        }
    }

    /// The truth value of a boolean.
    pub open spec fn truth(self) -> Option<bool> {
        match self {
            JsonView::Bool(value) => Some(value),
            _ => None,
        }
    }

    /// The items of an array.
    pub open spec fn items(self) -> Option<Seq<JsonView>> {
        match self {
            JsonView::Array(items) => Some(items),
            _ => None,
        }
    }

    /// The text of a member, where it is present and a text.
    pub open spec fn text_member(self, name: Seq<char>) -> Option<Seq<char>> {
        match self.member(name) {
            Some(value) => value.text(),
            None => None,
        }
    }

    /// The truth value of a member, where it is present and a boolean.
    pub open spec fn truth_member(self, name: Seq<char>) -> Option<bool> {
        match self.member(name) {
            Some(value) => value.truth(),
            None => None,
        }
    }
}

proof fn lemma_pushed_member(
    members: Seq<(Seq<char>, JsonView)>,
    name: Seq<char>,
    added: JsonView,
    sought: Seq<char>,
)
    ensures
        member_value(members.push((name, added)), sought) == match member_value(members, sought) {
            Some(found) => Some(found),
            None => if sought == name {
                Some(added)
            } else {
                None
            },
        },
    decreases members.len(),
{
    let grown = members.push((name, added));
    if members.len() == 0 {
        assert(grown.skip(1) =~= Seq::empty());
        assert(member_value(grown.skip(1), sought) is None);
    } else {
        assert(grown[0] == members[0]);
        if members[0].0 != sought {
            lemma_pushed_member(members.skip(1), name, added, sought);
            assert(grown.skip(1) =~= members.skip(1).push((name, added)));
        }
    }
}

/// A member that was added to an object is read back under its name, and every
/// member that was there before is read as it was.
pub broadcast proof fn law_an_added_member_is_read_back(
    value: JsonView,
    name: Seq<char>,
    added: JsonView,
    sought: Seq<char>,
)
    requires
        value is Object,
    ensures
        value.with(name, added) is Object,
        #[trigger] value.with(name, added).member(sought) == match value.member(sought) {
            Some(found) => Some(found),
            None => if sought == name {
                Some(added)
            } else {
                None
            },
        },
{
    lemma_pushed_member(value->Object_0, name, added, sought);
}

/// An object without members has none to read.
pub broadcast proof fn law_an_empty_object_has_no_members(sought: Seq<char>)
    ensures
        empty_object() is Object,
        #[trigger] empty_object().member(sought) is None,
{
}

/// A member that was set in an object is read back, and every other member is
/// read as it was.
pub broadcast proof fn law_a_set_member_is_read_back(
    value: JsonView,
    name: Seq<char>,
    wanted: JsonView,
    sought: Seq<char>,
)
    requires
        value is Object,
    ensures
        value.set(name, wanted) is Object,
        #[trigger] value.set(name, wanted).member(sought) == (if sought == name {
            Some(wanted)
        } else {
            value.member(sought)
        }),
{
    lemma_set_member(value->Object_0, name, wanted, sought);
}

pub broadcast group group_reading {
    law_an_added_member_is_read_back,
    law_an_empty_object_has_no_members,
    law_a_set_member_is_read_back,
}

/// The member of an object, and `null` where it has none of that name.
pub open spec fn under(value: JsonView, name: Seq<char>) -> JsonView {
    match value.member(name) {
        Some(found) => found,
        None => JsonView::Null,
    }
}

/// Whether a value has a list of so many items under a name.
pub open spec fn lists_under(value: JsonView, name: Seq<char>, count: nat) -> bool {
    under(value, name) matches JsonView::Array(items) && items.len() == count
}

/// The item at a position of the list under a name.
pub open spec fn item_under(value: JsonView, name: Seq<char>, at: int) -> JsonView {
    match under(value, name) {
        JsonView::Array(items) => items[at],
        _ => JsonView::Null,
    }
}

/// The texts that a reader finds in a list.
pub open spec fn read_texts(value: JsonView) -> Seq<Seq<char>> {
    match value {
        JsonView::Array(items) => Seq::new(
            items.len(),
            |i: int|
                match items[i].text() {
                    Some(text) => text,
                    None => Seq::empty(),
                },
        ),
        _ => Seq::empty(),
    }
}

/// A list of texts is read back as it was written.
pub proof fn law_texts_are_read_back(list: Seq<Seq<char>>)
    ensures
        read_texts(text_array(list)) == list,
{
    assert(read_texts(text_array(list)) =~= list);
}

/// The text of an optional text, or another one.
pub open spec fn text_or(value: Option<Seq<char>>, other: Seq<char>) -> Seq<char> {
    match value {
        Some(text) => text,
        None => other,
    }
}

impl Json {
    /// The member of an object with the given name.
    pub fn get(&self, name: &str) -> (result: Option<&Json>)
        ensures
            opt_json(result) == self@.member(name@),
            result matches Some(value) ==> decreases_to!(*self => *value),
    {
        match self {
            Json::Object(members) => {
                let ghost all = json_members(members@);
                proof {
                    lemma_object_view(*members);
                    assert(all.skip(0) =~= all);
                }
                let mut i: usize = 0;
                while i < members.len()
                    invariant
                        i <= members@.len(),
                        all == json_members(members@),
                        member_value(all, name@) == member_value(all.skip(i as int), name@),
                        *self == Json::Object(*members),
                        self@ == JsonView::Object(all),
                    decreases members@.len() - i,
                {
                    if same(&members[i].0, name) {
                        proof {
                            assert(decreases_to!(*self => members@[i as int].1)) by {
                                assert(decreases_to!(*self => self->Object_0));
                                assert(decreases_to!(members => members@));
                                assert(decreases_to!(members@ => members@[i as int]));
                                assert(decreases_to!(members@[i as int] => members@[i as int].1));
                            }
                        }
                        return Some(&members[i].1);
                    }
                    proof {
                        assert(all.skip(i as int).skip(1) =~= all.skip(i + 1));
                    }
                    i += 1;
                }
                None
            },
            _ => None,
        }
    }

    /// The text of a text value.
    pub fn as_str(&self) -> (result: Option<&str>)
        ensures
            result is Some <==> self@.text() is Some,
            result matches Some(text) ==> self@.text() == Some(text@),
    {
        match self {
            Json::Text(text) => Some(text.as_str()),
            _ => None,
        }
    }

    /// The truth value of a boolean.
    pub fn as_bool(&self) -> (result: Option<bool>)
        ensures
            result == self@.truth(),
    {
        match self {
            Json::Bool(value) => Some(*value),
            _ => None,
        }
    }

    /// The items of an array.
    pub fn as_array(&self) -> (result: Option<&Vec<Json>>)
        ensures
            result is Some <==> self@.items() is Some,
            result matches Some(items) ==> self@.items() == Some(json_items(items@)),
    {
        match self {
            Json::Array(items) => {
                proof {
                    lemma_array_view(*items);
                }
                Some(items)
            },
            _ => None,
        }
    }

    /// Whether the value is an object.
    pub fn is_object(&self) -> (result: bool)
        ensures
            result == (self@ is Object),
    {
        matches!(self, Json::Object(_))
    }

    /// The text of a member, where it is present and a text.
    pub fn str_member(&self, name: &str) -> (result: Option<&str>)
        ensures
            result is Some <==> self@.text_member(name@) is Some,
            result matches Some(text) ==> self@.text_member(name@) == Some(text@),
    {
        match self.get(name) {
            Some(value) => value.as_str(),
            None => None,
        }
    }

    /// The text of a member, or another text where there is none.
    pub fn str_member_or<'a>(&'a self, name: &str, other: &'a str) -> (result: &'a str)
        ensures
            result@ == text_or(self@.text_member(name@), other@),
    {
        match self.str_member(name) {
            Some(text) => text,
            None => other,
        }
    }

    /// The truth value of a member, where it is present and a boolean.
    pub fn bool_member(&self, name: &str) -> (result: Option<bool>)
        ensures
            result == self@.truth_member(name@),
    {
        match self.get(name) {
            Some(value) => value.as_bool(),
            None => None,
        }
    }

    /// A copy of the value.
    pub fn copy(&self) -> (result: Json)
        ensures
            result@ == self@,
        decreases self,
    {
        match self {
            Json::Null => Json::Null,
            Json::Bool(value) => Json::Bool(*value),
            Json::Number(text) => Json::Number(text.clone()),
            Json::Text(text) => Json::Text(text.clone()),
            Json::Array(items) => {
                let mut copies: Vec<Json> = Vec::new();
                let mut i: usize = 0;
                while i < items.len()
                    invariant
                        i <= items@.len(),
                        copies@.len() == i,
                        *self == Json::Array(*items),
                        forall|k: int| 0 <= k < i ==> #[trigger] copies@[k]@ == items@[k]@,
                    decreases items@.len() - i,
                {
                    proof {
                        assert(decreases_to!(*self => items@[i as int])) by {
                            assert(decreases_to!(*self => self->Array_0));
                            assert(decreases_to!(items => items@));
                            assert(decreases_to!(items@ => items@[i as int]));
                        }
                    }
                    copies.push(items[i].copy());
                    i += 1;
                }
                proof {
                    lemma_array_view(*items);
                    lemma_array_view(copies);
                    assert(json_items(copies@) =~= json_items(items@));
                }
                Json::Array(copies)
            },
            Json::Object(members) => {
                let mut copies: Vec<(String, Json)> = Vec::new();
                let mut i: usize = 0;
                while i < members.len()
                    invariant
                        i <= members@.len(),
                        copies@.len() == i,
                        *self == Json::Object(*members),
                        forall|k: int|
                            0 <= k < i ==> (#[trigger] copies@[k]).0@ == members@[k].0@
                                && copies@[k].1@ == members@[k].1@,
                    decreases members@.len() - i,
                {
                    proof {
                        assert(decreases_to!(*self => members@[i as int].1)) by {
                            assert(decreases_to!(*self => self->Object_0));
                            assert(decreases_to!(members => members@));
                            assert(decreases_to!(members@ => members@[i as int]));
                            assert(decreases_to!(members@[i as int] => members@[i as int].1));
                        }
                    }
                    copies.push((members[i].0.clone(), members[i].1.copy()));
                    i += 1;
                }
                proof {
                    lemma_object_view(*members);
                    lemma_object_view(copies);
                    assert(json_members(copies@) =~= json_members(members@));
                }
                Json::Object(copies)
            },
        }
    }
}

/// A truth value as a JSON value.
pub fn json_bool(value: bool) -> (result: Json)
    ensures
        result@ == JsonView::Bool(value),
{
    Json::Bool(value)
}

/// A number, given as its decimal text.
pub fn json_number(text: &str) -> (result: Json)
    ensures
        result@ == JsonView::Number(text@),
{
    Json::Number(text.to_owned())
}

/// The JSON `null`.
pub fn json_null() -> (result: Json)
    ensures
        result@ == JsonView::Null,
{
    Json::Null
}

/// A text as a JSON value.
pub fn json_text(text: &str) -> (result: Json)
    ensures
        result@ == JsonView::Text(text@),
{
    Json::Text(text.to_owned())
}

/// An optional text as a JSON value, `null` where there is none.
pub open spec fn text_or_null(text: Option<Seq<char>>) -> JsonView {
    match text {
        Some(text) => JsonView::Text(text),
        None => JsonView::Null,
    }
}

/// An optional text as a JSON value, `null` where there is none.
pub fn json_opt_text(text: &Option<String>) -> (result: Json)
    ensures
        result@ == text_or_null(crate::text::opt_text(*text)),
{
    match text {
        Some(text) => json_text(text),
        None => Json::Null,
    }
}

/// An object under construction: it starts empty, and takes its members one by
/// one.
pub fn object() -> (result: Json)
    ensures
        result@ == empty_object(),
{
    let members: Vec<(String, Json)> = Vec::new();
    proof {
        lemma_object_view(members);
        assert(json_members(members@) =~= Seq::empty());
    }
    Json::Object(members)
}

impl Json {
    /// The object with one more member at its end.
    pub fn with(self, name: &str, value: Json) -> (result: Json)
        ensures
            result@ == self@.with(name@, value@),
    {
        match self {
            Json::Object(members) => {
                let mut members: Vec<(String, Json)> = members;
                let ghost before = members;
                members.push((name.to_owned(), value));
                proof {
                    lemma_object_view(before);
                    lemma_object_view(members);
                    assert(json_members(members@) =~= json_members(before@).push((name@, value@)));
                }
                Json::Object(members)
            },
            other => other,
        }
    }
}

impl Json {
    /// The object with the named member set: in place of the first of that
    /// name, or at the end where there is none.
    pub fn set(self, name: &str, value: Json) -> (result: Json)
        ensures
            result@ == self@.set(name@, value@),
    {
        match self {
            Json::Object(members) => {
                let mut members: Vec<(String, Json)> = members;
                let ghost before = members;
                let ghost all = json_members(members@);
                let mut i: usize = 0;
                proof {
                    lemma_object_view(before);
                    assert(all.skip(0) =~= all);
                    assert(all.take(0) + set_member(all.skip(0), name@, value@) =~= set_member(
                        all,
                        name@,
                        value@,
                    ));
                }
                #[verifier::loop_isolation(false)]
                while i < members.len()
                    invariant
                        i <= members@.len(),
                        members == before,
                        all == json_members(members@),
                        set_member(all, name@, value@) == all.take(i as int) + set_member(
                            all.skip(i as int),
                            name@,
                            value@,
                        ),
                    decreases members@.len() - i,
                {
                    proof {
                        assert(all.skip(i as int)[0] == all[i as int]);
                        assert(all.skip(i as int).skip(1) =~= all.skip(i + 1));
                    }
                    if same(&members[i].0, name) {
                        members.set(i, (name.to_owned(), value));
                        proof {
                            assert(json_members(members@) =~= all.take(i as int) + (
                            Seq::empty().push((name@, value@)) + all.skip(i + 1)));
                            lemma_object_view(members);
                        }
                        return Json::Object(members);
                    }
                    proof {
                        assert(all.take(i as int) + (Seq::empty().push(all[i as int]) + set_member(
                            all.skip(i + 1),
                            name@,
                            value@,
                        )) =~= all.take(i + 1) + set_member(all.skip(i + 1), name@, value@));
                    }
                    i += 1;
                }
                members.push((name.to_owned(), value));
                proof {
                    assert(all.skip(all.len() as int) =~= Seq::empty());
                    assert(json_members(members@) =~= all.take(all.len() as int)
                        + Seq::empty().push((name@, value@)));
                    lemma_object_view(members);
                }
                Json::Object(members)
            },
            other => other,
        }
    }

    /// A copy of an optional value.
    pub fn copy_opt(value: Option<&Json>) -> (result: Option<Json>)
        ensures
            match result {
                Some(copy) => opt_json(value) == Some(copy@),
                None => value is None,
            },
    {
        match value {
            Some(value) => Some(value.copy()),
            None => None,
        }
    }
}

/// A list of texts as a JSON array.
pub open spec fn text_array(list: Seq<Seq<char>>) -> JsonView {
    JsonView::Array(Seq::new(list.len(), |i: int| JsonView::Text(list[i])))
}

/// A list of texts as a JSON array.
pub fn json_texts(list: &Vec<String>) -> (result: Json)
    ensures
        result@ == text_array(texts(list@)),
{
    let mut items: Vec<Json> = Vec::new();
    let mut i: usize = 0;
    while i < list.len()
        invariant
            i <= list@.len(),
            items@.len() == i,
            forall|k: int| 0 <= k < i ==> #[trigger] items@[k]@ == JsonView::Text(list@[k]@),
        decreases list@.len() - i,
    {
        items.push(json_text(&list[i]));
        i += 1;
    }
    proof {
        lemma_array_view(items);
        assert(json_items(items@) =~= text_array(texts(list@))->Array_0);
    }
    Json::Array(items)
}

/// `serde_json::Value`, a parsed JSON document.
#[verifier::external_type_specification]
#[verifier::external_body]
pub struct ExternalValue(serde_json::Value);

/// What a parsed document holds.
pub uninterp spec fn document(value: serde_json::Value) -> JsonView;

/// What parsing a text as JSON gives: the document, or the parser's complaint.
pub uninterp spec fn parsed_text(text: Seq<char>) -> Result<JsonView, Seq<char>>;

/// What parsing bytes as JSON gives: the document, or the parser's complaint.
pub uninterp spec fn parsed_bytes(bytes: Seq<u8>) -> Result<JsonView, Seq<char>>;

/// `serde_json::from_str` into a `serde_json::Value`: the document in the text,
/// or the error's message, a function of the text alone.
#[verifier::external_body]
fn value_of_text(text: &str) -> (result: Result<serde_json::Value, String>)
    ensures
        match result {
            Ok(value) => parsed_text(text@) == Ok::<JsonView, Seq<char>>(document(value)),
            Err(message) => parsed_text(text@) == Err::<JsonView, Seq<char>>(message@),
        },
{
    serde_json::from_str::<serde_json::Value>(text).map_err(|error| error.to_string())
}

/// `serde_json::from_slice` into a `serde_json::Value`: the document in the
/// bytes, or the error's message, a function of the bytes alone.
#[verifier::external_body]
fn value_of_bytes(bytes: &[u8]) -> (result: Result<serde_json::Value, String>)
    ensures
        match result {
            Ok(value) => parsed_bytes(bytes@) == Ok::<JsonView, Seq<char>>(document(value)),
            Err(message) => parsed_bytes(bytes@) == Err::<JsonView, Seq<char>>(message@),
        },
{
    serde_json::from_slice::<serde_json::Value>(bytes).map_err(|error| error.to_string())
}

/// Reads a `serde_json::Value` variant by variant: what it holds, with a number
/// as its decimal text and an object's members in the order of its map.
#[verifier::external_body]
fn json_of_value(value: serde_json::Value) -> (result: Json)
    ensures
        result@ == document(value),
{
    match value {
        serde_json::Value::Null => Json::Null,
        serde_json::Value::Bool(value) => Json::Bool(value),
        serde_json::Value::Number(number) => Json::Number(number.to_string()),
        serde_json::Value::String(text) => Json::Text(text),
        serde_json::Value::Array(items) => {
            Json::Array(items.into_iter().map(json_of_value).collect())
        },
        serde_json::Value::Object(members) => Json::Object(
            members.into_iter().map(|(name, value)| (name, json_of_value(value))).collect(),
        ),
    }
}

impl Json {
    /// The value that a parsed document holds.
    pub fn from_value(value: serde_json::Value) -> (result: Json)
        ensures
            result@ == document(value),
    {
        json_of_value(value)
    }

    /// Parses a text as JSON.
    pub fn parse(text: &str) -> (result: Result<Json, String>)
        ensures
            match result {
                Ok(json) => parsed_text(text@) == Ok::<JsonView, Seq<char>>(json@),
                Err(message) => parsed_text(text@) == Err::<JsonView, Seq<char>>(message@),
            },
    {
        match value_of_text(text) {
            Ok(value) => Ok(json_of_value(value)),
            Err(message) => Err(message),
        }
    }

    /// Parses bytes as JSON.
    pub fn parse_bytes(bytes: &[u8]) -> (result: Result<Json, String>)
        ensures
            match result {
                Ok(json) => parsed_bytes(bytes@) == Ok::<JsonView, Seq<char>>(json@),
                Err(message) => parsed_bytes(bytes@) == Err::<JsonView, Seq<char>>(message@),
            },
    {
        match value_of_bytes(bytes) {
            Ok(value) => Ok(json_of_value(value)),
            Err(message) => Err(message),
        }
    }
}

} // verus!
