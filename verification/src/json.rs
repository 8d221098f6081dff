//! JSON values.

use crate::text::{same_text, str_text};
use vstd::prelude::*;
use vstd::string::*;

verus! {

/// A JSON number: a whole number that is not negative, a negative whole number,
/// or any other in decimal notation.
#[derive(Debug, PartialEq, Eq)]
pub enum Number {
    Natural(u64),
    Negative(i64),
    Float(String),
}

/// The value of a [`Number`].
#[verifier::ext_equal]
pub ghost enum NumberView {
    Natural(u64),
    Negative(i64),
    Float(Seq<char>),
}

impl View for Number {
    type V = NumberView;

    open spec fn view(&self) -> NumberView {
        match *self {
            Number::Natural(n) => NumberView::Natural(n),
            Number::Negative(n) => NumberView::Negative(n),
            Number::Float(text) => NumberView::Float(text@),
        }
    }
}

impl Clone for Number {
    fn clone(&self) -> (res: Number)
        ensures
            res == *self,
    {
        match self {
            Number::Natural(n) => Number::Natural(*n),
            Number::Negative(n) => Number::Negative(*n),
            Number::Float(text) => Number::Float(text.clone()),
        }
    }
}

/// The values of numbers.
pub open spec fn number_rows(numbers: Seq<Number>) -> Seq<NumberView> {
    numbers.map_values(|n: Number| n@)
}

/// A JSON value.
#[derive(Debug)]
pub enum Json {
    Null,
    Bool(bool),
    Number(Number),
    Text(String),
    Array(Vec<Json>),
    Object(Vec<(String, Json)>),
}

/// The value of a [`Json`].
#[verifier::ext_equal]
pub ghost enum JsonView {
    Null,
    Bool(bool),
    Number(NumberView),
    Text(Seq<char>),
    Array(Seq<JsonView>),
    Object(Seq<(Seq<char>, JsonView)>),
}

impl Json {
    /// The value, with the values of its parts.
    pub open spec fn value(self) -> JsonView
        decreases self,
    {
        match self {
            Json::Null => JsonView::Null,
            Json::Bool(b) => JsonView::Bool(b),
            Json::Number(n) => JsonView::Number(n@),
            Json::Text(s) => JsonView::Text(s@),
            Json::Array(items) => JsonView::Array(
                Seq::new(
                    items@.len(),
                    |i: int|
                        if 0 <= i < items@.len() {
                            items@[i].value()
                        } else {
                            JsonView::Null
                        },
                ),
            ),
            Json::Object(members) => JsonView::Object(
                Seq::new(
                    members@.len(),
                    |i: int|
                        if 0 <= i < members@.len() {
                            (members@[i].0@, members@[i].1.value())
                        } else {
                            (Seq::empty(), JsonView::Null)
                        },
                ),
            ),
        }
    }
}

impl View for Json {
    type V = JsonView;

    open spec fn view(&self) -> JsonView {
        self.value()
    }
}

/// The members of an object.
pub open spec fn member_rows(members: Seq<(String, Json)>) -> Seq<(Seq<char>, JsonView)> {
    members.map_values(|m: (String, Json)| (m.0@, m.1@))
}

/// The items of an array.
pub open spec fn item_rows(items: Seq<Json>) -> Seq<JsonView> {
    items.map_values(|j: Json| j@)
}

/// An array holds the values of its items.
pub broadcast proof fn lemma_array_view(items: Vec<Json>)
    ensures
        (#[trigger] Json::Array(items).view()) == JsonView::Array(item_rows(items@)),
{
    let v = Json::Array(items)@;
    assert(v->Array_0 =~= item_rows(items@));
}

/// An object holds the values of its members.
pub broadcast proof fn lemma_object_view(members: Vec<(String, Json)>)
    ensures
        (#[trigger] Json::Object(members).view()) == JsonView::Object(member_rows(members@)),
{
    let v = Json::Object(members)@;
    assert(v->Object_0 =~= member_rows(members@));
}

/// The value of the first member with the key.
pub open spec fn member(members: Seq<(Seq<char>, JsonView)>, key: Seq<char>) -> Option<JsonView>
    decreases members.len(),
{
    if members.len() == 0 {
        None
    } else if members[0].0 == key {
        Some(members[0].1)
    } else {
        member(members.drop_first(), key)
    }
}

impl JsonView {
    /// The member of an object with the key.
    pub open spec fn get(self, key: Seq<char>) -> Option<JsonView> {
        match self {
            JsonView::Object(members) => member(members, key),
            _ => None,
        }
    }

    /// The text member with the key.
    pub open spec fn text_at(self, key: Seq<char>) -> Option<Seq<char>> {
        match self.get(key) {
            Some(JsonView::Text(s)) => Some(s),
            _ => None,
        }
    }

    /// The truth value of the member with the key.
    pub open spec fn bool_at(self, key: Seq<char>) -> Option<bool> {
        match self.get(key) {
            Some(JsonView::Bool(b)) => Some(b),
            _ => None,
        }
    }

    /// The member with the key, where it is a whole number that is not negative.
    pub open spec fn natural_at(self, key: Seq<char>) -> Option<u64> {
        match self.get(key) {
            Some(JsonView::Number(NumberView::Natural(n))) => Some(n),
            _ => None,
        }
    }

    /// The items of the array member with the key.
    pub open spec fn array_at(self, key: Seq<char>) -> Option<Seq<JsonView>> {
        match self.get(key) {
            Some(JsonView::Array(items)) => Some(items),
            _ => None,
        }
    }

    /// An object with one more member at its end.
    pub open spec fn with(self, key: Seq<char>, value: JsonView) -> JsonView {
        match self {
            JsonView::Object(members) => JsonView::Object(members.push((key, value))),
            _ => self,
        }
    }

    /// An array with one more item at its end.
    pub open spec fn item(self, value: JsonView) -> JsonView {
        match self {
            JsonView::Array(items) => JsonView::Array(items.push(value)),
            _ => self,
        }
    }
}

/// The object without members.
pub open spec fn empty_object() -> JsonView {
    JsonView::Object(Seq::empty())
}

/// The array without items.
pub open spec fn empty_array() -> JsonView {
    JsonView::Array(Seq::empty())
}

/// The value of an optional JSON value.
pub open spec fn opt_json(j: Option<Json>) -> Option<JsonView> {
    match j {
        Some(j) => Some(j@),
        None => None,
    }
}

/// The value behind an optional reference.
pub open spec fn ref_json(j: Option<&Json>) -> Option<JsonView> {
    match j {
        Some(j) => Some(j@),
        None => None,
    }
}

impl Json {
    /// The object without members.
    pub fn object() -> (res: Json)
        ensures
            res@ == empty_object(),
    {
        let res = Json::Object(Vec::new());
        proof {
            assert(res@->Object_0 =~= Seq::empty());
        }
        res
    }

    /// The array without items.
    pub fn array() -> (res: Json)
        ensures
            res@ == empty_array(),
    {
        let res = Json::Array(Vec::new());
        proof {
            assert(res@->Array_0 =~= Seq::empty());
        }
        res
    }

    /// A text.
    pub fn text(s: &str) -> (res: Json)
        ensures
            res@ == JsonView::Text(s@),
    {
        Json::Text(s.to_owned())
    }

    /// An object with one more member at its end; any other value as it is.
    pub fn with(self, key: &str, value: Json) -> (res: Json)
        ensures
            res@ == self@.with(key@, value@),
    {
        broadcast use {lemma_object_view, lemma_array_view};

        match self {
            Json::Object(members) => {
                let mut members = members;
                let ghost before = member_rows(members@);
                members.push((key.to_owned(), value));
                proof {
                    assert(member_rows(members@) =~= before.push((key@, value@)));
                }
                Json::Object(members)
            },
            other => other,
        }
    }

    /// An array with one more item at its end; any other value as it is.
    pub fn item(self, value: Json) -> (res: Json)
        ensures
            res@ == self@.item(value@),
    {
        broadcast use {lemma_object_view, lemma_array_view};

        match self {
            Json::Array(items) => {
                let mut items = items;
                let ghost before = item_rows(items@);
                items.push(value);
                proof {
                    assert(item_rows(items@) =~= before.push(value@));
                }
                Json::Array(items)
            },
            other => other,
        }
    }

    /// The member of an object with the key.
    pub fn get(&self, key: &str) -> (res: Option<&Json>)
        ensures
            ref_json(res) == self@.get(key@),
    {
        broadcast use {lemma_object_view, lemma_array_view};

        match self {
            Json::Object(members) => {
                let ghost rows = member_rows(members@);
                let mut i: usize = 0;
                proof {
                    assert(rows.skip(0) =~= rows);
                }
                while i < members.len()
                    invariant
                        i <= members@.len(),
                        rows == member_rows(members@),
                        self@ == JsonView::Object(rows),
                        member(rows, key@) == member(rows.skip(i as int), key@),
                    decreases members@.len() - i,
                {
                    proof {
                        assert(rows.skip(i as int).drop_first() =~= rows.skip(i + 1));
                        assert(rows.skip(i as int)[0] == rows[i as int]);
                        assert(rows[i as int] == (members@[i as int].0@, members@[i as int].1@));
                    }
                    if same_text(members[i].0.as_str(), key) {
                        return Some(&members[i].1);
                    }
                    i += 1;
                }
                None
            },
            _ => None,
        }
    }

    /// The text member with the key.
    pub fn text_at(&self, key: &str) -> (res: Option<&str>)
        ensures
            str_text(res) == self@.text_at(key@),
    {
        match self.get(key) {
            Some(Json::Text(s)) => Some(s.as_str()),
            _ => None,
        }
    }

    /// The truth value of the member with the key.
    pub fn bool_at(&self, key: &str) -> (res: Option<bool>)
        ensures
            res == self@.bool_at(key@),
    {
        match self.get(key) {
            Some(Json::Bool(b)) => Some(*b),
            _ => None,
        }
    }

    /// The member with the key, where it is a whole number that is not negative.
    pub fn natural_at(&self, key: &str) -> (res: Option<u64>)
        ensures
            res == self@.natural_at(key@),
    {
        match self.get(key) {
            Some(Json::Number(Number::Natural(n))) => Some(*n),
            _ => None,
        }
    }

    /// The items of the array member with the key.
    pub fn array_at(&self, key: &str) -> (res: Option<&Vec<Json>>)
        ensures
            match self@.array_at(key@) {
                Some(items) => res is Some && item_rows(res->0@) == items,
                None => res is None,
            },
    {
        broadcast use {lemma_object_view, lemma_array_view};

        match self.get(key) {
            Some(Json::Array(items)) => Some(items),
            _ => None,
        }
    }
}

} // verus!
