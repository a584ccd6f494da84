//! JSON values.

use crate::text::same_text;
use vstd::prelude::*;

verus! {

/// A JSON number: an integer that fits 64 bits, or the decimal text of any
/// other number.
#[derive(Debug)]
pub enum JsonNumber {
    Unsigned(u64),
    Signed(i64),
    Other(String),
}

/// A JSON value. Where an object holds a key more than once, the last entry
/// counts.
#[derive(Debug)]
pub enum Json {
    Null,
    Bool(bool),
    Number(JsonNumber),
    Str(String),
    Array(Vec<Json>),
    Object(Vec<(String, Json)>),
}

/// What a [`JsonNumber`] stands for.
pub enum NumberModel {
    Unsigned(u64),
    Signed(i64),
    Other(Seq<char>),
}

/// What a [`Json`] stands for.
pub enum JsonModel {
    Null,
    Bool(bool),
    Number(NumberModel),
    Str(Seq<char>),
    Array(Seq<JsonModel>),
    Object(Seq<(Seq<char>, JsonModel)>),
}

impl View for JsonNumber {
    type V = NumberModel;

    open spec fn view(&self) -> NumberModel {
        match *self {
            JsonNumber::Unsigned(n) => NumberModel::Unsigned(n),
            JsonNumber::Signed(n) => NumberModel::Signed(n),
            JsonNumber::Other(text) => NumberModel::Other(text@),
        }
    }
}

impl View for Json {
    type V = JsonModel;

    open spec fn view(&self) -> JsonModel {
        self.model()
    }
}

/// The value that the last of the entries with the key `key` holds.
pub open spec fn lookup(entries: Seq<(Seq<char>, JsonModel)>, key: Seq<char>) -> Option<JsonModel>
    decreases entries.len(),
{
    if entries.len() == 0 {
        None
    } else if entries.last().0 == key {
        Some(entries.last().1)
    } else {
        lookup(entries.drop_last(), key)
    }
}

impl NumberModel {
    pub open spec fn as_u64(self) -> Option<u64> {
        match self {
            NumberModel::Unsigned(n) => Some(n),
            NumberModel::Signed(n) => if n >= 0 {
                Some(n as u64)
            } else {
                None
            },
            NumberModel::Other(_) => None,
        }
    }

    pub open spec fn as_i64(self) -> Option<i64> {
        match self {
            NumberModel::Unsigned(n) => if n <= i64::MAX {
                Some(n as i64)
            } else {
                None
            },
            NumberModel::Signed(n) => Some(n),
            NumberModel::Other(_) => None,
        }
    }
}

impl JsonModel {
    /// The object without entries.
    pub open spec fn object() -> JsonModel {
        JsonModel::Object(Seq::empty())
    }

    /// This object with one more entry.
    pub open spec fn with(self, key: Seq<char>, value: JsonModel) -> JsonModel {
        match self {
            JsonModel::Object(entries) => JsonModel::Object(entries.push((key, value))),
            _ => self,
        }
    }

    /// The value of an entry, if this is an object with that key.
    pub open spec fn get(self, key: Seq<char>) -> Option<JsonModel> {
        match self {
            JsonModel::Object(entries) => lookup(entries, key),
            _ => None,
        }
    }

    pub open spec fn as_str(self) -> Option<Seq<char>> {
        match self {
            JsonModel::Str(text) => Some(text),
            _ => None,
        }
    }

    pub open spec fn as_u64(self) -> Option<u64> {
        match self {
            JsonModel::Number(number) => number.as_u64(),
            _ => None,
        }
    }

    pub open spec fn as_i64(self) -> Option<i64> {
        match self {
            JsonModel::Number(number) => number.as_i64(),
            _ => None,
        }
    }

    /// The string that an entry holds.
    pub open spec fn str_at(self, key: Seq<char>) -> Option<Seq<char>> {
        match self.get(key) {
            Some(value) => value.as_str(),
            None => None,
        }
    }

    /// The string that an entry holds, or else the empty string.
    pub open spec fn text_at(self, key: Seq<char>) -> Seq<char> {
        match self.str_at(key) {
            Some(text) => text,
            None => Seq::empty(),
        }
    }

    /// The unsigned number that an entry holds.
    pub open spec fn u64_at(self, key: Seq<char>) -> Option<u64> {
        match self.get(key) {
            Some(value) => value.as_u64(),
            None => None,
        }
    }
}

/// An object with one more entry has that entry, and every other one as before.
pub proof fn law_get_after_with(
    entries: Seq<(Seq<char>, JsonModel)>,
    key: Seq<char>,
    value: JsonModel,
    other: Seq<char>,
)
    ensures
        JsonModel::Object(entries).with(key, value).get(key) == Some(value),
        other != key ==> JsonModel::Object(entries).with(key, value).get(other)
            == JsonModel::Object(entries).get(other),
{
    assert(entries.push((key, value)).drop_last() =~= entries);
}

impl JsonNumber {
    /// The number that is `unsigned`, or else `signed`, or else has the decimal
    /// text `text`.
    pub fn from_parts(unsigned: Option<u64>, signed: Option<i64>, text: String) -> (number: Self)
        ensures
            number@ == match (unsigned, signed) {
                (Some(n), _) => NumberModel::Unsigned(n),
                (None, Some(n)) => NumberModel::Signed(n),
                (None, None) => NumberModel::Other(text@),
            },
    {
        match (unsigned, signed) {
            (Some(n), _) => JsonNumber::Unsigned(n),
            (None, Some(n)) => JsonNumber::Signed(n),
            (None, None) => JsonNumber::Other(text),
        }
    }

    /// The number, where it is an integer that fits `u64`.
    pub fn as_u64(&self) -> (number: Option<u64>)
        ensures
            number == self@.as_u64(),
    {
        match self {
            JsonNumber::Unsigned(n) => Some(*n),
            JsonNumber::Signed(n) => if *n >= 0 {
                Some(*n as u64)
            } else {
                None
            },
            JsonNumber::Other(_) => None,
        }
    }

    /// The number, where it is an integer that fits `i64`.
    pub fn as_i64(&self) -> (number: Option<i64>)
        ensures
            number == self@.as_i64(),
    {
        match self {
            JsonNumber::Unsigned(n) => if *n <= i64::MAX as u64 {
                Some(*n as i64)
            } else {
                None
            },
            JsonNumber::Signed(n) => Some(*n),
            JsonNumber::Other(_) => None,
        }
    }
}

impl Json {
    pub open spec fn model(self) -> JsonModel
        decreases self,
    {
        match self {
            Json::Null => JsonModel::Null,
            Json::Bool(value) => JsonModel::Bool(value),
            Json::Number(number) => JsonModel::Number(number@),
            Json::Str(text) => JsonModel::Str(text@),
            Json::Array(items) => JsonModel::Array(
                Seq::new(
                    items@.len(),
                    |i: int|
                        if 0 <= i < items@.len() {
                            items@[i].model()
                        } else {
                            JsonModel::Null
                        },
                ),
            ),
            Json::Object(entries) => JsonModel::Object(
                Seq::new(
                    entries@.len(),
                    |i: int|
                        if 0 <= i < entries@.len() {
                            (entries@[i].0@, entries@[i].1.model())
                        } else {
                            (Seq::empty(), JsonModel::Null)
                        },
                ),
            ),
        }
    }

    /// The object without entries.
    pub fn object() -> (value: Json)
        ensures
            value@ == JsonModel::object(),
    {
        let value = Json::Object(Vec::new());
        assert(value@->Object_0 =~= Seq::empty());
        value
    }

    /// This object with one more entry; any other value stays as it is.
    pub fn with(self, key: &str, value: Json) -> (extended: Json)
        ensures
            extended@ == self@.with(key@, value@),
    {
        match self {
            Json::Object(entries) => {
                let ghost before = Json::Object(entries)@;
                let mut entries = entries;
                entries.push((key.to_string(), value));
                let extended = Json::Object(entries);
                assert(extended@->Object_0 =~= before->Object_0.push((key@, value@)));
                extended
            },
            other => other,
        }
    }

    /// A string value.
    pub fn text(text: &str) -> (value: Json)
        ensures
            value@ == JsonModel::Str(text@),
    {
        Json::Str(text.to_string())
    }

    /// A number value.
    pub fn number(number: u64) -> (value: Json)
        ensures
            value@ == JsonModel::Number(NumberModel::Unsigned(number)),
    {
        Json::Number(JsonNumber::Unsigned(number))
    }

    /// The array without items.
    pub fn array() -> (value: Json)
        ensures
            value@ == JsonModel::Array(Seq::empty()),
    {
        let value = Json::Array(Vec::new());
        assert(value@->Array_0 =~= Seq::empty());
        value
    }

    /// The value of an entry, if this is an object with that key.
    pub fn get(&self, key: &str) -> (found: Option<&Json>)
        ensures
            match found {
                Some(value) => self@.get(key@) == Some(value@),
                None => self@.get(key@) is None,
            },
    {
        match self {
            Json::Object(entries) => {
                let ghost model = self@->Object_0;
                let mut i: usize = entries.len();
                assert(model.take(i as int) =~= model);
                while i > 0
                    invariant
                        i <= entries@.len(),
                        model == self@->Object_0,
                        *self == Json::Object(*entries),
                        model.len() == entries@.len(),
                        lookup(model, key@) == lookup(model.take(i as int), key@),
                    decreases i,
                {
                    i -= 1;
                    assert(model.take(i + 1).last() == model[i as int]);
                    assert(model.take(i + 1).drop_last() =~= model.take(i as int));
                    assert(model[i as int] == (entries@[i as int].0@, entries@[i as int].1@));
                    if same_text(entries[i].0.as_str(), key) {
                        return Some(&entries[i].1);
                    }
                }
                None
            },
            _ => None,
        }
    }

    /// The text of a string value.
    pub fn as_str(&self) -> (text: Option<&str>)
        ensures
            match text {
                Some(text) => self@.as_str() == Some(text@),
                None => self@.as_str() is None,
            },
    {
        match self {
            Json::Str(text) => Some(text.as_str()),
            _ => None,
        }
    }

    /// The number, where this is an integer that fits `u64`.
    pub fn as_u64(&self) -> (number: Option<u64>)
        ensures
            number == self@.as_u64(),
    {
        match self {
            Json::Number(number) => number.as_u64(),
            _ => None,
        }
    }

    /// The number, where this is an integer that fits `i64`.
    pub fn as_i64(&self) -> (number: Option<i64>)
        ensures
            number == self@.as_i64(),
    {
        match self {
            Json::Number(number) => number.as_i64(),
            _ => None,
        }
    }

    /// The string that an entry holds.
    pub fn str_at(&self, key: &str) -> (text: Option<&str>)
        ensures
            match text {
                Some(text) => self@.str_at(key@) == Some(text@),
                None => self@.str_at(key@) is None,
            },
    {
        match self.get(key) {
            Some(value) => value.as_str(),
            None => None,
        }
    }

    /// The string that an entry holds, or else the empty string.
    pub fn text_at(&self, key: &str) -> (text: &str)
        ensures
            text@ == self@.text_at(key@),
    {
        match self.str_at(key) {
            Some(text) => text,
            None => {
                proof {
                    reveal_strlit("");
                    assert(""@ =~= Seq::<char>::empty());
                }
                ""
            },
        }
    }

    /// The unsigned number that an entry holds.
    pub fn u64_at(&self, key: &str) -> (number: Option<u64>)
        ensures
            number == self@.u64_at(key@),
    {
        match self.get(key) {
            Some(value) => value.as_u64(),
            None => None,
        }
    }
}

} // verus!
