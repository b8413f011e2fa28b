//! Structured documents: null, booleans, numbers, text, arrays and objects.

use vstd::prelude::*;

verus! {

/// A number of a document, as whole numbers see it: the greatest whole number
/// that is not above it, and whether the number lies above that. A number
/// beyond the range of `i64` has the nearest end of that range as its floor.
#[derive(Debug, Clone, Copy, PartialEq, Eq, Structural)]
pub struct JsonNumber {
    pub floor: i64,
    pub fractional: bool,
}

impl JsonNumber {
    /// The number is 0.
    pub open spec fn spec_is_zero(self) -> bool {
        self.floor == 0 && !self.fractional
    }

    /// The number is less than or equal to the whole number `bound`.
    pub open spec fn spec_at_most(self, bound: int) -> bool {
        self.floor < bound || (self.floor == bound && !self.fractional)
    }

    /// The number is greater than or equal to the whole number `bound`.
    pub open spec fn spec_at_least(self, bound: int) -> bool {
        self.floor >= bound
    }

    /// The whole number `value`.
    pub fn whole(value: i64) -> (number: JsonNumber)
        ensures
            number == (JsonNumber { floor: value, fractional: false }),
    {
        JsonNumber { floor: value, fractional: false }
    }

    #[verifier::when_used_as_spec(spec_is_zero)]
    pub fn is_zero(self) -> (zero: bool)
        ensures
            zero == self.spec_is_zero(),
    {
        self.floor == 0 && !self.fractional
    }

    pub fn at_most(self, bound: i64) -> (below: bool)
        ensures
            below == self.spec_at_most(bound as int),
    {
        self.floor < bound || (self.floor == bound && !self.fractional)
    }

    pub fn at_least(self, bound: i64) -> (above: bool)
        ensures
            above == self.spec_at_least(bound as int),
    {
        self.floor >= bound
    }
}

/// One entry of an object.
#[derive(Debug)]
pub struct Member {
    pub key: String,
    pub value: Json,
}

/// A value of a document.
#[derive(Debug)]
pub enum Json {
    Null,
    Bool(bool),
    Number(JsonNumber),
    Text(String),
    Array(Vec<Json>),
    Object(Vec<Member>),
}

/// The value of the first of `members` that has the key `key`.
pub open spec fn first_with_key(members: Seq<Member>, key: Seq<char>) -> Option<Json>
    decreases members.len(),
{
    if members.len() == 0 {
        None
    } else if members[0].key@ == key {
        Some(members[0].value)
    } else {
        first_with_key(members.drop_first(), key)
    }
}

impl Json {
    /// What an object holds under `key`: the value of its first entry with
    /// that key. `None` where it has no such entry, and for whatever is not
    /// an object.
    pub open spec fn member(self, key: Seq<char>) -> Option<Json> {
        match self {
            Json::Object(members) => first_with_key(members@, key),
            _ => None,
        }
    }

    /// The items of an array; `None` for whatever is not an array.
    pub open spec fn items(self) -> Option<Seq<Json>> {
        match self {
            Json::Array(items) => Some(items@),
            _ => None,
        }
    }

    /// The characters of a text; `None` for whatever is not a text.
    pub open spec fn text(self) -> Option<Seq<char>> {
        match self {
            Json::Text(text) => Some(text@),
            _ => None,
        }
    }

    /// The number; `None` for whatever is not a number.
    pub open spec fn number(self) -> Option<JsonNumber> {
        match self {
            Json::Number(number) => Some(number),
            _ => None,
        }
    }

    /// Looks `key` up in an object.
    pub fn get(&self, key: &str) -> (found: Option<&Json>)
        ensures
            match found {
                Some(value) => self.member(key@) == Some(*value),
                None => self.member(key@) is None,
            },
    {
        match self {
            Json::Object(members) => {
                let wanted: String = key.to_owned();
                let mut i: usize = 0;
                assert(members@.skip(0) =~= members@);
                while i < members.len()
                    invariant
                        i <= members.len(),
                        wanted@ == key@,
                        self.member(key@) == first_with_key(members@, key@),
                        first_with_key(members@, key@) == first_with_key(
                            members@.skip(i as int),
                            key@,
                        ),
                    decreases members.len() - i,
                {
                    let ghost rest = members@.skip(i as int);
                    assert(rest[0] == members@[i as int]);
                    assert(rest.drop_first() =~= members@.skip(i + 1));
                    if members[i].key == wanted {
                        assert(first_with_key(rest, key@) == Some(members@[i as int].value));
                        return Some(&members[i].value);
                    }
                    i += 1;
                }
                assert(members@.skip(i as int).len() == 0);
                None
            },
            _ => None,
        }
    }

    /// The items of an array.
    pub fn as_array(&self) -> (items: Option<&Vec<Json>>)
        ensures
            match items {
                Some(list) => self.items() == Some(list@),
                None => self.items() is None,
            },
    {
        match self {
            Json::Array(items) => Some(items),
            _ => None,
        }
    }

    /// The text.
    pub fn as_text(&self) -> (text: Option<&String>)
        ensures
            match text {
                Some(chars) => self.text() == Some(chars@),
                None => self.text() is None,
            },
    {
        match self {
            Json::Text(text) => Some(text),
            _ => None,
        }
    }

    /// The number.
    pub fn as_number(&self) -> (number: Option<JsonNumber>)
        ensures
            number == self.number(),
    {
        match self {
            Json::Number(number) => Some(*number),
            _ => None,
        }
    }
}

} // verus!
