//! The data part of a pipeline event, as far as the stage reads it.

use crate::text::same_text;
use vstd::prelude::*;

verus! {

/// A JSON value. Numbers other than non-negative integers are not told apart.
#[derive(Debug)]
pub enum Json {
    /// `null`
    Null,
    /// `true` or `false`
    Bool(bool),
    /// An integer from zero up.
    Unsigned(u64),
    /// A negative integer or a fraction.
    OtherNumber,
    /// A string.
    Text(String),
    /// An array.
    Array(Vec<Json>),
    /// An object, member by member.
    Object(Vec<(String, Json)>),
}

/// The value of the first of `members` that is called `key`.
pub open spec fn find_member(members: Seq<(String, Json)>, key: Seq<char>) -> Option<Json>
    decreases members.len(),
{
    if members.len() == 0 {
        None
    } else if members.first().0@ == key {
        Some(members.first().1)
    } else {
        find_member(members.drop_first(), key)
    }
}

impl Json {
    /// The member of an object that is called `key`.
    pub open spec fn member(self, key: Seq<char>) -> Option<Json> {
        match self {
            Json::Object(members) => find_member(members@, key),
            _ => None,
        }
    }

    /// The elements, where the value is an array.
    pub open spec fn elements(self) -> Option<Seq<Json>> {
        match self {
            Json::Array(items) => Some(items@),
            _ => None,
        }
    }

    /// The text, where the value is a string.
    pub open spec fn string(self) -> Option<Seq<char>> {
        match self {
            Json::Text(s) => Some(s@),
            _ => None,
        }
    }

    /// The number, where the value is a non-negative integer.
    pub open spec fn unsigned(self) -> Option<u64> {
        match self {
            Json::Unsigned(n) => Some(n),
            _ => None,
        }
    }

    /// The truth value, where the value is one.
    pub open spec fn truth(self) -> Option<bool> {
        match self {
            Json::Bool(b) => Some(b),
            _ => None,
        }
    }

    /// Looks a member up by its name; `None` where the value is no object.
    pub fn get(&self, key: &str) -> (value: Option<&Json>)
        ensures
            match value {
                Some(v) => self.member(key@) == Some(*v),
                None => self.member(key@) is None,
            },
    {
        match self {
            Json::Object(members) => {
                assert(members@.skip(0) =~= members@);
                for i in 0..members.len()
                    invariant
                        self.member(key@) == find_member(members@.skip(i as int), key@),
                {
                    let ghost rest = members@.skip(i as int);
                    assert(rest.first() == members@[i as int]);
                    assert(rest.drop_first() =~= members@.skip(i + 1));
                    if same_text(members[i].0.as_str(), key) {
                        return Some(&members[i].1);
                    }
                }
                None
            },
            _ => None,
        }
    }

    /// The elements of an array.
    pub fn as_array(&self) -> (items: Option<&Vec<Json>>)
        ensures
            match items {
                Some(v) => self.elements() == Some(v@),
                None => self.elements() is None,
            },
    {
        match self {
            Json::Array(items) => Some(items),
            _ => None,
        }
    }

    /// The text of a string.
    pub fn as_str(&self) -> (text: Option<&str>)
        ensures
            match text {
                Some(s) => self.string() == Some(s@),
                None => self.string() is None,
            },
    {
        match self {
            Json::Text(s) => Some(s.as_str()),
            _ => None,
        }
    }

    /// The value of a non-negative integer.
    pub fn as_u64(&self) -> (n: Option<u64>)
        ensures
            n == self.unsigned(),
    {
        match self {
            Json::Unsigned(n) => Some(*n),
            _ => None,
        }
    }

    /// The truth value.
    pub fn as_bool(&self) -> (b: Option<bool>)
        ensures
            b == self.truth(),
    {
        match self {
            Json::Bool(b) => Some(*b),
            _ => None,
        }
    }
}

/// A member is looked up by its name: the first of that name counts, and there is
/// none where no member has it or the value is no object.
pub proof fn law_first_member_of_a_name_counts(members: Vec<(String, Json)>, key: Seq<char>, i: int)
    ensures
        0 <= i < members@.len() && members@[i].0@ == key && (forall|j: int|
            0 <= j < i ==> (#[trigger] members@[j]).0@ != key) ==> Json::Object(members).member(key)
            == Some(members@[i].1),
        (forall|j: int| 0 <= j < members@.len() ==> (#[trigger] members@[j]).0@ != key)
            ==> Json::Object(members).member(key) is None,
{
    lemma_first_member(members@, key, i);
}

proof fn lemma_first_member(members: Seq<(String, Json)>, key: Seq<char>, i: int)
    ensures
        0 <= i < members.len() && members[i].0@ == key && (forall|j: int|
            0 <= j < i ==> (#[trigger] members[j]).0@ != key) ==> find_member(members, key) == Some(
            members[i].1,
        ),
        (forall|j: int| 0 <= j < members.len() ==> (#[trigger] members[j]).0@ != key)
            ==> find_member(members, key) is None,
    decreases members.len(),
{
    if members.len() > 0 {
        let rest = members.drop_first();
        lemma_first_member(rest, key, i - 1);
        assert(forall|j: int| 0 <= j < rest.len() ==> #[trigger] rest[j] == members[j + 1]);
        if forall|j: int| 0 <= j < i ==> (#[trigger] members[j]).0@ != key {
            assert(forall|j: int| 0 <= j < i - 1 && j < rest.len() ==> (#[trigger] rest[j]).0@ != key
                || j >= i - 1);
        }
    }
}

/// Each kind of value is read as what it is and as nothing else.
pub proof fn law_values_are_read_as_they_are(value: Json, key: Seq<char>)
    ensures
        value.member(key) is Some ==> value is Object,
        value.elements() == (match value {
            Json::Array(items) => Some(items@),
            _ => None,
        }),
        value.string() == (match value {
            Json::Text(s) => Some(s@),
            _ => None,
        }),
        value.unsigned() == (match value {
            Json::Unsigned(n) => Some(n),
            _ => None,
        }),
        value.truth() == (match value {
            Json::Bool(b) => Some(b),
            _ => None,
        }),
{
}

} // verus!
