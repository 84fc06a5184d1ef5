//! JSON values as the exchanges' answers are read.
//!
//! A value keeps what the rules read of it: the number that a numeral or a
//! text spells is held beside it.

use crate::num::constants::ZERO;
use crate::num::Double;
use crate::text::same;
use vstd::prelude::*;
use vstd::string::StringExecFns;

verus! {

/// A JSON number: its value, the whole number it is where it is one that fits,
/// and its numeral.
pub struct Numeral {
    pub value: Double,
    pub integer: Option<i64>,
    pub text: String,
}

/// A JSON string, with the numbers that it spells where it spells one.
pub struct Text {
    pub text: String,
    pub number: Option<Double>,
    pub integer: Option<i64>,
}

/// A JSON value. The members of an object have distinct names.
pub enum Json {
    Null,
    Bool(bool),
    Number(Numeral),
    Text(Text),
    List(Vec<Json>),
    Object(Vec<(String, Json)>),
}

/// The first member with the given name; null where there is none.
pub open spec fn member_of(members: Seq<(String, Json)>, key: Seq<char>) -> Json
    decreases members.len(),
{
    if members.len() == 0 {
        Json::Null
    } else if members[0].0@ == key {
        members[0].1
    } else {
        member_of(members.drop_first(), key)
    }
}

impl Json {
    /// The member of an object with the given name; null where there is none
    /// and where the value is no object.
    pub open spec fn member(self, key: Seq<char>) -> Json {
        match self {
            Json::Object(members) => member_of(members@, key),
            _ => Json::Null,
        }
    }

    pub fn get(&self, key: &str) -> (value: &Json)
        ensures
            *value == self.member(key@),
    {
        match self {
            Json::Object(members) => {
                let mut i: usize = 0;
                proof {
                    assert(members@.skip(0) =~= members@);
                }
                while i < members.len()
                    invariant
                        i <= members@.len(),
                        self.member(key@) == member_of(members@, key@),
                        member_of(members@, key@) == member_of(members@.skip(i as int), key@),
                    decreases members@.len() - i,
                {
                    proof {
                        assert(members@.skip(i as int)[0] == members@[i as int]);
                        assert(members@.skip(i as int).drop_first() =~= members@.skip(i as int + 1));
                    }
                    if same(members[i].0.as_str(), key) {
                        return &members[i].1;
                    }
                    i = i + 1;
                }
                &Json::Null
            },
            _ => &Json::Null,
        }
    }

    /// The characters of a string.
    pub open spec fn string(self) -> Option<Seq<char>> {
        match self {
            Json::Text(t) => Some(t.text@),
            _ => None,
        }
    }

    pub fn as_str(&self) -> (s: Option<&str>)
        ensures
            s is Some == self.string() is Some,
            s matches Some(t) ==> t@ == self.string()->0,
    {
        match self {
            Json::Text(t) => Some(t.text.as_str()),
            _ => None,
        }
    }

    /// Whether the value is the given string.
    pub open spec fn is_text(self, text: Seq<char>) -> bool {
        self.string() == Some(text)
    }

    pub fn equals_text(&self, text: &str) -> (b: bool)
        ensures
            b == self.is_text(text@),
    {
        match self {
            Json::Text(t) => same(t.text.as_str(), text),
            _ => false,
        }
    }

    pub open spec fn integer(self) -> Option<i64> {
        match self {
            Json::Number(n) => n.integer,
            _ => None,
        }
    }

    pub fn as_i64(&self) -> (k: Option<i64>)
        ensures
            k == self.integer(),
    {
        match self {
            Json::Number(n) => n.integer,
            _ => None,
        }
    }

    pub open spec fn flag(self) -> Option<bool> {
        match self {
            Json::Bool(b) => Some(b),
            _ => None,
        }
    }

    pub fn as_bool(&self) -> (b: Option<bool>)
        ensures
            b == self.flag(),
    {
        match self {
            Json::Bool(b) => Some(*b),
            _ => None,
        }
    }

    /// The number that a numeral, or a string, spells.
    pub open spec fn amount(self) -> Option<Double> {
        match self {
            Json::Number(n) => Some(n.value),
            Json::Text(t) => t.number,
            _ => None,
        }
    }

    /// The number that a string spells.
    pub open spec fn spelled(self) -> Option<Double> {
        match self {
            Json::Text(t) => t.number,
            _ => None,
        }
    }

    pub fn as_spelled(&self) -> (x: Option<Double>)
        ensures
            x == self.spelled(),
    {
        match self {
            Json::Text(t) => t.number,
            _ => None,
        }
    }

    /// The elements of an array; none where the value is no array.
    pub open spec fn elements(self) -> Seq<Json> {
        match self {
            Json::List(items) => items@,
            _ => Seq::empty(),
        }
    }

    pub open spec fn is_list(self) -> bool {
        self is List
    }

    pub fn as_array(&self) -> (items: Option<&Vec<Json>>)
        ensures
            items is Some == self.is_list(),
            items matches Some(v) ==> v@ == self.elements(),
    {
        match self {
            Json::List(items) => Some(items),
            _ => None,
        }
    }
}

/// The number that a JSON numeral or string spells.
pub fn number(value: &Json) -> (x: Option<Double>)
    ensures
        x == value.amount(),
{
    match value {
        Json::Number(n) => Some(n.value),
        Json::Text(t) => t.number,
        _ => None,
    }
}

/// The number that a JSON numeral or string spells, or another one.
pub fn number_or(value: &Json, other: Double) -> (x: Double)
    ensures
        x == (match value.amount() {
            Some(n) => n,
            None => other,
        }),
{
    match number(value) {
        Some(n) => n,
        None => other,
    }
}

/// The text that `serde_json` writes for a string: quoted and escaped.
pub uninterp spec fn quoted_text(text: Seq<char>) -> Seq<char>;

/// `serde_json::to_string` of a string: the quoted and escaped text, which is
/// a function of the string alone.
#[verifier::external_body]
fn quote(text: &str) -> (quoted: String)
    ensures
        quoted@ == quoted_text(text@),
{
    serde_json::to_string(text).expect("a string is always serialized")
}

/// The text of a value as JSON, without blanks.
pub open spec fn rendered(value: Json) -> Seq<char>
    decreases value,
{
    match value {
        Json::Null => "null"@,
        Json::Bool(true) => "true"@,
        Json::Bool(false) => "false"@,
        Json::Number(n) => n.text@,
        Json::Text(t) => quoted_text(t.text@),
        Json::List(items) => seq!['['] + rendered_items(items@) + seq![']'],
        Json::Object(members) => seq!['{'] + rendered_members(members@) + seq!['}'],
    }
}

pub open spec fn rendered_items(items: Seq<Json>) -> Seq<char>
    decreases items,
{
    if items.len() == 0 {
        Seq::empty()
    } else if items.len() == 1 {
        rendered(items[0])
    } else {
        rendered_items(items.subrange(0, items.len() - 1)) + seq![','] + rendered(items[items.len() - 1])
    }
}

pub open spec fn rendered_members(members: Seq<(String, Json)>) -> Seq<char>
    decreases members,
{
    if members.len() == 0 {
        Seq::empty()
    } else {
        let last = members[members.len() - 1];
        let before = if members.len() == 1 {
            Seq::<char>::empty()
        } else {
            rendered_members(members.subrange(0, members.len() - 1)) + seq![',']
        };
        before + quoted_text(last.0@) + seq![':'] + rendered(last.1)
    }
}

pub fn render(value: &Json) -> (text: String)
    ensures
        text@ == rendered(*value),
    decreases value,
{
    match value {
        Json::Null => "null".to_owned(),
        Json::Bool(b) => if *b {
            "true".to_owned()
        } else {
            "false".to_owned()
        },
        Json::Number(n) => n.text.clone(),
        Json::Text(t) => quote(t.text.as_str()),
        Json::List(items) => {
            let mut text = String::new();
            text.push('[');
            proof {
                assert(text@ =~= seq!['[']);
            }
            let mut i: usize = 0;
            while i < items.len()
                invariant
                    i <= items@.len(),
                    *value == Json::List(*items),
                    text@ == seq!['['] + rendered_items(items@.subrange(0, i as int)),
                decreases items@.len() - i,
            {
                let ghost prefix = items@.subrange(0, i as int + 1);
                let ghost before = text@;
                proof {
                    assert(prefix.subrange(0, prefix.len() - 1) =~= items@.subrange(0, i as int));
                    assert(decreases_to!(value => value->List_0));
                    assert(decreases_to!(items => items@));
                    assert(decreases_to!(items@ => items@[i as int]));
                }
                if i > 0 {
                    text.push(',');
                }
                let item = render(&items[i]);
                text.append(item.as_str());
                proof {
                    assert(text@ =~= seq!['['] + rendered_items(prefix));
                }
                i = i + 1;
            }
            proof {
                assert(items@.subrange(0, items@.len() as int) =~= items@);
            }
            text.push(']');
            proof {
                assert(text@ =~= seq!['['] + rendered_items(items@) + seq![']']);
            }
            text
        },
        Json::Object(members) => {
            let mut text = String::new();
            text.push('{');
            proof {
                assert(text@ =~= seq!['{']);
            }
            let mut i: usize = 0;
            while i < members.len()
                invariant
                    i <= members@.len(),
                    *value == Json::Object(*members),
                    text@ == seq!['{'] + rendered_members(members@.subrange(0, i as int)),
                decreases members@.len() - i,
            {
                let ghost prefix = members@.subrange(0, i as int + 1);
                proof {
                    assert(prefix.subrange(0, prefix.len() - 1) =~= members@.subrange(0, i as int));
                    assert(decreases_to!(value => value->Object_0));
                    assert(decreases_to!(members => members@));
                    assert(decreases_to!(members@ => members@[i as int]));
                    assert(decreases_to!(members@[i as int] => members@[i as int].1));
                }
                if i > 0 {
                    text.push(',');
                }
                let key = quote(members[i].0.as_str());
                text.append(key.as_str());
                text.push(':');
                let item = render(&members[i].1);
                text.append(item.as_str());
                proof {
                    assert(text@ =~= seq!['{'] + rendered_members(prefix));
                }
                i = i + 1;
            }
            proof {
                assert(members@.subrange(0, members@.len() as int) =~= members@);
            }
            text.push('}');
            proof {
                assert(text@ =~= seq!['{'] + rendered_members(members@) + seq!['}']);
            }
            text
        },
    }
}

/// The number of a value, or what stands in for it.
pub open spec fn amount_or(value: Json, other: u64) -> Double {
    match value.amount() {
        Some(x) => x,
        None => Double { bits: other },
    }
}

/// The number of the first of two values that has one, or zero.
pub open spec fn either_amount(first: Json, second: Json) -> Double {
    match first.amount() {
        Some(x) => x,
        None => amount_or(second, ZERO),
    }
}

/// The number of the first of two values that has one, or zero.
pub fn either_number(first: &Json, second: &Json) -> (x: Double)
    ensures
        x == either_amount(*first, *second),
{
    match number(first) {
        Some(x) => x,
        None => number_or(second, Double { bits: ZERO }),
    }
}

impl Json {
    /// A number that is not spelled as text.
    pub open spec fn numeral(self) -> Option<Double> {
        match self {
            Json::Number(n) => Some(n.value),
            _ => None,
        }
    }

    pub fn as_numeral(&self) -> (x: Option<Double>)
        ensures
            x == self.numeral(),
    {
        match self {
            Json::Number(n) => Some(n.value),
            _ => None,
        }
    }

    /// A whole number that is spelled as text.
    pub open spec fn spelled_integer(self) -> Option<i64> {
        match self {
            Json::Text(t) => t.integer,
            _ => None,
        }
    }

    pub fn as_spelled_integer(&self) -> (k: Option<i64>)
        ensures
            k == self.spelled_integer(),
    {
        match self {
            Json::Text(t) => t.integer,
            _ => None,
        }
    }

    /// An element of a list; null where there is none.
    pub open spec fn item(self, i: int) -> Json {
        if 0 <= i < self.elements().len() {
            self.elements()[i]
        } else {
            Json::Null
        }
    }

    pub fn nth(&self, i: usize) -> (value: &Json)
        ensures
            *value == self.item(i as int),
    {
        match self {
            Json::List(items) => {
                if i < items.len() {
                    &items[i]
                } else {
                    &Json::Null
                }
            },
            _ => &Json::Null,
        }
    }
}

} // verus!
