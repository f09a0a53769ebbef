//! JSON values, read one level at a time.

use serde_json::Value;
use vstd::prelude::*;

use crate::text::same_text;

verus! {

/// `serde_json::Value`, a parsed JSON value.
#[verifier::external_type_specification]
#[verifier::external_body]
pub struct ExValue(serde_json::Value);

/// A JSON value, as a value.
pub ghost enum JsonView {
    /// `null`.
    Null,
    /// `true` or `false`.
    Bool(bool),
    /// A number.
    Number {
        /// How it is written.
        text: Seq<char>,
        /// Whether it is no 64-bit integer.
        float: bool,
    },
    /// A string.
    Str(Seq<char>),
    /// The elements of an array.
    Array(Seq<JsonView>),
    /// The members of an object.
    Object(Seq<(Seq<char>, JsonView)>),
}

/// What a parsed value holds.
pub uninterp spec fn tree(value: Value) -> JsonView;

/// What the JSON grammar makes of some bytes: a value, or why they are none.
pub uninterp spec fn json_of(text: Seq<u8>) -> Result<JsonView, Seq<char>>;

/// How a value is written as compact JSON.
pub uninterp spec fn json_text(value: JsonView) -> Seq<char>;

/// The elements of an array, as values.
pub open spec fn trees(values: Seq<Value>) -> Seq<JsonView> {
    values.map_values(|v: Value| tree(v))
}

/// The members of an object, as values.
pub open spec fn member_trees(members: Seq<(&String, &Value)>) -> Seq<(Seq<char>, JsonView)> {
    members.map_values(|m: (&String, &Value)| (m.0@, tree(*m.1)))
}

/// One level of a JSON value.
pub enum JsonShape<'a> {
    /// `null`.
    Null,
    /// `true` or `false`.
    Bool(bool),
    /// A number.
    Number {
        /// How it is written.
        text: String,
        /// Whether it is no 64-bit integer.
        float: bool,
    },
    /// A string, decoded.
    Str(&'a String),
    /// The elements of an array.
    Array(&'a Vec<Value>),
    /// The members of an object.
    Object(Vec<(&'a String, &'a Value)>),
}

impl<'a> View for JsonShape<'a> {
    type V = JsonView;

    open spec fn view(&self) -> JsonView {
        match self {
            JsonShape::Null => JsonView::Null,
            JsonShape::Bool(b) => JsonView::Bool(*b),
            JsonShape::Number { text, float } => JsonView::Number { text: text@, float: *float },
            JsonShape::Str(s) => JsonView::Str(s@),
            JsonShape::Array(items) => JsonView::Array(trees(items@)),
            JsonShape::Object(members) => JsonView::Object(member_trees(members@)),
        }
    }
}

/// A parse result, as a value.
pub open spec fn json_result(r: Result<Value, String>) -> Result<JsonView, Seq<char>> {
    match r {
        Ok(value) => Ok(tree(value)),
        Err(why) => Err(why@),
    }
}

/// `serde_json::from_slice::<serde_json::Value>`: the whole input is one JSON
/// value of bounded depth, or an error in words. What the value is for given
/// bytes is left to the crate.
#[verifier::external_body]
pub(crate) fn parse_json(text: &[u8]) -> (r: Result<Value, String>)
    ensures
        json_result(r) == json_of(text@),
{
    serde_json::from_slice(text).map_err(|e| e.to_string())
}

/// The variants of `serde_json::Value`, one for one, with its number rendered
/// by `Number::to_string` and told apart by `Number::is_f64`.
#[verifier::external_body]
pub(crate) fn shape<'a>(value: &'a Value) -> (r: JsonShape<'a>)
    ensures
        r@ == tree(*value),
{
    match value {
        Value::Null => JsonShape::Null,
        Value::Bool(b) => JsonShape::Bool(*b),
        Value::Number(n) => JsonShape::Number { text: n.to_string(), float: n.is_f64() },
        Value::String(s) => JsonShape::Str(s),
        Value::Array(a) => JsonShape::Array(a),
        Value::Object(o) => JsonShape::Object(o.iter().collect()),
    }
}

/// `serde_json::Value::to_string`: the value as compact JSON. How it is written
/// is left to the crate.
#[verifier::external_body]
pub(crate) fn render(value: &Value) -> (r: String)
    ensures
        r@ == json_text(tree(*value)),
{
    value.to_string()
}

/// The member with this name; of several the last counts.
pub open spec fn member(members: Seq<(Seq<char>, JsonView)>, name: Seq<char>) -> Option<JsonView>
    decreases members.len(),
{
    if members.len() == 0 {
        None
    } else if members.last().0 == name {
        Some(members.last().1)
    } else {
        member(members.drop_last(), name)
    }
}

/// Of several members with a name the last counts.
pub proof fn law_last_member_counts(
    members: Seq<(Seq<char>, JsonView)>,
    name: Seq<char>,
    i: int,
)
    requires
        0 <= i < members.len(),
        members[i].0 == name,
        forall|j: int| i < j < members.len() ==> (#[trigger] members[j]).0 != name,
    ensures
        member(members, name) == Some(members[i].1),
    decreases members.len(),
{
    if i < members.len() - 1 {
        let front = members.drop_last();
        assert(members[members.len() - 1].0 != name);
        assert forall|j: int| i < j < front.len() implies (#[trigger] front[j]).0 != name by {
            assert(front[j] == members[j]);
        }
        law_last_member_counts(front, name, i);
    }
}

/// Whether an object has a member with this name.
pub open spec fn has_member(members: Seq<(Seq<char>, JsonView)>, name: Seq<char>) -> bool {
    exists|i: int| 0 <= i < members.len() && (#[trigger] members[i]).0 == name
}

/// A member is found exactly where an object has one with the name.
pub proof fn law_member_found(members: Seq<(Seq<char>, JsonView)>, name: Seq<char>)
    ensures
        member(members, name) is Some <==> has_member(members, name),
    decreases members.len(),
{
    if members.len() > 0 {
        let front = members.drop_last();
        law_member_found(front, name);
        if members.last().0 == name {
            assert(members[members.len() - 1].0 == name);
        } else if has_member(front, name) {
            let i = choose|i: int| 0 <= i < front.len() && (#[trigger] front[i]).0 == name;
            assert(members[i].0 == name);
        } else if has_member(members, name) {
            let i = choose|i: int| 0 <= i < members.len() && (#[trigger] members[i]).0 == name;
            assert(front[i].0 == name);
        }
    }
}

/// An optional value, as a value.
pub open spec fn opt_tree(value: Option<&Value>) -> Option<JsonView> {
    match value {
        Some(v) => Some(tree(*v)),
        None => None,
    }
}

/// The member with this name.
pub fn find_member<'a>(members: &Vec<(&'a String, &'a Value)>, name: &str) -> (r: Option<
    &'a Value,
>)
    ensures
        opt_tree(r) == member(member_trees(members@), name@),
{
    let ghost views = member_trees(members@);
    let mut i: usize = members.len();
    proof {
        assert(views.take(i as int) =~= views);
    }
    while i > 0
        invariant
            views == member_trees(members@),
            i <= members@.len(),
            member(views.take(i as int), name@) == member(views, name@),
        decreases i,
    {
        proof {
            assert(views.take(i as int).drop_last() =~= views.take(i - 1));
            assert(views.take(i as int).last() == views[i - 1]);
        }
        if same_text(members[i - 1].0.as_str(), name) {
            return Some(members[i - 1].1);
        }
        i -= 1;
    }
    None
}

/// One level of an optional value.
pub open spec fn opt_shape(r: Option<JsonShape>) -> Option<JsonView> {
    match r {
        Some(shape) => Some(shape@),
        None => None,
    }
}

/// Reads the member with this name.
pub fn read_member<'a>(members: &Vec<(&'a String, &'a Value)>, name: &str) -> (r: Option<
    JsonShape<'a>,
>)
    ensures
        opt_shape(r) == member(member_trees(members@), name@),
{
    match find_member(members, name) {
        Some(value) => Some(shape(value)),
        None => None,
    }
}

} // verus!
