//! JSON as the settings of a match and the lobby carry it. Values stay the
//! ones serde_json made of the text; a value is looked into, and made anew,
//! one level at a time.

use vstd::prelude::*;

use crate::table;
use crate::utils;

verus! {

/// The values of serde_json.
#[verifier::external_type_specification]
#[verifier::external_body]
pub struct ExValue(serde_json::Value);

/// The numbers of serde_json.
#[verifier::external_type_specification]
#[verifier::external_body]
pub struct ExNumber(serde_json::Number);

/// One level of a value.
#[derive(Debug)]
pub enum Node {
    Null,
    Bool(bool),
    Number(serde_json::Number),
    Text(String),
    List(Vec<serde_json::Value>),
    Object(Vec<(String, serde_json::Value)>),
}

/// What a [`Node`] is.
pub enum NodeView {
    Null,
    Bool(bool),
    Number(serde_json::Number),
    Text(Seq<char>),
    List(Seq<serde_json::Value>),
    Object(Seq<(Seq<char>, serde_json::Value)>),
}

/// The members of an object.
pub open spec fn members_view(s: Seq<(String, serde_json::Value)>) -> Seq<
    (Seq<char>, serde_json::Value),
> {
    s.map_values(|m: (String, serde_json::Value)| (m.0@, m.1))
}

impl View for Node {
    type V = NodeView;

    open spec fn view(&self) -> NodeView {
        match *self {
            Node::Null => NodeView::Null,
            Node::Bool(b) => NodeView::Bool(b),
            Node::Number(n) => NodeView::Number(n),
            Node::Text(s) => NodeView::Text(s@),
            Node::List(items) => NodeView::List(items@),
            Node::Object(members) => NodeView::Object(members_view(members@)),
        }
    }
}

/// What serde_json makes of a text, if it is JSON.
pub uninterp spec fn json_read(text: Seq<u8>) -> Option<serde_json::Value>;

/// The text serde_json writes for a value.
pub uninterp spec fn json_written(value: serde_json::Value) -> Option<Seq<u8>>;

/// The text serde_json shows a value as.
pub uninterp spec fn json_shown(value: serde_json::Value) -> Seq<char>;

/// The topmost level of a value.
pub uninterp spec fn node_of(value: serde_json::Value) -> NodeView;

/// The value with this topmost level.
pub uninterp spec fn value_with(node: NodeView) -> serde_json::Value;

/// `serde_json::from_slice`: what a text is read as is decided by the text
/// alone; None for what is not JSON.
#[verifier::external_body]
pub(crate) fn read_json(text: &[u8]) -> (r: Option<serde_json::Value>)
    ensures
        r == json_read(text@),
{
    serde_json::from_slice::<serde_json::Value>(text).ok()
}

/// `serde_json::to_vec`: the text written for a value is decided by the value
/// alone.
#[verifier::external_body]
pub(crate) fn write_json(value: &serde_json::Value) -> (r: Option<Vec<u8>>)
    ensures
        match r {
            Some(text) => json_written(*value) == Some(text@),
            None => json_written(*value) is None,
        },
{
    serde_json::to_vec(value).ok()
}

/// The variants of `serde_json::Value` and what they hold; the members of an
/// object in the order in which its map walks them, no two under one name.
#[verifier::external_body]
pub(crate) fn node(value: &serde_json::Value) -> (r: Node)
    ensures
        r@ == node_of(*value),
        r@ matches NodeView::Object(members) ==> table::distinct(members),
{
    match value.clone() {
        serde_json::Value::Null => Node::Null,
        serde_json::Value::Bool(b) => Node::Bool(b),
        serde_json::Value::Number(n) => Node::Number(n),
        serde_json::Value::String(s) => Node::Text(s),
        serde_json::Value::Array(items) => Node::List(items),
        serde_json::Value::Object(members) => Node::Object(members.into_iter().collect()),
    }
}

/// `serde_json::Value::to_string`: the text a value is shown as is decided by
/// the value alone.
#[verifier::external_body]
pub(crate) fn show_json(value: &serde_json::Value) -> (r: String)
    ensures
        r@ == json_shown(*value),
{
    value.to_string()
}

/// The variants of `serde_json::Value` made of what they hold. The members of
/// an object are collected into its map, which walks them in an order of its
/// own; where no two have one name, each is found in it under its name, and
/// nothing else is. All but objects are looked into as they were made.
#[verifier::external_body]
pub(crate) fn value(node: Node) -> (r: serde_json::Value)
    ensures
        r == value_with(node@),
        !(node@ is Object) ==> node_of(r) == node@,
        node@ matches NodeView::Object(members) ==> table::distinct(members) ==> forall|
            key: Seq<char>,
        | #[trigger]
            member(r, key) == table::lookup(members, key),
{
    match node {
        Node::Null => serde_json::Value::Null,
        Node::Bool(b) => serde_json::Value::Bool(b),
        Node::Number(n) => serde_json::Value::Number(n),
        Node::Text(s) => serde_json::Value::String(s),
        Node::List(items) => serde_json::Value::Array(items),
        Node::Object(members) => serde_json::Value::Object(members.into_iter().collect()),
    }
}

/// A value's own copy is the value.
pub assume_specification[ <serde_json::Value as Clone>::clone ](v: &serde_json::Value) -> (r:
    serde_json::Value)
    ensures
        r == *v,
;

/// A member of an object; nothing else has members.
pub open spec fn member(value: serde_json::Value, key: Seq<char>) -> Option<serde_json::Value> {
    match node_of(value) {
        NodeView::Object(members) => table::lookup(members, key),
        _ => None,
    }
}

/// The items of a list; nothing else has items.
pub open spec fn list(value: serde_json::Value) -> Option<Seq<serde_json::Value>> {
    match node_of(value) {
        NodeView::List(items) => Some(items),
        _ => None,
    }
}

pub open spec fn text(value: serde_json::Value) -> Option<Seq<char>> {
    match node_of(value) {
        NodeView::Text(s) => Some(s),
        _ => None,
    }
}

pub open spec fn flag(value: serde_json::Value) -> Option<bool> {
    match node_of(value) {
        NodeView::Bool(b) => Some(b),
        _ => None,
    }
}

fn find(members: &Vec<(String, serde_json::Value)>, key: &str) -> (r: Option<usize>)
    ensures
        match r {
            Some(i) => i < members@.len() && table::index_of(members_view(members@), key@) == Some(
                i as int,
            ),
            None => table::index_of(members_view(members@), key@) is None,
        },
{
    let ghost all = members_view(members@);
    let mut i: usize = 0;
    while i < members.len()
        invariant
            all == members_view(members@),
            i <= members@.len(),
            forall|j: int| 0 <= j < i ==> #[trigger] all[j].0 != key@,
        decreases members@.len() - i,
    {
        assert(all[i as int] == (members@[i as int].0@, members@[i as int].1));
        if utils::same_text(members[i].0.as_str(), key) {
            proof {
                table::lemma_index_is(all, key@, i as int);
            }
            return Some(i);
        }
        i += 1;
    }
    proof {
        table::lemma_index_none(all, key@);
    }
    None
}

/// The member of this name.
pub fn find_member(members: &Vec<(String, serde_json::Value)>, key: &str) -> (r: Option<
    serde_json::Value,
>)
    ensures
        r == table::lookup(members_view(members@), key@),
{
    match find(members, key) {
        Some(i) => {
            assert(members_view(members@)[i as int] == (
                members@[i as int].0@,
                members@[i as int].1,
            ));
            Some(members[i].1.clone())
        },
        None => None,
    }
}

/// The same members again.
pub fn copy_members(members: &Vec<(String, serde_json::Value)>) -> (r: Vec<
    (String, serde_json::Value),
>)
    ensures
        members_view(r@) == members_view(members@),
{
    let mut out: Vec<(String, serde_json::Value)> = Vec::new();
    let mut i: usize = 0;
    while i < members.len()
        invariant
            i <= members@.len(),
            out@.len() == i,
            forall|j: int|
                0 <= j < i ==> (#[trigger] out@[j]).0@ == members@[j].0@ && out@[j].1
                    == members@[j].1,
        decreases members@.len() - i,
    {
        out.push((utils::copy_text(members[i].0.as_str()), members[i].1.clone()));
        i += 1;
    }
    assert(members_view(out@) =~= members_view(members@));
    out
}

/// A member of an object.
pub fn get_member(value: &serde_json::Value, key: &str) -> (r: Option<serde_json::Value>)
    ensures
        r == member(*value, key@),
{
    match node(value) {
        Node::Object(members) => find_member(&members, key),
        _ => None,
    }
}

/// The items of a list.
pub fn get_list(value: &serde_json::Value) -> (r: Option<Vec<serde_json::Value>>)
    ensures
        match r {
            Some(items) => list(*value) == Some(items@),
            None => list(*value) is None,
        },
{
    match node(value) {
        Node::List(items) => Some(items),
        _ => None,
    }
}

pub fn get_text(value: &serde_json::Value) -> (r: Option<String>)
    ensures
        match r {
            Some(s) => text(*value) == Some(s@),
            None => text(*value) is None,
        },
{
    match node(value) {
        Node::Text(s) => Some(s),
        _ => None,
    }
}

pub fn get_flag(value: &serde_json::Value) -> (r: Option<bool>)
    ensures
        r == flag(*value),
{
    match node(value) {
        Node::Bool(b) => Some(b),
        _ => None,
    }
}

/// An object with one member set.
pub open spec fn with_member(
    members: Seq<(Seq<char>, serde_json::Value)>,
    key: Seq<char>,
    to: serde_json::Value,
) -> Seq<(Seq<char>, serde_json::Value)> {
    table::with_row(members, key, to)
}

/// Sets a member of an object.
pub fn set_member(members: &mut Vec<(String, serde_json::Value)>, key: &str, to: serde_json::Value)
    ensures
        members_view(final(members)@) == with_member(members_view(old(members)@), key@, to),
{
    let ghost all = members_view(members@);
    let row = (utils::copy_text(key), to);
    match find(members, key) {
        Some(i) => {
            members.set(i, row);
            assert(members_view(members@) =~= all.update(i as int, (key@, to)));
        },
        None => {
            members.push(row);
            assert(members_view(members@) =~= all.push((key@, to)));
        },
    }
}

/// Removes a member of an object.
pub fn drop_member(members: &mut Vec<(String, serde_json::Value)>, key: &str)
    ensures
        members_view(final(members)@) == table::without_row(members_view(old(members)@), key@),
{
    let ghost all = members_view(members@);
    if let Some(i) = find(members, key) {
        let _ = members.remove(i);
        assert(members_view(members@) =~= all.remove(i as int));
    }
}

} // verus!
