//! JSON values.
use vstd::prelude::*;
use vstd::string::*;

use crate::pairs::{find_pair, lookup};

verus! {

/// A JSON number: an integer of either sign, or a float by its bits.
#[derive(Clone, Copy, PartialEq, Eq, Structural, Debug)]
pub enum Number {
    PosInt(u64),
    /// Below zero.
    NegInt(i64),
    Float(u64),
}

/// A JSON value. An object's members have different names.
#[derive(Debug)]
pub enum Json {
    Null,
    Bool(bool),
    Number(Number),
    String(String),
    Array(Vec<Json>),
    Object(Vec<(String, Json)>),
}

/// A JSON value, by what it holds.
pub ghost enum Tree {
    Null,
    Bool(bool),
    Number(Number),
    Text(Seq<char>),
    Array(Seq<Tree>),
    Object(Seq<(Seq<char>, Tree)>),
}

/// What a value holds.
pub open spec fn tree(v: Json) -> Tree
    decreases v,
{
    match v {
        Json::Null => Tree::Null,
        Json::Bool(b) => Tree::Bool(b),
        Json::Number(n) => Tree::Number(n),
        Json::String(s) => Tree::Text(s@),
        Json::Array(a) => Tree::Array(trees(a@)),
        Json::Object(m) => Tree::Object(members(m@)),
    }
}

/// What the values of a list hold.
pub open spec fn trees(a: Seq<Json>) -> Seq<Tree>
    decreases a,
{
    if a.len() == 0 {
        seq![]
    } else {
        trees(a.subrange(0, a.len() - 1)).push(tree(a[a.len() - 1]))
    }
}

/// What the members of an object hold.
pub open spec fn members(m: Seq<(String, Json)>) -> Seq<(Seq<char>, Tree)>
    decreases m,
{
    if m.len() == 0 {
        seq![]
    } else {
        members(m.subrange(0, m.len() - 1)).push(
            (m[m.len() - 1].0@, tree(m[m.len() - 1].1)),
        )
    }
}

/// A list with one value more.
pub proof fn lemma_trees_push(a: Seq<Json>, v: Json)
    ensures
        trees(a.push(v)) == trees(a).push(tree(v)),
{
    assert(a.push(v).subrange(0, a.len() as int) =~= a);
}

/// An object with one member more.
pub proof fn lemma_members_push(m: Seq<(String, Json)>, member: (String, Json))
    ensures
        members(m.push(member)) == members(m).push((member.0@, tree(member.1))),
{
    assert(m.push(member).subrange(0, m.len() as int) =~= m);
}

/// The member of this name, where the value is an object that has it.
pub open spec fn field(v: Json, key: Seq<char>) -> Option<Json> {
    match v {
        Json::Object(m) => lookup(m@, key),
        _ => None,
    }
}

/// The text of a string.
pub open spec fn text_of(v: Option<Json>) -> Option<Seq<char>> {
    match v {
        Some(Json::String(s)) => Some(s@),
        _ => None,
    }
}

/// The number that an unsigned integer is.
pub open spec fn unsigned(v: Json) -> Option<u64> {
    match v {
        Json::Number(Number::PosInt(n)) => Some(n),
        _ => None,
    }
}

/// The value is an integer.
pub open spec fn integral(v: Json) -> bool {
    v matches Json::Number(n) && !(n is Float)
}

impl Json {
    /// The member of this name, where the value is an object that has it.
    pub fn get(&self, key: &str) -> (r: Option<&Json>)
        ensures
            match r {
                Some(v) => field(*self, key@) == Some(*v),
                None => field(*self, key@) is None,
            },
    {
        match self {
            Json::Object(m) => find_pair(m, key),
            _ => None,
        }
    }

    /// The text of a string.
    pub fn as_str(&self) -> (r: Option<&str>)
        ensures
            match r {
                Some(s) => text_of(Some(*self)) == Some(s@),
                None => text_of(Some(*self)) is None,
            },
    {
        match self {
            Json::String(s) => Some(s.as_str()),
            _ => None,
        }
    }

    /// The text of the member of this name, where it is a string.
    pub fn get_str(&self, key: &str) -> (r: Option<&str>)
        ensures
            match r {
                Some(s) => text_of(field(*self, key@)) == Some(s@),
                None => text_of(field(*self, key@)) is None,
            },
    {
        match self.get(key) {
            Some(v) => v.as_str(),
            None => None,
        }
    }

    /// The number that an unsigned integer is.
    pub fn as_u64(&self) -> (r: Option<u64>)
        ensures
            r == unsigned(*self),
    {
        match self {
            Json::Number(Number::PosInt(n)) => Some(*n),
            _ => None,
        }
    }

    /// Whether the value is an integer.
    pub fn is_integer(&self) -> (r: bool)
        ensures
            r == integral(*self),
    {
        match self {
            Json::Number(Number::PosInt(_)) => true,
            Json::Number(Number::NegInt(_)) => true,
            _ => false,
        }
    }

    /// A string.
    pub fn text(s: &str) -> (r: Json)
        ensures
            tree(r) == Tree::Text(s@),
    {
        Json::String(String::from_str(s))
    }

    /// An integer.
    pub fn number(n: u64) -> (r: Json)
        ensures
            tree(r) == count(n),
    {
        Json::Number(Number::PosInt(n))
    }

    /// An integer of either sign.
    pub fn signed(n: i64) -> (r: Json)
        ensures
            tree(r) == signed_count(n),
    {
        if n >= 0 {
            Json::Number(Number::PosInt(n as u64))
        } else {
            Json::Number(Number::NegInt(n))
        }
    }

    /// A string, or null.
    pub fn opt_text(s: Option<&str>) -> (r: Json)
        ensures
            tree(r) == match s {
                Some(t) => Tree::Text(t@),
                None => Tree::Null,
            },
    {
        match s {
            Some(t) => Json::text(t),
            None => Json::Null,
        }
    }

    /// An array of one value.
    pub fn single(v: Json) -> (r: Json)
        ensures
            tree(r) == Tree::Array(seq![tree(v)]),
    {
        let ghost a = tree(v);
        let mut list: Vec<Json> = Vec::new();
        proof {
            lemma_trees_push(list@, v);
        }
        list.push(v);
        assert(trees(list@) =~= seq![a]);
        Json::Array(list)
    }
}

/// An integer.
pub open spec fn count(n: u64) -> Tree {
    Tree::Number(Number::PosInt(n))
}

/// An integer of either sign.
pub open spec fn signed_count(n: i64) -> Tree {
    if n >= 0 {
        Tree::Number(Number::PosInt(n as u64))
    } else {
        Tree::Number(Number::NegInt(n))
    }
}

/// An object of these members.
pub open spec fn object(m: Seq<(Seq<char>, Tree)>) -> Tree {
    Tree::Object(m)
}

/// Add a member to those of an object.
pub fn put(members_so_far: &mut Vec<(String, Json)>, key: &str, value: Json)
    ensures
        members(final(members_so_far)@) == members(old(members_so_far)@).push((key@, tree(value))),
{
    let name = String::from_str(key);
    proof {
        lemma_members_push(members_so_far@, (name, value));
    }
    members_so_far.push((name, value));
}

} // verus!
