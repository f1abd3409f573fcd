//! JSON documents as plain values, and the way between them and bytes.
use crate::error::{Fault, NetworkError};
use crate::text::{decimal, to_decimal, with_text};
use serde_json::Value;
use vstd::prelude::*;

verus! {

/// A JSON value. The members of an object stand in the order of their keys.
#[derive(Debug)]
pub enum Json {
    Null,
    Bool(bool),
    /// A whole number that is not negative.
    Unsigned(u64),
    /// A negative whole number.
    Negative(i64),
    /// Any other number, as its decimal text.
    Float(String),
    Text(String),
    Array(Vec<Json>),
    Object(Vec<Member>),
}

/// One member of a JSON object.
#[derive(Debug)]
pub struct Member {
    pub key: String,
    pub value: Json,
}

/// What a JSON value says.
pub ghost enum Tree {
    Null,
    Bool(bool),
    Unsigned(u64),
    Negative(i64),
    Float(Seq<char>),
    Text(Seq<char>),
    Array(Seq<Tree>),
    Object(Seq<(Seq<char>, Tree)>),
}

/// What a JSON value says.
pub open spec fn tree(json: Json) -> Tree
    decreases json,
{
    match json {
        Json::Null => Tree::Null,
        Json::Bool(b) => Tree::Bool(b),
        Json::Unsigned(n) => Tree::Unsigned(n),
        Json::Negative(n) => Tree::Negative(n),
        Json::Float(text) => Tree::Float(text@),
        Json::Text(text) => Tree::Text(text@),
        Json::Array(items) => Tree::Array(
            Seq::new(
                items@.len(),
                |i: int| if 0 <= i < items@.len() { tree(items@[i]) } else { Tree::Null },
            ),
        ),
        Json::Object(members) => Tree::Object(
            Seq::new(
                members@.len(),
                |i: int|
                    if 0 <= i < members@.len() {
                        (members@[i].key@, tree(members@[i].value))
                    } else {
                        (Seq::empty(), Tree::Null)
                    },
            ),
        ),
    }
}

/// The first of an object's members with the given key.
pub open spec fn find(members: Seq<(Seq<char>, Tree)>, key: Seq<char>) -> Option<Tree>
    decreases members.len(),
{
    if members.len() == 0 {
        None
    } else if members[0].0 == key {
        Some(members[0].1)
    } else {
        find(members.drop_first(), key)
    }
}

impl Tree {
    /// Whether a value is an object with the given key.
    pub open spec fn has(self, key: Seq<char>) -> bool {
        self is Object && find(self->Object_0, key) is Some
    }

    /// The value under a key of an object; null when there is none.
    pub open spec fn get(self, key: Seq<char>) -> Tree {
        if self.has(key) {
            find(self->Object_0, key)->Some_0
        } else {
            Tree::Null
        }
    }

    /// The value at a position of an array; null when there is none.
    pub open spec fn at(self, index: int) -> Tree {
        if self is Array && 0 <= index < self->Array_0.len() {
            self->Array_0[index]
        } else {
            Tree::Null
        }
    }

    /// The number a value is, as its decimal text.
    pub open spec fn number_text(self) -> Option<Seq<char>> {
        match self {
            Tree::Unsigned(n) => Some(decimal(n as nat)),
            Tree::Negative(n) => Some(
                if n >= 0 {
                    decimal(n as nat)
                } else {
                    "-"@ + decimal((-n) as nat)
                },
            ),
            Tree::Float(text) => Some(text),
            _ => None,
        }
    }

    /// The whole number a value is, or a fallback.
    pub open spec fn number_or(self, fallback: u64) -> u64 {
        if self is Unsigned {
            self->Unsigned_0
        } else {
            fallback
        }
    }
}

/// How far a negative number is from zero.
fn magnitude(n: i64) -> (m: u64)
    requires
        n < 0,
    ensures
        m == -n,
{
    (-(n + 1)) as u64 + 1
}

/// What an optional value says: an absent one is null.
pub open spec fn tree_of(json: Option<&Json>) -> Tree {
    match json {
        Some(json) => tree(*json),
        None => Tree::Null,
    }
}

impl Json {
    /// The value under a key of an object.
    pub fn get(&self, key: &str) -> (value: Option<&Json>)
        ensures
            value is Some <==> tree(*self).has(key@),
            tree_of(value) == tree(*self).get(key@),
    {
        match self {
            Json::Object(members) => {
                let ghost all = tree(*self)->Object_0;
                let wanted = key.to_string();
                let mut i: usize = 0;
                assert(all.skip(0) =~= all);
                while i < members.len()
                    invariant
                        i <= members@.len(),
                        wanted@ == key@,
                        *self == Json::Object(*members),
                        all == tree(*self)->Object_0,
                        all.len() == members@.len(),
                        find(all, key@) == find(all.skip(i as int), key@),
                    decreases members.len() - i,
                {
                    assert(all.skip(i as int)[0] == all[i as int]);
                    assert(all[i as int] == (members@[i as int].key@, tree(
                        members@[i as int].value,
                    )));
                    if members[i].key == wanted {
                        return Some(&members[i].value);
                    }
                    assert(all.skip(i as int).drop_first() =~= all.skip(i + 1));
                    i = i + 1;
                }
                None
            },
            _ => None,
        }
    }

    /// The value at a position of an array.
    pub fn at(&self, index: u64) -> (value: Option<&Json>)
        ensures
            value is Some <==> tree(*self) is Array && index < tree(*self)->Array_0.len(),
            tree_of(value) == tree(*self).at(index as int),
    {
        match self {
            Json::Array(items) => {
                if index < items.len() as u64 {
                    Some(&items[index as usize])
                } else {
                    None
                }
            },
            _ => None,
        }
    }

    /// The whole number a value is, when it is one that is not negative.
    pub fn as_u64(&self) -> (value: Option<u64>)
        ensures
            value == match tree(*self) {
                Tree::Unsigned(n) => Some(n),
                _ => None,
            },
    {
        match self {
            Json::Unsigned(n) => Some(*n),
            _ => None,
        }
    }

    /// The text a value is, when it is one.
    pub fn as_str(&self) -> (value: Option<&String>)
        ensures
            value is Some <==> tree(*self) is Text,
            value matches Some(text) ==> tree(*self) == Tree::Text(text@),
    {
        match self {
            Json::Text(text) => Some(text),
            _ => None,
        }
    }

    /// The truth value a value is, when it is one.
    pub fn as_bool(&self) -> (value: Option<bool>)
        ensures
            value == match tree(*self) {
                Tree::Bool(b) => Some(b),
                _ => None,
            },
    {
        match self {
            Json::Bool(b) => Some(*b),
            _ => None,
        }
    }

    /// The number a value is, as its decimal text, when it is one.
    pub fn as_number(&self) -> (value: Option<String>)
        ensures
            (match value {
                Some(text) => Some(text@),
                None => None,
            }) == tree(*self).number_text(),
    {
        match self {
            Json::Unsigned(n) => Some(to_decimal(*n)),
            Json::Negative(n) => {
                if *n >= 0 {
                    return Some(to_decimal(*n as u64));
                }
                let text = with_text("-", to_decimal(magnitude(*n)).as_str(), "");
                proof {
                    reveal_strlit("");
                    assert("-"@ + decimal((-*n) as nat) + ""@ =~= "-"@ + decimal((-*n) as nat));
                }
                Some(text)
            },
            Json::Float(text) => {
                let copy = with_text("", text.as_str(), "");
                proof {
                    reveal_strlit("");
                    assert(copy@ =~= text@);
                }
                Some(copy)
            },
            _ => None,
        }
    }

    /// The items of an array.
    pub fn as_array(&self) -> (value: Option<&Vec<Json>>)
        ensures
            value is Some <==> tree(*self) is Array,
            value matches Some(items) ==> tree(*self)->Array_0.len() == items@.len() && forall|i: int|
                0 <= i < items@.len() ==> tree(*self)->Array_0[i] == tree(#[trigger] items@[i]),
    {
        match self {
            Json::Array(items) => Some(items),
            _ => None,
        }
    }
}

/// The value under a key of an optional object.
pub fn member<'a>(json: Option<&'a Json>, key: &str) -> (value: Option<&'a Json>)
    ensures
        value is Some <==> tree_of(json).has(key@),
        tree_of(value) == tree_of(json).get(key@),
{
    match json {
        Some(json) => json.get(key),
        None => None,
    }
}

/// The value at a position of an optional array.
pub fn item<'a>(json: Option<&'a Json>, index: u64) -> (value: Option<&'a Json>)
    ensures
        tree_of(value) == tree_of(json).at(index as int),
{
    match json {
        Some(json) => json.at(index),
        None => None,
    }
}

/// The whole number an optional value is, when it is one.
pub fn number(json: Option<&Json>) -> (value: Option<u64>)
    ensures
        value == match tree_of(json) {
            Tree::Unsigned(n) => Some(n),
            _ => None,
        },
{
    match json {
        Some(json) => json.as_u64(),
        None => None,
    }
}

/// The whole number an optional value is, or a fallback.
pub fn number_or(json: Option<&Json>, fallback: u64) -> (value: u64)
    ensures
        value == tree_of(json).number_or(fallback),
{
    match number(json) {
        Some(value) => value,
        None => fallback,
    }
}

/// The items an optional value holds, when it is an array.
pub fn items(json: Option<&Json>) -> (value: Option<&Vec<Json>>)
    ensures
        value is Some <==> tree_of(json) is Array,
        value matches Some(list) ==> tree_of(json)->Array_0.len() == list@.len() && forall|i: int|
            0 <= i < list@.len() ==> tree_of(json)->Array_0[i] == tree(#[trigger] list@[i]),
{
    match json {
        Some(json) => json.as_array(),
        None => None,
    }
}

// -- To and from bytes -------------------------------------------------------

/// A text that is shorter than another up to its end, or has the smaller
/// character where the two first differ.
pub open spec fn precedes(a: Seq<char>, b: Seq<char>) -> bool
    decreases a.len(),
{
    if b.len() == 0 {
        false
    } else if a.len() == 0 {
        true
    } else if a[0] == b[0] {
        precedes(a.drop_first(), b.drop_first())
    } else {
        (a[0] as u32) < (b[0] as u32)
    }
}

/// Whether a character is a decimal digit.
pub open spec fn is_digit(c: char) -> bool {
    '0' <= c && c <= '9'
}

/// Whether a text is a plain decimal fraction: a sign or none, digits with no
/// needless zero before them, a point, and digits.
pub open spec fn is_fraction(text: Seq<char>) -> bool {
    let start: int = if text.len() > 0 && text[0] == '-' { 1 } else { 0 };
    text.len() <= 300 && exists|point: int|
        start < point < text.len() - 1 && #[trigger] text[point] == '.' && (text[start] == '0'
            ==> point == start + 1) && forall|i: int|
            start <= i < text.len() && i != point ==> is_digit(#[trigger] text[i])
}

/// Whether a value is one that JSON text can hold: negative numbers are
/// negative, other numbers are plain fractions, the keys of each object stand
/// in order, and values are nested no deeper than `depth`.
pub open spec fn is_plain(tree: Tree, depth: nat) -> bool
    decreases depth,
{
    match tree {
        Tree::Negative(n) => n < 0,
        Tree::Float(text) => is_fraction(text),
        Tree::Array(items) => depth > 0 && forall|i: int|
            0 <= i < items.len() ==> is_plain(#[trigger] items[i], (depth - 1) as nat),
        Tree::Object(members) => {
            &&& depth > 0
            &&& forall|i: int|
                0 <= i < members.len() ==> is_plain((#[trigger] members[i]).1, (depth - 1) as nat)
            &&& forall|i: int, j: int|
                0 <= i < j < members.len() ==> precedes(
                    (#[trigger] members[i]).0,
                    (#[trigger] members[j]).0,
                )
        },
        _ => true,
    }
}

/// Whether two values are the same but for the digits of their fractions.
pub open spec fn agrees(a: Tree, b: Tree) -> bool
    decreases a,
{
    match (a, b) {
        (Tree::Float(_), Tree::Float(_)) => true,
        (Tree::Array(x), Tree::Array(y)) => x.len() == y.len() && forall|i: int|
            0 <= i < x.len() ==> agrees(#[trigger] x[i], y[i]),
        (Tree::Object(x), Tree::Object(y)) => x.len() == y.len() && forall|i: int|
            0 <= i < x.len() ==> (#[trigger] x[i]).0 == y[i].0 && agrees(x[i].1, y[i].1),
        _ => a == b,
    }
}

#[verifier::external_type_specification]
#[verifier::external_body]
pub struct ExValue(serde_json::Value);

/// What a `serde_json::Value` holds.
pub uninterp spec fn value_tree(value: serde_json::Value) -> Tree;

/// What `serde_json::from_slice` reads from bytes, or what its error says.
pub uninterp spec fn parsed(bytes: Seq<u8>) -> Result<Tree, Seq<char>>;

/// What is written for a value: numbers as `serde_json::Number` keeps them, and
/// the members of objects as `serde_json::Map` does.
pub uninterp spec fn written(tree: Tree) -> Tree;

/// What `serde_json::to_vec` writes of a value.
pub uninterp spec fn rendered(tree: Tree) -> Seq<u8>;

/// `serde_json::from_slice`, as a function of the bytes alone: the value it
/// reads, or else the text that its error displays.
#[verifier::external_body]
fn parse_value(bytes: &[u8]) -> (value: Result<serde_json::Value, String>)
    ensures
        match value {
            Ok(value) => parsed(bytes@) == Ok::<Tree, Seq<char>>(value_tree(value)),
            Err(words) => parsed(bytes@) == Err::<Tree, Seq<char>>(words@),
        },
{
    match serde_json::from_slice(bytes) {
        Ok(value) => Ok(value),
        Err(error) => Err(error.to_string()),
    }
}

/// The contents of a `serde_json::Value`, variant by variant. Its numbers are
/// told apart by `Number::as_u64` and `Number::as_i64`, and any other is kept
/// as the text that `Number` displays.
#[verifier::external_body]
fn read_value(value: &serde_json::Value) -> (json: Json)
    ensures
        tree(json) == value_tree(*value),
{
    match value {
        Value::Null => Json::Null,
        Value::Bool(b) => Json::Bool(*b),
        Value::Number(n) => match (n.as_u64(), n.as_i64()) {
            (Some(n), _) => Json::Unsigned(n),
            (None, Some(n)) => Json::Negative(n),
            (None, None) => Json::Float(n.to_string()),
        },
        Value::String(text) => Json::Text(text.clone()),
        Value::Array(items) => Json::Array(items.iter().map(read_value).collect()),
        Value::Object(members) => Json::Object(
            members.iter().map(|(k, v)| Member { key: k.clone(), value: read_value(v) }).collect(),
        ),
    }
}

/// A `serde_json::Value` with given contents. What it comes to hold is a
/// function of the contents alone. A fraction goes through `Number::from_str`,
/// which keeps it a fraction but may round its digits; an object's members are
/// collected into the crate's map, which orders them by key, so that only
/// contents that stand in that order are promised to stay.
#[verifier::external_body]
fn write_value(json: &Json) -> (value: serde_json::Value)
    ensures
        value_tree(value) == written(tree(*json)),
        is_plain(tree(*json), 127) ==> agrees(value_tree(value), tree(*json)),
{
    match json {
        Json::Null => Value::Null,
        Json::Bool(b) => Value::Bool(*b),
        Json::Unsigned(n) => Value::from(*n),
        Json::Negative(n) => Value::from(*n),
        Json::Float(text) => text.parse().map_or(Value::Null, Value::Number),
        Json::Text(text) => Value::from(text.as_str()),
        Json::Array(items) => items.iter().map(write_value).collect(),
        Json::Object(members) => members.iter().map(
            |m| (m.key.clone(), write_value(&m.value)),
        ).collect(),
    }
}

/// `serde_json::to_vec`, which does not fail on a `Value`. What it writes is
/// read back by `serde_json::from_slice`, with spaces after it or without,
/// unless values are nested too deeply for the reader; the reader may round
/// the digits of a fraction.
#[verifier::external_body]
fn render_value(value: &serde_json::Value) -> (bytes: Vec<u8>)
    ensures
        bytes@ == rendered(value_tree(*value)),
        nested(value_tree(*value), 127) ==> reads_back(bytes@, value_tree(*value)),
{
    serde_json::to_vec(value).unwrap_or_default()
}

/// Whether bytes are all spaces.
pub open spec fn all_spaces(bytes: Seq<u8>) -> bool {
    forall|i: int| 0 <= i < bytes.len() ==> #[trigger] bytes[i] == 0x20
}

/// Whether values are nested no deeper than `depth`.
pub open spec fn nested(tree: Tree, depth: nat) -> bool
    decreases depth,
{
    match tree {
        Tree::Array(items) => depth > 0 && forall|i: int|
            0 <= i < items.len() ==> nested(#[trigger] items[i], (depth - 1) as nat),
        Tree::Object(members) => depth > 0 && forall|i: int|
            0 <= i < members.len() ==> nested((#[trigger] members[i]).1, (depth - 1) as nat),
        _ => true,
    }
}

/// Whether bytes, with any spaces after them, are read as a value that agrees
/// with the given one.
pub open spec fn reads_back(bytes: Seq<u8>, tree: Tree) -> bool {
    forall|spaces: Seq<u8>| #[trigger]
        all_spaces(spaces) ==> parsed(bytes + spaces) is Ok && agrees(
            parsed(bytes + spaces)->Ok_0,
            tree,
        )
}

proof fn lemma_plain_is_nested(tree: Tree, depth: nat)
    requires
        is_plain(tree, depth),
    ensures
        nested(tree, depth),
    decreases depth,
{
    match tree {
        Tree::Array(items) => {
            assert forall|i: int| 0 <= i < items.len() implies nested(
                #[trigger] items[i],
                (depth - 1) as nat,
            ) by {
                lemma_plain_is_nested(items[i], (depth - 1) as nat);
            }
        },
        Tree::Object(members) => {
            assert forall|i: int| 0 <= i < members.len() implies nested(
                (#[trigger] members[i]).1,
                (depth - 1) as nat,
            ) by {
                lemma_plain_is_nested(members[i].1, (depth - 1) as nat);
            }
        },
        _ => {},
    }
}

proof fn lemma_agrees_is_nested(a: Tree, b: Tree, depth: nat)
    requires
        agrees(a, b),
        nested(b, depth),
    ensures
        nested(a, depth),
    decreases depth,
{
    match (a, b) {
        (Tree::Array(x), Tree::Array(y)) => {
            assert forall|i: int| 0 <= i < x.len() implies nested(
                #[trigger] x[i],
                (depth - 1) as nat,
            ) by {
                lemma_agrees_is_nested(x[i], y[i], (depth - 1) as nat);
            }
        },
        (Tree::Object(x), Tree::Object(y)) => {
            assert forall|i: int| 0 <= i < x.len() implies nested(
                (#[trigger] x[i]).1,
                (depth - 1) as nat,
            ) by {
                lemma_agrees_is_nested(x[i].1, y[i].1, (depth - 1) as nat);
            }
        },
        _ => {},
    }
}

/// Agreement carries over.
pub proof fn lemma_agrees_transitive(a: Tree, b: Tree, c: Tree)
    requires
        agrees(a, b),
        agrees(b, c),
    ensures
        agrees(a, c),
    decreases a,
{
    match (a, b, c) {
        (Tree::Array(x), Tree::Array(y), Tree::Array(z)) => {
            assert forall|i: int| 0 <= i < x.len() implies agrees(#[trigger] x[i], z[i]) by {
                lemma_agrees_transitive(x[i], y[i], z[i]);
            }
        },
        (Tree::Object(x), Tree::Object(y), Tree::Object(z)) => {
            assert forall|i: int| 0 <= i < x.len() implies (#[trigger] x[i]).0 == z[i].0 && agrees(
                x[i].1,
                z[i].1,
            ) by {
                lemma_agrees_transitive(x[i].1, y[i].1, z[i].1);
            }
        },
        _ => {},
    }
}

impl Json {
    /// Reads a JSON document, or says why there is none in the words of the
    /// reader.
    pub fn parse_or_say(bytes: &[u8]) -> (json: Result<Json, String>)
        ensures
            match json {
                Ok(json) => parsed(bytes@) == Ok::<Tree, Seq<char>>(tree(json)),
                Err(words) => parsed(bytes@) == Err::<Tree, Seq<char>>(words@),
            },
    {
        match parse_value(bytes) {
            Ok(value) => Ok(read_value(&value)),
            Err(words) => Err(words),
        }
    }

    /// Reads a JSON document.
    pub fn parse(bytes: &[u8]) -> (json: Result<Json, NetworkError>)
        ensures
            match json {
                Ok(json) => parsed(bytes@) == Ok::<Tree, Seq<char>>(tree(json)),
                Err(error) => parsed(bytes@) is Err && error@ == Fault::Json(parsed(bytes@)->Err_0),
            },
    {
        match Json::parse_or_say(bytes) {
            Ok(json) => Ok(json),
            Err(words) => Err(NetworkError::Json(words)),
        }
    }

    /// Writes a JSON document. What is read back of it, whatever spaces follow
    /// it, is the same document but perhaps for the digits of its fractions.
    pub fn to_bytes(&self) -> (bytes: Vec<u8>)
        ensures
            bytes@ == rendered(written(tree(*self))),
            is_plain(tree(*self), 127) ==> reads_back(bytes@, tree(*self)),
    {
        let value = write_value(self);
        let bytes = render_value(&value);
        proof {
            let held = value_tree(value);
            if is_plain(tree(*self), 127) {
                lemma_plain_is_nested(tree(*self), 127);
                lemma_agrees_is_nested(held, tree(*self), 127);
                assert forall|spaces: Seq<u8>| #[trigger] all_spaces(spaces) implies parsed(
                    bytes@ + spaces,
                ) is Ok && agrees(parsed(bytes@ + spaces)->Ok_0, tree(*self)) by {
                    lemma_agrees_transitive(
                        parsed(bytes@ + spaces)->Ok_0,
                        held,
                        tree(*self),
                    );
                }
            }
        }
        bytes
    }
}

} // verus!
