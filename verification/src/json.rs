//! JSON values, as `serde_json` holds, writes and reads them.
//!
//! [`Json`] is the mathematical reading of a `serde_json::Value`: a tree whose
//! objects keep their members in order. The functions at the end are the calls
//! into `serde_json`; what each is taken to do stands in its contract.
use crate::text::signed_decimal;
use serde_json::{Map as JsonMap, Value};
use vstd::prelude::*;
use vstd::utf8::encode_utf8;

verus! {

/// What a JSON value says. A number is known by its text.
pub enum Json {
    Null,
    Bool(bool),
    Number(Seq<char>),
    Text(Seq<char>),
    Array(Seq<Json>),
    Object(Seq<(Seq<char>, Json)>),
}

/// The members of an object, in order.
pub type Members = Seq<(Seq<char>, Json)>;

/// The number `n`.
pub open spec fn number(n: int) -> Json {
    Json::Number(signed_decimal(n))
}

/// Whether an object has a member of this name.
pub open spec fn has_key(members: Members, key: Seq<char>) -> bool {
    exists|i: int| 0 <= i < members.len() && (#[trigger] members[i]).0 == key
}

/// An object's members once `key` has been given a value: a known name keeps
/// its place, a new one goes last.
pub open spec fn put(members: Members, key: Seq<char>, value: Json) -> Members {
    if has_key(members, key) {
        Seq::new(
            members.len(),
            |i: int|
                if members[i].0 == key {
                    (key, value)
                } else {
                    members[i]
                },
        )
    } else {
        members.push((key, value))
    }
}

/// The value under `key`, in an object that has such a member.
pub open spec fn value_at(members: Members, key: Seq<char>) -> Option<Json>
    decreases members.len(),
{
    if members.len() == 0 {
        None
    } else if members[0].0 == key {
        Some(members[0].1)
    } else {
        value_at(members.drop_first(), key)
    }
}

/// The value under `key`; nothing where `j` is no object.
pub open spec fn member(j: Json, key: Seq<char>) -> Option<Json> {
    match j {
        Json::Object(members) => value_at(members, key),
        _ => None,
    }
}

/// The text that `j` is, where it is a text.
pub open spec fn as_text(j: Json) -> Option<Seq<char>> {
    match j {
        Json::Text(t) => Some(t),
        _ => None,
    }
}

/// The text under `key`, where there is one.
pub open spec fn text_at(j: Json, key: Seq<char>) -> Option<Seq<char>> {
    match member(j, key) {
        Some(v) => as_text(v),
        None => None,
    }
}

/// The items under `key`, where there is an array.
pub open spec fn items_at(j: Json, key: Seq<char>) -> Option<Seq<Json>> {
    match member(j, key) {
        Some(Json::Array(items)) => Some(items),
        _ => None,
    }
}

/// How one character of a text is written between quotes.
pub open spec fn escaped(c: char) -> Seq<char> {
    if c == '"' {
        seq!['\\', '"']
    } else if c == '\\' {
        seq!['\\', '\\']
    } else if c == '\x08' {
        seq!['\\', 'b']
    } else if c == '\t' {
        seq!['\\', 't']
    } else if c == '\n' {
        seq!['\\', 'n']
    } else if c == '\x0c' {
        seq!['\\', 'f']
    } else if c == '\r' {
        seq!['\\', 'r']
    } else if (c as int) < 0x20 {
        seq![
            '\\',
            'u',
            '0',
            '0',
            crate::text::digit(c as int / 16),
            crate::text::digit(c as int % 16),
        ]
    } else {
        seq![c]
    }
}

/// `t` with its characters written as they stand between quotes.
pub open spec fn escaped_text(t: Seq<char>) -> Seq<char>
    decreases t.len(),
{
    if t.len() == 0 {
        Seq::empty()
    } else {
        escaped_text(t.drop_last()) + escaped(t.last())
    }
}

/// `t` as a JSON string.
pub open spec fn quoted(t: Seq<char>) -> Seq<char> {
    seq!['"'] + escaped_text(t) + seq!['"']
}

/// `j` as JSON text without any white space.
pub open spec fn compact(j: Json) -> Seq<char>
    decreases j,
{
    match j {
        Json::Null => "null"@,
        Json::Bool(b) => if b {
            "true"@
        } else {
            "false"@
        },
        Json::Number(t) => t,
        Json::Text(t) => quoted(t),
        Json::Array(items) => seq!['['] + compact_items(items) + seq![']'],
        Json::Object(members) => seq!['{'] + compact_members(members) + seq!['}'],
    }
}

/// The items of an array, with commas between them.
pub open spec fn compact_items(items: Seq<Json>) -> Seq<char>
    decreases items,
{
    if items.len() == 0 {
        Seq::empty()
    } else {
        compact_items(items.drop_last()) + (if items.len() > 1 {
            seq![',']
        } else {
            Seq::empty()
        }) + compact(items.last())
    }
}

/// The members of an object, with commas between them.
pub open spec fn compact_members(members: Members) -> Seq<char>
    decreases members,
{
    if members.len() == 0 {
        Seq::empty()
    } else {
        compact_members(members.drop_last()) + (if members.len() > 1 {
            seq![',']
        } else {
            Seq::empty()
        }) + quoted(members.last().0) + seq![':'] + compact(members.last().1)
    }
}

/// A new line, indented by two spaces for each level.
pub open spec fn new_line(level: nat) -> Seq<char> {
    seq!['\n'] + Seq::new(2 * level, |i: int| ' ')
}

/// `j` as JSON text with one item or member to a line.
pub open spec fn pretty(j: Json, level: nat) -> Seq<char>
    decreases j,
{
    match j {
        Json::Array(items) => if items.len() == 0 {
            "[]"@
        } else {
            seq!['['] + pretty_items(items, level + 1) + new_line(level) + seq![']']
        },
        Json::Object(members) => if members.len() == 0 {
            "{}"@
        } else {
            seq!['{'] + pretty_members(members, level + 1) + new_line(level) + seq!['}']
        },
        _ => compact(j),
    }
}

/// The items of an array, each on a line of its own.
pub open spec fn pretty_items(items: Seq<Json>, level: nat) -> Seq<char>
    decreases items,
{
    if items.len() == 0 {
        Seq::empty()
    } else {
        pretty_items(items.drop_last(), level) + (if items.len() > 1 {
            seq![',']
        } else {
            Seq::empty()
        }) + new_line(level) + pretty(items.last(), level)
    }
}

/// The members of an object, each on a line of its own.
pub open spec fn pretty_members(members: Members, level: nat) -> Seq<char>
    decreases members,
{
    if members.len() == 0 {
        Seq::empty()
    } else {
        pretty_members(members.drop_last(), level) + (if members.len() > 1 {
            seq![',']
        } else {
            Seq::empty()
        }) + new_line(level) + quoted(members.last().0) + seq![':', ' '] + pretty(
            members.last().1,
            level,
        )
    }
}

/// The bytes of `j` as compact JSON.
pub open spec fn compact_bytes(j: Json) -> Seq<u8> {
    encode_utf8(compact(j))
}

/// The bytes of `j` as JSON with one item or member to a line.
pub open spec fn pretty_bytes(j: Json) -> Seq<u8> {
    encode_utf8(pretty(j, 0))
}

/// Whether the number with this text is a whole one of at most 64 bits.
pub open spec fn is_whole(t: Seq<char>) -> bool {
    exists|n: int| i64::MIN <= n <= u64::MAX && t == #[trigger] signed_decimal(n)
}

/// Whether `j` holds whole numbers only and nests at most `depth` levels.
pub open spec fn is_simple(j: Json, depth: nat) -> bool
    decreases depth,
{
    match j {
        Json::Number(t) => is_whole(t),
        Json::Array(items) => depth > 0 && forall|i: int|
            0 <= i < items.len() ==> is_simple(#[trigger] items[i], (depth - 1) as nat),
        Json::Object(members) => depth > 0 && forall|i: int|
            0 <= i < members.len() ==> is_simple((#[trigger] members[i]).1, (depth - 1) as nat),
        _ => true,
    }
}

/// Whether `j` can be written and read back unchanged: its numbers are whole,
/// and it nests no deeper than a reader follows.
pub open spec fn is_readable(j: Json) -> bool {
    is_simple(j, 127)
}

/// No byte of `bytes` is zero.
pub open spec fn without_nul(bytes: Seq<u8>) -> bool {
    forall|i: int| 0 <= i < bytes.len() ==> #[trigger] bytes[i] != 0
}

/// `serde_json::Value`, an opaque type here.
#[verifier::external_type_specification]
#[verifier::external_body]
pub struct ExValue(serde_json::Value);

/// `serde_json::Map`, an opaque type here.
#[verifier::external_type_specification]
#[verifier::external_body]
#[verifier::reject_recursive_types(K)]
#[verifier::reject_recursive_types(V)]
pub struct ExJsonMap<K, V>(serde_json::Map<K, V>);

/// What a `serde_json::Value` holds.
pub uninterp spec fn tree(v: serde_json::Value) -> Json;

/// What a `serde_json::Map` holds, in the order in which it is walked.
pub uninterp spec fn members_of(
    m: serde_json::Map<String, serde_json::Value>,
) -> Seq<(Seq<char>, Json)>;

/// What `serde_json::from_slice` makes of some bytes: the value, or the text
/// of the error.
pub uninterp spec fn parsed(bytes: Seq<u8>) -> Result<Json, Seq<char>>;

/// `bytes` are the text of `j`.
pub open spec fn reads_as(bytes: Seq<u8>, j: Json) -> bool {
    parsed(bytes) == Ok::<Json, Seq<char>>(j)
}

/// What each of some values holds.
pub open spec fn trees(values: Seq<Value>) -> Seq<Json> {
    Seq::new(values.len(), |i: int| tree(values[i]))
}

/// `serde_json::Map::new` gives an object without members.
#[verifier::external_body]
pub(crate) fn new_object() -> (res: JsonMap<String, Value>)
    ensures
        members_of(res) == Seq::<(Seq<char>, Json)>::empty(),
{
    JsonMap::new()
}

/// `serde_json::Map::insert`, with the order of insertion kept: a known name
/// gets the new value in its old place, a new one goes last.
#[verifier::external_body]
pub(crate) fn insert(m: &mut JsonMap<String, Value>, key: &str, value: Value)
    ensures
        members_of(*final(m)) == put(members_of(*old(m)), key@, tree(value)),
{
    m.insert(key.to_string(), value);
}

/// `serde_json::Map::iter` hands out the members in order; no name comes
/// twice.
#[verifier::external_body]
pub(crate) fn entries<'a>(m: &'a JsonMap<String, Value>) -> (res: Vec<(&'a String, &'a Value)>)
    ensures
        res@.len() == members_of(*m).len(),
        forall|i: int|
            #![trigger res@[i]]
            0 <= i < res@.len() ==> res@[i].0@ == members_of(*m)[i].0 && tree(*res@[i].1)
                == members_of(*m)[i].1,
        forall|i: int, j: int|
            0 <= i < j < res@.len() ==> (#[trigger] res@[i]).0@ != (#[trigger] res@[j]).0@,
{
    m.iter().collect()
}

/// Gives the object one more member.
pub(crate) fn with_member(
    m: JsonMap<String, Value>,
    key: &str,
    value: Value,
) -> (res: JsonMap<String, Value>)
    requires
        !has_key(members_of(m), key@),
    ensures
        members_of(res) == members_of(m).push((key@, tree(value))),
{
    let mut m = m;
    insert(&mut m, key, value);
    m
}

/// The variant `serde_json::Value::Object`.
#[verifier::external_body]
pub(crate) fn object(m: JsonMap<String, Value>) -> (res: Value)
    ensures
        tree(res) == Json::Object(members_of(m)),
{
    Value::Object(m)
}

/// The variant `serde_json::Value::Array`.
#[verifier::external_body]
pub(crate) fn array(items: Vec<Value>) -> (res: Value)
    ensures
        tree(res) == Json::Array(trees(items@)),
{
    Value::Array(items)
}

/// `serde_json::Value::from` makes a text of a `&str`.
#[verifier::external_body]
pub(crate) fn text(t: &str) -> (res: Value)
    ensures
        tree(res) == Json::Text(t@),
{
    Value::from(t)
}

/// `serde_json::Value::from` makes a number of a `u64`.
#[verifier::external_body]
pub(crate) fn unsigned(n: u64) -> (res: Value)
    ensures
        tree(res) == number(n as int),
{
    Value::from(n)
}

/// `serde_json::Value::from` makes a number of an `i32`.
#[verifier::external_body]
pub(crate) fn signed(n: i32) -> (res: Value)
    ensures
        tree(res) == number(n as int),
{
    Value::from(n)
}

/// The variant `serde_json::Value::Null`.
#[verifier::external_body]
pub(crate) fn null() -> (res: Value)
    ensures
        tree(res) == Json::Null,
{
    Value::Null
}

/// `serde_json::Value::clone` gives a value that holds the same.
#[verifier::external_body]
pub(crate) fn copy(v: &Value) -> (res: Value)
    ensures
        tree(res) == tree(*v),
{
    v.clone()
}

/// `serde_json::Value::get` with a name: the member of an object.
#[verifier::external_body]
pub(crate) fn get<'a>(v: &'a Value, key: &str) -> (res: Option<&'a Value>)
    ensures
        match res {
            Some(found) => member(tree(*v), key@) == Some(tree(*found)),
            None => member(tree(*v), key@) is None,
        },
{
    v.get(key)
}

/// `serde_json::Value::as_str`.
#[verifier::external_body]
pub(crate) fn as_str<'a>(v: &'a Value) -> (res: Option<&'a str>)
    ensures
        match res {
            Some(t) => as_text(tree(*v)) == Some(t@),
            None => as_text(tree(*v)) is None,
        },
{
    v.as_str()
}

/// `serde_json::Value::as_array`.
#[verifier::external_body]
pub(crate) fn as_array<'a>(v: &'a Value) -> (res: Option<&'a Vec<Value>>)
    ensures
        match res {
            Some(items) => tree(*v) == Json::Array(trees(items@)),
            None => tree(*v) !is Array,
        },
{
    v.as_array()
}

/// `serde_json::Value::as_object`.
#[verifier::external_body]
pub(crate) fn as_object<'a>(v: &'a Value) -> (res: Option<&'a JsonMap<String, Value>>)
    ensures
        match res {
            Some(m) => tree(*v) == Json::Object(members_of(*m)),
            None => tree(*v) !is Object,
        },
{
    v.as_object()
}

/// `serde_json::Value::to_string` writes compact JSON.
#[verifier::external_body]
pub(crate) fn to_text(v: &Value) -> (res: String)
    ensures
        res@ == compact(tree(*v)),
{
    v.to_string()
}

/// `serde_json::to_vec` writes compact JSON. It fails only on maps whose keys
/// are no strings and on types that refuse to be written, so never on a
/// `Value`. Control characters are escaped, so no byte is zero, and
/// `from_slice` reads back what was written as long as the numbers are whole
/// and the nesting is within its limit.
#[verifier::external_body]
pub(crate) fn to_vec(v: &Value) -> (res: Result<Vec<u8>, String>)
    ensures
        res is Ok,
        res->Ok_0@ == compact_bytes(tree(*v)),
        without_nul(res->Ok_0@),
        is_readable(tree(*v)) ==> reads_as(res->Ok_0@, tree(*v)),
{
    serde_json::to_vec(v).map_err(|e| e.to_string())
}

/// `serde_json::to_vec_pretty` writes JSON with one item or member to a line
/// and two spaces to a level; otherwise as [`to_vec`].
#[verifier::external_body]
pub(crate) fn to_vec_pretty(v: &Value) -> (res: Result<Vec<u8>, String>)
    ensures
        res is Ok,
        res->Ok_0@ == pretty_bytes(tree(*v)),
        without_nul(res->Ok_0@),
        is_readable(tree(*v)) ==> reads_as(res->Ok_0@, tree(*v)),
{
    serde_json::to_vec_pretty(v).map_err(|e| e.to_string())
}

/// `serde_json::from_slice` reads one JSON value; an error is told by its
/// text.
#[verifier::external_body]
pub(crate) fn from_slice(bytes: &[u8]) -> (res: Result<Value, String>)
    ensures
        match res {
            Ok(v) => parsed(bytes@) == Ok::<Json, Seq<char>>(tree(v)),
            Err(e) => parsed(bytes@) == Err::<Json, Seq<char>>(e@),
        },
{
    serde_json::from_slice(bytes).map_err(|e| e.to_string())
}

/// Whether a character stands for itself between quotes.
pub open spec fn is_plain(c: char) -> bool {
    c as int >= 0x20 && c != '"' && c != '\\'
}

/// A text of plain characters is written between quotes as it is.
pub proof fn law_plain_text_is_quoted_as_it_is(t: Seq<char>)
    requires
        forall|i: int| 0 <= i < t.len() ==> is_plain(#[trigger] t[i]),
    ensures
        quoted(t) == seq!['"'] + t + seq!['"'],
{
    lemma_plain_text(t);
}

proof fn lemma_plain_text(t: Seq<char>)
    requires
        forall|i: int| 0 <= i < t.len() ==> is_plain(#[trigger] t[i]),
    ensures
        escaped_text(t) == t,
    decreases t.len(),
{
    if t.len() > 0 {
        let front = t.drop_last();
        assert forall|i: int| 0 <= i < front.len() implies is_plain(#[trigger] front[i]) by {
            assert(front[i] == t[i]);
        }
        lemma_plain_text(front);
        assert(is_plain(t[t.len() - 1]));
        assert(front + seq![t.last()] =~= t);
    }
}

/// The text of an object with one more member is that of the object, a comma
/// where there were others, and the member.
pub proof fn law_one_more_member(members: Members, key: Seq<char>, value: Json)
    ensures
        compact_members(members.push((key, value))) == compact_members(members) + (if members.len()
            > 0 {
            seq![',']
        } else {
            Seq::empty()
        }) + quoted(key) + seq![':'] + compact(value),
{
    assert(members.push((key, value)).drop_last() =~= members);
}

/// Where no name comes twice, what stands under a member's name is that
/// member's value; under a name that no member has there is nothing.
pub proof fn law_members_are_found(members: Members, at: int)
    requires
        0 <= at < members.len(),
        forall|i: int, j: int|
            0 <= i < j < members.len() ==> (#[trigger] members[i]).0 != (#[trigger] members[j]).0,
    ensures
        member(Json::Object(members), members[at].0) == Some(members[at].1),
    decreases members.len(),
{
    if at > 0 {
        let rest = members.drop_first();
        assert(members[0].0 != members[at].0);
        assert forall|i: int, j: int| 0 <= i < j < rest.len() implies (#[trigger] rest[i]).0 != (
        #[trigger] rest[j]).0 by {
            assert(rest[i] == members[i + 1] && rest[j] == members[j + 1]);
        }
        law_members_are_found(rest, at - 1);
    }
}

/// Under a name that no member has there is nothing, nor under any name of what
/// is no object.
pub proof fn law_nothing_else_is_found(j: Json, key: Seq<char>)
    requires
        j matches Json::Object(members) ==> forall|i: int|
            0 <= i < members.len() ==> (#[trigger] members[i]).0 != key,
    ensures
        member(j, key) is None,
{
    if let Json::Object(members) = j {
        lemma_not_found(members, key);
    }
}

proof fn lemma_not_found(members: Members, key: Seq<char>)
    requires
        forall|i: int| 0 <= i < members.len() ==> (#[trigger] members[i]).0 != key,
    ensures
        value_at(members, key) is None,
    decreases members.len(),
{
    if members.len() > 0 {
        let rest = members.drop_first();
        assert(members[0].0 != key);
        assert forall|i: int| 0 <= i < rest.len() implies (#[trigger] rest[i]).0 != key by {
            assert(rest[i] == members[i + 1]);
        }
        lemma_not_found(rest, key);
    }
}

/// A text or an array under a name is found whatever it holds, and nothing else
/// is taken for one.
pub proof fn law_what_stands_under_a_name(j: Json, key: Seq<char>, t: Seq<char>, items: Seq<Json>)
    ensures
        text_at(j, key) == Some(t) <==> member(j, key) == Some(Json::Text(t)),
        items_at(j, key) == Some(items) <==> member(j, key) == Some(Json::Array(items)),
        text_at(j, key) is Some <==> member(j, key) is Some && member(j, key)->0 is Text,
        items_at(j, key) is Some <==> member(j, key) is Some && member(j, key)->0 is Array,
{
}

/// Giving a name a value changes what stands under that name alone.
pub proof fn law_put(members: Members, key: Seq<char>, value: Json, other: Seq<char>)
    ensures
        member(Json::Object(put(members, key, value)), key) == Some(value),
        other != key ==> member(Json::Object(put(members, key, value)), other) == member(
            Json::Object(members),
            other,
        ),
        put(members, key, value).len() == members.len() + (if has_key(members, key) {
            0int
        } else {
            1
        }),
        forall|i: int|
            0 <= i < members.len() ==> (#[trigger] put(members, key, value)[i]).0 == members[i].0,
{
    if has_key(members, key) {
        lemma_replaced(members, key, value, other);
    } else {
        lemma_added(members, key, value, other);
    }
}

proof fn lemma_replaced(members: Members, key: Seq<char>, value: Json, other: Seq<char>)
    requires
        has_key(members, key),
    ensures
        value_at(put(members, key, value), key) == Some(value),
        other != key ==> value_at(put(members, key, value), other) == value_at(members, other),
    decreases members.len(),
{
    let after = put(members, key, value);
    let rest = members.drop_first();
    if has_key(rest, key) {
        lemma_replaced(rest, key, value, other);
        assert(after.drop_first() =~= put(rest, key, value));
    } else {
        let at = choose|i: int| 0 <= i < members.len() && (#[trigger] members[i]).0 == key;
        if at > 0 {
            assert(rest[at - 1].0 == key);
        }
        assert forall|i: int| 0 <= i < rest.len() implies #[trigger] after.drop_first()[i]
            == rest[i] by {
            assert(rest[i].0 != key);
        }
        assert(after.drop_first() =~= rest);
    }
}

proof fn lemma_added(members: Members, key: Seq<char>, value: Json, other: Seq<char>)
    requires
        !has_key(members, key),
    ensures
        value_at(members.push((key, value)), key) == Some(value),
        other != key ==> value_at(members.push((key, value)), other) == value_at(members, other),
    decreases members.len(),
{
    let after = members.push((key, value));
    if members.len() == 0 {
        assert(after.drop_first() =~= members);
    } else {
        let rest = members.drop_first();
        assert(members[0].0 != key);
        assert forall|i: int| 0 <= i < rest.len() implies (#[trigger] rest[i]).0 != key by {
            assert(rest[i] == members[i + 1]);
        }
        lemma_added(rest, key, value, other);
        assert(after.drop_first() =~= rest.push((key, value)));
    }
}

} // verus!
