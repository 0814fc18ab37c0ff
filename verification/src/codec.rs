//! JSON text: reading and writing values through `serde_json`.

use vstd::prelude::*;
use vstd::utf8::encode_utf8;

use serde::ser::SerializeStruct;

use crate::members::object_members;
use crate::text::decimal;
use crate::json::{group_json_models, members_map, models, number_model, Json, JsonModel, Member, NumberModel};

verus! {

/// `serde_json::Value`: a JSON value as the outside crate holds it.
#[verifier::external_type_specification]
#[verifier::external_body]
pub struct ExValue(serde_json::Value);

/// What a `serde_json::Value` holds.
pub uninterp spec fn value_model(v: serde_json::Value) -> JsonModel;

/// The models of a list of values.
pub open spec fn value_models(items: Seq<serde_json::Value>) -> Seq<JsonModel> {
    items.map_values(|v: serde_json::Value| value_model(v))
}

/// One level of a value that is to be built.
enum Build {
    Null,
    Bool(bool),
    Number(serde_json::Number),
    Text(String),
    List(Vec<serde_json::Value>),
    Object(Vec<(String, serde_json::Value)>),
}

/// One level of a value that is being read.
enum Level<'a> {
    Null,
    Bool(bool),
    Number(serde_json::Number),
    Text(String),
    List(&'a Vec<serde_json::Value>),
    Object(Vec<(&'a String, &'a serde_json::Value)>),
}

/// The models of the members of an object that is to be built.
spec fn build_members(members: Seq<(String, serde_json::Value)>) -> Seq<(Seq<char>, JsonModel)> {
    members.map_values(|m: (String, serde_json::Value)| (m.0@, value_model(m.1)))
}

/// The models of the members of an object that is being read.
spec fn level_members(members: Seq<(&String, &serde_json::Value)>) -> Seq<(Seq<char>, JsonModel)> {
    members.map_values(|m: (&String, &serde_json::Value)| (m.0@, value_model(*m.1)))
}

/// The model of one level of a value that is to be built.
spec fn build_model(b: Build) -> JsonModel {
    match b {
        Build::Null => JsonModel::Null,
        Build::Bool(b) => JsonModel::Bool(b),
        Build::Number(n) => JsonModel::Number(number_model(n)),
        Build::Text(s) => JsonModel::Text(s@),
        Build::List(items) => JsonModel::List(value_models(items@)),
        Build::Object(members) => JsonModel::Object(members_map(build_members(members@))),
    }
}

/// The model of one level of a value that is being read.
spec fn level_model(l: Level<'_>) -> JsonModel {
    match l {
        Level::Null => JsonModel::Null,
        Level::Bool(b) => JsonModel::Bool(b),
        Level::Number(n) => JsonModel::Number(number_model(n)),
        Level::Text(s) => JsonModel::Text(s@),
        Level::List(items) => JsonModel::List(value_models(items@)),
        Level::Object(members) => JsonModel::Object(members_map(level_members(members@))),
    }
}

/// The variants of `serde_json::Value`, and `FromIterator` of `serde_json::Map`,
/// in which a later member of the same key replaces an earlier one.
#[verifier::external_body]
fn value_of_level(b: Build) -> (r: serde_json::Value)
    ensures
        value_model(r) == build_model(b),
{
    match b {
        Build::Null => serde_json::Value::Null,
        Build::Bool(b) => serde_json::Value::Bool(b),
        Build::Number(n) => serde_json::Value::Number(n),
        Build::Text(s) => serde_json::Value::String(s),
        Build::List(items) => serde_json::Value::Array(items),
        Build::Object(members) => serde_json::Value::Object(members.into_iter().collect()),
    }
}

/// The variants of `serde_json::Value`, and `serde_json::Map::iter`, which gives
/// each member once.
#[verifier::external_body]
fn level_of_value<'a>(v: &'a serde_json::Value) -> (r: Level<'a>)
    ensures
        level_model(r) == value_model(*v),
        r matches Level::Object(members) ==> forall|i: int, j: int|
            0 <= i < j < members@.len() ==> #[trigger] members@[i].0@ != #[trigger] members@[j].0@,
{
    match v {
        serde_json::Value::Null => Level::Null,
        serde_json::Value::Bool(b) => Level::Bool(*b),
        serde_json::Value::Number(n) => Level::Number(n.clone()),
        serde_json::Value::String(s) => Level::Text(s.clone()),
        serde_json::Value::Array(items) => Level::List(items),
        serde_json::Value::Object(members) => Level::Object(members.iter().collect()),
    }
}

/// Builds the outside crate's value.
fn to_value(j: &Json) -> (r: serde_json::Value)
    ensures
        value_model(r) == j@,
    decreases *j,
{
    broadcast use group_json_models;

    match j {
        Json::Null => value_of_level(Build::Null),
        Json::Bool(b) => value_of_level(Build::Bool(*b)),
        Json::Number(n) => value_of_level(Build::Number(n.clone())),
        Json::Text(s) => value_of_level(Build::Text(s.clone())),
        Json::List(items) => {
            let out = to_values(items);
            value_of_level(Build::List(out))
        },
        Json::Object(members) => {
            let mut out: Vec<(String, serde_json::Value)> = Vec::new();
            let n: usize = members.len();
            let mut i: usize = 0;
            let ghost all = crate::json::member_models(members@);
            while i < n
                invariant
                    *j == Json::Object(*members),
                    all == crate::json::member_models(members@),
                    n == members@.len(),
                    i <= n,
                    build_members(out@) == all.take(i as int),
                decreases n - i,
            {
                let m = &members[i];
                proof {
                    crate::json::lemma_member_below(*members, i as int);
                }
                let ghost before = out@;
                out.push((m.key.clone(), to_value(&m.value)));
                assert(build_members(out@) =~= build_members(before).push((m.key@, m.value@)));
                assert(all.take(i + 1) =~= all.take(i as int).push((m.key@, m.value@)));
                i = i + 1;
            }
            assert(all.take(n as int) =~= all);
            value_of_level(Build::Object(out))
        },
    }
}

/// Builds the outside crate's values of a list.
fn to_values(items: &Vec<Json>) -> (r: Vec<serde_json::Value>)
    ensures
        value_models(r@) == models(items@),
    decreases *items,
{
    let mut out: Vec<serde_json::Value> = Vec::new();
    let n: usize = items.len();
    let mut i: usize = 0;
    while i < n
        invariant
            n == items@.len(),
            i <= n,
            value_models(out@) == models(items@).take(i as int),
        decreases n - i,
    {
        assert(decreases_to!(items@ => items@[i as int]));
        let ghost before = out@;
        out.push(to_value(&items[i]));
        assert(value_models(out@) =~= value_models(before).push(items@[i as int]@));
        assert(models(items@).take(i + 1) =~= models(items@).take(i as int).push(
            items@[i as int]@,
        ));
        i = i + 1;
    }
    assert(models(items@).take(n as int) =~= models(items@));
    out
}

/// Takes over the outside crate's value.
fn from_value(v: &serde_json::Value) -> (r: Json)
    ensures
        r@ == value_model(*v),
    decreases value_model(*v),
{
    broadcast use group_json_models;

    match level_of_value(v) {
        Level::Null => Json::Null,
        Level::Bool(b) => Json::Bool(b),
        Level::Number(n) => Json::Number(n),
        Level::Text(s) => Json::Text(s),
        Level::List(items) => {
            let mut out: Vec<Json> = Vec::new();
            let n: usize = items.len();
            let mut i: usize = 0;
            while i < n
                invariant
                    value_model(*v) == JsonModel::List(value_models(items@)),
                    n == items@.len(),
                    i <= n,
                    models(out@) == value_models(items@).take(i as int),
                decreases n - i,
            {
                let ghost m = value_model(*v);
                assert(decreases_to!(m => m->List_0[i as int]));
                out.push(from_value(&items[i]));
                assert(value_models(items@).take(i + 1) =~= value_models(items@).take(
                    i as int,
                ).push(value_model(items@[i as int])));
                i = i + 1;
            }
            assert(models(out@) =~= value_models(items@));
            Json::List(out)
        },
        Level::Object(members) => {
            let mut out: Vec<Member> = Vec::new();
            let n: usize = members.len();
            let mut i: usize = 0;
            let ghost all = level_members(members@);
            while i < n
                invariant
                    value_model(*v) == JsonModel::Object(members_map(all)),
                    all == level_members(members@),
                    n == members@.len(),
                    i <= n,
                    forall|i: int, j: int|
                        0 <= i < j < members@.len() ==> #[trigger] members@[i].0@
                            != #[trigger] members@[j].0@,
                    crate::json::member_models(out@) == all.take(i as int),
                decreases n - i,
            {
                let (key, value) = members[i];
                let ghost m = value_model(*v);
                proof {
                    assert forall|a: int, b: int| 0 <= a < b < all.len() implies #[trigger] all[a].0
                        != #[trigger] all[b].0 by {
                        assert(members@[a].0@ != members@[b].0@);
                    }
                    crate::json::lemma_distinct_member(all, i as int);
                }
                assert(decreases_to!(m => m->Object_0[key@]));
                out.push(Member { key: key.clone(), value: from_value(value) });
                assert(all.take(i + 1) =~= all.take(i as int).push((key@, value_model(*value))));
                i = i + 1;
            }
            assert(all.take(n as int) =~= all);
            Json::Object(out)
        },
    }
}

/// The JSON text of a value.
pub uninterp spec fn json_text(v: JsonModel) -> Seq<char>;

/// The value that a JSON text writes, or the message that says why it writes none.
pub uninterp spec fn read_text(s: Seq<char>) -> Result<JsonModel, Seq<char>>;

/// The value that bytes of JSON text write, where they write one.
pub uninterp spec fn read_bytes(b: Seq<u8>) -> Option<JsonModel>;

/// Whether a text writes the value.
pub open spec fn reads_as(s: Seq<char>, v: JsonModel) -> bool {
    read_text(s) is Ok && read_text(s)->Ok_0 == v
}

/// The number of levels that the reader of JSON text follows.
pub open spec fn reader_depth() -> nat {
    127
}

/// Whether a value holds no number but 64-bit integers and nests its lists and
/// objects at most `depth` levels deep.
pub open spec fn readable(v: JsonModel, depth: nat) -> bool
    decreases v,
{
    match v {
        JsonModel::Number(n) => !(n is Other),
        JsonModel::List(items) => depth > 0 && forall|i: int|
            0 <= i < items.len() ==> readable(#[trigger] items[i], (depth - 1) as nat),
        JsonModel::Object(m) => depth > 0 && forall|k: Seq<char>|
            m.dom().contains(k) ==> readable(#[trigger] m[k], (depth - 1) as nat),
        _ => true,
    }
}

/// Whether the JSON text of a value reads back as the value.
pub open spec fn value_survives(v: JsonModel) -> bool {
    reads_as(json_text(v), v)
}

/// A value that a lesser limit on nesting admits, a greater one admits too.
pub proof fn lemma_readable_deeper(v: JsonModel, a: nat, b: nat)
    requires
        readable(v, a),
        a <= b,
    ensures
        readable(v, b),
    decreases v,
{
    match v {
        JsonModel::List(items) => {
            assert forall|i: int| 0 <= i < items.len() implies readable(
                #[trigger] items[i],
                (b - 1) as nat,
            ) by {
                lemma_readable_deeper(items[i], (a - 1) as nat, (b - 1) as nat);
            }
        },
        JsonModel::Object(m) => {
            assert forall|k: Seq<char>| m.dom().contains(k) implies readable(
                #[trigger] m[k],
                (b - 1) as nat,
            ) by {
                assert(decreases_to!(v => v->Object_0[k]));
                lemma_readable_deeper(m[k], (a - 1) as nat, (b - 1) as nat);
            }
        },
        _ => {},
    }
}

/// `<serde_json::Value as ToString>::to_string`: the compact JSON text of the
/// value, a function of the value alone. Reading the text gives the value back
/// where it holds no number but integers and the reader's limit on nesting
/// admits it: the crate is used without its `raw_value` and `arbitrary_precision`
/// features, so no key has a meaning of its own. Of floating point numbers nothing
/// is said: without its `float_roundtrip` feature the reader may be off in the last
/// digit.
#[verifier::external_body]
fn value_text(v: &serde_json::Value) -> (r: String)
    ensures
        r@ == json_text(value_model(*v)),
        readable(value_model(*v), reader_depth()) ==> reads_as(r@, value_model(*v)),
{
    v.to_string()
}

/// `serde_json::from_str::<serde_json::Value>`: the value or the error's message,
/// a function of the text alone.
#[verifier::external_body]
fn parse_text(s: &str) -> (r: Result<serde_json::Value, String>)
    ensures
        match r {
            Ok(v) => reads_as(s@, value_model(v)),
            Err(e) => read_text(s@) is Err && read_text(s@)->Err_0 == e@,
        },
{
    serde_json::from_str::<serde_json::Value>(s).map_err(|e| e.to_string())
}

/// `serde_json::from_slice::<serde_json::Value>`: the value, where there is one,
/// a function of the bytes alone.
#[verifier::external_body]
fn parse_bytes(b: &[u8]) -> (r: Option<serde_json::Value>)
    ensures
        match r {
            Some(v) => read_bytes(b@) == Some(value_model(v)),
            None => read_bytes(b@) is None,
        },
{
    serde_json::from_slice::<serde_json::Value>(b).ok()
}

/// Bytes of JSON text as the one item of a list.
pub open spec fn listed(raw: Seq<u8>) -> Seq<u8> {
    seq![0x5bu8] + raw + seq![0x5du8]
}

/// Whether bytes write an object of three fields that can be read one by one: two
/// integers, and a list that reads back, one level down, where it holds no number
/// but integers and is within the reader's limit on nesting.
pub open spec fn fields_read(
    bytes: Seq<u8>,
    first: Seq<char>,
    a: u64,
    second: Seq<char>,
    b: u64,
    third: Seq<char>,
    c: Seq<JsonModel>,
) -> bool {
    match object_members(bytes) {
        Some(m) => {
            &&& m.len() == 3
            &&& m[0].0 == first
            &&& read_bytes(m[0].1) == Some(JsonModel::Number(NumberModel::Unsigned(a)))
            &&& m[1].0 == second
            &&& read_bytes(m[1].1) == Some(JsonModel::Number(NumberModel::Unsigned(b)))
            &&& m[2].0 == third
            &&& readable(JsonModel::List(c), (reader_depth() - 1) as nat) ==> read_bytes(
                listed(m[2].1),
            ) == Some(JsonModel::List(seq![JsonModel::List(c)]))
        },
        None => false,
    }
}

/// The JSON text of an object of three fields, in the order given.
pub open spec fn three_fields_text(
    first: Seq<char>,
    a: u64,
    second: Seq<char>,
    b: u64,
    third: Seq<char>,
    c: Seq<JsonModel>,
) -> Seq<char> {
    "{"@ + json_text(JsonModel::Text(first)) + ":"@ + decimal(a as nat) + ","@ + json_text(
        JsonModel::Text(second),
    ) + ":"@ + decimal(b as nat) + ","@ + json_text(JsonModel::Text(third)) + ":"@ + json_text(
        JsonModel::List(c),
    ) + "}"@
}

/// `serde::Serializer::serialize_struct` of a `serde_json::Serializer` that
/// writes into a vector, with its `serialize_field` and `end`: the compact JSON
/// text of the fields in the order of the calls. The readers of `members` find the
/// fields in it, and `serde_json::from_slice` reads their values back, the list
/// where it holds no number but integers and is within the limit on nesting.
#[verifier::external_body]
fn write_fields(
    first: &'static str,
    a: u64,
    second: &'static str,
    b: u64,
    third: &'static str,
    c: &Vec<serde_json::Value>,
) -> (r: Vec<u8>)
    ensures
        r@ == encode_utf8(three_fields_text(first@, a, second@, b, third@, value_models(c@))),
        fields_read(r@, first@, a, second@, b, third@, value_models(c@)),
{
    let mut out: Vec<u8> = Vec::new();
    let mut writer = serde_json::Serializer::new(&mut out);
    if let Ok(mut fields) = serde::Serializer::serialize_struct(&mut writer, "", 3) {
        let _ = fields.serialize_field(first, &a);
        let _ = fields.serialize_field(second, &b);
        let _ = fields.serialize_field(third, c);
        let _ = fields.end();
    }
    out
}

/// Writes an object of three fields, in the order given, as bytes of JSON text.
pub fn write_three_fields(
    first: &'static str,
    a: u64,
    second: &'static str,
    b: u64,
    third: &'static str,
    c: &Vec<Json>,
) -> (r: Vec<u8>)
    ensures
        r@ == encode_utf8(three_fields_text(first@, a, second@, b, third@, models(c@))),
        fields_read(r@, first@, a, second@, b, third@, models(c@)),
{
    let values = to_values(c);
    write_fields(first, a, second, b, third, &values)
}

/// Writes a value as JSON text.
pub fn write_json(j: &Json) -> (r: String)
    ensures
        r@ == json_text(j@),
        readable(j@, reader_depth()) ==> value_survives(j@),
{
    let v = to_value(j);
    value_text(&v)
}

/// Reads a value from JSON text.
pub fn read_json(s: &str) -> (r: Result<Json, String>)
    ensures
        match r {
            Ok(j) => reads_as(s@, j@),
            Err(e) => read_text(s@) is Err && read_text(s@)->Err_0 == e@,
        },
{
    match parse_text(s) {
        Ok(v) => Ok(from_value(&v)),
        Err(e) => Err(e),
    }
}

/// Reads a value from bytes of JSON text.
pub fn read_json_bytes(b: &[u8]) -> (r: Option<Json>)
    ensures
        match r {
            Some(j) => read_bytes(b@) == Some(j@),
            None => read_bytes(b@) is None,
        },
{
    match parse_bytes(b) {
        Some(v) => Some(from_value(&v)),
        None => None,
    }
}

}
