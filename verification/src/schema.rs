//! Reduction of a JSON schema to the subset that Gemini's `parameters` accepts.

use vstd::prelude::*;

use crate::json::{group_json_models, lemma_member_below, member_models, members_map, models, Json, JsonModel};
use crate::text::same_text;

verus! {

/// The keywords that a reduced schema does not have.
pub open spec fn unsupported(key: Seq<char>) -> bool {
    ||| key == "additionalProperties"@
    ||| key == "$schema"@
    ||| key == "strict"@
    ||| key == "default"@
    ||| key == "examples"@
    ||| key == "title"@
    ||| key == "$id"@
}

/// Whether a type stands for the null value.
pub open spec fn is_null_type(t: JsonModel) -> bool {
    t == JsonModel::Text("null"@)
}

/// The first of the types that is not the null type, or `string`.
pub open spec fn first_type(types: Seq<JsonModel>) -> JsonModel
    decreases types.len(),
{
    if types.len() == 0 {
        JsonModel::Text("string"@)
    } else if is_null_type(types[0]) {
        first_type(types.skip(1))
    } else {
        types[0]
    }
}

/// Whether one of the types is the null type.
pub open spec fn has_null_type(types: Seq<JsonModel>) -> bool {
    exists|i: int| 0 <= i < types.len() && is_null_type(#[trigger] types[i])
}

/// Whether an object's `type` is a list that holds the null type.
pub open spec fn nullable(m: Map<Seq<char>, JsonModel>) -> bool {
    m.dom().contains("type"@) && m["type"@] is List && has_null_type(m["type"@]->List_0)
}

/// A `type` as a single type.
pub open spec fn single_type(t: JsonModel) -> JsonModel {
    match t {
        JsonModel::List(types) => first_type(types),
        _ => t,
    }
}

/// The reduced schema. An object loses the unsupported keywords; its `type`
/// becomes a single type, with `nullable` where the null type was one of several;
/// its `properties` keep every name; and its other members, and the items of a
/// list, are reduced in turn.
pub open spec fn sanitized(s: JsonModel) -> JsonModel
    decreases s, 0int,
{
    match s {
        JsonModel::List(items) => JsonModel::List(
            Seq::new(
                items.len(),
                |i: int|
                    if 0 <= i < items.len() {
                        sanitized(items[i])
                    } else {
                        JsonModel::Null
                    },
            ),
        ),
        JsonModel::Object(m) => JsonModel::Object(
            Map::new(
                |k: Seq<char>|
                    (m.dom().contains(k) && !unsupported(k)) || (k == "nullable"@ && nullable(m)),
                |k: Seq<char>|
                    if k == "nullable"@ && nullable(m) {
                        JsonModel::Bool(true)
                    } else if k == "type"@ {
                        single_type(m[k])
                    } else if m.dom().contains(k) {
                        if k == "properties"@ {
                            sanitized_names(m[k])
                        } else {
                            sanitized(m[k])
                        }
                    } else {
                        JsonModel::Null
                    },
            ),
        ),
        _ => s,
    }
}

/// Reduced `properties`: every name with its reduced schema. A property may be
/// named like a keyword.
pub open spec fn sanitized_names(v: JsonModel) -> JsonModel
    decreases v, 1int,
{
    match v {
        JsonModel::Object(m) => JsonModel::Object(
            Map::new(
                |k: Seq<char>| m.dom().contains(k),
                |k: Seq<char>|
                    if m.dom().contains(k) {
                        sanitized(m[k])
                    } else {
                        JsonModel::Null
                    },
            ),
        ),
        _ => sanitized(v),
    }
}

/// What becomes of a member of a schema, by its keyword.
spec fn sanitized_member(k: Seq<char>, v: JsonModel) -> JsonModel {
    if k == "properties"@ {
        sanitized_names(v)
    } else {
        sanitized(v)
    }
}

/// The members of a reduced object but for what its `type` gives.
spec fn plain_members(m: Map<Seq<char>, JsonModel>) -> Map<Seq<char>, JsonModel> {
    Map::new(
        |k: Seq<char>| m.dom().contains(k) && !unsupported(k) && k != "type"@,
        |k: Seq<char>| sanitized_member(k, m[k]),
    )
}

/// The schemas of properties, reduced.
spec fn named_members(m: Map<Seq<char>, JsonModel>) -> Map<Seq<char>, JsonModel> {
    Map::new(|k: Seq<char>| m.dom().contains(k), |k: Seq<char>| sanitized(m[k]))
}

/// A list is reduced item by item.
proof fn lemma_sanitized_list(items: Seq<JsonModel>)
    ensures
        sanitized(JsonModel::List(items)) == JsonModel::List(
            items.map_values(|v: JsonModel| sanitized(v)),
        ),
{
    assert(sanitized(JsonModel::List(items))->List_0 =~= items.map_values(
        |v: JsonModel| sanitized(v),
    ));
}

/// An object is reduced to its plain members and what its `type` gives.
proof fn lemma_sanitized_object(m: Map<Seq<char>, JsonModel>)
    ensures
        sanitized(JsonModel::Object(m)) == JsonModel::Object(
            {
                let plain = plain_members(m);
                if m.dom().contains("type"@) {
                    let typed = plain.insert("type"@, single_type(m["type"@]));
                    if nullable(m) {
                        typed.insert("nullable"@, JsonModel::Bool(true))
                    } else {
                        typed
                    }
                } else {
                    plain
                }
            },
        ),
{
    reveal_strlit("type");
    reveal_strlit("nullable");
    assert("type"@.len() != "nullable"@.len());
    lemma_type_is_supported();
    let plain = plain_members(m);
    let typed = plain.insert("type"@, single_type(m["type"@]));
    let whole = sanitized(JsonModel::Object(m))->Object_0;
    if m.dom().contains("type"@) {
        if nullable(m) {
            assert(whole =~= typed.insert("nullable"@, JsonModel::Bool(true)));
        } else {
            assert(whole =~= typed);
        }
    } else {
        assert(whole =~= plain);
    }
}

/// `type`, `nullable` and `properties` are supported, and are different keywords.
proof fn lemma_type_is_supported()
    ensures
        !unsupported("type"@),
        !unsupported("nullable"@),
        !unsupported("properties"@),
        "type"@ != "properties"@,
        "nullable"@ != "properties"@,
{
    reveal_strlit("properties");
    assert("properties"@.len() == 10);
    reveal_strlit("type");
    reveal_strlit("nullable");
    reveal_strlit("additionalProperties");
    reveal_strlit("$schema");
    reveal_strlit("strict");
    reveal_strlit("default");
    reveal_strlit("examples");
    reveal_strlit("title");
    reveal_strlit("$id");
    assert("type"@.len() == 4 && "nullable"@.len() == 8);
    assert("additionalProperties"@.len() == 20 && "$schema"@.len() == 7);
    assert("strict"@.len() == 6 && "default"@.len() == 7 && "examples"@.len() == 8);
    assert("title"@.len() == 5 && "$id"@.len() == 3);
    assert("nullable"@[0] != "examples"@[0]);
}

/// Whether a reduced schema does not have the key.
fn is_unsupported(key: &str) -> (r: bool)
    ensures
        r == unsupported(key@),
{
    same_text(key, "additionalProperties") || same_text(key, "$schema") || same_text(key, "strict")
        || same_text(key, "default") || same_text(key, "examples") || same_text(key, "title")
        || same_text(key, "$id")
}

/// Whether a type stands for the null value.
fn null_type(t: &Json) -> (r: bool)
    ensures
        r == is_null_type(t@),
{
    match t.as_str() {
        Some(s) => same_text(s, "null"),
        None => false,
    }
}

/// The first of the types that is not the null type, or `string`.
fn pick_type(types: &Vec<Json>) -> (r: Json)
    ensures
        r@ == first_type(models(types@)),
{
    let n: usize = types.len();
    let mut i: usize = 0;
    let ghost all = models(types@);
    assert(all.skip(0) =~= all);
    while i < n
        invariant
            n == types@.len(),
            i <= n,
            all == models(types@),
            first_type(all) == first_type(all.skip(i as int)),
        decreases n - i,
    {
        assert(all.skip(i as int)[0] == types@[i as int]@);
        assert(all.skip(i as int).skip(1) =~= all.skip(i + 1));
        if !null_type(&types[i]) {
            return types[i].copy();
        }
        i = i + 1;
    }
    Json::text("string")
}

/// Whether one of the types is the null type.
fn any_null_type(types: &Vec<Json>) -> (r: bool)
    ensures
        r == has_null_type(models(types@)),
{
    let n: usize = types.len();
    let mut i: usize = 0;
    let ghost all = models(types@);
    while i < n
        invariant
            n == types@.len(),
            i <= n,
            all == models(types@),
            forall|j: int| 0 <= j < i ==> !is_null_type(#[trigger] all[j]),
        decreases n - i,
    {
        if null_type(&types[i]) {
            assert(is_null_type(all[i as int]));
            return true;
        }
        i = i + 1;
    }
    false
}

/// Reduces a JSON schema to the subset that Gemini's `parameters` accepts.
pub fn sanitize_schema(s: &Json) -> (r: Json)
    ensures
        r@ == sanitized(s@),
    decreases *s, 0int,
{
    broadcast use group_json_models;

    match s {
        Json::List(items) => {
            let out = sanitize_items(items);
            proof {
                lemma_sanitized_list(models(items@));
            }
            Json::List(out)
        },
        Json::Object(members) => {
            let mut out = Json::object();
            let n: usize = members.len();
            let mut i: usize = 0;
            let ghost all = member_models(members@);
            assert(plain_members(members_map(all.take(0))) =~= Map::empty());
            while i < n
                invariant
                    *s == Json::Object(*members),
                    n == members@.len(),
                    i <= n,
                    all == member_models(members@),
                    out@ == JsonModel::Object(plain_members(members_map(all.take(i as int)))),
                decreases n - i,
            {
                let m = &members[i];
                let ghost before = members_map(all.take(i as int));
                let ghost after = members_map(all.take(i + 1));
                assert(all.take(i + 1).drop_last() =~= all.take(i as int));
                assert(after == before.insert(m.key@, m.value@));
                let key = m.key.as_str();
                if is_unsupported(key) || same_text(key, "type") {
                    assert(plain_members(after) =~= plain_members(before));
                } else {
                    proof {
                        lemma_member_below(*members, i as int);
                    }
                    let value = if same_text(key, "properties") {
                        sanitize_names(&m.value)
                    } else {
                        sanitize_schema(&m.value)
                    };
                    out = out.with(key, value);
                    assert(plain_members(after) =~= plain_members(before).insert(
                        m.key@,
                        sanitized_member(m.key@, m.value@),
                    ));
                }
                i = i + 1;
            }
            assert(all.take(n as int) =~= all);
            proof {
                lemma_sanitized_object(members_map(all));
            }
            match s.get("type") {
                Some(t) => match t.as_list() {
                    Some(types) => {
                        out = out.with("type", pick_type(types));
                        if any_null_type(types) {
                            out = out.with("nullable", Json::Bool(true));
                        }
                    },
                    None => {
                        out = out.with("type", t.copy());
                    },
                },
                None => {},
            }
            out
        },
        _ => s.copy(),
    }
}

/// Reduces the schema of each property, whatever its name.
fn sanitize_names(v: &Json) -> (r: Json)
    ensures
        r@ == sanitized_names(v@),
    decreases *v, 1int,
{
    broadcast use group_json_models;

    match v {
        Json::Object(members) => {
            let mut out = Json::object();
            let n: usize = members.len();
            let mut i: usize = 0;
            let ghost all = member_models(members@);
            assert(named_members(members_map(all.take(0))) =~= Map::empty());
            while i < n
                invariant
                    *v == Json::Object(*members),
                    n == members@.len(),
                    i <= n,
                    all == member_models(members@),
                    out@ == JsonModel::Object(named_members(members_map(all.take(i as int)))),
                decreases n - i,
            {
                let m = &members[i];
                let ghost before = members_map(all.take(i as int));
                let ghost after = members_map(all.take(i + 1));
                assert(all.take(i + 1).drop_last() =~= all.take(i as int));
                assert(after == before.insert(m.key@, m.value@));
                proof {
                    lemma_member_below(*members, i as int);
                }
                out = out.with(m.key.as_str(), sanitize_schema(&m.value));
                assert(named_members(after) =~= named_members(before).insert(
                    m.key@,
                    sanitized(m.value@),
                ));
                i = i + 1;
            }
            assert(all.take(n as int) =~= all);
            assert(out@->Object_0 =~= sanitized_names(v@)->Object_0);
            out
        },
        _ => sanitize_schema(v),
    }
}

/// Reduces each schema of a list.
fn sanitize_items(items: &Vec<Json>) -> (r: Vec<Json>)
    ensures
        models(r@) == models(items@).map_values(|v: JsonModel| sanitized(v)),
    decreases *items, 0int,
{
    broadcast use group_json_models;

    let mut out: Vec<Json> = Vec::new();
    let n: usize = items.len();
    let mut i: usize = 0;
    let ghost all = models(items@).map_values(|v: JsonModel| sanitized(v));
    while i < n
        invariant
            n == items@.len(),
            i <= n,
            all == models(items@).map_values(|v: JsonModel| sanitized(v)),
            models(out@) == all.take(i as int),
        decreases n - i,
    {
        assert(decreases_to!(items@ => items@[i as int]));
        out.push(sanitize_schema(&items[i]));
        assert(all.take(i + 1) =~= all.take(i as int).push(sanitized(items@[i as int]@)));
        i = i + 1;
    }
    assert(all.take(n as int) =~= all);
    out
}

/// Whether no schema has an unsupported keyword: the schema itself, the schemas of
/// its `properties`, whatever their names, and those in its other members. What
/// stands under `type` is a type and no schema.
pub open spec fn supported_only(s: JsonModel) -> bool
    decreases s, 0int,
{
    match s {
        JsonModel::List(items) => forall|i: int|
            0 <= i < items.len() ==> supported_only(#[trigger] items[i]),
        JsonModel::Object(m) => forall|k: Seq<char>| #[trigger]
            m.dom().contains(k) ==> !unsupported(k) && (if k == "type"@ {
                true
            } else if k == "properties"@ {
                supported_names(m[k])
            } else {
                supported_only(m[k])
            }),
        _ => true,
    }
}

/// Whether no schema of the properties has an unsupported keyword.
pub open spec fn supported_names(v: JsonModel) -> bool
    decreases v, 1int,
{
    match v {
        JsonModel::Object(m) => forall|k: Seq<char>| #[trigger]
            m.dom().contains(k) ==> supported_only(m[k]),
        _ => supported_only(v),
    }
}

/// Whether no list of types begins, the null type left aside, with another list.
pub open spec fn plain_types(s: JsonModel) -> bool
    decreases s, 0int,
{
    match s {
        JsonModel::List(items) => forall|i: int|
            0 <= i < items.len() ==> plain_types(#[trigger] items[i]),
        JsonModel::Object(m) => forall|k: Seq<char>| #[trigger]
            m.dom().contains(k) ==> (if k == "type"@ {
                !(single_type(m[k]) is List)
            } else if unsupported(k) || (k == "nullable"@ && nullable(m)) {
                true
            } else if k == "properties"@ {
                plain_named_types(m[k])
            } else {
                plain_types(m[k])
            }),
        _ => true,
    }
}

/// Whether in the schemas of the properties no list of types begins with another.
pub open spec fn plain_named_types(v: JsonModel) -> bool
    decreases v, 1int,
{
    match v {
        JsonModel::Object(m) => forall|k: Seq<char>| #[trigger]
            m.dom().contains(k) ==> plain_types(m[k]),
        _ => plain_types(v),
    }
}

/// A reduced schema has no unsupported keyword, nor has any schema in it. What
/// stands under a schema's `type` is a type and left aside.
pub proof fn law_sanitized_is_supported(s: JsonModel)
    ensures
        supported_only(sanitized(s)),
    decreases s, 0int,
{
    match s {
        JsonModel::List(items) => {
            lemma_sanitized_list(items);
            assert forall|i: int| 0 <= i < items.len() implies supported_only(
                #[trigger] sanitized(items[i]),
            ) by {
                law_sanitized_is_supported(items[i]);
            }
            let out = sanitized(s)->List_0;
            assert forall|i: int| 0 <= i < out.len() implies supported_only(#[trigger] out[i]) by {
                assert(out[i] == sanitized(items[i]));
            }
        },
        JsonModel::Object(m) => {
            lemma_type_is_supported();
            let out = sanitized(s)->Object_0;
            assert forall|k: Seq<char>| #[trigger] out.dom().contains(k) implies !unsupported(k) && (
            if k == "type"@ {
                true
            } else if k == "properties"@ {
                supported_names(out[k])
            } else {
                supported_only(out[k])
            }) by {
                if !(k == "nullable"@ && nullable(m)) {
                    assert(m.dom().contains(k));
                    assert(decreases_to!(s => s->Object_0[k]));
                    if k == "properties"@ {
                        lemma_names_supported(m[k]);
                    } else {
                        law_sanitized_is_supported(m[k]);
                    }
                }
            }
        },
        _ => {},
    }
}

proof fn lemma_names_supported(v: JsonModel)
    ensures
        supported_names(sanitized_names(v)),
    decreases v, 1int,
{
    match v {
        JsonModel::Object(m) => {
            let out = sanitized_names(v)->Object_0;
            assert forall|k: Seq<char>| #[trigger] out.dom().contains(k) implies supported_only(
                out[k],
            ) by {
                assert(decreases_to!(v => v->Object_0[k]));
                law_sanitized_is_supported(m[k]);
            }
        },
        _ => {
            law_sanitized_is_supported(v);
            lemma_shape_kept(v);
        },
    }
}

/// Only an object is reduced to an object.
proof fn lemma_shape_kept(s: JsonModel)
    ensures
        sanitized(s) is Object == s is Object,
        sanitized(s) is List == s is List,
{
}

/// Reducing a schema loses no property: every name under `properties` stays, with
/// its reduced schema.
pub proof fn law_properties_stay(
    m: Map<Seq<char>, JsonModel>,
    names: Map<Seq<char>, JsonModel>,
    name: Seq<char>,
)
    requires
        m.dom().contains("properties"@),
        m["properties"@] == JsonModel::Object(names),
        names.dom().contains(name),
    ensures
        sanitized(JsonModel::Object(m)).get("properties"@) is Some,
        sanitized(JsonModel::Object(m)).get("properties"@)->0.get(name) == Some(
            sanitized(names[name]),
        ),
{
    lemma_type_is_supported();
    let reduced = sanitized_names(JsonModel::Object(names));
    assert(sanitized(JsonModel::Object(m)).get("properties"@) == Some(reduced));
    assert(reduced->Object_0[name] == sanitized(names[name]));
}

/// Reducing a reduced schema changes nothing, where no list of types begins with
/// another list.
pub proof fn law_sanitized_twice(s: JsonModel)
    requires
        plain_types(s),
    ensures
        sanitized(sanitized(s)) == sanitized(s),
    decreases s, 0int,
{
    match s {
        JsonModel::List(items) => {
            lemma_sanitized_list(items);
            let out = sanitized(s)->List_0;
            lemma_sanitized_list(out);
            assert forall|i: int| 0 <= i < items.len() implies sanitized(
                #[trigger] sanitized(items[i]),
            ) == sanitized(items[i]) by {
                law_sanitized_twice(items[i]);
            }
            assert(sanitized(sanitized(s))->List_0 =~= out);
        },
        JsonModel::Object(m) => {
            lemma_type_is_supported();
            reveal_strlit("type");
            reveal_strlit("nullable");
            assert("type"@.len() != "nullable"@.len());
            let out = sanitized(s)->Object_0;
            let again = sanitized(sanitized(s))->Object_0;
            assert(sanitized(s) == JsonModel::Object(out));
            if out.dom().contains("type"@) {
                assert(m.dom().contains("type"@));
                assert(!(out["type"@] is List));
            }
            assert(!nullable(out));
            assert forall|k: Seq<char>| #[trigger] out.dom().contains(k) implies again[k]
                == out[k] by {
                if k == "nullable"@ && nullable(m) {
                    assert(out[k] == JsonModel::Bool(true));
                    assert(again[k] == sanitized(out[k]));
                } else if k == "type"@ {
                    assert(again[k] == single_type(out[k]));
                } else {
                    assert(m.dom().contains(k));
                    assert(decreases_to!(s => s->Object_0[k]));
                    if k == "properties"@ {
                        assert(again[k] == sanitized_names(out[k]));
                        lemma_names_twice(m[k]);
                    } else {
                        assert(out[k] == sanitized(m[k]));
                        assert(again[k] == sanitized(out[k]));
                        law_sanitized_twice(m[k]);
                    }
                }
            }
            assert(again =~= out);
        },
        _ => {},
    }
}

proof fn lemma_names_twice(v: JsonModel)
    requires
        plain_named_types(v),
    ensures
        sanitized_names(sanitized_names(v)) == sanitized_names(v),
    decreases v, 1int,
{
    match v {
        JsonModel::Object(m) => {
            let out = sanitized_names(v)->Object_0;
            let again = sanitized_names(sanitized_names(v))->Object_0;
            assert forall|k: Seq<char>| #[trigger] out.dom().contains(k) implies again[k]
                == out[k] by {
                assert(m.dom().contains(k));
                assert(decreases_to!(v => v->Object_0[k]));
                law_sanitized_twice(m[k]);
            }
            assert(again =~= out);
        },
        _ => {
            law_sanitized_twice(v);
            lemma_shape_kept(v);
        },
    }
}

/// Whether an object's `type` is a list that names the null type.
pub open spec fn names_null(m: Map<Seq<char>, JsonModel>) -> bool {
    &&& m.dom().contains("type"@)
    &&& m["type"@] matches JsonModel::List(types) && types.contains(JsonModel::Text("null"@))
}

/// The only keywords that a reduced object loses are the seven that are written out
/// here: any other key it has exactly where the object has it, but for `nullable`,
/// which a `type` with the null type adds. What is left is not changed but for being
/// reduced itself; and a member that is a text, such as a description, stays as it
/// is.
pub proof fn law_only_these_keywords_go(m: Map<Seq<char>, JsonModel>, k: Seq<char>)
    ensures
        k == "additionalProperties"@ || k == "$schema"@ || k == "strict"@ || k == "default"@ || k
            == "examples"@ || k == "title"@ || k == "$id"@ ==> sanitized(JsonModel::Object(m)).get(
            k,
        ) is None,
        k != "additionalProperties"@ && k != "$schema"@ && k != "strict"@ && k != "default"@ && k
            != "examples"@ && k != "title"@ && k != "$id"@ && k != "nullable"@ ==> (sanitized(
            JsonModel::Object(m),
        ).get(k) is Some <==> m.dom().contains(k)),
        k != "additionalProperties"@ && k != "$schema"@ && k != "strict"@ && k != "default"@ && k
            != "examples"@ && k != "title"@ && k != "$id"@ && k != "nullable"@ && k != "type"@ && k
            != "properties"@ && m.dom().contains(k) ==> sanitized(JsonModel::Object(m)).get(k)
            == Some(sanitized(m[k])),
        k != "additionalProperties"@ && k != "$schema"@ && k != "strict"@ && k != "default"@ && k
            != "examples"@ && k != "title"@ && k != "$id"@ && k != "nullable"@ && m.dom().contains(
            k,
        ) && m[k] is Text ==> sanitized(JsonModel::Object(m)).get(k) == Some(m[k]),
        k == "properties"@ && m.dom().contains(k) && !(m[k] is Object) ==> sanitized(
            JsonModel::Object(m),
        ).get(k) == Some(sanitized(m[k])),
        names_null(m) ==> sanitized(JsonModel::Object(m)).get("nullable"@) == Some(
            JsonModel::Bool(true),
        ),
        !names_null(m) && !m.dom().contains("nullable"@) ==> sanitized(JsonModel::Object(m)).get(
            "nullable"@,
        ) is None,
        !names_null(m) && m.dom().contains("nullable"@) ==> sanitized(JsonModel::Object(m)).get(
            "nullable"@,
        ) == Some(sanitized(m["nullable"@])),
{
    reveal_strlit("additionalProperties");
    reveal_strlit("$schema");
    reveal_strlit("strict");
    reveal_strlit("default");
    reveal_strlit("examples");
    reveal_strlit("title");
    reveal_strlit("$id");
    reveal_strlit("type");
    reveal_strlit("nullable");
    reveal_strlit("properties");
    assert("additionalProperties"@.len() == 20);
    assert("$schema"@.len() == 7);
    assert("strict"@.len() == 6);
    assert("default"@.len() == 7);
    assert("examples"@.len() == 8);
    assert("title"@.len() == 5);
    assert("$id"@.len() == 3);
    assert("type"@.len() == 4);
    assert("nullable"@.len() == 8);
    assert("properties"@.len() == 10);
    assert("$schema"@[0] != "default"@[0]);
    assert("examples"@[0] != "nullable"@[0]);
    assert(nullable(m) == names_null(m)) by {
        if names_null(m) {
            let types = m["type"@]->List_0;
            let i = choose|i: int|
                0 <= i < types.len() && types[i] == JsonModel::Text("null"@);
            assert(is_null_type(types[i]));
        }
        if nullable(m) {
            let types = m["type"@]->List_0;
            let i = choose|i: int| 0 <= i < types.len() && is_null_type(#[trigger] types[i]);
            assert(types[i] == JsonModel::Text("null"@));
        }
    }
    let out = sanitized(JsonModel::Object(m));
    assert(out is Object);
    if m.dom().contains(k) && m[k] is Text {
        assert(sanitized(m[k]) == m[k]);
        assert(sanitized_names(m[k]) == m[k]);
    }
}

/// A reduced `type` is a single one: a list becomes the first of its types that is
/// not the null type, or `string` where there is none; any other value stays.
pub proof fn law_type_is_single(m: Map<Seq<char>, JsonModel>, types: Seq<JsonModel>, i: int)
    requires
        m.dom().contains("type"@),
    ensures
        !(m["type"@] is List) ==> sanitized(JsonModel::Object(m)).get("type"@) == Some(m["type"@]),
        m["type"@] == JsonModel::List(types) && 0 <= i < types.len() && types[i]
            != JsonModel::Text("null"@) && (forall|j: int|
            0 <= j < i ==> #[trigger] types[j] == JsonModel::Text("null"@)) ==> sanitized(
            JsonModel::Object(m),
        ).get("type"@) == Some(types[i]),
        m["type"@] == JsonModel::List(types) && (forall|j: int|
            0 <= j < types.len() ==> #[trigger] types[j] == JsonModel::Text("null"@)) ==> sanitized(
            JsonModel::Object(m),
        ).get("type"@) == Some(JsonModel::Text("string"@)),
{
    reveal_strlit("additionalProperties");
    reveal_strlit("$schema");
    reveal_strlit("strict");
    reveal_strlit("default");
    reveal_strlit("examples");
    reveal_strlit("title");
    reveal_strlit("$id");
    reveal_strlit("type");
    reveal_strlit("nullable");
    reveal_strlit("properties");
    assert("additionalProperties"@.len() == 20);
    assert("$schema"@.len() == 7);
    assert("strict"@.len() == 6);
    assert("default"@.len() == 7);
    assert("examples"@.len() == 8);
    assert("title"@.len() == 5);
    assert("$id"@.len() == 3);
    assert("type"@.len() == 4);
    assert("nullable"@.len() == 8);
    assert("properties"@.len() == 10);
    assert("$schema"@[0] != "default"@[0]);
    assert("examples"@[0] != "nullable"@[0]);
    if m["type"@] == JsonModel::List(types) {
        if 0 <= i < types.len() && types[i] != JsonModel::Text("null"@) && (forall|j: int|
            0 <= j < i ==> #[trigger] types[j] == JsonModel::Text("null"@)) {
            lemma_first_type(types, i);
        }
        if forall|j: int|
            0 <= j < types.len() ==> #[trigger] types[j] == JsonModel::Text("null"@) {
            lemma_no_type(types);
        }
    }
}

proof fn lemma_first_type(types: Seq<JsonModel>, i: int)
    requires
        0 <= i < types.len(),
        types[i] != JsonModel::Text("null"@),
        forall|j: int| 0 <= j < i ==> #[trigger] types[j] == JsonModel::Text("null"@),
    ensures
        first_type(types) == types[i],
    decreases types.len(),
{
    if i > 0 {
        let rest = types.skip(1);
        assert forall|j: int| 0 <= j < i - 1 implies #[trigger] rest[j] == JsonModel::Text(
            "null"@,
        ) by {
            assert(rest[j] == types[j + 1]);
        }
        assert(types[0] == JsonModel::Text("null"@));
        lemma_first_type(rest, i - 1);
    }
}

proof fn lemma_no_type(types: Seq<JsonModel>)
    requires
        forall|j: int| 0 <= j < types.len() ==> #[trigger] types[j] == JsonModel::Text("null"@),
    ensures
        first_type(types) == JsonModel::Text("string"@),
    decreases types.len(),
{
    if types.len() > 0 {
        let rest = types.skip(1);
        assert forall|j: int| 0 <= j < rest.len() implies #[trigger] rest[j] == JsonModel::Text(
            "null"@,
        ) by {
            assert(rest[j] == types[j + 1]);
        }
        lemma_no_type(rest);
    }
}

/// `properties` keep their names, all of them and no other.
pub proof fn law_no_property_is_added(
    m: Map<Seq<char>, JsonModel>,
    names: Map<Seq<char>, JsonModel>,
    name: Seq<char>,
)
    requires
        m.dom().contains("properties"@),
        m["properties"@] == JsonModel::Object(names),
    ensures
        sanitized(JsonModel::Object(m)).get("properties"@) is Some,
        sanitized(JsonModel::Object(m)).get("properties"@)->0 is Object,
        sanitized(JsonModel::Object(m)).get("properties"@)->0.get(name) is Some
            <==> names.dom().contains(name),
{
    lemma_type_is_supported();
    let out = sanitized(JsonModel::Object(m));
    assert(out.get("properties"@) == Some(sanitized_names(m["properties"@])));
}

/// Whether there is no object in a value.
pub open spec fn without_objects(v: JsonModel) -> bool
    decreases v,
{
    match v {
        JsonModel::List(items) => forall|i: int|
            0 <= i < items.len() ==> without_objects(#[trigger] items[i]),
        JsonModel::Object(_) => false,
        _ => true,
    }
}

/// What holds no object is not changed: texts, numbers, and lists of them such as an
/// `enum` or the required names.
pub proof fn law_plain_values_stay(v: JsonModel)
    requires
        without_objects(v),
    ensures
        sanitized(v) == v,
    decreases v,
{
    if let JsonModel::List(items) = v {
        lemma_sanitized_list(items);
        let out = sanitized(v)->List_0;
        assert forall|i: int| 0 <= i < items.len() implies out[i] == #[trigger] items[i] by {
            law_plain_values_stay(items[i]);
        }
        assert(out =~= items);
    }
}

/// A list is reduced item by item, in its order.
pub proof fn law_items_stay(items: Seq<JsonModel>, i: int)
    requires
        0 <= i < items.len(),
    ensures
        sanitized(JsonModel::List(items)) matches JsonModel::List(out) && out.len() == items.len()
            && out[i] == sanitized(items[i]),
        sanitized(JsonModel::Object(map![])) == JsonModel::Object(map![]),
{
    lemma_sanitized_list(items);
    let none: Map<Seq<char>, JsonModel> = map![];
    assert(sanitized(JsonModel::Object(none))->Object_0 =~= none);
}

}
