//! The catalog of models: upstream's, with extra entries appended.

use vstd::prelude::*;
use vstd::string::*;

use crate::codec::{read_bytes, read_json_bytes};
use crate::json::{copy_list, empty_object, group_json_models, json_equal, law_equal_is_the_same, models, numbers_equal, without_fractions, Json, JsonModel};

verus! {

/// Whether two entries have the same slug, or neither has one.
pub open spec fn same_slug(a: JsonModel, b: JsonModel) -> bool {
    match (a.get("slug"@), b.get("slug"@)) {
        (Some(x), Some(y)) => json_equal(x, y),
        (None, None) => true,
        _ => false,
    }
}

/// Whether an entry of that slug is in the list.
pub open spec fn listed(list: Seq<JsonModel>, entry: JsonModel) -> bool {
    exists|i: int| 0 <= i < list.len() && same_slug(#[trigger] list[i], entry)
}

/// The list with the extra entries appended whose slug it does not have yet.
pub open spec fn with_extra(list: Seq<JsonModel>, extra: Seq<JsonModel>) -> Seq<JsonModel>
    decreases extra.len(),
{
    if extra.len() == 0 {
        list
    } else {
        let before = with_extra(list, extra.drop_last());
        if listed(before, extra.last()) {
            before
        } else {
            before.push(extra.last())
        }
    }
}

/// The catalog with the extra entries. One that has no list of models stays as
/// it is.
pub open spec fn merged(catalog: JsonModel, extra: Seq<JsonModel>) -> JsonModel {
    match catalog.get("models"@) {
        Some(JsonModel::List(list)) => catalog.with(
            "models"@,
            JsonModel::List(with_extra(list, extra)),
        ),
        _ => catalog,
    }
}

/// The models that a file of extra entries lists, where it is JSON and lists any.
pub open spec fn extra_of(file: Option<JsonModel>) -> Seq<JsonModel> {
    match file {
        Some(v) => v.list_at("models"@),
        None => seq![],
    }
}

/// The catalog without models.
pub open spec fn empty_catalog() -> JsonModel {
    empty_object().with("models"@, JsonModel::List(seq![]))
}

/// The catalog that upstream answered with; the empty one where it failed or did
/// not answer with JSON.
pub open spec fn upstream_catalog(answer: Option<JsonModel>) -> JsonModel {
    match answer {
        Some(v) => v,
        None => empty_catalog(),
    }
}

/// Whether two entries have the same slug, or neither has one.
fn slugs_equal(a: &Json, b: &Json) -> (r: bool)
    ensures
        r == same_slug(a@, b@),
{
    match (a.get("slug"), b.get("slug")) {
        (Some(x), Some(y)) => x.equals(y),
        (None, None) => true,
        _ => false,
    }
}

/// Whether an entry of that slug is in the list.
fn is_listed(list: &Vec<Json>, entry: &Json) -> (r: bool)
    ensures
        r == listed(models(list@), entry@),
{
    let n: usize = list.len();
    let mut i: usize = 0;
    let ghost all = models(list@);
    while i < n
        invariant
            n == list@.len(),
            i <= n,
            all == models(list@),
            forall|j: int| 0 <= j < i ==> !same_slug(#[trigger] all[j], entry@),
        decreases n - i,
    {
        assert(all[i as int] == list@[i as int]@);
        if slugs_equal(&list[i], entry) {
            return true;
        }
        i = i + 1;
    }
    false
}

/// Appends the extra entries whose slug the catalog does not have yet.
pub fn merge_models(catalog: Json, extra: &Vec<Json>) -> (r: Json)
    ensures
        r@ == merged(catalog@, models(extra@)),
{
    broadcast use group_json_models;

    let mut list = match catalog.list_at("models") {
        Some(items) => copy_list(items),
        None => return catalog,
    };
    let ghost given = models(list@);
    let ghost all = models(extra@);
    let n: usize = extra.len();
    let mut i: usize = 0;
    assert(all.take(0) =~= seq![]);
    while i < n
        invariant
            n == extra@.len(),
            i <= n,
            all == models(extra@),
            models(list@) == with_extra(given, all.take(i as int)),
        decreases n - i,
    {
        assert(all.take(i + 1).drop_last() =~= all.take(i as int));
        assert(all.take(i + 1).last() == extra@[i as int]@);
        if !is_listed(&list, &extra[i]) {
            list.push(extra[i].copy());
        }
        i = i + 1;
    }
    assert(all.take(n as int) =~= all);
    catalog.with("models", Json::list(list))
}

/// The models that a file of extra entries lists.
pub fn models_listed(file: Option<Json>) -> (r: Vec<Json>)
    ensures
        models(r@) == extra_of(
            (match file {
                Some(v) => Some(v@),
                None => None,
            }),
        ),
{
    match file {
        Some(v) => match v.list_at("models") {
            Some(items) => copy_list(items),
            None => {
                let none: Vec<Json> = Vec::new();
                assert(models(none@) =~= seq![]);
                none
            },
        },
        None => {
            let none: Vec<Json> = Vec::new();
            assert(models(none@) =~= seq![]);
            none
        },
    }
}

/// The models that the file of extra entries lists, where the file could be read.
pub fn extra_models(file: Option<&[u8]>) -> (r: Vec<Json>)
    ensures
        models(r@) == extra_of(
            (match file {
                Some(b) => read_bytes(b@),
                None => None,
            }),
        ),
{
    match file {
        Some(b) => models_listed(read_json_bytes(b)),
        None => models_listed(None),
    }
}

/// The catalog of an upstream answer that was read as JSON, or not.
pub fn catalog_of(answer: Option<Json>) -> (r: Json)
    ensures
        r@ == upstream_catalog(
            (match answer {
                Some(v) => Some(v@),
                None => None,
            }),
        ),
{
    match answer {
        Some(v) => v,
        None => {
            let none: Vec<Json> = Vec::new();
            assert(models(none@) =~= seq![]);
            Json::object().with("models", Json::list(none))
        },
    }
}

/// The catalog to hand back: that of the body that upstream answered with, where
/// it did, and the extra entries.
pub fn catalog(answer: Option<&[u8]>, extra: &Vec<Json>) -> (r: Json)
    ensures
        r@ == merged(
            upstream_catalog(
                (match answer {
                    Some(b) => read_bytes(b@),
                    None => None,
                }),
            ),
            models(extra@),
        ),
{
    let upstream = match answer {
        Some(b) => catalog_of(read_json_bytes(b)),
        None => catalog_of(None),
    };
    merge_models(upstream, extra)
}

proof fn lemma_equal_itself(v: JsonModel)
    ensures
        json_equal(v, v),
    decreases v,
{
    match v {
        JsonModel::List(items) => {
            assert forall|i: int| 0 <= i < items.len() implies json_equal(
                #[trigger] items[i],
                items[i],
            ) by {
                lemma_equal_itself(items[i]);
            }
        },
        JsonModel::Object(m) => {
            assert forall|k: Seq<char>| m.dom().contains(k) implies json_equal(
                #[trigger] m[k],
                m[k],
            ) by {
                assert(decreases_to!(v => v->Object_0[k]));
                lemma_equal_itself(m[k]);
            }
        },
        JsonModel::Number(n) => {
            assert(numbers_equal(n, n));
        },
        _ => {},
    }
}

/// The entries that were there stay, first and in their order; what follows them
/// comes from the extra entries.
pub proof fn law_extra_follows(list: Seq<JsonModel>, extra: Seq<JsonModel>)
    ensures
        list.is_prefix_of(with_extra(list, extra)),
        forall|i: int|
            list.len() <= i < with_extra(list, extra).len() ==> extra.contains(
                #[trigger] with_extra(list, extra)[i],
            ),
    decreases extra.len(),
{
    if extra.len() > 0 {
        let front = extra.drop_last();
        law_extra_follows(list, front);
        let before = with_extra(list, front);
        let out = with_extra(list, extra);
        assert(out.take(list.len() as int) =~= before.take(list.len() as int));
        assert forall|i: int| list.len() <= i < out.len() implies extra.contains(
            #[trigger] out[i],
        ) by {
            if i < before.len() {
                assert(out[i] == before[i]);
                assert(front.contains(before[i]));
                let j = choose|j: int| 0 <= j < front.len() && front[j] == before[i];
                assert(extra[j] == out[i]);
            } else {
                assert(extra[extra.len() - 1] == out[i]);
            }
        }
    }
}

/// Every extra entry's slug is in the list afterwards.
pub proof fn law_extra_is_listed(list: Seq<JsonModel>, extra: Seq<JsonModel>, i: int)
    requires
        0 <= i < extra.len(),
    ensures
        listed(with_extra(list, extra), extra[i]),
    decreases extra.len(),
{
    let front = extra.drop_last();
    let before = with_extra(list, front);
    let out = with_extra(list, extra);
    if i < front.len() {
        law_extra_is_listed(list, front, i);
        let j = choose|j: int| 0 <= j < before.len() && same_slug(#[trigger] before[j], extra[i]);
        assert(out[j] == before[j]);
    } else if !listed(before, extra.last()) {
        if let Some(slug) = extra.last().get("slug"@) {
            lemma_equal_itself(slug);
        }
        assert(same_slug(out[out.len() - 1], extra[i]));
    }
}

/// No entry is appended whose slug an earlier entry has.
pub proof fn law_no_slug_appended_twice(
    list: Seq<JsonModel>,
    extra: Seq<JsonModel>,
    i: int,
    j: int,
)
    requires
        0 <= i < j < with_extra(list, extra).len(),
        list.len() <= j,
    ensures
        !same_slug(with_extra(list, extra)[i], with_extra(list, extra)[j]),
    decreases extra.len(),
{
    if extra.len() > 0 {
        let before = with_extra(list, extra.drop_last());
        if j < before.len() {
            law_no_slug_appended_twice(list, extra.drop_last(), i, j);
        } else {
            assert(with_extra(list, extra)[i] == before[i]);
        }
    }
}

proof fn lemma_listed_adds_nothing(list: Seq<JsonModel>, extra: Seq<JsonModel>)
    requires
        forall|i: int| 0 <= i < extra.len() ==> listed(list, #[trigger] extra[i]),
    ensures
        with_extra(list, extra) == list,
    decreases extra.len(),
{
    if extra.len() > 0 {
        let front = extra.drop_last();
        assert forall|i: int| 0 <= i < front.len() implies listed(list, #[trigger] front[i]) by {
            assert(front[i] == extra[i]);
        }
        lemma_listed_adds_nothing(list, front);
        assert(listed(list, extra[extra.len() - 1]));
    }
}

/// Merging the same extra entries again changes nothing.
pub proof fn law_merged_twice(catalog: JsonModel, extra: Seq<JsonModel>)
    ensures
        merged(merged(catalog, extra), extra) == merged(catalog, extra),
{
    if let Some(JsonModel::List(list)) = catalog.get("models"@) {
        let out = with_extra(list, extra);
        assert forall|i: int| 0 <= i < extra.len() implies listed(out, #[trigger] extra[i]) by {
            law_extra_is_listed(list, extra, i);
        }
        lemma_listed_adds_nothing(out, extra);
        let once = merged(catalog, extra);
        assert(once.get("models"@) == Some(JsonModel::List(out)));
        assert(merged(once, extra)->Object_0 =~= once->Object_0);
    }
}

/// Where upstream fails, the extra entries are served alone: the catalog holds
/// nothing that is not one of them.
pub proof fn law_extra_alone(extra: Seq<JsonModel>)
    ensures
        merged(upstream_catalog(None), extra) == empty_object().with(
            "models"@,
            JsonModel::List(with_extra(seq![], extra)),
        ),
        forall|i: int|
            0 <= i < with_extra(seq![], extra).len() ==> extra.contains(
                #[trigger] with_extra(seq![], extra)[i],
            ),
{
    law_extra_follows(seq![], extra);
    let out = merged(upstream_catalog(None), extra);
    assert(empty_catalog().get("models"@) == Some(JsonModel::List(seq![])));
    assert(out->Object_0 =~= empty_object().with(
        "models"@,
        JsonModel::List(with_extra(seq![], extra)),
    )->Object_0);
}

/// Merging changes nothing of a catalog but its models, and those only where they are
/// a list: what was listed stays at its place.
pub proof fn law_merged_members(
    catalog: JsonModel,
    extra: Seq<JsonModel>,
    list: Seq<JsonModel>,
    key: Seq<char>,
)
    ensures
        key != "models"@ ==> merged(catalog, extra).get(key) == catalog.get(key),
        !(catalog.get("models"@) matches Some(JsonModel::List(_))) ==> merged(catalog, extra)
            == catalog,
        catalog.get("models"@) == Some(JsonModel::List(list)) ==> (merged(catalog, extra).get(
            "models"@,
        ) matches Some(JsonModel::List(out)) && list.is_prefix_of(out)),
        catalog.get("models"@) == Some(JsonModel::List(list)) ==> merged(catalog, seq![]).get(
            "models"@,
        ) == Some(JsonModel::List(list)),
{
    law_extra_follows(list, extra);
}

/// Two entries have the same slug where it is the same value, or where neither has
/// one, and not otherwise. Texts are the same where each character is.
pub proof fn law_same_slug(a: JsonModel, b: JsonModel, s: JsonModel)
    ensures
        a.get("slug"@) is None && b.get("slug"@) is None ==> same_slug(a, b),
        a.get("slug"@) is Some && b.get("slug"@) is None ==> !same_slug(a, b),
        a.get("slug"@) is None && b.get("slug"@) is Some ==> !same_slug(a, b),
        a.get("slug"@) == Some(s) && without_fractions(s) && b.get("slug"@) is Some ==> (same_slug(
            a,
            b,
        ) <==> b.get("slug"@) == Some(s)),
{
    if a.get("slug"@) == Some(s) && without_fractions(s) && b.get("slug"@) is Some {
        law_equal_is_the_same(s, b.get("slug"@)->0);
    }
}

/// Each extra entry, in its order, is appended exactly where no entry before it has its
/// slug.
pub proof fn law_extra_in_order(list: Seq<JsonModel>, extra: Seq<JsonModel>, e: JsonModel)
    ensures
        ({
            let before = with_extra(list, extra);
            let known = exists|i: int| 0 <= i < before.len() && same_slug(#[trigger] before[i], e);
            &&& known ==> with_extra(list, extra.push(e)) == before
            &&& !known ==> with_extra(list, extra.push(e)) == before.push(e)
            &&& with_extra(list, seq![]) == list
        }),
{
    assert(extra.push(e).drop_last() =~= extra);
}

/// The extra entries are the models that the file lists, all of them; and the catalog
/// that upstream answered with is taken as it is.
pub proof fn law_catalog_sources(file: JsonModel, list: Seq<JsonModel>)
    ensures
        file.get("models"@) == Some(JsonModel::List(list)) ==> extra_of(Some(file)) == list,
        !(file.get("models"@) matches Some(JsonModel::List(_))) ==> extra_of(Some(file)).len() == 0,
        extra_of(None).len() == 0,
        upstream_catalog(Some(file)) == file,
        upstream_catalog(None) == JsonModel::Object(map!["models"@ => JsonModel::List(seq![])]),
{
    let none: Seq<JsonModel> = seq![];
    assert(empty_catalog()->Object_0 =~= map!["models"@ => JsonModel::List(none)]);
}

}
