//! JSON values: the executable tree, its mathematical model, and the reads
//! and constructors that the rest of the library is written with.

use vstd::prelude::*;

use crate::text::same_text;

verus! {

/// `serde_json::Number`: a JSON number, carried through unchanged.
#[verifier::external_type_specification]
#[verifier::external_body]
pub struct ExNumber(serde_json::Number);

/// What a `serde_json::Number` stands for.
pub enum NumberModel {
    /// An integer of at least zero that fits 64 bits.
    Unsigned(u64),
    /// An integer below zero that fits 64 bits.
    Negative(i64),
    /// Any other number, by the text that it is written as.
    Other(Seq<char>),
}

/// The number that a `serde_json::Number` holds.
pub uninterp spec fn number_model(n: serde_json::Number) -> NumberModel;

/// `serde_json::Number::as_u64`: the number, where it is an integer of at
/// least zero that fits 64 bits.
pub assume_specification[ serde_json::Number::as_u64 ](n: &serde_json::Number) -> (r: Option<u64>)
    ensures
        r == (match number_model(*n) {
            NumberModel::Unsigned(u) => Some(u),
            _ => None,
        }),
;

/// `<serde_json::Number as Clone>::clone`: the same number.
pub assume_specification[ <serde_json::Number as Clone>::clone ](n: &serde_json::Number) -> (r:
    serde_json::Number)
    ensures
        number_model(r) == number_model(*n),
;

/// `<serde_json::Number as From<u64>>::from`: the number of an integer.
#[verifier::external_body]
fn number_of(n: u64) -> (r: serde_json::Number)
    ensures
        number_model(r) == NumberModel::Unsigned(n),
{
    serde_json::Number::from(n)
}

/// Whether two numbers compare as equal: integers by their value, and other
/// numbers by the text that writes them, where `0.0` and `-0.0` are one number.
pub open spec fn numbers_equal(a: NumberModel, b: NumberModel) -> bool {
    match (a, b) {
        (NumberModel::Other(x), NumberModel::Other(y)) => x == y || (is_float_zero(x)
            && is_float_zero(y)),
        _ => a == b,
    }
}

/// Whether a text writes a floating point zero.
pub open spec fn is_float_zero(s: Seq<char>) -> bool {
    s == "0.0"@ || s == "-0.0"@
}

/// `<serde_json::Number as PartialEq>::eq`: integers are equal by value,
/// floating point numbers as such, and no integer equals a floating point number.
#[verifier::external_body]
fn same_number(a: &serde_json::Number, b: &serde_json::Number) -> (r: bool)
    ensures
        r == numbers_equal(number_model(*a), number_model(*b)),
{
    a == b
}

/// The mathematical model of a JSON value.
#[verifier::ext_equal]
pub enum JsonModel {
    Null,
    Bool(bool),
    Number(NumberModel),
    Text(Seq<char>),
    List(Seq<JsonModel>),
    Object(Map<Seq<char>, JsonModel>),
}

/// A JSON value.
#[derive(Debug)]
pub enum Json {
    Null,
    Bool(bool),
    Number(serde_json::Number),
    Text(String),
    List(Vec<Json>),
    /// The members in order. A later member shadows an earlier one of the same key.
    Object(Vec<Member>),
}

/// One member of a JSON object.
#[derive(Debug)]
pub struct Member {
    pub key: String,
    pub value: Json,
}

/// The map that a list of members stands for: of equal keys the last one counts.
pub open spec fn members_map(members: Seq<(Seq<char>, JsonModel)>) -> Map<Seq<char>, JsonModel>
    decreases members.len(),
{
    if members.len() == 0 {
        Map::empty()
    } else {
        members_map(members.drop_last()).insert(members.last().0, members.last().1)
    }
}

/// The model of a JSON value.
pub open spec fn json_model(j: Json) -> JsonModel
    decreases j,
{
    match j {
        Json::Null => JsonModel::Null,
        Json::Bool(b) => JsonModel::Bool(b),
        Json::Number(n) => JsonModel::Number(number_model(n)),
        Json::Text(s) => JsonModel::Text(s@),
        Json::List(items) => JsonModel::List(
            Seq::new(
                items@.len(),
                |i: int|
                    if 0 <= i < items@.len() {
                        json_model(items@[i])
                    } else {
                        JsonModel::Null
                    },
            ),
        ),
        Json::Object(members) => JsonModel::Object(members_map(member_seq(members))),
    }
}

/// The models of an object's members.
pub open spec fn member_seq(members: Vec<Member>) -> Seq<(Seq<char>, JsonModel)>
    decreases members,
{
    Seq::new(
        members@.len(),
        |i: int|
            if 0 <= i < members@.len() {
                (members@[i].key@, json_model(members@[i].value))
            } else {
                (seq![], JsonModel::Null)
            },
    )
}

impl View for Json {
    type V = JsonModel;

    open spec fn view(&self) -> JsonModel {
        json_model(*self)
    }
}

impl JsonModel {
    /// The member of that key, where the value is an object that has it.
    pub open spec fn get(self, key: Seq<char>) -> Option<JsonModel> {
        match self {
            JsonModel::Object(m) => if m.dom().contains(key) {
                Some(m[key])
            } else {
                None
            },
            _ => None,
        }
    }

    /// The text, where the value is one.
    pub open spec fn as_text(self) -> Option<Seq<char>> {
        match self {
            JsonModel::Text(s) => Some(s),
            _ => None,
        }
    }

    /// The items, where the value is a list.
    pub open spec fn as_list(self) -> Option<Seq<JsonModel>> {
        match self {
            JsonModel::List(items) => Some(items),
            _ => None,
        }
    }

    /// The integer, where the value is one of at least zero that fits 64 bits.
    pub open spec fn as_u64(self) -> Option<u64> {
        match self {
            JsonModel::Number(NumberModel::Unsigned(u)) => Some(u),
            _ => None,
        }
    }

    /// The truth value, where the value is one.
    pub open spec fn as_bool(self) -> Option<bool> {
        match self {
            JsonModel::Bool(b) => Some(b),
            _ => None,
        }
    }

    /// The text under a key.
    pub open spec fn text_at(self, key: Seq<char>) -> Option<Seq<char>> {
        match self.get(key) {
            Some(v) => v.as_text(),
            None => None,
        }
    }

    /// The text under a key, or a default.
    pub open spec fn text_or(self, key: Seq<char>, default: Seq<char>) -> Seq<char> {
        match self.text_at(key) {
            Some(s) => s,
            None => default,
        }
    }

    /// The list under a key; empty where there is none.
    pub open spec fn list_at(self, key: Seq<char>) -> Seq<JsonModel> {
        match self.get(key) {
            Some(JsonModel::List(items)) => items,
            _ => seq![],
        }
    }

    /// The integer under a key.
    pub open spec fn u64_at(self, key: Seq<char>) -> Option<u64> {
        match self.get(key) {
            Some(v) => v.as_u64(),
            None => None,
        }
    }

    /// The object with one more member, which replaces one of the same key. A
    /// value that is no object becomes one.
    pub open spec fn with(self, key: Seq<char>, value: JsonModel) -> JsonModel {
        match self {
            JsonModel::Object(m) => JsonModel::Object(m.insert(key, value)),
            _ => JsonModel::Object(Map::empty().insert(key, value)),
        }
    }
}

/// Whether two values compare as equal: numbers by `numbers_equal`, lists item
/// by item, and objects member by member, whatever the order of the members.
pub open spec fn json_equal(a: JsonModel, b: JsonModel) -> bool
    decreases a,
{
    match (a, b) {
        (JsonModel::Number(x), JsonModel::Number(y)) => numbers_equal(x, y),
        (JsonModel::List(x), JsonModel::List(y)) => x.len() == y.len() && forall|i: int|
            0 <= i < x.len() ==> json_equal(#[trigger] x[i], y[i]),
        (JsonModel::Object(x), JsonModel::Object(y)) => x.dom() == y.dom() && forall|k: Seq<char>|
            x.dom().contains(k) ==> json_equal(#[trigger] x[k], y[k]),
        _ => a == b,
    }
}

/// The object without members.
pub open spec fn empty_object() -> JsonModel {
    JsonModel::Object(Map::empty())
}

/// The models of a list of values.
pub open spec fn models(items: Seq<Json>) -> Seq<JsonModel> {
    items.map_values(|j: Json| j@)
}

/// The models of a list of members.
pub open spec fn member_models(members: Seq<Member>) -> Seq<(Seq<char>, JsonModel)> {
    members.map_values(|m: Member| (m.key@, m.value@))
}

/// A list's model holds the models of its items.
pub broadcast proof fn lemma_list_model(items: Vec<Json>)
    ensures
        #[trigger] json_model(Json::List(items)) == JsonModel::List(models(items@)),
{
    assert(json_model(Json::List(items))->List_0 =~= models(items@));
}

/// An object's model is the map of its members' models.
pub broadcast proof fn lemma_object_model(members: Vec<Member>)
    ensures
        #[trigger] json_model(Json::Object(members)) == JsonModel::Object(
            members_map(member_models(members@)),
        ),
{
    assert(member_seq(members) =~= member_models(members@));
}

/// Appending a value appends its model.
pub broadcast proof fn lemma_models_push(items: Seq<Json>, item: Json)
    ensures
        #[trigger] models(items.push(item)) == models(items).push(item@),
{
    assert(models(items.push(item)) =~= models(items).push(item@));
}

/// Appending a member appends its model.
pub broadcast proof fn lemma_member_models_push(members: Seq<Member>, member: Member)
    ensures
        #[trigger] member_models(members.push(member)) == member_models(members).push(
            (member.key@, member.value@),
        ),
{
    assert(member_models(members.push(member)) =~= member_models(members).push(
        (member.key@, member.value@),
    ));
}

pub broadcast group group_json_models {
    lemma_list_model,
    lemma_object_model,
    lemma_models_push,
    lemma_member_models_push,
}

/// A list stands above each of its items.
proof fn lemma_item_below(items: Vec<Json>, i: int)
    requires
        0 <= i < items@.len(),
    ensures
        decreases_to!(Json::List(items) => items@[i]),
{
    let list = Json::List(items);
    assert(decreases_to!(list => list->List_0));
    assert(decreases_to!(items => items@));
    assert(decreases_to!(items@ => items@[i]));
}

/// An object stands above the value of each of its members.
pub proof fn lemma_member_below(members: Vec<Member>, i: int)
    requires
        0 <= i < members@.len(),
    ensures
        decreases_to!(Json::Object(members) => members@[i].value),
{
    let object = Json::Object(members);
    assert(decreases_to!(object => object->Object_0));
    assert(decreases_to!(members => members@));
    assert(decreases_to!(members@ => members@[i]));
    assert(decreases_to!(members@[i] => members@[i].value));
}

impl Clone for Json {
    fn clone(&self) -> (r: Self)
        ensures
            r@ == self@,
    {
        self.copy()
    }
}

impl Json {
    /// The same value.
    pub fn copy(&self) -> (r: Self)
        ensures
            r@ == self@,
        decreases *self,
    {
        broadcast use group_json_models;

        match self {
            Json::Null => Json::Null,
            Json::Bool(b) => Json::Bool(*b),
            Json::Number(n) => Json::Number(n.clone()),
            Json::Text(s) => Json::Text(s.clone()),
            Json::List(items) => {
                let mut out: Vec<Json> = Vec::new();
                let n: usize = items.len();
                let mut i: usize = 0;
                while i < n
                    invariant
                        *self == Json::List(*items),
                        n == items@.len(),
                        i <= n,
                        models(out@) == models(items@).take(i as int),
                    decreases n - i,
                {
                    proof {
                        lemma_item_below(*items, i as int);
                    }
                    out.push(items[i].copy());
                    assert(models(items@).take(i + 1) =~= models(items@).take(i as int).push(
                        items@[i as int]@,
                    ));
                    i = i + 1;
                }
                assert(models(out@) =~= models(items@));
                Json::List(out)
            },
            Json::Object(members) => {
                let mut out: Vec<Member> = Vec::new();
                let n: usize = members.len();
                let mut i: usize = 0;
                while i < n
                    invariant
                        *self == Json::Object(*members),
                        n == members@.len(),
                        i <= n,
                        member_models(out@) == member_models(members@).take(i as int),
                    decreases n - i,
                {
                    let m = &members[i];
                    proof {
                        lemma_member_below(*members, i as int);
                    }
                    out.push(Member { key: m.key.clone(), value: m.value.copy() });
                    assert(member_models(members@).take(i + 1) =~= member_models(members@).take(
                        i as int,
                    ).push((m.key@, m.value@)));
                    i = i + 1;
                }
                assert(member_models(out@) =~= member_models(members@));
                Json::Object(out)
            },
        }
    }

    /// The member of that key, where the value is an object that has it.
    pub fn get(&self, key: &str) -> (r: Option<&Json>)
        ensures
            match r {
                Some(v) => self@.get(key@) == Some(v@),
                None => self@.get(key@) is None,
            },
    {
        broadcast use group_json_models;

        if let Json::Object(members) = self {
            let mut i: usize = members.len();
            let ghost all = member_models(members@);
            assert(all.take(i as int) =~= all);
            while i > 0
                invariant
                    self@ == JsonModel::Object(members_map(all)),
                    all == member_models(members@),
                    i <= members@.len(),
                    self@.get(key@) == JsonModel::Object(members_map(all.take(i as int))).get(key@),
                decreases i,
            {
                i = i - 1;
                assert(all.take(i + 1).drop_last() =~= all.take(i as int));
                let m = &members[i];
                if same_text(m.key.as_str(), key) {
                    return Some(&m.value);
                }
            }
            None
        } else {
            None
        }
    }

    /// The text, where the value is one.
    pub fn as_str(&self) -> (r: Option<&str>)
        ensures
            match r {
                Some(s) => self@.as_text() == Some(s@),
                None => self@.as_text() is None,
            },
    {
        broadcast use group_json_models;

        match self {
            Json::Text(s) => Some(s.as_str()),
            _ => None,
        }
    }

    /// The items, where the value is a list.
    pub fn as_list(&self) -> (r: Option<&Vec<Json>>)
        ensures
            match r {
                Some(items) => self@.as_list() == Some(models(items@)),
                None => self@.as_list() is None,
            },
    {
        broadcast use group_json_models;

        match self {
            Json::List(items) => Some(items),
            _ => None,
        }
    }

    /// The integer, where the value is one of at least zero that fits 64 bits.
    pub fn as_u64(&self) -> (r: Option<u64>)
        ensures
            r == self@.as_u64(),
    {
        broadcast use group_json_models;

        match self {
            Json::Number(n) => n.as_u64(),
            _ => None,
        }
    }

    /// The truth value, where the value is one.
    pub fn as_bool(&self) -> (r: Option<bool>)
        ensures
            r == self@.as_bool(),
    {
        broadcast use group_json_models;

        match self {
            Json::Bool(b) => Some(*b),
            _ => None,
        }
    }

    /// The text under a key.
    pub fn text_at(&self, key: &str) -> (r: Option<&str>)
        ensures
            match r {
                Some(s) => self@.text_at(key@) == Some(s@),
                None => self@.text_at(key@) is None,
            },
    {
        match self.get(key) {
            Some(v) => v.as_str(),
            None => None,
        }
    }

    /// The text under a key, or a default.
    pub fn text_or<'a>(&'a self, key: &str, default: &'a str) -> (r: &'a str)
        ensures
            r@ == self@.text_or(key@, default@),
    {
        match self.text_at(key) {
            Some(s) => s,
            None => default,
        }
    }

    /// The list under a key.
    pub fn list_at(&self, key: &str) -> (r: Option<&Vec<Json>>)
        ensures
            match r {
                Some(items) => self@.get(key@) == Some(JsonModel::List(models(items@))),
                None => !(self@.get(key@) matches Some(JsonModel::List(_))),
            },
    {
        match self.get(key) {
            Some(v) => v.as_list(),
            None => None,
        }
    }

    /// The integer under a key.
    pub fn u64_at(&self, key: &str) -> (r: Option<u64>)
        ensures
            r == self@.u64_at(key@),
    {
        match self.get(key) {
            Some(v) => v.as_u64(),
            None => None,
        }
    }

    /// A text.
    pub fn text(s: &str) -> (r: Json)
        ensures
            r@ == JsonModel::Text(s@),
    {
        Json::Text(s.to_owned())
    }

    /// An integer.
    pub fn number(n: u64) -> (r: Json)
        ensures
            r@ == JsonModel::Number(NumberModel::Unsigned(n)),
    {
        Json::Number(number_of(n))
    }

    /// A list of one item.
    pub fn list_of(item: Json) -> (r: Json)
        ensures
            r@ == JsonModel::List(seq![item@]),
    {
        broadcast use group_json_models;

        let mut items: Vec<Json> = Vec::new();
        items.push(item);
        assert(models(items@) =~= seq![item@]);
        Json::List(items)
    }

    /// A list of the items.
    pub fn list(items: Vec<Json>) -> (r: Json)
        ensures
            r@ == JsonModel::List(models(items@)),
    {
        broadcast use group_json_models;

        Json::List(items)
    }

    /// The object without members.
    pub fn object() -> (r: Json)
        ensures
            r@ == empty_object(),
    {
        broadcast use group_json_models;

        let members: Vec<Member> = Vec::new();
        assert(member_models(members@) =~= seq![]);
        Json::Object(members)
    }

    /// The object with one more member, which replaces one of the same key. A
    /// value that is no object becomes one.
    pub fn with(self, key: &str, value: Json) -> (r: Json)
        ensures
            r@ == self@.with(key@, value@),
    {
        broadcast use group_json_models;

        let ghost model = self@;
        let mut members: Vec<Member> = match self {
            Json::Object(members) => members,
            _ => {
                let none: Vec<Member> = Vec::new();
                assert(member_models(none@) =~= seq![]);
                none
            },
        };
        let ghost before = member_models(members@);
        assert(model.with(key@, value@) == JsonModel::Object(
            members_map(before).insert(key@, value@),
        ));
        members.push(Member { key: key.to_owned(), value });
        assert(before.push((key@, value@)).drop_last() =~= before);
        Json::Object(members)
    }

    /// Whether two values compare as equal.
    pub fn equals(&self, other: &Json) -> (r: bool)
        ensures
            r == json_equal(self@, other@),
        decreases self@, 1int,
    {
        broadcast use group_json_models;

        match (self, other) {
            (Json::Null, Json::Null) => true,
            (Json::Bool(a), Json::Bool(b)) => *a == *b,
            (Json::Number(a), Json::Number(b)) => same_number(a, b),
            (Json::Text(a), Json::Text(b)) => same_text(a.as_str(), b.as_str()),
            (Json::List(a), Json::List(b)) => {
                if a.len() != b.len() {
                    return false;
                }
                let n: usize = a.len();
                let mut i: usize = 0;
                let ghost x = models(a@);
                let ghost y = models(b@);
                while i < n
                    invariant
                        self@ == JsonModel::List(x),
                        other@ == JsonModel::List(y),
                        x == models(a@),
                        y == models(b@),
                        n == a@.len(),
                        n == b@.len(),
                        i <= n,
                        forall|j: int| 0 <= j < i ==> json_equal(#[trigger] x[j], y[j]),
                    decreases n - i,
                {
                    assert(decreases_to!(self@ => self@->List_0[i as int]));
                    assert(x[i as int] == a@[i as int]@);
                    if !a[i].equals(&b[i]) {
                        assert(!json_equal(x[i as int], y[i as int]));
                        return false;
                    }
                    i = i + 1;
                }
                true
            },
            (Json::Object(a), Json::Object(b)) => {
                let ghost x = members_map(member_models(a@));
                let ghost y = members_map(member_models(b@));
                if !self.members_within(other) {
                    return false;
                }
                assert(forall|k: Seq<char>| #[trigger] x.dom().contains(k) ==> y.dom().contains(k));
                let n: usize = b.len();
                let mut i: usize = 0;
                while i < n
                    invariant
                        self@ == JsonModel::Object(x),
                        other@ == JsonModel::Object(y),
                        y == members_map(member_models(b@)),
                        n == b@.len(),
                        i <= n,
                        forall|k: Seq<char>| #[trigger]
                            x.dom().contains(k) ==> y.dom().contains(k),
                        forall|j: int| 0 <= j < i ==> x.dom().contains(#[trigger] b@[j].key@),
                    decreases n - i,
                {
                    if self.get(b[i].key.as_str()).is_none() {
                        proof {
                            lemma_member_key(member_models(b@), i as int);
                        }
                        return false;
                    }
                    i = i + 1;
                }
                proof {
                    lemma_member_keys(member_models(b@));
                    assert forall|k: Seq<char>| y.dom().contains(k) implies x.dom().contains(k) by {
                        let j = choose|j: int|
                            0 <= j < b@.len() && #[trigger] member_models(b@)[j].0 == k;
                        assert(b@[j].key@ == k);
                    }
                    assert(x.dom() =~= y.dom());
                }
                true
            },
            _ => false,
        }
    }

    /// Whether each member of this object is in the other one, with an equal value.
    fn members_within(&self, other: &Json) -> (r: bool)
        requires
            self@ is Object,
            other@ is Object,
        ensures
            r == (forall|k: Seq<char>| #[trigger]
                self@->Object_0.dom().contains(k) ==> other@->Object_0.dom().contains(k)
                    && json_equal(self@->Object_0[k], other@->Object_0[k])),
        decreases self@, 0int,
    {
        broadcast use group_json_models;

        if let Json::Object(a) = self {
            let n: usize = a.len();
            let mut i: usize = 0;
            let ghost x = self@->Object_0;
            let ghost y = other@->Object_0;
            while i < n
                invariant
                    self@ == JsonModel::Object(x),
                    other@ == JsonModel::Object(y),
                    x == members_map(member_models(a@)),
                    n == a@.len(),
                    i <= n,
                    forall|j: int|
                        0 <= j < i ==> y.dom().contains(#[trigger] a@[j].key@) && json_equal(
                            x[a@[j].key@],
                            y[a@[j].key@],
                        ),
                decreases n - i,
            {
                let key = a[i].key.as_str();
                proof {
                    lemma_member_key(member_models(a@), i as int);
                }
                assert(x.dom().contains(key@));
                match (self.get(key), other.get(key)) {
                    (Some(u), Some(v)) => {
                        assert(decreases_to!(self@ => self@->Object_0[key@]));
                        if !u.equals(v) {
                            return false;
                        }
                    },
                    _ => {
                        return false;
                    },
                }
                i = i + 1;
            }
            proof {
                lemma_member_keys(member_models(a@));
                assert forall|k: Seq<char>| #[trigger] x.dom().contains(k) implies y.dom().contains(k)
                    && json_equal(x[k], y[k]) by {
                    let j = choose|j: int|
                        0 <= j < a@.len() && #[trigger] member_models(a@)[j].0 == k;
                    assert(a@[j].key@ == k);
                }
            }
        }
        true
    }
}

/// The same values.
pub fn copy_list(items: &Vec<Json>) -> (r: Vec<Json>)
    ensures
        models(r@) == models(items@),
{
    broadcast use group_json_models;

    let mut out: Vec<Json> = Vec::new();
    let n: usize = items.len();
    let mut i: usize = 0;
    while i < n
        invariant
            n == items@.len(),
            i <= n,
            models(out@) == models(items@).take(i as int),
        decreases n - i,
    {
        out.push(items[i].copy());
        assert(models(items@).take(i + 1) =~= models(items@).take(i as int).push(
            items@[i as int]@,
        ));
        i = i + 1;
    }
    assert(models(items@).take(n as int) =~= models(items@));
    out
}

/// Each member's key is in the map of the members.
proof fn lemma_member_key(members: Seq<(Seq<char>, JsonModel)>, i: int)
    requires
        0 <= i < members.len(),
    ensures
        members_map(members).dom().contains(members[i].0),
    decreases members.len(),
{
    if i < members.len() - 1 {
        lemma_member_key(members.drop_last(), i);
    }
}

/// Where no two members share a key, each is in the map with its own value.
pub proof fn lemma_distinct_member(members: Seq<(Seq<char>, JsonModel)>, i: int)
    requires
        0 <= i < members.len(),
        forall|a: int, b: int|
            0 <= a < b < members.len() ==> #[trigger] members[a].0 != #[trigger] members[b].0,
    ensures
        members_map(members).dom().contains(members[i].0),
        members_map(members)[members[i].0] == members[i].1,
    decreases members.len(),
{
    if i < members.len() - 1 {
        lemma_distinct_member(members.drop_last(), i);
        assert(members[i].0 != members[members.len() - 1].0);
    }
}

/// Each key in the map of the members is some member's.
proof fn lemma_member_keys(members: Seq<(Seq<char>, JsonModel)>)
    ensures
        forall|k: Seq<char>| #[trigger]
            members_map(members).dom().contains(k) ==> exists|i: int|
                0 <= i < members.len() && #[trigger] members[i].0 == k,
    decreases members.len(),
{
    if members.len() > 0 {
        let front = members.drop_last();
        lemma_member_keys(front);
        assert forall|k: Seq<char>| #[trigger] members_map(members).dom().contains(k) implies exists|
            i: int,
        |
            0 <= i < members.len() && #[trigger] members[i].0 == k by {
            if members.last().0 == k {
                assert(members[members.len() - 1].0 == k);
            } else {
                assert(members_map(front).dom().contains(k));
                let i = choose|i: int| 0 <= i < front.len() && #[trigger] front[i].0 == k;
                assert(members[i].0 == k);
            }
        }
    }
}

/// A member is read off the map of the object, and off nothing else.
pub proof fn law_get(m: Map<Seq<char>, JsonModel>, v: JsonModel, key: Seq<char>)
    ensures
        m.dom().contains(key) ==> JsonModel::Object(m).get(key) == Some(m[key]),
        !m.dom().contains(key) ==> JsonModel::Object(m).get(key) is None,
        !(v is Object) ==> v.get(key) is None,
{
}

/// A member that is put in is there, under its key and no other, and the others
/// stay.
pub proof fn law_with(v: JsonModel, key: Seq<char>, value: JsonModel, other: Seq<char>)
    ensures
        v.with(key, value).get(key) == Some(value),
        other != key ==> v.with(key, value).get(other) == v.get(other),
        empty_object().get(key) is None,
        v.with(key, value) is Object,
{
}

/// Each kind of value is read as what it is, whole, and as nothing else.
pub proof fn law_readers(v: JsonModel, s: Seq<char>, items: Seq<JsonModel>, n: u64, b: bool)
    ensures
        v.as_text() == Some(s) <==> v == JsonModel::Text(s),
        v.as_list() == Some(items) <==> v == JsonModel::List(items),
        v.as_u64() == Some(n) <==> v == JsonModel::Number(NumberModel::Unsigned(n)),
        v.as_bool() == Some(b) <==> v == JsonModel::Bool(b),
        v.as_text() is Some <==> v is Text,
        v.as_list() is Some <==> v is List,
        v.as_bool() is Some <==> v is Bool,
        v.as_u64() is Some <==> (v matches JsonModel::Number(x) && x is Unsigned),
{
}

/// What is read under a key is the member under that key, where it is of the kind
/// that is asked for.
pub proof fn law_readers_under_a_key(
    v: JsonModel,
    key: Seq<char>,
    s: Seq<char>,
    items: Seq<JsonModel>,
    n: u64,
    default: Seq<char>,
)
    ensures
        v.text_at(key) == Some(s) <==> v.get(key) == Some(JsonModel::Text(s)),
        v.u64_at(key) == Some(n) <==> v.get(key) == Some(
            JsonModel::Number(NumberModel::Unsigned(n)),
        ),
        v.get(key) == Some(JsonModel::Text(s)) ==> v.text_or(key, default) == s,
        !(v.get(key) matches Some(JsonModel::Text(_))) ==> v.text_or(key, default) == default,
        !(v.get(key) matches Some(JsonModel::Text(_))) ==> v.text_at(key) is None,
        v.get(key) == Some(JsonModel::List(items)) ==> v.list_at(key) == items,
        !(v.get(key) matches Some(JsonModel::List(_))) ==> v.list_at(key).len() == 0,
{
}

/// Whether a value holds no number but integers.
pub open spec fn without_fractions(v: JsonModel) -> bool
    decreases v,
{
    match v {
        JsonModel::Number(n) => !(n is Other),
        JsonModel::List(items) => forall|i: int|
            0 <= i < items.len() ==> without_fractions(#[trigger] items[i]),
        JsonModel::Object(m) => forall|k: Seq<char>|
            m.dom().contains(k) ==> without_fractions(#[trigger] m[k]),
        _ => true,
    }
}

/// Values without fractions compare as equal exactly where they are the same.
pub proof fn law_equal_is_the_same(a: JsonModel, b: JsonModel)
    requires
        without_fractions(a),
    ensures
        json_equal(a, b) <==> a == b,
    decreases a,
{
    match (a, b) {
        (JsonModel::List(x), JsonModel::List(y)) => {
            if x.len() == y.len() {
                assert forall|i: int| 0 <= i < x.len() implies (json_equal(#[trigger] x[i], y[i])
                    <==> x[i] == y[i]) by {
                    law_equal_is_the_same(x[i], y[i]);
                }
                if json_equal(a, b) {
                    assert(x =~= y);
                }
            }
        },
        (JsonModel::Object(x), JsonModel::Object(y)) => {
            if x.dom() == y.dom() {
                assert forall|k: Seq<char>| x.dom().contains(k) implies (json_equal(
                    #[trigger] x[k],
                    y[k],
                ) <==> x[k] == y[k]) by {
                    assert(decreases_to!(a => a->Object_0[k]));
                    law_equal_is_the_same(x[k], y[k]);
                }
                if json_equal(a, b) {
                    assert(x =~= y);
                }
            }
        },
        _ => {},
    }
}

}
