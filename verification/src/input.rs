//! The input items of a Responses request, gathered into system texts and turns.

use vstd::prelude::*;

use crate::blob::{blob_of_text, decode_blob};
use crate::codec::{json_text, read_json, read_text, write_json};
use crate::contents::{law_turns_are_tidy, lemma_plain_entry_stays, said, tidy, turn_models, Contents, ContentsModel, EntryModel, Role, Turn, TurnModel};
use crate::json::{empty_object, group_json_models, models, Json, JsonModel};
use crate::text::{join, joined, law_joined, same_text, views};

verus! {

/// The texts of those content items that have one, in order.
pub open spec fn item_texts(items: Seq<JsonModel>) -> Seq<Seq<char>>
    decreases items.len(),
{
    if items.len() == 0 {
        seq![]
    } else {
        match items.last().text_at("text"@) {
            Some(t) => item_texts(items.drop_last()).push(t),
            None => item_texts(items.drop_last()),
        }
    }
}

/// The text of a message's content: a plain text, or the texts of its items on
/// lines of their own.
pub open spec fn content_text(content: Option<JsonModel>) -> Seq<char> {
    match content {
        Some(JsonModel::Text(s)) => s,
        Some(JsonModel::List(items)) => joined(item_texts(items), "\n"@),
        _ => seq![],
    }
}

/// The text of a tool's output: its text, or the text of its content, or else
/// the JSON text of the output itself.
pub open spec fn output_text(item: JsonModel) -> Seq<char> {
    match item.get("output"@) {
        Some(JsonModel::Text(s)) => s,
        Some(JsonModel::List(items)) => content_text(Some(JsonModel::List(items))),
        Some(JsonModel::Object(m)) => {
            let t = content_text(JsonModel::Object(m).get("content"@));
            if t.len() == 0 {
                json_text(JsonModel::Object(m))
            } else {
                t
            }
        },
        Some(other) => json_text(other),
        None => seq![],
    }
}

/// The text of a message's content.
pub fn text_of_content(content: Option<&Json>) -> (r: String)
    ensures
        r@ == content_text(
            (match content {
                Some(j) => Some(j@),
                None => None,
            }),
        ),
{
    broadcast use group_json_models;

    match content {
        Some(Json::Text(s)) => s.clone(),
        Some(Json::List(items)) => {
            let mut texts: Vec<String> = Vec::new();
            let n: usize = items.len();
            let mut i: usize = 0;
            let ghost all = models(items@);
            assert(views(texts@) =~= item_texts(all.take(0)));
            while i < n
                invariant
                    n == items@.len(),
                    i <= n,
                    all == models(items@),
                    views(texts@) == item_texts(all.take(i as int)),
                decreases n - i,
            {
                assert(all.take(i + 1).drop_last() =~= all.take(i as int));
                assert(all.take(i + 1).last() == items@[i as int]@);
                let ghost before = texts@;
                if let Some(t) = items[i].text_at("text") {
                    texts.push(t.to_owned());
                    assert(views(texts@) =~= views(before).push(t@));
                }
                i = i + 1;
            }
            assert(all.take(n as int) =~= all);
            join(&texts, "\n")
        },
        _ => String::new(),
    }
}

/// The text of a tool's output.
pub fn function_output_text(item: &Json) -> (r: String)
    ensures
        r@ == output_text(item@),
{
    broadcast use group_json_models;

    match item.get("output") {
        Some(output) => match output {
            Json::Text(s) => s.clone(),
            Json::List(_) => text_of_content(Some(output)),
            Json::Object(_) => {
                let t = text_of_content(output.get("content"));
                if t.as_str().is_empty() {
                    write_json(output)
                } else {
                    t
                }
            },
            _ => write_json(output),
        },
        None => String::new(),
    }
}

/// A part that holds a text.
pub open spec fn text_part(text: Seq<char>) -> JsonModel {
    empty_object().with("text"@, JsonModel::Text(text))
}

/// A part that calls a function.
pub open spec fn call_part(name: Seq<char>, args: JsonModel) -> JsonModel {
    empty_object().with(
        "functionCall"@,
        empty_object().with("name"@, JsonModel::Text(name)).with("args"@, args),
    )
}

/// A part that answers a function call.
pub open spec fn answer_part(name: Seq<char>, output: Seq<char>) -> JsonModel {
    empty_object().with(
        "functionResponse"@,
        empty_object().with("name"@, JsonModel::Text(name)).with(
            "response"@,
            empty_object().with("output"@, JsonModel::Text(output)),
        ),
    )
}

/// The arguments of a call, from their text and what reading it gave: an object
/// as it is, another value under `value`, and text that is no JSON under `_raw`.
pub open spec fn args_of(raw: Seq<char>, read: Result<JsonModel, Seq<char>>) -> JsonModel {
    match read {
        Ok(JsonModel::Object(m)) => JsonModel::Object(m),
        Ok(other) => empty_object().with("value"@, other),
        Err(_) => empty_object().with("_raw"@, JsonModel::Text(raw)),
    }
}

/// The name under which a call's item is answered: `call_id`, or `id` where
/// there is no `call_id`.
pub open spec fn call_id_of(item: JsonModel) -> Seq<char> {
    match item.get("call_id"@) {
        Some(JsonModel::Text(s)) => s,
        Some(_) => seq![],
        None => item.text_or("id"@, seq![]),
    }
}

/// What has been gathered from the items so far.
#[verifier::ext_equal]
pub struct GatheredModel {
    pub system: Seq<Seq<char>>,
    pub contents: ContentsModel,
    pub call_names: Map<Seq<char>, Seq<char>>,
}

impl GatheredModel {
    /// One more message.
    pub open spec fn message(self, item: JsonModel) -> GatheredModel {
        let role = item.text_or("role"@, "user"@);
        let text = content_text(item.get("content"@));
        if role == "system"@ || role == "developer"@ {
            GatheredModel { system: self.system.push(text), ..self }
        } else if role == "assistant"@ {
            GatheredModel {
                contents: self.contents.push_visible_model(text_part(text)),
                ..self
            }
        } else {
            GatheredModel { contents: self.contents.push(Role::User, text_part(text)), ..self }
        }
    }

    /// One more reasoning item: a blob that can be read is applied, anything else
    /// is passed over.
    pub open spec fn reasoning(self, item: JsonModel) -> GatheredModel {
        match item.text_at("encrypted_content"@) {
            Some(s) => match blob_of_text(s) {
                Some(blob) => GatheredModel { contents: self.contents.apply_blob(blob), ..self },
                None => self,
            },
            None => self,
        }
    }

    /// One more function call.
    pub open spec fn function_call(self, item: JsonModel) -> GatheredModel {
        let name = item.text_or("name"@, ""@);
        let raw = item.text_or("arguments"@, "{}"@);
        GatheredModel {
            contents: self.contents.push_visible_model(
                call_part(name, args_of(raw, read_text(raw))),
            ),
            call_names: self.call_names.insert(call_id_of(item), name),
            ..self
        }
    }

    /// One more answer to a function call, under the name that the call had.
    pub open spec fn function_call_output(self, item: JsonModel) -> GatheredModel {
        let call_id = item.text_or("call_id"@, ""@);
        let name = if self.call_names.dom().contains(call_id) {
            self.call_names[call_id]
        } else {
            "tool"@
        };
        GatheredModel {
            contents: self.contents.push(Role::User, answer_part(name, output_text(item))),
            ..self
        }
    }

    /// One more item, by its type.
    pub open spec fn absorb(self, item: JsonModel) -> GatheredModel {
        let kind = item.text_or("type"@, "message"@);
        if kind == "message"@ {
            self.message(item)
        } else if kind == "reasoning"@ {
            self.reasoning(item)
        } else if kind == "function_call"@ {
            self.function_call(item)
        } else if kind == "function_call_output"@ {
            self.function_call_output(item)
        } else if kind == "web_search_call"@ {
            GatheredModel { contents: self.contents.push_visible_empty(), ..self }
        } else {
            self
        }
    }

    /// More items, in order.
    pub open spec fn absorb_all(self, items: Seq<JsonModel>) -> GatheredModel
        decreases items.len(),
    {
        if items.len() == 0 {
            self
        } else {
            self.absorb_all(items.drop_last()).absorb(items.last())
        }
    }
}

/// Nothing gathered but the request's instructions.
pub open spec fn gathered_start(req: JsonModel) -> GatheredModel {
    GatheredModel {
        system: match req.text_at("instructions"@) {
            Some(s) => if s.len() > 0 {
                seq![s]
            } else {
                seq![]
            },
            None => seq![],
        },
        contents: ContentsModel::empty(),
        call_names: Map::empty(),
    }
}

/// What a request's instructions and input items gather to.
pub open spec fn gathered(req: JsonModel) -> GatheredModel {
    gathered_start(req).absorb_all(req.list_at("input"@))
}

/// The turns of a request: those gathered, or an empty user text where there are none.
pub open spec fn request_turns(req: JsonModel) -> Seq<TurnModel> {
    let turns = gathered(req).contents.turns();
    if turns.len() == 0 {
        seq![TurnModel { role: Role::User, parts: seq![text_part(""@)] }]
    } else {
        turns
    }
}

/// The map of a list of names: of equal call ids the last one counts.
pub open spec fn names_map(names: Seq<(Seq<char>, Seq<char>)>) -> Map<Seq<char>, Seq<char>>
    decreases names.len(),
{
    if names.len() == 0 {
        Map::empty()
    } else {
        names_map(names.drop_last()).insert(names.last().0, names.last().1)
    }
}

/// The models of a list of names.
pub open spec fn name_models(names: Seq<(String, String)>) -> Seq<(Seq<char>, Seq<char>)> {
    names.map_values(|n: (String, String)| (n.0@, n.1@))
}

/// What has been gathered from the items so far: the system texts, the turns, and
/// the function names by call id, of which a later one counts before an earlier.
pub struct Gathered {
    pub system: Vec<String>,
    pub contents: Contents,
    pub call_names: Vec<(String, String)>,
}

impl View for Gathered {
    type V = GatheredModel;

    open spec fn view(&self) -> GatheredModel {
        GatheredModel {
            system: views(self.system@),
            contents: self.contents@,
            call_names: names_map(name_models(self.call_names@)),
        }
    }
}

/// Builds a part that holds a text.
pub fn make_text_part(text: &str) -> (r: Json)
    ensures
        r@ == text_part(text@),
{
    Json::object().with("text", Json::text(text))
}

/// The arguments of a call, from their text and what reading it gave.
pub fn call_args(raw: &str, read: Result<Json, String>) -> (r: Json)
    ensures
        r@ == args_of(
            raw@,
            (match read {
                Ok(j) => Ok(j@),
                Err(e) => Err(e@),
            }),
        ),
{
    broadcast use group_json_models;

    match read {
        Ok(j) => match j {
            Json::Object(members) => Json::Object(members),
            _ => Json::object().with("value", j),
        },
        Err(_) => Json::object().with("_raw", Json::text(raw)),
    }
}

impl Gathered {
    /// Nothing gathered but the request's instructions.
    pub fn new(req: &Json) -> (r: Gathered)
        ensures
            r@ == gathered_start(req@),
    {
        let mut system: Vec<String> = Vec::new();
        if let Some(s) = req.text_at("instructions") {
            if !s.is_empty() {
                system.push(s.to_owned());
            }
        }
        assert(views(system@) =~= gathered_start(req@).system);
        let r = Gathered { system, contents: Contents::new(), call_names: Vec::new() };
        assert(name_models(r.call_names@) =~= seq![]);
        r
    }

    /// Adds a message.
    pub fn message(&mut self, item: &Json)
        ensures
            final(self)@ == old(self)@.message(item@),
    {
        let role = item.text_or("role", "user");
        let text = text_of_content(item.get("content"));
        if same_text(role, "system") || same_text(role, "developer") {
            let ghost before = self.system@;
            self.system.push(text);
            assert(views(self.system@) =~= views(before).push(text@));
        } else if same_text(role, "assistant") {
            self.contents.push_visible_model(make_text_part(text.as_str()));
        } else {
            self.contents.push(Role::User, make_text_part(text.as_str()));
        }
    }

    /// Adds a reasoning item.
    pub fn reasoning(&mut self, item: &Json)
        ensures
            final(self)@ == old(self)@.reasoning(item@),
    {
        if let Some(s) = item.text_at("encrypted_content") {
            if let Some(blob) = decode_blob(s) {
                self.contents.apply_blob(blob);
            }
        }
    }

    /// Adds a function call.
    pub fn function_call(&mut self, item: &Json)
        ensures
            final(self)@ == old(self)@.function_call(item@),
    {
        broadcast use group_json_models;

        let name = item.text_or("name", "");
        let call_id: &str = match item.get("call_id") {
            Some(v) => match v.as_str() {
                Some(s) => s,
                None => "",
            },
            None => item.text_or("id", ""),
        };
        proof {
            reveal_strlit("");
            assert(""@ =~= seq![]);
        }
        assert(call_id@ == call_id_of(item@));
        let ghost before = name_models(self.call_names@);
        self.call_names.push((call_id.to_owned(), name.to_owned()));
        assert(name_models(self.call_names@) =~= before.push((call_id@, name@)));
        assert(before.push((call_id@, name@)).drop_last() =~= before);
        let raw = item.text_or("arguments", "{}");
        let args = call_args(raw, read_json(raw));
        let call = Json::object().with("name", Json::text(name)).with("args", args);
        self.contents.push_visible_model(Json::object().with("functionCall", call));
    }

    /// The function name of a call id, or `tool`.
    fn name_of(&self, call_id: &str) -> (r: String)
        ensures
            r@ == (if self@.call_names.dom().contains(call_id@) {
                self@.call_names[call_id@]
            } else {
                "tool"@
            }),
    {
        let ghost all = name_models(self.call_names@);
        let ghost map = names_map(all);
        let mut i: usize = self.call_names.len();
        assert(all.take(i as int) =~= all);
        while i > 0
            invariant
                all == name_models(self.call_names@),
                map == names_map(all),
                i <= self.call_names@.len(),
                map.dom().contains(call_id@) == names_map(all.take(i as int)).dom().contains(
                    call_id@,
                ),
                map.dom().contains(call_id@) ==> map[call_id@] == names_map(
                    all.take(i as int),
                )[call_id@],
            decreases i,
        {
            i = i - 1;
            assert(all.take(i + 1).drop_last() =~= all.take(i as int));
            let entry = &self.call_names[i];
            if same_text(entry.0.as_str(), call_id) {
                return entry.1.clone();
            }
        }
        "tool".to_owned()
    }

    /// Adds an answer to a function call.
    pub fn function_call_output(&mut self, item: &Json)
        ensures
            final(self)@ == old(self)@.function_call_output(item@),
    {
        let call_id = item.text_or("call_id", "");
        let name = self.name_of(call_id);
        let output = function_output_text(item);
        let answer = Json::object().with("name", Json::text(name.as_str())).with(
            "response",
            Json::object().with("output", Json::text(output.as_str())),
        );
        self.contents.push(Role::User, Json::object().with("functionResponse", answer));
    }

    /// Adds an item, by its type.
    pub fn absorb(&mut self, item: &Json)
        ensures
            final(self)@ == old(self)@.absorb(item@),
    {
        let kind = item.text_or("type", "message");
        if same_text(kind, "message") {
            self.message(item);
        } else if same_text(kind, "reasoning") {
            self.reasoning(item);
        } else if same_text(kind, "function_call") {
            self.function_call(item);
        } else if same_text(kind, "function_call_output") {
            self.function_call_output(item);
        } else if same_text(kind, "web_search_call") {
            self.contents.push_visible_empty();
        }
    }
}

/// The system texts and the turns of a request.
pub fn build_contents(req: &Json) -> (r: (Vec<String>, Vec<Turn>))
    ensures
        views(r.0@) == gathered(req@).system,
        turn_models(r.1@) == request_turns(req@),
{
    let mut acc = Gathered::new(req);
    let ghost start = acc@;
    let ghost items = req@.list_at("input"@);
    if let Some(list) = req.list_at("input") {
        assert(items == models(list@));
        let n: usize = list.len();
        let mut i: usize = 0;
        assert(start.absorb_all(items.take(0)) == start);
        while i < n
            invariant
                n == list@.len(),
                i <= n,
                items == models(list@),
                acc@ == start.absorb_all(items.take(i as int)),
            decreases n - i,
        {
            acc.absorb(&list[i]);
            assert(items.take(i + 1).drop_last() =~= items.take(i as int));
            i = i + 1;
        }
        assert(items.take(n as int) =~= items);
    }
    assert(acc@ == gathered(req@));
    let Gathered { system, contents, call_names } = acc;
    let mut turns = contents.turns();
    if turns.len() == 0 {
        let mut parts: Vec<Json> = Vec::new();
        parts.push(make_text_part(""));
        assert(models(parts@) =~= seq![text_part(""@)]);
        turns.push(Turn { role: Role::User, parts });
        assert(turn_models(turns@) =~= request_turns(req@));
    }
    (system, turns)
}

/// A request always comes to at least one turn, each turn has a part, and
/// neighbouring turns have different roles.
pub proof fn law_request_turns_tidy(req: JsonModel)
    ensures
        request_turns(req).len() > 0,
        tidy(request_turns(req)),
{
    law_turns_are_tidy(said(gathered(req).contents.entries));
}

/// A reasoning item whose encrypted content is no blob of ours is passed over.
pub proof fn law_foreign_reasoning_ignored(g: GatheredModel, item: JsonModel)
    requires
        item.text_or("type"@, "message"@) == "reasoning"@,
        match item.text_at("encrypted_content"@) {
            Some(s) => blob_of_text(s) is None,
            None => true,
        },
    ensures
        g.absorb(item) == g,
{
    reveal_strlit("message");
    reveal_strlit("reasoning");
    assert("message"@.len() != "reasoning"@.len());
}

/// Whether an item is a function call of that id.
pub open spec fn calls_as(item: JsonModel, id: Seq<char>) -> bool {
    item.text_or("type"@, "message"@) == "function_call"@ && call_id_of(item) == id
}

proof fn lemma_name_stays(g: GatheredModel, items: Seq<JsonModel>, id: Seq<char>)
    requires
        g.call_names.dom().contains(id),
        forall|i: int| 0 <= i < items.len() ==> !calls_as(#[trigger] items[i], id),
    ensures
        g.absorb_all(items).call_names.dom().contains(id),
        g.absorb_all(items).call_names[id] == g.call_names[id],
    decreases items.len(),
{
    if items.len() > 0 {
        let front = items.drop_last();
        assert forall|i: int| 0 <= i < front.len() implies !calls_as(#[trigger] front[i], id) by {
            assert(front[i] == items[i]);
        }
        lemma_name_stays(g, front, id);
        assert(!calls_as(items[items.len() - 1], id));
    }
}

/// A call and its answer go under the same function name, whatever stands between
/// them, as long as no other call takes the id.
pub proof fn law_answer_has_the_call_name(
    g: GatheredModel,
    call: JsonModel,
    between: Seq<JsonModel>,
    answer: JsonModel,
)
    requires
        call.text_or("type"@, "message"@) == "function_call"@,
        answer.text_or("type"@, "message"@) == "function_call_output"@,
        answer.text_or("call_id"@, ""@) == call_id_of(call),
        forall|i: int| 0 <= i < between.len() ==> !calls_as(#[trigger] between[i], call_id_of(call)),
    ensures
        g.absorb(call).absorb_all(between).absorb(answer).contents == g.absorb(call).absorb_all(
            between,
        ).contents.push(
            Role::User,
            answer_part(call.text_or("name"@, ""@), output_text(answer)),
        ),
{
    reveal_strlit("message");
    reveal_strlit("reasoning");
    reveal_strlit("function_call");
    reveal_strlit("function_call_output");
    assert("message"@.len() == 7 && "reasoning"@.len() == 9);
    assert("function_call"@.len() == 13 && "function_call_output"@.len() == 20);
    lemma_name_stays(g.absorb(call), between, call_id_of(call));
}

/// The types of items and the roles of messages are told apart.
proof fn lemma_item_words()
    ensures
        "message"@ != "reasoning"@,
        "message"@ != "function_call"@,
        "message"@ != "function_call_output"@,
        "message"@ != "web_search_call"@,
        "reasoning"@ != "function_call"@,
        "reasoning"@ != "function_call_output"@,
        "reasoning"@ != "web_search_call"@,
        "function_call"@ != "function_call_output"@,
        "function_call"@ != "web_search_call"@,
        "function_call_output"@ != "web_search_call"@,
        "assistant"@ != "system"@,
        "assistant"@ != "developer"@,
        "name"@ != "args"@,
        "name"@ != "response"@,
        ""@ == Seq::<char>::empty(),
{
    reveal_strlit("message");
    reveal_strlit("reasoning");
    reveal_strlit("function_call");
    reveal_strlit("function_call_output");
    reveal_strlit("web_search_call");
    reveal_strlit("assistant");
    reveal_strlit("system");
    reveal_strlit("developer");
    reveal_strlit("name");
    reveal_strlit("args");
    reveal_strlit("response");
    reveal_strlit("");
    assert("message"@.len() == 7);
    assert("reasoning"@.len() == 9);
    assert("function_call"@.len() == 13);
    assert("function_call_output"@.len() == 20);
    assert("web_search_call"@.len() == 15);
    assert("assistant"@.len() == 9);
    assert("system"@.len() == 6);
    assert("developer"@.len() == 9);
    assert("name"@.len() == 4);
    assert("args"@.len() == 4);
    assert("response"@.len() == 8);
    assert(""@.len() == 0);
    assert("reasoning"@[0] != "assistant"@[0]);
    assert("reasoning"@[0] != "developer"@[0]);
    assert("assistant"@[0] != "developer"@[0]);
    assert("name"@[0] != "args"@[0]);
    assert(""@ =~= Seq::<char>::empty());
}

/// Whether an item is of the type; one that names no type is a message.
pub open spec fn is_of_type(item: JsonModel, kind: Seq<char>) -> bool {
    item.get("type"@) == Some(JsonModel::Text(kind)) || (kind == "message"@ && !(item.get(
        "type"@,
    ) matches Some(JsonModel::Text(_))))
}

/// Whether nothing was gathered but one more part, which is said at the end. What
/// the model says is of a visible item.
pub open spec fn one_more_part(
    before: GatheredModel,
    after: GatheredModel,
    role: Role,
    part: JsonModel,
) -> bool {
    &&& after.system == before.system
    &&& after.contents.entries == before.contents.entries.push(
        EntryModel { role, part, shown: role == Role::Model },
    )
}

/// A message's text is the text of its content, whole; and where the content is a
/// list, the texts of its items, each on a line of its own. An item without a text
/// adds nothing.
pub proof fn law_content_text(s: Seq<char>, items: Seq<JsonModel>, item: JsonModel, t: Seq<char>)
    ensures
        content_text(Some(JsonModel::Text(s))) == s,
        content_text(None).len() == 0,
        !(item is Text) && !(item is List) ==> content_text(Some(item)).len() == 0,
        content_text(Some(JsonModel::List(seq![]))).len() == 0,
        item.get("text"@) == Some(JsonModel::Text(t)) ==> content_text(
            Some(JsonModel::List(seq![item])),
        ) == t,
        item.get("text"@) == Some(JsonModel::Text(t)) && (exists|i: int|
            0 <= i < items.len() && (#[trigger] items[i]).get("text"@) matches Some(
                JsonModel::Text(_),
            )) ==> content_text(Some(JsonModel::List(items.push(item)))) == content_text(
            Some(JsonModel::List(items)),
        ) + "\n"@ + t,
        !(item.get("text"@) matches Some(JsonModel::Text(_))) ==> content_text(
            Some(JsonModel::List(items.push(item))),
        ) == content_text(Some(JsonModel::List(items))),
{
    assert(items.push(item).drop_last() =~= items);
    let one = seq![item];
    assert(one.drop_last() =~= seq![]);
    if item.get("text"@) == Some(JsonModel::Text(t)) {
        assert(item_texts(one.drop_last()) =~= seq![]);
        assert(item_texts(one) =~= seq![t]);
        law_joined(seq![], "\n"@, t);
        law_joined(item_texts(items), "\n"@, t);
        if exists|i: int|
            0 <= i < items.len() && (#[trigger] items[i]).get("text"@) matches Some(
                JsonModel::Text(_),
            ) {
            let i = choose|i: int|
                0 <= i < items.len() && (#[trigger] items[i]).get("text"@) matches Some(
                    JsonModel::Text(_),
                );
            lemma_some_text(items, i);
        }
    }
}

proof fn lemma_some_text(items: Seq<JsonModel>, i: int)
    requires
        0 <= i < items.len(),
        items[i].get("text"@) matches Some(JsonModel::Text(_)),
    ensures
        item_texts(items).len() > 0,
    decreases items.len(),
{
    if i < items.len() - 1 {
        lemma_some_text(items.drop_last(), i);
    }
}

/// A message goes to the system texts where a system or a developer says it, and
/// else becomes one text part, of the model where the assistant says it and of the
/// user where anyone else does; its text is that of its content.
pub proof fn law_message_is_said(g: GatheredModel, item: JsonModel, role: Seq<char>, s: Seq<char>)
    requires
        is_of_type(item, "message"@),
        item.get("role"@) == Some(JsonModel::Text(role)) || (role == "user"@ && !(item.get(
            "role"@,
        ) matches Some(JsonModel::Text(_)))),
        item.get("content"@) == Some(JsonModel::Text(s)) || content_text(item.get("content"@)) == s,
    ensures
        g.absorb(item).call_names == g.call_names,
        role == "system"@ || role == "developer"@ ==> g.absorb(item).system == g.system.push(s)
            && g.absorb(item).contents == g.contents,
        role == "assistant"@ ==> one_more_part(
            g,
            g.absorb(item),
            Role::Model,
            JsonModel::Object(map!["text"@ => JsonModel::Text(s)]),
        ) && g.absorb(item).contents.visible == g.contents.visible.push(true),
        role != "system"@ && role != "developer"@ && role != "assistant"@ ==> one_more_part(
            g,
            g.absorb(item),
            Role::User,
            JsonModel::Object(map!["text"@ => JsonModel::Text(s)]),
        ) && g.absorb(item).contents.visible == g.contents.visible,
{
    lemma_item_words();
    let part = JsonModel::Object(map!["text"@ => JsonModel::Text(s)]);
    assert(part->Object_0 =~= text_part(s)->Object_0);
}

/// The text that a tool's output goes back as: a text as it is, whatever its
/// length; a list as a message's content is; an object as the text of its content,
/// or as its JSON text where that is empty; any other value as its JSON text; and
/// nothing where there is no output.
pub open spec fn goes_back_as(output: Option<JsonModel>, text: Seq<char>) -> bool {
    match output {
        Some(JsonModel::Text(s)) => text == s,
        Some(JsonModel::List(_)) => text == content_text(output),
        Some(JsonModel::Object(_)) => if content_text(output->0.get("content"@)).len() == 0 {
            text == json_text(output->0)
        } else {
            text == content_text(output->0.get("content"@))
        },
        Some(v) => text == json_text(v),
        None => text.len() == 0,
    }
}

/// The text that a part gives back as the output of a tool.
pub open spec fn output_in(part: JsonModel) -> Option<JsonModel> {
    match part.get("functionResponse"@) {
        Some(r) => match r.get("response"@) {
            Some(x) => x.get("output"@),
            None => None,
        },
        None => None,
    }
}

/// Whether a part gives that output of a tool back.
pub open spec fn carries(part: JsonModel, output: Option<JsonModel>) -> bool {
    output_in(part) matches Some(JsonModel::Text(text)) && goes_back_as(output, text)
}

/// A function call output becomes one part of the user, which holds nothing but a
/// `functionResponse`: under `name` the function that the call id stands for, or
/// `tool`, and under `response` nothing but the output, whole.
pub proof fn law_output_is_answered(g: GatheredModel, item: JsonModel, id: Seq<char>, s: Seq<char>)
    requires
        is_of_type(item, "function_call_output"@),
        item.get("call_id"@) == Some(JsonModel::Text(id)) || (id == ""@ && !(item.get(
            "call_id"@,
        ) matches Some(JsonModel::Text(_)))),
    ensures
        ({
            let after = g.absorb(item);
            let part = after.contents.entries.last().part;
            let answer = part.get("functionResponse"@)->0;
            &&& one_more_part(g, after, Role::User, part)
            &&& after.contents.visible == g.contents.visible
            &&& after.call_names == g.call_names
            &&& part is Object && part->Object_0.dom() == set!["functionResponse"@]
            &&& answer is Object && answer->Object_0.dom() == set!["name"@, "response"@]
            &&& answer.get("response"@)->0 is Object && answer.get(
                "response"@,
            )->0->Object_0.dom() == set!["output"@]
            &&& carries(part, item.get("output"@))
            &&& item.get("output"@) == Some(JsonModel::Text(s)) ==> output_in(part) == Some(
                JsonModel::Text(s),
            )
            &&& answer.get("name"@) == Some(
                JsonModel::Text(
                    if g.call_names.dom().contains(id) {
                        g.call_names[id]
                    } else {
                        "tool"@
                    },
                ),
            )
        }),
{
    lemma_item_words();
    let after = g.absorb(item);
    let part = after.contents.entries.last().part;
    let answer = part.get("functionResponse"@)->0;
    assert(part->Object_0.dom() =~= set!["functionResponse"@]);
    assert(answer->Object_0.dom() =~= set!["name"@, "response"@]);
    assert(answer.get("response"@)->0->Object_0.dom() =~= set!["output"@]);
}

/// A function call becomes one part of the model, which holds nothing but a
/// `functionCall`: the name, and the arguments that the text of the call reads as.
/// An object goes as it is, another value under `value`, and text that is no JSON,
/// whole, under `_raw`. The id of the call, which is `call_id` or else `id`, stands for
/// the name from then on, and every other id for what it stood for.
pub proof fn law_call_is_made(
    g: GatheredModel,
    item: JsonModel,
    name: Seq<char>,
    raw: Seq<char>,
    id: Seq<char>,
    other: Seq<char>,
)
    requires
        is_of_type(item, "function_call"@),
        item.get("name"@) == Some(JsonModel::Text(name)) || (name == ""@ && !(item.get(
            "name"@,
        ) matches Some(JsonModel::Text(_)))),
        item.get("arguments"@) == Some(JsonModel::Text(raw)) || (raw == "{}"@ && !(item.get(
            "arguments"@,
        ) matches Some(JsonModel::Text(_)))),
        item.get("call_id"@) == Some(JsonModel::Text(id)) || (item.get("call_id"@) is None
            && item.get("id"@) == Some(JsonModel::Text(id))) || (id.len() == 0 && !(item.get(
            "call_id"@,
        ) matches Some(JsonModel::Text(_))) && (item.get("call_id"@) is Some || !(item.get(
            "id"@,
        ) matches Some(JsonModel::Text(_))))),
    ensures
        ({
            let after = g.absorb(item);
            let part = after.contents.entries.last().part;
            let call = part.get("functionCall"@)->0;
            let args = call.get("args"@)->0;
            &&& one_more_part(g, after, Role::Model, part)
            &&& after.contents.visible == g.contents.visible.push(true)
            &&& part is Object && part->Object_0.dom() == set!["functionCall"@]
            &&& call is Object && call->Object_0.dom() == set!["name"@, "args"@]
            &&& call.get("name"@) == Some(JsonModel::Text(name))
            &&& (match read_text(raw) {
                Ok(JsonModel::Object(m)) => args == JsonModel::Object(m),
                Ok(v) => args == JsonModel::Object(map!["value"@ => v]),
                Err(_) => args == JsonModel::Object(map!["_raw"@ => JsonModel::Text(raw)]),
            })
            &&& after.call_names.dom().contains(id) && after.call_names[id] == name
            &&& other != id ==> (after.call_names.dom().contains(other)
                <==> g.call_names.dom().contains(other))
            &&& other != id && g.call_names.dom().contains(other) ==> after.call_names[other]
                == g.call_names[other]
        }),
{
    lemma_item_words();
    let after = g.absorb(item);
    let part = after.contents.entries.last().part;
    let call = part.get("functionCall"@)->0;
    assert(id.len() == 0 ==> id =~= Seq::<char>::empty());
    assert(part->Object_0.dom() =~= set!["functionCall"@]);
    assert(call->Object_0.dom() =~= set!["name"@, "args"@]);
    match read_text(raw) {
        Ok(JsonModel::Object(m)) => {},
        Ok(v) => {
            assert(empty_object().with("value"@, v)->Object_0 =~= map!["value"@ => v]);
        },
        Err(_) => {
            assert(empty_object().with("_raw"@, JsonModel::Text(raw))->Object_0
                =~= map!["_raw"@ => JsonModel::Text(raw)]);
        },
    }
}

/// A reasoning item whose encrypted content holds a blob applies it and nothing
/// else; a web search is remembered as an item without parts; and an item of any
/// other type changes nothing.
pub proof fn law_other_items(g: GatheredModel, item: JsonModel, s: Seq<char>, kind: Seq<char>)
    ensures
        is_of_type(item, "reasoning"@) && item.get("encrypted_content"@) == Some(
            JsonModel::Text(s),
        ) && blob_of_text(s) is Some ==> g.absorb(item) == (GatheredModel {
            contents: g.contents.apply_blob(blob_of_text(s)->0),
            ..g
        }),
        is_of_type(item, "web_search_call"@) ==> g.absorb(item) == (GatheredModel {
            contents: ContentsModel {
                entries: g.contents.entries,
                visible: g.contents.visible.push(false),
            },
            ..g
        }),
        item.get("type"@) == Some(JsonModel::Text(kind)) && kind != "message"@ && kind
            != "reasoning"@ && kind != "function_call"@ && kind != "function_call_output"@ && kind
            != "web_search_call"@ ==> g.absorb(item) == g,
{
    lemma_item_words();
}

/// A request is gathered from its instructions, where it has any, and then from
/// every item of its input, one after the other.
pub proof fn law_request_is_gathered(req: JsonModel, s: Seq<char>, items: Seq<JsonModel>)
    ensures
        req.get("instructions"@) == Some(JsonModel::Text(s)) && s.len() > 0 ==> gathered_start(
            req,
        ).system == seq![s],
        !(req.get("instructions"@) matches Some(JsonModel::Text(_))) ==> gathered_start(
            req,
        ).system.len() == 0,
        req.get("instructions"@) == Some(JsonModel::Text(s)) && s.len() == 0 ==> gathered_start(
            req,
        ).system.len() == 0,
        gathered_start(req).contents.entries.len() == 0,
        gathered_start(req).contents.visible.len() == 0,
        gathered_start(req).call_names.dom() == Set::<Seq<char>>::empty(),
        req.get("input"@) == Some(JsonModel::List(items)) ==> gathered(req) == gathered_start(
            req,
        ).absorb_all(items),
        !(req.get("input"@) matches Some(JsonModel::List(_))) ==> gathered(req) == gathered_start(
            req,
        ),
{
}

/// Items are absorbed in order: none changes nothing, and each further one comes
/// after those before it.
pub proof fn law_absorbed_in_order(g: GatheredModel, items: Seq<JsonModel>, item: JsonModel)
    ensures
        g.absorb_all(seq![]) == g,
        g.absorb_all(items.push(item)) == g.absorb_all(items).absorb(item),
{
    assert(items.push(item).drop_last() =~= items);
}

/// A part that no blob can replace stays where items are absorbed.
proof fn lemma_plain_stays(g: GatheredModel, item: JsonModel, e: EntryModel)
    requires
        g.contents.entries.contains(e),
        !e.shown,
    ensures
        g.absorb(item).contents.entries.contains(e),
{
    let i = choose|i: int| 0 <= i < g.contents.entries.len() && g.contents.entries[i] == e;
    let before = g.contents.entries;
    let after = g.absorb(item).contents.entries;
    lemma_item_words();
    if is_of_type(item, "reasoning"@) {
        if let Some(JsonModel::Text(s)) = item.get("encrypted_content"@) {
            if let Some(blob) = blob_of_text(s) {
                lemma_plain_entry_stays(g.contents, blob, e);
            }
        }
    } else if after.len() > before.len() {
        assert(after[i] == e);
    }
}

/// Every output of the request's input, whatever else the input holds, goes back in
/// a part that the user says: a text exactly as it is.
pub proof fn law_every_output_goes_back(req: JsonModel, items: Seq<JsonModel>, i: int)
    requires
        req.get("input"@) == Some(JsonModel::List(items)),
        0 <= i < items.len(),
        items[i].get("type"@) == Some(JsonModel::Text("function_call_output"@)),
    ensures
        exists|k: int|
            0 <= k < gathered(req).contents.entries.len() && (
            #[trigger] gathered(req).contents.entries[k]).role == Role::User && carries(
                gathered(req).contents.entries[k].part,
                items[i].get("output"@),
            ),
{
    let g = gathered_start(req);
    let before = g.absorb_all(items.take(i));
    let id = items[i].text_or("call_id"@, ""@);
    law_output_is_answered(before, items[i], id, seq![]);
    assert(items.take(i + 1).drop_last() =~= items.take(i));
    let now = g.absorb_all(items.take(i + 1));
    assert(now == before.absorb(items[i]));
    let e = now.contents.entries.last();
    lemma_item_words();
    assert(now.contents.entries.contains(e));
    lemma_stays_to_the_end(g, items, i + 1, e);
    assert(items.take(items.len() as int) =~= items);
    let all = gathered(req).contents.entries;
    let k = choose|k: int| 0 <= k < all.len() && all[k] == e;
    assert(all[k].role == Role::User);
}

proof fn lemma_stays_to_the_end(g: GatheredModel, items: Seq<JsonModel>, from: int, e: EntryModel)
    requires
        0 <= from <= items.len(),
        g.absorb_all(items.take(from)).contents.entries.contains(e),
        !e.shown,
    ensures
        g.absorb_all(items).contents.entries.contains(e),
    decreases items.len() - from,
{
    if from == items.len() {
        assert(items.take(from) =~= items);
    } else {
        assert(items.take(from + 1).drop_last() =~= items.take(from));
        lemma_plain_stays(g.absorb_all(items.take(from)), items[from], e);
        lemma_stays_to_the_end(g, items, from + 1, e);
    }
}

}
