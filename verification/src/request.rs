//! The body of a Gemini `generateContent` request, built from a Responses request.

use vstd::prelude::*;

use crate::contents::{flattened, law_turns_keep_parts, lemma_said_stands, said, turn_models, Role, Turn, TurnModel};
use crate::input::{build_contents, carries, gathered, law_every_output_goes_back, make_text_part, request_turns, text_part};
use crate::json::{copy_list, empty_object, group_json_models, models, Json, JsonModel, NumberModel};
use crate::schema::{sanitize_schema, sanitized as sanitized_schema};
use crate::text::{join, joined, same_text, starts_with};

verus! {

/// The type of a tool; empty where it names none.
pub open spec fn tool_kind(tool: JsonModel) -> Seq<char> {
    tool.text_or("type"@, ""@)
}

/// The tools that an entry of the request's list stands for: those of a
/// namespace, or the entry itself.
pub open spec fn inner_tools(tool: JsonModel) -> Seq<JsonModel> {
    if tool_kind(tool) == "namespace"@ {
        tool.list_at("tools"@)
    } else {
        seq![tool]
    }
}

/// The tools of a list, with namespaces opened.
pub open spec fn flat_tools(tools: Seq<JsonModel>) -> Seq<JsonModel>
    decreases tools.len(),
{
    if tools.len() == 0 {
        seq![]
    } else {
        flat_tools(tools.drop_last()) + inner_tools(tools.last())
    }
}

/// Whether a tool is a web search.
pub open spec fn is_search(tool: JsonModel) -> bool {
    "web_search"@.is_prefix_of(tool_kind(tool))
}

/// Whether a tool is a function.
pub open spec fn is_function(tool: JsonModel) -> bool {
    !is_search(tool) && tool_kind(tool) == "function"@
}

/// A function tool's parameter schema; that of an empty object where it has none.
pub open spec fn parameters_of(tool: JsonModel) -> JsonModel {
    match tool.get("parameters"@) {
        Some(p) => p,
        None => empty_object().with("type"@, JsonModel::Text("object"@)).with(
            "properties"@,
            empty_object(),
        ),
    }
}

/// The declaration of a function tool, with its schema as it is or reduced.
pub open spec fn declaration(tool: JsonModel, sanitized: bool) -> JsonModel {
    let named = empty_object().with(
        "name"@,
        match tool.get("name"@) {
            Some(n) => n,
            None => JsonModel::Null,
        },
    ).with(
        "description"@,
        match tool.get("description"@) {
            Some(d) => d,
            None => JsonModel::Text(""@),
        },
    );
    if sanitized {
        named.with("parameters"@, sanitized_schema(parameters_of(tool)))
    } else {
        named.with("parametersJsonSchema"@, parameters_of(tool))
    }
}

/// The declarations of the function tools, in order.
pub open spec fn declarations(tools: Seq<JsonModel>, sanitized: bool) -> Seq<JsonModel>
    decreases tools.len(),
{
    if tools.len() == 0 {
        seq![]
    } else if is_function(tools.last()) {
        declarations(tools.drop_last(), sanitized).push(declaration(tools.last(), sanitized))
    } else {
        declarations(tools.drop_last(), sanitized)
    }
}

/// Whether one of the tools is a web search.
pub open spec fn any_search(tools: Seq<JsonModel>) -> bool {
    exists|i: int| 0 <= i < tools.len() && is_search(#[trigger] tools[i])
}

/// The `tools` of the Gemini request: the search where it is used, then the
/// declarations where there are any.
pub open spec fn gemini_tools(tools: Seq<JsonModel>, sanitized: bool) -> Seq<JsonModel> {
    let search = if any_search(tools) {
        seq![empty_object().with("googleSearch"@, empty_object())]
    } else {
        seq![]
    };
    let decls = declarations(tools, sanitized);
    if decls.len() > 0 {
        search.push(empty_object().with("functionDeclarations"@, JsonModel::List(decls)))
    } else {
        search
    }
}

/// The tools of a request, with namespaces opened.
pub open spec fn request_tools(req: JsonModel) -> Seq<JsonModel> {
    flat_tools(req.list_at("tools"@))
}

/// The tools of a Gemini request.
pub struct Tools {
    pub tools: Vec<Json>,
    pub uses_search: bool,
}

/// Builds the declaration of a function tool.
fn make_declaration(t: &Json, sanitized: bool) -> (r: Json)
    ensures
        r@ == declaration(t@, sanitized),
{
    let params = match t.get("parameters") {
        Some(p) => p.copy(),
        None => Json::object().with("type", Json::text("object")).with(
            "properties",
            Json::object(),
        ),
    };
    let name = match t.get("name") {
        Some(n) => n.copy(),
        None => Json::Null,
    };
    let description = match t.get("description") {
        Some(d) => d.copy(),
        None => Json::text(""),
    };
    let d = Json::object().with("name", name).with("description", description);
    if sanitized {
        d.with("parameters", sanitize_schema(&params))
    } else {
        d.with("parametersJsonSchema", params)
    }
}

/// The tools of a request as a flat list.
fn open_namespaces(req: &Json) -> (r: Vec<Json>)
    ensures
        models(r@) == request_tools(req@),
{
    broadcast use group_json_models;

    let mut out: Vec<Json> = Vec::new();
    let ghost all = req@.list_at("tools"@);
    assert(models(out@) =~= seq![]);
    if let Some(list) = req.list_at("tools") {
        assert(all == models(list@));
        let n: usize = list.len();
        let mut i: usize = 0;
        while i < n
            invariant
                n == list@.len(),
                i <= n,
                all == models(list@),
                models(out@) == flat_tools(all.take(i as int)),
            decreases n - i,
        {
            let tool = &list[i];
            assert(all.take(i + 1).drop_last() =~= all.take(i as int));
            assert(all.take(i + 1).last() == tool@);
            let ghost before = models(out@);
            if same_text(tool.text_or("type", ""), "namespace") {
                match tool.list_at("tools") {
                    Some(inner) => {
                        let mut more = copy_list(inner);
                        let ghost x = out@;
                        let ghost y = more@;
                        out.append(&mut more);
                        assert(models(out@) =~= models(x) + models(y));
                    },
                    None => {
                        assert(before =~= before + inner_tools(tool@));
                    },
                }
            } else {
                out.push(tool.copy());
                assert(before.push(tool@) =~= before + seq![tool@]);
            }
            i = i + 1;
        }
        assert(all.take(n as int) =~= all);
    }
    out
}

/// The tools of the Gemini request.
pub fn build_tools(req: &Json, sanitized: bool) -> (r: Tools)
    ensures
        models(r.tools@) == gemini_tools(request_tools(req@), sanitized),
        r.uses_search == any_search(request_tools(req@)),
{
    broadcast use group_json_models;

    let flat = open_namespaces(req);
    let ghost all = request_tools(req@);
    let mut decls: Vec<Json> = Vec::new();
    let mut uses_search = false;
    let n: usize = flat.len();
    let mut i: usize = 0;
    assert(models(decls@) =~= seq![]);
    while i < n
        invariant
            n == flat@.len(),
            i <= n,
            all == models(flat@),
            models(decls@) == declarations(all.take(i as int), sanitized),
            uses_search == any_search(all.take(i as int)),
        decreases n - i,
    {
        let t = &flat[i];
        let ghost front = all.take(i as int);
        let ghost next = all.take(i + 1);
        assert(next.drop_last() =~= front);
        assert(next.last() == t@);
        assert(any_search(next) == (any_search(front) || is_search(t@))) by {
            if any_search(front) {
                let j = choose|j: int| 0 <= j < front.len() && is_search(#[trigger] front[j]);
                assert(is_search(next[j]));
            }
            if is_search(t@) {
                assert(is_search(next[i as int]));
            }
            if any_search(next) && !is_search(t@) {
                let j = choose|j: int| 0 <= j < next.len() && is_search(#[trigger] next[j]);
                assert(is_search(front[j]));
            }
        }
        let kind = t.text_or("type", "");
        if starts_with(kind, "web_search") {
            uses_search = true;
        } else if same_text(kind, "function") {
            decls.push(make_declaration(t, sanitized));
        }
        i = i + 1;
    }
    assert(all.take(n as int) =~= all);
    let mut tools: Vec<Json> = Vec::new();
    assert(models(tools@) =~= seq![]);
    if uses_search {
        tools.push(Json::object().with("googleSearch", Json::object()));
        assert(models(tools@) =~= seq![empty_object().with("googleSearch"@, empty_object())]);
    }
    if decls.len() > 0 {
        tools.push(Json::object().with("functionDeclarations", Json::list(decls)));
    }
    Tools { tools, uses_search }
}

/// A turn as it stands in the request.
pub open spec fn turn_json(turn: TurnModel) -> JsonModel {
    empty_object().with(
        "role"@,
        JsonModel::Text(
            match turn.role {
                Role::User => "user"@,
                Role::Model => "model"@,
            },
        ),
    ).with("parts"@, JsonModel::List(turn.parts))
}

/// The turns as they stand in the request.
pub open spec fn turns_json(turns: Seq<TurnModel>) -> Seq<JsonModel> {
    turns.map_values(|t: TurnModel| turn_json(t))
}

/// The value of `systemInstruction`: the system texts in one part.
pub open spec fn system_json(system: Seq<Seq<char>>) -> JsonModel {
    empty_object().with(
        "parts"@,
        JsonModel::List(seq![text_part(joined(system, "\n\n"@))]),
    )
}

/// The calling mode that a tool choice asks for.
pub open spec fn calling_mode(choice: Option<Seq<char>>) -> Option<Seq<char>> {
    match choice {
        Some(c) => if c == "required"@ {
            Some("ANY"@)
        } else if c == "none"@ {
            Some("NONE"@)
        } else {
            None
        },
        None => None,
    }
}

/// The value of `toolConfig`, with no member where nothing is configured.
pub open spec fn tool_config(uses_search: bool, mode: Option<Seq<char>>) -> JsonModel {
    let search = if uses_search {
        empty_object().with("includeServerSideToolInvocations"@, JsonModel::Bool(true))
    } else {
        empty_object()
    };
    match mode {
        Some(m) => search.with(
            "functionCallingConfig"@,
            empty_object().with("mode"@, JsonModel::Text(m)),
        ),
        None => search,
    }
}

/// The thinking level of an effort, for the models that have levels.
pub open spec fn thinking_level(effort: Option<Seq<char>>) -> Option<Seq<char>> {
    match effort {
        Some(e) => if e == "minimal"@ || e == "low"@ {
            Some("low"@)
        } else if e == "medium"@ {
            Some("medium"@)
        } else if e == "high"@ || e == "xhigh"@ {
            Some("high"@)
        } else {
            None
        },
        None => None,
    }
}

/// The value of `thinkingConfig`: Gemini 3 models take a level, others a budget
/// of zero for the least effort.
pub open spec fn thinking_config(model: Seq<char>, effort: Option<Seq<char>>) -> JsonModel {
    let thoughts = empty_object().with("includeThoughts"@, JsonModel::Bool(true));
    if "gemini-3"@.is_prefix_of(model) {
        match thinking_level(effort) {
            Some(level) => thoughts.with("thinkingLevel"@, JsonModel::Text(level)),
            None => thoughts,
        }
    } else if effort == Some("minimal"@) {
        thoughts.with("thinkingBudget"@, JsonModel::Number(NumberModel::Unsigned(0)))
    } else {
        thoughts
    }
}

/// The reasoning effort that a request asks for.
pub open spec fn effort_of(req: JsonModel) -> Option<Seq<char>> {
    match req.get("reasoning"@) {
        Some(r) => r.text_at("effort"@),
        None => None,
    }
}

/// The body of the Gemini request.
pub open spec fn gemini_request(req: JsonModel, sanitized: bool) -> JsonModel {
    let system = gathered(req).system;
    let tools = request_tools(req);
    let config = tool_config(any_search(tools), calling_mode(req.text_at("tool_choice"@)));
    let contents = empty_object().with(
        "contents"@,
        JsonModel::List(turns_json(request_turns(req))),
    );
    let instructed = if system.len() > 0 {
        contents.with("systemInstruction"@, system_json(system))
    } else {
        contents
    };
    let equipped = if gemini_tools(tools, sanitized).len() > 0 {
        let with_tools = instructed.with("tools"@, JsonModel::List(gemini_tools(tools, sanitized)));
        if any_search(tools) || calling_mode(req.text_at("tool_choice"@)) is Some {
            with_tools.with("toolConfig"@, config)
        } else {
            with_tools
        }
    } else {
        instructed
    };
    equipped.with(
        "generationConfig"@,
        empty_object().with(
            "thinkingConfig"@,
            thinking_config(req.text_or("model"@, ""@), effort_of(req)),
        ),
    )
}

/// The turns as they stand in the request.
fn make_turns(turns: Vec<Turn>) -> (r: Vec<Json>)
    ensures
        models(r@) == turns_json(turn_models(turns@)),
{
    broadcast use group_json_models;

    let ghost all = turns_json(turn_models(turns@));
    let mut out: Vec<Json> = Vec::new();
    let n: usize = turns.len();
    let mut i: usize = 0;
    while i < n
        invariant
            n == turns@.len(),
            i <= n,
            all == turns_json(turn_models(turns@)),
            models(out@) == all.take(i as int),
        decreases n - i,
    {
        let turn = &turns[i];
        let role = match turn.role {
            Role::User => "user",
            Role::Model => "model",
        };
        let parts = copy_list(&turn.parts);
        out.push(Json::object().with("role", Json::text(role)).with("parts", Json::list(parts)));
        assert(all.take(i + 1) =~= all.take(i as int).push(turn_json(turn@)));
        i = i + 1;
    }
    assert(all.take(n as int) =~= all);
    out
}

/// The calling mode that a tool choice asks for.
fn mode_of(choice: Option<&str>) -> (r: Option<&'static str>)
    ensures
        match r {
            Some(m) => calling_mode(
                (match choice {
                    Some(c) => Some(c@),
                    None => None,
                }),
            ) == Some(m@),
            None => calling_mode(
                (match choice {
                    Some(c) => Some(c@),
                    None => None,
                }),
            ) is None,
        },
{
    match choice {
        Some(c) => {
            if same_text(c, "required") {
                Some("ANY")
            } else if same_text(c, "none") {
                Some("NONE")
            } else {
                None
            }
        },
        None => None,
    }
}

/// The value of `toolConfig`.
fn make_tool_config(uses_search: bool, mode: Option<&'static str>) -> (r: Json)
    ensures
        r@ == tool_config(
            uses_search,
            (match mode {
                Some(m) => Some(m@),
                None => None,
            }),
        ),
{
    let mut config = Json::object();
    if uses_search {
        config = config.with("includeServerSideToolInvocations", Json::Bool(true));
    }
    if let Some(mode) = mode {
        config = config.with("functionCallingConfig", Json::object().with("mode", Json::text(mode)));
    }
    config
}

/// The value of `thinkingConfig`.
fn make_thinking_config(model: &str, effort: Option<&str>) -> (r: Json)
    ensures
        r@ == thinking_config(
            model@,
            (match effort {
                Some(e) => Some(e@),
                None => None,
            }),
        ),
{
    let thinking = Json::object().with("includeThoughts", Json::Bool(true));
    let effort = match effort {
        Some(e) => e,
        None => return thinking,
    };
    if starts_with(model, "gemini-3") {
        if same_text(effort, "minimal") || same_text(effort, "low") {
            thinking.with("thinkingLevel", Json::text("low"))
        } else if same_text(effort, "medium") {
            thinking.with("thinkingLevel", Json::text("medium"))
        } else if same_text(effort, "high") || same_text(effort, "xhigh") {
            thinking.with("thinkingLevel", Json::text("high"))
        } else {
            thinking
        }
    } else if same_text(effort, "minimal") {
        thinking.with("thinkingBudget", Json::number(0))
    } else {
        thinking
    }
}

/// Builds the Gemini request body. `sanitized` selects the reduced schemas that
/// are used when Gemini rejects `parametersJsonSchema`.
pub fn build_gemini_request(req: &Json, sanitized: bool) -> (r: Json)
    ensures
        r@ == gemini_request(req@, sanitized),
{
    broadcast use group_json_models;

    let (system, turns) = build_contents(req);
    let mut body = Json::object().with("contents", Json::list(make_turns(turns)));
    if system.len() > 0 {
        let text = join(&system, "\n\n");
        let parts = Json::list_of(make_text_part(text.as_str()));
        body = body.with("systemInstruction", Json::object().with("parts", parts));
    }
    let tools = build_tools(req, sanitized);
    if tools.tools.len() > 0 {
        body = body.with("tools", Json::list(tools.tools));
        let mode = mode_of(req.text_at("tool_choice"));
        if tools.uses_search || mode.is_some() {
            body = body.with("toolConfig", make_tool_config(tools.uses_search, mode));
        }
    }
    let model = req.text_or("model", "");
    let effort = match req.get("reasoning") {
        Some(r) => r.text_at("effort"),
        None => None,
    };
    let thinking = make_thinking_config(model, effort);
    body.with("generationConfig", Json::object().with("thinkingConfig", thinking))
}

/// The `contents` of the request are its turns.
pub proof fn lemma_contents(req: JsonModel, sanitized: bool)
    ensures
        gemini_request(req, sanitized).get("contents"@) == Some(
            JsonModel::List(turns_json(request_turns(req))),
        ),
{
    reveal_strlit("tools");
    reveal_strlit("toolConfig");
    reveal_strlit("generationConfig");
    reveal_strlit("systemInstruction");
    reveal_strlit("contents");
    assert("contents"@.len() == 8 && "tools"@.len() == 5 && "toolConfig"@.len() == 10);
    assert("generationConfig"@.len() == 16 && "systemInstruction"@.len() == 17);
}

/// Reducing the schemas changes nothing of the request but its `tools`.
pub proof fn law_sanitized_changes_tools_only(req: JsonModel, key: Seq<char>)
    requires
        key != "tools"@,
    ensures
        gemini_request(req, true).get(key) == gemini_request(req, false).get(key),
{
    lemma_declarations_len(request_tools(req));
    reveal_strlit("tools");
    reveal_strlit("toolConfig");
    reveal_strlit("generationConfig");
    reveal_strlit("systemInstruction");
    reveal_strlit("contents");
}

/// Reduced or not, the same tools are declared.
proof fn lemma_declarations_len(tools: Seq<JsonModel>)
    ensures
        declarations(tools, true).len() == declarations(tools, false).len(),
    decreases tools.len(),
{
    if tools.len() > 0 {
        lemma_declarations_len(tools.drop_last());
    }
}

/// A namespace stands for its tools: opening it in place changes nothing.
pub proof fn law_namespace_is_its_tools(before: Seq<JsonModel>, namespace: JsonModel)
    requires
        tool_kind(namespace) == "namespace"@,
        forall|i: int|
            0 <= i < namespace.list_at("tools"@).len() ==> tool_kind(
                #[trigger] namespace.list_at("tools"@)[i],
            ) != "namespace"@,
    ensures
        flat_tools(before.push(namespace)) == flat_tools(before + namespace.list_at("tools"@)),
{
    let inner = namespace.list_at("tools"@);
    assert(before.push(namespace).drop_last() =~= before);
    lemma_flat_plain(before, inner);
}

proof fn lemma_flat_plain(before: Seq<JsonModel>, plain: Seq<JsonModel>)
    requires
        forall|i: int| 0 <= i < plain.len() ==> tool_kind(#[trigger] plain[i]) != "namespace"@,
    ensures
        flat_tools(before + plain) == flat_tools(before) + plain,
    decreases plain.len(),
{
    if plain.len() == 0 {
        assert(before + plain =~= before);
        assert(flat_tools(before) + plain =~= flat_tools(before));
    } else {
        let front = plain.drop_last();
        assert forall|i: int| 0 <= i < front.len() implies tool_kind(#[trigger] front[i])
            != "namespace"@ by {
            assert(tool_kind(plain[i]) != "namespace"@);
        }
        lemma_flat_plain(before, front);
        assert((before + plain).drop_last() =~= before + front);
        assert((before + plain).last() == plain.last());
        assert(tool_kind(plain[plain.len() - 1]) != "namespace"@);
        assert(flat_tools(before) + front + seq![plain.last()] =~= flat_tools(before) + plain);
    }
}

/// Whether a tool is of the type that it names.
pub open spec fn is_typed(tool: JsonModel, kind: Seq<char>) -> bool {
    tool.get("type"@) == Some(JsonModel::Text(kind))
}

proof fn lemma_declared_keys()
    ensures
        "name"@ != "description"@,
        "name"@ != "parameters"@,
        "name"@ != "parametersJsonSchema"@,
        "description"@ != "parameters"@,
        "description"@ != "parametersJsonSchema"@,
        "type"@ != "properties"@,
        "function"@ != "namespace"@,
        !("web_search"@.is_prefix_of("function"@)),
        ""@ == Seq::<char>::empty(),
{
    reveal_strlit("name");
    reveal_strlit("description");
    reveal_strlit("parameters");
    reveal_strlit("parametersJsonSchema");
    reveal_strlit("type");
    reveal_strlit("properties");
    reveal_strlit("function");
    reveal_strlit("namespace");
    reveal_strlit("web_search");
    reveal_strlit("");
    assert("name"@.len() == 4);
    assert("description"@.len() == 11);
    assert("parameters"@.len() == 10);
    assert("parametersJsonSchema"@.len() == 20);
    assert("type"@.len() == 4);
    assert("properties"@.len() == 10);
    assert("function"@.len() == 8);
    assert("namespace"@.len() == 9);
    assert("web_search"@.len() == 10);
    assert(""@.len() == 0);
    assert("name"@[0] != "type"@[0]);
    assert("parameters"@[1] != "properties"@[1]);
    assert("parameters"@[0] != "web_search"@[0]);
    assert("properties"@[0] != "web_search"@[0]);
    assert(""@ =~= Seq::<char>::empty());
}

/// A function tool is declared under its own name and description, with the schema
/// of its parameters itself: as it is, under `parametersJsonSchema`, or reduced, under
/// `parameters`. Where it has none, the schema is that of an object without
/// properties. The declaration has no other member.
pub proof fn law_declaration(tool: JsonModel)
    ensures
        ({
            let whole = declaration(tool, false);
            let reduced = declaration(tool, true);
            let none = JsonModel::Object(
                map![
                    "type"@ => JsonModel::Text("object"@),
                    "properties"@ => JsonModel::Object(map![]),
                ],
            );
            &&& tool.get("parameters"@) is Some ==> whole.get("parametersJsonSchema"@)
                == tool.get("parameters"@)
            &&& tool.get("parameters"@) is Some ==> reduced.get("parameters"@) == Some(
                sanitized_schema(tool.get("parameters"@)->0),
            )
            &&& tool.get("parameters"@) is None ==> whole.get("parametersJsonSchema"@) == Some(none)
            &&& tool.get("parameters"@) is None ==> reduced.get("parameters"@) == Some(
                sanitized_schema(none),
            )
            &&& tool.get("name"@) is Some ==> whole.get("name"@) == tool.get("name"@)
                && reduced.get("name"@) == tool.get("name"@)
            &&& tool.get("name"@) is None ==> whole.get("name"@) == Some(JsonModel::Null)
                && reduced.get("name"@) == Some(JsonModel::Null)
            &&& tool.get("description"@) is Some ==> whole.get("description"@) == tool.get(
                "description"@,
            ) && reduced.get("description"@) == tool.get("description"@)
            &&& tool.get("description"@) is None ==> whole.get("description"@) == Some(
                JsonModel::Text(seq![]),
            ) && reduced.get("description"@) == Some(JsonModel::Text(seq![]))
            &&& whole is Object && whole->Object_0.dom() == set![
                "name"@,
                "description"@,
                "parametersJsonSchema"@,
            ]
            &&& reduced is Object && reduced->Object_0.dom() == set![
                "name"@,
                "description"@,
                "parameters"@,
            ]
        }),
{
    lemma_declared_keys();
    let whole = declaration(tool, false);
    let reduced = declaration(tool, true);
    let none = map![
        "type"@ => JsonModel::Text("object"@),
        "properties"@ => JsonModel::Object(map![]),
    ];
    let built = empty_object().with("type"@, JsonModel::Text("object"@)).with(
        "properties"@,
        empty_object(),
    );
    assert(empty_object()->Object_0 =~= map![]);
    assert(built->Object_0 =~= none);
    assert(whole->Object_0.dom() =~= set!["name"@, "description"@, "parametersJsonSchema"@]);
    assert(reduced->Object_0.dom() =~= set!["name"@, "description"@, "parameters"@]);
}

/// Exactly the function tools are declared, each at its place: one more function
/// tool is one more declaration at the end, and no other tool changes them.
pub proof fn law_functions_are_declared(
    tools: Seq<JsonModel>,
    tool: JsonModel,
    kind: Seq<char>,
    sanitized: bool,
)
    ensures
        declarations(seq![], sanitized).len() == 0,
        is_typed(tool, "function"@) ==> declarations(tools.push(tool), sanitized) == declarations(
            tools,
            sanitized,
        ).push(declaration(tool, sanitized)),
        is_typed(tool, kind) && kind != "function"@ ==> declarations(tools.push(tool), sanitized)
            == declarations(tools, sanitized),
        !(tool.get("type"@) matches Some(JsonModel::Text(_))) ==> declarations(
            tools.push(tool),
            sanitized,
        ) == declarations(tools, sanitized),
{
    lemma_declared_keys();
    reveal_strlit("function");
    reveal_strlit("");
    assert("function"@.len() == 8);
    assert(""@.len() == 0);
    assert(tools.push(tool).drop_last() =~= tools);
    assert(!("web_search"@.is_prefix_of("function"@)));
}

/// A tool stands for itself, but for a namespace, which stands for its tools; the
/// order stays.
pub proof fn law_tools_are_opened(
    tools: Seq<JsonModel>,
    tool: JsonModel,
    kind: Seq<char>,
    inner: Seq<JsonModel>,
)
    ensures
        flat_tools(seq![]).len() == 0,
        is_typed(tool, "namespace"@) && tool.get("tools"@) == Some(JsonModel::List(inner))
            ==> flat_tools(tools.push(tool)) == flat_tools(tools) + inner,
        is_typed(tool, "namespace"@) && !(tool.get("tools"@) matches Some(JsonModel::List(_)))
            ==> flat_tools(tools.push(tool)) == flat_tools(tools),
        is_typed(tool, kind) && kind != "namespace"@ ==> flat_tools(tools.push(tool))
            == flat_tools(tools).push(tool),
        !(tool.get("type"@) matches Some(JsonModel::Text(_))) ==> flat_tools(tools.push(tool))
            == flat_tools(tools).push(tool),
{
    reveal_strlit("namespace");
    reveal_strlit("");
    assert("namespace"@.len() == 9);
    assert(""@.len() == 0);
    assert(tools.push(tool).drop_last() =~= tools);
    assert(flat_tools(tools) + seq![tool] =~= flat_tools(tools).push(tool));
    let none: Seq<JsonModel> = seq![];
    assert(flat_tools(tools) + none =~= flat_tools(tools));
}

/// Whether a tool names a type that begins with `web_search`.
pub open spec fn asks_to_search(tool: JsonModel) -> bool {
    tool.get("type"@) matches Some(JsonModel::Text(kind)) && "web_search"@.is_prefix_of(kind)
}

/// The tools that are sent: the search, and nothing with it, exactly where a tool
/// asks for it, and then all declarations in one, where there are any. The request has
/// `tools` exactly where there is something to send.
pub proof fn law_tools_are_sent(req: JsonModel, sanitized: bool)
    ensures
        ({
            let flat = request_tools(req);
            let searching = exists|i: int|
                0 <= i < flat.len() && asks_to_search(#[trigger] flat[i]);
            let decls = declarations(flat, sanitized);
            let search = JsonModel::Object(map!["googleSearch"@ => JsonModel::Object(map![])]);
            let declared = JsonModel::Object(
                map!["functionDeclarations"@ => JsonModel::List(decls)],
            );
            let sent = gemini_request(req, sanitized).get("tools"@);
            &&& searching && decls.len() > 0 ==> sent == Some(
                JsonModel::List(seq![search, declared]),
            )
            &&& searching && decls.len() == 0 ==> sent == Some(JsonModel::List(seq![search]))
            &&& !searching && decls.len() > 0 ==> sent == Some(JsonModel::List(seq![declared]))
            &&& !searching && decls.len() == 0 ==> sent is None
        }),
{
    lemma_request_keys();
    let flat = request_tools(req);
    lemma_searching(flat);
    let decls = declarations(flat, sanitized);
    let search = JsonModel::Object(map!["googleSearch"@ => JsonModel::Object(map![])]);
    let declared = JsonModel::Object(map!["functionDeclarations"@ => JsonModel::List(decls)]);
    assert(empty_object()->Object_0 =~= map![]);
    assert(empty_object().with("googleSearch"@, empty_object())->Object_0 =~= search->Object_0);
    assert(empty_object().with("functionDeclarations"@, JsonModel::List(decls))->Object_0
        =~= declared->Object_0);
    let tools = gemini_tools(flat, sanitized);
    if any_search(flat) {
        if decls.len() > 0 {
            assert(tools =~= seq![search, declared]);
        } else {
            assert(tools =~= seq![search]);
        }
    } else if decls.len() > 0 {
        assert(tools =~= seq![declared]);
    }
}

proof fn lemma_searching(flat: Seq<JsonModel>)
    ensures
        any_search(flat) <==> exists|i: int|
            0 <= i < flat.len() && asks_to_search(#[trigger] flat[i]),
{
    reveal_strlit("web_search");
    reveal_strlit("");
    assert("web_search"@.len() == 10);
    assert(""@.len() == 0);
    assert forall|i: int| 0 <= i < flat.len() implies is_search(#[trigger] flat[i])
        == asks_to_search(flat[i]) by {}
    if any_search(flat) {
        let i = choose|i: int| 0 <= i < flat.len() && is_search(#[trigger] flat[i]);
        assert(asks_to_search(flat[i]));
    }
    if exists|i: int| 0 <= i < flat.len() && asks_to_search(#[trigger] flat[i]) {
        let i = choose|i: int| 0 <= i < flat.len() && asks_to_search(#[trigger] flat[i]);
        assert(is_search(flat[i]));
    }
}

proof fn lemma_request_keys()
    ensures
        "contents"@ != "systemInstruction"@,
        "contents"@ != "tools"@,
        "contents"@ != "toolConfig"@,
        "contents"@ != "generationConfig"@,
        "systemInstruction"@ != "tools"@,
        "systemInstruction"@ != "toolConfig"@,
        "systemInstruction"@ != "generationConfig"@,
        "tools"@ != "toolConfig"@,
        "tools"@ != "generationConfig"@,
        "toolConfig"@ != "generationConfig"@,
{
    reveal_strlit("contents");
    reveal_strlit("systemInstruction");
    reveal_strlit("tools");
    reveal_strlit("toolConfig");
    reveal_strlit("generationConfig");
    assert("contents"@.len() == 8);
    assert("systemInstruction"@.len() == 17);
    assert("tools"@.len() == 5);
    assert("toolConfig"@.len() == 10);
    assert("generationConfig"@.len() == 16);
}

/// How tools are called is configured only where tools are sent: server-side calls
/// are shown exactly where there is a search, and the mode is `ANY` where a tool is
/// required, `NONE` where none may be called, and else left open.
pub proof fn law_calling_is_configured(req: JsonModel, sanitized: bool)
    ensures
        ({
            let flat = request_tools(req);
            let searching = exists|i: int|
                0 <= i < flat.len() && asks_to_search(#[trigger] flat[i]);
            let body = gemini_request(req, sanitized);
            let config = body.get("toolConfig"@);
            let required = req.get("tool_choice"@) == Some(JsonModel::Text("required"@));
            let none = req.get("tool_choice"@) == Some(JsonModel::Text("none"@));
            let shown = "includeServerSideToolInvocations"@;
            let calling = "functionCallingConfig"@;
            &&& config is Some <==> body.get("tools"@) is Some && (searching || required || none)
            &&& config is Some ==> config->0 is Object
            &&& config is Some && searching ==> config->0.get(shown) == Some(JsonModel::Bool(true))
            &&& config is Some && !searching ==> config->0.get(shown) is None
            &&& config is Some && required ==> config->0.get(calling) == Some(
                JsonModel::Object(map!["mode"@ => JsonModel::Text("ANY"@)]),
            )
            &&& config is Some && none ==> config->0.get(calling) == Some(
                JsonModel::Object(map!["mode"@ => JsonModel::Text("NONE"@)]),
            )
            &&& config is Some && !required && !none ==> config->0.get(calling) is None
            &&& config is Some ==> config->0->Object_0.dom().subset_of(set![shown, calling])
        }),
{
    lemma_request_keys();
    reveal_strlit("includeServerSideToolInvocations");
    reveal_strlit("functionCallingConfig");
    reveal_strlit("required");
    reveal_strlit("none");
    assert("includeServerSideToolInvocations"@.len() == 32);
    assert("functionCallingConfig"@.len() == 21);
    assert("required"@.len() == 8);
    assert("none"@.len() == 4);
    let flat = request_tools(req);
    lemma_searching(flat);
    assert(empty_object().with("mode"@, JsonModel::Text("ANY"@))->Object_0
        =~= map!["mode"@ => JsonModel::Text("ANY"@)]);
    assert(empty_object().with("mode"@, JsonModel::Text("NONE"@))->Object_0
        =~= map!["mode"@ => JsonModel::Text("NONE"@)]);
}

/// Thoughts are always asked for. A model whose name begins with `gemini-3` is given
/// the level that the effort asks for, and no budget; any other model a budget of
/// zero for the least effort, and no level.
pub proof fn law_thinking_is_configured(
    req: JsonModel,
    sanitized: bool,
    model: Seq<char>,
    effort: Seq<char>,
)
    requires
        req.get("model"@) == Some(JsonModel::Text(model)) || (model == ""@ && !(req.get(
            "model"@,
        ) matches Some(JsonModel::Text(_)))),
    ensures
        ({
            let generation = gemini_request(req, sanitized).get("generationConfig"@)->0;
            let thinking = generation.get("thinkingConfig"@)->0;
            let asked = req.get("reasoning"@) is Some && req.get("reasoning"@)->0.get("effort"@)
                == Some(JsonModel::Text(effort));
            let unasked = req.get("reasoning"@) is None || !(req.get("reasoning"@)->0.get(
                "effort"@,
            ) matches Some(JsonModel::Text(_)));
            let three = "gemini-3"@.is_prefix_of(model);
            let level = thinking.get("thinkingLevel"@);
            let budget = thinking.get("thinkingBudget"@);
            &&& gemini_request(req, sanitized).get("generationConfig"@) is Some
            &&& generation is Object && generation->Object_0.dom() == set!["thinkingConfig"@]
            &&& thinking is Object && thinking->Object_0.dom().subset_of(
                set!["includeThoughts"@, "thinkingLevel"@, "thinkingBudget"@],
            )
            &&& thinking.get("includeThoughts"@) == Some(JsonModel::Bool(true))
            &&& three && asked && (effort == "minimal"@ || effort == "low"@) ==> level == Some(
                JsonModel::Text("low"@),
            )
            &&& three && asked && effort == "medium"@ ==> level == Some(JsonModel::Text("medium"@))
            &&& three && asked && (effort == "high"@ || effort == "xhigh"@) ==> level == Some(
                JsonModel::Text("high"@),
            )
            &&& three && asked && effort != "minimal"@ && effort != "low"@ && effort != "medium"@
                && effort != "high"@ && effort != "xhigh"@ ==> level is None
            &&& three ==> budget is None
            &&& !three ==> level is None
            &&& !three && asked && effort == "minimal"@ ==> budget == Some(
                JsonModel::Number(NumberModel::Unsigned(0)),
            )
            &&& asked && effort != "minimal"@ ==> budget is None
            &&& unasked ==> level is None && budget is None
        }),
{
    lemma_request_keys();
    reveal_strlit("includeThoughts");
    reveal_strlit("thinkingLevel");
    reveal_strlit("thinkingBudget");
    reveal_strlit("minimal");
    reveal_strlit("low");
    reveal_strlit("medium");
    reveal_strlit("high");
    reveal_strlit("xhigh");
    assert("includeThoughts"@.len() == 15);
    assert("thinkingLevel"@.len() == 13);
    assert("thinkingBudget"@.len() == 14);
    assert("minimal"@.len() == 7);
    assert("low"@.len() == 3);
    assert("medium"@.len() == 6);
    assert("high"@.len() == 4);
    assert("xhigh"@.len() == 5);
    let generation = gemini_request(req, sanitized).get("generationConfig"@)->0;
    assert(generation->Object_0.dom() =~= set!["thinkingConfig"@]);
}

/// The system texts go in one part of `systemInstruction`, in order and with a blank
/// line between them, and there is none exactly where there are no such texts.
pub proof fn law_system_is_instructed(req: JsonModel, sanitized: bool)
    ensures
        gathered(req).system.len() == 0 ==> gemini_request(req, sanitized).get(
            "systemInstruction"@,
        ) is None,
        gathered(req).system.len() > 0 ==> gemini_request(req, sanitized).get(
            "systemInstruction"@,
        ) == Some(
            JsonModel::Object(
                map![
                    "parts"@ => JsonModel::List(
                        seq![
                            JsonModel::Object(
                                map![
                                    "text"@ => JsonModel::Text(
                                        joined(gathered(req).system, "\n\n"@),
                                    ),
                                ],
                            ),
                        ],
                    ),
                ],
            ),
        ),
{
    lemma_request_keys();
    let text = joined(gathered(req).system, "\n\n"@);
    let part = JsonModel::Object(map!["text"@ => JsonModel::Text(text)]);
    assert(text_part(text)->Object_0 =~= part->Object_0);
    let whole = JsonModel::Object(map!["parts"@ => JsonModel::List(seq![part])]);
    assert(system_json(gathered(req).system)->Object_0 =~= whole->Object_0);
}

/// The request has no member but its contents, the system instruction, the tools,
/// how they are called and how the answer is generated.
pub proof fn law_request_members(req: JsonModel, sanitized: bool, key: Seq<char>)
    requires
        gemini_request(req, sanitized).get(key) is Some,
    ensures
        key == "contents"@ || key == "systemInstruction"@ || key == "tools"@ || key
            == "toolConfig"@ || key == "generationConfig"@,
{
}

/// The contents are the turns, one by one: each with its role, which is `user` or
/// `model`, its parts, and nothing else. Turn by turn they say what was gathered; and
/// where nothing was, the user says an empty text.
pub proof fn law_contents_are_the_turns(req: JsonModel, sanitized: bool, i: int)
    ensures
        ({
            let turns = request_turns(req);
            let sent = gemini_request(req, sanitized).get("contents"@);
            &&& sent matches Some(JsonModel::List(list)) && list.len() == turns.len() && (0 <= i
                < turns.len() ==> list[i] == JsonModel::Object(
                map![
                    "role"@ => JsonModel::Text(
                        if turns[i].role == Role::User {
                            "user"@
                        } else {
                            "model"@
                        },
                    ),
                    "parts"@ => JsonModel::List(turns[i].parts),
                ],
            ))
            &&& gathered(req).contents.entries.len() > 0 ==> flattened(turns) == said(
                gathered(req).contents.entries,
            )
            &&& gathered(req).contents.entries.len() == 0 ==> turns == seq![
                TurnModel {
                    role: Role::User,
                    parts: seq![JsonModel::Object(map!["text"@ => JsonModel::Text(seq![])])],
                },
            ]
        }),
{
    lemma_contents(req, sanitized);
    reveal_strlit("role");
    reveal_strlit("parts");
    reveal_strlit("");
    assert("role"@.len() == 4);
    assert("parts"@.len() == 5);
    assert(""@.len() == 0);
    assert(""@ =~= Seq::<char>::empty());
    let turns = request_turns(req);
    let list = turns_json(turns);
    let entries = gathered(req).contents.entries;
    if 0 <= i < turns.len() {
        assert(list[i]->Object_0 =~= map![
            "role"@ => JsonModel::Text(
                if turns[i].role == Role::User {
                    "user"@
                } else {
                    "model"@
                },
            ),
            "parts"@ => JsonModel::List(turns[i].parts),
        ]);
    }
    law_turns_keep_parts(said(entries));
    if entries.len() > 0 {
        if gathered(req).contents.turns().len() == 0 {
            assert(flattened(gathered(req).contents.turns()) =~= seq![]);
        }
    } else {
        assert(said(entries) =~= seq![]);
        let none: Seq<char> = seq![];
        let part = JsonModel::Object(map!["text"@ => JsonModel::Text(none)]);
        assert(text_part(""@)->Object_0 =~= part->Object_0);
    }
}

/// Every output of the request's input reaches the request, in a part that the user
/// says: a text exactly as it is, whatever its length.
pub proof fn law_outputs_reach_the_request(
    req: JsonModel,
    sanitized: bool,
    items: Seq<JsonModel>,
    i: int,
)
    requires
        req.get("input"@) == Some(JsonModel::List(items)),
        0 <= i < items.len(),
        items[i].get("type"@) == Some(JsonModel::Text("function_call_output"@)),
    ensures
        ({
            let sent = gemini_request(req, sanitized).get("contents"@)->0->List_0;
            exists|t: int, p: int|
                0 <= t < sent.len() && sent[t].get("role"@) == Some(JsonModel::Text("user"@)) && 0
                    <= p < sent[t].get("parts"@)->0->List_0.len() && carries(
                    #[trigger] sent[t].get("parts"@)->0->List_0[p],
                    items[i].get("output"@),
                )
        }),
{
    law_every_output_goes_back(req, items, i);
    let entries = gathered(req).contents.entries;
    let k = choose|k: int|
        0 <= k < entries.len() && (#[trigger] entries[k]).role == Role::User && carries(
            entries[k].part,
            items[i].get("output"@),
        );
    lemma_said_stands(said(entries), k);
    let turns = gathered(req).contents.turns();
    assert(said(entries)[k] == (entries[k].role, entries[k].part));
    let (t, p) = choose|t: int, p: int|
        0 <= t < turns.len() && turns[t].role == Role::User && 0 <= p < turns[t].parts.len()
            && #[trigger] turns[t].parts[p] == entries[k].part;
    law_contents_are_the_turns(req, sanitized, t);
    let sent = gemini_request(req, sanitized).get("contents"@)->0->List_0;
    reveal_strlit("role");
    reveal_strlit("parts");
    assert("role"@.len() == 4);
    assert("parts"@.len() == 5);
    assert(sent[t].get("parts"@)->0->List_0[p] == entries[k].part);
}

}
