use desk_shim::blob::{encode_blob, ReplayBlob};
use desk_shim::codec::{read_json, read_json_bytes, write_json};
use desk_shim::contents::{Contents, Role};
use desk_shim::input::{build_contents, call_args, function_output_text, text_of_content};
use desk_shim::json::Json;
use desk_shim::request::{build_gemini_request, build_tools};
use desk_shim::schema::sanitize_schema;

fn parsed(s: &str) -> Json {
    read_json(s).unwrap()
}

fn body(req: &str) -> String {
    write_json(&build_gemini_request(&parsed(req), false))
}

fn contents(input: &str) -> String {
    let req = Json::object().with("input", parsed(input));
    write_json(build_gemini_request(&req, false).get("contents").unwrap())
}

#[test]
fn an_empty_request_has_one_empty_turn() {
    assert_eq!(
        body("{}"),
        "{\"contents\":[{\"parts\":[{\"text\":\"\"}],\"role\":\"user\"}],\"generationConfig\":{\"thinkingConfig\":{\"includeThoughts\":true}}}"
    );
}

#[test]
fn neighbours_of_one_role_share_a_turn() {
    assert_eq!(
        contents("[{\"role\":\"user\",\"content\":\"a\"},{\"type\":\"message\",\"content\":[{\"text\":\"b\"},{\"image\":1},{\"text\":\"c\"}]},{\"role\":\"assistant\",\"content\":\"d\"}]"),
        "[{\"parts\":[{\"text\":\"a\"},{\"text\":\"b\\nc\"}],\"role\":\"user\"},{\"parts\":[{\"text\":\"d\"}],\"role\":\"model\"}]"
    );
}

#[test]
fn system_messages_go_to_the_instruction() {
    let (system, turns) = build_contents(&parsed(
        "{\"instructions\":\"one\",\"input\":[{\"role\":\"system\",\"content\":\"two\"},{\"role\":\"developer\",\"content\":\"three\"}]}",
    ));
    assert_eq!(system, vec!["one".to_string(), "two".to_string(), "three".to_string()]);
    assert_eq!(turns.len(), 1);
    let out = body("{\"instructions\":\"one\",\"input\":[{\"role\":\"system\",\"content\":\"two\"}]}");
    assert!(out.contains("\"systemInstruction\":{\"parts\":[{\"text\":\"one\\n\\ntwo\"}]}"));
}

#[test]
fn calls_and_answers_are_paired_by_id() {
    assert_eq!(
        contents("[{\"type\":\"function_call\",\"call_id\":\"c\",\"name\":\"f\",\"arguments\":\"{\\\"x\\\":1}\"},{\"type\":\"function_call_output\",\"call_id\":\"c\",\"output\":\"ok\"},{\"type\":\"function_call_output\",\"call_id\":\"d\",\"output\":\"?\"}]"),
        "[{\"parts\":[{\"functionCall\":{\"args\":{\"x\":1},\"name\":\"f\"}}],\"role\":\"model\"},{\"parts\":[{\"functionResponse\":{\"name\":\"f\",\"response\":{\"output\":\"ok\"}}},{\"functionResponse\":{\"name\":\"tool\",\"response\":{\"output\":\"?\"}}}],\"role\":\"user\"}]"
    );
}

#[test]
fn arguments_that_are_no_object_are_wrapped() {
    assert_eq!(write_json(&call_args("[1]", read_json("[1]"))), "{\"value\":[1]}");
    assert_eq!(write_json(&call_args("nope", read_json("nope"))), "{\"_raw\":\"nope\"}");
    assert_eq!(write_json(&call_args("{}", read_json("{}"))), "{}");
}

#[test]
fn outputs_of_every_shape_become_text() {
    assert_eq!(function_output_text(&parsed("{\"output\":\"s\"}")), "s");
    assert_eq!(function_output_text(&parsed("{\"output\":[{\"text\":\"a\"},{\"text\":\"b\"}]}")), "a\nb");
    assert_eq!(function_output_text(&parsed("{\"output\":{\"content\":\"c\"}}")), "c");
    assert_eq!(function_output_text(&parsed("{\"output\":{\"k\":1}}")), "{\"k\":1}");
    assert_eq!(function_output_text(&parsed("{\"output\":7}")), "7");
    assert_eq!(function_output_text(&parsed("{}")), "");
    assert_eq!(text_of_content(None), "");
    assert_eq!(text_of_content(Some(&parsed("{}"))), "");
}

#[test]
fn a_blob_replaces_what_it_covers() {
    let blob = encode_blob(1, vec![parsed("{\"text\":\"signed\",\"thoughtSignature\":\"S\"}")]);
    let input = Json::list(vec![
        parsed("{\"role\":\"user\",\"content\":\"q\"}"),
        parsed("{\"role\":\"assistant\",\"content\":\"plain\"}"),
        parsed("{\"type\":\"reasoning\"}").with("encrypted_content", Json::text(&blob)),
    ]);
    assert_eq!(
        write_json(
            build_gemini_request(&Json::object().with("input", input), false).get("contents").unwrap()
        ),
        "[{\"parts\":[{\"text\":\"q\"}],\"role\":\"user\"},{\"parts\":[{\"text\":\"signed\",\"thoughtSignature\":\"S\"}],\"role\":\"model\"}]"
    );
}

#[test]
fn a_search_covers_no_part() {
    let blob = encode_blob(1, vec![parsed("{\"toolCall\":{}}")]);
    let input = Json::list(vec![
        parsed("{\"role\":\"assistant\",\"content\":\"kept\"}"),
        parsed("{\"type\":\"web_search_call\"}"),
        parsed("{\"type\":\"reasoning\"}").with("encrypted_content", Json::text(&blob)),
    ]);
    assert_eq!(
        write_json(
            build_gemini_request(&Json::object().with("input", input), false).get("contents").unwrap()
        ),
        "[{\"parts\":[{\"text\":\"kept\"},{\"toolCall\":{}}],\"role\":\"model\"}]"
    );
}

#[test]
fn tools_are_declared() {
    let req = parsed(
        "{\"tools\":[{\"type\":\"namespace\",\"tools\":[{\"type\":\"function\",\"name\":\"f\",\"description\":\"d\",\"parameters\":{\"title\":\"T\",\"type\":\"object\"}}]},{\"type\":\"custom\",\"name\":\"g\"},{\"type\":\"web_search_preview\"},{\"type\":\"function\",\"name\":\"h\"}]}",
    );
    let plain = build_tools(&req, false);
    assert!(plain.uses_search);
    assert_eq!(
        write_json(&Json::list(plain.tools)),
        "[{\"googleSearch\":{}},{\"functionDeclarations\":[{\"description\":\"d\",\"name\":\"f\",\"parametersJsonSchema\":{\"title\":\"T\",\"type\":\"object\"}},{\"description\":\"\",\"name\":\"h\",\"parametersJsonSchema\":{\"properties\":{},\"type\":\"object\"}}]}]"
    );
    let reduced = build_tools(&req, true);
    assert_eq!(
        write_json(&Json::list(reduced.tools)),
        "[{\"googleSearch\":{}},{\"functionDeclarations\":[{\"description\":\"d\",\"name\":\"f\",\"parameters\":{\"type\":\"object\"}},{\"description\":\"\",\"name\":\"h\",\"parameters\":{\"properties\":{},\"type\":\"object\"}}]}]"
    );
}

#[test]
fn reduced_schemas_change_the_tools_only() {
    let req = parsed(
        "{\"model\":\"gemini-3\",\"tool_choice\":\"required\",\"instructions\":\"i\",\"tools\":[{\"type\":\"function\",\"name\":\"f\",\"parameters\":{\"$schema\":\"s\"}}]}",
    );
    let a = build_gemini_request(&req, false);
    let b = build_gemini_request(&req, true);
    for key in ["contents", "systemInstruction", "toolConfig", "generationConfig"] {
        assert!(a.get(key).unwrap().equals(b.get(key).unwrap()));
    }
    assert!(!a.get("tools").unwrap().equals(b.get("tools").unwrap()));
}

#[test]
fn tool_choice_sets_the_mode() {
    let with = |choice: &str| {
        let req = parsed("{\"tools\":[{\"type\":\"function\",\"name\":\"f\"}]}")
            .with("tool_choice", Json::text(choice));
        build_gemini_request(&req, false).get("toolConfig").map(write_json)
    };
    assert_eq!(with("required").unwrap(), "{\"functionCallingConfig\":{\"mode\":\"ANY\"}}");
    assert_eq!(with("none").unwrap(), "{\"functionCallingConfig\":{\"mode\":\"NONE\"}}");
    assert!(with("auto").is_none());
}

#[test]
fn effort_sets_the_thinking_level() {
    let with = |model: &str, effort: &str| {
        let req = Json::object()
            .with("model", Json::text(model))
            .with("reasoning", Json::object().with("effort", Json::text(effort)));
        write_json(
            build_gemini_request(&req, false)
                .get("generationConfig")
                .unwrap()
                .get("thinkingConfig")
                .unwrap(),
        )
    };
    assert_eq!(with("gemini-3.7", "minimal"), "{\"includeThoughts\":true,\"thinkingLevel\":\"low\"}");
    assert_eq!(with("gemini-3", "low"), "{\"includeThoughts\":true,\"thinkingLevel\":\"low\"}");
    assert_eq!(with("gemini-3", "medium"), "{\"includeThoughts\":true,\"thinkingLevel\":\"medium\"}");
    assert_eq!(with("gemini-3", "high"), "{\"includeThoughts\":true,\"thinkingLevel\":\"high\"}");
    assert_eq!(with("gemini-3", "xhigh"), "{\"includeThoughts\":true,\"thinkingLevel\":\"high\"}");
    assert_eq!(with("gemini-3", "odd"), "{\"includeThoughts\":true}");
    assert_eq!(with("gemini-2.5", "minimal"), "{\"includeThoughts\":true,\"thinkingBudget\":0}");
    assert_eq!(with("gemini-2.5", "high"), "{\"includeThoughts\":true}");
}

#[test]
fn reducing_a_schema_twice_is_reducing_it_once() {
    let s = parsed(
        "{\"type\":[\"null\"],\"items\":[{\"$id\":1,\"examples\":[],\"enum\":[1]}],\"strict\":true,\"anyOf\":[{\"type\":[\"null\",\"integer\"]}]}",
    );
    let once = sanitize_schema(&s);
    assert_eq!(
        write_json(&once),
        "{\"anyOf\":[{\"nullable\":true,\"type\":\"integer\"}],\"items\":[{\"enum\":[1]}],\"nullable\":true,\"type\":\"string\"}"
    );
    assert!(sanitize_schema(&once).equals(&once));
}

#[test]
fn properties_may_be_named_like_keywords() {
    let titled = parsed(
        "{\"type\":\"object\",\"properties\":{\"title\":{\"type\":\"string\"}},\"required\":[\"title\"]}",
    );
    assert!(sanitize_schema(&titled).equals(&titled));
    let typed = parsed(
        "{\"type\":\"object\",\"properties\":{\"type\":{\"type\":[\"string\",\"null\"],\"default\":\"x\"}}}",
    );
    assert_eq!(
        write_json(&sanitize_schema(&typed)),
        "{\"properties\":{\"type\":{\"nullable\":true,\"type\":\"string\"}},\"type\":\"object\"}"
    );
    let nested = parsed(
        "{\"properties\":{\"properties\":{\"title\":\"t\",\"properties\":{\"default\":{\"default\":1}}}}}",
    );
    assert_eq!(
        write_json(&sanitize_schema(&nested)),
        "{\"properties\":{\"properties\":{\"properties\":{\"default\":{}}}}}"
    );
    assert_eq!(write_json(&sanitize_schema(&parsed("{\"properties\":[{\"title\":1}]}"))), "{\"properties\":[{}]}");
}

#[test]
fn a_blob_takes_out_what_the_covered_item_produced() {
    let mut c = Contents::new();
    c.push_visible_model(parsed("{\"text\":\"f\"}"));
    c.apply_blob(ReplayBlob { v: 1, covers_prev: 0, parts: vec![parsed("{\"text\":\"x\"}")] });
    c.apply_blob(ReplayBlob { v: 1, covers_prev: 1, parts: vec![parsed("{\"text\":\"y\"}")] });
    let turns = c.turns();
    assert_eq!(turns.len(), 1);
    assert_eq!(turns[0].role, Role::Model);
    let texts: Vec<&str> = turns[0].parts.iter().map(|p| p.text_at("text").unwrap()).collect();
    assert_eq!(texts, vec!["x", "y"]);
}

#[test]
fn a_blob_finds_its_part_behind_other_turns() {
    let mut c = Contents::new();
    c.push(Role::User, parsed("{\"text\":\"a\"}"));
    c.push_visible_model(parsed("{\"text\":\"f\"}"));
    c.push_visible_empty();
    c.push(Role::User, parsed("{\"text\":\"b\"}"));
    c.apply_blob(ReplayBlob { v: 1, covers_prev: 2, parts: vec![parsed("{\"text\":\"y\"}")] });
    c.apply_blob(ReplayBlob { v: 1, covers_prev: 9, parts: Vec::new() });
    let turns = c.turns();
    assert_eq!(turns.len(), 2);
    assert_eq!(turns[0].parts.len(), 2);
    assert_eq!(turns[1].parts[0].text_at("text"), Some("y"));
}

#[test]
fn numbers_compare_as_numbers() {
    assert!(parsed("0.0").equals(&parsed("-0.0")));
    assert!(!parsed("1").equals(&parsed("1.0")));
    assert!(parsed("1.50").equals(&parsed("1.5")));
    assert!(parsed("{\"a\":1,\"b\":[2]}").equals(&parsed("{\"b\":[2],\"a\":1}")));
    assert!(!parsed("{\"a\":1}").equals(&parsed("{\"a\":1,\"b\":2}")));
}

#[test]
fn json_text_is_compact_and_sorted() {
    assert_eq!(write_json(&parsed(" { \"b\" : [ 1 , \"x\\n\" ] , \"a\" : -3 } ")), "{\"a\":-3,\"b\":[1,\"x\\n\"]}");
    assert_eq!(write_json(&parsed("{\"a\":1,\"a\":2}")), "{\"a\":2}");
    assert!(read_json("{").unwrap_err().contains("EOF while parsing an object"));
    assert!(read_json_bytes(b"nul").is_none());
    assert!(read_json_bytes(b"null").is_some());
}

#[test]
fn nesting_is_limited() {
    let deep = |n: usize| format!("{}{}", "[".repeat(n), "]".repeat(n));
    assert!(read_json(&deep(127)).is_ok());
    assert!(read_json(&deep(128)).is_err());
}
