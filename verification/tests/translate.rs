use desk_shim::blob::{decode_blob, encode_blob};
use desk_shim::codec::{read_json, write_json};
use desk_shim::json::Json;
use desk_shim::schema::sanitize_schema;
use desk_shim::translate::{build_gemini_request, usage_fits, PartIds, Translator};

fn t(s: &str) -> Json {
    Json::text(s)
}

fn obj(members: Vec<(&str, Json)>) -> Json {
    let mut o = Json::object();
    for (k, v) in members {
        o = o.with(k, v);
    }
    o
}

fn parsed(s: &str) -> Json {
    read_json(s).unwrap()
}

fn at<'a>(v: &'a Json, path: &[&str]) -> &'a Json {
    let mut here = v;
    for step in path {
        here = match step.parse::<usize>() {
            Ok(i) => &here.as_list().unwrap()[i],
            Err(_) => here.get(step).unwrap(),
        };
    }
    here
}

fn text<'a>(v: &'a Json, path: &[&str]) -> &'a str {
    at(v, path).as_str().unwrap()
}

fn kinds(events: &[Json]) -> Vec<String> {
    events
        .iter()
        .map(|e| {
            let t = text(e, &["type"]).to_string();
            match e.get("item").and_then(|i| i.text_at("type")) {
                Some(it) if t == "response.output_item.done" => format!("{t}:{it}"),
                _ => t,
            }
        })
        .collect()
}

fn done(events: &[Json]) -> Vec<Json> {
    events
        .iter()
        .filter(|e| e.text_at("type") == Some("response.output_item.done"))
        .map(|e| at(e, &["item"]).copy())
        .collect()
}

fn ids() -> PartIds {
    PartIds {
        closing: "closing".to_string(),
        item: "item".to_string(),
        call: "0123456789abcdef0123456789abcdef".to_string(),
        blob: "blob".to_string(),
    }
}

#[test]
fn stream_function_call_with_signature_round_trips() {
    let mut tr = Translator::new("resp_1");
    let mut events = vec![tr.created()];
    events.extend(tr.on_part(&obj(vec![("text", t("hmm")), ("thought", Json::Bool(true))])));
    events.extend(tr.on_part(&obj(vec![
        (
            "functionCall",
            obj(vec![("name", t("shell")), ("args", obj(vec![("cmd", t("ls"))]))]),
        ),
        ("thoughtSignature", t("SIG1")),
    ])));
    events.extend(tr.finish(&obj(vec![
        ("promptTokenCount", Json::number(10)),
        ("candidatesTokenCount", Json::number(5)),
        ("thoughtsTokenCount", Json::number(3)),
    ])));
    let k = kinds(&events);
    assert!(k.contains(&"response.output_item.done:reasoning".to_string()));
    assert!(k.contains(&"response.output_item.done:function_call".to_string()));
    assert_eq!(k.last().unwrap(), "response.completed");
    let usage = at(events.last().unwrap(), &["response", "usage"]);
    assert_eq!(usage.u64_at("output_tokens"), Some(8));
    assert_eq!(
        at(usage, &["output_tokens_details", "reasoning_tokens"]).as_u64(),
        Some(3)
    );

    // Replay: feed the done items back as input and check the signature
    // lands on the functionCall part exactly once.
    let items = done(&events);
    let fc = items.iter().find(|i| i.text_at("type") == Some("function_call")).unwrap();
    let mut input: Vec<Json> = items.iter().map(|i| i.copy()).collect();
    input.push(obj(vec![
        ("type", t("function_call_output")),
        ("call_id", at(fc, &["call_id"]).copy()),
        ("output", t("file.txt")),
    ]));
    let req = obj(vec![
        ("model", t("gemini-3.7-flash")),
        ("instructions", t("sys")),
        ("input", Json::list(input)),
        (
            "tools",
            Json::list(vec![
                obj(vec![
                    ("type", t("function")),
                    ("name", t("shell")),
                    ("parameters", obj(vec![("type", t("object"))])),
                ]),
                obj(vec![("type", t("web_search"))]),
            ]),
        ),
    ]);
    let body = build_gemini_request(&req, false);
    let contents = body.list_at("contents").unwrap();
    assert_eq!(contents.len(), 2, "{contents:?}");
    let model_parts = contents[0].list_at("parts").unwrap();
    assert_eq!(model_parts.len(), 1, "{model_parts:?}");
    assert_eq!(text(&model_parts[0], &["thoughtSignature"]), "SIG1");
    assert_eq!(text(&model_parts[0], &["functionCall", "name"]), "shell");
    assert_eq!(text(&contents[1], &["parts", "0", "functionResponse", "name"]), "shell");
    assert_eq!(text(&body, &["systemInstruction", "parts", "0", "text"]), "sys");
    assert!(at(&body, &["tools", "0", "googleSearch"]).equals(&Json::object()));
    assert_eq!(
        at(&body, &["toolConfig", "includeServerSideToolInvocations"]).as_bool(),
        Some(true)
    );
    assert_eq!(
        at(&body, &["generationConfig", "thinkingConfig", "includeThoughts"]).as_bool(),
        Some(true)
    );
}

#[test]
fn server_side_search_becomes_web_search_call_and_replays_raw() {
    let mut tr = Translator::new("resp_2");
    let call = obj(vec![
        (
            "toolCall",
            obj(vec![
                ("toolType", t("GOOGLE_SEARCH_WEB")),
                ("args", obj(vec![("queries", Json::list(vec![t("a"), t("b")]))])),
                ("id", t("c1")),
            ]),
        ),
        ("thoughtSignature", t("S1")),
    ]);
    let resp = obj(vec![
        (
            "toolResponse",
            obj(vec![
                ("toolType", t("GOOGLE_SEARCH_WEB")),
                ("response", Json::object()),
                ("id", t("c1")),
            ]),
        ),
        ("thoughtSignature", t("S2")),
    ]);
    let mut events = tr.on_part(&call);
    events.extend(tr.on_part(&resp));
    events.extend(tr.on_part(&obj(vec![("text", t("answer")), ("thoughtSignature", t("S3"))])));
    events.extend(tr.finish(&Json::object()));
    let k = kinds(&events);
    assert_eq!(k.iter().filter(|s| s.ends_with(":web_search_call")).count(), 1);
    let ws = events
        .iter()
        .find(|e| e.get("item").and_then(|i| i.text_at("type")) == Some("web_search_call"))
        .unwrap();
    assert_eq!(text(ws, &["item", "action", "query"]), "a; b");

    let input = done(&events);
    let body = build_gemini_request(&obj(vec![("input", Json::list(input))]), false);
    let parts = at(&body, &["contents", "0", "parts"]).as_list().unwrap();
    assert_eq!(text(&body, &["contents", "0", "role"]), "model");
    assert_eq!(parts.len(), 3, "{parts:?}");
    assert_eq!(text(&parts[0], &["toolCall", "id"]), "c1");
    assert_eq!(text(&parts[1], &["toolResponse", "id"]), "c1");
    assert_eq!(text(&parts[2], &["text"]), "answer");
    assert_eq!(text(&parts[2], &["thoughtSignature"]), "S3");
}

#[test]
fn sanitized_schema_drops_unsupported_keys() {
    let s = obj(vec![
        ("type", t("object")),
        ("additionalProperties", Json::Bool(false)),
        (
            "properties",
            obj(vec![(
                "x",
                obj(vec![
                    ("type", Json::list(vec![t("string"), t("null")])),
                    ("default", Json::number(1)),
                ]),
            )]),
        ),
    ]);
    let out = sanitize_schema(&s);
    assert!(out.get("additionalProperties").is_none());
    assert_eq!(text(&out, &["properties", "x", "type"]), "string");
    assert_eq!(at(&out, &["properties", "x", "nullable"]).as_bool(), Some(true));
    assert!(at(&out, &["properties", "x"]).get("default").is_none());
}

#[test]
fn foreign_encrypted_content_is_ignored() {
    let req = obj(vec![(
        "input",
        Json::list(vec![
            obj(vec![("type", t("reasoning")), ("encrypted_content", t("not-base64-json"))]),
            obj(vec![
                ("type", t("message")),
                ("role", t("user")),
                (
                    "content",
                    Json::list(vec![obj(vec![("type", t("input_text")), ("text", t("hi"))])]),
                ),
            ]),
        ]),
    )]);
    let body = build_gemini_request(&req, true);
    assert_eq!(body.list_at("contents").unwrap().len(), 1);
    assert_eq!(text(&body, &["contents", "0", "parts", "0", "text"]), "hi");
}

#[test]
fn created_and_failed_events_are_numbered() {
    let mut tr = Translator::new("resp_x");
    assert_eq!(
        write_json(&tr.created()),
        "{\"response\":{\"id\":\"resp_x\",\"object\":\"response\",\"status\":\"in_progress\"},\"sequence_number\":1,\"type\":\"response.created\"}"
    );
    assert_eq!(
        write_json(&tr.failed("boom")),
        "{\"response\":{\"error\":{\"code\":\"desk_shim_error\",\"message\":\"boom\"},\"id\":\"resp_x\",\"status\":\"failed\"},\"sequence_number\":2,\"type\":\"response.failed\"}"
    );
}

#[test]
fn a_long_failure_message_is_cut() {
    let mut tr = Translator::new("r");
    let long: String = "é".repeat(2500);
    let event = tr.failed(&long);
    let message = text(&event, &["response", "error", "message"]);
    assert_eq!(message.chars().count(), 2000);
}

#[test]
fn ids_stand_where_they_belong() {
    let mut tr = Translator::new("r");
    let part = parsed("{\"functionCall\":{\"name\":\"f\"},\"thoughtSignature\":\"S\"}");
    let events = tr.on_part_with(&part, &ids());
    assert_eq!(
        kinds(&events),
        vec![
            "response.output_item.added",
            "response.output_item.done:function_call",
            "response.output_item.added",
            "response.output_item.done:reasoning",
        ]
    );
    let call = at(&events[1], &["item"]);
    assert_eq!(text(call, &["id"]), "fc_item");
    assert_eq!(text(call, &["call_id"]), "call_0123456789abcdef01234567");
    assert_eq!(text(call, &["arguments"]), "{}");
    assert_eq!(text(call, &["status"]), "completed");
    let blob = at(&events[3], &["item"]);
    assert_eq!(text(blob, &["id"]), "rs_blob");
    let read = decode_blob(text(blob, &["encrypted_content"])).unwrap();
    assert_eq!(read.covers_prev, 1);
    assert_eq!(read.parts.len(), 1);
    assert!(read.parts[0].equals(&part));
    assert_eq!(tr.items_emitted, 1);
    assert_eq!(tr.items_emitted(), 1);
    assert_eq!(at(&events[3], &["output_index"]).as_u64(), Some(1));
}

#[test]
fn random_ids_are_simple_uuids() {
    let drawn = PartIds::draw();
    for id in [&drawn.closing, &drawn.item, &drawn.call, &drawn.blob] {
        assert_eq!(id.len(), 32);
        assert!(id.chars().all(|c| c.is_ascii_digit() || ('a'..='f').contains(&c)));
        assert_eq!(&id[12..13], "4");
        assert!(["8", "9", "a", "b"].contains(&&id[16..17]));
    }
    assert_ne!(drawn.item, drawn.blob);
}

#[test]
fn a_signed_message_is_followed_by_its_blob() {
    let mut tr = Translator::new("r");
    let mut events = tr.on_part_with(&parsed("{\"text\":\"one \"}"), &ids());
    events.extend(tr.on_part_with(&parsed("{\"text\":\"two\",\"thoughtSignature\":\"S\"}"), &ids()));
    assert_eq!(
        kinds(&events),
        vec![
            "response.output_item.added",
            "response.output_text.delta",
            "response.output_text.delta"
        ]
    );
    let end = tr.finish_with(&Json::Null, "end");
    assert_eq!(
        kinds(&end),
        vec![
            "response.output_item.done:message",
            "response.output_item.added",
            "response.output_item.done:reasoning",
            "response.completed"
        ]
    );
    assert_eq!(text(&end[0], &["item", "content", "0", "text"]), "one two");
    assert_eq!(text(&end[0], &["item", "id"]), "msg_item");
    let blob = decode_blob(text(&end[2], &["item", "encrypted_content"])).unwrap();
    assert_eq!(blob.covers_prev, 1);
    assert_eq!(write_json(&blob.parts[0]), "{\"text\":\"one two\",\"thoughtSignature\":\"S\"}");
    assert_eq!(blob.parts.len(), 1);
    assert_eq!(tr.items_emitted(), 1);
}

#[test]
fn a_signed_thought_is_closed_at_once() {
    let mut tr = Translator::new("r");
    let events = tr.on_part_with(
        &parsed("{\"text\":\"deep\",\"thought\":true,\"thoughtSignature\":\"S\"}"),
        &ids(),
    );
    assert_eq!(
        kinds(&events),
        vec![
            "response.output_item.added",
            "response.reasoning_summary_part.added",
            "response.reasoning_summary_text.delta",
            "response.reasoning_summary_text.done",
            "response.output_item.done:reasoning",
            "response.output_item.added",
            "response.output_item.done:reasoning",
        ]
    );
    assert_eq!(text(&events[4], &["item", "summary", "0", "text"]), "deep");
    let blob = decode_blob(text(&events[6], &["item", "encrypted_content"])).unwrap();
    assert_eq!(blob.covers_prev, 0);
    assert_eq!(write_json(&blob.parts[0]), "{\"text\":\"\",\"thoughtSignature\":\"S\"}");
}

#[test]
fn a_part_without_anything_gives_nothing() {
    let mut tr = Translator::new("r");
    assert!(tr.on_part(&parsed("{\"text\":\"\"}")).is_empty());
    assert!(tr.on_part(&parsed("{}")).is_empty());
    assert!(tr.on_part(&Json::Null).is_empty());
    let signed = tr.on_part(&parsed("{\"text\":\"\",\"thoughtSignature\":\"S\"}"));
    assert_eq!(
        kinds(&signed),
        vec!["response.output_item.added", "response.output_item.done:reasoning"]
    );
}

#[test]
fn events_of_a_stream_are_numbered_and_matched() {
    let mut tr = Translator::new("r");
    let mut events = vec![tr.created()];
    for s in [
        "{\"text\":\"a\",\"thought\":true}",
        "{\"text\":\"b\"}",
        "{\"text\":\"c\",\"thoughtSignature\":\"S\"}",
        "{\"functionCall\":{\"name\":\"f\",\"args\":{\"n\":1}}}",
        "{\"toolResponse\":{}}",
        "{\"text\":\"d\"}",
    ] {
        assert!(tr.has_room());
        events.extend(tr.on_part(&parsed(s)));
    }
    events.extend(tr.finish(&Json::Null));
    for (i, e) in events.iter().enumerate() {
        assert_eq!(e.u64_at("sequence_number"), Some(i as u64 + 1));
    }
    let k = kinds(&events);
    let added = k.iter().filter(|s| *s == "response.output_item.added").count();
    assert_eq!(added, done(&events).len());
    let visible = done(&events).iter().filter(|i| i.get("encrypted_content").is_none()).count();
    assert_eq!(tr.items_emitted(), visible as u64);
    assert_eq!(visible, 4);
}

#[test]
fn usage_is_mapped() {
    let mut tr = Translator::new("r");
    let usage = parsed(
        "{\"promptTokenCount\":7,\"candidatesTokenCount\":2,\"thoughtsTokenCount\":1,\"cachedContentTokenCount\":4}",
    );
    assert!(usage_fits(&usage));
    let end = tr.finish(&usage);
    assert_eq!(
        write_json(at(&end[0], &["response", "usage"])),
        "{\"input_tokens\":7,\"input_tokens_details\":{\"cached_tokens\":4},\"output_tokens\":3,\"output_tokens_details\":{\"reasoning_tokens\":1},\"total_tokens\":10}"
    );
    let mut tr = Translator::new("r");
    let end = tr.finish(&parsed("{\"totalTokenCount\":99}"));
    assert_eq!(at(&end[0], &["response", "usage", "total_tokens"]).as_u64(), Some(99));
    let big = obj(vec![
        ("promptTokenCount", Json::number(u64::MAX)),
        ("thoughtsTokenCount", Json::number(1)),
    ]);
    assert!(!usage_fits(&big));
}

#[test]
fn blobs_read_back() {
    let parts = vec![parsed("{\"text\":\"x\",\"n\":[1,-2,null,true]}"), t("é\"")];
    let blob = decode_blob(&encode_blob(3, parts)).unwrap();
    assert_eq!(blob.v, 1);
    assert_eq!(blob.covers_prev, 3);
    assert_eq!(write_json(&blob.parts[0]), "{\"n\":[1,-2,null,true],\"text\":\"x\"}");
    assert_eq!(blob.parts[1].as_str(), Some("é\""));
}

#[test]
fn a_blob_is_base64_of_json() {
    assert_eq!(
        encode_blob(1, Vec::new()),
        "eyJ2IjoxLCJjb3ZlcnNfcHJldiI6MSwicGFydHMiOltdfQ=="
    );
    assert!(decode_blob("eyJ2IjoxLCJjb3ZlcnNfcHJldiI6MSwicGFydHMiOltdfQ==").is_some());
    assert!(decode_blob("").is_none());
    assert!(decode_blob("%%%").is_none());
    // {"v":2,"covers_prev":1,"parts":[]}
    assert!(decode_blob("eyJ2IjoyLCJjb3ZlcnNfcHJldiI6MSwicGFydHMiOltdfQ==").is_none());
    // [1,2,[]]
    assert_eq!(decode_blob("WzEsMixbXV0=").unwrap().covers_prev, 2);
    // {"v":1}
    assert!(decode_blob("eyJ2IjoxfQ==").is_none());
}

fn blob_text(json: &str) -> String {
    base64::Engine::encode(&base64::prelude::BASE64_STANDARD, json)
}

#[test]
fn a_field_given_twice_is_refused() {
    assert!(decode_blob(&blob_text("{\"v\":1,\"covers_prev\":0,\"parts\":[]}")).is_some());
    assert!(decode_blob(&blob_text("{\"v\":1,\"v\":1,\"covers_prev\":0,\"parts\":[]}")).is_none());
    assert!(decode_blob(&blob_text("{\"v\":1,\"covers_prev\":0,\"\\u0076\":1,\"parts\":[]}")).is_none());
    assert!(decode_blob(&blob_text("{\"v\":1,\"covers_prev\":0,\"parts\":[],\"parts\":[]}")).is_none());
    assert!(decode_blob(&blob_text("{\"x\":1,\"v\":1,\"x\":2,\"covers_prev\":0,\"parts\":[]}")).is_some());
}

#[test]
fn an_unknown_field_is_passed_over_unread() {
    let deep = format!("{}{}", "[".repeat(500), "]".repeat(500));
    for value in ["1e999", "\"\\ud800\"", deep.as_str(), "{\"v\":2,\"a\":[1,\"}\"]}"] {
        let json = format!(" {{ \"x\" : {value} , \"v\":1,\n\"covers_prev\" :2,\"parts\": [ 1 ] }}\t");
        let blob = decode_blob(&blob_text(&json)).unwrap();
        assert_eq!(blob.covers_prev, 2);
        assert_eq!(blob.parts.len(), 1);
    }
    for json in [
        "{\"v\":1,\"covers_prev\":0,\"parts\":[],}",
        "{\"v\":1,\"covers_prev\":0,\"parts\":[]} x",
        "{\"v\":1,\"covers_prev\":0,\"parts\":[]",
        "{\"v\":1 \"covers_prev\":0,\"parts\":[]}",
        "{\"v\":1,\"covers_prev\":0,\"parts\":[],\"x\":nul}",
        "{\"v\":1,\"covers_prev\":0,\"parts\":[],x:1}",
        "{\"v\" 1,\"covers_prev\":0,\"parts\":[]}",
        "{\"v\":1.0,\"covers_prev\":0,\"parts\":[]}",
        "{\"v\":1,\"covers_prev\":-1,\"parts\":[]}",
        "{\"v\":1,\"covers_prev\":0,\"parts\":{}}",
        "{\"v\":1,\"covers_prev\":0,\"parts\":[1e999]}",
        "{}",
        "[1,2,[],4]",
        "null",
    ] {
        assert!(decode_blob(&blob_text(json)).is_none(), "{json}");
    }
}

#[test]
fn parts_of_a_blob_nest_within_the_limit() {
    let blob = |n: usize| {
        let parts = format!("{}{}", "[".repeat(n), "]".repeat(n));
        blob_text(&format!("{{\"v\":1,\"covers_prev\":0,\"parts\":{parts}}}"))
    };
    assert!(decode_blob(&blob(126)).is_some());
    assert!(decode_blob(&blob(127)).is_none());
}

#[test]
fn only_visible_items_are_counted() {
    let mut tr = Translator::new("r");
    tr.on_part(&parsed("{\"functionCall\":{\"name\":\"f\",\"args\":{}},\"thoughtSignature\":\"S\"}"));
    assert_eq!(tr.items_emitted, 1);
    tr.on_part(&parsed("{\"toolCall\":{}}"));
    assert_eq!(tr.items_emitted, 2);
    tr.on_part(&parsed("{\"toolResponse\":{}}"));
    assert_eq!(tr.items_emitted, 2);
    let last = tr.on_part(&parsed("{\"functionCall\":{\"name\":\"f\"}}"));
    assert_eq!(tr.items_emitted, 3);
    assert_eq!(at(&last[0], &["output_index"]).as_u64(), Some(5));
}

#[test]
fn every_signature_of_a_message_comes_back() {
    let mut tr = Translator::new("r");
    let mut events = tr.on_part(&parsed("{\"text\":\"a\",\"thoughtSignature\":\"S1\"}"));
    events.extend(tr.on_part(&parsed("{\"text\":\"b\",\"thoughtSignature\":\"S2\"}")));
    events.extend(tr.on_part(&parsed("{\"text\":\"c\"}")));
    events.extend(tr.finish(&Json::object()));
    let items = done(&events);
    assert_eq!(items.len(), 2);
    assert_eq!(text(&items[0], &["content", "0", "text"]), "abc");
    let body = build_gemini_request(&obj(vec![("input", Json::list(items))]), false);
    assert_eq!(
        write_json(at(&body, &["contents"])),
        "[{\"parts\":[{\"text\":\"a\",\"thoughtSignature\":\"S1\"},{\"text\":\"bc\",\"thoughtSignature\":\"S2\"}],\"role\":\"model\"}]"
    );
}

#[test]
fn raw_parts_come_back_verbatim() {
    let parts = [
        "{\"functionCall\":{\"args\":{\"x\":[1,-2]},\"name\":\"f\"},\"thoughtSignature\":\"S1\"}",
        "{\"thoughtSignature\":\"S2\",\"toolCall\":{\"args\":{\"queries\":[\"q\"]}}}",
        "{\"toolResponse\":{\"$serde_json::private::RawValue\":\"1\"}}",
        "{\"toolCall\":{\"$serde_json::private::Number\":\"1\"}}",
    ];
    let mut tr = Translator::new("r");
    let mut events = Vec::new();
    for p in parts {
        events.extend(tr.on_part(&parsed(p)));
    }
    events.extend(tr.finish(&Json::Null));
    let req = obj(vec![("input", Json::list(done(&events)))]);
    for sanitized in [false, true] {
        let body = build_gemini_request(&req, sanitized);
        assert_eq!(
            write_json(at(&body, &["contents"])),
            format!("[{{\"parts\":[{}],\"role\":\"model\"}}]", parts.join(","))
        );
    }
}

#[test]
fn items_are_added_and_done_in_turn() {
    let mut tr = Translator::new("r");
    let mut events = vec![tr.created()];
    for s in [
        "{\"text\":\"a\",\"thought\":true}",
        "{\"text\":\"b\",\"thought\":true,\"thoughtSignature\":\"S\"}",
        "{\"text\":\"c\"}",
        "{\"text\":\"d\",\"thoughtSignature\":\"S\"}",
        "{\"functionCall\":{\"name\":\"f\"},\"thoughtSignature\":\"S\"}",
        "{\"text\":\"e\"}",
    ] {
        events.extend(tr.on_part(&parsed(s)));
    }
    events.extend(tr.finish(&Json::Null));
    let marks: Vec<&Json> = events
        .iter()
        .filter(|e| text(e, &["type"]).starts_with("response.output_item."))
        .collect();
    assert_eq!(marks.len(), 14);
    for (k, pair) in marks.chunks(2).enumerate() {
        assert_eq!(text(pair[0], &["type"]), "response.output_item.added");
        assert_eq!(text(pair[1], &["type"]), "response.output_item.done");
        for e in pair {
            assert_eq!(e.u64_at("output_index"), Some(k as u64));
        }
        assert_eq!(text(pair[0], &["item", "id"]), text(pair[1], &["item", "id"]));
        assert_eq!(text(pair[0], &["item", "type"]), text(pair[1], &["item", "type"]));
    }
    let ends = events.iter().filter(|e| text(e, &["type"]) == "response.completed").count();
    assert_eq!(ends, 1);
    let streamed = |kind: &str| -> String {
        events
            .iter()
            .filter(|e| text(e, &["type"]) == kind)
            .map(|e| text(e, &["delta"]))
            .collect()
    };
    assert_eq!(streamed("response.output_text.delta"), "cde");
    assert_eq!(streamed("response.reasoning_summary_text.delta"), "ab");
    let items = done(&events);
    let messages: String = items
        .iter()
        .filter(|i| i.text_at("type") == Some("message"))
        .map(|i| text(i, &["content", "0", "text"]))
        .collect();
    assert_eq!(messages, "cde");
    assert_eq!(text(&items[0], &["summary", "0", "text"]), "ab");
}
