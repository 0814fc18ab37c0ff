use desk_shim::codec::{read_json, write_json};
use desk_shim::config::{after_bind, Bound, ConfigPath, Started};
use desk_shim::json::Json;
use desk_shim::text::{contains_text, decimal_text, trim};
use desk_shim::translate::{PartIds, Translator};
use desk_shim::turn::{
    after_attempt, dump_name, judge_refusal, key_from_file, key_source, on_refusal, read_chunk,
    response_id, stream_url, succeeded, take_parts_with, turn_model, Attempt, Chunk, Heard,
    KeySource, Next, TurnStream,
};
use desk_shim::{ShimConfig, DEFAULT_PORT};

fn parsed(s: &str) -> Json {
    read_json(s).unwrap()
}

fn kinds(events: &[Json]) -> Vec<&str> {
    events.iter().map(|e| e.text_at("type").unwrap()).collect()
}

#[test]
fn the_environment_comes_first() {
    assert!(matches!(key_source(Some(" k \n"), true), KeySource::Key(k) if k == "k"));
    assert!(matches!(key_source(Some("  "), true), KeySource::File));
    assert!(matches!(key_source(None, true), KeySource::File));
    match key_source(Some(""), false) {
        KeySource::Missing(m) => {
            assert_eq!(m, "no GEMINI_API_KEY and no [desk_shim].gemini_key_file configured")
        }
        _ => panic!("not missing"),
    }
}

#[test]
fn the_key_file_is_trimmed() {
    assert_eq!(key_from_file("/k", Ok("\u{a0}abc\u{2003}\n")), Ok("abc".to_string()));
    assert_eq!(key_from_file("/k", Ok(" \n")), Err("/k is empty".to_string()));
    assert_eq!(key_from_file("/k", Err("gone")), Err("read /k: gone".to_string()));
    assert_eq!(trim(&trim("  a b ")), trim("  a b "));
    assert_eq!(trim("  a b "), "a b");
}

#[test]
fn white_space_is_that_of_the_standard_library() {
    for u in 0..=0x10ffffu32 {
        if let Some(c) = char::from_u32(u) {
            assert_eq!(desk_shim::text::white_space(c), c.is_whitespace());
        }
    }
}

#[test]
fn names_of_a_turn() {
    let id = response_id();
    assert!(id.starts_with("resp_"));
    assert_eq!(id.len(), 37);
    assert_eq!(dump_name("resp_1"), "resp_1.request.json");
    assert_eq!(turn_model(&parsed("{\"model\":\"m\"}")), "m");
    assert_eq!(turn_model(&parsed("{}")), "gemini-3.7-flash");
    assert_eq!(
        stream_url("m"),
        "https://generativelanguage.googleapis.com/v1beta/models/m:streamGenerateContent?alt=sse"
    );
}

#[test]
fn there_are_two_attempts() {
    assert!(matches!(after_attempt(false, Attempt::RetrySanitized), Next::Retry));
    match after_attempt(true, Attempt::RetrySanitized) {
        Next::Fail(m) => assert_eq!(m, "gemini rejected the tool schema twice"),
        _ => panic!("no failure"),
    }
    assert!(matches!(after_attempt(false, Attempt::Done), Next::Stop));
    assert!(matches!(after_attempt(true, Attempt::Done), Next::Stop));
    assert!(matches!(
        after_attempt(false, Attempt::Failed("e".to_string())),
        Next::Fail(m) if m == "e"
    ));
}

#[test]
fn refusals_are_judged() {
    assert!(succeeded(200) && succeeded(299) && !succeeded(300) && !succeeded(199));
    let body = parsed("{\"tools\":[{\"parametersJsonSchema\":{}}]}");
    let plain = parsed("{\"tools\":[]}");
    assert!(matches!(on_refusal(400, "bad parameters", 0, &body), Attempt::RetrySanitized));
    for outcome in [
        on_refusal(400, "bad parameters", 1, &body),
        on_refusal(400, "bad parameters", 0, &plain),
        on_refusal(400, "bad thing", 0, &body),
    ] {
        assert!(matches!(outcome, Attempt::Failed(_)));
    }
    match on_refusal(404, "no such model", 0, &body) {
        Attempt::Failed(m) => assert_eq!(m, "gemini 404 Not Found: no such model"),
        _ => panic!("no failure"),
    }
    match judge_refusal(500, "500 X", &"é".repeat(900), 0, "") {
        Attempt::Failed(m) => assert_eq!(m, format!("gemini 500 X: {}", "é".repeat(800))),
        _ => panic!("no failure"),
    }
    assert!(contains_text("abcabd", "abd") && !contains_text("abc", "abd") && contains_text("", ""));
}

#[test]
fn chunks_are_read() {
    assert!(matches!(read_chunk(" \r\n"), Chunk::Nothing));
    match read_chunk("{") {
        Chunk::Failed(m) => assert!(m.starts_with("gemini chunk parse: EOF while parsing")),
        _ => panic!("no failure"),
    }
    match read_chunk("{\"error\":{\"code\":3}}") {
        Chunk::Failed(m) => assert_eq!(m, "gemini error: {\"code\":3}"),
        _ => panic!("no failure"),
    }
    match read_chunk("{\"candidates\":[{\"content\":{\"parts\":[{\"text\":\"a\"},{\"text\":\"b\"}]},\"finishReason\":\"STOP\"},{},{\"content\":{\"parts\":[{\"text\":\"c\"}]},\"finishReason\":\"SAFETY\"}],\"usageMetadata\":{\"promptTokenCount\":1}}") {
        Chunk::Parts { parts, usage, reasons } => {
            let texts: Vec<&str> = parts.iter().map(|p| p.text_at("text").unwrap()).collect();
            assert_eq!(texts, vec!["a", "b", "c"]);
            assert_eq!(write_json(&usage.unwrap()), "{\"promptTokenCount\":1}");
            assert_eq!(reasons, vec!["SAFETY".to_string()]);
        }
        _ => panic!("no parts"),
    }
}

#[test]
fn a_turn_streams_from_created_to_completed() {
    let (mut turn, created) = TurnStream::begin("resp_1");
    let mut events = vec![created];
    for data in [
        "",
        "{\"candidates\":[{\"content\":{\"parts\":[{\"text\":\"he\"}]}}]}",
        "{\"candidates\":[{\"content\":{\"parts\":[{\"text\":\"llo\"}]}}],\"usageMetadata\":{\"promptTokenCount\":2,\"candidatesTokenCount\":1}}",
        "{}",
    ] {
        match turn.on_data(data) {
            Heard::Nothing => assert_eq!(data, ""),
            Heard::Events { events: more, reasons } => {
                assert!(reasons.is_empty());
                events.extend(more);
            }
            _ => panic!("failed"),
        }
    }
    events.extend(turn.end().unwrap());
    assert_eq!(
        kinds(&events),
        vec![
            "response.created",
            "response.output_item.added",
            "response.output_text.delta",
            "response.output_text.delta",
            "response.output_item.done",
            "response.completed",
        ]
    );
    for (i, e) in events.iter().enumerate() {
        assert_eq!(e.u64_at("sequence_number"), Some(i as u64 + 1));
    }
    let item = events[4].get("item").unwrap();
    assert_eq!(item.list_at("content").unwrap()[0].text_at("text"), Some("hello"));
    let usage = events[5].get("response").unwrap().get("usage").unwrap();
    assert_eq!(usage.u64_at("input_tokens"), Some(2));
    assert_eq!(usage.u64_at("total_tokens"), Some(3));
}

#[test]
fn a_turn_fails_with_the_message() {
    let (mut turn, _) = TurnStream::begin("resp_1");
    match turn.on_data("{\"error\":\"quota\"}") {
        Heard::Failed(m) => {
            let event = turn.fail(&m).unwrap();
            let error = event.get("response").unwrap().get("error").unwrap();
            assert_eq!(error.text_at("message"), Some("gemini error: \"quota\""));
            assert_eq!(event.u64_at("sequence_number"), Some(2));
        }
        _ => panic!("no failure"),
    }
}

#[test]
fn a_turn_that_fails_half_way_has_one_end() {
    let (mut turn, created) = TurnStream::begin("resp_1");
    let mut events = vec![created];
    match turn.on_data("{\"candidates\":[{\"content\":{\"parts\":[{\"text\":\"he\"}]}}]}") {
        Heard::Events { events: more, .. } => events.extend(more),
        _ => panic!("failed"),
    }
    assert!(matches!(turn.on_data("nope"), Heard::Failed(_)));
    events.push(turn.fail("boom").unwrap());
    assert_eq!(
        kinds(&events),
        vec![
            "response.created",
            "response.output_item.added",
            "response.output_text.delta",
            "response.failed",
        ]
    );
    for (i, e) in events.iter().enumerate() {
        assert_eq!(e.u64_at("sequence_number"), Some(i as u64 + 1));
    }
}

#[test]
fn counts_that_overflow_have_no_end() {
    let (mut turn, _) = TurnStream::begin("resp_1");
    let data = format!(
        "{{\"usageMetadata\":{{\"promptTokenCount\":{},\"candidatesTokenCount\":1}}}}",
        u64::MAX
    );
    assert!(matches!(turn.on_data(&data), Heard::Events { .. }));
    assert!(turn.end().is_none());
    assert!(turn.fail("overflow").is_some());
}

#[test]
fn chunks_make_no_difference() {
    let ids = || PartIds {
        closing: "c".to_string(),
        item: "i".to_string(),
        call: "0123456789abcdef0123456789abcdef".to_string(),
        blob: "b".to_string(),
    };
    let parts = vec![
        parsed("{\"text\":\"a\",\"thought\":true}"),
        parsed("{\"text\":\"b\"}"),
        parsed("{\"functionCall\":{\"name\":\"f\"}}"),
    ];
    let mut whole = Translator::new("r");
    assert!(whole.room_for(parts.len()));
    let all = take_parts_with(&mut whole, &parts, &vec![ids(), ids(), ids()]);
    let mut cut = Translator::new("r");
    let mut some = Vec::new();
    for part in &parts {
        some.extend(take_parts_with(&mut cut, &vec![part.copy()], &vec![ids()]));
    }
    assert!(Json::list(all).equals(&Json::list(some)));
}

#[test]
fn the_table_is_read() {
    let config = ShimConfig::load(Some(
        "[desk_shim]\nport = 9000\ngemini_key_file = \"/abs/key\"\ndump_dir = \"dumps\"\n",
    ))
    .unwrap();
    assert_eq!(config.port, 9000);
    assert!(matches!(&config.gemini_key_file, Some(ConfigPath::Absolute(p)) if p == "/abs/key"));
    assert!(matches!(&config.dump_dir, Some(ConfigPath::InHome(p)) if p == "dumps"));
    assert_eq!(config.base_url(), "http://127.0.0.1:9000/v1");
    assert_eq!(config.listen_addr(), "127.0.0.1:9000");
}

#[test]
fn paths_below_the_directory_are_not_absolute() {
    for path in ["keys/gemini", "key", "./key", "../key", ""] {
        let text = format!("[desk_shim]\ngemini_key_file = \"{path}\"");
        let config = ShimConfig::load(Some(&text)).unwrap();
        assert!(matches!(&config.gemini_key_file, Some(ConfigPath::InHome(p)) if p == path));
    }
}

#[test]
fn an_address_in_use_is_left_to_the_sibling() {
    assert!(matches!(after_bind("a", Bound::Yes), Started::Serve));
    assert!(matches!(after_bind("a", Bound::InUse), Started::Sibling));
    match after_bind("127.0.0.1:1", Bound::Failed) {
        Started::Fail(m) => assert_eq!(m, "desk-shim: bind 127.0.0.1:1"),
        _ => panic!("no failure"),
    }
}

#[test]
fn settings_fall_back() {
    let config = ShimConfig::load(Some("[desk_shim]\n")).unwrap();
    assert_eq!(config.port, DEFAULT_PORT);
    assert_eq!(DEFAULT_PORT, 8397);
    assert!(config.gemini_key_file.is_none() && config.dump_dir.is_none());
    for port in ["-1", "65536", "\"x\"", "1.5"] {
        let text = format!("[desk_shim]\nport = {port}\ndump_dir = 3\n");
        let config = ShimConfig::load(Some(&text)).unwrap();
        assert_eq!(config.port, 8397);
        assert!(config.dump_dir.is_none());
    }
    assert_eq!(ShimConfig::load(Some("[desk_shim]\nport = 65535")).unwrap().port, 65535);
    assert_eq!(ShimConfig::load(Some("[desk_shim]\nport = 0")).unwrap().port, 0);
}

#[test]
fn without_the_table_there_is_no_config() {
    assert!(ShimConfig::load(None).is_none());
    assert!(ShimConfig::load(Some("")).is_none());
    assert!(ShimConfig::load(Some("desk_shim = 1")).is_none());
    assert!(ShimConfig::load(Some("[desk_shim")).is_none());
    assert!(ShimConfig::load(Some("[other]\nport = 1")).is_none());
    assert_eq!(decimal_text(u64::MAX), "18446744073709551615");
    assert_eq!(decimal_text(0), "0");
}
