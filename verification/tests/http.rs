use desk_shim::catalog::{catalog, extra_models, merge_models};
use desk_shim::codec::{read_json, write_json};
use desk_shim::http::{
    catalog_headers, coding_of, decode_body, forward_headers, forward_url, frame, health,
    is_hop_by_hop, plan_request, relay_headers, route, sse_frame, Coding, Header, Plan, Route,
};
use desk_shim::json::Json;
use std::io::Write;

fn parsed(s: &str) -> Json {
    read_json(s).unwrap()
}

fn header(name: &str, value: &str) -> Header {
    Header { name: name.to_string(), value: value.as_bytes().to_vec() }
}

fn names(headers: &[Header]) -> Vec<&str> {
    headers.iter().map(|h| h.name.as_str()).collect()
}

#[test]
fn routes_go_by_the_last_segment() {
    assert_eq!(route("POST", "/v1/responses"), Route::Responses);
    assert_eq!(route("POST", "/backend-api/codex/responses"), Route::Responses);
    assert_eq!(route("POST", "responses"), Route::Responses);
    assert_eq!(route("POST", "/v1/responses//"), Route::Responses);
    assert_eq!(route("GET", "/v1/models/"), Route::Models);
    assert_eq!(route("GET", "/v1/responses"), Route::Proxy);
    assert_eq!(route("POST", "/v1/models"), Route::Proxy);
    assert_eq!(route("POST", "/v1/my-responses"), Route::Proxy);
    assert_eq!(route("GET", "/"), Route::Proxy);
    assert_eq!(route("GET", ""), Route::Proxy);
}

#[test]
fn urls_keep_path_and_query() {
    assert_eq!(forward_url("https://up", Some("/a?b=c")), "https://up/a?b=c");
    assert_eq!(forward_url("https://up", None), "https://up/");
}

#[test]
fn health_is_ok() {
    assert_eq!(write_json(&health()), "{\"ok\":true}");
}

#[test]
fn hop_by_hop_headers_stay_behind() {
    for name in [
        "host", "connection", "keep-alive", "proxy-authenticate", "proxy-authorization", "te",
        "trailer", "transfer-encoding", "upgrade", "content-length", "accept-encoding",
    ] {
        assert!(is_hop_by_hop(name));
    }
    assert!(!is_hop_by_hop("authorization"));
    let src = vec![
        header("host", "h"),
        header("x-a", "1"),
        header("content-encoding", "zstd"),
        header("te", "t"),
        header("x-a", "2"),
    ];
    let once = forward_headers(&src);
    assert_eq!(names(&once), vec!["x-a", "content-encoding", "x-a"]);
    assert_eq!(once[2].value, b"2".to_vec());
    assert_eq!(names(&forward_headers(&once)), names(&once));
}

#[test]
fn relayed_headers_leave_out_what_changed() {
    let src = vec![
        header("content-type", "text/plain"),
        header("content-length", "3"),
        header("transfer-encoding", "chunked"),
        header("connection", "close"),
        header("content-encoding", "gzip"),
        header("host", "h"),
    ];
    assert_eq!(names(&relay_headers(&src)), vec!["content-type", "host"]);
}

#[test]
fn catalog_headers_are_the_extensions_and_the_type() {
    let src = vec![header("x-id", "1"), header("etag", "e"), header("x-codex", "2")];
    let out = catalog_headers(&src);
    assert_eq!(names(&out), vec!["x-id", "x-codex", "content-type"]);
    assert_eq!(out[2].value, b"application/json".to_vec());
    assert_eq!(names(&catalog_headers(&Vec::new())), vec!["content-type"]);
}

#[test]
fn codings_are_told_apart() {
    assert!(matches!(coding_of(None), Coding::Identity));
    assert!(matches!(coding_of(Some("")), Coding::Identity));
    assert!(matches!(coding_of(Some(" Identity ")), Coding::Identity));
    assert!(matches!(coding_of(Some("GZip")), Coding::Gzip));
    assert!(matches!(coding_of(Some("x-gzip")), Coding::Gzip));
    assert!(matches!(coding_of(Some("deflate")), Coding::Deflate));
    assert!(matches!(coding_of(Some("zstd\t")), Coding::Zstd));
    match coding_of(Some("BR")) {
        Coding::Unknown(s) => assert_eq!(s, "br"),
        _ => panic!("known"),
    }
}

#[test]
fn bodies_are_decoded() {
    let text = b"{\"model\":\"gemini-3\"}";
    let mut gz = flate2::write::GzEncoder::new(Vec::new(), flate2::Compression::default());
    gz.write_all(text).unwrap();
    let gz = gz.finish().unwrap();
    assert_eq!(decode_body(Some("gzip"), &gz).unwrap(), text.to_vec());
    let mut z = flate2::write::ZlibEncoder::new(Vec::new(), flate2::Compression::default());
    z.write_all(text).unwrap();
    let z = z.finish().unwrap();
    assert_eq!(decode_body(Some("deflate"), &z).unwrap(), text.to_vec());
    let s = zstd::stream::encode_all(&text[..], 0).unwrap();
    assert_eq!(decode_body(Some("zstd"), &s).unwrap(), text.to_vec());
    assert_eq!(decode_body(None, text).unwrap(), text.to_vec());
    assert_eq!(
        decode_body(Some("br\"x"), text).unwrap_err(),
        "unsupported content-encoding \"br\\\"x\""
    );
    assert!(decode_body(Some("gzip"), b"not gzip").is_err());
    assert!(decode_body(Some("deflate"), b"not zlib").is_err());
    assert!(decode_body(Some("zstd"), b"not zstd").is_err());
}

#[test]
fn requests_are_planned() {
    let gemini = b"{\"model\":\"gemini-3\"}";
    match plan_request(None, gemini, "gemini-") {
        Plan::Translate(v) => assert_eq!(write_json(&v), "{\"model\":\"gemini-3\"}"),
        _ => panic!("not translated"),
    }
    let s = zstd::stream::encode_all(&gemini[..], 0).unwrap();
    assert!(matches!(plan_request(Some("zstd"), &s, "gemini-"), Plan::Translate(_)));
    assert!(matches!(plan_request(None, b"{\"model\":\"gpt\"}", "gemini-"), Plan::Forward));
    assert!(matches!(plan_request(None, b"{}", "gemini-"), Plan::Forward));
    match plan_request(None, b"{", "gemini-") {
        Plan::Reject(m) => assert_eq!(m, "desk-shim: request is not JSON"),
        _ => panic!("not rejected"),
    }
    match plan_request(Some("br"), gemini, "gemini-") {
        Plan::Reject(m) => assert_eq!(m, "desk-shim: unsupported content-encoding \"br\""),
        _ => panic!("not rejected"),
    }
}

#[test]
fn frames_carry_kind_and_data() {
    assert_eq!(frame("k", "d"), "event: k\ndata: d\n\n");
    assert_eq!(
        sse_frame(&parsed("{\"type\":\"t\",\"a\":\"x\\ny\"}")),
        "event: t\ndata: {\"a\":\"x\\ny\",\"type\":\"t\"}\n\n"
    );
    assert_eq!(sse_frame(&parsed("{}")), "event: message\ndata: {}\n\n");
}

#[test]
fn extra_models_follow_the_upstream_ones() {
    let upstream = b"{\"models\":[{\"slug\":\"a\"},{\"slug\":\"b\"}],\"k\":1}";
    let extra = extra_models(Some(
        b"{\"models\":[{\"slug\":\"b\",\"x\":1},{\"slug\":\"c\"},{\"slug\":\"c\",\"y\":2},{}]}",
    ));
    assert_eq!(extra.len(), 4);
    let merged = catalog(Some(upstream), &extra);
    assert_eq!(
        write_json(&merged),
        "{\"k\":1,\"models\":[{\"slug\":\"a\"},{\"slug\":\"b\"},{\"slug\":\"c\"},{}]}"
    );
    assert!(merge_models(merged.copy(), &extra).equals(&merged));
}

#[test]
fn extra_models_are_served_alone() {
    let extra = extra_models(Some(b"{\"models\":[{\"slug\":\"c\"}]}"));
    assert_eq!(write_json(&catalog(None, &extra)), "{\"models\":[{\"slug\":\"c\"}]}");
    assert_eq!(write_json(&catalog(Some(b"<html>"), &extra)), "{\"models\":[{\"slug\":\"c\"}]}");
}

#[test]
fn a_catalog_without_a_list_stays() {
    let extra = extra_models(Some(b"{\"models\":[{\"slug\":\"c\"}]}"));
    assert_eq!(write_json(&catalog(Some(b"{\"models\":7}"), &extra)), "{\"models\":7}");
    assert_eq!(write_json(&catalog(Some(b"[1]"), &extra)), "[1]");
    assert!(extra_models(None).is_empty());
    assert!(extra_models(Some(b"nope")).is_empty());
    assert!(extra_models(Some(b"{}")).is_empty());
}
