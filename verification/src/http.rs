//! The loopback HTTP surface: routing, headers, request bodies and the frames of
//! the event stream.

use vstd::prelude::*;
use vstd::string::*;
use vstd::utf8::*;

use std::io::Read;

use crate::codec::{json_text, read_bytes, read_json_bytes, write_json};
use crate::json::{empty_object, Json, JsonModel};
use crate::text::{ascii_lowercase, chars_of, concat, lower, same_text, starts_with, trim, trimmed};

verus! {

/// Who answers a request.
#[derive(Debug, Clone, Copy, PartialEq, Eq, Structural)]
pub enum Route {
    /// A turn of a model.
    Responses,
    /// The catalog of models.
    Models,
    /// The upstream origin.
    Proxy,
}

/// `s` without the slashes that it ends with.
pub open spec fn without_slashes(s: Seq<char>) -> Seq<char>
    decreases s.len(),
{
    if s.len() > 0 && s.last() == '/' {
        without_slashes(s.drop_last())
    } else {
        s
    }
}

/// What stands after the last slash of `s`.
pub open spec fn last_segment(s: Seq<char>) -> Seq<char>
    decreases s.len(),
{
    if s.len() == 0 || s.last() == '/' {
        seq![]
    } else {
        last_segment(s.drop_last()).push(s.last())
    }
}

/// The route of a method and a path: by the last segment of the path, so that the
/// same endpoints are reached below any prefix.
pub open spec fn route_of(method: Seq<char>, path: Seq<char>) -> Route {
    let last = last_segment(without_slashes(path));
    if method == "POST"@ && last == "responses"@ {
        Route::Responses
    } else if method == "GET"@ && last == "models"@ {
        Route::Models
    } else {
        Route::Proxy
    }
}

proof fn lemma_last_segment(s: Seq<char>, from: int)
    requires
        0 <= from <= s.len(),
        from == 0 || s[from - 1] == '/',
        forall|i: int| from <= i < s.len() ==> s[i] != '/',
    ensures
        last_segment(s) == s.subrange(from, s.len() as int),
    decreases s.len(),
{
    if from == s.len() {
        assert(s.subrange(from, s.len() as int) =~= seq![]);
    } else {
        let front = s.drop_last();
        assert forall|i: int| from <= i < front.len() implies front[i] != '/' by {
            assert(front[i] == s[i]);
        }
        lemma_last_segment(front, from);
        assert(s[s.len() - 1] != '/');
        assert(front.subrange(from, front.len() as int).push(s.last()) =~= s.subrange(
            from,
            s.len() as int,
        ));
    }
}

/// The last segment of a path, trailing slashes left aside.
fn endpoint(path: &str) -> (r: String)
    ensures
        r@ == last_segment(without_slashes(path@)),
{
    let cs = chars_of(path);
    let mut to: usize = cs.len();
    assert(path@.take(to as int) =~= path@);
    while to > 0 && cs[to - 1] == '/'
        invariant
            cs@ == path@,
            to <= cs@.len(),
            without_slashes(path@) == without_slashes(path@.take(to as int)),
        decreases to,
    {
        assert(path@.take(to as int).drop_last() =~= path@.take(to - 1));
        to = to - 1;
    }
    let ghost whole = path@.take(to as int);
    assert(without_slashes(path@) == whole);
    let mut from: usize = to;
    while from > 0 && cs[from - 1] != '/'
        invariant
            cs@ == path@,
            to <= cs@.len(),
            from <= to,
            whole == path@.take(to as int),
            forall|i: int| from <= i < to ==> path@[i] != '/',
        decreases from,
    {
        from = from - 1;
    }
    proof {
        lemma_last_segment(whole, from as int);
        assert(whole.subrange(from as int, whole.len() as int) =~= path@.subrange(
            from as int,
            to as int,
        ));
    }
    path.substring_char(from, to).to_owned()
}

/// Routes a request by its method and the last segment of its path.
pub fn route(method: &str, path: &str) -> (r: Route)
    ensures
        r == route_of(method@, path@),
{
    let last = endpoint(path);
    if same_text(method, "POST") && same_text(last.as_str(), "responses") {
        Route::Responses
    } else if same_text(method, "GET") && same_text(last.as_str(), "models") {
        Route::Models
    } else {
        Route::Proxy
    }
}

/// A path below any prefix goes where the bare path goes.
pub proof fn law_route_below_any_prefix(method: Seq<char>, prefix: Seq<char>, name: Seq<char>)
    requires
        name.len() > 0,
        forall|i: int| 0 <= i < name.len() ==> name[i] != '/',
    ensures
        route_of(method, prefix.push('/') + name) == route_of(method, name),
{
    let whole = prefix.push('/') + name;
    assert(whole.last() == name[name.len() - 1]);
    assert(name.last() == name[name.len() - 1]);
    let from = prefix.len() + 1;
    assert forall|i: int| from <= i < whole.len() implies whole[i] != '/' by {
        assert(whole[i] == name[i - from]);
    }
    lemma_last_segment(whole, from as int);
    lemma_last_segment(name, 0);
    assert(whole.subrange(from as int, whole.len() as int) =~= name);
    assert(name.subrange(0, name.len() as int) =~= name);
}

/// A slash at the end of a path changes nothing.
pub proof fn law_route_trailing_slash(method: Seq<char>, path: Seq<char>)
    ensures
        route_of(method, path.push('/')) == route_of(method, path),
{
    assert(path.push('/').drop_last() =~= path);
}

/// The URL that a request is sent on to.
pub fn forward_url(upstream: &str, path_and_query: Option<&str>) -> (r: String)
    ensures
        r@ == upstream@ + (match path_and_query {
            Some(p) => p@,
            None => "/"@,
        }),
{
    match path_and_query {
        Some(p) => concat(upstream, p),
        None => concat(upstream, "/"),
    }
}

/// The answer of the health endpoints.
pub fn health() -> (r: Json)
    ensures
        r@ == empty_object().with("ok"@, JsonModel::Bool(true)),
{
    Json::object().with("ok", Json::Bool(true))
}

/// A header: its name in lower case, and the bytes of its value.
#[derive(Debug)]
pub struct Header {
    pub name: String,
    pub value: Vec<u8>,
}

/// The model of a header.
#[verifier::ext_equal]
pub struct HeaderModel {
    pub name: Seq<char>,
    pub value: Seq<u8>,
}

impl View for Header {
    type V = HeaderModel;

    open spec fn view(&self) -> HeaderModel {
        HeaderModel { name: self.name@, value: self.value@ }
    }
}

/// The models of a list of headers.
pub open spec fn header_models(headers: Seq<Header>) -> Seq<HeaderModel> {
    headers.map_values(|h: Header| h@)
}

/// Which headers go on.
#[derive(Debug, Clone, Copy, PartialEq, Eq, Structural)]
enum Rule {
    /// Those of a request that is sent upstream.
    Forward,
    /// Those of an upstream response that is handed back.
    Relay,
    /// Those of the upstream catalog.
    Catalog,
}

/// The request headers that concern one connection only.
pub open spec fn hop_by_hop(name: Seq<char>) -> bool {
    ||| name == "host"@
    ||| name == "connection"@
    ||| name == "keep-alive"@
    ||| name == "proxy-authenticate"@
    ||| name == "proxy-authorization"@
    ||| name == "te"@
    ||| name == "trailer"@
    ||| name == "transfer-encoding"@
    ||| name == "upgrade"@
    ||| name == "content-length"@
    ||| name == "accept-encoding"@
}

/// The response headers that are not handed back.
pub open spec fn not_relayed(name: Seq<char>) -> bool {
    ||| name == "transfer-encoding"@
    ||| name == "connection"@
    ||| name == "content-length"@
    ||| name == "content-encoding"@
}

/// The catalog headers that are handed back.
pub open spec fn is_extension(name: Seq<char>) -> bool {
    "x-"@.is_prefix_of(name)
}

spec fn goes_on(rule: Rule, name: Seq<char>) -> bool {
    match rule {
        Rule::Forward => !hop_by_hop(name),
        Rule::Relay => !not_relayed(name),
        Rule::Catalog => is_extension(name),
    }
}

/// Whether a request header concerns one connection only.
pub fn is_hop_by_hop(name: &str) -> (r: bool)
    ensures
        r == hop_by_hop(name@),
{
    same_text(name, "host") || same_text(name, "connection") || same_text(name, "keep-alive")
        || same_text(name, "proxy-authenticate") || same_text(name, "proxy-authorization")
        || same_text(name, "te") || same_text(name, "trailer") || same_text(
        name,
        "transfer-encoding",
    ) || same_text(name, "upgrade") || same_text(name, "content-length") || same_text(
        name,
        "accept-encoding",
    )
}

fn passes(rule: Rule, name: &str) -> (r: bool)
    ensures
        r == goes_on(rule, name@),
{
    match rule {
        Rule::Forward => !is_hop_by_hop(name),
        Rule::Relay => !(same_text(name, "transfer-encoding") || same_text(name, "connection")
            || same_text(name, "content-length") || same_text(name, "content-encoding")),
        Rule::Catalog => starts_with(name, "x-"),
    }
}

/// A copy of bytes.
fn copy_bytes(b: &[u8]) -> (r: Vec<u8>)
    ensures
        r@ == b@,
{
    let mut out: Vec<u8> = Vec::new();
    let n: usize = b.len();
    let mut i: usize = 0;
    while i < n
        invariant
            n == b@.len(),
            i <= n,
            out@ == b@.take(i as int),
        decreases n - i,
    {
        out.push(b[i]);
        assert(b@.take(i + 1) =~= b@.take(i as int).push(b@[i as int]));
        i = i + 1;
    }
    assert(b@.take(n as int) =~= b@);
    out
}

/// The headers that satisfy a condition, in order.
pub open spec fn kept(headers: Seq<HeaderModel>, keep: spec_fn(Seq<char>) -> bool) -> Seq<
    HeaderModel,
>
    decreases headers.len(),
{
    if headers.len() == 0 {
        seq![]
    } else if keep(headers.last().name) {
        kept(headers.drop_last(), keep).push(headers.last())
    } else {
        kept(headers.drop_last(), keep)
    }
}

fn keep_headers(src: &Vec<Header>, rule: Rule) -> (r: Vec<Header>)
    ensures
        header_models(r@) == kept(
            header_models(src@),
            |name: Seq<char>| goes_on(rule, name),
        ),
{
    let mut out: Vec<Header> = Vec::new();
    let n: usize = src.len();
    let mut i: usize = 0;
    let ghost all = header_models(src@);
    let ghost keep = |name: Seq<char>| goes_on(rule, name);
    assert(header_models(out@) =~= kept(all.take(0), keep));
    while i < n
        invariant
            n == src@.len(),
            i <= n,
            all == header_models(src@),
            keep == (|name: Seq<char>| goes_on(rule, name)),
            header_models(out@) == kept(all.take(i as int), keep),
        decreases n - i,
    {
        let h = &src[i];
        assert(all.take(i + 1).drop_last() =~= all.take(i as int));
        assert(all.take(i + 1).last() == h@);
        let ghost before = out@;
        if passes(rule, h.name.as_str()) {
            out.push(Header { name: h.name.clone(), value: copy_bytes(h.value.as_slice()) });
            assert(header_models(out@) =~= header_models(before).push(h@));
        }
        i = i + 1;
    }
    assert(all.take(n as int) =~= all);
    out
}

proof fn lemma_kept_same(
    headers: Seq<HeaderModel>,
    a: spec_fn(Seq<char>) -> bool,
    b: spec_fn(Seq<char>) -> bool,
)
    requires
        forall|name: Seq<char>| #[trigger] a(name) == b(name),
    ensures
        kept(headers, a) == kept(headers, b),
    decreases headers.len(),
{
    if headers.len() > 0 {
        lemma_kept_same(headers.drop_last(), a, b);
        assert(a(headers.last().name) == b(headers.last().name));
    }
}

/// The headers of a request that is sent upstream: all but those that concern one
/// connection only, in order.
pub fn forward_headers(src: &Vec<Header>) -> (r: Vec<Header>)
    ensures
        header_models(r@) == kept(header_models(src@), |name: Seq<char>| !hop_by_hop(name)),
{
    let out = keep_headers(src, Rule::Forward);
    proof {
        lemma_kept_same(
            header_models(src@),
            |name: Seq<char>| goes_on(Rule::Forward, name),
            |name: Seq<char>| !hop_by_hop(name),
        );
    }
    out
}

/// The headers of an upstream response that is handed back: all but those that
/// the body's passage changes, in order.
pub fn relay_headers(src: &Vec<Header>) -> (r: Vec<Header>)
    ensures
        header_models(r@) == kept(header_models(src@), |name: Seq<char>| !not_relayed(name)),
{
    let out = keep_headers(src, Rule::Relay);
    proof {
        lemma_kept_same(
            header_models(src@),
            |name: Seq<char>| goes_on(Rule::Relay, name),
            |name: Seq<char>| !not_relayed(name),
        );
    }
    out
}

/// The header that says that a body is JSON.
pub open spec fn json_header() -> HeaderModel {
    HeaderModel { name: "content-type"@, value: encode_utf8("application/json"@) }
}

/// The headers of the catalog that is handed back: the extension headers of the
/// upstream response, in order, and the type of the body.
pub fn catalog_headers(src: &Vec<Header>) -> (r: Vec<Header>)
    ensures
        header_models(r@) == kept(
            header_models(src@),
            |name: Seq<char>| is_extension(name),
        ).push(json_header()),
{
    let mut out = keep_headers(src, Rule::Catalog);
    proof {
        lemma_kept_same(
            header_models(src@),
            |name: Seq<char>| goes_on(Rule::Catalog, name),
            |name: Seq<char>| is_extension(name),
        );
    }
    let ghost before = out@;
    let h = Header {
        name: "content-type".to_owned(),
        value: copy_bytes("application/json".as_bytes()),
    };
    out.push(h);
    assert(header_models(out@) =~= header_models(before).push(json_header()));
    out
}

/// Keeping headers twice by one condition is keeping them once.
pub proof fn law_kept_twice(headers: Seq<HeaderModel>, keep: spec_fn(Seq<char>) -> bool)
    ensures
        kept(kept(headers, keep), keep) == kept(headers, keep),
    decreases headers.len(),
{
    if headers.len() > 0 {
        let front = headers.drop_last();
        law_kept_twice(front, keep);
        if keep(headers.last().name) {
            assert(kept(front, keep).push(headers.last()).drop_last() =~= kept(front, keep));
        }
    }
}

/// A kept header was there and satisfies the condition, and one that satisfies it
/// is kept.
pub proof fn law_kept_exactly(
    headers: Seq<HeaderModel>,
    keep: spec_fn(Seq<char>) -> bool,
    h: HeaderModel,
)
    ensures
        kept(headers, keep).contains(h) <==> headers.contains(h) && keep(h.name),
    decreases headers.len(),
{
    let out = kept(headers, keep);
    if headers.len() > 0 {
        let front = headers.drop_last();
        law_kept_exactly(front, keep, h);
        assert(headers =~= front.push(headers.last()));
        if headers.contains(h) && h != headers.last() {
            let i = choose|i: int| 0 <= i < headers.len() && headers[i] == h;
            assert(front[i] == h);
        }
        if front.contains(h) {
            let i = choose|i: int| 0 <= i < front.len() && front[i] == h;
            assert(headers[i] == h);
        }
        if h == headers.last() {
            assert(headers[headers.len() - 1] == h);
        }
        if keep(headers.last().name) {
            let rest = kept(front, keep);
            assert(out == rest.push(headers.last()));
            if h == headers.last() {
                assert(out[out.len() - 1] == h);
            }
            if rest.contains(h) {
                let i = choose|i: int| 0 <= i < rest.len() && rest[i] == h;
                assert(out[i] == h);
            }
            if out.contains(h) && h != headers.last() {
                let i = choose|i: int| 0 <= i < out.len() && out[i] == h;
                assert(rest[i] == h);
            }
        }
    }
}

/// How a request body is encoded.
#[derive(Debug)]
pub enum Coding {
    Identity,
    Gzip,
    Deflate,
    Zstd,
    /// Another coding, in lower case.
    Unknown(String),
}

/// The model of a coding.
pub enum CodingModel {
    Identity,
    Gzip,
    Deflate,
    Zstd,
    Unknown(Seq<char>),
}

impl View for Coding {
    type V = CodingModel;

    open spec fn view(&self) -> CodingModel {
        match self {
            Coding::Identity => CodingModel::Identity,
            Coding::Gzip => CodingModel::Gzip,
            Coding::Deflate => CodingModel::Deflate,
            Coding::Zstd => CodingModel::Zstd,
            Coding::Unknown(s) => CodingModel::Unknown(s@),
        }
    }
}

/// The coding that a `content-encoding` header names, white space and case left
/// aside. Without the header, or with an empty one, there is none.
pub open spec fn coding_model(header: Option<Seq<char>>) -> CodingModel {
    match header {
        None => CodingModel::Identity,
        Some(h) => {
            let name = trimmed(h).map_values(|c: char| lower(c));
            if name == ""@ || name == "identity"@ {
                CodingModel::Identity
            } else if name == "gzip"@ || name == "x-gzip"@ {
                CodingModel::Gzip
            } else if name == "deflate"@ {
                CodingModel::Deflate
            } else if name == "zstd"@ {
                CodingModel::Zstd
            } else {
                CodingModel::Unknown(name)
            }
        },
    }
}

/// The coding that a `content-encoding` header names.
pub fn coding_of(header: Option<&str>) -> (r: Coding)
    ensures
        r@ == coding_model(
            (match header {
                Some(h) => Some(h@),
                None => None,
            }),
        ),
{
    match header {
        None => Coding::Identity,
        Some(h) => {
            let name = ascii_lowercase(trim(h).as_str());
            if same_text(name.as_str(), "") || same_text(name.as_str(), "identity") {
                Coding::Identity
            } else if same_text(name.as_str(), "gzip") || same_text(name.as_str(), "x-gzip") {
                Coding::Gzip
            } else if same_text(name.as_str(), "deflate") {
                Coding::Deflate
            } else if same_text(name.as_str(), "zstd") {
                Coding::Zstd
            } else {
                Coding::Unknown(name)
            }
        },
    }
}

/// The bytes that a gzip stream holds, or the message that says why it holds none.
pub uninterp spec fn gunzipped(b: Seq<u8>) -> Result<Seq<u8>, Seq<char>>;

/// The bytes that a zlib stream holds, or the message that says why it holds none.
pub uninterp spec fn inflated(b: Seq<u8>) -> Result<Seq<u8>, Seq<char>>;

/// The bytes that a zstd stream holds, or the message that says why it holds none.
pub uninterp spec fn unzstd(b: Seq<u8>) -> Result<Seq<u8>, Seq<char>>;

/// A text between quotes, with what needs it escaped.
pub uninterp spec fn quoted(s: Seq<char>) -> Seq<char>;

/// Whether a result is the one that a name stands for.
pub open spec fn decodes(r: Result<Vec<u8>, String>, named: Result<Seq<u8>, Seq<char>>) -> bool {
    match r {
        Ok(b) => named is Ok && named->Ok_0 == b@,
        Err(e) => named is Err && named->Err_0 == e@,
    }
}

/// `read_to_end` of a `flate2::read::GzDecoder`: the bytes of the first gzip member
/// or the error's message, a function of the input alone.
#[verifier::external_body]
fn gunzip(b: &[u8]) -> (r: Result<Vec<u8>, String>)
    ensures
        decodes(r, gunzipped(b@)),
{
    let mut out: Vec<u8> = Vec::new();
    match flate2::read::GzDecoder::new(b).read_to_end(&mut out) {
        Ok(_) => Ok(out),
        Err(e) => Err(e.to_string()),
    }
}

/// `read_to_end` of a `flate2::read::ZlibDecoder`: the bytes or the error's message,
/// a function of the input alone.
#[verifier::external_body]
fn inflate(b: &[u8]) -> (r: Result<Vec<u8>, String>)
    ensures
        decodes(r, inflated(b@)),
{
    let mut out: Vec<u8> = Vec::new();
    match flate2::read::ZlibDecoder::new(b).read_to_end(&mut out) {
        Ok(_) => Ok(out),
        Err(e) => Err(e.to_string()),
    }
}

/// `read_to_end` of a `zstd::stream::read::Decoder`: the bytes or the error's
/// message, a function of the input alone.
#[verifier::external_body]
fn decode_zstd(b: &[u8]) -> (r: Result<Vec<u8>, String>)
    ensures
        decodes(r, unzstd(b@)),
{
    let mut out: Vec<u8> = Vec::new();
    match zstd::stream::read::Decoder::new(b) {
        Ok(mut d) => match d.read_to_end(&mut out) {
            Ok(_) => Ok(out),
            Err(e) => Err(e.to_string()),
        },
        Err(e) => Err(e.to_string()),
    }
}

/// `<str as std::fmt::Debug>::fmt`: the text between quotes, a function of the text
/// alone.
#[verifier::external_body]
fn quote(s: &str) -> (r: String)
    ensures
        r@ == quoted(s@),
{
    format!("{s:?}")
}

/// The body that an encoded body stands for, or the message that says why it
/// stands for none.
pub open spec fn decoded_body(coding: CodingModel, body: Seq<u8>) -> Result<Seq<u8>, Seq<char>> {
    match coding {
        CodingModel::Identity => Ok(body),
        CodingModel::Gzip => gunzipped(body),
        CodingModel::Deflate => inflated(body),
        CodingModel::Zstd => unzstd(body),
        CodingModel::Unknown(name) => Err("unsupported content-encoding "@ + quoted(name)),
    }
}

/// A body that is not encoded stands for itself; one of an unknown coding is
/// refused, whatever it holds; and one of a known coding is what its decoder gives.
pub proof fn law_codings(header: Seq<char>, body: Seq<u8>)
    ensures
        ({
            let name = trimmed(header).map_values(|c: char| lower(c));
            let decoded = decoded_body(coding_model(Some(header)), body);
            if name == ""@ || name == "identity"@ {
                decoded is Ok && decoded->Ok_0 == body
            } else if name == "gzip"@ || name == "x-gzip"@ {
                decoded == gunzipped(body)
            } else if name == "deflate"@ {
                decoded == inflated(body)
            } else if name == "zstd"@ {
                decoded == unzstd(body)
            } else {
                decoded is Err && decoded->Err_0 == "unsupported content-encoding "@ + quoted(name)
            }
        }),
        ({
            let decoded = decoded_body(coding_model(None), body);
            decoded is Ok && decoded->Ok_0 == body
        }),
{
}

/// Decodes a request body by its `content-encoding` header. What the three decoders
/// give is named; that they give back what an encoder was given is left unsaid.
pub fn decode_body(header: Option<&str>, body: &[u8]) -> (r: Result<Vec<u8>, String>)
    ensures
        decodes(
            r,
            decoded_body(
                coding_model(
                    (match header {
                        Some(h) => Some(h@),
                        None => None,
                    }),
                ),
                body@,
            ),
        ),
{
    match coding_of(header) {
        Coding::Identity => Ok(copy_bytes(body)),
        Coding::Gzip => gunzip(body),
        Coding::Deflate => inflate(body),
        Coding::Zstd => decode_zstd(body),
        Coding::Unknown(name) => Err(
            concat("unsupported content-encoding ", quote(name.as_str()).as_str()),
        ),
    }
}

/// What is done with a request for a turn.
#[derive(Debug)]
pub enum Plan {
    /// It is refused as a bad request, with the message.
    Reject(String),
    /// It is for another model: it is sent upstream as it came.
    Forward,
    /// It is translated for Gemini.
    Translate(Json),
}

/// The model of a plan.
pub enum PlanModel {
    Reject(Seq<char>),
    Forward,
    Translate(JsonModel),
}

impl View for Plan {
    type V = PlanModel;

    open spec fn view(&self) -> PlanModel {
        match self {
            Plan::Reject(m) => PlanModel::Reject(m@),
            Plan::Forward => PlanModel::Forward,
            Plan::Translate(j) => PlanModel::Translate(j@),
        }
    }
}

/// The plan for a payload: models of the prefix are Gemini's.
pub open spec fn payload_plan(payload: JsonModel, prefix: Seq<char>) -> PlanModel {
    if prefix.is_prefix_of(payload.text_or("model"@, ""@)) {
        PlanModel::Translate(payload)
    } else {
        PlanModel::Forward
    }
}

/// The plan for a body that was decoded and read, or not.
pub open spec fn decoded_plan(
    decoded: Result<Seq<u8>, Seq<char>>,
    payload: Option<JsonModel>,
    prefix: Seq<char>,
) -> PlanModel {
    match decoded {
        Err(e) => PlanModel::Reject("desk-shim: "@ + e),
        Ok(_) => match payload {
            None => PlanModel::Reject("desk-shim: request is not JSON"@),
            Some(v) => payload_plan(v, prefix),
        },
    }
}

/// The plan for a payload.
pub fn plan_payload(payload: Json, prefix: &str) -> (r: Plan)
    ensures
        r@ == payload_plan(payload@, prefix@),
{
    if starts_with(payload.text_or("model", ""), prefix) {
        Plan::Translate(payload)
    } else {
        Plan::Forward
    }
}

/// The plan for a body that was decoded and read, or not.
pub fn plan_decoded(decoded: Result<Option<Json>, String>, prefix: &str) -> (r: Plan)
    ensures
        match decoded {
            Ok(Some(v)) => r@ == payload_plan(v@, prefix@),
            Ok(None) => r@ == PlanModel::Reject("desk-shim: request is not JSON"@),
            Err(e) => r@ == PlanModel::Reject("desk-shim: "@ + e@),
        },
{
    match decoded {
        Ok(Some(v)) => plan_payload(v, prefix),
        Ok(None) => Plan::Reject("desk-shim: request is not JSON".to_owned()),
        Err(e) => Plan::Reject(concat("desk-shim: ", e.as_str())),
    }
}

/// The plan for a request for a turn, by its `content-encoding` header and its body.
pub fn plan_request(header: Option<&str>, body: &[u8], prefix: &str) -> (r: Plan)
    ensures
        ({
            let decoded = decoded_body(
                coding_model(
                    match header {
                        Some(h) => Some(h@),
                        None => None,
                    },
                ),
                body@,
            );
            r@ == decoded_plan(
                decoded,
                match decoded {
                    Ok(b) => read_bytes(b),
                    Err(_) => None,
                },
                prefix@,
            )
        }),
{
    match decode_body(header, body) {
        Ok(b) => plan_decoded(Ok(read_json_bytes(b.as_slice())), prefix),
        Err(e) => plan_decoded(Err(e), prefix),
    }
}

/// A frame of the event stream.
pub open spec fn frame_text(kind: Seq<char>, data: Seq<char>) -> Seq<char> {
    "event: "@ + kind + "\ndata: "@ + data + "\n\n"@
}

/// Writes a frame of the event stream.
pub fn frame(kind: &str, data: &str) -> (r: String)
    ensures
        r@ == frame_text(kind@, data@),
{
    let mut out = concat("event: ", kind);
    out.append("\ndata: ");
    out.append(data);
    out.append("\n\n");
    out
}

/// Writes an event as a frame of the event stream: its type, and its JSON text on
/// one line.
pub fn sse_frame(event: &Json) -> (r: String)
    ensures
        r@ == frame_text(event@.text_or("type"@, "message"@), json_text(event@)),
{
    frame(event.text_or("type", "message"), write_json(event).as_str())
}

/// Headers are kept in their order, each as it is: of two lists, one after the other,
/// are kept those of the first and then those of the second.
pub proof fn law_kept_in_order(
    a: Seq<HeaderModel>,
    b: Seq<HeaderModel>,
    h: HeaderModel,
    keep: spec_fn(Seq<char>) -> bool,
)
    ensures
        kept(a + b, keep) == kept(a, keep) + kept(b, keep),
        keep(h.name) ==> kept(seq![h], keep) == seq![h],
        !keep(h.name) ==> kept(seq![h], keep).len() == 0,
    decreases b.len(),
{
    let one = seq![h];
    assert(one.drop_last() =~= seq![]);
    assert(kept(one.drop_last(), keep) =~= seq![]);
    assert(keep(h.name) ==> kept(one, keep) =~= seq![h]);
    if b.len() == 0 {
        assert(a + b =~= a);
        assert(kept(a, keep) + kept(b, keep) =~= kept(a, keep));
    } else {
        law_kept_in_order(a, b.drop_last(), h, keep);
        assert((a + b).drop_last() =~= a + b.drop_last());
        assert(kept(a + b, keep) =~= kept(a, keep) + kept(b, keep));
    }
}

/// The headers that a request is sent upstream with are all but the eleven that are
/// written out here.
pub proof fn law_forwarded_exactly(headers: Seq<HeaderModel>, h: HeaderModel)
    ensures
        kept(headers, |name: Seq<char>| !hop_by_hop(name)).contains(h) <==> headers.contains(h)
            && h.name != "host"@ && h.name != "connection"@ && h.name != "keep-alive"@ && h.name != "proxy-authenticate"@ && h.name != "proxy-authorization"@ && h.name != "te"@ && h.name != "trailer"@ && h.name != "transfer-encoding"@ && h.name != "upgrade"@ && h.name != "content-length"@ && h.name != "accept-encoding"@,
{
    law_kept_exactly(headers, |name: Seq<char>| !hop_by_hop(name), h);
}

/// The headers that a response is handed back with are all but the four that are
/// written out here.
pub proof fn law_relayed_exactly(headers: Seq<HeaderModel>, h: HeaderModel)
    ensures
        kept(headers, |name: Seq<char>| !not_relayed(name)).contains(h) <==> headers.contains(h)
            && h.name != "transfer-encoding"@ && h.name != "connection"@ && h.name != "content-length"@ && h.name != "content-encoding"@,
{
    law_kept_exactly(headers, |name: Seq<char>| !not_relayed(name), h);
}

/// The headers that the catalog is handed back with are those whose name begins with
/// `x-`, and the one that says that the body is JSON.
pub proof fn law_catalog_headers(headers: Seq<HeaderModel>, h: HeaderModel)
    ensures
        kept(headers, |name: Seq<char>| is_extension(name)).contains(h) <==> headers.contains(h)
            && h.name.len() >= 2 && h.name[0] == 'x' && h.name[1] == '-',
        json_header().name == "content-type"@,
        json_header().value == encode_utf8("application/json"@),
{
    law_kept_exactly(headers, |name: Seq<char>| is_extension(name), h);
    reveal_strlit("x-");
    let x = "x-"@;
    assert(x.len() == 2 && x[0] == 'x' && x[1] == '-');
    if h.name.len() >= 2 && h.name[0] == 'x' && h.name[1] == '-' {
        assert(h.name.take(2) =~= x);
    }
    if is_extension(h.name) {
        assert(h.name.take(2)[0] == x[0]);
        assert(h.name.take(2)[1] == x[1]);
    }
}

/// Whether a text is slashes only.
pub open spec fn all_slashes(s: Seq<char>) -> bool {
    forall|i: int| 0 <= i < s.len() ==> #[trigger] s[i] == '/'
}

/// Whether a path ends with that name: alone or after a slash, and with any number of
/// slashes behind it.
pub open spec fn ends_with_name(path: Seq<char>, name: Seq<char>) -> bool {
    exists|before: Seq<char>, slashes: Seq<char>|
        (before.len() == 0 || before.last() == '/') && all_slashes(slashes) && path
            == #[trigger] (before + name + slashes)
}

proof fn lemma_slashes_go(s: Seq<char>, slashes: Seq<char>)
    requires
        all_slashes(slashes),
    ensures
        without_slashes(s + slashes) == without_slashes(s),
    decreases slashes.len(),
{
    if slashes.len() == 0 {
        assert(s + slashes =~= s);
    } else {
        assert((s + slashes).drop_last() =~= s + slashes.drop_last());
        assert((s + slashes).last() == slashes[slashes.len() - 1]);
        assert forall|i: int| 0 <= i < slashes.drop_last().len() implies #[trigger]
            slashes.drop_last()[i] == '/' by {
            assert(slashes[i] == '/');
        }
        lemma_slashes_go(s, slashes.drop_last());
    }
}

proof fn lemma_slashes_back(s: Seq<char>)
    ensures
        exists|slashes: Seq<char>|
            all_slashes(slashes) && s == #[trigger] (without_slashes(s) + slashes),
    decreases s.len(),
{
    if s.len() > 0 && s.last() == '/' {
        let front = s.drop_last();
        lemma_slashes_back(front);
        let x = choose|x: Seq<char>|
            all_slashes(x) && front == #[trigger] (without_slashes(front) + x);
        let y = x.push('/');
        assert forall|i: int| 0 <= i < y.len() implies #[trigger] y[i] == '/' by {
            if i < x.len() {
                assert(x[i] == '/');
            }
        }
        assert(s =~= front.push('/'));
        assert((without_slashes(front) + x).push('/') =~= without_slashes(front) + y);
        assert(all_slashes(y) && s == without_slashes(s) + y);
    } else {
        let none: Seq<char> = seq![];
        assert(all_slashes(none));
        assert(s =~= without_slashes(s) + none);
    }
}

proof fn lemma_segment_back(s: Seq<char>)
    ensures
        exists|before: Seq<char>|
            (before.len() == 0 || before.last() == '/') && s == #[trigger] (before + last_segment(
                s,
            )),
    decreases s.len(),
{
    if s.len() == 0 || s.last() == '/' {
        assert(s =~= s + last_segment(s));
    } else {
        let front = s.drop_last();
        lemma_segment_back(front);
        let before = choose|before: Seq<char>|
            (before.len() == 0 || before.last() == '/') && front == #[trigger] (before
                + last_segment(front));
        assert(s =~= front.push(s.last()));
        assert((before + last_segment(front)).push(s.last()) =~= before + last_segment(s));
    }
}

proof fn lemma_ends_with(path: Seq<char>, name: Seq<char>)
    requires
        name.len() > 0,
        forall|i: int| 0 <= i < name.len() ==> name[i] != '/',
    ensures
        ends_with_name(path, name) <==> last_segment(without_slashes(path)) == name,
{
    if ends_with_name(path, name) {
        let (before, slashes) = choose|before: Seq<char>, slashes: Seq<char>|
            (before.len() == 0 || before.last() == '/') && all_slashes(slashes) && path
                == #[trigger] (before + name + slashes);
        lemma_slashes_go(before + name, slashes);
        let whole = before + name;
        assert(whole.last() == name[name.len() - 1]);
        assert forall|i: int| before.len() <= i < whole.len() implies whole[i] != '/' by {
            assert(whole[i] == name[i - before.len()]);
        }
        lemma_last_segment(whole, before.len() as int);
        assert(whole.subrange(before.len() as int, whole.len() as int) =~= name);
    }
    if last_segment(without_slashes(path)) == name {
        lemma_slashes_back(path);
        let slashes = choose|x: Seq<char>|
            all_slashes(x) && path == #[trigger] (without_slashes(path) + x);
        lemma_segment_back(without_slashes(path));
        let before = choose|before: Seq<char>|
            (before.len() == 0 || before.last() == '/') && without_slashes(path) == #[trigger] (
            before + last_segment(without_slashes(path)));
        assert(path == before + name + slashes);
    }
}

/// A turn is what is posted to a path that ends with `responses`, the catalog is what
/// is got from one that ends with `models`, and everything else goes upstream.
pub proof fn law_route_exactly(method: Seq<char>, path: Seq<char>)
    ensures
        route_of(method, path) == Route::Responses <==> method == "POST"@ && ends_with_name(
            path,
            "responses"@,
        ),
        route_of(method, path) == Route::Models <==> method == "GET"@ && ends_with_name(
            path,
            "models"@,
        ),
{
    reveal_strlit("POST");
    reveal_strlit("GET");
    reveal_strlit("responses");
    reveal_strlit("models");
    assert("POST"@.len() == 4);
    assert("GET"@.len() == 3);
    assert("responses"@.len() == 9);
    assert("models"@.len() == 6);
    assert("responses"@[0] != '/');
    assert("responses"@[1] != '/');
    assert("responses"@[2] != '/');
    assert("responses"@[3] != '/');
    assert("responses"@[4] != '/');
    assert("responses"@[5] != '/');
    assert("responses"@[6] != '/');
    assert("responses"@[7] != '/');
    assert("responses"@[8] != '/');
    assert("models"@[0] != '/');
    assert("models"@[1] != '/');
    assert("models"@[2] != '/');
    assert("models"@[3] != '/');
    assert("models"@[4] != '/');
    assert("models"@[5] != '/');
    lemma_ends_with(path, "responses"@);
    lemma_ends_with(path, "models"@);
}

/// A request whose model's name begins with the prefix is translated, as it was read;
/// any other is sent on. What could not be decoded or read is refused, and says why.
pub proof fn law_plan(
    payload: JsonModel,
    model: Seq<char>,
    prefix: Seq<char>,
    bytes: Seq<u8>,
    why: Seq<char>,
)
    ensures
        payload.get("model"@) == Some(JsonModel::Text(model)) && prefix.is_prefix_of(model)
            ==> payload_plan(payload, prefix) == PlanModel::Translate(payload),
        payload.get("model"@) == Some(JsonModel::Text(model)) && !prefix.is_prefix_of(model)
            ==> payload_plan(payload, prefix) == PlanModel::Forward,
        !(payload.get("model"@) matches Some(JsonModel::Text(_))) && prefix.len() > 0
            ==> payload_plan(payload, prefix) == PlanModel::Forward,
        decoded_plan(Ok(bytes), Some(payload), prefix) == payload_plan(payload, prefix),
        decoded_plan(Ok(bytes), None, prefix) == PlanModel::Reject(
            "desk-shim: request is not JSON"@,
        ),
        decoded_plan(Err(why), None, prefix) == PlanModel::Reject("desk-shim: "@ + why),
{
    reveal_strlit("");
    assert(""@.len() == 0);
}

/// A frame holds the kind and the data, each whole and on a line of its own, and ends
/// with a blank line.
pub proof fn law_frame(kind: Seq<char>, data: Seq<char>)
    ensures
        ({
            let f = frame_text(kind, data);
            let k = kind.len() as int;
            let d = data.len() as int;
            &&& f.len() == 7 + k + 7 + d + 2
            &&& f.subrange(0, 7) == "event: "@
            &&& f.subrange(7, 7 + k) == kind
            &&& f.subrange(7 + k, 14 + k) == "\ndata: "@
            &&& f.subrange(14 + k, 14 + k + d) == data
            &&& f.subrange(14 + k + d, 16 + k + d) == "\n\n"@
        }),
{
    reveal_strlit("event: ");
    reveal_strlit("\ndata: ");
    reveal_strlit("\n\n");
    let f = frame_text(kind, data);
    let k = kind.len() as int;
    let d = data.len() as int;
    assert("event: "@.len() == 7 && "\ndata: "@.len() == 7 && "\n\n"@.len() == 2);
    assert(f.subrange(0, 7) =~= "event: "@);
    assert(f.subrange(7, 7 + k) =~= kind);
    assert(f.subrange(7 + k, 14 + k) =~= "\ndata: "@);
    assert(f.subrange(14 + k, 14 + k + d) =~= data);
    assert(f.subrange(14 + k + d, 16 + k + d) =~= "\n\n"@);
}

}
