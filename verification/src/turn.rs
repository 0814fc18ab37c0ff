//! One turn: the key, the attempts, and the chunks of Gemini's stream.

use vstd::prelude::*;
use vstd::string::*;

use crate::codec::{json_text, read_json, read_text, write_json};
use crate::contents::{grouped, lemma_one_turn, pushed_all, said, Role, TurnModel};
use crate::events::{law_events_name_the_open_item, names_its_item};
use crate::input::{gathered_start, request_turns, GatheredModel};
use crate::json::{copy_list, models, Json, JsonModel};
use crate::protocol::{law_room_for_run, law_run_protocol, law_stream_protocol, lemma_part_room, numbered, unmatched, visible_count};
use crate::request::{gemini_request, lemma_contents, turn_json, turns_json};
use crate::replay::{done_items, law_raw_parts_are_owed, law_run_in_chunks, law_stream_replays, lemma_absorb_all_concat, lemma_event, run, run_survives, survives, taken, verbatim, Ledger};
use crate::shape::{all_words, finished, goes_on, in_turn, is_end, law_items_in_turn, law_run_shape, law_text_is_kept, lemma_kinds_apart, lemma_marks_concat, marks, streamed};
use crate::text::{all_white, concat, contains_text, first_chars, first_of, has_text, is_white_space, law_first_of, law_has_text, law_trimmed, same_text, trim, trimmed, trimmed_end, trimmed_start, views};
use crate::translate::{close_survives, counted, event_json, fresh_id, is_simple_uuid, num, part_readable, step_of, txt, usage_fits, Open, PartIds, PartIdsModel, Step, Translator, TranslatorModel};

verus! {

/// Where the API key comes from.
#[derive(Debug)]
pub enum KeySource {
    /// The environment gave the key.
    Key(String),
    /// The key is in the configured file.
    File,
    /// There is no key.
    Missing(String),
}

/// Whether a text is white space only.
pub open spec fn is_blank(s: Seq<char>) -> bool {
    trimmed(s).len() == 0
}

/// The source of the key: the environment where it gives one that is not blank,
/// else the file where one is configured.
pub fn key_source(env: Option<&str>, configured: bool) -> (r: KeySource)
    ensures
        match r {
            KeySource::Key(k) => env matches Some(e) && !is_blank(e@) && k@ == trimmed(e@),
            KeySource::File => configured && (env matches Some(e) ==> is_blank(e@)),
            KeySource::Missing(m) => !configured && (env matches Some(e) ==> is_blank(e@)) && m@
                == "no GEMINI_API_KEY and no [desk_shim].gemini_key_file configured"@,
        },
{
    if let Some(e) = env {
        let k = trim(e);
        if !k.as_str().is_empty() {
            return KeySource::Key(k);
        }
    }
    if configured {
        KeySource::File
    } else {
        KeySource::Missing(
            "no GEMINI_API_KEY and no [desk_shim].gemini_key_file configured".to_owned(),
        )
    }
}

/// The key that the file of that path holds, where it could be read and is not
/// blank.
pub fn key_from_file(path: &str, file: Result<&str, &str>) -> (r: Result<String, String>)
    ensures
        match file {
            Err(e) => r is Err && r->Err_0@ == "read "@ + path@ + ": "@ + e@,
            Ok(s) => if is_blank(s@) {
                r is Err && r->Err_0@ == path@ + " is empty"@
            } else {
                r is Ok && r->Ok_0@ == trimmed(s@)
            },
        },
{
    match file {
        Err(e) => {
            let mut m = concat("read ", path);
            m.append(": ");
            m.append(e);
            Err(m)
        },
        Ok(s) => {
            let k = trim(s);
            if k.as_str().is_empty() {
                Err(concat(path, " is empty"))
            } else {
                Ok(k)
            }
        },
    }
}

proof fn lemma_trimmed_end(s: Seq<char>)
    ensures
        trimmed_end(s).is_prefix_of(s),
        trimmed_end(s).len() > 0 ==> !is_white_space(trimmed_end(s).last()),
    decreases s.len(),
{
    if s.len() > 0 && is_white_space(s.last()) {
        lemma_trimmed_end(s.drop_last());
        let t = trimmed_end(s);
        assert(s.take(t.len() as int) =~= s.drop_last().take(t.len() as int));
    } else {
        assert(s.take(s.len() as int) =~= s);
    }
}

proof fn lemma_trimmed_start(s: Seq<char>)
    ensures
        trimmed_start(s).len() > 0 ==> !is_white_space(trimmed_start(s)[0]),
    decreases s.len(),
{
    if s.len() > 0 && is_white_space(s[0]) {
        lemma_trimmed_start(s.skip(1));
    }
}

/// A key has no white space around it: trimming it again changes nothing.
pub proof fn law_key_is_trimmed(s: Seq<char>)
    ensures
        trimmed(trimmed(s)) == trimmed(s),
{
    let left = trimmed_start(s);
    let t = trimmed(s);
    lemma_trimmed_start(s);
    lemma_trimmed_end(left);
    if t.len() > 0 {
        assert(t[0] == left.take(t.len() as int)[0]);
        assert(t[0] == left[0]);
        assert(trimmed_start(t) == t);
    }
}

/// A new id for a response.
pub fn response_id() -> (r: String)
    ensures
        exists|id: Seq<char>| #[trigger] is_simple_uuid(id) && r@ == "resp_"@ + id,
{
    let id = fresh_id();
    concat("resp_", id.as_str())
}

/// The model of a request.
pub fn turn_model(req: &Json) -> (r: String)
    ensures
        r@ == req@.text_or("model"@, "gemini-3.7-flash"@),
{
    req.text_or("model", "gemini-3.7-flash").to_owned()
}

/// The file that a request is recorded in.
pub fn dump_name(response_id: &str) -> (r: String)
    ensures
        r@ == response_id@ + ".request.json"@,
{
    concat(response_id, ".request.json")
}

/// The URL that a model's stream is asked for at.
pub fn stream_url(model: &str) -> (r: String)
    ensures
        r@ == "https://generativelanguage.googleapis.com/v1beta/models/"@ + model@
            + ":streamGenerateContent?alt=sse"@,
{
    let mut url = concat("https://generativelanguage.googleapis.com/v1beta/models/", model);
    url.append(":streamGenerateContent?alt=sse");
    url
}

/// How an attempt to stream a turn ended.
#[derive(Debug)]
pub enum Attempt {
    Done,
    /// Gemini rejected the schemas of the tools.
    RetrySanitized,
    Failed(String),
}

/// The model of an attempt's end.
pub enum AttemptModel {
    Done,
    RetrySanitized,
    Failed(Seq<char>),
}

impl View for Attempt {
    type V = AttemptModel;

    open spec fn view(&self) -> AttemptModel {
        match self {
            Attempt::Done => AttemptModel::Done,
            Attempt::RetrySanitized => AttemptModel::RetrySanitized,
            Attempt::Failed(m) => AttemptModel::Failed(m@),
        }
    }
}

/// What follows an attempt.
#[derive(Debug)]
pub enum Next {
    Stop,
    /// Another attempt, with the reduced schemas.
    Retry,
    Fail(String),
}

/// The model of what follows an attempt.
pub enum NextModel {
    Stop,
    Retry,
    Fail(Seq<char>),
}

impl View for Next {
    type V = NextModel;

    open spec fn view(&self) -> NextModel {
        match self {
            Next::Stop => NextModel::Stop,
            Next::Retry => NextModel::Retry,
            Next::Fail(m) => NextModel::Fail(m@),
        }
    }
}

/// What follows an attempt that was made with the reduced schemas, or not.
pub open spec fn next(sanitized: bool, outcome: AttemptModel) -> NextModel {
    match outcome {
        AttemptModel::Done => NextModel::Stop,
        AttemptModel::Failed(m) => NextModel::Fail(m),
        AttemptModel::RetrySanitized => if sanitized {
            NextModel::Fail("gemini rejected the tool schema twice"@)
        } else {
            NextModel::Retry
        },
    }
}

/// What follows an attempt.
pub fn after_attempt(sanitized: bool, outcome: Attempt) -> (r: Next)
    ensures
        r@ == next(sanitized, outcome@),
{
    match outcome {
        Attempt::Done => Next::Stop,
        Attempt::Failed(m) => Next::Fail(m),
        Attempt::RetrySanitized => if sanitized {
            Next::Fail("gemini rejected the tool schema twice".to_owned())
        } else {
            Next::Retry
        },
    }
}

/// There are at most two attempts: none follows one with the reduced schemas.
pub proof fn law_two_attempts_at_most(outcome: AttemptModel)
    ensures
        next(true, outcome) != NextModel::Retry,
        next(false, outcome) == NextModel::Retry <==> outcome == AttemptModel::RetrySanitized,
{
}

/// Whether a status says that the request succeeded.
pub fn succeeded(status: u16) -> (r: bool)
    ensures
        r == (200 <= status <= 299),
{
    200 <= status && status <= 299
}

/// The status as a text: its number and its name.
pub uninterp spec fn status_line(status: u16) -> Seq<char>;

/// `<reqwest::StatusCode as Display>::fmt` of the status of that number: the number
/// and the canonical name, a function of the number alone. A number that is no
/// status gives the message of `from_u16`.
#[verifier::external_body]
fn status_text(status: u16) -> (r: String)
    ensures
        r@ == status_line(status),
{
    match reqwest::StatusCode::from_u16(status) {
        Ok(s) => s.to_string(),
        Err(e) => e.to_string(),
    }
}

/// What Gemini's refusal comes to: another attempt where it is the schemas that
/// were rejected and nothing was emitted yet, else a failure with the beginning of
/// the detail.
pub open spec fn refusal_of(
    status: u16,
    line: Seq<char>,
    detail: Seq<char>,
    items_emitted: u64,
    body: Seq<char>,
) -> AttemptModel {
    if status == 400 && has_text(detail, "parameters"@) && items_emitted == 0 && has_text(
        body,
        "parametersJsonSchema"@,
    ) {
        AttemptModel::RetrySanitized
    } else {
        AttemptModel::Failed("gemini "@ + line + ": "@ + first_of(detail, 800))
    }
}

/// What a refusal with that status line, to a request with that body, comes to.
pub fn judge_refusal(status: u16, line: &str, detail: &str, items_emitted: u64, body: &str) -> (r:
    Attempt)
    ensures
        r@ == refusal_of(status, line@, detail@, items_emitted, body@),
{
    if status == 400 && contains_text(detail, "parameters") && items_emitted == 0 && contains_text(
        body,
        "parametersJsonSchema",
    ) {
        Attempt::RetrySanitized
    } else {
        let mut m = concat("gemini ", line);
        m.append(": ");
        m.append(first_chars(detail, 800).as_str());
        Attempt::Failed(m)
    }
}

/// What Gemini's refusal of a request comes to.
pub fn on_refusal(status: u16, detail: &str, items_emitted: u64, body: &Json) -> (r: Attempt)
    ensures
        r@ == refusal_of(status, status_line(status), detail@, items_emitted, json_text(body@)),
{
    judge_refusal(
        status,
        status_text(status).as_str(),
        detail,
        items_emitted,
        write_json(body).as_str(),
    )
}

/// Nothing is asked for again once an output item was emitted.
pub proof fn law_no_retry_after_output(
    status: u16,
    line: Seq<char>,
    detail: Seq<char>,
    items_emitted: u64,
    body: Seq<char>,
)
    requires
        items_emitted > 0,
    ensures
        refusal_of(status, line, detail, items_emitted, body) is Failed,
{
}

/// The parts of a candidate.
pub open spec fn candidate_parts(candidate: JsonModel) -> Seq<JsonModel> {
    match candidate.get("content"@) {
        Some(c) => c.list_at("parts"@),
        None => seq![],
    }
}

/// The parts of the candidates, in order.
pub open spec fn all_parts(candidates: Seq<JsonModel>) -> Seq<JsonModel>
    decreases candidates.len(),
{
    if candidates.len() == 0 {
        seq![]
    } else {
        all_parts(candidates.drop_last()) + candidate_parts(candidates.last())
    }
}

/// The reason that a candidate gives for its end, where it is an unusual one.
pub open spec fn odd_reason(candidate: JsonModel) -> Option<Seq<char>> {
    match candidate.text_at("finishReason"@) {
        Some(reason) => if reason == "STOP"@ || reason == "MAX_TOKENS"@ {
            None
        } else {
            Some(reason)
        },
        None => None,
    }
}

/// The unusual reasons for the end of the candidates, in order.
pub open spec fn odd_reasons(candidates: Seq<JsonModel>) -> Seq<Seq<char>>
    decreases candidates.len(),
{
    if candidates.len() == 0 {
        seq![]
    } else {
        match odd_reason(candidates.last()) {
            Some(reason) => odd_reasons(candidates.drop_last()).push(reason),
            None => odd_reasons(candidates.drop_last()),
        }
    }
}

/// What a chunk of the stream holds.
#[derive(Debug)]
pub enum Chunk {
    Nothing,
    Failed(String),
    Parts { parts: Vec<Json>, usage: Option<Json>, reasons: Vec<String> },
}

/// The model of what a chunk holds.
pub enum ChunkModel {
    Nothing,
    Failed(Seq<char>),
    Parts { parts: Seq<JsonModel>, usage: Option<JsonModel>, reasons: Seq<Seq<char>> },
}

/// The model of an optional value.
pub open spec fn optional(v: Option<Json>) -> Option<JsonModel> {
    match v {
        Some(j) => Some(j@),
        None => None,
    }
}

impl View for Chunk {
    type V = ChunkModel;

    open spec fn view(&self) -> ChunkModel {
        match self {
            Chunk::Nothing => ChunkModel::Nothing,
            Chunk::Failed(m) => ChunkModel::Failed(m@),
            Chunk::Parts { parts, usage, reasons } => ChunkModel::Parts {
                parts: models(parts@),
                usage: optional(*usage),
                reasons: views(reasons@),
            },
        }
    }
}

/// What a chunk that was read as JSON holds.
pub open spec fn chunk_of(v: JsonModel) -> ChunkModel {
    match v.get("error"@) {
        Some(e) => ChunkModel::Failed("gemini error: "@ + json_text(e)),
        None => ChunkModel::Parts {
            parts: all_parts(v.list_at("candidates"@)),
            usage: v.get("usageMetadata"@),
            reasons: odd_reasons(v.list_at("candidates"@)),
        },
    }
}

/// What the data of an event holds, where it was read as JSON, or not.
pub open spec fn chunk_model(
    data: Seq<char>,
    read: Result<JsonModel, Seq<char>>,
) -> ChunkModel {
    if is_blank(data) {
        ChunkModel::Nothing
    } else {
        match read {
            Ok(v) => chunk_of(v),
            Err(e) => ChunkModel::Failed("gemini chunk parse: "@ + e),
        }
    }
}

/// The parts of a candidate.
fn parts_of(candidate: &Json) -> (r: Vec<Json>)
    ensures
        models(r@) == candidate_parts(candidate@),
{
    if let Some(c) = candidate.get("content") {
        if let Some(parts) = c.list_at("parts") {
            return copy_list(parts);
        }
    }
    let none: Vec<Json> = Vec::new();
    assert(models(none@) =~= seq![]);
    none
}

/// The reason that a candidate gives for its end, where it is an unusual one.
fn odd_reason_of(candidate: &Json) -> (r: Option<String>)
    ensures
        match r {
            Some(reason) => odd_reason(candidate@) == Some(reason@),
            None => odd_reason(candidate@) is None,
        },
{
    match candidate.text_at("finishReason") {
        Some(reason) => if same_text(reason, "STOP") || same_text(reason, "MAX_TOKENS") {
            None
        } else {
            Some(reason.to_owned())
        },
        None => None,
    }
}

/// What a chunk that was read as JSON holds.
pub fn sort_chunk(v: &Json) -> (r: Chunk)
    ensures
        r@ == chunk_of(v@),
{
    if let Some(e) = v.get("error") {
        return Chunk::Failed(concat("gemini error: ", write_json(e).as_str()));
    }
    let mut parts: Vec<Json> = Vec::new();
    let mut reasons: Vec<String> = Vec::new();
    assert(models(parts@) =~= seq![]);
    assert(views(reasons@) =~= seq![]);
    let ghost all = v@.list_at("candidates"@);
    if let Some(candidates) = v.list_at("candidates") {
        let n: usize = candidates.len();
        let mut i: usize = 0;
        assert(all == models(candidates@));
        assert(all.take(0) =~= seq![]);
        while i < n
            invariant
                n == candidates@.len(),
                i <= n,
                all == models(candidates@),
                models(parts@) == all_parts(all.take(i as int)),
                views(reasons@) == odd_reasons(all.take(i as int)),
            decreases n - i,
        {
            assert(all.take(i + 1).drop_last() =~= all.take(i as int));
            assert(all.take(i + 1).last() == candidates@[i as int]@);
            let ghost before = parts@;
            let ghost said = reasons@;
            let mut more = parts_of(&candidates[i]);
            let ghost added = more@;
            parts.append(&mut more);
            assert(models(parts@) =~= models(before) + models(added));
            if let Some(reason) = odd_reason_of(&candidates[i]) {
                reasons.push(reason);
                assert(views(reasons@) =~= views(said).push(reason@));
            }
            i = i + 1;
        }
        assert(all.take(n as int) =~= all);
    }
    let usage = match v.get("usageMetadata") {
        Some(u) => Some(u.copy()),
        None => None,
    };
    Chunk::Parts { parts, usage, reasons }
}

/// What the data of an event of the stream holds.
pub fn read_chunk(data: &str) -> (r: Chunk)
    ensures
        r@ == chunk_model(data@, read_text(data@)),
{
    if trim(data).as_str().is_empty() {
        return Chunk::Nothing;
    }
    match read_json(data) {
        Ok(v) => sort_chunk(&v),
        Err(e) => Chunk::Failed(concat("gemini chunk parse: ", e.as_str())),
    }
}

/// The models of the ids of the parts.
pub open spec fn id_models(ids: Seq<PartIds>) -> Seq<PartIdsModel> {
    ids.map_values(|x: PartIds| x@)
}

/// Whether every part can be read back from a blob.
pub open spec fn all_readable(parts: Seq<JsonModel>) -> bool {
    forall|i: int| 0 <= i < parts.len() ==> part_readable(#[trigger] parts[i])
}

/// Takes the parts one after the other, with the ids that they may need, and
/// gives the events to send.
pub fn take_parts_with(tr: &mut Translator, parts: &Vec<Json>, ids: &Vec<PartIds>) -> (out: Vec<
    Json,
>)
    requires
        old(tr)@.room(10 * (parts@.len() + 1), 4 * (parts@.len() + 1)),
        ids@.len() == parts@.len(),
        forall|i: int| 0 <= i < ids@.len() ==> (#[trigger] ids@[i])@.call.len() >= 24,
    ensures
        step_of(*final(tr), out) == run(old(tr)@, models(parts@), id_models(ids@)),
        all_readable(models(parts@)) ==> run_survives(
            old(tr)@,
            models(parts@),
            id_models(ids@),
        ),
{
    let mut out: Vec<Json> = Vec::new();
    let n: usize = parts.len();
    let mut i: usize = 0;
    let ghost start = tr@;
    let ghost all = models(parts@);
    let ghost drawn = id_models(ids@);
    assert(models(out@) =~= seq![]);
    while i < n
        invariant
            n == parts@.len(),
            n == ids@.len(),
            i <= n,
            all == models(parts@),
            drawn == id_models(ids@),
            forall|j: int| 0 <= j < ids@.len() ==> (#[trigger] ids@[j])@.call.len() >= 24,
            tr@.room((10 * (n - i + 1)) as nat, (4 * (n - i + 1)) as nat),
            tr@ == run(start, all.take(i as int), drawn.take(i as int)).state,
            models(out@) == run(start, all.take(i as int), drawn.take(i as int)).events,
            all_readable(all) ==> run_survives(
                start,
                all.take(i as int),
                drawn.take(i as int),
            ),
        decreases n - i,
    {
        let ghost before = tr@;
        let ghost said = out@;
        assert(all.take(i + 1).drop_last() =~= all.take(i as int));
        assert(drawn.take(i + 1).drop_last() =~= drawn.take(i as int));
        assert(all.take(i + 1).last() == parts@[i as int]@);
        assert(drawn.take(i + 1).last() == ids@[i as int]@);
        assert(all[i as int] == parts@[i as int]@);
        let mut events = tr.on_part_with(&parts[i], &ids[i]);
        let ghost given = events@;
        proof {
            reveal(taken);
            reveal(survives);
            lemma_part_room(
                before,
                parts@[i as int]@,
                ids@[i as int]@,
                (10 * (n - i)) as nat,
                (4 * (n - i)) as nat,
            );
        }
        out.append(&mut events);
        assert(models(out@) =~= models(said) + models(given));
        i = i + 1;
    }
    assert(all.take(n as int) =~= all);
    assert(drawn.take(n as int) =~= drawn);
    out
}

/// Whether the ids are new ones, one for each of `n` parts.
pub open spec fn drawn(ids: Seq<PartIdsModel>, n: nat) -> bool {
    ids.len() == n && forall|i: int| 0 <= i < n ==> (#[trigger] ids[i]).fresh()
}

/// Whether a translator went from `start` to `end` by taking the parts, with new
/// ids, and gave out the events. What was written on the way reads back where
/// every part can be read back.
pub open spec fn parts_taken(
    start: TranslatorModel,
    parts: Seq<JsonModel>,
    end: TranslatorModel,
    events: Seq<JsonModel>,
) -> bool {
    exists|ids: Seq<PartIdsModel>| #[trigger]
        drawn(ids, parts.len()) && run(start, parts, ids) == (Step { state: end, events }) && (
        all_readable(parts) ==> run_survives(start, parts, ids))
}

/// Takes the parts one after the other and gives the events to send. The ids of
/// new items are random.
pub fn take_parts(tr: &mut Translator, parts: &Vec<Json>) -> (out: Vec<Json>)
    requires
        old(tr)@.room(10 * (parts@.len() + 1), 4 * (parts@.len() + 1)),
    ensures
        parts_taken(old(tr)@, models(parts@), final(tr)@, models(out@)),
{
    let mut ids: Vec<PartIds> = Vec::new();
    let n: usize = parts.len();
    let mut i: usize = 0;
    while i < n
        invariant
            n == parts@.len(),
            i <= n,
            ids@.len() == i,
            forall|j: int| 0 <= j < i ==> (#[trigger] ids@[j])@.fresh(),
        decreases n - i,
    {
        ids.push(PartIds::draw());
        i = i + 1;
    }
    let out = take_parts_with(tr, parts, &ids);
    proof {
        let all = id_models(ids@);
        assert forall|j: int| 0 <= j < n implies (#[trigger] all[j]).fresh() by {
            assert(all[j] == ids@[j]@);
        }
        assert(drawn(all, n as nat));
    }
    out
}

/// A turn's translator, and the usage that Gemini reported last.
pub struct TurnStream {
    pub translator: Translator,
    pub usage: Json,
}

/// What the data of an event of the stream came to.
#[derive(Debug)]
pub enum Heard {
    Nothing,
    Failed(String),
    /// Events to send, and the unusual reasons for the end of a candidate.
    Events { events: Vec<Json>, reasons: Vec<String> },
    /// The counters have no room for the parts.
    Full,
}

/// What hearing data comes to for a turn, by what the data holds.
pub open spec fn heard(
    chunk: ChunkModel,
    start: TranslatorModel,
    usage: JsonModel,
    r: Heard,
    end: TranslatorModel,
    usage_after: JsonModel,
) -> bool {
    match chunk {
        ChunkModel::Nothing => r is Nothing && end == start && usage_after == usage,
        ChunkModel::Failed(m) => (r matches Heard::Failed(e) && e@ == m) && end == start
            && usage_after == usage,
        ChunkModel::Parts { parts, usage: reported, reasons } => if start.room(
            10 * (parts.len() + 1),
            4 * (parts.len() + 1),
        ) {
            &&& r matches Heard::Events { events, reasons: odd } && views(odd@) == reasons
                && parts_taken(start, parts, end, models(events@))
            &&& usage_after == (match reported {
                Some(u) => u,
                None => usage,
            })
        } else {
            r is Full && end == start && usage_after == usage
        },
    }
}

/// A translator that has given out the event that opens the stream.
pub open spec fn opened(response_id: Seq<char>) -> TranslatorModel {
    TranslatorModel { seq: 1, ..TranslatorModel::start(response_id) }
}

/// The event that opens the stream.
pub open spec fn opening(response_id: Seq<char>) -> JsonModel {
    event_json(
        "response.created"@,
        TranslatorModel::start(response_id).created_fields(),
        1,
    )
}

/// The event that ends the stream with an error.
pub open spec fn failure(t: TranslatorModel, message: Seq<char>) -> JsonModel {
    event_json("response.failed"@, t.failed_fields(message), (t.seq + 1) as u64)
}

impl TurnStream {
    /// Opens a turn, with the event that opens its stream.
    pub fn begin(response_id: &str) -> (r: (TurnStream, Json))
        ensures
            r.0.usage@ == JsonModel::Null,
            r.0.translator@ == opened(response_id@),
            r.1@ == opening(response_id@),
    {
        let mut translator = Translator::new(response_id);
        let created = translator.created();
        (TurnStream { translator, usage: Json::Null }, created)
    }

    /// Takes what a chunk holds.
    pub fn on_chunk(&mut self, chunk: Chunk) -> (r: Heard)
        ensures
            heard(
                chunk@,
                old(self).translator@,
                old(self).usage@,
                r,
                final(self).translator@,
                final(self).usage@,
            ),
    {
        match chunk {
            Chunk::Nothing => Heard::Nothing,
            Chunk::Failed(m) => Heard::Failed(m),
            Chunk::Parts { parts, usage, reasons } => {
                if !self.translator.room_for(parts.len()) {
                    return Heard::Full;
                }
                let events = take_parts(&mut self.translator, &parts);
                if let Some(u) = usage {
                    self.usage = u;
                }
                Heard::Events { events, reasons }
            },
        }
    }

    /// Takes the data of an event of the stream.
    pub fn on_data(&mut self, data: &str) -> (r: Heard)
        ensures
            heard(
                chunk_model(data@, read_text(data@)),
                old(self).translator@,
                old(self).usage@,
                r,
                final(self).translator@,
                final(self).usage@,
            ),
    {
        self.on_chunk(read_chunk(data))
    }

    /// Ends the stream with the usage that was reported last. There is no end
    /// where the counters or the sum of the usage would overflow.
    pub fn end(&mut self) -> (r: Option<Vec<Json>>)
        ensures
            final(self).usage@ == old(self).usage@,
            match r {
                Some(out) => {
                    &&& old(self).translator@.room(10, 4)
                    &&& counted(old(self).usage@) <= u64::MAX
                    &&& close_survives(old(self).translator@)
                    &&& exists|id: Seq<char>|
                        is_simple_uuid(id) && step_of(final(self).translator, out) == #[trigger] (
                        Step { state: old(self).translator@, events: seq![] }).finish(
                            old(self).usage@,
                            id,
                        )
                },
                None => {
                    &&& !(old(self).translator@.room(10, 4) && counted(old(self).usage@)
                        <= u64::MAX)
                    &&& final(self).translator@ == old(self).translator@
                },
            },
    {
        if self.translator.has_room() && usage_fits(&self.usage) {
            Some(self.translator.finish(&self.usage))
        } else {
            None
        }
    }

    /// Ends the stream with an error. There is no end where no number is left for
    /// an event.
    pub fn fail(&mut self, message: &str) -> (r: Option<Json>)
        ensures
            final(self).usage@ == old(self).usage@,
            match r {
                Some(event) => {
                    &&& old(self).translator@.seq < u64::MAX
                    &&& event@ == failure(old(self).translator@, message@)
                    &&& final(self).translator@ == (TranslatorModel {
                        seq: (old(self).translator@.seq + 1) as u64,
                        ..old(self).translator@
                    })
                },
                None => old(self).translator@.seq == u64::MAX && final(self).translator@ == old(
                    self,
                ).translator@,
            },
    {
        if self.translator.has_number() {
            Some(self.translator.failed(message))
        } else {
            None
        }
    }
}

/// Chunk after chunk, a translator takes the parts of all of them.
pub proof fn law_chunks_add_up(
    start: TranslatorModel,
    a: Seq<JsonModel>,
    middle: TranslatorModel,
    events_a: Seq<JsonModel>,
    b: Seq<JsonModel>,
    end: TranslatorModel,
    events_b: Seq<JsonModel>,
)
    requires
        parts_taken(start, a, middle, events_a),
        parts_taken(middle, b, end, events_b),
    ensures
        parts_taken(start, a + b, end, events_a + events_b),
{
    let ids_a = choose|ids: Seq<PartIdsModel>| #[trigger]
        drawn(ids, a.len()) && run(start, a, ids) == (Step { state: middle, events: events_a }) && (
        all_readable(a) ==> run_survives(start, a, ids));
    let ids_b = choose|ids: Seq<PartIdsModel>| #[trigger]
        drawn(ids, b.len()) && run(middle, b, ids) == (Step { state: end, events: events_b }) && (
        all_readable(b) ==> run_survives(middle, b, ids));
    law_run_in_chunks(start, a, b, ids_a, ids_b);
    let ids = ids_a + ids_b;
    let whole = a + b;
    assert(drawn(ids, whole.len()));
    if all_readable(whole) {
        assert forall|i: int| 0 <= i < a.len() implies part_readable(#[trigger] a[i]) by {
            assert(whole[i] == a[i]);
        }
        assert forall|i: int| 0 <= i < b.len() implies part_readable(#[trigger] b[i]) by {
            assert(whole[a.len() + i] == b[i]);
        }
    }
    assert(run(start, whole, ids) == (Step { state: end, events: events_a + events_b }));
}

/// The events of a whole turn: they are numbered one by one, `response.created` is
/// first, output items are added and done strictly in turn from index zero on,
/// `items_emitted` counts the visible ones, and `response.completed` is last and
/// the only end.
pub proof fn law_turn_protocol(
    response_id: Seq<char>,
    parts: Seq<JsonModel>,
    t: TranslatorModel,
    events: Seq<JsonModel>,
    usage: JsonModel,
    closing: Seq<char>,
)
    requires
        opened(response_id).room(10 * (parts.len() + 1), 4 * (parts.len() + 1)),
        parts_taken(opened(response_id), parts, t, events),
    ensures
        ({
            let ended = (Step { state: t, events: seq![] }).finish(usage, closing);
            let all = seq![opening(response_id)] + (events + ended.events);
            &&& numbered(0, all)
            &&& all[0].get("type"@) == Some(txt("response.created"@))
            &&& in_turn(0, marks(all))
            &&& marks(all).len() % 2 == 0
            &&& unmatched(events + ended.events) == 0
            &&& ended.state.items_emitted == visible_count(done_items(events + ended.events))
            &&& all.last().get("type"@) == Some(txt("response.completed"@))
            &&& goes_on(all.drop_last())
        }),
{
    let start = opened(response_id);
    let ids = choose|ids: Seq<PartIdsModel>| #[trigger]
        drawn(ids, parts.len()) && run(start, parts, ids) == (Step { state: t, events }) && (
        all_readable(parts) ==> run_survives(start, parts, ids));
    law_room_for_run(start, parts, ids);
    law_stream_protocol(start, parts, ids, usage, closing);
    lemma_event(
        "response.created"@,
        TranslatorModel::start(response_id).created_fields(),
        1,
    );
    let ended = (Step { state: t, events: seq![] }).finish(usage, closing);
    let rest = events + ended.events;
    let all = seq![opening(response_id)] + rest;
    assert forall|i: int| 0 <= i < all.len() implies (#[trigger] all[i]).get(
        "sequence_number"@,
    ) == Some(num((i + 1) as u64)) by {
        if i > 0 {
            assert(all[i] == rest[i - 1]);
        }
    }
    assert(ended.events.len() > 0) by {
        lemma_finish_says_so(t, usage, closing);
    }
    assert(all.last() == rest.last());
    law_items_in_turn(start, parts, ids, usage, closing);
    lemma_opening(response_id, rest);
    lemma_opening(response_id, rest.drop_last());
    assert(all.drop_last() =~= seq![opening(response_id)] + rest.drop_last());
}

/// The event that opens the stream says nothing of an item or of the end.
proof fn lemma_opening(response_id: Seq<char>, rest: Seq<JsonModel>)
    ensures
        marks(seq![opening(response_id)] + rest) == marks(rest),
        goes_on(rest) ==> goes_on(seq![opening(response_id)] + rest),
{
    lemma_kinds_apart();
    let first = opening(response_id);
    lemma_event(
        "response.created"@,
        TranslatorModel::start(response_id).created_fields(),
        1,
    );
    let one = seq![first];
    assert(one.drop_last() =~= seq![]);
    assert(marks(one.drop_last()) =~= seq![]);
    assert(marks(one) =~= seq![]);
    lemma_marks_concat(one, rest);
    assert(marks(one) + marks(rest) =~= marks(rest));
    let all = one + rest;
    if goes_on(rest) {
        assert forall|i: int| 0 <= i < all.len() implies !is_end(#[trigger] all[i]) by {
            if i > 0 {
                assert(all[i] == rest[i - 1]);
            }
        }
    }
}

/// The events of a turn that fails, half way or before any part: they are numbered
/// one by one, `response.created` is first, and `response.failed` is last and the
/// only end.
pub proof fn law_failed_turn(
    response_id: Seq<char>,
    parts: Seq<JsonModel>,
    t: TranslatorModel,
    events: Seq<JsonModel>,
    message: Seq<char>,
)
    requires
        opened(response_id).room(10 * (parts.len() + 1), 4 * (parts.len() + 1)),
        parts_taken(opened(response_id), parts, t, events),
    ensures
        ({
            let all = seq![opening(response_id)] + events.push(failure(t, message));
            &&& numbered(0, all)
            &&& all[0].get("type"@) == Some(txt("response.created"@))
            &&& all.last().get("type"@) == Some(txt("response.failed"@))
            &&& goes_on(all.drop_last())
        }),
{
    let start = opened(response_id);
    let ids = choose|ids: Seq<PartIdsModel>| #[trigger]
        drawn(ids, parts.len()) && run(start, parts, ids) == (Step { state: t, events }) && (
        all_readable(parts) ==> run_survives(start, parts, ids));
    law_room_for_run(start, parts, ids);
    law_run_protocol(start, parts, ids);
    law_run_shape(start, parts, ids);
    lemma_opening(response_id, events);
    lemma_event(
        "response.created"@,
        TranslatorModel::start(response_id).created_fields(),
        1,
    );
    lemma_event("response.failed"@, t.failed_fields(message), (t.seq + 1) as u64);
    let all = seq![opening(response_id)] + events.push(failure(t, message));
    assert(all.drop_last() =~= seq![opening(response_id)] + events);
    assert forall|i: int| 0 <= i < all.len() implies (#[trigger] all[i]).get(
        "sequence_number"@,
    ) == Some(num((i + 1) as u64)) by {
        if 0 < i < all.len() - 1 {
            assert(all[i] == events[i - 1]);
        }
    }
}

/// Over a whole turn, the text of the messages that are done is the text that is
/// streamed for them, which is the text of the parts that are no thoughts; and so
/// it is for thoughts.
pub proof fn law_turn_text(
    kind: Open,
    response_id: Seq<char>,
    parts: Seq<JsonModel>,
    t: TranslatorModel,
    events: Seq<JsonModel>,
    usage: JsonModel,
    closing: Seq<char>,
)
    requires
        opened(response_id).room(10 * (parts.len() + 1), 4 * (parts.len() + 1)),
        parts_taken(opened(response_id), parts, t, events),
    ensures
        ({
            let ended = (Step { state: t, events: seq![] }).finish(usage, closing);
            &&& finished(kind, events + ended.events) == all_words(kind, parts)
            &&& streamed(kind, events + ended.events) == all_words(kind, parts)
        }),
{
    let start = opened(response_id);
    let ids = choose|ids: Seq<PartIdsModel>| #[trigger]
        drawn(ids, parts.len()) && run(start, parts, ids) == (Step { state: t, events }) && (
        all_readable(parts) ==> run_survives(start, parts, ids));
    law_room_for_run(start, parts, ids);
    law_text_is_kept(kind, start, parts, ids, usage, closing);
}

proof fn lemma_finish_says_so(t: TranslatorModel, usage: JsonModel, closing: Seq<char>)
    ensures
        (Step { state: t, events: seq![] }).finish(usage, closing).events.len() > 0,
{
}

/// Replay fidelity of a turn. The output items of a turn whose parts can be read
/// back, sent as input with the next request, come to the model parts that the
/// ledger of the parts keeps: signed and server-side parts as they came, messages
/// with each of their signatures, calls by name and arguments, nothing twice.
pub proof fn law_turn_replays(
    response_id: Seq<char>,
    parts: Seq<JsonModel>,
    t: TranslatorModel,
    events: Seq<JsonModel>,
    usage: JsonModel,
    closing: Seq<char>,
    g: GatheredModel,
)
    requires
        parts_taken(opened(response_id), parts, t, events),
        all_readable(parts),
        close_survives(t),
    ensures
        ({
            let ended = (Step { state: t, events: seq![] }).finish(usage, closing);
            g.absorb_all(done_items(events + ended.events)).contents.turns() == pushed_all(
                g.contents.turns(),
                Role::Model,
                Ledger::empty().take_all(parts).flush().parts,
            )
        }),
{
    let start = opened(response_id);
    let ids = choose|ids: Seq<PartIdsModel>| #[trigger]
        drawn(ids, parts.len()) && run(start, parts, ids) == (Step { state: t, events }) && (
        all_readable(parts) ==> run_survives(start, parts, ids));
    law_stream_replays(start, parts, ids, usage, closing, g);
}

/// The next request. Where a request's input holds what came before and then the
/// output items of a turn whose parts can be read back, the turns that it has up
/// to there are those of what came before, with the ledger's parts as the model's.
pub proof fn law_next_request_replays(
    req: JsonModel,
    earlier: Seq<JsonModel>,
    response_id: Seq<char>,
    parts: Seq<JsonModel>,
    t: TranslatorModel,
    events: Seq<JsonModel>,
    usage: JsonModel,
    closing: Seq<char>,
)
    requires
        parts_taken(opened(response_id), parts, t, events),
        all_readable(parts),
        close_survives(t),
    ensures
        ({
            let ended = (Step { state: t, events: seq![] }).finish(usage, closing);
            let items = done_items(events + ended.events);
            gathered_start(req).absorb_all(earlier + items).contents.turns() == pushed_all(
                gathered_start(req).absorb_all(earlier).contents.turns(),
                Role::Model,
                Ledger::empty().take_all(parts).flush().parts,
            )
        }),
{
    let g = gathered_start(req).absorb_all(earlier);
    law_turn_replays(response_id, parts, t, events, usage, closing, g);
    let ended = (Step { state: t, events: seq![] }).finish(usage, closing);
    lemma_absorb_all_concat(gathered_start(req), earlier, done_items(events + ended.events));
}

/// Raw parts come back verbatim. A turn's parts that go back as they came, where
/// they can be read back, are the one model turn of a request whose input is the
/// turn's output items: every part once, in the order of the stream, and nothing
/// of what the visible items show.
pub proof fn law_raw_parts_come_back(
    req: JsonModel,
    sanitized: bool,
    start: TranslatorModel,
    parts: Seq<JsonModel>,
    t: TranslatorModel,
    events: Seq<JsonModel>,
    usage: JsonModel,
    closing: Seq<char>,
)
    requires
        start.current is None,
        parts.len() > 0,
        forall|i: int| 0 <= i < parts.len() ==> verbatim(#[trigger] parts[i]),
        parts_taken(start, parts, t, events),
        all_readable(parts),
        close_survives(t),
        req.list_at("input"@) == done_items(
            events + (Step { state: t, events: seq![] }).finish(usage, closing).events,
        ),
    ensures
        gemini_request(req, sanitized).get("contents"@) == Some(
            JsonModel::List(seq![turn_json(TurnModel { role: Role::Model, parts })]),
        ),
{
    let ids = choose|ids: Seq<PartIdsModel>| #[trigger]
        drawn(ids, parts.len()) && run(start, parts, ids) == (Step { state: t, events }) && (
        all_readable(parts) ==> run_survives(start, parts, ids));
    law_stream_replays(start, parts, ids, usage, closing, gathered_start(req));
    law_raw_parts_are_owed(parts);
    lemma_one_turn(parts);
    lemma_contents(req, sanitized);
    let turns = seq![TurnModel { role: Role::Model, parts }];
    let none: Seq<(Role, JsonModel)> = seq![];
    assert(said(gathered_start(req).contents.entries) =~= none);
    assert(gathered_start(req).contents.turns() == grouped(none));
    assert(grouped(none) =~= seq![]);
    assert(request_turns(req) == turns);
    assert(turns_json(turns) =~= seq![turn_json(turns[0])]);
}

/// A text is blank exactly where it is white space only.
pub proof fn law_blank(s: Seq<char>)
    ensures
        is_blank(s) <==> all_white(s),
{
    law_trimmed(s);
    let (a, b) = choose|a: Seq<char>, b: Seq<char>|
        all_white(a) && all_white(b) && s == #[trigger] (a + trimmed(s) + b);
    let t = trimmed(s);
    if t.len() == 0 {
        assert forall|i: int| 0 <= i < s.len() implies is_white_space(#[trigger] s[i]) by {
            if i < a.len() {
                assert(s[i] == a[i]);
            } else {
                assert(s[i] == b[i - a.len()]);
            }
        }
    } else {
        assert(s[a.len() as int] == t[0]);
    }
}

/// What follows an attempt: nothing where it is done, and its own message where it
/// failed. Schemas that are rejected are tried again once, reduced.
pub proof fn law_next(sanitized: bool, message: Seq<char>)
    ensures
        next(sanitized, AttemptModel::Done) == NextModel::Stop,
        next(sanitized, AttemptModel::Failed(message)) == NextModel::Fail(message),
        next(false, AttemptModel::RetrySanitized) == NextModel::Retry,
        next(true, AttemptModel::RetrySanitized) == NextModel::Fail(
            "gemini rejected the tool schema twice"@,
        ),
{
}

/// A refusal is tried again exactly where its status is 400, its detail speaks of
/// parameters, no item was emitted, and the request had schemas as they are. Any other
/// fails with the status and the first 800 characters of the detail, or all of it.
pub proof fn law_refusal(
    status: u16,
    line: Seq<char>,
    detail: Seq<char>,
    items_emitted: u64,
    body: Seq<char>,
)
    ensures
        refusal_of(status, line, detail, items_emitted, body) == AttemptModel::RetrySanitized
            <==> status == 400 && items_emitted == 0 && (exists|a: Seq<char>, b: Seq<char>|
            detail == #[trigger] (a + "parameters"@ + b)) && (exists|a: Seq<char>, b: Seq<char>|
            body == #[trigger] (a + "parametersJsonSchema"@ + b)),
        status != 400 && detail.len() <= 800 ==> refusal_of(
            status,
            line,
            detail,
            items_emitted,
            body,
        ) == AttemptModel::Failed("gemini "@ + line + ": "@ + detail),
        status != 400 && detail.len() > 800 ==> refusal_of(
            status,
            line,
            detail,
            items_emitted,
            body,
        ) == AttemptModel::Failed("gemini "@ + line + ": "@ + detail.take(800)),
        refusal_of(status, line, detail, items_emitted, body) != AttemptModel::RetrySanitized
            ==> refusal_of(status, line, detail, items_emitted, body) == refusal_of(
            500,
            line,
            detail,
            items_emitted,
            body,
        ),
{
    lemma_has_text_exactly(detail, "parameters"@);
    lemma_has_text_exactly(body, "parametersJsonSchema"@);
    law_first_of(detail, 800);
    assert(detail.len() <= 800 ==> first_of(detail, 800) =~= detail);
    assert(detail.len() > 800 ==> first_of(detail, 800) =~= detail.take(800));
}

proof fn lemma_has_text_exactly(s: Seq<char>, needle: Seq<char>)
    ensures
        has_text(s, needle) <==> exists|a: Seq<char>, b: Seq<char>| s == #[trigger] (a + needle
            + b),
{
    if exists|a: Seq<char>, b: Seq<char>| s == #[trigger] (a + needle + b) {
        let (a, b) = choose|a: Seq<char>, b: Seq<char>| s == #[trigger] (a + needle + b);
        law_has_text(s, needle, a, b);
    }
    law_has_text(s, needle, seq![], seq![]);
}

/// A chunk that reports an error fails with the whole of it. Any other holds the parts
/// and the unusual reasons of all its candidates, and the usage that it reports.
pub proof fn law_chunk(v: JsonModel, candidates: Seq<JsonModel>)
    ensures
        v.get("error"@) is Some ==> chunk_of(v) == ChunkModel::Failed(
            "gemini error: "@ + json_text(v.get("error"@)->0),
        ),
        v.get("error"@) is None && v.get("candidates"@) == Some(JsonModel::List(candidates)) ==> (
        chunk_of(v) matches ChunkModel::Parts { parts, usage, reasons } && parts == all_parts(
            candidates,
        ) && usage == v.get("usageMetadata"@) && reasons == odd_reasons(candidates)),
        v.get("error"@) is None && !(v.get("candidates"@) matches Some(JsonModel::List(_))) ==> (
        chunk_of(v) matches ChunkModel::Parts { parts, usage, reasons } && parts.len() == 0 && usage
            == v.get("usageMetadata"@) && reasons.len() == 0),
{
}

/// Data that is blank holds nothing; what is no JSON fails, and says why; and what is
/// holds what its value does.
pub proof fn law_chunk_text(data: Seq<char>, v: JsonModel, why: Seq<char>)
    ensures
        all_white(data) ==> chunk_model(data, Ok(v)) == ChunkModel::Nothing && chunk_model(
            data,
            Err(why),
        ) == ChunkModel::Nothing,
        !all_white(data) ==> chunk_model(data, Ok(v)) == chunk_of(v) && chunk_model(data, Err(why))
            == ChunkModel::Failed("gemini chunk parse: "@ + why),
{
    law_blank(data);
}

/// The parts of candidates are those that each has under `content` and `parts`, all of
/// them and in order; the unusual reasons are those that are neither `STOP` nor
/// `MAX_TOKENS`.
pub proof fn law_candidates(
    candidates: Seq<JsonModel>,
    c: JsonModel,
    content: JsonModel,
    parts: Seq<JsonModel>,
    reason: Seq<char>,
)
    ensures
        all_parts(seq![]).len() == 0,
        odd_reasons(seq![]).len() == 0,
        c.get("content"@) == Some(content) && content.get("parts"@) == Some(JsonModel::List(parts))
            ==> all_parts(candidates.push(c)) == all_parts(candidates) + parts,
        c.get("content"@) == Some(content) && !(content.get("parts"@) matches Some(
            JsonModel::List(_),
        )) ==> all_parts(candidates.push(c)) == all_parts(candidates),
        c.get("content"@) is None ==> all_parts(candidates.push(c)) == all_parts(candidates),
        c.get("finishReason"@) == Some(JsonModel::Text(reason)) && reason != "STOP"@ && reason
            != "MAX_TOKENS"@ ==> odd_reasons(candidates.push(c)) == odd_reasons(candidates).push(
            reason,
        ),
        c.get("finishReason"@) == Some(JsonModel::Text(reason)) && (reason == "STOP"@ || reason
            == "MAX_TOKENS"@) ==> odd_reasons(candidates.push(c)) == odd_reasons(candidates),
        !(c.get("finishReason"@) matches Some(JsonModel::Text(_))) ==> odd_reasons(
            candidates.push(c),
        ) == odd_reasons(candidates),
{
    assert(candidates.push(c).drop_last() =~= candidates);
    let none: Seq<JsonModel> = seq![];
    assert(all_parts(candidates) + none =~= all_parts(candidates));
}

/// The event that opens a turn names the response, which is in progress; and the one
/// that ends it with an error names it too, as failed, with the first 2000 characters of
/// the message, or all of it.
pub proof fn law_response_events(
    response_id: Seq<char>,
    t: TranslatorModel,
    message: Seq<char>,
)
    ensures
        opening(response_id).get("type"@) == Some(txt("response.created"@)),
        opening(response_id).get("sequence_number"@) == Some(num(1)),
        opening(response_id).get("response"@) == Some(
            JsonModel::Object(
                map![
                    "id"@ => txt(response_id),
                    "object"@ => txt("response"@),
                    "status"@ => txt("in_progress"@),
                ],
            ),
        ),
        opened(response_id).response_id == response_id,
        opened(response_id).seq == 1,
        opened(response_id).output_index == 0,
        opened(response_id).items_emitted == 0,
        opened(response_id).current is None,
        failure(t, message).get("type"@) == Some(txt("response.failed"@)),
        failure(t, message).get("response"@) == Some(
            JsonModel::Object(
                map![
                    "id"@ => txt(t.response_id),
                    "status"@ => txt("failed"@),
                    "error"@ => JsonModel::Object(
                        map![
                            "code"@ => txt("desk_shim_error"@),
                            "message"@ => txt(
                                if message.len() <= 2000 {
                                    message
                                } else {
                                    message.take(2000)
                                },
                            ),
                        ],
                    ),
                ],
            ),
        ),
{
    reveal_strlit("type");
    reveal_strlit("sequence_number");
    reveal_strlit("response");
    reveal_strlit("id");
    reveal_strlit("object");
    reveal_strlit("status");
    reveal_strlit("error");
    reveal_strlit("code");
    reveal_strlit("message");
    assert("type"@.len() == 4);
    assert("sequence_number"@.len() == 15);
    assert("response"@.len() == 8);
    assert("id"@.len() == 2);
    assert("object"@.len() == 6);
    assert("status"@.len() == 6);
    assert("error"@.len() == 5);
    assert("code"@.len() == 4);
    assert("message"@.len() == 7);
    assert("type"@[0] != "code"@[0]);
    assert("object"@[0] != "status"@[0]);
    let created = opening(response_id).get("response"@)->0;
    assert(created->Object_0 =~= map![
        "id"@ => txt(response_id),
        "object"@ => txt("response"@),
        "status"@ => txt("in_progress"@),
    ]);
    law_first_of(message, 2000);
    let told = if message.len() <= 2000 {
        message
    } else {
        message.take(2000)
    };
    assert(first_of(message, 2000) =~= told);
    let error = map!["code"@ => txt("desk_shim_error"@), "message"@ => txt(told)];
    let failed = failure(t, message).get("response"@)->0;
    assert(failed.get("error"@)->0->Object_0 =~= error);
    assert(failed->Object_0 =~= map![
        "id"@ => txt(t.response_id),
        "status"@ => txt("failed"@),
        "error"@ => JsonModel::Object(error),
    ]);
}

/// What is heard of a chunk: nothing and failures change nothing; parts are taken, all
/// of them, and the usage that comes with them replaces the one before, whatever the
/// parts are.
pub proof fn law_heard(
    parts: Seq<JsonModel>,
    reported: Option<JsonModel>,
    reasons: Seq<Seq<char>>,
    message: Seq<char>,
    start: TranslatorModel,
    usage: JsonModel,
    r: Heard,
    end: TranslatorModel,
    after: JsonModel,
)
    ensures
        heard(ChunkModel::Nothing, start, usage, r, end, after) ==> r is Nothing && end == start
            && after == usage,
        heard(ChunkModel::Failed(message), start, usage, r, end, after) ==> r is Failed
            && r->Failed_0@ == message && end == start && after == usage,
        heard(ChunkModel::Parts { parts, usage: reported, reasons }, start, usage, r, end, after)
            && start.room(10 * (parts.len() + 1), 4 * (parts.len() + 1)) ==> r is Events && views(
            r->reasons@,
        ) == reasons && parts_taken(start, parts, end, models(r->events@)) && (reported is Some
            ==> after == reported->0) && (reported is None ==> after == usage),
        heard(ChunkModel::Parts { parts, usage: reported, reasons }, start, usage, r, end, after)
            && !start.room(10 * (parts.len() + 1), 4 * (parts.len() + 1)) ==> r is Full && end
            == start && after == usage,
{
}

/// One part is taken as it is, with ids that were drawn for it.
pub proof fn law_one_part_taken(
    start: TranslatorModel,
    part: JsonModel,
    end: TranslatorModel,
    events: Seq<JsonModel>,
)
    requires
        parts_taken(start, seq![part], end, events),
    ensures
        exists|ids: PartIdsModel|
            ids.fresh() && #[trigger] (Step { state: start, events: seq![] }).on_part(part, ids) == (
            Step { state: end, events }),
{
    let one = seq![part];
    let ids = choose|ids: Seq<PartIdsModel>| #[trigger]
        drawn(ids, one.len()) && run(start, one, ids) == (Step { state: end, events }) && (
        all_readable(one) ==> run_survives(start, one, ids));
    assert(ids[0].fresh());
    reveal(taken);
    let none: Seq<JsonModel> = seq![];
    assert(one.drop_last() =~= none);
    assert(run(start, one.drop_last(), ids.drop_last()) == (Step { state: start, events: none }));
    let now = (Step { state: start, events: none }).on_part(part, ids[0]);
    assert(run(start, one, ids).events =~= now.events);
}

/// Over a whole turn, each event that names an item is about a part of one, and names
/// the output item that was added last and is not done yet, by its id and its output
/// index.
pub proof fn law_turn_names_items(
    response_id: Seq<char>,
    parts: Seq<JsonModel>,
    t: TranslatorModel,
    events: Seq<JsonModel>,
    usage: JsonModel,
    closing: Seq<char>,
    i: int,
)
    requires
        parts_taken(opened(response_id), parts, t, events),
    ensures
        ({
            let ended = (Step { state: t, events: seq![] }).finish(usage, closing);
            let all = events + ended.events;
            0 <= i < all.len() ==> names_its_item(marks(all.take(i)), all[i])
        }),
{
    let start = opened(response_id);
    let ids = choose|ids: Seq<PartIdsModel>| #[trigger]
        drawn(ids, parts.len()) && run(start, parts, ids) == (Step { state: t, events }) && (
        all_readable(parts) ==> run_survives(start, parts, ids));
    law_events_name_the_open_item(start, parts, ids, usage, closing, i);
}

}
