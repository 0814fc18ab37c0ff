//! Gemini stream parts in, Responses events out.
//!
//! Gemini attaches signatures to model parts and wants them back verbatim, and its
//! server-side tool calls must be sent back too. Such raw parts ride in a reasoning
//! item that follows the visible item it stands for (see `blob`).

use vstd::prelude::*;
use vstd::string::*;

use crate::blob::{blob_survives, blob_text, encode_blob, parts_readable, BlobModel};
use crate::codec::{json_text, lemma_readable_deeper, readable, reader_depth, value_survives, write_json};
use crate::json::{empty_object, group_json_models, models, Json, JsonModel, NumberModel};
use crate::text::{concat, first_chars, first_of, join, joined, views};

pub use crate::request::build_gemini_request;

verus! {

/// Whether a character is a digit of a lower-case hexadecimal number.
pub open spec fn is_hex(c: char) -> bool {
    ('0' <= c <= '9') || ('a' <= c <= 'f')
}

/// Whether a text is a random UUID in its simple form.
pub open spec fn is_simple_uuid(s: Seq<char>) -> bool {
    &&& s.len() == 32
    &&& forall|i: int| 0 <= i < s.len() ==> is_hex(#[trigger] s[i])
    &&& s[12] == '4'
    &&& s[16] == '8' || s[16] == '9' || s[16] == 'a' || s[16] == 'b'
}

/// `uuid::Uuid::new_v4`, its `simple` form as text: 32 lower-case hexadecimal
/// digits, of which the thirteenth is the version and the seventeenth begins with
/// the bits of the variant. The rest is random: nothing more holds of every outcome.
#[verifier::external_body]
pub(crate) fn fresh_id() -> (r: String)
    ensures
        is_simple_uuid(r@),
{
    uuid::Uuid::new_v4().simple().to_string()
}

/// The ids that one part may need.
pub struct PartIds {
    /// For the blob of a message that the part closes.
    pub closing: String,
    /// For the item that the part opens or is.
    pub item: String,
    /// For the call, where the part is one.
    pub call: String,
    /// For the blob of the part itself.
    pub blob: String,
}

/// The model of the ids of one part.
#[verifier::ext_equal]
pub struct PartIdsModel {
    pub closing: Seq<char>,
    pub item: Seq<char>,
    pub call: Seq<char>,
    pub blob: Seq<char>,
}

impl View for PartIds {
    type V = PartIdsModel;

    open spec fn view(&self) -> PartIdsModel {
        PartIdsModel {
            closing: self.closing@,
            item: self.item@,
            call: self.call@,
            blob: self.blob@,
        }
    }
}

impl PartIdsModel {
    /// Whether the ids are random UUIDs in their simple form.
    pub open spec fn fresh(self) -> bool {
        &&& is_simple_uuid(self.closing)
        &&& is_simple_uuid(self.item)
        &&& is_simple_uuid(self.call)
        &&& is_simple_uuid(self.blob)
    }
}

impl PartIds {
    /// Draws new ids.
    pub fn draw() -> (r: PartIds)
        ensures
            r@.fresh(),
    {
        PartIds { closing: fresh_id(), item: fresh_id(), call: fresh_id(), blob: fresh_id() }
    }
}

/// The kind of the output item that is open.
#[derive(Debug, Clone, Copy, PartialEq, Eq, Structural)]
pub enum Open {
    Reasoning,
    Message,
}

/// A signature, and the text of the message that it goes with.
pub struct Signed {
    pub text: String,
    pub sig: String,
}

/// The model of a signed text.
#[verifier::ext_equal]
pub struct SignedModel {
    pub text: Seq<char>,
    pub sig: Seq<char>,
}

impl View for Signed {
    type V = SignedModel;

    open spec fn view(&self) -> SignedModel {
        SignedModel { text: self.text@, sig: self.sig@ }
    }
}

/// The models of signed texts.
pub open spec fn signed_models(signed: Seq<Signed>) -> Seq<SignedModel> {
    signed.map_values(|x: Signed| x@)
}

/// Streaming state machine: Gemini parts in, Responses events out.
pub struct Translator {
    response_id: String,
    seq: u64,
    output_index: u64,
    current: Option<Open>,
    item_id: String,
    buf: String,
    /// The signed texts of the message that is open: its whole text, one after the
    /// other, where it has a signature.
    signed: Vec<Signed>,
    /// Number of visible output items emitted, for the caller's retry logic.
    pub items_emitted: u64,
}

/// The model of the translator's state.
#[verifier::ext_equal]
pub struct TranslatorModel {
    pub response_id: Seq<char>,
    pub seq: u64,
    pub output_index: u64,
    pub current: Option<Open>,
    pub item_id: Seq<char>,
    pub buf: Seq<char>,
    pub signed: Seq<SignedModel>,
    pub items_emitted: u64,
}

impl View for Translator {
    type V = TranslatorModel;

    closed spec fn view(&self) -> TranslatorModel {
        TranslatorModel {
            response_id: self.response_id@,
            seq: self.seq,
            output_index: self.output_index,
            current: self.current,
            item_id: self.item_id@,
            buf: self.buf@,
            signed: signed_models(self.signed@),
            items_emitted: self.items_emitted,
        }
    }
}

/// An unsigned number.
pub open spec fn num(n: u64) -> JsonModel {
    JsonModel::Number(NumberModel::Unsigned(n))
}

/// A text.
pub open spec fn txt(s: Seq<char>) -> JsonModel {
    JsonModel::Text(s)
}

/// An event: its fields, its kind and its number.
pub open spec fn event_json(kind: Seq<char>, fields: JsonModel, number: u64) -> JsonModel {
    fields.with("type"@, txt(kind)).with("sequence_number"@, num(number))
}

/// The fields of an event about a whole output item.
pub open spec fn item_fields(index: u64, item: JsonModel) -> JsonModel {
    empty_object().with("output_index"@, num(index)).with("item"@, item)
}

/// The reasoning item that carries a blob.
pub open spec fn blob_item_json(id: Seq<char>, blob: BlobModel) -> JsonModel {
    empty_object().with("type"@, txt("reasoning"@)).with("id"@, txt("rs_"@ + id)).with(
        "summary"@,
        JsonModel::List(seq![]),
    ).with("encrypted_content"@, txt(blob_text(blob)))
}

/// The item that an open item becomes when it is closed.
pub open spec fn closed_item(kind: Open, item_id: Seq<char>, text: Seq<char>) -> JsonModel {
    match kind {
        Open::Reasoning => empty_object().with("type"@, txt("reasoning"@)).with(
            "id"@,
            txt(item_id),
        ).with(
            "summary"@,
            JsonModel::List(
                seq![
                    empty_object().with("type"@, txt("summary_text"@)).with("text"@, txt(text)),
                ],
            ),
        ),
        Open::Message => empty_object().with("type"@, txt("message"@)).with(
            "id"@,
            txt(item_id),
        ).with("role"@, txt("assistant"@)).with("status"@, txt("completed"@)).with(
            "content"@,
            JsonModel::List(
                seq![
                    empty_object().with("type"@, txt("output_text"@)).with("text"@, txt(text)).with(
                        "annotations"@,
                        JsonModel::List(seq![]),
                    ),
                ],
            ),
        ),
    }
}

/// A text part with its signature.
pub open spec fn signed_text(text: Seq<char>, sig: Seq<char>) -> JsonModel {
    empty_object().with("text"@, txt(text)).with("thoughtSignature"@, txt(sig))
}

/// The parts of signed texts.
pub open spec fn signed_parts(signed: Seq<SignedModel>) -> Seq<JsonModel> {
    signed.map_values(|x: SignedModel| signed_text(x.text, x.sig))
}

/// The signed texts of a message that has said `buf` and now says `text`. Each
/// signature is kept. Text without one goes with the signature before it, and what
/// comes before the first signature goes with that.
pub open spec fn more_signed(
    buf: Seq<char>,
    signed: Seq<SignedModel>,
    text: Seq<char>,
    sig: Option<Seq<char>>,
) -> Seq<SignedModel> {
    match sig {
        Some(s) => if signed.len() == 0 {
            seq![SignedModel { text: buf + text, sig: s }]
        } else {
            signed.push(SignedModel { text, sig: s })
        },
        None => if signed.len() == 0 {
            signed
        } else {
            signed.drop_last().push(
                SignedModel { text: signed.last().text + text, sig: signed.last().sig },
            )
        },
    }
}

/// The function call item of a `functionCall` part.
pub open spec fn call_item(fc: JsonModel, id: Seq<char>, call: Seq<char>) -> JsonModel {
    let args = match fc.get("args"@) {
        Some(a) => a,
        None => empty_object(),
    };
    empty_object().with("type"@, txt("function_call"@)).with("id"@, txt("fc_"@ + id)).with(
        "call_id"@,
        txt("call_"@ + call.take(24)),
    ).with(
        "name"@,
        match fc.get("name"@) {
            Some(n) => n,
            None => txt(""@),
        },
    ).with("arguments"@, txt(json_text(args))).with("status"@, txt("completed"@))
}

/// The texts among the values, in order.
pub open spec fn texts_among(items: Seq<JsonModel>) -> Seq<Seq<char>>
    decreases items.len(),
{
    if items.len() == 0 {
        seq![]
    } else {
        match items.last().as_text() {
            Some(t) => texts_among(items.drop_last()).push(t),
            None => texts_among(items.drop_last()),
        }
    }
}

/// The queries of a server-side search, on one line.
pub open spec fn query_of(tc: JsonModel) -> Seq<char> {
    match tc.get("args"@) {
        Some(a) => joined(texts_among(a.list_at("queries"@)), "; "@),
        None => seq![],
    }
}

/// The web search item of a `toolCall` part.
pub open spec fn search_item(tc: JsonModel, id: Seq<char>) -> JsonModel {
    empty_object().with("type"@, txt("web_search_call"@)).with("id"@, txt("ws_"@ + id)).with(
        "status"@,
        txt("completed"@),
    ).with(
        "action"@,
        empty_object().with("type"@, txt("search"@)).with("query"@, txt(query_of(tc))),
    )
}

/// A translator's state, and the events that it has given out.
#[verifier::ext_equal]
pub struct Step {
    pub state: TranslatorModel,
    pub events: Seq<JsonModel>,
}

impl TranslatorModel {
    /// A translator that has seen nothing.
    pub open spec fn start(response_id: Seq<char>) -> TranslatorModel {
        TranslatorModel {
            response_id,
            seq: 0,
            output_index: 0,
            current: None,
            item_id: seq![],
            buf: seq![],
            signed: seq![],
            items_emitted: 0,
        }
    }

    /// Whether the counters are that far from their end.
    pub open spec fn room(self, events: nat, items: nat) -> bool {
        &&& self.seq + events <= u64::MAX
        &&& self.output_index + items <= u64::MAX
        &&& self.items_emitted + items <= u64::MAX
    }

    /// The fields of the event that opens the stream.
    pub open spec fn created_fields(self) -> JsonModel {
        empty_object().with(
            "response"@,
            empty_object().with("id"@, txt(self.response_id)).with("object"@, txt("response"@)).with(
                "status"@,
                txt("in_progress"@),
            ),
        )
    }

    /// The fields of the event that ends the stream with an error.
    pub open spec fn failed_fields(self, message: Seq<char>) -> JsonModel {
        empty_object().with(
            "response"@,
            empty_object().with("id"@, txt(self.response_id)).with("status"@, txt("failed"@)).with(
                "error"@,
                empty_object().with("code"@, txt("desk_shim_error"@)).with(
                    "message"@,
                    txt(first_of(message, 2000)),
                ),
            ),
        )
    }

    /// The fields of an event about a part of the item that is open.
    pub open spec fn delta_fields(self, index_key: Seq<char>) -> JsonModel {
        empty_object().with("item_id"@, txt(self.item_id)).with(
            "output_index"@,
            num(self.output_index),
        ).with(index_key, num(0))
    }
}

impl Step {
    /// One more event.
    pub open spec fn emit(self, kind: Seq<char>, fields: JsonModel) -> Step {
        let number = (self.state.seq + 1) as u64;
        Step {
            state: TranslatorModel { seq: number, ..self.state },
            events: self.events.push(event_json(kind, fields, number)),
        }
    }

    /// The item at the present index is done: on to the next.
    pub open spec fn advance(self) -> Step {
        Step {
            state: TranslatorModel {
                output_index: (self.state.output_index + 1) as u64,
                ..self.state
            },
            events: self.events,
        }
    }

    /// One more visible item.
    pub open spec fn count(self) -> Step {
        Step {
            state: TranslatorModel {
                items_emitted: (self.state.items_emitted + 1) as u64,
                ..self.state
            },
            events: self.events,
        }
    }

    /// An output item that is added and done at once.
    pub open spec fn item_added_done(self, item: JsonModel) -> Step {
        let fields = item_fields(self.state.output_index, item);
        self.emit("response.output_item.added"@, fields).emit(
            "response.output_item.done"@,
            fields,
        ).advance()
    }

    /// A reasoning item that carries a blob. It is not a visible item.
    pub open spec fn blob_item(
        self,
        covers_prev: nat,
        parts: Seq<JsonModel>,
        id: Seq<char>,
    ) -> Step {
        self.item_added_done(blob_item_json(id, BlobModel { covers_prev, parts }))
    }

    /// The item that is open, if any, is closed. A message that has signatures is
    /// followed by a blob with the signed texts.
    pub open spec fn close(self, id: Seq<char>) -> Step {
        match self.state.current {
            None => self,
            Some(kind) => {
                let text = self.state.buf;
                let done = item_fields(
                    self.state.output_index,
                    closed_item(kind, self.state.item_id, text),
                );
                let taken = Step {
                    state: TranslatorModel { current: None, buf: seq![], ..self.state },
                    events: self.events,
                };
                match kind {
                    Open::Reasoning => taken.emit(
                        "response.reasoning_summary_text.done"@,
                        self.state.delta_fields("summary_index"@).with("text"@, txt(text)),
                    ).emit("response.output_item.done"@, done).advance().count(),
                    Open::Message => {
                        let ended = taken.emit("response.output_item.done"@, done).advance().count();
                        if self.state.signed.len() > 0 {
                            (Step {
                                state: TranslatorModel { signed: seq![], ..ended.state },
                                events: ended.events,
                            }).blob_item(1, signed_parts(self.state.signed), id)
                        } else {
                            ended
                        }
                    },
                }
            },
        }
    }

    /// An item of the kind is open: the one that is, or a new one.
    pub open spec fn open_item(self, kind: Open, closing: Seq<char>, id: Seq<char>) -> Step {
        if self.state.current == Some(kind) {
            self
        } else {
            let shut = self.close(closing);
            let item_id = match kind {
                Open::Reasoning => "rs_"@ + id,
                Open::Message => "msg_"@ + id,
            };
            let fresh = Step {
                state: TranslatorModel {
                    current: Some(kind),
                    item_id,
                    buf: seq![],
                    signed: seq![],
                    ..shut.state
                },
                events: shut.events,
            };
            match kind {
                Open::Reasoning => fresh.emit(
                    "response.output_item.added"@,
                    item_fields(
                        fresh.state.output_index,
                        empty_object().with("type"@, txt("reasoning"@)).with(
                            "id"@,
                            txt(item_id),
                        ).with("summary"@, JsonModel::List(seq![])),
                    ),
                ).emit(
                    "response.reasoning_summary_part.added"@,
                    fresh.state.delta_fields("summary_index"@).with(
                        "part"@,
                        empty_object().with("type"@, txt("summary_text"@)).with(
                            "text"@,
                            txt(""@),
                        ),
                    ),
                ),
                Open::Message => fresh.emit(
                    "response.output_item.added"@,
                    item_fields(
                        fresh.state.output_index,
                        empty_object().with("type"@, txt("message"@)).with(
                            "id"@,
                            txt(item_id),
                        ).with("role"@, txt("assistant"@)).with("status"@, txt("in_progress"@)).with(
                            "content"@,
                            JsonModel::List(seq![]),
                        ),
                    ),
                ),
            }
        }
    }

    /// A text part that is not empty.
    pub open spec fn text(
        self,
        text: Seq<char>,
        kind: Open,
        sig: Option<Seq<char>>,
        ids: PartIdsModel,
    ) -> Step {
        let opened = self.open_item(kind, ids.closing, ids.item);
        let grown = Step {
            state: TranslatorModel { buf: opened.state.buf + text, ..opened.state },
            events: opened.events,
        };
        match kind {
            Open::Reasoning => {
                let said = grown.emit(
                    "response.reasoning_summary_text.delta"@,
                    grown.state.delta_fields("summary_index"@).with("delta"@, txt(text)),
                );
                match sig {
                    Some(s) => said.close(ids.closing).blob_item(
                        0,
                        seq![signed_text(""@, s)],
                        ids.blob,
                    ),
                    None => said,
                }
            },
            Open::Message => {
                let said = grown.emit(
                    "response.output_text.delta"@,
                    grown.state.delta_fields("content_index"@).with("delta"@, txt(text)),
                );
                Step {
                    state: TranslatorModel {
                        signed: more_signed(opened.state.buf, opened.state.signed, text, sig),
                        ..said.state
                    },
                    events: said.events,
                }
            },
        }
    }

    /// One Gemini content part.
    pub open spec fn on_part(self, part: JsonModel, ids: PartIdsModel) -> Step {
        let sig = part.text_at("thoughtSignature"@);
        if let Some(fc) = part.get("functionCall"@) {
            let called = self.close(ids.closing).item_added_done(
                call_item(fc, ids.item, ids.call),
            ).count();
            if sig is Some {
                called.blob_item(1, seq![part], ids.blob)
            } else {
                called
            }
        } else if let Some(tc) = part.get("toolCall"@) {
            self.close(ids.closing).item_added_done(search_item(tc, ids.item)).count().blob_item(
                1,
                seq![part],
                ids.blob,
            )
        } else if part.get("toolResponse"@) is Some {
            self.close(ids.closing).blob_item(0, seq![part], ids.blob)
        } else {
            let text = part.text_or("text"@, ""@);
            if text.len() == 0 {
                if sig is Some {
                    self.close(ids.closing).blob_item(0, seq![part], ids.blob)
                } else {
                    self
                }
            } else if part.get("thought"@) == Some(JsonModel::Bool(true)) {
                self.text(text, Open::Reasoning, sig, ids)
            } else {
                self.text(text, Open::Message, sig, ids)
            }
        }
    }

    /// The end of the stream, with the usage that Gemini reported.
    pub open spec fn finish(self, usage: JsonModel, closing: Seq<char>) -> Step {
        let shut = self.close(closing);
        shut.emit(
            "response.completed"@,
            empty_object().with(
                "response"@,
                empty_object().with("id"@, txt(self.state.response_id)).with(
                    "object"@,
                    txt("response"@),
                ).with("status"@, txt("completed"@)).with("usage"@, usage_json(usage)),
            ),
        )
    }
}

/// A count of the usage that Gemini reported; zero where it gave none.
pub open spec fn count(usage: JsonModel, key: Seq<char>) -> u64 {
    match usage.u64_at(key) {
        Some(n) => n,
        None => 0,
    }
}

/// The tokens of the usage taken together.
pub open spec fn counted(usage: JsonModel) -> nat {
    count(usage, "promptTokenCount"@) as nat + count(usage, "candidatesTokenCount"@) as nat + count(
        usage,
        "thoughtsTokenCount"@,
    ) as nat
}

/// The usage as a Responses event reports it.
pub open spec fn usage_json(usage: JsonModel) -> JsonModel {
    let cand = count(usage, "candidatesTokenCount"@);
    let thoughts = count(usage, "thoughtsTokenCount"@);
    empty_object().with("input_tokens"@, num(count(usage, "promptTokenCount"@))).with(
        "output_tokens"@,
        num((cand + thoughts) as u64),
    ).with(
        "total_tokens"@,
        num(
            match usage.u64_at("totalTokenCount"@) {
                Some(n) => n,
                None => counted(usage) as u64,
            },
        ),
    ).with(
        "input_tokens_details"@,
        empty_object().with("cached_tokens"@, num(count(usage, "cachedContentTokenCount"@))),
    ).with(
        "output_tokens_details"@,
        empty_object().with("reasoning_tokens"@, num(thoughts)),
    )
}

/// The arguments of a function call.
pub open spec fn args_in(fc: JsonModel) -> JsonModel {
    match fc.get("args"@) {
        Some(a) => a,
        None => empty_object(),
    }
}

/// A blob that carries one part.
pub open spec fn blob_of(covers_prev: nat, part: JsonModel) -> BlobModel {
    BlobModel { covers_prev, parts: seq![part] }
}

/// Whether what closing the open item writes reads back.
pub open spec fn close_survives(t: TranslatorModel) -> bool {
    t.current == Some(Open::Message) && t.signed.len() > 0 ==> blob_survives(
        BlobModel { covers_prev: 1, parts: signed_parts(t.signed) },
    )
}

/// Whether what a part writes reads back.
pub open spec fn part_survives(t: TranslatorModel, part: JsonModel) -> bool {
    let sig = part.text_at("thoughtSignature"@);
    let text = part.text_or("text"@, ""@);
    if let Some(fc) = part.get("functionCall"@) {
        close_survives(t) && (if sig is Some {
            blob_survives(blob_of(1, part))
        } else {
            value_survives(args_in(fc))
        })
    } else if part.get("toolCall"@) is Some {
        close_survives(t) && blob_survives(blob_of(1, part))
    } else if part.get("toolResponse"@) is Some {
        close_survives(t) && blob_survives(blob_of(0, part))
    } else if text.len() == 0 {
        sig is Some ==> close_survives(t) && blob_survives(blob_of(0, part))
    } else if part.get("thought"@) == Some(JsonModel::Bool(true)) {
        close_survives(t) && (sig is Some ==> blob_survives(blob_of(0, signed_text(""@, sig->0))))
    } else {
        true
    }
}

/// Whether a part holds no number but integers and nests no deeper than the
/// reader of JSON text follows it inside a blob.
pub open spec fn part_readable(part: JsonModel) -> bool {
    readable(part, (reader_depth() - 2) as nat)
}

/// A blob of one readable part can be read back.
proof fn lemma_part_readable(part: JsonModel)
    requires
        part_readable(part),
    ensures
        parts_readable(seq![part]),
{
}

/// A signed text can be read back in a blob.
proof fn lemma_signed_text_readable(text: Seq<char>, sig: Seq<char>)
    ensures
        part_readable(signed_text(text, sig)),
        parts_readable(seq![signed_text(text, sig)]),
{
    let part = signed_text(text, sig);
    let members = part->Object_0;
    assert forall|k: Seq<char>| members.dom().contains(k) implies readable(
        #[trigger] members[k],
        (reader_depth() - 3) as nat,
    ) by {
        assert(members[k] is Text);
    }
    lemma_part_readable(part);
}

/// The arguments of a call can be read back where the part can.
proof fn lemma_args_readable(part: JsonModel, fc: JsonModel)
    requires
        part_readable(part),
        part.get("functionCall"@) == Some(fc),
    ensures
        readable(args_in(fc), reader_depth()),
{
    let limit = (reader_depth() - 3) as nat;
    assert(readable(fc, limit));
    if let Some(a) = fc.get("args"@) {
        assert(readable(a, (limit - 1) as nat));
        lemma_readable_deeper(a, (limit - 1) as nat, reader_depth());
    }
}

/// Signed texts can be read back in a blob.
proof fn lemma_signed_parts_readable(signed: Seq<SignedModel>)
    ensures
        parts_readable(signed_parts(signed)),
{
    let parts = signed_parts(signed);
    assert forall|i: int| 0 <= i < parts.len() implies readable(
        #[trigger] parts[i],
        (reader_depth() - 2) as nat,
    ) by {
        lemma_signed_text_readable(signed[i].text, signed[i].sig);
    }
}

/// A translator and the events that it has given out, as a step.
pub open spec fn step_of(tr: Translator, out: Vec<Json>) -> Step {
    Step { state: tr@, events: models(out@) }
}

/// A text after a prefix.
fn prefixed(prefix: &str, id: &str) -> (r: Json)
    ensures
        r@ == txt(prefix@ + id@),
{
    Json::Text(concat(prefix, id))
}

/// The fields of an event about a whole output item.
fn make_item_fields(index: u64, item: Json) -> (r: Json)
    ensures
        r@ == item_fields(index, item@),
{
    Json::object().with("output_index", Json::number(index)).with("item", item)
}

/// The empty list.
fn empty_list() -> (r: Json)
    ensures
        r@ == JsonModel::List(seq![]),
{
    broadcast use group_json_models;

    let items: Vec<Json> = Vec::new();
    assert(models(items@) =~= seq![]);
    Json::List(items)
}

/// A list of one part.
fn one_part(part: Json) -> (r: Vec<Json>)
    ensures
        models(r@) == seq![part@],
{
    let mut parts: Vec<Json> = Vec::new();
    parts.push(part);
    assert(models(parts@) =~= seq![part@]);
    parts
}

/// A text part with its signature.
fn make_signed_text(text: &str, sig: &str) -> (r: Json)
    ensures
        r@ == signed_text(text@, sig@),
{
    Json::object().with("text", Json::text(text)).with("thoughtSignature", Json::text(sig))
}

/// The parts of signed texts.
fn make_signed_parts(signed: &Vec<Signed>) -> (r: Vec<Json>)
    ensures
        models(r@) == signed_parts(signed_models(signed@)),
{
    broadcast use group_json_models;

    let mut out: Vec<Json> = Vec::new();
    let n: usize = signed.len();
    let mut i: usize = 0;
    let ghost all = signed_parts(signed_models(signed@));
    assert(models(out@) =~= all.take(0));
    while i < n
        invariant
            n == signed@.len(),
            i <= n,
            all == signed_parts(signed_models(signed@)),
            models(out@) == all.take(i as int),
        decreases n - i,
    {
        out.push(make_signed_text(signed[i].text.as_str(), signed[i].sig.as_str()));
        assert(all.take(i + 1) =~= all.take(i as int).push(all[i as int]));
        i = i + 1;
    }
    assert(all.take(n as int) =~= all);
    out
}

/// The item that an open item becomes when it is closed.
fn make_closed_item(kind: Open, item_id: &str, text: &str) -> (r: Json)
    ensures
        r@ == closed_item(kind, item_id@, text@),
{
    match kind {
        Open::Reasoning => {
            let part = Json::object().with("type", Json::text("summary_text")).with(
                "text",
                Json::text(text),
            );
            Json::object().with("type", Json::text("reasoning")).with(
                "id",
                Json::text(item_id),
            ).with("summary", Json::list_of(part))
        },
        Open::Message => {
            let part = Json::object().with("type", Json::text("output_text")).with(
                "text",
                Json::text(text),
            ).with("annotations", empty_list());
            Json::object().with("type", Json::text("message")).with("id", Json::text(item_id)).with(
                "role",
                Json::text("assistant"),
            ).with("status", Json::text("completed")).with("content", Json::list_of(part))
        },
    }
}

/// The function call item of a `functionCall` part.
fn make_call_item(fc: &Json, id: &str, call: &str) -> (r: Json)
    requires
        call@.len() >= 24,
    ensures
        r@ == call_item(fc@, id@, call@),
        readable(args_in(fc@), reader_depth()) ==> value_survives(args_in(fc@)),
{
    let args = match fc.get("args") {
        Some(a) => write_json(a),
        None => write_json(&Json::object()),
    };
    let name = match fc.get("name") {
        Some(n) => n.copy(),
        None => Json::text(""),
    };
    let short = call.substring_char(0, 24);
    assert(short@ =~= call@.take(24));
    Json::object().with("type", Json::text("function_call")).with("id", prefixed("fc_", id)).with(
        "call_id",
        prefixed("call_", short),
    ).with("name", name).with("arguments", Json::Text(args)).with(
        "status",
        Json::text("completed"),
    )
}

/// The queries of a server-side search, on one line.
fn make_query(tc: &Json) -> (r: String)
    ensures
        r@ == query_of(tc@),
{
    let mut texts: Vec<String> = Vec::new();
    assert(views(texts@) =~= seq![]);
    if let Some(args) = tc.get("args") {
        let ghost all = args@.list_at("queries"@);
        if let Some(items) = args.list_at("queries") {
            assert(all == models(items@));
            let n: usize = items.len();
            let mut i: usize = 0;
            while i < n
                invariant
                    n == items@.len(),
                    i <= n,
                    all == models(items@),
                    views(texts@) == texts_among(all.take(i as int)),
                decreases n - i,
            {
                assert(all.take(i + 1).drop_last() =~= all.take(i as int));
                assert(all.take(i + 1).last() == items@[i as int]@);
                let ghost before = texts@;
                if let Some(t) = items[i].as_str() {
                    texts.push(t.to_owned());
                    assert(views(texts@) =~= views(before).push(t@));
                }
                i = i + 1;
            }
            assert(all.take(n as int) =~= all);
        }
        join(&texts, "; ")
    } else {
        String::new()
    }
}

/// The web search item of a `toolCall` part.
fn make_search_item(tc: &Json, id: &str) -> (r: Json)
    ensures
        r@ == search_item(tc@, id@),
{
    let action = Json::object().with("type", Json::text("search")).with(
        "query",
        Json::Text(make_query(tc)),
    );
    Json::object().with("type", Json::text("web_search_call")).with("id", prefixed("ws_", id)).with(
        "status",
        Json::text("completed"),
    ).with("action", action)
}

/// A count of the usage that Gemini reported.
fn count_of(usage: &Json, key: &str) -> (r: u64)
    ensures
        r == count(usage@, key@),
{
    match usage.u64_at(key) {
        Some(n) => n,
        None => 0,
    }
}

/// Whether the counts of the usage can be added up.
pub fn usage_fits(usage: &Json) -> (r: bool)
    ensures
        r == (counted(usage@) <= u64::MAX),
{
    let prompt = count_of(usage, "promptTokenCount");
    let cand = count_of(usage, "candidatesTokenCount");
    let thoughts = count_of(usage, "thoughtsTokenCount");
    match prompt.checked_add(cand) {
        Some(sum) => sum.checked_add(thoughts).is_some(),
        None => false,
    }
}

/// The usage as a Responses event reports it.
fn make_usage(usage: &Json) -> (r: Json)
    requires
        counted(usage@) <= u64::MAX,
    ensures
        r@ == usage_json(usage@),
{
    let prompt = count_of(usage, "promptTokenCount");
    let cand = count_of(usage, "candidatesTokenCount");
    let thoughts = count_of(usage, "thoughtsTokenCount");
    let total = match usage.u64_at("totalTokenCount") {
        Some(n) => n,
        None => prompt + cand + thoughts,
    };
    let cached = count_of(usage, "cachedContentTokenCount");
    Json::object().with("input_tokens", Json::number(prompt)).with(
        "output_tokens",
        Json::number(cand + thoughts),
    ).with("total_tokens", Json::number(total)).with(
        "input_tokens_details",
        Json::object().with("cached_tokens", Json::number(cached)),
    ).with(
        "output_tokens_details",
        Json::object().with("reasoning_tokens", Json::number(thoughts)),
    )
}

impl Translator {
    /// A translator that has seen nothing.
    pub fn new(response_id: &str) -> (r: Translator)
        ensures
            r@ == TranslatorModel::start(response_id@),
    {
        let r = Translator {
            response_id: response_id.to_owned(),
            seq: 0,
            output_index: 0,
            current: None,
            item_id: String::new(),
            buf: String::new(),
            signed: Vec::new(),
            items_emitted: 0,
        };
        assert(signed_models(r.signed@) =~= seq![]);
        r
    }

    /// The number of visible output items emitted.
    pub fn items_emitted(&self) -> (r: u64)
        ensures
            r == self@.items_emitted,
    {
        self.items_emitted
    }

    /// Whether there is a number for one more event.
    pub fn has_number(&self) -> (r: bool)
        ensures
            r == (self@.seq < u64::MAX),
    {
        self.seq < u64::MAX
    }

    /// Whether the counters have room for one more part, or for the end of the stream.
    pub fn has_room(&self) -> (r: bool)
        ensures
            r == self@.room(10, 4),
    {
        self.seq <= u64::MAX - 10 && self.output_index <= u64::MAX - 4 && self.items_emitted
            <= u64::MAX - 4
    }

    /// Whether the counters have room for that many parts and the end of the stream.
    pub fn room_for(&self, parts: usize) -> (r: bool)
        ensures
            r == self@.room(10 * (parts as nat + 1), 4 * (parts as nat + 1)),
    {
        let n: u64 = parts as u64;
        n < (u64::MAX - self.seq) / 10 && n < (u64::MAX - self.output_index) / 4 && n < (u64::MAX
            - self.items_emitted) / 4
    }

    /// Numbers an event.
    fn event(&mut self, kind: &str, fields: Json) -> (r: Json)
        requires
            old(self)@.seq < u64::MAX,
        ensures
            r@ == event_json(kind@, fields@, final(self)@.seq),
            final(self)@ == (TranslatorModel {
                seq: (old(self)@.seq + 1) as u64,
                ..old(self)@
            }),
    {
        self.seq = self.seq + 1;
        fields.with("type", Json::text(kind)).with("sequence_number", Json::number(self.seq))
    }

    /// The event that opens the stream.
    pub fn created(&mut self) -> (r: Json)
        requires
            old(self)@.seq < u64::MAX,
        ensures
            r@ == event_json(
                "response.created"@,
                old(self)@.created_fields(),
                (old(self)@.seq + 1) as u64,
            ),
            final(self)@ == (TranslatorModel {
                seq: (old(self)@.seq + 1) as u64,
                ..old(self)@
            }),
    {
        let response = Json::object().with("id", Json::text(self.response_id.as_str())).with(
            "object",
            Json::text("response"),
        ).with("status", Json::text("in_progress"));
        self.event("response.created", Json::object().with("response", response))
    }

    /// Gives out a numbered event.
    fn emit(&mut self, kind: &str, fields: Json, out: &mut Vec<Json>)
        requires
            old(self)@.seq < u64::MAX,
        ensures
            step_of(*final(self), *final(out)) == step_of(*old(self), *old(out)).emit(
                kind@,
                fields@,
            ),
    {
        broadcast use group_json_models;

        let ev = self.event(kind, fields);
        out.push(ev);
    }

    /// Gives out an output item that is added and done at once.
    fn item_added_done(&mut self, item: Json, out: &mut Vec<Json>)
        requires
            old(self)@.room(2, 1),
        ensures
            step_of(*final(self), *final(out)) == step_of(*old(self), *old(out)).item_added_done(
                item@,
            ),
    {
        let idx = self.output_index;
        let added = make_item_fields(idx, item.copy());
        let done = make_item_fields(idx, item);
        self.emit("response.output_item.added", added, out);
        self.emit("response.output_item.done", done, out);
        self.output_index = self.output_index + 1;
    }

    /// Gives out a reasoning item that carries a blob. It is not a visible item.
    fn blob_item(&mut self, covers_prev: usize, parts: Vec<Json>, id: &str, out: &mut Vec<Json>)
        requires
            old(self)@.room(2, 1),
        ensures
            step_of(*final(self), *final(out)) == step_of(*old(self), *old(out)).blob_item(
                covers_prev as nat,
                models(parts@),
                id@,
            ),
            parts_readable(models(parts@)) ==> blob_survives(
                BlobModel { covers_prev: covers_prev as nat, parts: models(parts@) },
            ),
    {
        let item = Json::object().with("type", Json::text("reasoning")).with(
            "id",
            prefixed("rs_", id),
        ).with("summary", empty_list()).with(
            "encrypted_content",
            Json::Text(encode_blob(covers_prev, parts)),
        );
        self.item_added_done(item, out);
    }

    /// The fields of an event about a part of the item that is open.
    fn make_delta_fields(&self, index_key: &str) -> (r: Json)
        ensures
            r@ == self@.delta_fields(index_key@),
    {
        Json::object().with("item_id", Json::text(self.item_id.as_str())).with(
            "output_index",
            Json::number(self.output_index),
        ).with(index_key, Json::number(0))
    }

    /// Closes the item that is open, if any.
    fn close(&mut self, id: &str, out: &mut Vec<Json>)
        requires
            old(self)@.room(3, 2),
        ensures
            step_of(*final(self), *final(out)) == step_of(*old(self), *old(out)).close(id@),
            close_survives(old(self)@),
    {
        let kind = match self.current {
            Some(kind) => kind,
            None => {
                return ;
            },
        };
        let ghost start = step_of(*self, *out);
        self.current = None;
        let text = self.buf.clone();
        self.buf = String::new();
        let done = make_item_fields(
            self.output_index,
            make_closed_item(kind, self.item_id.as_str(), text.as_str()),
        );
        match kind {
            Open::Reasoning => {
                let fields = self.make_delta_fields("summary_index").with(
                    "text",
                    Json::text(text.as_str()),
                );
                self.emit("response.reasoning_summary_text.done", fields, out);
                self.emit("response.output_item.done", done, out);
                self.output_index = self.output_index + 1;
                self.items_emitted = self.items_emitted + 1;
            },
            Open::Message => {
                self.emit("response.output_item.done", done, out);
                self.output_index = self.output_index + 1;
                self.items_emitted = self.items_emitted + 1;
                if self.signed.len() > 0 {
                    let parts = make_signed_parts(&self.signed);
                    proof {
                        lemma_signed_parts_readable(self@.signed);
                    }
                    self.signed = Vec::new();
                    assert(signed_models(self.signed@) =~= seq![]);
                    self.blob_item(1, parts, id, out);
                }
            },
        }
    }

    /// Makes sure that an item of the kind is open.
    fn open_item(&mut self, kind: Open, closing: &str, id: &str, out: &mut Vec<Json>)
        requires
            old(self)@.room(5, 2),
        ensures
            step_of(*final(self), *final(out)) == step_of(*old(self), *old(out)).open_item(
                kind,
                closing@,
                id@,
            ),
            old(self)@.current != Some(kind) ==> close_survives(old(self)@),
    {
        if let Some(now) = self.current {
            if now == kind {
                return ;
            }
        }
        self.close(closing, out);
        self.current = Some(kind);
        self.buf = String::new();
        self.signed = Vec::new();
        assert(signed_models(self.signed@) =~= seq![]);
        let idx = self.output_index;
        match kind {
            Open::Reasoning => {
                self.item_id = concat("rs_", id);
                let item = Json::object().with("type", Json::text("reasoning")).with(
                    "id",
                    Json::text(self.item_id.as_str()),
                ).with("summary", empty_list());
                self.emit("response.output_item.added", make_item_fields(idx, item), out);
                let part = Json::object().with("type", Json::text("summary_text")).with(
                    "text",
                    Json::text(""),
                );
                let fields = self.make_delta_fields("summary_index").with("part", part);
                self.emit("response.reasoning_summary_part.added", fields, out);
            },
            Open::Message => {
                self.item_id = concat("msg_", id);
                let item = Json::object().with("type", Json::text("message")).with(
                    "id",
                    Json::text(self.item_id.as_str()),
                ).with("role", Json::text("assistant")).with(
                    "status",
                    Json::text("in_progress"),
                ).with("content", empty_list());
                self.emit("response.output_item.added", make_item_fields(idx, item), out);
            },
        }
    }

    /// Keeps the signature of a text that the open message has just said, and the
    /// text with it.
    fn sign(&mut self, text: &str, sig: Option<&str>, Ghost(before): Ghost<Seq<char>>)
        requires
            old(self)@.buf == before + text@,
        ensures
            final(self)@ == (TranslatorModel {
                signed: more_signed(
                    before,
                    old(self)@.signed,
                    text@,
                    (match sig {
                        Some(s) => Some(s@),
                        None => None,
                    }),
                ),
                ..old(self)@
            }),
    {
        let ghost had = self.signed@;
        match sig {
            Some(s) => {
                let text = if self.signed.len() == 0 {
                    self.buf.clone()
                } else {
                    text.to_owned()
                };
                self.signed.push(Signed { text, sig: s.to_owned() });
                assert(signed_models(self.signed@) =~= signed_models(had).push(
                    SignedModel { text: text@, sig: s@ },
                ));
            },
            None => {
                if let Some(mut last) = self.signed.pop() {
                    assert(signed_models(had).last() == last@);
                    assert(signed_models(self.signed@) =~= signed_models(had).drop_last());
                    let ghost kept = self.signed@;
                    last.text.append(text);
                    let ghost grown = last@;
                    self.signed.push(last);
                    assert(signed_models(self.signed@) =~= signed_models(kept).push(grown));
                }
            },
        }
    }

    /// Takes a text part that is not empty.
    fn text(
        &mut self,
        text: &str,
        kind: Open,
        sig: Option<&str>,
        ids: &PartIds,
        out: &mut Vec<Json>,
    )
        requires
            old(self)@.room(10, 4),
        ensures
            step_of(*final(self), *final(out)) == step_of(*old(self), *old(out)).text(
                text@,
                kind,
                (match sig {
                    Some(s) => Some(s@),
                    None => None,
                }),
                ids@,
            ),
            kind == Open::Reasoning ==> close_survives(old(self)@) && (sig matches Some(s)
                ==> blob_survives(blob_of(0, signed_text(""@, s@)))),
    {
        self.open_item(kind, ids.closing.as_str(), ids.item.as_str(), out);
        let ghost opened = self@;
        self.buf.append(text);
        match kind {
            Open::Reasoning => {
                let fields = self.make_delta_fields("summary_index").with(
                    "delta",
                    Json::text(text),
                );
                self.emit("response.reasoning_summary_text.delta", fields, out);
                if let Some(s) = sig {
                    self.close(ids.closing.as_str(), out);
                    let part = make_signed_text("", s);
                    proof {
                        lemma_signed_text_readable(""@, s@);
                    }
                    self.blob_item(0, one_part(part), ids.blob.as_str(), out);
                }
            },
            Open::Message => {
                let fields = self.make_delta_fields("content_index").with(
                    "delta",
                    Json::text(text),
                );
                self.emit("response.output_text.delta", fields, out);
                self.sign(text, sig, Ghost(opened.buf));
            },
        }
    }

    /// Takes one Gemini content part, with the ids that it may need, and gives the
    /// Responses events to send.
    pub fn on_part_with(&mut self, part: &Json, ids: &PartIds) -> (out: Vec<Json>)
        requires
            old(self)@.room(10, 4),
            ids@.call.len() >= 24,
        ensures
            step_of(*final(self), out) == (Step { state: old(self)@, events: seq![] }).on_part(
                part@,
                ids@,
            ),
            part_readable(part@) ==> part_survives(old(self)@, part@),
    {
        let mut out: Vec<Json> = Vec::new();
        assert(models(out@) =~= seq![]);
        let sig = part.text_at("thoughtSignature");
        proof {
            if part_readable(part@) {
                lemma_part_readable(part@);
            }
        }
        if let Some(fc) = part.get("functionCall") {
            proof {
                if part_readable(part@) {
                    lemma_args_readable(part@, fc@);
                }
            }
            self.close(ids.closing.as_str(), &mut out);
            let item = make_call_item(fc, ids.item.as_str(), ids.call.as_str());
            self.item_added_done(item, &mut out);
            self.items_emitted = self.items_emitted + 1;
            if sig.is_some() {
                self.blob_item(1, one_part(part.copy()), ids.blob.as_str(), &mut out);
            }
            return out;
        }
        if let Some(tc) = part.get("toolCall") {
            self.close(ids.closing.as_str(), &mut out);
            let item = make_search_item(tc, ids.item.as_str());
            self.item_added_done(item, &mut out);
            self.items_emitted = self.items_emitted + 1;
            self.blob_item(1, one_part(part.copy()), ids.blob.as_str(), &mut out);
            return out;
        }
        if part.get("toolResponse").is_some() {
            self.close(ids.closing.as_str(), &mut out);
            self.blob_item(0, one_part(part.copy()), ids.blob.as_str(), &mut out);
            return out;
        }
        let text = part.text_or("text", "");
        if text.is_empty() {
            if sig.is_some() {
                self.close(ids.closing.as_str(), &mut out);
                self.blob_item(0, one_part(part.copy()), ids.blob.as_str(), &mut out);
            }
            return out;
        }
        let thought = match part.get("thought") {
            Some(t) => t.as_bool(),
            None => None,
        };
        let kind = match thought {
            Some(true) => Open::Reasoning,
            _ => Open::Message,
        };
        self.text(text, kind, sig, ids, &mut out);
        out
    }

    /// Takes one Gemini content part and gives the Responses events to send. The
    /// ids of new items are random.
    pub fn on_part(&mut self, part: &Json) -> (out: Vec<Json>)
        requires
            old(self)@.room(10, 4),
        ensures
            exists|ids: PartIdsModel|
                ids.fresh() && step_of(*final(self), out) == #[trigger] (Step {
                    state: old(self)@,
                    events: seq![],
                }).on_part(part@, ids),
            part_readable(part@) ==> part_survives(old(self)@, part@),
    {
        let ids = PartIds::draw();
        let out = self.on_part_with(part, &ids);
        assert(ids@.fresh());
        out
    }

    /// Closes any open item and gives `response.completed`, with the usage mapped
    /// from Gemini's `usageMetadata`.
    pub fn finish_with(&mut self, usage_meta: &Json, id: &str) -> (out: Vec<Json>)
        requires
            old(self)@.room(10, 4),
            counted(usage_meta@) <= u64::MAX,
        ensures
            step_of(*final(self), out) == (Step { state: old(self)@, events: seq![] }).finish(
                usage_meta@,
                id@,
            ),
            close_survives(old(self)@),
    {
        let mut out: Vec<Json> = Vec::new();
        assert(models(out@) =~= seq![]);
        self.close(id, &mut out);
        let response = Json::object().with("id", Json::text(self.response_id.as_str())).with(
            "object",
            Json::text("response"),
        ).with("status", Json::text("completed")).with("usage", make_usage(usage_meta));
        self.emit("response.completed", Json::object().with("response", response), &mut out);
        out
    }

    /// Closes any open item and gives `response.completed`, with the usage mapped
    /// from Gemini's `usageMetadata`. The id of a new item is random.
    pub fn finish(&mut self, usage_meta: &Json) -> (out: Vec<Json>)
        requires
            old(self)@.room(10, 4),
            counted(usage_meta@) <= u64::MAX,
        ensures
            exists|id: Seq<char>|
                is_simple_uuid(id) && step_of(*final(self), out) == #[trigger] (Step {
                    state: old(self)@,
                    events: seq![],
                }).finish(usage_meta@, id),
            close_survives(old(self)@),
    {
        let id = fresh_id();
        self.finish_with(usage_meta, id.as_str())
    }

    /// The event that ends the stream with an error. A long message is cut.
    pub fn failed(&mut self, message: &str) -> (r: Json)
        requires
            old(self)@.seq < u64::MAX,
        ensures
            r@ == event_json(
                "response.failed"@,
                old(self)@.failed_fields(message@),
                (old(self)@.seq + 1) as u64,
            ),
            final(self)@ == (TranslatorModel {
                seq: (old(self)@.seq + 1) as u64,
                ..old(self)@
            }),
    {
        let message = first_chars(message, 2000);
        let error = Json::object().with("code", Json::text("desk_shim_error")).with(
            "message",
            Json::Text(message),
        );
        let response = Json::object().with("id", Json::text(self.response_id.as_str())).with(
            "status",
            Json::text("failed"),
        ).with("error", error);
        self.event("response.failed", Json::object().with("response", response))
    }
}

}
