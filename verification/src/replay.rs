//! What a stream's output items come to when they are sent back as input.

use vstd::prelude::*;

use crate::blob::{blob_survives, blob_text, BlobModel};
use crate::codec::{json_text, read_text};
use crate::contents::{by_model, law_blob_replaces, lemma_grouped_by_model, push_visible, push_visibles, pushed_all, raw_entries, said, Role};
use crate::input::{args_of, call_part, content_text, item_texts, text_part, GatheredModel};
use crate::json::{empty_object, JsonModel};
use crate::translate::{args_in, blob_item_json, blob_of, call_item, close_survives, closed_item, event_json, item_fields, more_signed, num, part_survives, search_item, signed_parts, signed_text, txt, Open, PartIdsModel, SignedModel, Step, TranslatorModel};

verus! {

/// The keys that the items and events are told apart by are different texts.
pub proof fn lemma_keys()
    ensures
        "type"@ != "sequence_number"@,
        "type"@ != "item"@,
        "type"@ != "id"@,
        "type"@ != "summary"@,
        "type"@ != "encrypted_content"@,
        "type"@ != "role"@,
        "type"@ != "status"@,
        "type"@ != "content"@,
        "type"@ != "text"@,
        "type"@ != "annotations"@,
        "type"@ != "call_id"@,
        "type"@ != "name"@,
        "type"@ != "arguments"@,
        "type"@ != "action"@,
        "type"@ != "output_index"@,
        "item"@ != "sequence_number"@,
        "item"@ != "output_index"@,
        "encrypted_content"@ != "id"@,
        "encrypted_content"@ != "summary"@,
        "role"@ != "id"@,
        "role"@ != "status"@,
        "role"@ != "content"@,
        "content"@ != "id"@,
        "content"@ != "status"@,
        "text"@ != "annotations"@,
        "name"@ != "arguments"@,
        "name"@ != "status"@,
        "arguments"@ != "status"@,
{
    reveal_strlit("type");
    reveal_strlit("sequence_number");
    reveal_strlit("item");
    reveal_strlit("id");
    reveal_strlit("summary");
    reveal_strlit("encrypted_content");
    reveal_strlit("role");
    reveal_strlit("status");
    reveal_strlit("content");
    reveal_strlit("text");
    reveal_strlit("annotations");
    reveal_strlit("call_id");
    reveal_strlit("name");
    reveal_strlit("arguments");
    reveal_strlit("action");
    reveal_strlit("output_index");
    assert("type"@.len() == 4 && "sequence_number"@.len() == 15 && "item"@.len() == 4);
    assert("id"@.len() == 2 && "summary"@.len() == 7 && "encrypted_content"@.len() == 17);
    assert("role"@.len() == 4 && "status"@.len() == 6 && "content"@.len() == 7);
    assert("text"@.len() == 4 && "annotations"@.len() == 11 && "call_id"@.len() == 7);
    assert("name"@.len() == 4 && "arguments"@.len() == 9 && "action"@.len() == 6);
    assert("output_index"@.len() == 12);
    assert("type"@[0] == 't' && "item"@[0] == 'i' && "role"@[0] == 'r' && "name"@[0] == 'n');
    assert("type"@[1] == 'y' && "text"@[1] == 'e');
}

/// The types of the input items are different texts.
proof fn lemma_kinds()
    ensures
        "message"@ != "reasoning"@,
        "message"@ != "function_call"@,
        "message"@ != "function_call_output"@,
        "message"@ != "web_search_call"@,
        "reasoning"@ != "function_call"@,
        "reasoning"@ != "function_call_output"@,
        "reasoning"@ != "web_search_call"@,
        "function_call"@ != "function_call_output"@,
        "function_call"@ != "web_search_call"@,
        "function_call_output"@ != "web_search_call"@,
        "assistant"@ != "system"@,
        "assistant"@ != "developer"@,
{
    reveal_strlit("message");
    reveal_strlit("reasoning");
    reveal_strlit("function_call");
    reveal_strlit("function_call_output");
    reveal_strlit("web_search_call");
    reveal_strlit("assistant");
    reveal_strlit("system");
    reveal_strlit("developer");
    assert("message"@.len() == 7 && "reasoning"@.len() == 9 && "function_call"@.len() == 13);
    assert("function_call_output"@.len() == 20 && "web_search_call"@.len() == 15);
    assert("assistant"@.len() == 9 && "system"@.len() == 6 && "developer"@.len() == 9);
    assert("assistant"@[0] == 'a' && "developer"@[0] == 'd');
}

/// The event that says that an output item is done.
pub open spec fn is_done(event: JsonModel) -> bool {
    event.get("type"@) == Some(txt("response.output_item.done"@))
}

/// The item that an event is about.
pub open spec fn item_of(event: JsonModel) -> JsonModel {
    match event.get("item"@) {
        Some(item) => item,
        None => JsonModel::Null,
    }
}

/// The items that the events say are done, in order.
pub open spec fn done_items(events: Seq<JsonModel>) -> Seq<JsonModel>
    decreases events.len(),
{
    if events.len() == 0 {
        seq![]
    } else if is_done(events.last()) {
        done_items(events.drop_last()).push(item_of(events.last()))
    } else {
        done_items(events.drop_last())
    }
}

pub proof fn lemma_done_items_concat(a: Seq<JsonModel>, b: Seq<JsonModel>)
    ensures
        done_items(a + b) == done_items(a) + done_items(b),
    decreases b.len(),
{
    if b.len() == 0 {
        assert(a + b =~= a);
        assert(done_items(a) + done_items(b) =~= done_items(a));
    } else {
        lemma_done_items_concat(a, b.drop_last());
        assert((a + b).drop_last() =~= a + b.drop_last());
        assert((a + b).last() == b.last());
        if is_done(b.last()) {
            assert((done_items(a) + done_items(b.drop_last())).push(item_of(b.last())) =~= done_items(
                a,
            ) + done_items(b));
        }
    }
}

/// Gathering two lists of items is gathering the one after the other.
pub proof fn lemma_absorb_all_concat(g: GatheredModel, a: Seq<JsonModel>, b: Seq<JsonModel>)
    ensures
        g.absorb_all(a + b) == g.absorb_all(a).absorb_all(b),
    decreases b.len(),
{
    if b.len() == 0 {
        assert(a + b =~= a);
    } else {
        lemma_absorb_all_concat(g, a, b.drop_last());
        assert((a + b).drop_last() =~= a + b.drop_last());
        assert((a + b).last() == b.last());
    }
}

/// An event's kind and fields can be read off it.
pub proof fn lemma_event(kind: Seq<char>, fields: JsonModel, number: u64)
    requires
        fields is Object,
    ensures
        event_json(kind, fields, number).get("type"@) == Some(txt(kind)),
        event_json(kind, fields, number).get("item"@) == fields.get("item"@),
        event_json(kind, fields, number).get("sequence_number"@) == Some(num(number)),
{
    lemma_keys();
}

/// What one more event does to the items that are done.
pub proof fn lemma_emit_done(s: Step, kind: Seq<char>, fields: JsonModel)
    requires
        fields is Object,
    ensures
        kind != "response.output_item.done"@ ==> done_items(s.emit(kind, fields).events)
            == done_items(s.events),
        kind == "response.output_item.done"@ && fields.get("item"@) is Some ==> done_items(
            s.emit(kind, fields).events,
        ) == done_items(s.events).push(fields.get("item"@)->0),
{
    let number = (s.state.seq + 1) as u64;
    lemma_event(kind, fields, number);
    let events = s.emit(kind, fields).events;
    assert(events.drop_last() =~= s.events);
}

/// The kinds of the events that are not about a finished item.
pub proof fn lemma_event_kinds()
    ensures
        "response.output_item.added"@ != "response.output_item.done"@,
        "response.reasoning_summary_text.done"@ != "response.output_item.done"@,
        "response.reasoning_summary_part.added"@ != "response.output_item.done"@,
        "response.reasoning_summary_text.delta"@ != "response.output_item.done"@,
        "response.output_text.delta"@ != "response.output_item.done"@,
        "response.completed"@ != "response.output_item.done"@,
        "response.reasoning_summary_text.done"@ != "response.output_item.added"@,
        "response.reasoning_summary_part.added"@ != "response.output_item.added"@,
        "response.reasoning_summary_text.delta"@ != "response.output_item.added"@,
        "response.output_text.delta"@ != "response.output_item.added"@,
        "response.completed"@ != "response.output_item.added"@,
{
    reveal_strlit("response.output_item.added");
    reveal_strlit("response.output_item.done");
    reveal_strlit("response.reasoning_summary_text.done");
    reveal_strlit("response.reasoning_summary_part.added");
    reveal_strlit("response.reasoning_summary_text.delta");
    reveal_strlit("response.output_text.delta");
    reveal_strlit("response.completed");
    assert("response.output_item.added"@.len() == 26);
    assert("response.output_item.done"@.len() == 25);
    assert("response.reasoning_summary_text.done"@.len() == 36);
    assert("response.reasoning_summary_part.added"@.len() == 37);
    assert("response.reasoning_summary_text.delta"@.len() == 37);
    assert("response.output_text.delta"@.len() == 26);
    assert("response.completed"@.len() == 18);
    assert("response.output_text.delta"@[16] == 't');
    assert("response.output_item.added"@[16] == 'i');
}

/// An item that is added and done at once is the one item done.
pub proof fn lemma_item_added_done(s: Step, item: JsonModel)
    ensures
        done_items(s.item_added_done(item).events) == done_items(s.events).push(item),
{
    lemma_keys();
    lemma_event_kinds();
    let fields = item_fields(s.state.output_index, item);
    assert(fields.get("item"@) == Some(item));
    let added = s.emit("response.output_item.added"@, fields);
    lemma_emit_done(s, "response.output_item.added"@, fields);
    lemma_emit_done(added, "response.output_item.done"@, fields);
}

/// The items that closing the open item gives out.
pub open spec fn close_items(t: TranslatorModel, id: Seq<char>) -> Seq<JsonModel> {
    match t.current {
        None => seq![],
        Some(Open::Reasoning) => seq![closed_item(Open::Reasoning, t.item_id, t.buf)],
        Some(Open::Message) => if t.signed.len() > 0 {
            seq![
                closed_item(Open::Message, t.item_id, t.buf),
                blob_item_json(id, BlobModel { covers_prev: 1, parts: signed_parts(t.signed) }),
            ]
        } else {
            seq![closed_item(Open::Message, t.item_id, t.buf)]
        },
    }
}

pub proof fn lemma_close_items(s: Step, id: Seq<char>)
    ensures
        done_items(s.close(id).events) == done_items(s.events) + close_items(s.state, id),
        s.close(id).state.current is None,
{
    lemma_keys();
    lemma_event_kinds();
    if let Some(kind) = s.state.current {
        let text = s.state.buf;
        let item = closed_item(kind, s.state.item_id, text);
        let done = item_fields(s.state.output_index, item);
        assert(done.get("item"@) == Some(item));
        let taken = Step {
            state: TranslatorModel { current: None, buf: seq![], ..s.state },
            events: s.events,
        };
        match kind {
            Open::Reasoning => {
                let fields = s.state.delta_fields("summary_index"@).with("text"@, txt(text));
                let said = taken.emit("response.reasoning_summary_text.done"@, fields);
                lemma_emit_done(taken, "response.reasoning_summary_text.done"@, fields);
                lemma_emit_done(said, "response.output_item.done"@, done);
                assert(done_items(s.events).push(item) =~= done_items(s.events) + seq![item]);
            },
            Open::Message => {
                lemma_emit_done(taken, "response.output_item.done"@, done);
                let ended = taken.emit("response.output_item.done"@, done).advance().count();
                assert(done_items(ended.events) == done_items(s.events).push(item));
                if s.state.signed.len() > 0 {
                    let bare = Step {
                        state: TranslatorModel { signed: seq![], ..ended.state },
                        events: ended.events,
                    };
                    let blob = blob_item_json(
                        id,
                        BlobModel { covers_prev: 1, parts: signed_parts(s.state.signed) },
                    );
                    lemma_item_added_done(bare, blob);
                    assert(done_items(s.events).push(item).push(blob) =~= done_items(s.events)
                        + seq![item, blob]);
                } else {
                    assert(done_items(s.events).push(item) =~= done_items(s.events) + seq![item]);
                }
            },
        }
    } else {
        assert(done_items(s.events) + seq![] =~= done_items(s.events));
    }
}

/// The items that opening an item of the kind gives out.
pub open spec fn open_items(t: TranslatorModel, kind: Open, closing: Seq<char>) -> Seq<JsonModel> {
    if t.current == Some(kind) {
        seq![]
    } else {
        close_items(t, closing)
    }
}

proof fn lemma_open_items(s: Step, kind: Open, closing: Seq<char>, id: Seq<char>)
    ensures
        done_items(s.open_item(kind, closing, id).events) == done_items(s.events) + open_items(
            s.state,
            kind,
            closing,
        ),
        s.open_item(kind, closing, id).state.current == Some(kind),
        s.open_item(kind, closing, id).state.buf == (if s.state.current == Some(kind) {
            s.state.buf
        } else {
            seq![]
        }),
        s.open_item(kind, closing, id).state.signed == (if s.state.current == Some(kind) {
            s.state.signed
        } else {
            seq![]
        }),
{
    lemma_event_kinds();
    if s.state.current == Some(kind) {
        assert(done_items(s.events) + seq![] =~= done_items(s.events));
    } else {
        lemma_close_items(s, closing);
        let shut = s.close(closing);
        let item_id = match kind {
            Open::Reasoning => "rs_"@ + id,
            Open::Message => "msg_"@ + id,
        };
        let fresh = Step {
            state: TranslatorModel {
                current: Some(kind),
                item_id,
                buf: seq![],
                signed: seq![],
                ..shut.state
            },
            events: shut.events,
        };
        match kind {
            Open::Reasoning => {
                let added = item_fields(
                    fresh.state.output_index,
                    empty_object().with("type"@, txt("reasoning"@)).with("id"@, txt(item_id)).with(
                        "summary"@,
                        JsonModel::List(seq![]),
                    ),
                );
                let part = fresh.state.delta_fields("summary_index"@).with(
                    "part"@,
                    empty_object().with("type"@, txt("summary_text"@)).with("text"@, txt(""@)),
                );
                lemma_emit_done(fresh, "response.output_item.added"@, added);
                lemma_emit_done(
                    fresh.emit("response.output_item.added"@, added),
                    "response.reasoning_summary_part.added"@,
                    part,
                );
            },
            Open::Message => {
                let added = item_fields(
                    fresh.state.output_index,
                    empty_object().with("type"@, txt("message"@)).with("id"@, txt(item_id)).with(
                        "role"@,
                        txt("assistant"@),
                    ).with("status"@, txt("in_progress"@)).with(
                        "content"@,
                        JsonModel::List(seq![]),
                    ),
                );
                lemma_emit_done(fresh, "response.output_item.added"@, added);
            },
        }
    }
}

/// The items that a text part gives out, after those that opening its item does.
pub open spec fn text_items(
    t: TranslatorModel,
    text: Seq<char>,
    kind: Open,
    sig: Option<Seq<char>>,
    ids: PartIdsModel,
) -> Seq<JsonModel> {
    match (kind, sig) {
        (Open::Reasoning, Some(s)) => {
            let opened = (Step { state: t, events: seq![] }).open_item(kind, ids.closing, ids.item);
            seq![
                closed_item(kind, opened.state.item_id, opened.state.buf + text),
                blob_item_json(
                    ids.blob,
                    BlobModel { covers_prev: 0, parts: seq![signed_text(""@, s)] },
                ),
            ]
        },
        _ => seq![],
    }
}

proof fn lemma_text_items(
    t: TranslatorModel,
    text: Seq<char>,
    kind: Open,
    sig: Option<Seq<char>>,
    ids: PartIdsModel,
)
    ensures
        ({
            let out = (Step { state: t, events: seq![] }).text(text, kind, sig, ids);
            &&& done_items(out.events) == open_items(t, kind, ids.closing) + text_items(
                t,
                text,
                kind,
                sig,
                ids,
            )
            &&& kind == Open::Message ==> out.state.current == Some(Open::Message) && out.state.buf
                == (if t.current == Some(kind) {
                t.buf + text
            } else {
                seq![] + text
            }) && out.state.signed == (if t.current == Some(kind) {
                more_signed(t.buf, t.signed, text, sig)
            } else {
                more_signed(seq![], seq![], text, sig)
            })
            &&& kind == Open::Reasoning ==> out.state.current != Some(Open::Message)
        }),
{
    lemma_event_kinds();
    let s = Step { state: t, events: seq![] };
    lemma_open_items(s, kind, ids.closing, ids.item);
    assert(done_items(s.events) =~= seq![]);
    let opened = s.open_item(kind, ids.closing, ids.item);
    assert(done_items(opened.events) =~= open_items(t, kind, ids.closing));
    let grown = Step {
        state: TranslatorModel { buf: opened.state.buf + text, ..opened.state },
        events: opened.events,
    };
    match kind {
        Open::Reasoning => {
            let fields = grown.state.delta_fields("summary_index"@).with("delta"@, txt(text));
            let said = grown.emit("response.reasoning_summary_text.delta"@, fields);
            lemma_emit_done(grown, "response.reasoning_summary_text.delta"@, fields);
            match sig {
                Some(x) => {
                    lemma_close_items(said, ids.closing);
                    let blob = blob_item_json(
                        ids.blob,
                        BlobModel { covers_prev: 0, parts: seq![signed_text(""@, x)] },
                    );
                    lemma_item_added_done(said.close(ids.closing), blob);
                    let out = s.text(text, kind, sig, ids);
                    assert(done_items(out.events) =~= open_items(t, kind, ids.closing)
                        + text_items(t, text, kind, sig, ids));
                },
                None => {
                    assert(open_items(t, kind, ids.closing) + seq![] =~= open_items(
                        t,
                        kind,
                        ids.closing,
                    ));
                },
            }
        },
        Open::Message => {
            let fields = grown.state.delta_fields("content_index"@).with("delta"@, txt(text));
            lemma_emit_done(grown, "response.output_text.delta"@, fields);
            assert(open_items(t, kind, ids.closing) + seq![] =~= open_items(t, kind, ids.closing));
        },
    }
}

/// What has to be sent back of the parts of a stream: the parts so far, and the
/// text of a message that goes on with the signed texts that it is made of.
#[verifier::ext_equal]
pub struct Ledger {
    pub parts: Seq<JsonModel>,
    pub pending: Option<(Seq<char>, Seq<SignedModel>)>,
}

impl Ledger {
    /// Nothing to send back.
    pub open spec fn empty() -> Ledger {
        Ledger { parts: seq![], pending: None }
    }

    /// The parts that a message comes to: its text, with every signature that it
    /// had, each on a part of its own.
    pub open spec fn owed(self) -> Seq<JsonModel> {
        match self.pending {
            Some((text, signed)) => if signed.len() > 0 {
                signed_parts(signed)
            } else {
                seq![text_part(text)]
            },
            None => seq![],
        }
    }

    /// The message, if any, goes on no longer.
    pub open spec fn flush(self) -> Ledger {
        Ledger { parts: self.parts + self.owed(), pending: None }
    }

    /// One more part to send back.
    pub open spec fn owe(self, part: JsonModel) -> Ledger {
        let flushed = self.flush();
        Ledger { parts: flushed.parts.push(part), pending: None }
    }

    /// One more part of the stream. A call that has a signature, a server-side
    /// call or response, and a signature on a part without text are sent back as
    /// they came; a call without a signature by its name and arguments; a message
    /// by its text, with each of its signatures; and of a thought its signature only.
    pub open spec fn take(self, part: JsonModel) -> Ledger {
        let sig = part.text_at("thoughtSignature"@);
        let text = part.text_or("text"@, ""@);
        if let Some(fc) = part.get("functionCall"@) {
            if sig is Some {
                self.owe(part)
            } else {
                self.owe(
                    call_part(
                        fc.text_or("name"@, ""@),
                        match args_in(fc) {
                            JsonModel::Object(m) => JsonModel::Object(m),
                            other => empty_object().with("value"@, other),
                        },
                    ),
                )
            }
        } else if part.get("toolCall"@) is Some || part.get("toolResponse"@) is Some {
            self.owe(part)
        } else if text.len() == 0 {
            if sig is Some {
                self.owe(part)
            } else {
                self
            }
        } else if part.get("thought"@) == Some(JsonModel::Bool(true)) {
            match sig {
                Some(s) => self.owe(signed_text(""@, s)),
                None => self.flush(),
            }
        } else {
            let (said, signed) = match self.pending {
                Some(p) => p,
                None => (seq![], seq![]),
            };
            Ledger {
                parts: self.parts,
                pending: Some((said + text, more_signed(said, signed, text, sig))),
            }
        }
    }

    /// More parts of the stream, in order.
    pub open spec fn take_all(self, parts: Seq<JsonModel>) -> Ledger
        decreases parts.len(),
    {
        if parts.len() == 0 {
            self
        } else {
            self.take_all(parts.drop_last()).take(parts.last())
        }
    }
}

/// Whether a part goes back as it came: a call that has a signature, a server-side
/// call or response, or a signature on a part without text.
pub open spec fn verbatim(part: JsonModel) -> bool {
    let signed = part.text_at("thoughtSignature"@) is Some;
    if part.get("functionCall"@) is Some {
        signed
    } else if part.get("toolCall"@) is Some || part.get("toolResponse"@) is Some {
        true
    } else {
        signed && part.text_or("text"@, ""@).len() == 0
    }
}

proof fn lemma_ledger_grows(l: Ledger, parts: Seq<JsonModel>)
    ensures
        l.parts.is_prefix_of(l.take_all(parts).parts),
    decreases parts.len(),
{
    if parts.len() > 0 {
        let before = l.take_all(parts.drop_last());
        let after = before.take(parts.last());
        lemma_ledger_grows(l, parts.drop_last());
        assert(before.parts.is_prefix_of(after.parts)) by {
            assert(after.parts.take(before.parts.len() as int) =~= before.parts);
        }
        assert(after.parts.take(l.parts.len() as int) =~= before.parts.take(l.parts.len() as int));
    } else {
        assert(l.parts.take(l.parts.len() as int) =~= l.parts);
    }
}

proof fn lemma_ledger_concat(l: Ledger, a: Seq<JsonModel>, b: Seq<JsonModel>)
    ensures
        l.take_all(a + b) == l.take_all(a).take_all(b),
    decreases b.len(),
{
    if b.len() == 0 {
        assert(a + b =~= a);
    } else {
        lemma_ledger_concat(l, a, b.drop_last());
        assert((a + b).drop_last() =~= a + b.drop_last());
        assert((a + b).last() == b.last());
    }
}

/// A part that goes back as it came stands in the ledger unchanged, right after all
/// that the parts before it come to.
pub proof fn law_verbatim_part_goes_back(parts: Seq<JsonModel>, i: int)
    requires
        0 <= i < parts.len(),
        verbatim(parts[i]),
    ensures
        Ledger::empty().take_all(parts.take(i)).flush().parts.push(parts[i]).is_prefix_of(
            Ledger::empty().take_all(parts).flush().parts,
        ),
{
    let head = parts.take(i);
    let upto = parts.take(i + 1);
    let rest = parts.skip(i + 1);
    assert(upto + rest =~= parts);
    assert(upto.drop_last() =~= head);
    assert(upto.last() == parts[i]);
    lemma_ledger_concat(Ledger::empty(), upto, rest);
    let l = Ledger::empty().take_all(upto);
    lemma_ledger_grows(l, rest);
    let whole = Ledger::empty().take_all(parts);
    let n = l.parts.len() as int;
    assert(l.parts == Ledger::empty().take_all(head).flush().parts.push(parts[i]));
    assert(whole.flush().parts.take(n) =~= whole.parts.take(n));
}

/// The signatures on the parts, in order.
pub open spec fn signatures(parts: Seq<JsonModel>) -> Seq<Seq<char>>
    decreases parts.len(),
{
    if parts.len() == 0 {
        seq![]
    } else {
        match parts.last().text_at("thoughtSignature"@) {
            Some(sig) => signatures(parts.drop_last()).push(sig),
            None => signatures(parts.drop_last()),
        }
    }
}

proof fn lemma_signatures_concat(a: Seq<JsonModel>, b: Seq<JsonModel>)
    ensures
        signatures(a + b) == signatures(a) + signatures(b),
    decreases b.len(),
{
    if b.len() == 0 {
        assert(a + b =~= a);
        assert(signatures(a) + signatures(b) =~= signatures(a));
    } else {
        lemma_signatures_concat(a, b.drop_last());
        assert((a + b).drop_last() =~= a + b.drop_last());
        assert((a + b).last() == b.last());
        if let Some(sig) = b.last().text_at("thoughtSignature"@) {
            assert((signatures(a) + signatures(b.drop_last())).push(sig) =~= signatures(a)
                + signatures(b));
        }
    }
}

proof fn lemma_signatures_one(part: JsonModel)
    ensures
        signatures(seq![part]) == (match part.text_at("thoughtSignature"@) {
            Some(sig) => seq![sig],
            None => seq![],
        }),
{
    assert(seq![part].drop_last() =~= seq![]);
    assert(signatures(seq![part].drop_last()) =~= seq![]);
    if let Some(sig) = part.text_at("thoughtSignature"@) {
        assert(signatures(seq![part]) =~= seq![sig]);
    }
}

proof fn lemma_signatures_signed(signed: Seq<SignedModel>)
    ensures
        signatures(signed_parts(signed)) == signed.map_values(|x: SignedModel| x.sig),
    decreases signed.len(),
{
    let parts = signed_parts(signed);
    if signed.len() == 0 {
        assert(signatures(parts) =~= signed.map_values(|x: SignedModel| x.sig));
    } else {
        lemma_signatures_signed(signed.drop_last());
        assert(parts.drop_last() =~= signed_parts(signed.drop_last()));
        let last = signed_text(signed.last().text, signed.last().sig);
        assert(parts.last() == last);
        assert(last.get("thoughtSignature"@) == Some(txt(signed.last().sig)));
        assert(signatures(parts) =~= signed.map_values(|x: SignedModel| x.sig));
    }
}

proof fn lemma_signatures_taken(l: Ledger, part: JsonModel)
    ensures
        signatures(l.take(part).flush().parts) == signatures(l.flush().parts) + signatures(
            seq![part],
        ),
{
    lemma_keys();
    reveal_strlit("thoughtSignature");
    reveal_strlit("functionCall");
    reveal_strlit("text");
    assert("thoughtSignature"@.len() == 16 && "functionCall"@.len() == 12 && "text"@.len() == 4);
    let sig = part.text_at("thoughtSignature"@);
    let text = part.text_or("text"@, ""@);
    let before = l.flush().parts;
    let after = l.take(part);
    lemma_signatures_one(part);
    let none: Seq<Seq<char>> = seq![];
    assert(signatures(before) + none =~= signatures(before));
    if part.get("functionCall"@) is Some || part.get("toolCall"@) is Some || part.get(
        "toolResponse"@,
    ) is Some || (text.len() == 0 && sig is Some) || (text.len() > 0 && part.get("thought"@)
        == Some(JsonModel::Bool(true)) && sig is Some) {
        let one = after.parts.last();
        assert(after.flush().parts =~= before + seq![one]);
        lemma_signatures_concat(before, seq![one]);
        lemma_signatures_one(one);
        assert(one.text_at("thoughtSignature"@) == sig);
    } else if text.len() == 0 {
    } else if part.get("thought"@) == Some(JsonModel::Bool(true)) {
        assert(after.flush().parts =~= before);
    } else {
        let (said, signed) = match l.pending {
            Some(p) => p,
            None => (seq![], seq![]),
        };
        let more = more_signed(said, signed, text, sig);
        lemma_signatures_concat(l.parts, l.owed());
        lemma_signatures_concat(l.parts, after.owed());
        lemma_signatures_signed(signed);
        lemma_signatures_signed(more);
        lemma_signatures_one(text_part(said));
        lemma_signatures_one(text_part(said + text));
        assert(text_part(said).get("thoughtSignature"@) is None);
        assert(text_part(said + text).get("thoughtSignature"@) is None);
        let old_sigs = signed.map_values(|x: SignedModel| x.sig);
        let new_sigs = more.map_values(|x: SignedModel| x.sig);
        assert(signatures(l.owed()) =~= old_sigs);
        assert(signatures(after.owed()) =~= new_sigs);
        assert(new_sigs =~= old_sigs + signatures(seq![part]));
        assert(signatures(l.parts) + new_sigs =~= signatures(l.parts) + old_sigs + signatures(
            seq![part],
        ));
    }
}

/// Every signature that came in is owed: the parts that go back carry the
/// signatures of the stream's parts, each once and in order.
pub proof fn law_signatures_go_back(parts: Seq<JsonModel>)
    ensures
        signatures(Ledger::empty().take_all(parts).flush().parts) == signatures(parts),
    decreases parts.len(),
{
    if parts.len() == 0 {
        assert(Ledger::empty().flush().parts =~= seq![]);
    } else {
        let front = parts.drop_last();
        law_signatures_go_back(front);
        lemma_signatures_taken(Ledger::empty().take_all(front), parts.last());
        lemma_signatures_concat(front, seq![parts.last()]);
        assert(front + seq![parts.last()] =~= parts);
    }
}

/// The texts of signed texts, one after the other.
pub open spec fn signed_whole(signed: Seq<SignedModel>) -> Seq<char>
    decreases signed.len(),
{
    if signed.len() == 0 {
        seq![]
    } else {
        signed_whole(signed.drop_last()) + signed.last().text
    }
}

/// The signed texts of a message, where it has any, are together its whole text,
/// and stay so whatever it says next.
pub proof fn law_signed_texts_are_the_message(
    buf: Seq<char>,
    signed: Seq<SignedModel>,
    text: Seq<char>,
    sig: Option<Seq<char>>,
)
    requires
        signed.len() > 0 ==> signed_whole(signed) == buf,
    ensures
        more_signed(buf, signed, text, sig).len() > 0 ==> signed_whole(
            more_signed(buf, signed, text, sig),
        ) == buf + text,
{
    let more = more_signed(buf, signed, text, sig);
    if more.len() > 0 {
        if signed.len() == 0 {
            assert(more.drop_last() =~= seq![]);
            assert(signed_whole(more.drop_last()) =~= seq![]);
            assert(signed_whole(more) =~= buf + text);
        } else if sig is Some {
            assert(more.drop_last() =~= signed);
        } else {
            assert(more.drop_last() =~= signed.drop_last());
            assert(signed_whole(more) =~= buf + text);
        }
    }
}

/// Where every part goes back as it came, the ledger is the parts themselves.
pub proof fn law_raw_parts_are_owed(parts: Seq<JsonModel>)
    requires
        forall|i: int| 0 <= i < parts.len() ==> verbatim(#[trigger] parts[i]),
    ensures
        Ledger::empty().take_all(parts) == (Ledger { parts, pending: None }),
        Ledger::empty().take_all(parts).flush().parts == parts,
    decreases parts.len(),
{
    if parts.len() > 0 {
        let front = parts.drop_last();
        assert forall|i: int| 0 <= i < front.len() implies verbatim(#[trigger] front[i]) by {
            assert(front[i] == parts[i]);
        }
        law_raw_parts_are_owed(front);
        assert(verbatim(parts[parts.len() - 1]));
        assert(front.push(parts.last()) =~= parts);
        let l = Ledger { parts: front, pending: None };
        assert(l.flush().parts =~= front);
        assert(Ledger::empty().take_all(parts).parts =~= parts);
    }
    let l = Ledger { parts, pending: None };
    assert(l.flush().parts =~= parts);
}

/// Whether a ledger's message is the one that is open.
pub open spec fn in_step(t: TranslatorModel, l: Ledger) -> bool {
    l.pending == (if t.current == Some(Open::Message) {
        Some((t.buf, t.signed))
    } else {
        None
    })
}

/// Whether items that are sent back come to these parts of the model, after
/// whatever was before.
pub open spec fn replays(items: Seq<JsonModel>, parts: Seq<JsonModel>) -> bool {
    forall|g: GatheredModel|
        said((#[trigger] g.absorb_all(items)).contents.entries) == said(g.contents.entries)
            + by_model(parts)
}

proof fn lemma_replays_concat(
    a: Seq<JsonModel>,
    p: Seq<JsonModel>,
    b: Seq<JsonModel>,
    q: Seq<JsonModel>,
)
    requires
        replays(a, p),
        replays(b, q),
    ensures
        replays(a + b, p + q),
{
    assert forall|g: GatheredModel| said((#[trigger] g.absorb_all(a + b)).contents.entries) == said(
        g.contents.entries,
    ) + by_model(p + q) by {
        lemma_absorb_all_concat(g, a, b);
        let mid = g.absorb_all(a);
        assert(said(mid.absorb_all(b).contents.entries) == said(mid.contents.entries) + by_model(
            q,
        ));
        assert(said(g.contents.entries) + by_model(p) + by_model(q) =~= said(g.contents.entries)
            + by_model(p + q));
    }
}

proof fn lemma_replays_nothing()
    ensures
        replays(seq![], seq![]),
{
    let items: Seq<JsonModel> = seq![];
    let parts: Seq<JsonModel> = seq![];
    assert forall|g: GatheredModel| said((#[trigger] g.absorb_all(items)).contents.entries) == said(
        g.contents.entries,
    ) + by_model(parts) by {
        assert(said(g.contents.entries) + by_model(parts) =~= said(g.contents.entries));
    }
}

/// A reasoning item without a blob comes to nothing.
proof fn lemma_absorb_reasoning(g: GatheredModel, id: Seq<char>, text: Seq<char>)
    ensures
        g.absorb(closed_item(Open::Reasoning, id, text)) == g,
{
    lemma_keys();
    lemma_kinds();
    let item = closed_item(Open::Reasoning, id, text);
    assert(item.get("type"@) == Some(txt("reasoning"@)));
    assert(item.get("encrypted_content"@) is None);
}

/// A blob item that reads back applies its blob.
proof fn lemma_absorb_blob(g: GatheredModel, id: Seq<char>, blob: BlobModel)
    requires
        blob_survives(blob),
    ensures
        g.absorb(blob_item_json(id, blob)) == (GatheredModel {
            contents: g.contents.apply_blob(blob),
            ..g
        }),
{
    lemma_keys();
    lemma_kinds();
    let item = blob_item_json(id, blob);
    assert(item.get("type"@) == Some(txt("reasoning"@)));
    assert(item.get("encrypted_content"@) == Some(txt(blob_text(blob))));
}

/// A message comes to a text part.
proof fn lemma_absorb_message(g: GatheredModel, id: Seq<char>, text: Seq<char>)
    ensures
        g.absorb(closed_item(Open::Message, id, text)) == (GatheredModel {
            contents: g.contents.push_visible_model(text_part(text)),
            ..g
        }),
{
    lemma_keys();
    lemma_kinds();
    let item = closed_item(Open::Message, id, text);
    let content = item.get("content"@)->0->List_0;
    assert(item.get("type"@) == Some(txt("message"@)));
    assert(item.get("role"@) == Some(txt("assistant"@)));
    assert(content.last().get("text"@) == Some(txt(text)));
    assert(content.drop_last() =~= seq![]);
    assert(item_texts(content.drop_last()) =~= seq![]);
    assert(item_texts(content) =~= seq![text]);
    assert(content_text(item.get("content"@)) == text);
}

/// A web search comes to no part.
proof fn lemma_absorb_search(g: GatheredModel, tc: JsonModel, id: Seq<char>)
    ensures
        g.absorb(search_item(tc, id)) == (GatheredModel {
            contents: g.contents.push_visible_empty(),
            ..g
        }),
{
    lemma_keys();
    lemma_kinds();
    assert(search_item(tc, id).get("type"@) == Some(txt("web_search_call"@)));
}

/// The part that a function call item comes to.
pub open spec fn plain_call(fc: JsonModel, read: Result<JsonModel, Seq<char>>) -> JsonModel {
    call_part(fc.text_or("name"@, ""@), args_of(json_text(args_in(fc)), read))
}

/// A function call comes to a call part.
proof fn lemma_absorb_call(g: GatheredModel, fc: JsonModel, id: Seq<char>, call: Seq<char>)
    ensures
        g.absorb(call_item(fc, id, call)).contents == g.contents.push_visible_model(
            plain_call(fc, read_text(json_text(args_in(fc)))),
        ),
{
    lemma_keys();
    lemma_kinds();
    let item = call_item(fc, id, call);
    assert(item.get("type"@) == Some(txt("function_call"@)));
    assert(item.get("arguments"@) == Some(txt(json_text(args_in(fc)))));
    assert(item.get("name"@) == Some(
        match fc.get("name"@) {
            Some(n) => n,
            None => txt(""@),
        },
    ));
    assert(item.text_or("name"@, ""@) == fc.text_or("name"@, ""@));
}

/// One item and its effect.
proof fn lemma_absorb_one(g: GatheredModel, item: JsonModel)
    ensures
        g.absorb_all(seq![item]) == g.absorb(item),
{
    assert(seq![item].drop_last() =~= seq![]);
    assert(g.absorb_all(seq![item].drop_last()) == g);
}

/// Two items and their effect.
proof fn lemma_absorb_two(g: GatheredModel, a: JsonModel, b: JsonModel)
    ensures
        g.absorb_all(seq![a, b]) == g.absorb(a).absorb(b),
{
    lemma_absorb_one(g, a);
    assert(seq![a, b].drop_last() =~= seq![a]);
}

/// A visible item and the blob that covers it.
proof fn lemma_replays_covered(
    item: JsonModel,
    shown: Option<JsonModel>,
    id: Seq<char>,
    parts: Seq<JsonModel>,
)
    requires
        blob_survives(BlobModel { covers_prev: 1, parts }),
        forall|g: GatheredModel| (#[trigger] g.absorb(item)).contents == push_visible(g.contents, shown),
    ensures
        replays(seq![item, blob_item_json(id, BlobModel { covers_prev: 1, parts })], parts),
{
    let blob = BlobModel { covers_prev: 1, parts };
    let items = seq![item, blob_item_json(id, blob)];
    assert forall|g: GatheredModel| said((#[trigger] g.absorb_all(items)).contents.entries) == said(
        g.contents.entries,
    ) + by_model(parts) by {
        lemma_absorb_two(g, item, blob_item_json(id, blob));
        lemma_absorb_blob(g.absorb(item), id, blob);
        let one = seq![shown];
        assert(one.drop_last() =~= seq![]);
        assert(push_visibles(g.contents, one.drop_last()) == g.contents);
        assert(push_visibles(g.contents, one) == push_visible(g.contents, shown));
        law_blob_replaces(g.contents, one, parts);
        assert(said(g.contents.entries + raw_entries(parts)) =~= said(g.contents.entries)
            + by_model(parts));
    }
}

/// A blob that covers nothing.
proof fn lemma_replays_alone(id: Seq<char>, part: JsonModel)
    requires
        blob_survives(blob_of(0, part)),
    ensures
        replays(seq![blob_item_json(id, blob_of(0, part))], seq![part]),
{
    let blob = blob_item_json(id, blob_of(0, part));
    let items = seq![blob];
    let parts = seq![part];
    assert forall|g: GatheredModel| said((#[trigger] g.absorb_all(items)).contents.entries) == said(
        g.contents.entries,
    ) + by_model(parts) by {
        lemma_absorb_one(g, blob);
        lemma_absorb_blob(g, id, blob_of(0, part));
        let none: Seq<Option<JsonModel>> = seq![];
        assert(push_visibles(g.contents, none) == g.contents);
        law_blob_replaces(g.contents, none, parts);
        assert(said(g.contents.entries + raw_entries(parts)) =~= said(g.contents.entries)
            + by_model(parts));
    }
}

/// A visible item that nothing covers.
proof fn lemma_replays_visible(item: JsonModel, part: JsonModel)
    requires
        forall|g: GatheredModel|
            (#[trigger] g.absorb(item)).contents == g.contents.push_visible_model(part),
    ensures
        replays(seq![item], seq![part]),
{
    let items = seq![item];
    let parts = seq![part];
    assert forall|g: GatheredModel| said((#[trigger] g.absorb_all(items)).contents.entries) == said(
        g.contents.entries,
    ) + by_model(parts) by {
        lemma_absorb_one(g, item);
        assert(said(g.contents.push_visible_model(part).entries) =~= said(g.contents.entries)
            + by_model(parts));
    }
}

/// A reasoning item without a blob.
proof fn lemma_replays_thought(id: Seq<char>, text: Seq<char>)
    ensures
        replays(seq![closed_item(Open::Reasoning, id, text)], seq![]),
{
    let item = closed_item(Open::Reasoning, id, text);
    let items = seq![item];
    let parts: Seq<JsonModel> = seq![];
    assert forall|g: GatheredModel| said((#[trigger] g.absorb_all(items)).contents.entries) == said(
        g.contents.entries,
    ) + by_model(parts) by {
        lemma_absorb_one(g, item);
        lemma_absorb_reasoning(g, id, text);
        assert(said(g.contents.entries) + by_model(parts) =~= said(g.contents.entries));
    }
}

/// Closing the open item sends back what the ledger owes.
proof fn lemma_replays_close(t: TranslatorModel, l: Ledger, id: Seq<char>)
    requires
        in_step(t, l),
        close_survives(t),
    ensures
        replays(close_items(t, id), l.owed()),
{
    match t.current {
        None => {
            lemma_replays_nothing();
        },
        Some(Open::Reasoning) => {
            lemma_replays_thought(t.item_id, t.buf);
        },
        Some(Open::Message) => {
            let item = closed_item(Open::Message, t.item_id, t.buf);
            assert forall|g: GatheredModel| (#[trigger] g.absorb(item)).contents
                == g.contents.push_visible_model(text_part(t.buf)) by {
                lemma_absorb_message(g, t.item_id, t.buf);
            }
            if t.signed.len() > 0 {
                lemma_replays_covered(item, Some(text_part(t.buf)), id, signed_parts(t.signed));
            } else {
                lemma_replays_visible(item, text_part(t.buf));
            }
        },
    }
}

/// The parts that one more part of the stream adds to the ledger.
pub open spec fn added(l: Ledger, part: JsonModel) -> Seq<JsonModel> {
    let after = l.take(part).parts;
    after.skip(l.parts.len() as int)
}

/// The items of one part come to what the part adds to the ledger.
proof fn lemma_part_replays(t: TranslatorModel, l: Ledger, part: JsonModel, ids: PartIdsModel)
    requires
        in_step(t, l),
        part_survives(t, part),
    ensures
        ({
            let out = (Step { state: t, events: seq![] }).on_part(part, ids);
            &&& in_step(out.state, l.take(part))
            &&& replays(done_items(out.events), added(l, part))
            &&& l.take(part).parts == l.parts + added(l, part)
        }),
{
    let s = Step { state: t, events: seq![] };
    let out = s.on_part(part, ids);
    let sig = part.text_at("thoughtSignature"@);
    let text = part.text_or("text"@, ""@);
    let shut = s.close(ids.closing);
    let closing = close_items(t, ids.closing);
    assert(done_items(s.events) =~= seq![]);
    lemma_close_items(s, ids.closing);
    assert(done_items(shut.events) =~= closing);
    if close_survives(t) {
        lemma_replays_close(t, l, ids.closing);
    }
    let owed = l.owed();
    if let Some(fc) = part.get("functionCall"@) {
        let item = call_item(fc, ids.item, ids.call);
        let called = shut.item_added_done(item).count();
        lemma_item_added_done(shut, item);
        let plain = plain_call(fc, read_text(json_text(args_in(fc))));
        assert forall|g: GatheredModel| (#[trigger] g.absorb(item)).contents
            == g.contents.push_visible_model(plain) by {
            lemma_absorb_call(g, fc, ids.item, ids.call);
        }
        if sig is Some {
            let blob = blob_item_json(ids.blob, blob_of(1, part));
            lemma_item_added_done(called, blob);
            assert(done_items(out.events) =~= closing + seq![item, blob]);
            lemma_replays_covered(item, Some(plain), ids.blob, seq![part]);
            lemma_replays_concat(closing, owed, seq![item, blob], seq![part]);
            assert(l.take(part).parts =~= l.parts + (owed + seq![part]));
            assert(added(l, part) =~= owed + seq![part]);
        } else {
            assert(done_items(out.events) =~= closing + seq![item]);
            lemma_replays_visible(item, plain);
            lemma_replays_concat(closing, owed, seq![item], seq![plain]);
            assert(l.take(part).parts =~= l.parts + (owed + seq![plain]));
            assert(added(l, part) =~= owed + seq![plain]);
        }
    } else if let Some(tc) = part.get("toolCall"@) {
        let item = search_item(tc, ids.item);
        let called = shut.item_added_done(item).count();
        lemma_item_added_done(shut, item);
        assert forall|g: GatheredModel| (#[trigger] g.absorb(item)).contents == push_visible(
            g.contents,
            None,
        ) by {
            lemma_absorb_search(g, tc, ids.item);
        }
        let blob = blob_item_json(ids.blob, blob_of(1, part));
        lemma_item_added_done(called, blob);
        assert(done_items(out.events) =~= closing + seq![item, blob]);
        lemma_replays_covered(item, None, ids.blob, seq![part]);
        lemma_replays_concat(closing, owed, seq![item, blob], seq![part]);
        assert(l.take(part).parts =~= l.parts + (owed + seq![part]));
        assert(added(l, part) =~= owed + seq![part]);
    } else if part.get("toolResponse"@) is Some || (text.len() == 0 && sig is Some) {
        let blob = blob_item_json(ids.blob, blob_of(0, part));
        lemma_item_added_done(shut, blob);
        assert(done_items(out.events) =~= closing + seq![blob]);
        lemma_replays_alone(ids.blob, part);
        lemma_replays_concat(closing, owed, seq![blob], seq![part]);
        assert(l.take(part).parts =~= l.parts + (owed + seq![part]));
        assert(added(l, part) =~= owed + seq![part]);
    } else if text.len() == 0 {
        lemma_replays_nothing();
        assert(done_items(out.events) =~= seq![]);
        assert(added(l, part) =~= seq![]);
        assert(l.parts =~= l.parts + seq![]);
    } else if part.get("thought"@) == Some(JsonModel::Bool(true)) {
        lemma_text_items(t, text, Open::Reasoning, sig, ids);
        let opening = open_items(t, Open::Reasoning, ids.closing);
        assert(replays(opening, owed)) by {
            if t.current == Some(Open::Reasoning) {
                lemma_replays_nothing();
            }
        }
        match sig {
            Some(x) => {
                let opened = s.open_item(Open::Reasoning, ids.closing, ids.item);
                let item = closed_item(
                    Open::Reasoning,
                    opened.state.item_id,
                    opened.state.buf + text,
                );
                let blob = blob_item_json(ids.blob, blob_of(0, signed_text(""@, x)));
                lemma_replays_thought(opened.state.item_id, opened.state.buf + text);
                lemma_replays_alone(ids.blob, signed_text(""@, x));
                lemma_replays_concat(seq![item], seq![], seq![blob], seq![signed_text(""@, x)]);
                assert(seq![item] + seq![blob] =~= seq![item, blob]);
                assert(seq![] + seq![signed_text(""@, x)] =~= seq![signed_text(""@, x)]);
                lemma_replays_concat(
                    opening,
                    owed,
                    seq![item, blob],
                    seq![signed_text(""@, x)],
                );
                assert(l.take(part).parts =~= l.parts + (owed + seq![signed_text(""@, x)]));
                assert(added(l, part) =~= owed + seq![signed_text(""@, x)]);
            },
            None => {
                assert(done_items(out.events) =~= opening);
                assert(added(l, part) =~= owed);
            },
        }
    } else {
        lemma_text_items(t, text, Open::Message, sig, ids);
        let opening = open_items(t, Open::Message, ids.closing);
        assert(done_items(out.events) =~= opening);
        assert(replays(opening, seq![])) by {
            if t.current == Some(Open::Message) {
                lemma_replays_nothing();
            } else {
                assert(owed =~= seq![]);
            }
        }
        assert(added(l, part) =~= seq![]);
        assert(l.parts =~= l.parts + seq![]);
    }
}

/// What a translator does with one part.
#[verifier::opaque]
pub open spec fn taken(t: TranslatorModel, part: JsonModel, ids: PartIdsModel) -> Step {
    (Step { state: t, events: seq![] }).on_part(part, ids)
}

/// Whether what one part writes reads back.
#[verifier::opaque]
pub open spec fn survives(t: TranslatorModel, part: JsonModel) -> bool {
    part_survives(t, part)
}

/// A translator that takes parts one after the other, and the events that it
/// gives out.
pub open spec fn run(start: TranslatorModel, parts: Seq<JsonModel>, ids: Seq<PartIdsModel>) -> Step
    decreases parts.len(),
{
    if parts.len() == 0 {
        Step { state: start, events: seq![] }
    } else {
        let before = run(start, parts.drop_last(), ids.drop_last());
        let now = taken(before.state, parts.last(), ids.last());
        Step { state: now.state, events: before.events + now.events }
    }
}

/// Whether what the parts write reads back.
pub open spec fn run_survives(
    start: TranslatorModel,
    parts: Seq<JsonModel>,
    ids: Seq<PartIdsModel>,
) -> bool
    decreases parts.len(),
{
    parts.len() == 0 || (run_survives(start, parts.drop_last(), ids.drop_last()) && survives(
        run(start, parts.drop_last(), ids.drop_last()).state,
        parts.last(),
    ))
}

proof fn lemma_run_replays(
    start: TranslatorModel,
    parts: Seq<JsonModel>,
    ids: Seq<PartIdsModel>,
)
    requires
        start.current is None,
        parts.len() == ids.len(),
        run_survives(start, parts, ids),
    ensures
        ({
            let l = Ledger::empty().take_all(parts);
            let out = run(start, parts, ids);
            in_step(out.state, l) && replays(done_items(out.events), l.parts)
        }),
    decreases parts.len(),
{
    if parts.len() == 0 {
        lemma_replays_nothing();
        assert(done_items(run(start, parts, ids).events) =~= seq![]);
    } else {
        let front = parts.drop_last();
        let fids = ids.drop_last();
        reveal(taken);
        reveal(survives);
        lemma_run_replays(start, front, fids);
        let before = run(start, front, fids);
        let l = Ledger::empty().take_all(front);
        lemma_part_replays(before.state, l, parts.last(), ids.last());
        let now = (Step { state: before.state, events: seq![] }).on_part(parts.last(), ids.last());
        lemma_done_items_concat(before.events, now.events);
        lemma_replays_concat(
            done_items(before.events),
            l.parts,
            done_items(now.events),
            added(l, parts.last()),
        );
    }
}

/// Replay fidelity. The items that a whole stream says are done, from a translator
/// that has no item open on, sent back as input after anything else, come to the
/// model parts of the ledger: signed and server-side parts as they came, messages
/// with each of their signatures, calls by name and arguments, and nothing twice.
/// It holds where what is written as JSON text on the way reads back.
pub proof fn law_stream_replays(
    start: TranslatorModel,
    parts: Seq<JsonModel>,
    ids: Seq<PartIdsModel>,
    usage: JsonModel,
    closing: Seq<char>,
    g: GatheredModel,
)
    requires
        start.current is None,
        parts.len() == ids.len(),
        run_survives(start, parts, ids),
        close_survives(run(start, parts, ids).state),
    ensures
        ({
            let told = run(start, parts, ids);
            let ended = (Step { state: told.state, events: seq![] }).finish(usage, closing);
            g.absorb_all(done_items(told.events + ended.events)).contents.turns() == pushed_all(
                g.contents.turns(),
                Role::Model,
                Ledger::empty().take_all(parts).flush().parts,
            )
        }),
{
    let told = run(start, parts, ids);
    let l = Ledger::empty().take_all(parts);
    lemma_run_replays(start, parts, ids);
    let s = Step { state: told.state, events: seq![] };
    let ended = s.finish(usage, closing);
    let shut = s.close(closing);
    lemma_event_kinds();
    lemma_close_items(s, closing);
    assert(done_items(s.events) =~= seq![]);
    assert(done_items(shut.events) =~= close_items(told.state, closing));
    let fields = empty_object().with(
        "response"@,
        empty_object().with("id"@, txt(told.state.response_id)).with("object"@, txt("response"@)).with(
            "status"@,
            txt("completed"@),
        ).with("usage"@, crate::translate::usage_json(usage)),
    );
    lemma_emit_done(shut, "response.completed"@, fields);
    assert(done_items(ended.events) == close_items(told.state, closing));
    lemma_replays_close(told.state, l, closing);
    lemma_done_items_concat(told.events, ended.events);
    lemma_replays_concat(
        done_items(told.events),
        l.parts,
        close_items(told.state, closing),
        l.owed(),
    );
    let owed = l.parts + l.owed();
    assert(replays(done_items(told.events + ended.events), owed));
    assert(said(g.absorb_all(done_items(told.events + ended.events)).contents.entries) == said(
        g.contents.entries,
    ) + by_model(owed));
    lemma_grouped_by_model(said(g.contents.entries), owed);
}

/// How the parts of a stream are cut into chunks makes no difference.
pub proof fn law_run_in_chunks(
    start: TranslatorModel,
    a: Seq<JsonModel>,
    b: Seq<JsonModel>,
    ids_a: Seq<PartIdsModel>,
    ids_b: Seq<PartIdsModel>,
)
    requires
        a.len() == ids_a.len(),
        b.len() == ids_b.len(),
    ensures
        ({
            let whole = run(start, a + b, ids_a + ids_b);
            let first = run(start, a, ids_a);
            let second = run(first.state, b, ids_b);
            &&& whole.state == second.state
            &&& whole.events == first.events + second.events
            &&& run_survives(start, a + b, ids_a + ids_b) == (run_survives(start, a, ids_a)
                && run_survives(first.state, b, ids_b))
        }),
    decreases b.len(),
{
    let first = run(start, a, ids_a);
    if b.len() == 0 {
        assert(a + b =~= a);
        assert(ids_a + ids_b =~= ids_a);
        assert(first.events + seq![] =~= first.events);
    } else {
        let front = b.drop_last();
        let fids = ids_b.drop_last();
        law_run_in_chunks(start, a, front, ids_a, fids);
        assert((a + b).drop_last() =~= a + front);
        assert((ids_a + ids_b).drop_last() =~= ids_a + fids);
        assert((a + b).last() == b.last());
        assert((ids_a + ids_b).last() == ids_b.last());
        let before = run(start, a + front, ids_a + fids);
        let now = taken(before.state, b.last(), ids_b.last());
        assert(first.events + run(first.state, front, fids).events + now.events =~= first.events
            + (run(first.state, front, fids).events + now.events));
    }
}

}
