//! What the events of a stream hold, member by member.

use vstd::prelude::*;

use crate::blob::{blob_text, BlobModel};
use crate::codec::json_text;
use crate::json::{empty_object, JsonModel};
use crate::replay::{item_of, run, taken};
use crate::shape::{lemma_marks_concat, mark_of, marks, pending, Mark};
use crate::text::joined;
use crate::translate::{blob_item_json, call_item, closed_item, count, counted, event_json, item_fields, more_signed, num, search_item, signed_parts, signed_text, texts_among, txt, usage_json, Open, PartIdsModel, SignedModel, Step, TranslatorModel};

verus! {

/// The members of events are told apart.
proof fn lemma_event_members()
    ensures
        "type"@ != "sequence_number"@,
        "type"@ != "output_index"@,
        "type"@ != "item"@,
        "type"@ != "item_id"@,
        "type"@ != "summary_index"@,
        "type"@ != "content_index"@,
        "type"@ != "delta"@,
        "type"@ != "text"@,
        "type"@ != "part"@,
        "type"@ != "response"@,
        "sequence_number"@ != "output_index"@,
        "sequence_number"@ != "item"@,
        "sequence_number"@ != "item_id"@,
        "sequence_number"@ != "summary_index"@,
        "sequence_number"@ != "content_index"@,
        "sequence_number"@ != "delta"@,
        "sequence_number"@ != "text"@,
        "sequence_number"@ != "part"@,
        "sequence_number"@ != "response"@,
        "output_index"@ != "item"@,
        "output_index"@ != "item_id"@,
        "output_index"@ != "summary_index"@,
        "output_index"@ != "content_index"@,
        "output_index"@ != "delta"@,
        "output_index"@ != "text"@,
        "output_index"@ != "part"@,
        "output_index"@ != "response"@,
        "item"@ != "item_id"@,
        "item"@ != "summary_index"@,
        "item"@ != "content_index"@,
        "item"@ != "delta"@,
        "item"@ != "text"@,
        "item"@ != "part"@,
        "item"@ != "response"@,
        "item_id"@ != "summary_index"@,
        "item_id"@ != "content_index"@,
        "item_id"@ != "delta"@,
        "item_id"@ != "text"@,
        "item_id"@ != "part"@,
        "item_id"@ != "response"@,
        "summary_index"@ != "content_index"@,
        "summary_index"@ != "delta"@,
        "summary_index"@ != "text"@,
        "summary_index"@ != "part"@,
        "summary_index"@ != "response"@,
        "content_index"@ != "delta"@,
        "content_index"@ != "text"@,
        "content_index"@ != "part"@,
        "content_index"@ != "response"@,
        "delta"@ != "text"@,
        "delta"@ != "part"@,
        "delta"@ != "response"@,
        "text"@ != "part"@,
        "text"@ != "response"@,
        "part"@ != "response"@,
{
    reveal_strlit("type");
    reveal_strlit("sequence_number");
    reveal_strlit("output_index");
    reveal_strlit("item");
    reveal_strlit("item_id");
    reveal_strlit("summary_index");
    reveal_strlit("content_index");
    reveal_strlit("delta");
    reveal_strlit("text");
    reveal_strlit("part");
    reveal_strlit("response");
    assert("type"@.len() == 4);
    assert("sequence_number"@.len() == 15);
    assert("output_index"@.len() == 12);
    assert("item"@.len() == 4);
    assert("item_id"@.len() == 7);
    assert("summary_index"@.len() == 13);
    assert("content_index"@.len() == 13);
    assert("delta"@.len() == 5);
    assert("text"@.len() == 4);
    assert("part"@.len() == 4);
    assert("response"@.len() == 8);
    assert("type"@[0] != "item"@[0]);
    assert("type"@[1] != "text"@[1]);
    assert("type"@[0] != "part"@[0]);
    assert("item"@[0] != "text"@[0]);
    assert("item"@[0] != "part"@[0]);
    assert("summary_index"@[0] != "content_index"@[0]);
    assert("text"@[0] != "part"@[0]);
}

/// The kinds of events are told apart.
proof fn lemma_all_kinds()
    ensures
        "response.output_item.added"@ != "response.output_item.done"@,
        "response.output_item.added"@ != "response.reasoning_summary_text.done"@,
        "response.output_item.added"@ != "response.reasoning_summary_part.added"@,
        "response.output_item.added"@ != "response.reasoning_summary_text.delta"@,
        "response.output_item.added"@ != "response.output_text.delta"@,
        "response.output_item.added"@ != "response.completed"@,
        "response.output_item.added"@ != "response.created"@,
        "response.output_item.added"@ != "response.failed"@,
        "response.output_item.done"@ != "response.reasoning_summary_text.done"@,
        "response.output_item.done"@ != "response.reasoning_summary_part.added"@,
        "response.output_item.done"@ != "response.reasoning_summary_text.delta"@,
        "response.output_item.done"@ != "response.output_text.delta"@,
        "response.output_item.done"@ != "response.completed"@,
        "response.output_item.done"@ != "response.created"@,
        "response.output_item.done"@ != "response.failed"@,
        "response.reasoning_summary_text.done"@ != "response.reasoning_summary_part.added"@,
        "response.reasoning_summary_text.done"@ != "response.reasoning_summary_text.delta"@,
        "response.reasoning_summary_text.done"@ != "response.output_text.delta"@,
        "response.reasoning_summary_text.done"@ != "response.completed"@,
        "response.reasoning_summary_text.done"@ != "response.created"@,
        "response.reasoning_summary_text.done"@ != "response.failed"@,
        "response.reasoning_summary_part.added"@ != "response.reasoning_summary_text.delta"@,
        "response.reasoning_summary_part.added"@ != "response.output_text.delta"@,
        "response.reasoning_summary_part.added"@ != "response.completed"@,
        "response.reasoning_summary_part.added"@ != "response.created"@,
        "response.reasoning_summary_part.added"@ != "response.failed"@,
        "response.reasoning_summary_text.delta"@ != "response.output_text.delta"@,
        "response.reasoning_summary_text.delta"@ != "response.completed"@,
        "response.reasoning_summary_text.delta"@ != "response.created"@,
        "response.reasoning_summary_text.delta"@ != "response.failed"@,
        "response.output_text.delta"@ != "response.completed"@,
        "response.output_text.delta"@ != "response.created"@,
        "response.output_text.delta"@ != "response.failed"@,
        "response.completed"@ != "response.created"@,
        "response.completed"@ != "response.failed"@,
        "response.created"@ != "response.failed"@,
{
    reveal_strlit("response.output_item.added");
    reveal_strlit("response.output_item.done");
    reveal_strlit("response.reasoning_summary_text.done");
    reveal_strlit("response.reasoning_summary_part.added");
    reveal_strlit("response.reasoning_summary_text.delta");
    reveal_strlit("response.output_text.delta");
    reveal_strlit("response.completed");
    reveal_strlit("response.created");
    reveal_strlit("response.failed");
    assert("response.output_item.added"@.len() == 26);
    assert("response.output_item.done"@.len() == 25);
    assert("response.reasoning_summary_text.done"@.len() == 36);
    assert("response.reasoning_summary_part.added"@.len() == 37);
    assert("response.reasoning_summary_text.delta"@.len() == 37);
    assert("response.output_text.delta"@.len() == 26);
    assert("response.completed"@.len() == 18);
    assert("response.created"@.len() == 16);
    assert("response.failed"@.len() == 15);
    assert("response.output_item.added"@[16] != "response.output_text.delta"@[16]);
    assert("response.reasoning_summary_part.added"@[27] != "response.reasoning_summary_text.delta"@[27]);
}

/// The members of output items are told apart.
proof fn lemma_item_members()
    ensures
        "type"@ != "id"@,
        "type"@ != "summary"@,
        "type"@ != "encrypted_content"@,
        "type"@ != "role"@,
        "type"@ != "status"@,
        "type"@ != "content"@,
        "type"@ != "call_id"@,
        "type"@ != "name"@,
        "type"@ != "arguments"@,
        "type"@ != "action"@,
        "type"@ != "text"@,
        "type"@ != "annotations"@,
        "type"@ != "query"@,
        "type"@ != "thoughtSignature"@,
        "id"@ != "summary"@,
        "id"@ != "encrypted_content"@,
        "id"@ != "role"@,
        "id"@ != "status"@,
        "id"@ != "content"@,
        "id"@ != "call_id"@,
        "id"@ != "name"@,
        "id"@ != "arguments"@,
        "id"@ != "action"@,
        "id"@ != "text"@,
        "id"@ != "annotations"@,
        "id"@ != "query"@,
        "id"@ != "thoughtSignature"@,
        "summary"@ != "encrypted_content"@,
        "summary"@ != "role"@,
        "summary"@ != "status"@,
        "summary"@ != "content"@,
        "summary"@ != "call_id"@,
        "summary"@ != "name"@,
        "summary"@ != "arguments"@,
        "summary"@ != "action"@,
        "summary"@ != "text"@,
        "summary"@ != "annotations"@,
        "summary"@ != "query"@,
        "summary"@ != "thoughtSignature"@,
        "encrypted_content"@ != "role"@,
        "encrypted_content"@ != "status"@,
        "encrypted_content"@ != "content"@,
        "encrypted_content"@ != "call_id"@,
        "encrypted_content"@ != "name"@,
        "encrypted_content"@ != "arguments"@,
        "encrypted_content"@ != "action"@,
        "encrypted_content"@ != "text"@,
        "encrypted_content"@ != "annotations"@,
        "encrypted_content"@ != "query"@,
        "encrypted_content"@ != "thoughtSignature"@,
        "role"@ != "status"@,
        "role"@ != "content"@,
        "role"@ != "call_id"@,
        "role"@ != "name"@,
        "role"@ != "arguments"@,
        "role"@ != "action"@,
        "role"@ != "text"@,
        "role"@ != "annotations"@,
        "role"@ != "query"@,
        "role"@ != "thoughtSignature"@,
        "status"@ != "content"@,
        "status"@ != "call_id"@,
        "status"@ != "name"@,
        "status"@ != "arguments"@,
        "status"@ != "action"@,
        "status"@ != "text"@,
        "status"@ != "annotations"@,
        "status"@ != "query"@,
        "status"@ != "thoughtSignature"@,
        "content"@ != "call_id"@,
        "content"@ != "name"@,
        "content"@ != "arguments"@,
        "content"@ != "action"@,
        "content"@ != "text"@,
        "content"@ != "annotations"@,
        "content"@ != "query"@,
        "content"@ != "thoughtSignature"@,
        "call_id"@ != "name"@,
        "call_id"@ != "arguments"@,
        "call_id"@ != "action"@,
        "call_id"@ != "text"@,
        "call_id"@ != "annotations"@,
        "call_id"@ != "query"@,
        "call_id"@ != "thoughtSignature"@,
        "name"@ != "arguments"@,
        "name"@ != "action"@,
        "name"@ != "text"@,
        "name"@ != "annotations"@,
        "name"@ != "query"@,
        "name"@ != "thoughtSignature"@,
        "arguments"@ != "action"@,
        "arguments"@ != "text"@,
        "arguments"@ != "annotations"@,
        "arguments"@ != "query"@,
        "arguments"@ != "thoughtSignature"@,
        "action"@ != "text"@,
        "action"@ != "annotations"@,
        "action"@ != "query"@,
        "action"@ != "thoughtSignature"@,
        "text"@ != "annotations"@,
        "text"@ != "query"@,
        "text"@ != "thoughtSignature"@,
        "annotations"@ != "query"@,
        "annotations"@ != "thoughtSignature"@,
        "query"@ != "thoughtSignature"@,
        ""@ == Seq::<char>::empty(),
{
    reveal_strlit("type");
    reveal_strlit("id");
    reveal_strlit("summary");
    reveal_strlit("encrypted_content");
    reveal_strlit("role");
    reveal_strlit("status");
    reveal_strlit("content");
    reveal_strlit("call_id");
    reveal_strlit("name");
    reveal_strlit("arguments");
    reveal_strlit("action");
    reveal_strlit("text");
    reveal_strlit("annotations");
    reveal_strlit("query");
    reveal_strlit("thoughtSignature");
    reveal_strlit("");
    assert("type"@.len() == 4);
    assert("id"@.len() == 2);
    assert("summary"@.len() == 7);
    assert("encrypted_content"@.len() == 17);
    assert("role"@.len() == 4);
    assert("status"@.len() == 6);
    assert("content"@.len() == 7);
    assert("call_id"@.len() == 7);
    assert("name"@.len() == 4);
    assert("arguments"@.len() == 9);
    assert("action"@.len() == 6);
    assert("text"@.len() == 4);
    assert("annotations"@.len() == 11);
    assert("query"@.len() == 5);
    assert("thoughtSignature"@.len() == 16);
    assert(""@.len() == 0);
    assert("type"@[0] != "role"@[0]);
    assert("type"@[0] != "name"@[0]);
    assert("type"@[1] != "text"@[1]);
    assert("summary"@[0] != "content"@[0]);
    assert("summary"@[0] != "call_id"@[0]);
    assert("role"@[0] != "name"@[0]);
    assert("role"@[0] != "text"@[0]);
    assert("status"@[0] != "action"@[0]);
    assert("content"@[1] != "call_id"@[1]);
    assert("name"@[0] != "text"@[0]);
    assert(""@ =~= Seq::<char>::empty());
}

/// Whether an event is about a part of an output item: a text that is streamed, or
/// the summary of a thought that begins, goes on or is done.
pub open spec fn speaks(event: JsonModel) -> bool {
    ||| event.get("type"@) == Some(txt("response.output_text.delta"@))
    ||| event.get("type"@) == Some(txt("response.reasoning_summary_text.delta"@))
    ||| event.get("type"@) == Some(txt("response.reasoning_summary_part.added"@))
    ||| event.get("type"@) == Some(txt("response.reasoning_summary_text.done"@))
}

/// Whether the last thing that was said of output items is that one was added, and
/// the event carries the id and the output index of that item.
pub open spec fn is_about_the_open_item(before: Seq<Mark>, event: JsonModel) -> bool {
    &&& before.len() > 0
    &&& before.last().added
    &&& before.last().id is Some
    &&& before.last().index is Some
    &&& event.get("item_id"@) == Some(txt(before.last().id->0))
    &&& event.get("output_index"@) == Some(num(before.last().index->0))
}

/// Whether an event names an item exactly where it is about a part of one, and then
/// the one that is open.
pub open spec fn names_its_item(before: Seq<Mark>, event: JsonModel) -> bool {
    &&& event.get("item_id"@) is Some <==> speaks(event)
    &&& speaks(event) ==> is_about_the_open_item(before, event)
}

/// Whether each of the events names its item, after what was said before them.
pub open spec fn all_named(first: Seq<Mark>, events: Seq<JsonModel>) -> bool {
    forall|i: int|
        0 <= i < events.len() ==> names_its_item(
            first + marks(events.take(i)),
            #[trigger] events[i],
        )
}

/// Whether the events are named, and what is open is what was last said to be added.
spec fn follows(base: TranslatorModel, s: Step) -> bool {
    &&& all_named(pending(base), s.events)
    &&& s.state.current is Some ==> (pending(base) + marks(s.events)).len() > 0 && (pending(base)
        + marks(s.events)).last() == pending(s.state)[0]
}

/// One more event that names its item.
proof fn lemma_named_push(first: Seq<Mark>, events: Seq<JsonModel>, event: JsonModel)
    requires
        all_named(first, events),
        names_its_item(first + marks(events), event),
    ensures
        all_named(first, events.push(event)),
{
    let more = events.push(event);
    assert forall|i: int| 0 <= i < more.len() implies names_its_item(
        first + marks(more.take(i)),
        #[trigger] more[i],
    ) by {
        if i < events.len() {
            assert(more.take(i) =~= events.take(i));
            assert(more[i] == events[i]);
        } else {
            assert(more.take(i) =~= events);
        }
    }
}

/// An event about a whole item, or about none: it names no item.
proof fn lemma_silent_event(base: TranslatorModel, s: Step, kind: Seq<char>, fields: JsonModel)
    requires
        all_named(pending(base), s.events),
        fields is Object,
        fields.get("item_id"@) is None,
        kind == "response.output_item.added"@ || kind == "response.output_item.done"@ || kind
            == "response.completed"@ || kind == "response.created"@ || kind == "response.failed"@,
    ensures
        ({
            let event = event_json(kind, fields, (s.state.seq + 1) as u64);
            &&& all_named(pending(base), s.emit(kind, fields).events)
            &&& event.get("type"@) == Some(txt(kind))
            &&& event.get("item"@) == fields.get("item"@)
            &&& event.get("output_index"@) == fields.get("output_index"@)
            &&& kind == "response.output_item.added"@ || kind == "response.output_item.done"@
                ==> marks(s.emit(kind, fields).events) == marks(s.events).push(mark_of(event))
            &&& kind != "response.output_item.added"@ && kind != "response.output_item.done"@
                ==> marks(s.emit(kind, fields).events) == marks(s.events)
        }),
{
    lemma_event_members();
    lemma_all_kinds();
    let event = event_json(kind, fields, (s.state.seq + 1) as u64);
    assert(event.get("type"@) == Some(txt(kind)));
    assert(event.get("item_id"@) is None);
    lemma_named_push(pending(base), s.events, event);
    assert(s.emit(kind, fields).events.drop_last() =~= s.events);
}

/// An event about a part of the item that is open.
proof fn lemma_speaking_event(
    base: TranslatorModel,
    s: Step,
    t: TranslatorModel,
    kind: Seq<char>,
    index: Seq<char>,
    key: Seq<char>,
    value: JsonModel,
)
    requires
        all_named(pending(base), s.events),
        t.current is Some,
        (pending(base) + marks(s.events)).len() > 0,
        (pending(base) + marks(s.events)).last() == pending(t)[0],
        kind == "response.output_text.delta"@ || kind == "response.reasoning_summary_text.delta"@
            || kind == "response.reasoning_summary_part.added"@ || kind
            == "response.reasoning_summary_text.done"@,
        index == "summary_index"@ || index == "content_index"@,
        key == "delta"@ || key == "text"@ || key == "part"@,
    ensures
        all_named(
            pending(base),
            s.emit(kind, t.delta_fields(index).with(key, value)).events,
        ),
        marks(s.emit(kind, t.delta_fields(index).with(key, value)).events) == marks(s.events),
{
    lemma_event_members();
    lemma_all_kinds();
    let fields = t.delta_fields(index).with(key, value);
    let event = event_json(kind, fields, (s.state.seq + 1) as u64);
    assert(event.get("type"@) == Some(txt(kind)));
    assert(event.get("item_id"@) == Some(txt(t.item_id)));
    assert(event.get("output_index"@) == Some(num(t.output_index)));
    lemma_named_push(pending(base), s.events, event);
    assert(s.emit(kind, fields).events.drop_last() =~= s.events);
}

/// An item that is added and done at once.
proof fn lemma_follows_item(base: TranslatorModel, s: Step, item: JsonModel)
    requires
        follows(base, s),
        s.state.current is None,
    ensures
        follows(base, s.item_added_done(item)),
        s.item_added_done(item).state.current is None,
{
    lemma_event_members();
    let fields = item_fields(s.state.output_index, item);
    lemma_silent_event(base, s, "response.output_item.added"@, fields);
    let added = s.emit("response.output_item.added"@, fields);
    lemma_silent_event(base, added, "response.output_item.done"@, fields);
}

proof fn lemma_follows_close(base: TranslatorModel, s: Step, id: Seq<char>)
    requires
        follows(base, s),
    ensures
        follows(base, s.close(id)),
        s.close(id).state.current is None,
{
    lemma_event_members();
    if let Some(kind) = s.state.current {
        let text = s.state.buf;
        let fields = item_fields(
            s.state.output_index,
            closed_item(kind, s.state.item_id, text),
        );
        let bare = Step {
            state: TranslatorModel { current: None, buf: seq![], ..s.state },
            events: s.events,
        };
        let told = match kind {
            Open::Reasoning => bare.emit(
                "response.reasoning_summary_text.done"@,
                s.state.delta_fields("summary_index"@).with("text"@, txt(text)),
            ),
            Open::Message => bare,
        };
        if kind == Open::Reasoning {
            lemma_speaking_event(
                base,
                bare,
                s.state,
                "response.reasoning_summary_text.done"@,
                "summary_index"@,
                "text"@,
                txt(text),
            );
        }
        lemma_silent_event(base, told, "response.output_item.done"@, fields);
        let ended = told.emit("response.output_item.done"@, fields).advance().count();
        if kind == Open::Message && s.state.signed.len() > 0 {
            let clear = Step {
                state: TranslatorModel { signed: seq![], ..ended.state },
                events: ended.events,
            };
            let blob = BlobModel { covers_prev: 1, parts: signed_parts(s.state.signed) };
            lemma_follows_item(base, clear, blob_item_json(id, blob));
        }
    }
}

proof fn lemma_follows_open(
    base: TranslatorModel,
    s: Step,
    kind: Open,
    closing: Seq<char>,
    id: Seq<char>,
)
    requires
        follows(base, s),
    ensures
        follows(base, s.open_item(kind, closing, id)),
        s.open_item(kind, closing, id).state.current == Some(kind),
{
    lemma_event_members();
    lemma_item_members();
    if s.state.current != Some(kind) {
        lemma_follows_close(base, s, closing);
        let shut = s.close(closing);
        let item_id = match kind {
            Open::Reasoning => "rs_"@ + id,
            Open::Message => "msg_"@ + id,
        };
        let fresh = Step {
            state: TranslatorModel {
                current: Some(kind),
                item_id,
                buf: seq![],
                signed: seq![],
                ..shut.state
            },
            events: shut.events,
        };
        let item = opened_item(kind, item_id);
        let fields = item_fields(fresh.state.output_index, item);
        lemma_silent_event(base, fresh, "response.output_item.added"@, fields);
        let added = fresh.emit("response.output_item.added"@, fields);
        let e = event_json("response.output_item.added"@, fields, (fresh.state.seq + 1) as u64);
        assert(item.get("id"@) == Some(txt(item_id)));
        assert(item.get("type"@) == Some(
            txt(
                match kind {
                    Open::Reasoning => "reasoning"@,
                    Open::Message => "message"@,
                },
            ),
        ));
        assert(mark_of(e) == pending(added.state)[0]);
        assert((pending(base) + marks(added.events)).last() == mark_of(e));
        if kind == Open::Reasoning {
            lemma_speaking_event(
                base,
                added,
                fresh.state,
                "response.reasoning_summary_part.added"@,
                "summary_index"@,
                "part"@,
                empty_object().with("type"@, txt("summary_text"@)).with("text"@, txt(""@)),
            );
        }
    }
}

/// An item as it is added, before it has a text.
spec fn opened_item(kind: Open, item_id: Seq<char>) -> JsonModel {
    match kind {
        Open::Reasoning => empty_object().with("type"@, txt("reasoning"@)).with(
            "id"@,
            txt(item_id),
        ).with("summary"@, JsonModel::List(seq![])),
        Open::Message => empty_object().with("type"@, txt("message"@)).with(
            "id"@,
            txt(item_id),
        ).with("role"@, txt("assistant"@)).with("status"@, txt("in_progress"@)).with(
            "content"@,
            JsonModel::List(seq![]),
        ),
    }
}

proof fn lemma_follows_text(
    base: TranslatorModel,
    s: Step,
    text: Seq<char>,
    kind: Open,
    sig: Option<Seq<char>>,
    ids: PartIdsModel,
)
    requires
        follows(base, s),
    ensures
        follows(base, s.text(text, kind, sig, ids)),
{
    lemma_follows_open(base, s, kind, ids.closing, ids.item);
    let opened = s.open_item(kind, ids.closing, ids.item);
    let grown = Step {
        state: TranslatorModel { buf: opened.state.buf + text, ..opened.state },
        events: opened.events,
    };
    match kind {
        Open::Reasoning => {
            lemma_speaking_event(
                base,
                grown,
                grown.state,
                "response.reasoning_summary_text.delta"@,
                "summary_index"@,
                "delta"@,
                txt(text),
            );
            let told = grown.emit(
                "response.reasoning_summary_text.delta"@,
                grown.state.delta_fields("summary_index"@).with("delta"@, txt(text)),
            );
            if let Some(x) = sig {
                lemma_follows_close(base, told, ids.closing);
                let blob = BlobModel { covers_prev: 0, parts: seq![signed_text(""@, x)] };
                lemma_follows_item(base, told.close(ids.closing), blob_item_json(ids.blob, blob));
            }
        },
        Open::Message => {
            lemma_speaking_event(
                base,
                grown,
                grown.state,
                "response.output_text.delta"@,
                "content_index"@,
                "delta"@,
                txt(text),
            );
        },
    }
}

proof fn lemma_follows_start(t: TranslatorModel)
    ensures
        follows(t, Step { state: t, events: seq![] }),
{
    let none: Seq<JsonModel> = seq![];
    assert(pending(t) + marks(none) =~= pending(t));
}

proof fn lemma_follows_part(t: TranslatorModel, part: JsonModel, ids: PartIdsModel)
    ensures
        follows(t, (Step { state: t, events: seq![] }).on_part(part, ids)),
{
    let s = Step { state: t, events: seq![] };
    lemma_follows_start(t);
    lemma_follows_close(t, s, ids.closing);
    let shut = s.close(ids.closing);
    let sig = part.text_at("thoughtSignature"@);
    let text = part.text_or("text"@, ""@);
    let b0 = blob_item_json(ids.blob, BlobModel { covers_prev: 0, parts: seq![part] });
    let b1 = blob_item_json(ids.blob, BlobModel { covers_prev: 1, parts: seq![part] });
    if let Some(fc) = part.get("functionCall"@) {
        let item = call_item(fc, ids.item, ids.call);
        lemma_follows_item(t, shut, item);
        if sig is Some {
            lemma_follows_item(t, shut.item_added_done(item).count(), b1);
        }
    } else if let Some(tc) = part.get("toolCall"@) {
        let item = search_item(tc, ids.item);
        lemma_follows_item(t, shut, item);
        lemma_follows_item(t, shut.item_added_done(item).count(), b1);
    } else if part.get("toolResponse"@) is Some {
        lemma_follows_item(t, shut, b0);
    } else if text.len() == 0 {
        if sig is Some {
            lemma_follows_item(t, shut, b0);
        }
    } else if part.get("thought"@) == Some(JsonModel::Bool(true)) {
        lemma_follows_text(t, s, text, Open::Reasoning, sig, ids);
    } else {
        lemma_follows_text(t, s, text, Open::Message, sig, ids);
    }
}

/// One part: each event that names an item, and that is each event about a part of
/// one, names the item that was added last and is not done yet, by its id and its
/// output index. Before the part that is the item that was open.
pub proof fn law_part_names_the_open_item(t: TranslatorModel, part: JsonModel, ids: PartIdsModel)
    ensures
        all_named(pending(t), (Step { state: t, events: seq![] }).on_part(part, ids).events),
{
    lemma_follows_part(t, part, ids);
}

proof fn lemma_follows_run(start: TranslatorModel, parts: Seq<JsonModel>, ids: Seq<PartIdsModel>)
    requires
        parts.len() == ids.len(),
    ensures
        follows(start, run(start, parts, ids)),
    decreases parts.len(),
{
    if parts.len() == 0 {
        lemma_follows_start(start);
    } else {
        let before = run(start, parts.drop_last(), ids.drop_last());
        lemma_follows_run(start, parts.drop_last(), ids.drop_last());
        let now = taken(before.state, parts.last(), ids.last());
        reveal(taken);
        lemma_follows_part(before.state, parts.last(), ids.last());
        lemma_follows_concat(start, before, now);
    }
}

proof fn lemma_follows_concat(base: TranslatorModel, a: Step, b: Step)
    requires
        follows(base, a),
        follows(a.state, b),
    ensures
        follows(base, Step { state: b.state, events: a.events + b.events }),
{
    let events = a.events + b.events;
    let n = a.events.len() as int;
    assert forall|i: int| 0 <= i < events.len() implies names_its_item(
        pending(base) + marks(events.take(i)),
        #[trigger] events[i],
    ) by {
        if i < n {
            assert(events.take(i) =~= a.events.take(i));
            assert(events[i] == a.events[i]);
        } else {
            let front = b.events.take(i - n);
            assert(events.take(i) =~= a.events + front);
            lemma_marks_concat(a.events, front);
            assert(events[i] == b.events[i - n]);
            lemma_same_last(pending(base), marks(a.events), pending(a.state), marks(front));
        }
    }
    lemma_marks_concat(a.events, b.events);
    lemma_same_last(pending(base), marks(a.events), pending(a.state), marks(b.events));
}

/// What was said last is the same, whether all that was said before is known or only
/// what was open.
proof fn lemma_same_last(first: Seq<Mark>, a: Seq<Mark>, open: Seq<Mark>, b: Seq<Mark>)
    requires
        open.len() > 0 ==> (first + a).len() > 0 && (first + a).last() == open[0],
        open.len() <= 1,
    ensures
        (open + b).len() > 0 ==> (first + (a + b)).len() > 0 && (first + (a + b)).last() == (open
            + b).last(),
{
    if b.len() > 0 {
        assert((first + (a + b)).last() == b.last());
        assert((open + b).last() == b.last());
    } else if open.len() > 0 {
        assert(first + (a + b) =~= first + a);
        assert(open + b =~= open);
    }
}

/// A whole stream, from a translator that has no item open on: each event that names
/// an item is a streamed text, a streamed summary, or the begin or the end of a
/// summary, and each of these names an item. It carries the id and the output index
/// of the output item that was added last before it, and that item is not done yet.
pub proof fn law_events_name_the_open_item(
    start: TranslatorModel,
    parts: Seq<JsonModel>,
    ids: Seq<PartIdsModel>,
    usage: JsonModel,
    closing: Seq<char>,
    i: int,
)
    requires
        start.current is None,
        parts.len() == ids.len(),
    ensures
        ({
            let told = run(start, parts, ids);
            let ended = (Step { state: told.state, events: seq![] }).finish(usage, closing);
            let events = told.events + ended.events;
            0 <= i < events.len() ==> names_its_item(marks(events.take(i)), events[i])
        }),
{
    let told = run(start, parts, ids);
    let rest = Step { state: told.state, events: seq![] };
    let ended = rest.finish(usage, closing);
    lemma_follows_run(start, parts, ids);
    lemma_follows_start(told.state);
    lemma_follows_close(told.state, rest, closing);
    let shut = rest.close(closing);
    let fields = completed_fields(told.state.response_id, usage);
    lemma_event_members();
    assert(fields.get("item_id"@) is None);
    lemma_silent_event(told.state, shut, "response.completed"@, fields);
    lemma_follows_concat(start, told, ended);
    let events = told.events + ended.events;
    if 0 <= i < events.len() {
        assert(names_its_item(pending(start) + marks(events.take(i)), events[i]));
        assert(pending(start) + marks(events.take(i)) =~= marks(events.take(i)));
    }
}

/// The fields of the event that ends a stream.
spec fn completed_fields(response_id: Seq<char>, usage: JsonModel) -> JsonModel {
    empty_object().with(
        "response"@,
        empty_object().with("id"@, txt(response_id)).with("object"@, txt("response"@)).with(
            "status"@,
            txt("completed"@),
        ).with("usage"@, usage_json(usage)),
    )
}

/// Whether an event is of the kind.
pub open spec fn is_kind(event: JsonModel, kind: Seq<char>) -> bool {
    event.get("type"@) == Some(txt(kind))
}

/// Whether two events say that the item is added and then that it is done, both under
/// the output index.
pub open spec fn added_and_done(
    added: JsonModel,
    done: JsonModel,
    index: u64,
    item: JsonModel,
) -> bool {
    &&& is_kind(added, "response.output_item.added"@)
    &&& is_kind(done, "response.output_item.done"@)
    &&& added.get("output_index"@) == Some(num(index))
    &&& done.get("output_index"@) == Some(num(index))
    &&& added.get("item"@) == Some(item)
    &&& done.get("item"@) == Some(item)
}

/// The reasoning item that carries parts: its id, no summary, and the parts as
/// encrypted content, with the number of visible items before it that they stand for.
pub open spec fn carrier(id: Seq<char>, covers_prev: nat, parts: Seq<JsonModel>) -> JsonModel {
    JsonModel::Object(
        map![
            "type"@ => txt("reasoning"@),
            "id"@ => txt("rs_"@ + id),
            "summary"@ => JsonModel::List(seq![]),
            "encrypted_content"@ => txt(blob_text(BlobModel { covers_prev, parts })),
        ],
    )
}

proof fn lemma_carrier(id: Seq<char>, covers_prev: nat, parts: Seq<JsonModel>)
    ensures
        blob_item_json(id, BlobModel { covers_prev, parts }) == carrier(id, covers_prev, parts),
{
    lemma_item_members();
    assert(blob_item_json(id, BlobModel { covers_prev, parts })->Object_0 =~= carrier(
        id,
        covers_prev,
        parts,
    )->Object_0);
}

/// An item that is added and done at once: its two events come last, and nothing
/// before them changes.
proof fn lemma_item_events(s: Step, item: JsonModel)
    requires
        s.state.room(2, 1),
    ensures
        ({
            let out = s.item_added_done(item);
            let n = s.events.len() as int;
            &&& out.events.len() == n + 2
            &&& added_and_done(out.events[n], out.events[n + 1], s.state.output_index, item)
            &&& out.events.take(n) == s.events
            &&& out.state.output_index == s.state.output_index + 1
            &&& out.state.seq == s.state.seq + 2
            &&& out.state.items_emitted == s.state.items_emitted
        }),
{
    lemma_event_members();
    let out = s.item_added_done(item);
    assert(out.events.take(s.events.len() as int) =~= s.events);
}

/// How much closing an item takes.
proof fn lemma_close_room(s: Step, id: Seq<char>)
    requires
        s.state.room(10, 4),
    ensures
        s.close(id).state.room(7, 2),
        s.close(id).state.current is None,
        s.close(id).events.len() <= s.events.len() + 3,
{
}

/// The call item that stands for a `functionCall`: its name and the JSON text of its
/// arguments, under the ids that were drawn for it.
pub open spec fn is_call_item(item: JsonModel, fc: JsonModel, ids: PartIdsModel) -> bool {
    &&& item is Object
    &&& item->Object_0.dom() == set!["type"@, "id"@, "call_id"@, "name"@, "arguments"@, "status"@]
    &&& item.get("type"@) == Some(txt("function_call"@))
    &&& item.get("id"@) == Some(txt("fc_"@ + ids.item))
    &&& item.get("call_id"@) == Some(txt("call_"@ + ids.call.take(24)))
    &&& fc.get("name"@) is Some ==> item.get("name"@) == fc.get("name"@)
    &&& fc.get("name"@) is None ==> item.get("name"@) == Some(txt(seq![]))
    &&& fc.get("args"@) is Some ==> item.get("arguments"@) == Some(
        txt(json_text(fc.get("args"@)->0)),
    )
    &&& fc.get("args"@) is None ==> item.get("arguments"@) == Some(
        txt(json_text(JsonModel::Object(map![]))),
    )
    &&& item.get("status"@) == Some(txt("completed"@))
}

proof fn lemma_is_call_item(fc: JsonModel, ids: PartIdsModel)
    ensures
        is_call_item(call_item(fc, ids.item, ids.call), fc, ids),
{
    lemma_item_members();
    let item = call_item(fc, ids.item, ids.call);
    assert(item->Object_0.dom() =~= set![
        "type"@,
        "id"@,
        "call_id"@,
        "name"@,
        "arguments"@,
        "status"@,
    ]);
    assert(empty_object()->Object_0 =~= map![]);
}

/// A function call ends with the two events of one call item; and where it has a
/// signature, with two more, of the item that carries the part itself and covers the
/// call. The call is one more visible item.
pub proof fn law_call_events(t: TranslatorModel, part: JsonModel, fc: JsonModel, ids: PartIdsModel)
    requires
        t.room(10, 4),
        part.get("functionCall"@) == Some(fc),
    ensures
        ({
            let out = (Step { state: t, events: seq![] }).on_part(part, ids);
            let e = out.events;
            let n = e.len() as int;
            let index = out.state.output_index;
            let signed = part.get("thoughtSignature"@) matches Some(JsonModel::Text(_));
            &&& !signed ==> n >= 2 && index >= 1 && added_and_done(
                e[n - 2],
                e[n - 1],
                (index - 1) as u64,
                item_of(e[n - 1]),
            ) && is_call_item(item_of(e[n - 1]), fc, ids)
            &&& signed ==> n >= 4 && index >= 2 && added_and_done(
                e[n - 4],
                e[n - 3],
                (index - 2) as u64,
                item_of(e[n - 3]),
            ) && is_call_item(item_of(e[n - 3]), fc, ids) && added_and_done(
                e[n - 2],
                e[n - 1],
                (index - 1) as u64,
                carrier(ids.blob, 1, seq![part]),
            )
            &&& t.current is None ==> n == (if signed {
                4int
            } else {
                2int
            }) && out.state.items_emitted == t.items_emitted + 1
            &&& out.state.current is None
        }),
{
    let s = Step { state: t, events: seq![] };
    lemma_close_room(s, ids.closing);
    let shut = s.close(ids.closing);
    let item = call_item(fc, ids.item, ids.call);
    lemma_is_call_item(fc, ids);
    lemma_item_events(shut, item);
    let called = shut.item_added_done(item).count();
    lemma_carrier(ids.blob, 1, seq![part]);
    lemma_item_events(called, carrier(ids.blob, 1, seq![part]));
    let out = s.on_part(part, ids);
    let e = out.events;
    if part.get("thoughtSignature"@) matches Some(JsonModel::Text(_)) {
        let k = called.events.len() as int;
        assert(e.take(k)[k - 1] == called.events[k - 1]);
        assert(e.take(k)[k - 2] == called.events[k - 2]);
    }
}

/// The search item that stands for a `toolCall`: its queries, with `; ` between them.
pub open spec fn is_search_item(item: JsonModel, query: Seq<char>, ids: PartIdsModel) -> bool {
    item == JsonModel::Object(
        map![
            "type"@ => txt("web_search_call"@),
            "id"@ => txt("ws_"@ + ids.item),
            "status"@ => txt("completed"@),
            "action"@ => JsonModel::Object(map!["type"@ => txt("search"@), "query"@ => txt(query)]),
        ],
    )
}

/// A server-side search ends with the two events of one search item and the two of
/// the item that carries the part itself and covers the search. It is one more visible
/// item.
pub proof fn law_search_events(
    t: TranslatorModel,
    part: JsonModel,
    tc: JsonModel,
    queries: Seq<JsonModel>,
    ids: PartIdsModel,
)
    requires
        t.room(10, 4),
        part.get("functionCall"@) is None,
        part.get("toolCall"@) == Some(tc),
    ensures
        ({
            let out = (Step { state: t, events: seq![] }).on_part(part, ids);
            let e = out.events;
            let n = e.len() as int;
            let index = out.state.output_index;
            let item = item_of(e[n - 3]);
            &&& n >= 4 && index >= 2 && added_and_done(e[n - 4], e[n - 3], (index - 2) as u64, item)
            &&& added_and_done(
                e[n - 2],
                e[n - 1],
                (index - 1) as u64,
                carrier(ids.blob, 1, seq![part]),
            )
            &&& tc.get("args"@) is Some && tc.get("args"@)->0.get("queries"@) == Some(
                JsonModel::List(queries),
            ) ==> is_search_item(item, joined(texts_among(queries), "; "@), ids)
            &&& tc.get("args"@) is None || !(tc.get("args"@)->0.get("queries"@) matches Some(
                JsonModel::List(_),
            )) ==> is_search_item(item, seq![], ids)
            &&& t.current is None ==> n == 4 && out.state.items_emitted == t.items_emitted + 1
            &&& out.state.current is None
        }),
{
    lemma_item_members();
    let s = Step { state: t, events: seq![] };
    lemma_close_room(s, ids.closing);
    let shut = s.close(ids.closing);
    let item = search_item(tc, ids.item);
    lemma_item_events(shut, item);
    let called = shut.item_added_done(item).count();
    lemma_carrier(ids.blob, 1, seq![part]);
    lemma_item_events(called, carrier(ids.blob, 1, seq![part]));
    let out = s.on_part(part, ids);
    let e = out.events;
    let k = called.events.len() as int;
    assert(e.take(k)[k - 1] == called.events[k - 1]);
    assert(e.take(k)[k - 2] == called.events[k - 2]);
    let query = item.get("action"@)->0.get("query"@)->0->Text_0;
    let action = map!["type"@ => txt("search"@), "query"@ => txt(query)];
    assert(item.get("action"@)->0->Object_0 =~= action);
    assert(item->Object_0 =~= map![
        "type"@ => txt("web_search_call"@),
        "id"@ => txt("ws_"@ + ids.item),
        "status"@ => txt("completed"@),
        "action"@ => JsonModel::Object(action),
    ]);
    let none: Seq<JsonModel> = seq![];
    assert(texts_among(none) =~= seq![]);
    assert(joined(texts_among(none), "; "@) =~= seq![]);
}

/// The texts among values are all of them, in order, and nothing else.
pub proof fn law_texts_among(items: Seq<JsonModel>, item: JsonModel, s: Seq<char>)
    ensures
        texts_among(seq![]).len() == 0,
        item == JsonModel::Text(s) ==> texts_among(items.push(item)) == texts_among(items).push(s),
        !(item is Text) ==> texts_among(items.push(item)) == texts_among(items),
{
    assert(items.push(item).drop_last() =~= items);
}

/// A server-side answer, and a part without text that has a signature, end with the
/// two events of the item that carries the part itself and covers nothing. An empty
/// part without a signature changes nothing.
pub proof fn law_raw_events(t: TranslatorModel, part: JsonModel, ids: PartIdsModel)
    requires
        t.room(10, 4),
        part.get("functionCall"@) is None,
        part.get("toolCall"@) is None,
    ensures
        ({
            let out = (Step { state: t, events: seq![] }).on_part(part, ids);
            let e = out.events;
            let n = e.len() as int;
            let index = out.state.output_index;
            let signed = part.get("thoughtSignature"@) matches Some(JsonModel::Text(_));
            let empty = !(part.get("text"@) matches Some(JsonModel::Text(_))) || part.get("text"@)
                == Some(txt(seq![]));
            let raw = part.get("toolResponse"@) is Some || (empty && signed);
            &&& raw ==> n >= 2 && index >= 1 && added_and_done(
                e[n - 2],
                e[n - 1],
                (index - 1) as u64,
                carrier(ids.blob, 0, seq![part]),
            ) && out.state.current is None
            &&& raw && t.current is None ==> n == 2 && out.state.items_emitted == t.items_emitted
            &&& !raw && empty ==> n == 0 && out.state == t
        }),
{
    lemma_item_members();
    let s = Step { state: t, events: seq![] };
    lemma_close_room(s, ids.closing);
    let shut = s.close(ids.closing);
    lemma_carrier(ids.blob, 0, seq![part]);
    lemma_item_events(shut, carrier(ids.blob, 0, seq![part]));
    if part.get("text"@) matches Some(JsonModel::Text(x)) && x.len() == 0 {
        let x = part.get("text"@)->0->Text_0;
        assert(x =~= seq![]);
    }
}

/// Whether an event streams a text of a message.
pub open spec fn streams_message(event: JsonModel, text: Seq<char>) -> bool {
    &&& is_kind(event, "response.output_text.delta"@)
    &&& event.get("delta"@) == Some(txt(text))
    &&& event.get("content_index"@) == Some(num(0))
}

/// Whether an event streams a text of a thought's summary.
pub open spec fn streams_thought(event: JsonModel, text: Seq<char>) -> bool {
    &&& is_kind(event, "response.reasoning_summary_text.delta"@)
    &&& event.get("delta"@) == Some(txt(text))
    &&& event.get("summary_index"@) == Some(num(0))
}

/// Text that is no thought ends with one event that streams it, whole. Where a message
/// is open that is the only event; else a message without content was added just
/// before.
pub proof fn law_message_events(
    t: TranslatorModel,
    part: JsonModel,
    text: Seq<char>,
    ids: PartIdsModel,
)
    requires
        t.room(10, 4),
        part.get("functionCall"@) is None,
        part.get("toolCall"@) is None,
        part.get("toolResponse"@) is None,
        part.get("text"@) == Some(txt(text)),
        text.len() > 0,
        part.get("thought"@) != Some(JsonModel::Bool(true)),
    ensures
        ({
            let out = (Step { state: t, events: seq![] }).on_part(part, ids);
            let e = out.events;
            let n = e.len() as int;
            &&& n >= 1 && streams_message(e[n - 1], text)
            &&& t.current == Some(Open::Message) ==> n == 1
            &&& t.current is None ==> n == 2
            &&& t.current != Some(Open::Message) ==> n >= 2 && is_kind(
                e[n - 2],
                "response.output_item.added"@,
            ) && e[n - 2].get("output_index"@) == Some(num(out.state.output_index)) && item_of(
                e[n - 2],
            ) == JsonModel::Object(
                map![
                    "type"@ => txt("message"@),
                    "id"@ => txt("msg_"@ + ids.item),
                    "role"@ => txt("assistant"@),
                    "status"@ => txt("in_progress"@),
                    "content"@ => JsonModel::List(seq![]),
                ],
            )
            &&& out.state.current == Some(Open::Message)
        }),
{
    lemma_event_members();
    lemma_all_kinds();
    lemma_item_members();
    let s = Step { state: t, events: seq![] };
    lemma_close_room(s, ids.closing);
    let none: Seq<JsonModel> = seq![];
    assert(opened_item(Open::Message, "msg_"@ + ids.item)->Object_0 =~= map![
        "type"@ => txt("message"@),
        "id"@ => txt("msg_"@ + ids.item),
        "role"@ => txt("assistant"@),
        "status"@ => txt("in_progress"@),
        "content"@ => JsonModel::List(none),
    ]);
    let sig = part.text_at("thoughtSignature"@);
    let out = s.on_part(part, ids);
    assert(out == s.text(text, Open::Message, sig, ids));
    let opened = s.open_item(Open::Message, ids.closing, ids.item);
    assert(out.events.len() == opened.events.len() + 1);
    let n = out.events.len() as int;
    if t.current != Some(Open::Message) {
        let shut = s.close(ids.closing);
        assert(opened.events.len() == shut.events.len() + 1);
        assert(out.events[n - 2] == opened.events[n - 2]);
        let fields = item_fields(
            shut.state.output_index,
            opened_item(Open::Message, "msg_"@ + ids.item),
        );
        assert(opened.events[n - 2] == event_json(
            "response.output_item.added"@,
            fields,
            (shut.state.seq + 1) as u64,
        ));
    }
}

/// A thought without a signature ends with one event that streams it, whole. Where a
/// thought is open that is the only event; else one without a summary was added before,
/// and its summary begun.
pub proof fn law_thought_events(
    t: TranslatorModel,
    part: JsonModel,
    text: Seq<char>,
    ids: PartIdsModel,
)
    requires
        t.room(10, 4),
        part.get("functionCall"@) is None,
        part.get("toolCall"@) is None,
        part.get("toolResponse"@) is None,
        part.get("text"@) == Some(txt(text)),
        text.len() > 0,
        part.get("thought"@) == Some(JsonModel::Bool(true)),
        !(part.get("thoughtSignature"@) matches Some(JsonModel::Text(_))),
    ensures
        ({
            let out = (Step { state: t, events: seq![] }).on_part(part, ids);
            let e = out.events;
            let n = e.len() as int;
            &&& n >= 1 && streams_thought(e[n - 1], text)
            &&& t.current == Some(Open::Reasoning) ==> n == 1
            &&& t.current is None ==> n == 3
            &&& t.current != Some(Open::Reasoning) ==> n >= 3 && is_kind(
                e[n - 3],
                "response.output_item.added"@,
            ) && e[n - 3].get("output_index"@) == Some(num(out.state.output_index)) && item_of(
                e[n - 3],
            ) == JsonModel::Object(
                map![
                    "type"@ => txt("reasoning"@),
                    "id"@ => txt("rs_"@ + ids.item),
                    "summary"@ => JsonModel::List(seq![]),
                ],
            )
            &&& t.current != Some(Open::Reasoning) ==> n >= 3 && is_kind(
                e[n - 2],
                "response.reasoning_summary_part.added"@,
            ) && e[n - 2].get("summary_index"@) == Some(num(0)) && e[n - 2].get("part"@) == Some(
                JsonModel::Object(map!["type"@ => txt("summary_text"@), "text"@ => txt(seq![])]),
            )
            &&& out.state.current == Some(Open::Reasoning)
        }),
{
    lemma_event_members();
    lemma_all_kinds();
    lemma_item_members();
    let s = Step { state: t, events: seq![] };
    lemma_close_room(s, ids.closing);
    let none: Seq<JsonModel> = seq![];
    let silent: Seq<char> = seq![];
    assert(opened_item(Open::Reasoning, "rs_"@ + ids.item)->Object_0 =~= map![
        "type"@ => txt("reasoning"@),
        "id"@ => txt("rs_"@ + ids.item),
        "summary"@ => JsonModel::List(none),
    ]);
    let begun = empty_object().with("type"@, txt("summary_text"@)).with("text"@, txt(""@));
    assert(begun->Object_0 =~= map!["type"@ => txt("summary_text"@), "text"@ => txt(silent)]);
    let out = s.on_part(part, ids);
    assert(out == s.text(text, Open::Reasoning, None, ids));
    let opened = s.open_item(Open::Reasoning, ids.closing, ids.item);
    assert(out.events.len() == opened.events.len() + 1);
    let n = out.events.len() as int;
    if t.current != Some(Open::Reasoning) {
        let shut = s.close(ids.closing);
        assert(opened.events.len() == shut.events.len() + 2);
        assert(out.events[n - 2] == opened.events[n - 2]);
        assert(out.events[n - 3] == opened.events[n - 3]);
        let fields = item_fields(
            shut.state.output_index,
            opened_item(Open::Reasoning, "rs_"@ + ids.item),
        );
        assert(opened.events[n - 3] == event_json(
            "response.output_item.added"@,
            fields,
            (shut.state.seq + 1) as u64,
        ));
    }
}

/// A thought with a signature is streamed and then done at once: its text, its whole
/// summary, the item; and the signature goes into an item that covers nothing and
/// carries an empty text with it.
pub proof fn law_signed_thought_events(
    t: TranslatorModel,
    part: JsonModel,
    text: Seq<char>,
    sig: Seq<char>,
    ids: PartIdsModel,
)
    requires
        t.room(10, 4),
        part.get("functionCall"@) is None,
        part.get("toolCall"@) is None,
        part.get("toolResponse"@) is None,
        part.get("text"@) == Some(txt(text)),
        text.len() > 0,
        part.get("thought"@) == Some(JsonModel::Bool(true)),
        part.get("thoughtSignature"@) == Some(txt(sig)),
    ensures
        ({
            let out = (Step { state: t, events: seq![] }).on_part(part, ids);
            let e = out.events;
            let n = e.len() as int;
            let index = out.state.output_index;
            let summary = e[n - 4].get("text"@);
            &&& n >= 5 && index >= 2 && streams_thought(e[n - 5], text)
            &&& is_kind(e[n - 4], "response.reasoning_summary_text.done"@)
            &&& e[n - 4].get("summary_index"@) == Some(num(0))
            &&& is_kind(e[n - 3], "response.output_item.done"@)
            &&& e[n - 3].get("output_index"@) == Some(num((index - 2) as u64))
            &&& summary is Some && item_of(e[n - 3]).get("summary"@) == Some(
                JsonModel::List(
                    seq![
                        JsonModel::Object(
                            map!["type"@ => txt("summary_text"@), "text"@ => summary->0],
                        ),
                    ],
                ),
            )
            &&& t.current != Some(Open::Reasoning) ==> summary == Some(txt(text))
            &&& t.current == Some(Open::Reasoning) ==> summary == Some(txt(t.buf + text))
            &&& added_and_done(
                e[n - 2],
                e[n - 1],
                (index - 1) as u64,
                carrier(
                    ids.blob,
                    0,
                    seq![
                        JsonModel::Object(
                            map!["text"@ => txt(seq![]), "thoughtSignature"@ => txt(sig)],
                        ),
                    ],
                ),
            )
            &&& t.current == Some(Open::Reasoning) ==> n == 5
            &&& t.current is None ==> n == 7
            &&& out.state.current is None
        }),
{
    lemma_event_members();
    lemma_all_kinds();
    lemma_item_members();
    let s = Step { state: t, events: seq![] };
    lemma_close_room(s, ids.closing);
    let silent: Seq<char> = seq![];
    let bare = JsonModel::Object(map!["text"@ => txt(silent), "thoughtSignature"@ => txt(sig)]);
    assert(signed_text(""@, sig)->Object_0 =~= bare->Object_0);
    let out = s.on_part(part, ids);
    assert(out == s.text(text, Open::Reasoning, Some(sig), ids));
    let opened = s.open_item(Open::Reasoning, ids.closing, ids.item);
    let grown = Step {
        state: TranslatorModel { buf: opened.state.buf + text, ..opened.state },
        events: opened.events,
    };
    let told = grown.emit(
        "response.reasoning_summary_text.delta"@,
        grown.state.delta_fields("summary_index"@).with("delta"@, txt(text)),
    );
    let shut = told.close(ids.closing);
    let k = shut.events.len() as int;
    lemma_closed_members(Open::Reasoning, told.state.item_id, told.state.buf);
    assert(shut.events.len() == told.events.len() + 2);
    assert(shut.events[k - 3] == told.events[k - 3]);
    lemma_carrier(ids.blob, 0, seq![bare]);
    lemma_item_events(shut, carrier(ids.blob, 0, seq![bare]));
    let e = out.events;
    assert(e.take(k)[k - 1] == shut.events[k - 1]);
    assert(e.take(k)[k - 2] == shut.events[k - 2]);
    assert(e.take(k)[k - 3] == shut.events[k - 3]);
    if t.current != Some(Open::Reasoning) {
        assert(silent + text =~= text);
    }
}

/// An item that is done holds its whole text in one place, and nothing but that: a
/// message under `content`, a thought under `summary`.
proof fn lemma_closed_members(kind: Open, id: Seq<char>, text: Seq<char>)
    ensures
        kind == Open::Message ==> closed_item(kind, id, text) == JsonModel::Object(
            map![
                "type"@ => txt("message"@),
                "id"@ => txt(id),
                "role"@ => txt("assistant"@),
                "status"@ => txt("completed"@),
                "content"@ => JsonModel::List(
                    seq![
                        JsonModel::Object(
                            map![
                                "type"@ => txt("output_text"@),
                                "text"@ => txt(text),
                                "annotations"@ => JsonModel::List(seq![]),
                            ],
                        ),
                    ],
                ),
            ],
        ),
        kind == Open::Reasoning ==> closed_item(kind, id, text) == JsonModel::Object(
            map![
                "type"@ => txt("reasoning"@),
                "id"@ => txt(id),
                "summary"@ => JsonModel::List(
                    seq![
                        JsonModel::Object(
                            map!["type"@ => txt("summary_text"@), "text"@ => txt(text)],
                        ),
                    ],
                ),
            ],
        ),
{
    lemma_item_members();
    let none: Seq<JsonModel> = seq![];
    let item = closed_item(kind, id, text);
    match kind {
        Open::Message => {
            let m = map![
                "type"@ => txt("output_text"@),
                "text"@ => txt(text),
                "annotations"@ => JsonModel::List(none),
            ];
            assert(item.get("content"@)->0->List_0[0]->Object_0 =~= m);
            assert(item.get("content"@)->0->List_0 =~= seq![JsonModel::Object(m)]);
            assert(item->Object_0 =~= map![
                "type"@ => txt("message"@),
                "id"@ => txt(id),
                "role"@ => txt("assistant"@),
                "status"@ => txt("completed"@),
                "content"@ => JsonModel::List(seq![JsonModel::Object(m)]),
            ]);
        },
        Open::Reasoning => {
            let m = map!["type"@ => txt("summary_text"@), "text"@ => txt(text)];
            assert(item.get("summary"@)->0->List_0[0]->Object_0 =~= m);
            assert(item.get("summary"@)->0->List_0 =~= seq![JsonModel::Object(m)]);
            assert(item->Object_0 =~= map![
                "type"@ => txt("reasoning"@),
                "id"@ => txt(id),
                "summary"@ => JsonModel::List(seq![JsonModel::Object(m)]),
            ]);
        },
    }
}

/// What is open is done first, with the text that it has: a message as an assistant's,
/// completed, with its text and no annotations; a thought with its text as its summary,
/// once on its own and once in the item. A message that has signatures is followed by
/// the item that carries its signed texts and covers it.
pub proof fn law_close_events(t: TranslatorModel, usage: JsonModel, closing: Seq<char>)
    requires
        t.room(10, 4),
    ensures
        ({
            let e = (Step { state: t, events: seq![] }).finish(usage, closing).events;
            let text = JsonModel::Object(
                map![
                    "type"@ => txt("output_text"@),
                    "text"@ => txt(t.buf),
                    "annotations"@ => JsonModel::List(seq![]),
                ],
            );
            let summary = JsonModel::Object(
                map!["type"@ => txt("summary_text"@), "text"@ => txt(t.buf)],
            );
            &&& t.current is None ==> e.len() == 1
            &&& t.current == Some(Open::Message) ==> e.len() == (if t.signed.len() > 0 {
                4int
            } else {
                2int
            }) && is_kind(e[0], "response.output_item.done"@) && e[0].get("output_index"@) == Some(
                num(t.output_index),
            ) && item_of(e[0]) == JsonModel::Object(
                map![
                    "type"@ => txt("message"@),
                    "id"@ => txt(t.item_id),
                    "role"@ => txt("assistant"@),
                    "status"@ => txt("completed"@),
                    "content"@ => JsonModel::List(seq![text]),
                ],
            )
            &&& t.current == Some(Open::Message) && t.signed.len() > 0 ==> added_and_done(
                e[1],
                e[2],
                (t.output_index + 1) as u64,
                carrier(closing, 1, signed_parts(t.signed)),
            )
            &&& t.current == Some(Open::Reasoning) ==> e.len() == 3 && is_kind(
                e[0],
                "response.reasoning_summary_text.done"@,
            ) && e[0].get("text"@) == Some(txt(t.buf)) && e[0].get("summary_index"@) == Some(
                num(0),
            ) && is_kind(e[1], "response.output_item.done"@) && e[1].get("output_index"@) == Some(
                num(t.output_index),
            ) && item_of(e[1]) == JsonModel::Object(
                map![
                    "type"@ => txt("reasoning"@),
                    "id"@ => txt(t.item_id),
                    "summary"@ => JsonModel::List(seq![summary]),
                ],
            )
        }),
{
    lemma_event_members();
    lemma_all_kinds();
    let s = Step { state: t, events: seq![] };
    let shut = s.close(closing);
    let e = s.finish(usage, closing).events;
    assert(e.drop_last() =~= shut.events);
    if let Some(kind) = t.current {
        lemma_closed_members(kind, t.item_id, t.buf);
        assert(e[0] == shut.events[0]);
        if kind == Open::Reasoning {
            assert(e[1] == shut.events[1]);
        } else if t.signed.len() > 0 {
            lemma_carrier(closing, 1, signed_parts(t.signed));
            assert(shut.events.len() == 3);
            assert(e[1] == shut.events[1]);
            assert(e[2] == shut.events[2]);
        }
    }
}

proof fn lemma_usage_members()
    ensures
        "input_tokens"@ != "output_tokens"@,
        "input_tokens"@ != "total_tokens"@,
        "input_tokens"@ != "input_tokens_details"@,
        "input_tokens"@ != "output_tokens_details"@,
        "input_tokens"@ != "cached_tokens"@,
        "input_tokens"@ != "reasoning_tokens"@,
        "output_tokens"@ != "total_tokens"@,
        "output_tokens"@ != "input_tokens_details"@,
        "output_tokens"@ != "output_tokens_details"@,
        "output_tokens"@ != "cached_tokens"@,
        "output_tokens"@ != "reasoning_tokens"@,
        "total_tokens"@ != "input_tokens_details"@,
        "total_tokens"@ != "output_tokens_details"@,
        "total_tokens"@ != "cached_tokens"@,
        "total_tokens"@ != "reasoning_tokens"@,
        "input_tokens_details"@ != "output_tokens_details"@,
        "input_tokens_details"@ != "cached_tokens"@,
        "input_tokens_details"@ != "reasoning_tokens"@,
        "output_tokens_details"@ != "cached_tokens"@,
        "output_tokens_details"@ != "reasoning_tokens"@,
        "cached_tokens"@ != "reasoning_tokens"@,
{
    reveal_strlit("input_tokens");
    reveal_strlit("output_tokens");
    reveal_strlit("total_tokens");
    reveal_strlit("input_tokens_details");
    reveal_strlit("output_tokens_details");
    reveal_strlit("cached_tokens");
    reveal_strlit("reasoning_tokens");
    assert("input_tokens"@.len() == 12);
    assert("output_tokens"@.len() == 13);
    assert("total_tokens"@.len() == 12);
    assert("input_tokens_details"@.len() == 20);
    assert("output_tokens_details"@.len() == 21);
    assert("cached_tokens"@.len() == 13);
    assert("reasoning_tokens"@.len() == 16);
    assert("input_tokens"@[0] != "total_tokens"@[0]);
    assert("output_tokens"@[0] != "cached_tokens"@[0]);
}

/// The event that ends a stream is the last. It names the response, which is completed,
/// and reports the usage: what was prompted, what was answered and thought together, and
/// what was cached and what was thought on their own, each zero where Gemini gave no
/// such count. The total is the one that Gemini gave, or else all of it together.
pub proof fn law_usage_is_reported(
    t: TranslatorModel,
    usage: JsonModel,
    closing: Seq<char>,
    prompt: u64,
    answer: u64,
    thoughts: u64,
    cached: u64,
)
    requires
        t.room(10, 4),
        is_count(usage, "promptTokenCount"@, prompt),
        is_count(usage, "candidatesTokenCount"@, answer),
        is_count(usage, "thoughtsTokenCount"@, thoughts),
        is_count(usage, "cachedContentTokenCount"@, cached),
        prompt + answer + thoughts <= u64::MAX,
    ensures
        ({
            let e = (Step { state: t, events: seq![] }).finish(usage, closing).events;
            let response = e.last().get("response"@)->0;
            let report = response.get("usage"@)->0;
            let total = usage.get("totalTokenCount"@);
            &&& e.len() > 0 && is_kind(e.last(), "response.completed"@)
            &&& response is Object && response->Object_0.dom() == set![
                "id"@,
                "object"@,
                "status"@,
                "usage"@,
            ]
            &&& response.get("id"@) == Some(txt(t.response_id))
            &&& response.get("object"@) == Some(txt("response"@))
            &&& response.get("status"@) == Some(txt("completed"@))
            &&& report.get("input_tokens"@) == Some(num(prompt))
            &&& report.get("output_tokens"@) == Some(num((answer + thoughts) as u64))
            &&& report.get("input_tokens_details"@) == Some(
                JsonModel::Object(map!["cached_tokens"@ => num(cached)]),
            )
            &&& report.get("output_tokens_details"@) == Some(
                JsonModel::Object(map!["reasoning_tokens"@ => num(thoughts)]),
            )
            &&& (total matches Some(JsonModel::Number(n)) && n is Unsigned) ==> report.get(
                "total_tokens"@,
            ) == total
            &&& !(total matches Some(JsonModel::Number(n)) && n is Unsigned) ==> report.get(
                "total_tokens"@,
            ) == Some(num((prompt + answer + thoughts) as u64))
        }),
{
    lemma_event_members();
    lemma_usage_members();
    reveal_strlit("id");
    reveal_strlit("object");
    reveal_strlit("status");
    reveal_strlit("usage");
    assert("id"@.len() == 2);
    assert("object"@.len() == 6);
    assert("status"@.len() == 6);
    assert("usage"@.len() == 5);
    assert("object"@[0] != "status"@[0]);
    let s = Step { state: t, events: seq![] };
    let e = s.finish(usage, closing).events;
    let shut = s.close(closing);
    let event = event_json(
        "response.completed"@,
        completed_fields(t.response_id, usage),
        (shut.state.seq + 1) as u64,
    );
    assert(e.last() == event);
    let response = event.get("response"@)->0;
    assert(response->Object_0.dom() =~= set!["id"@, "object"@, "status"@, "usage"@]);
    assert(empty_object().with("cached_tokens"@, num(cached))->Object_0
        =~= map!["cached_tokens"@ => num(cached)]);
    assert(empty_object().with("reasoning_tokens"@, num(thoughts))->Object_0
        =~= map!["reasoning_tokens"@ => num(thoughts)]);
    assert(count(usage, "promptTokenCount"@) == prompt);
}

/// Whether that is the count under the key: the number that is there, or zero where
/// there is none.
pub open spec fn is_count(usage: JsonModel, key: Seq<char>, n: u64) -> bool {
    usage.get(key) == Some(num(n)) || (n == 0 && !(usage.get(key) matches Some(
        JsonModel::Number(x),
    ) && x is Unsigned))
}

/// There is room exactly where neither the numbers of the events nor the counts of the
/// items would run over what 64 bits hold.
pub proof fn law_room(t: TranslatorModel, events: nat, items: nat)
    ensures
        t.room(events, items) <==> t.seq + events <= 0xffff_ffff_ffff_ffff && t.output_index + items
            <= 0xffff_ffff_ffff_ffff && t.items_emitted + items <= 0xffff_ffff_ffff_ffff,
{
}

/// The tokens that are taken together are those that were prompted, answered and
/// thought.
pub proof fn law_counted(usage: JsonModel, prompt: u64, answer: u64, thoughts: u64)
    requires
        is_count(usage, "promptTokenCount"@, prompt),
        is_count(usage, "candidatesTokenCount"@, answer),
        is_count(usage, "thoughtsTokenCount"@, thoughts),
    ensures
        counted(usage) == prompt + answer + thoughts,
{
}

/// Signed texts go into parts one by one: each with its text and its signature, and
/// nothing else.
pub proof fn law_signed_parts(signed: Seq<SignedModel>, i: int)
    requires
        0 <= i < signed.len(),
    ensures
        signed_parts(signed).len() == signed.len(),
        signed_parts(signed)[i] == JsonModel::Object(
            map!["text"@ => txt(signed[i].text), "thoughtSignature"@ => txt(signed[i].sig)],
        ),
{
    lemma_item_members();
    assert(signed_parts(signed)[i]->Object_0 =~= map![
        "text"@ => txt(signed[i].text),
        "thoughtSignature"@ => txt(signed[i].sig),
    ]);
}

/// The signatures of a message, in order.
pub open spec fn sigs(signed: Seq<SignedModel>) -> Seq<Seq<char>> {
    signed.map_values(|x: SignedModel| x.sig)
}

/// A signature that comes is one more, after all that came before; text without one
/// adds none. The first goes with all that the message has said, a later one with the
/// text that it came with, and text without a signature with the one before it.
pub proof fn law_signatures_are_kept(
    buf: Seq<char>,
    signed: Seq<SignedModel>,
    text: Seq<char>,
    sig: Seq<char>,
    i: int,
)
    ensures
        sigs(more_signed(buf, signed, text, Some(sig))) == sigs(signed).push(sig),
        sigs(more_signed(buf, signed, text, None)) == sigs(signed),
        signed.len() == 0 ==> more_signed(buf, signed, text, Some(sig)).last().text == buf + text,
        signed.len() > 0 ==> more_signed(buf, signed, text, Some(sig)).last().text == text,
        signed.len() > 0 ==> more_signed(buf, signed, text, None).last().text == signed.last().text
            + text,
        0 <= i < signed.len() ==> more_signed(buf, signed, text, Some(sig))[i] == signed[i],
        0 <= i < signed.len() - 1 ==> more_signed(buf, signed, text, None)[i] == signed[i],
{
    assert(sigs(more_signed(buf, signed, text, Some(sig))) =~= sigs(signed).push(sig));
    assert(sigs(more_signed(buf, signed, text, None)) =~= sigs(signed));
}

/// A text part of a message says what the message has said, and then its text, and its
/// signature is kept; one that opens a message says its text, with its signature.
pub proof fn law_message_grows(
    t: TranslatorModel,
    part: JsonModel,
    text: Seq<char>,
    ids: PartIdsModel,
)
    requires
        t.room(10, 4),
        part.get("functionCall"@) is None,
        part.get("toolCall"@) is None,
        part.get("toolResponse"@) is None,
        part.get("text"@) == Some(txt(text)),
        text.len() > 0,
        part.get("thought"@) != Some(JsonModel::Bool(true)),
    ensures
        ({
            let out = (Step { state: t, events: seq![] }).on_part(part, ids).state;
            let said = if t.current == Some(Open::Message) {
                t.buf
            } else {
                seq![]
            };
            let kept = if t.current == Some(Open::Message) {
                t.signed
            } else {
                seq![]
            };
            &&& out.buf == said + text
            &&& out.response_id == t.response_id
            &&& t.current == Some(Open::Message) ==> out.item_id == t.item_id && out.output_index
                == t.output_index && out.items_emitted == t.items_emitted
            &&& t.current != Some(Open::Message) ==> out.item_id == "msg_"@ + ids.item
            &&& part.get("thoughtSignature"@) matches Some(JsonModel::Text(s)) ==> sigs(out.signed)
                == sigs(kept).push(s)
            &&& !(part.get("thoughtSignature"@) matches Some(JsonModel::Text(_))) ==> sigs(
                out.signed,
            ) == sigs(kept)
            &&& kept.len() == 0 && out.signed.len() > 0 ==> out.signed.last().text == out.buf
        }),
{
    let sig = part.text_at("thoughtSignature"@);
    let none: Seq<char> = seq![];
    assert(none + text =~= text);
    let kept = if t.current == Some(Open::Message) {
        t.signed
    } else {
        seq![]
    };
    law_signatures_are_kept(
        if t.current == Some(Open::Message) {
            t.buf
        } else {
            none
        },
        kept,
        text,
        match sig {
            Some(s) => s,
            None => none,
        },
        0,
    );
}

/// A thought without a signature says what the thought has said, and then its text; one
/// that opens a thought says its text.
pub proof fn law_thought_grows(
    t: TranslatorModel,
    part: JsonModel,
    text: Seq<char>,
    ids: PartIdsModel,
)
    requires
        t.room(10, 4),
        part.get("functionCall"@) is None,
        part.get("toolCall"@) is None,
        part.get("toolResponse"@) is None,
        part.get("text"@) == Some(txt(text)),
        text.len() > 0,
        part.get("thought"@) == Some(JsonModel::Bool(true)),
        !(part.get("thoughtSignature"@) matches Some(JsonModel::Text(_))),
    ensures
        ({
            let out = (Step { state: t, events: seq![] }).on_part(part, ids).state;
            &&& t.current == Some(Open::Reasoning) ==> out.buf == t.buf + text && out.item_id
                == t.item_id && out.output_index == t.output_index && out.items_emitted
                == t.items_emitted
            &&& t.current != Some(Open::Reasoning) ==> out.buf == text && out.item_id == "rs_"@
                + ids.item
            &&& out.response_id == t.response_id
        }),
{
    let none: Seq<char> = seq![];
    assert(none + text =~= text);
}

}
