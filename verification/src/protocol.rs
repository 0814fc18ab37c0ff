//! What holds of the events of a stream, whatever its parts.

use vstd::prelude::*;

use crate::json::{empty_object, JsonModel};
use crate::replay::{done_items, lemma_close_items, lemma_done_items_concat, lemma_emit_done, lemma_event, lemma_event_kinds, lemma_item_added_done, lemma_keys, run, taken};
use crate::translate::{blob_item_json, call_item, closed_item, item_fields, num, search_item, signed_parts, signed_text, txt, usage_json, Open, PartIdsModel, Step, TranslatorModel};
use crate::blob::BlobModel;

verus! {

/// The event that says that an output item was added.
pub open spec fn is_added(event: JsonModel) -> bool {
    event.get("type"@) == Some(txt("response.output_item.added"@))
}

/// The number of output items that the events say were added.
pub open spec fn added_count(events: Seq<JsonModel>) -> nat
    decreases events.len(),
{
    if events.len() == 0 {
        0
    } else if is_added(events.last()) {
        added_count(events.drop_last()) + 1
    } else {
        added_count(events.drop_last())
    }
}

proof fn lemma_added_count_concat(a: Seq<JsonModel>, b: Seq<JsonModel>)
    ensures
        added_count(a + b) == added_count(a) + added_count(b),
    decreases b.len(),
{
    if b.len() == 0 {
        assert(a + b =~= a);
    } else {
        lemma_added_count_concat(a, b.drop_last());
        assert((a + b).drop_last() =~= a + b.drop_last());
        assert((a + b).last() == b.last());
    }
}

/// One where an item is open, else zero.
pub open spec fn open_count(t: TranslatorModel) -> int {
    if t.current is Some {
        1
    } else {
        0
    }
}

/// The number of items that were added and are not done.
pub open spec fn unmatched(events: Seq<JsonModel>) -> int {
    added_count(events) - done_items(events).len()
}

/// Whether the events carry the numbers after `seq`, one by one.
pub open spec fn numbered(seq: u64, events: Seq<JsonModel>) -> bool {
    forall|i: int|
        0 <= i < events.len() ==> (#[trigger] events[i]).get("sequence_number"@) == Some(
            num((seq + i + 1) as u64),
        )
}

/// Whether an output item is a visible one: it carries no blob.
pub open spec fn is_visible(item: JsonModel) -> bool {
    item.get("encrypted_content"@) is None
}

/// The number of visible items.
pub open spec fn visible_count(items: Seq<JsonModel>) -> nat
    decreases items.len(),
{
    if items.len() == 0 {
        0
    } else if is_visible(items.last()) {
        visible_count(items.drop_last()) + 1
    } else {
        visible_count(items.drop_last())
    }
}

proof fn lemma_visible_count_concat(a: Seq<JsonModel>, b: Seq<JsonModel>)
    ensures
        visible_count(a + b) == visible_count(a) + visible_count(b),
    decreases b.len(),
{
    if b.len() == 0 {
        assert(a + b =~= a);
    } else {
        lemma_visible_count_concat(a, b.drop_last());
        assert((a + b).drop_last() =~= a + b.drop_last());
        assert((a + b).last() == b.last());
    }
}

proof fn lemma_visible_count_push(items: Seq<JsonModel>, item: JsonModel)
    ensures
        visible_count(items.push(item)) == visible_count(items) + (if is_visible(item) {
            1nat
        } else {
            0nat
        }),
{
    assert(items.push(item).drop_last() =~= items);
}

/// Messages, thoughts, calls and searches are visible items, and the items that
/// carry a blob are not.
pub proof fn lemma_visible_items(
    kind: Open,
    id: Seq<char>,
    text: Seq<char>,
    part: JsonModel,
    call: Seq<char>,
    blob: BlobModel,
)
    ensures
        is_visible(closed_item(kind, id, text)),
        is_visible(call_item(part, id, call)),
        is_visible(search_item(part, id)),
        !is_visible(blob_item_json(id, blob)),
{
    reveal_strlit("encrypted_content");
    reveal_strlit("type");
    reveal_strlit("id");
    reveal_strlit("summary");
    reveal_strlit("role");
    reveal_strlit("status");
    reveal_strlit("content");
    reveal_strlit("call_id");
    reveal_strlit("name");
    reveal_strlit("arguments");
    reveal_strlit("action");
    assert("encrypted_content"@.len() == 17);
    assert("type"@.len() == 4 && "id"@.len() == 2 && "summary"@.len() == 7);
    assert("role"@.len() == 4 && "status"@.len() == 6 && "content"@.len() == 7);
    assert("call_id"@.len() == 7 && "name"@.len() == 4 && "arguments"@.len() == 9);
    assert("action"@.len() == 6);
}

/// Whether the counters have gone from those of `base` by what the events show:
/// a number for each event, an output index for each item that is done, and one
/// more item emitted for each visible one.
pub open spec fn tracks(base: TranslatorModel, s: Step) -> bool {
    &&& s.state.seq == base.seq + s.events.len()
    &&& numbered(base.seq, s.events)
    &&& s.state.items_emitted == base.items_emitted + visible_count(done_items(s.events))
    &&& s.state.output_index == base.output_index + done_items(s.events).len()
}

proof fn lemma_emit(base: TranslatorModel, s: Step, kind: Seq<char>, fields: JsonModel)
    requires
        fields is Object,
        s.state.seq < u64::MAX,
        s.state.seq == base.seq + s.events.len(),
        numbered(base.seq, s.events),
    ensures
        s.emit(kind, fields).state.seq == base.seq + s.emit(kind, fields).events.len(),
        numbered(base.seq, s.emit(kind, fields).events),
        added_count(s.emit(kind, fields).events) == added_count(s.events) + (if kind
            == "response.output_item.added"@ {
            1nat
        } else {
            0nat
        }),
{
    let number = (s.state.seq + 1) as u64;
    lemma_event(kind, fields, number);
    let events = s.emit(kind, fields).events;
    assert(events.drop_last() =~= s.events);
    assert forall|i: int| 0 <= i < events.len() implies (#[trigger] events[i]).get(
        "sequence_number"@,
    ) == Some(num((base.seq + i + 1) as u64)) by {
        if i < s.events.len() {
            assert(events[i] == s.events[i]);
        }
    }
}

/// The step that an item which is added and done at once comes to, counted where
/// it is visible.
spec fn placed(s: Step, item: JsonModel) -> Step {
    if is_visible(item) {
        s.item_added_done(item).count()
    } else {
        s.item_added_done(item)
    }
}

proof fn lemma_tracks_item(base: TranslatorModel, s: Step, item: JsonModel)
    requires
        tracks(base, s),
        s.state.room(2, 1),
    ensures
        tracks(base, placed(s, item)),
        placed(s, item).state.seq == s.state.seq + 2,
        placed(s, item).state.output_index == s.state.output_index + 1,
        s.state.items_emitted <= placed(s, item).state.items_emitted <= s.state.items_emitted + 1,
        placed(s, item).state.current == s.state.current,
        unmatched(placed(s, item).events) == unmatched(s.events),
{
    lemma_event_kinds();
    lemma_keys();
    lemma_item_added_done(s, item);
    let fields = item_fields(s.state.output_index, item);
    lemma_emit(base, s, "response.output_item.added"@, fields);
    let added = s.emit("response.output_item.added"@, fields);
    lemma_emit(base, added, "response.output_item.done"@, fields);
    lemma_visible_count_push(done_items(s.events), item);
}

proof fn lemma_tracks_close(base: TranslatorModel, s: Step, id: Seq<char>)
    requires
        tracks(base, s),
        s.state.room(3, 2),
    ensures
        tracks(base, s.close(id)),
        s.close(id).state.current is None,
        s.state.seq <= s.close(id).state.seq <= s.state.seq + 3,
        s.state.output_index <= s.close(id).state.output_index <= s.state.output_index + 2,
        s.state.items_emitted <= s.close(id).state.items_emitted <= s.state.items_emitted + 2,
        s.state.current == Some(Open::Reasoning) ==> s.close(id).state.output_index
            == s.state.output_index + 1 && s.close(id).state.items_emitted == s.state.items_emitted
            + 1 && s.close(id).state.seq == s.state.seq + 2,
        unmatched(s.close(id).events) == unmatched(s.events) - open_count(s.state),
        s.close(id).state.response_id == s.state.response_id,
{
    lemma_event_kinds();
    lemma_keys();
    lemma_close_items(s, id);
    if let Some(kind) = s.state.current {
        let text = s.state.buf;
        let item = closed_item(kind, s.state.item_id, text);
        let blob = BlobModel { covers_prev: 1, parts: signed_parts(s.state.signed) };
        lemma_visible_items(kind, s.state.item_id, text, JsonModel::Null, seq![], blob);
        lemma_visible_items(kind, id, text, JsonModel::Null, seq![], blob);
        lemma_visible_count_push(done_items(s.events), item);
        let done = item_fields(s.state.output_index, item);
        assert(done.get("item"@) == Some(item));
        let taken = Step {
            state: TranslatorModel { current: None, buf: seq![], ..s.state },
            events: s.events,
        };
        match kind {
            Open::Reasoning => {
                let fields = s.state.delta_fields("summary_index"@).with("text"@, txt(text));
                lemma_emit(base, taken, "response.reasoning_summary_text.done"@, fields);
                let said = taken.emit("response.reasoning_summary_text.done"@, fields);
                lemma_emit(base, said, "response.output_item.done"@, done);
                lemma_emit_done(taken, "response.reasoning_summary_text.done"@, fields);
                lemma_emit_done(said, "response.output_item.done"@, done);
            },
            Open::Message => {
                lemma_emit(base, taken, "response.output_item.done"@, done);
                lemma_emit_done(taken, "response.output_item.done"@, done);
                let ended = taken.emit("response.output_item.done"@, done).advance().count();
                assert(tracks(base, ended));
                if s.state.signed.len() > 0 {
                    let bare = Step {
                        state: TranslatorModel { signed: seq![], ..ended.state },
                        events: ended.events,
                    };
                    lemma_tracks_item(base, bare, blob_item_json(id, blob));
                }
            },
        }
    }
}

proof fn lemma_tracks_plain(
    base: TranslatorModel,
    s: Step,
    kind: Seq<char>,
    fields: JsonModel,
)
    requires
        tracks(base, s),
        fields is Object,
        s.state.seq < u64::MAX,
        kind != "response.output_item.done"@,
    ensures
        tracks(base, s.emit(kind, fields)),
        unmatched(s.emit(kind, fields).events) == unmatched(s.events) + (if kind
            == "response.output_item.added"@ {
            1int
        } else {
            0int
        }),
{
    lemma_emit(base, s, kind, fields);
    lemma_emit_done(s, kind, fields);
}

proof fn lemma_tracks_open(
    base: TranslatorModel,
    s: Step,
    kind: Open,
    closing: Seq<char>,
    id: Seq<char>,
)
    requires
        tracks(base, s),
        s.state.room(5, 2),
    ensures
        tracks(base, s.open_item(kind, closing, id)),
        s.open_item(kind, closing, id).state.current == Some(kind),
        s.open_item(kind, closing, id).state.seq <= s.state.seq + 5,
        s.open_item(kind, closing, id).state.output_index <= s.state.output_index + 2,
        s.open_item(kind, closing, id).state.items_emitted <= s.state.items_emitted + 2,
        unmatched(s.open_item(kind, closing, id).events) == unmatched(s.events) + 1 - open_count(
            s.state,
        ),
{
    lemma_event_kinds();
    if s.state.current != Some(kind) {
        lemma_tracks_close(base, s, closing);
        let shut = s.close(closing);
        let item_id = match kind {
            Open::Reasoning => "rs_"@ + id,
            Open::Message => "msg_"@ + id,
        };
        let fresh = Step {
            state: TranslatorModel {
                current: Some(kind),
                item_id,
                buf: seq![],
                signed: seq![],
                ..shut.state
            },
            events: shut.events,
        };
        assert(tracks(base, fresh));
        match kind {
            Open::Reasoning => {
                let added = item_fields(
                    fresh.state.output_index,
                    empty_object().with("type"@, txt("reasoning"@)).with("id"@, txt(item_id)).with(
                        "summary"@,
                        JsonModel::List(seq![]),
                    ),
                );
                let part = fresh.state.delta_fields("summary_index"@).with(
                    "part"@,
                    empty_object().with("type"@, txt("summary_text"@)).with("text"@, txt(""@)),
                );
                lemma_tracks_plain(base, fresh, "response.output_item.added"@, added);
                lemma_tracks_plain(
                    base,
                    fresh.emit("response.output_item.added"@, added),
                    "response.reasoning_summary_part.added"@,
                    part,
                );
            },
            Open::Message => {
                let added = item_fields(
                    fresh.state.output_index,
                    empty_object().with("type"@, txt("message"@)).with("id"@, txt(item_id)).with(
                        "role"@,
                        txt("assistant"@),
                    ).with("status"@, txt("in_progress"@)).with(
                        "content"@,
                        JsonModel::List(seq![]),
                    ),
                );
                lemma_tracks_plain(base, fresh, "response.output_item.added"@, added);
            },
        }
    }
}

proof fn lemma_tracks_text(
    base: TranslatorModel,
    s: Step,
    text: Seq<char>,
    kind: Open,
    sig: Option<Seq<char>>,
    ids: PartIdsModel,
)
    requires
        tracks(base, s),
        s.state.room(10, 4),
    ensures
        ({
            let out = s.text(text, kind, sig, ids);
            tracks(base, out) && unmatched(out.events) == unmatched(s.events) + open_count(
                out.state,
            ) - open_count(s.state)
        }),
{
    lemma_event_kinds();
    lemma_tracks_open(base, s, kind, ids.closing, ids.item);
    let opened = s.open_item(kind, ids.closing, ids.item);
    let grown = Step {
        state: TranslatorModel { buf: opened.state.buf + text, ..opened.state },
        events: opened.events,
    };
    assert(tracks(base, grown));
    match kind {
        Open::Reasoning => {
            let fields = grown.state.delta_fields("summary_index"@).with("delta"@, txt(text));
            lemma_tracks_plain(base, grown, "response.reasoning_summary_text.delta"@, fields);
            let said = grown.emit("response.reasoning_summary_text.delta"@, fields);
            if let Some(x) = sig {
                lemma_tracks_close(base, said, ids.closing);
                let blob = BlobModel { covers_prev: 0, parts: seq![signed_text(""@, x)] };
                lemma_visible_items(kind, ids.blob, text, JsonModel::Null, seq![], blob);
                lemma_tracks_item(
                    base,
                    said.close(ids.closing),
                    blob_item_json(ids.blob, blob),
                );
            }
        },
        Open::Message => {
            let fields = grown.state.delta_fields("content_index"@).with("delta"@, txt(text));
            lemma_tracks_plain(base, grown, "response.output_text.delta"@, fields);
        },
    }
}

/// The events of one part are numbered one after the other, the counters go on by
/// what the events show, and an item is added and not done exactly where one is
/// left open.
pub proof fn law_part_protocol(t: TranslatorModel, part: JsonModel, ids: PartIdsModel)
    requires
        t.room(10, 4),
    ensures
        ({
            let out = (Step { state: t, events: seq![] }).on_part(part, ids);
            &&& tracks(t, out)
            &&& unmatched(out.events) == open_count(out.state) - open_count(t)
        }),
{
    let s = Step { state: t, events: seq![] };
    let sig = part.text_at("thoughtSignature"@);
    let text = part.text_or("text"@, ""@);
    let shut = s.close(ids.closing);
    lemma_tracks_close(t, s, ids.closing);
    let b0 = BlobModel { covers_prev: 0, parts: seq![part] };
    let b1 = BlobModel { covers_prev: 1, parts: seq![part] };
    let blob0 = blob_item_json(ids.blob, b0);
    let blob1 = blob_item_json(ids.blob, b1);
    lemma_visible_items(Open::Message, ids.blob, text, part, ids.call, b0);
    lemma_visible_items(Open::Message, ids.blob, text, part, ids.call, b1);
    if let Some(fc) = part.get("functionCall"@) {
        let item = call_item(fc, ids.item, ids.call);
        lemma_visible_items(Open::Message, ids.item, text, fc, ids.call, b1);
        lemma_tracks_item(t, shut, item);
        lemma_tracks_item(t, shut.item_added_done(item).count(), blob1);
    } else if let Some(tc) = part.get("toolCall"@) {
        let item = search_item(tc, ids.item);
        lemma_visible_items(Open::Message, ids.item, text, tc, ids.call, b1);
        lemma_tracks_item(t, shut, item);
        lemma_tracks_item(t, shut.item_added_done(item).count(), blob1);
    } else if part.get("toolResponse"@) is Some {
        lemma_tracks_item(t, shut, blob0);
    } else if text.len() == 0 {
        lemma_tracks_item(t, shut, blob0);
    } else if part.get("thought"@) == Some(JsonModel::Bool(true)) {
        lemma_tracks_text(t, s, text, Open::Reasoning, sig, ids);
    } else {
        lemma_tracks_text(t, s, text, Open::Message, sig, ids);
    }
}

/// The end of a stream leaves no item open, and its last event is
/// `response.completed`.
pub proof fn law_finish_protocol(t: TranslatorModel, usage: JsonModel, closing: Seq<char>)
    requires
        t.room(10, 4),
    ensures
        ({
            let out = (Step { state: t, events: seq![] }).finish(usage, closing);
            &&& tracks(t, out)
            &&& out.state.current is None
            &&& unmatched(out.events) == -open_count(t)
            &&& out.events.len() > 0
            &&& out.events.last().get("type"@) == Some(txt("response.completed"@))
        }),
{
    lemma_event_kinds();
    let s = Step { state: t, events: seq![] };
    lemma_tracks_close(t, s, closing);
    let shut = s.close(closing);
    let fields = empty_object().with(
        "response"@,
        empty_object().with("id"@, txt(t.response_id)).with("object"@, txt("response"@)).with(
            "status"@,
            txt("completed"@),
        ).with("usage"@, usage_json(usage)),
    );
    lemma_tracks_plain(t, shut, "response.completed"@, fields);
    lemma_event("response.completed"@, fields, (shut.state.seq + 1) as u64);
}

/// Whether the counters have room for each part of a run.
pub open spec fn run_room(
    start: TranslatorModel,
    parts: Seq<JsonModel>,
    ids: Seq<PartIdsModel>,
) -> bool
    decreases parts.len(),
{
    run(start, parts, ids).state.room(10, 4) && (parts.len() == 0 || run_room(
        start,
        parts.drop_last(),
        ids.drop_last(),
    ))
}

proof fn lemma_tracks_concat(base: TranslatorModel, a: Step, b: Step)
    requires
        tracks(base, a),
        tracks(a.state, b),
    ensures
        tracks(base, Step { state: b.state, events: a.events + b.events }),
        unmatched(a.events + b.events) == unmatched(a.events) + unmatched(b.events),
{
    let events = a.events + b.events;
    lemma_done_items_concat(a.events, b.events);
    lemma_visible_count_concat(done_items(a.events), done_items(b.events));
    lemma_added_count_concat(a.events, b.events);
    assert forall|i: int| 0 <= i < events.len() implies (#[trigger] events[i]).get(
        "sequence_number"@,
    ) == Some(num((base.seq + i + 1) as u64)) by {
        if i < a.events.len() {
            assert(events[i] == a.events[i]);
        } else {
            assert(events[i] == b.events[i - a.events.len()]);
        }
    }
}

/// The events of a run are numbered one after the other, each visible output item
/// that is done is counted once, and at most one item is open.
pub proof fn law_run_protocol(
    start: TranslatorModel,
    parts: Seq<JsonModel>,
    ids: Seq<PartIdsModel>,
)
    requires
        parts.len() == ids.len(),
        run_room(start, parts, ids),
    ensures
        ({
            let out = run(start, parts, ids);
            &&& tracks(start, out)
            &&& unmatched(out.events) == open_count(out.state) - open_count(start)
        }),
    decreases parts.len(),
{
    if parts.len() > 0 {
        let front = parts.drop_last();
        let fids = ids.drop_last();
        reveal(taken);
        law_run_protocol(start, front, fids);
        let before = run(start, front, fids);
        assert(run_room(start, front, fids));
        assert(before.state.room(10, 4));
        let now = (Step { state: before.state, events: seq![] }).on_part(parts.last(), ids.last());
        law_part_protocol(before.state, parts.last(), ids.last());
        lemma_tracks_concat(start, before, now);
    }
}

/// A whole stream, from a translator that has no item open on: the events are
/// numbered one by one, every output item that is added is done, `items_emitted`
/// counts the visible ones, and `response.completed` is last.
pub proof fn law_stream_protocol(
    start: TranslatorModel,
    parts: Seq<JsonModel>,
    ids: Seq<PartIdsModel>,
    usage: JsonModel,
    closing: Seq<char>,
)
    requires
        start.current is None,
        parts.len() == ids.len(),
        run_room(start, parts, ids),
    ensures
        ({
            let said = run(start, parts, ids);
            let ended = (Step { state: said.state, events: seq![] }).finish(usage, closing);
            let events = said.events + ended.events;
            &&& numbered(start.seq, events)
            &&& unmatched(events) == 0
            &&& ended.state.items_emitted == start.items_emitted + visible_count(
                done_items(events),
            )
            &&& ended.state.output_index == start.output_index + done_items(events).len()
            &&& events.last().get("type"@) == Some(txt("response.completed"@))
        }),
{
    let said = run(start, parts, ids);
    law_run_protocol(start, parts, ids);
    law_finish_protocol(said.state, usage, closing);
    let ended = (Step { state: said.state, events: seq![] }).finish(usage, closing);
    lemma_tracks_concat(start, said, ended);
    assert((said.events + ended.events).last() == ended.events.last());
}

proof fn lemma_close_room(s: Step, id: Seq<char>, events: nat, items: nat)
    requires
        s.state.room(3 + events, 2 + items),
    ensures
        s.close(id).state.room(events, items),
        s.state.current != Some(Open::Message) ==> s.close(id).state.room(events + 1, items + 1),
{
}

/// One part takes up at most ten event numbers and four output items.
pub proof fn lemma_part_room(
    t: TranslatorModel,
    part: JsonModel,
    ids: PartIdsModel,
    events: nat,
    items: nat,
)
    requires
        t.room(10 + events, 4 + items),
    ensures
        (Step { state: t, events: seq![] }).on_part(part, ids).state.room(events, items),
{
    let s = Step { state: t, events: seq![] };
    lemma_close_room(s, ids.closing, events + 7, items + 2);
    let opened = s.open_item(Open::Reasoning, ids.closing, ids.item);
    assert(opened.state.room(events + 5, items + 2));
    let said = opened.emit("response.reasoning_summary_text.delta"@, empty_object());
    assert(said.state.room(events + 4, items + 2));
}

/// Parts that the counters have room for can be taken one after the other, and
/// the end of the stream after them.
pub proof fn law_room_for_run(
    start: TranslatorModel,
    parts: Seq<JsonModel>,
    ids: Seq<PartIdsModel>,
)
    requires
        start.room(10 * (parts.len() + 1), 4 * (parts.len() + 1)),
    ensures
        run_room(start, parts, ids),
{
    lemma_run_room(start, parts, ids, 10, 4);
}

/// The counters keep the room that the parts do not take up.
pub proof fn lemma_run_room(
    start: TranslatorModel,
    parts: Seq<JsonModel>,
    ids: Seq<PartIdsModel>,
    events: nat,
    items: nat,
)
    requires
        events >= 10,
        items >= 4,
        start.room(10 * parts.len() + events, 4 * parts.len() + items),
    ensures
        run_room(start, parts, ids),
        run(start, parts, ids).state.room(events, items),
    decreases parts.len(),
{
    if parts.len() > 0 {
        let front = parts.drop_last();
        reveal(taken);
        lemma_run_room(start, front, ids.drop_last(), events + 10, items + 4);
        let before = run(start, front, ids.drop_last());
        lemma_part_room(before.state, parts.last(), ids.last(), events, items);
    }
}

}
