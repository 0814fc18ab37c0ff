//! The order of a stream's events: output items are added and done in turn, their
//! text is what was streamed, and nothing follows the end.

use vstd::prelude::*;

use crate::blob::BlobModel;
use crate::input::{content_text, item_texts};
use crate::json::{empty_object, JsonModel};
use crate::protocol::{is_added, run_room};
use crate::replay::{is_done, item_of, lemma_event, lemma_event_kinds, lemma_keys, run, taken};
use crate::text::joined;
use crate::translate::{blob_item_json, call_item, closed_item, event_json, item_fields, num, search_item, signed_parts, signed_text, txt, usage_json, Open, PartIdsModel, Step, TranslatorModel};

verus! {

/// What an event says of an output item that is added or done.
#[verifier::ext_equal]
pub struct Mark {
    pub added: bool,
    pub index: Option<u64>,
    pub id: Option<Seq<char>>,
    pub kind: Option<Seq<char>>,
}

/// What an event says of the output item that it is about.
pub open spec fn mark_of(event: JsonModel) -> Mark {
    Mark {
        added: is_added(event),
        index: event.u64_at("output_index"@),
        id: item_of(event).text_at("id"@),
        kind: item_of(event).text_at("type"@),
    }
}

/// What the events say of the output items that are added and done, in order.
pub open spec fn marks(events: Seq<JsonModel>) -> Seq<Mark>
    decreases events.len(),
{
    if events.len() == 0 {
        seq![]
    } else if is_added(events.last()) || is_done(events.last()) {
        marks(events.drop_last()).push(mark_of(events.last()))
    } else {
        marks(events.drop_last())
    }
}

/// Whether the mark at a place is of an item that is added, at the next index, or
/// of the same item that is done.
pub open spec fn next_in_turn(index: int, m: Seq<Mark>, i: int) -> bool {
    if i % 2 == 0 {
        m[i].added && m[i].index == Some((index + i / 2) as u64)
    } else {
        m[i] == (Mark { added: false, ..m[i - 1] })
    }
}

/// Whether items are added and done in turn, the first of them at the index and
/// each other at the next one, and each is done under the index, the id and the
/// type that it was added under.
pub open spec fn in_turn(index: int, m: Seq<Mark>) -> bool {
    forall|i: int| 0 <= i < m.len() ==> #[trigger] next_in_turn(index, m, i)
}

/// The kind of the events that stream the text of an item.
pub open spec fn delta_kind(kind: Open) -> Seq<char> {
    match kind {
        Open::Reasoning => "response.reasoning_summary_text.delta"@,
        Open::Message => "response.output_text.delta"@,
    }
}

/// The text of that kind that an event streams.
pub open spec fn delta_of(kind: Open, event: JsonModel) -> Seq<char> {
    if event.get("type"@) == Some(txt(delta_kind(kind))) {
        event.text_or("delta"@, seq![])
    } else {
        seq![]
    }
}

/// The text of an output item of that kind: of a message its content, of a thought
/// its summary.
pub open spec fn item_text(kind: Open, item: JsonModel) -> Seq<char> {
    match kind {
        Open::Reasoning => if item.get("type"@) == Some(txt("reasoning"@)) {
            content_text(item.get("summary"@))
        } else {
            seq![]
        },
        Open::Message => if item.get("type"@) == Some(txt("message"@)) {
            content_text(item.get("content"@))
        } else {
            seq![]
        },
    }
}

/// The text of that kind that an event says is done.
pub open spec fn done_of(kind: Open, event: JsonModel) -> Seq<char> {
    if is_done(event) {
        item_text(kind, item_of(event))
    } else {
        seq![]
    }
}

/// The text of that kind that the events stream.
pub open spec fn streamed(kind: Open, events: Seq<JsonModel>) -> Seq<char>
    decreases events.len(),
{
    if events.len() == 0 {
        seq![]
    } else {
        streamed(kind, events.drop_last()) + delta_of(kind, events.last())
    }
}

/// The text of that kind that the events say is done.
pub open spec fn finished(kind: Open, events: Seq<JsonModel>) -> Seq<char>
    decreases events.len(),
{
    if events.len() == 0 {
        seq![]
    } else {
        finished(kind, events.drop_last()) + done_of(kind, events.last())
    }
}

/// The text of that kind in a part: parts that call, search or answer have none.
pub open spec fn words(kind: Open, part: JsonModel) -> Seq<char> {
    let thought = part.get("thought"@) == Some(JsonModel::Bool(true));
    if part.get("functionCall"@) is Some || part.get("toolCall"@) is Some || part.get(
        "toolResponse"@,
    ) is Some || thought != (kind == Open::Reasoning) {
        seq![]
    } else {
        part.text_or("text"@, ""@)
    }
}

/// The text of that kind in the parts, in order.
pub open spec fn all_words(kind: Open, parts: Seq<JsonModel>) -> Seq<char>
    decreases parts.len(),
{
    if parts.len() == 0 {
        seq![]
    } else {
        all_words(kind, parts.drop_last()) + words(kind, parts.last())
    }
}

/// Whether an event ends the stream.
pub open spec fn is_end(event: JsonModel) -> bool {
    event.get("type"@) == Some(txt("response.completed"@)) || event.get("type"@) == Some(
        txt("response.failed"@),
    )
}

/// Whether none of the events ends the stream.
pub open spec fn goes_on(events: Seq<JsonModel>) -> bool {
    forall|i: int| 0 <= i < events.len() ==> !is_end(#[trigger] events[i])
}

/// What was said of the item that is open.
pub open spec fn pending(t: TranslatorModel) -> Seq<Mark> {
    match t.current {
        Some(kind) => seq![
            Mark {
                added: true,
                index: Some(t.output_index),
                id: Some(t.item_id),
                kind: Some(
                    match kind {
                        Open::Reasoning => "reasoning"@,
                        Open::Message => "message"@,
                    },
                ),
            },
        ],
        None => seq![],
    }
}

/// The text of that kind of the item that is open.
pub open spec fn held(kind: Open, t: TranslatorModel) -> Seq<char> {
    if t.current == Some(kind) {
        t.buf
    } else {
        seq![]
    }
}

/// Whether the marks, after what was open, are items in turn and then what is open.
#[verifier::opaque]
pub open spec fn marks_fit(base: TranslatorModel, m: Seq<Mark>, t: TranslatorModel) -> bool {
    let whole = pending(base) + m;
    let n = whole.len() - pending(t).len();
    &&& n == 2 * (t.output_index - base.output_index)
    &&& n >= 0
    &&& in_turn(base.output_index as int, whole.take(n))
    &&& whole.skip(n) == pending(t)
}

/// Whether the text that was held and streamed is the text that is done and held.
#[verifier::opaque]
pub open spec fn text_fits(
    kind: Open,
    base: TranslatorModel,
    events: Seq<JsonModel>,
    t: TranslatorModel,
) -> bool {
    held(kind, base) + streamed(kind, events) == finished(kind, events) + held(kind, t)
}

/// Whether the events lead from `base` to the state of the step.
pub open spec fn shaped(base: TranslatorModel, s: Step) -> bool {
    &&& marks_fit(base, marks(s.events), s.state)
    &&& text_fits(Open::Message, base, s.events, s.state)
    &&& text_fits(Open::Reasoning, base, s.events, s.state)
    &&& goes_on(s.events)
}

/// Whether the text that is streamed is the same after a step.
spec fn as_streamed(a: Step, b: Step) -> bool {
    &&& streamed(Open::Message, a.events) == streamed(Open::Message, b.events)
    &&& streamed(Open::Reasoning, a.events) == streamed(Open::Reasoning, b.events)
}

/// The kinds of events are told apart.
pub proof fn lemma_kinds_apart()
    ensures
        "response.output_item.added"@ != "response.completed"@,
        "response.output_item.added"@ != "response.failed"@,
        "response.output_item.done"@ != "response.completed"@,
        "response.output_item.done"@ != "response.failed"@,
        "response.output_item.done"@ != "response.output_item.added"@,
        delta_kind(Open::Message) != "response.output_item.added"@,
        delta_kind(Open::Message) != "response.output_item.done"@,
        delta_kind(Open::Message) != "response.completed"@,
        delta_kind(Open::Message) != "response.failed"@,
        delta_kind(Open::Reasoning) != "response.output_item.added"@,
        delta_kind(Open::Reasoning) != "response.output_item.done"@,
        delta_kind(Open::Reasoning) != "response.completed"@,
        delta_kind(Open::Reasoning) != "response.failed"@,
        delta_kind(Open::Reasoning) != delta_kind(Open::Message),
        is_quiet("response.reasoning_summary_text.done"@),
        is_quiet("response.reasoning_summary_part.added"@),
        is_quiet("response.created"@),
{
    lemma_event_kinds();
    reveal_strlit("response.output_item.added");
    reveal_strlit("response.output_item.done");
    reveal_strlit("response.completed");
    reveal_strlit("response.failed");
    reveal_strlit("response.created");
    reveal_strlit("response.output_text.delta");
    reveal_strlit("response.reasoning_summary_text.delta");
    reveal_strlit("response.reasoning_summary_text.done");
    reveal_strlit("response.reasoning_summary_part.added");
    assert("response.output_item.added"@.len() == 26);
    assert("response.output_item.done"@.len() == 25);
    assert("response.completed"@.len() == 18);
    assert("response.failed"@.len() == 15);
    assert("response.created"@.len() == 16);
    assert("response.output_text.delta"@.len() == 26);
    assert("response.reasoning_summary_text.delta"@.len() == 37);
    assert("response.reasoning_summary_text.done"@.len() == 36);
    assert("response.reasoning_summary_part.added"@.len() == 37);
    assert("response.reasoning_summary_part.added"@[27] == 'p');
    assert("response.reasoning_summary_text.delta"@[27] == 't');
}

/// Whether events of the kind say nothing of an item, of its text or of the end.
pub open spec fn is_quiet(kind: Seq<char>) -> bool {
    &&& kind != "response.output_item.added"@
    &&& kind != "response.output_item.done"@
    &&& kind != "response.completed"@
    &&& kind != "response.failed"@
    &&& kind != delta_kind(Open::Message)
    &&& kind != delta_kind(Open::Reasoning)
}

/// The fields of an event can be read off it.
proof fn lemma_fields(kind: Seq<char>, fields: JsonModel, number: u64)
    requires
        fields is Object,
    ensures
        event_json(kind, fields, number).get("output_index"@) == fields.get("output_index"@),
        event_json(kind, fields, number).get("delta"@) == fields.get("delta"@),
        item_fields(number, fields).get("output_index"@) == Some(num(number)),
        item_fields(number, fields).get("item"@) == Some(fields),
{
    lemma_keys();
    reveal_strlit("type");
    reveal_strlit("sequence_number");
    reveal_strlit("output_index");
    reveal_strlit("delta");
    reveal_strlit("item");
    assert("type"@.len() == 4 && "sequence_number"@.len() == 15 && "output_index"@.len() == 12);
    assert("delta"@.len() == 5 && "item"@.len() == 4);
}

/// One more event, and what it adds.
proof fn lemma_emit_shape(s: Step, kind: Seq<char>, fields: JsonModel)
    requires
        fields is Object,
        goes_on(s.events),
        kind != "response.completed"@,
        kind != "response.failed"@,
    ensures
        ({
            let out = s.emit(kind, fields);
            let event = event_json(kind, fields, (s.state.seq + 1) as u64);
            &&& goes_on(out.events)
            &&& marks(out.events) == (if kind == "response.output_item.added"@ || kind
                == "response.output_item.done"@ {
                marks(s.events).push(mark_of(event))
            } else {
                marks(s.events)
            })
            &&& streamed(Open::Message, out.events) == streamed(Open::Message, s.events) + delta_of(
                Open::Message,
                event,
            )
            &&& streamed(Open::Reasoning, out.events) == streamed(Open::Reasoning, s.events)
                + delta_of(Open::Reasoning, event)
            &&& finished(Open::Message, out.events) == finished(Open::Message, s.events) + done_of(
                Open::Message,
                event,
            )
            &&& finished(Open::Reasoning, out.events) == finished(Open::Reasoning, s.events)
                + done_of(Open::Reasoning, event)
            &&& event.get("type"@) == Some(txt(kind))
            &&& event.get("item"@) == fields.get("item"@)
            &&& event.get("output_index"@) == fields.get("output_index"@)
            &&& event.get("delta"@) == fields.get("delta"@)
        }),
{
    let number = (s.state.seq + 1) as u64;
    lemma_event(kind, fields, number);
    lemma_fields(kind, fields, number);
    let out = s.emit(kind, fields);
    assert(out.events.drop_last() =~= s.events);
    assert forall|i: int| 0 <= i < out.events.len() implies !is_end(#[trigger] out.events[i]) by {
        if i < s.events.len() {
            assert(out.events[i] == s.events[i]);
        }
    }
}

/// Two runs of items in turn, the second from where the first ends, are one.
proof fn lemma_in_turn_concat(index: int, a: Seq<Mark>, b: Seq<Mark>)
    requires
        in_turn(index, a),
        a.len() % 2 == 0,
        in_turn(index + a.len() / 2, b),
    ensures
        in_turn(index, a + b),
{
    let c = a + b;
    let n = a.len() as int;
    assert forall|i: int| 0 <= i < c.len() implies #[trigger] next_in_turn(index, c, i) by {
        if i < n {
            assert(next_in_turn(index, a, i));
        } else {
            let j = i - n;
            assert(next_in_turn(index + a.len() / 2, b, j));
            assert(j % 2 == i % 2);
            assert(index + a.len() / 2 + j / 2 == index + i / 2);
            if i % 2 != 0 {
                assert(c[i - 1] == b[j - 1]);
            }
        }
    }
}

/// An item that is added and then done.
proof fn lemma_in_turn_pair(index: int, x: Mark, y: Mark)
    requires
        x.added,
        x.index == Some(index as u64),
        y == (Mark { added: false, ..x }),
    ensures
        in_turn(index, seq![x, y]),
{
    let c = seq![x, y];
    assert forall|i: int| 0 <= i < c.len() implies #[trigger] next_in_turn(index, c, i) by {
        assert(i == 0 || i == 1);
    }
}

/// The marks fit where nothing of the open item changes.
proof fn lemma_fit_same(
    base: TranslatorModel,
    m: Seq<Mark>,
    t: TranslatorModel,
    after: TranslatorModel,
)
    requires
        marks_fit(base, m, t),
        after.current == t.current,
        after.output_index == t.output_index,
        after.item_id == t.item_id,
    ensures
        marks_fit(base, m, after),
{
    reveal(marks_fit);
    assert(pending(after) == pending(t));
}

/// An item that is added and left open, on the marks.
proof fn lemma_fit_added(
    base: TranslatorModel,
    m: Seq<Mark>,
    t: TranslatorModel,
    mark: Mark,
    after: TranslatorModel,
)
    requires
        marks_fit(base, m, t),
        t.current is None,
        after.output_index == t.output_index,
        pending(after) == seq![mark],
    ensures
        marks_fit(base, m.push(mark), after),
{
    reveal(marks_fit);
    let whole = pending(base) + m;
    let grown = pending(base) + m.push(mark);
    let n = whole.len() as int;
    assert(grown =~= whole.push(mark));
    assert(grown.take(n) =~= whole.take(n));
    assert(grown.skip(n) =~= seq![mark]);
}

/// An open item that is done, on the marks.
proof fn lemma_fit_done(
    base: TranslatorModel,
    m: Seq<Mark>,
    t: TranslatorModel,
    mark: Mark,
    after: TranslatorModel,
)
    requires
        marks_fit(base, m, t),
        t.current is Some,
        mark == (Mark { added: false, ..pending(t)[0] }),
        after.current is None,
        after.output_index == t.output_index + 1,
    ensures
        marks_fit(base, m.push(mark), after),
{
    reveal(marks_fit);
    let whole = pending(base) + m;
    let grown = pending(base) + m.push(mark);
    let n = whole.len() - 1;
    let x = pending(t)[0];
    assert(whole =~= whole.take(n) + whole.skip(n));
    assert(grown =~= whole.take(n) + seq![x, mark]);
    lemma_in_turn_pair(t.output_index as int, x, mark);
    lemma_in_turn_concat(base.output_index as int, whole.take(n), seq![x, mark]);
    assert(grown.take(n + 2) =~= grown);
    assert(grown.skip(n + 2) =~= seq![]);
}

/// An item that is added and done at once, on the marks.
proof fn lemma_fit_pair(
    base: TranslatorModel,
    m: Seq<Mark>,
    t: TranslatorModel,
    x: Mark,
    y: Mark,
    after: TranslatorModel,
)
    requires
        marks_fit(base, m, t),
        t.current is None,
        x.added,
        x.index == Some(t.output_index),
        y == (Mark { added: false, ..x }),
        after.current is None,
        after.output_index == t.output_index + 1,
    ensures
        marks_fit(base, m.push(x).push(y), after),
{
    reveal(marks_fit);
    let whole = pending(base) + m;
    let n = whole.len() as int;
    let grown = pending(base) + m.push(x).push(y);
    assert(whole.take(n) =~= whole);
    assert(grown =~= whole + seq![x, y]);
    lemma_in_turn_pair(t.output_index as int, x, y);
    lemma_in_turn_concat(base.output_index as int, whole, seq![x, y]);
    assert(grown.take(n + 2) =~= grown);
    assert(grown.skip(n + 2) =~= seq![]);
}

/// The text fits where nothing is streamed, done or held anew.
proof fn lemma_text_same(
    kind: Open,
    base: TranslatorModel,
    events: Seq<JsonModel>,
    t: TranslatorModel,
    after: Seq<JsonModel>,
    end: TranslatorModel,
)
    requires
        text_fits(kind, base, events, t),
        streamed(kind, after) == streamed(kind, events),
        finished(kind, after) == finished(kind, events),
        held(kind, end) == held(kind, t),
    ensures
        text_fits(kind, base, after, end),
{
    reveal(text_fits);
}

/// The text fits where what was held is done.
proof fn lemma_text_done(
    kind: Open,
    base: TranslatorModel,
    events: Seq<JsonModel>,
    t: TranslatorModel,
    after: Seq<JsonModel>,
    end: TranslatorModel,
)
    requires
        text_fits(kind, base, events, t),
        streamed(kind, after) == streamed(kind, events),
        finished(kind, after) == finished(kind, events) + held(kind, t),
        held(kind, end).len() == 0,
    ensures
        text_fits(kind, base, after, end),
{
    reveal(text_fits);
    assert(finished(kind, after) + held(kind, end) =~= finished(kind, after));
}

/// The text fits where what is streamed is held.
proof fn lemma_text_more(
    kind: Open,
    base: TranslatorModel,
    events: Seq<JsonModel>,
    t: TranslatorModel,
    after: Seq<JsonModel>,
    end: TranslatorModel,
    text: Seq<char>,
)
    requires
        text_fits(kind, base, events, t),
        streamed(kind, after) == streamed(kind, events) + text,
        finished(kind, after) == finished(kind, events),
        held(kind, end) == held(kind, t) + text,
    ensures
        text_fits(kind, base, after, end),
{
    reveal(text_fits);
    assert(held(kind, base) + (streamed(kind, events) + text) =~= (held(kind, base) + streamed(
        kind,
        events,
    )) + text);
    assert((finished(kind, events) + held(kind, t)) + text =~= finished(kind, events) + (held(
        kind,
        t,
    ) + text));
}

/// Nothing added to a text.
proof fn lemma_plus_nothing(text: Seq<char>, none: Seq<char>)
    requires
        none.len() == 0,
    ensures
        text + none == text,
{
    assert(text + none =~= text);
}

/// One more event that streams and finishes no text.
proof fn lemma_emit_silent(s: Step, kind: Seq<char>, fields: JsonModel)
    requires
        fields is Object,
        goes_on(s.events),
        kind != "response.completed"@,
        kind != "response.failed"@,
        kind != delta_kind(Open::Message),
        kind != delta_kind(Open::Reasoning),
        kind == "response.output_item.done"@ ==> fields.get("item"@) is Some && item_text(
            Open::Message,
            fields.get("item"@)->0,
        ).len() == 0 && item_text(Open::Reasoning, fields.get("item"@)->0).len() == 0,
    ensures
        as_streamed(s.emit(kind, fields), s),
        finished(Open::Message, s.emit(kind, fields).events) == finished(Open::Message, s.events),
        finished(Open::Reasoning, s.emit(kind, fields).events) == finished(
            Open::Reasoning,
            s.events,
        ),
{
    lemma_emit_shape(s, kind, fields);
    let e = event_json(kind, fields, (s.state.seq + 1) as u64);
    lemma_plus_nothing(streamed(Open::Message, s.events), delta_of(Open::Message, e));
    lemma_plus_nothing(streamed(Open::Reasoning, s.events), delta_of(Open::Reasoning, e));
    lemma_plus_nothing(finished(Open::Message, s.events), done_of(Open::Message, e));
    lemma_plus_nothing(finished(Open::Reasoning, s.events), done_of(Open::Reasoning, e));
}

/// A quiet event changes nothing of the shape.
proof fn lemma_shaped_quiet(base: TranslatorModel, s: Step, kind: Seq<char>, fields: JsonModel)
    requires
        shaped(base, s),
        fields is Object,
        is_quiet(kind),
    ensures
        shaped(base, s.emit(kind, fields)),
        as_streamed(s.emit(kind, fields), s),
{
    lemma_emit_shape(s, kind, fields);
    lemma_emit_silent(s, kind, fields);
    let out = s.emit(kind, fields);
    lemma_fit_same(base, marks(s.events), s.state, out.state);
    lemma_text_same(Open::Message, base, s.events, s.state, out.events, out.state);
    lemma_text_same(Open::Reasoning, base, s.events, s.state, out.events, out.state);
}

/// An output item without text that is added and done at once keeps the shape.
proof fn lemma_shaped_item(base: TranslatorModel, s: Step, item: JsonModel)
    requires
        shaped(base, s),
        s.state.current is None,
        s.state.output_index < u64::MAX,
        item is Object,
        item_text(Open::Message, item).len() == 0,
        item_text(Open::Reasoning, item).len() == 0,
    ensures
        shaped(base, s.item_added_done(item)),
        shaped(base, s.item_added_done(item).count()),
        as_streamed(s.item_added_done(item), s),
        s.item_added_done(item).state.current is None,
        s.item_added_done(item).state.output_index == s.state.output_index + 1,
{
    lemma_kinds_apart();
    let fields = item_fields(s.state.output_index, item);
    lemma_fields("response.output_item.added"@, item, s.state.output_index);
    lemma_emit_shape(s, "response.output_item.added"@, fields);
    lemma_emit_silent(s, "response.output_item.added"@, fields);
    let added = s.emit("response.output_item.added"@, fields);
    lemma_emit_shape(added, "response.output_item.done"@, fields);
    lemma_emit_silent(added, "response.output_item.done"@, fields);
    let out = s.item_added_done(item);
    let e = event_json("response.output_item.added"@, fields, (s.state.seq + 1) as u64);
    let d = event_json("response.output_item.done"@, fields, (added.state.seq + 1) as u64);
    assert(marks(out.events) == marks(s.events).push(mark_of(e)).push(mark_of(d)));
    lemma_fit_pair(base, marks(s.events), s.state, mark_of(e), mark_of(d), out.state);
    lemma_text_same(Open::Message, base, s.events, s.state, out.events, out.state);
    lemma_text_same(Open::Reasoning, base, s.events, s.state, out.events, out.state);
    lemma_fit_same(base, marks(out.events), out.state, out.count().state);
    lemma_text_same(Open::Message, base, out.events, out.state, out.events, out.count().state);
    lemma_text_same(Open::Reasoning, base, out.events, out.state, out.events, out.count().state);
}

/// The items that carry a blob, call or search have no text.
proof fn lemma_textless(id: Seq<char>, part: JsonModel, call: Seq<char>, blob: BlobModel)
    ensures
        item_text(Open::Message, blob_item_json(id, blob)).len() == 0,
        item_text(Open::Reasoning, blob_item_json(id, blob)).len() == 0,
        item_text(Open::Message, call_item(part, id, call)).len() == 0,
        item_text(Open::Reasoning, call_item(part, id, call)).len() == 0,
        item_text(Open::Message, search_item(part, id)).len() == 0,
        item_text(Open::Reasoning, search_item(part, id)).len() == 0,
{
    lemma_keys();
    lemma_item_keys();
    lemma_item_kinds();
    let b = blob_item_json(id, blob);
    assert(b.get("type"@) == Some(txt("reasoning"@)));
    assert(b.get("summary"@) == Some(JsonModel::List(seq![])));
    let none: Seq<JsonModel> = seq![];
    assert(item_texts(none) =~= seq![]);
    let c = call_item(part, id, call);
    assert(c.get("type"@) == Some(txt("function_call"@)));
    let w = search_item(part, id);
    assert(w.get("type"@) == Some(txt("web_search_call"@)));
}

proof fn lemma_item_keys()
    ensures
        "id"@ != "type"@,
        "id"@ != "summary"@,
        "id"@ != "encrypted_content"@,
        "id"@ != "role"@,
        "id"@ != "status"@,
        "id"@ != "content"@,
        "id"@ != "call_id"@,
        "id"@ != "name"@,
        "id"@ != "arguments"@,
        "id"@ != "action"@,
        "summary"@ != "encrypted_content"@,
{
    reveal_strlit("id");
    reveal_strlit("type");
    reveal_strlit("summary");
    reveal_strlit("encrypted_content");
    reveal_strlit("role");
    reveal_strlit("status");
    reveal_strlit("content");
    reveal_strlit("call_id");
    reveal_strlit("name");
    reveal_strlit("arguments");
    reveal_strlit("action");
    assert("id"@.len() == 2 && "type"@.len() == 4 && "summary"@.len() == 7);
    assert("encrypted_content"@.len() == 17 && "role"@.len() == 4 && "status"@.len() == 6);
    assert("content"@.len() == 7 && "call_id"@.len() == 7 && "name"@.len() == 4);
    assert("arguments"@.len() == 9 && "action"@.len() == 6);
}

proof fn lemma_item_kinds()
    ensures
        "message"@ != "reasoning"@,
        "message"@ != "function_call"@,
        "message"@ != "web_search_call"@,
        "reasoning"@ != "function_call"@,
        "reasoning"@ != "web_search_call"@,
{
    reveal_strlit("message");
    reveal_strlit("reasoning");
    reveal_strlit("function_call");
    reveal_strlit("web_search_call");
    assert("message"@.len() == 7 && "reasoning"@.len() == 9 && "function_call"@.len() == 13);
    assert("web_search_call"@.len() == 15);
}

/// The text of a closed item is the text that it was closed with.
proof fn lemma_closed_text(kind: Open, id: Seq<char>, text: Seq<char>)
    ensures
        item_text(kind, closed_item(kind, id, text)) == text,
        kind == Open::Message ==> item_text(Open::Reasoning, closed_item(kind, id, text)).len()
            == 0,
        kind == Open::Reasoning ==> item_text(Open::Message, closed_item(kind, id, text)).len()
            == 0,
        closed_item(kind, id, text).get("id"@) == Some(txt(id)),
        closed_item(kind, id, text).get("type"@) == Some(
            txt(
                match kind {
                    Open::Reasoning => "reasoning"@,
                    Open::Message => "message"@,
                },
            ),
        ),
{
    lemma_keys();
    lemma_item_keys();
    lemma_item_kinds();
    let item = closed_item(kind, id, text);
    let list = match kind {
        Open::Reasoning => item.get("summary"@)->0->List_0,
        Open::Message => item.get("content"@)->0->List_0,
    };
    assert(list.len() == 1);
    assert(list.last().get("text"@) == Some(txt(text)));
    assert(list.drop_last() =~= seq![]);
    assert(item_texts(list.drop_last()) =~= seq![]);
    assert(item_texts(list) =~= seq![text]);
    assert(joined(item_texts(list), "\n"@) == text);
}

/// Closing the open item keeps the shape.
proof fn lemma_shaped_close(base: TranslatorModel, s: Step, id: Seq<char>)
    requires
        shaped(base, s),
        s.state.room(3, 2),
    ensures
        shaped(base, s.close(id)),
        as_streamed(s.close(id), s),
        s.close(id).state.current is None,
        s.close(id).state.output_index <= s.state.output_index + 2,
        s.state.current == Some(Open::Reasoning) ==> s.close(id).state.output_index
            == s.state.output_index + 1,
{
    lemma_kinds_apart();
    if let Some(kind) = s.state.current {
        let text = s.state.buf;
        let item = closed_item(kind, s.state.item_id, text);
        let fields = item_fields(s.state.output_index, item);
        lemma_fields("response.output_item.done"@, item, s.state.output_index);
        lemma_closed_text(kind, s.state.item_id, text);
        let bare = Step {
            state: TranslatorModel { current: None, buf: seq![], ..s.state },
            events: s.events,
        };
        let said = match kind {
            Open::Reasoning => bare.emit(
                "response.reasoning_summary_text.done"@,
                s.state.delta_fields("summary_index"@).with("text"@, txt(text)),
            ),
            Open::Message => bare,
        };
        if kind == Open::Reasoning {
            let f = s.state.delta_fields("summary_index"@).with("text"@, txt(text));
            lemma_shaped_quiet(base, s, "response.reasoning_summary_text.done"@, f);
            let same = s.emit("response.reasoning_summary_text.done"@, f);
            assert(said.events == same.events);
            lemma_fit_same(base, marks(same.events), same.state, s.state);
            lemma_text_same(Open::Message, base, same.events, same.state, said.events, s.state);
            lemma_text_same(Open::Reasoning, base, same.events, same.state, said.events, s.state);
        }
        lemma_emit_shape(said, "response.output_item.done"@, fields);
        let ended = said.emit("response.output_item.done"@, fields).advance().count();
        let e = event_json("response.output_item.done"@, fields, (said.state.seq + 1) as u64);
        assert(mark_of(e) == (Mark { added: false, ..pending(s.state)[0] }));
        lemma_fit_done(base, marks(said.events), s.state, mark_of(e), ended.state);
        let other = if kind == Open::Message {
            Open::Reasoning
        } else {
            Open::Message
        };
        lemma_plus_nothing(streamed(kind, said.events), delta_of(kind, e));
        lemma_plus_nothing(streamed(other, said.events), delta_of(other, e));
        lemma_plus_nothing(finished(other, said.events), done_of(other, e));
        assert(done_of(kind, e) == text);
        lemma_text_done(kind, base, said.events, s.state, ended.events, ended.state);
        lemma_text_same(other, base, said.events, s.state, ended.events, ended.state);
        assert(as_streamed(ended, s));
        assert(shaped(base, ended));
        if kind == Open::Message && s.state.signed.len() > 0 {
            let clear = Step {
                state: TranslatorModel { signed: seq![], ..ended.state },
                events: ended.events,
            };
            let blob = BlobModel { covers_prev: 1, parts: signed_parts(s.state.signed) };
            lemma_textless(id, JsonModel::Null, seq![], blob);
            lemma_fit_same(base, marks(ended.events), ended.state, clear.state);
            lemma_text_same(
                Open::Message,
                base,
                ended.events,
                ended.state,
                clear.events,
                clear.state,
            );
            lemma_text_same(
                Open::Reasoning,
                base,
                ended.events,
                ended.state,
                clear.events,
                clear.state,
            );
            lemma_shaped_item(base, clear, blob_item_json(id, blob));
        }
    }
}

/// Opening an item keeps the shape.
proof fn lemma_shaped_open(
    base: TranslatorModel,
    s: Step,
    kind: Open,
    closing: Seq<char>,
    id: Seq<char>,
)
    requires
        shaped(base, s),
        s.state.room(5, 2),
    ensures
        shaped(base, s.open_item(kind, closing, id)),
        as_streamed(s.open_item(kind, closing, id), s),
        s.open_item(kind, closing, id).state.current == Some(kind),
        s.open_item(kind, closing, id).state.output_index <= s.state.output_index + 2,
{
    lemma_kinds_apart();
    lemma_item_keys();
    if s.state.current != Some(kind) {
        lemma_shaped_close(base, s, closing);
        let shut = s.close(closing);
        let item_id = match kind {
            Open::Reasoning => "rs_"@ + id,
            Open::Message => "msg_"@ + id,
        };
        let fresh = Step {
            state: TranslatorModel {
                current: Some(kind),
                item_id,
                buf: seq![],
                signed: seq![],
                ..shut.state
            },
            events: shut.events,
        };
        let item = match kind {
            Open::Reasoning => empty_object().with("type"@, txt("reasoning"@)).with(
                "id"@,
                txt(item_id),
            ).with("summary"@, JsonModel::List(seq![])),
            Open::Message => empty_object().with("type"@, txt("message"@)).with(
                "id"@,
                txt(item_id),
            ).with("role"@, txt("assistant"@)).with("status"@, txt("in_progress"@)).with(
                "content"@,
                JsonModel::List(seq![]),
            ),
        };
        lemma_keys();
        assert(item.get("id"@) == Some(txt(item_id)));
        let fields = item_fields(fresh.state.output_index, item);
        lemma_fields("response.output_item.added"@, item, fresh.state.output_index);
        lemma_emit_shape(fresh, "response.output_item.added"@, fields);
        let added = fresh.emit("response.output_item.added"@, fields);
        let e = event_json("response.output_item.added"@, fields, (fresh.state.seq + 1) as u64);
        lemma_emit_silent(fresh, "response.output_item.added"@, fields);
        assert(seq![mark_of(e)] =~= pending(added.state));
        lemma_fit_added(base, marks(shut.events), shut.state, mark_of(e), added.state);
        lemma_text_same(
            Open::Message,
            base,
            shut.events,
            shut.state,
            added.events,
            added.state,
        );
        lemma_text_same(
            Open::Reasoning,
            base,
            shut.events,
            shut.state,
            added.events,
            added.state,
        );
        assert(shaped(base, added));
        if kind == Open::Reasoning {
            let part = fresh.state.delta_fields("summary_index"@).with(
                "part"@,
                empty_object().with("type"@, txt("summary_text"@)).with("text"@, txt(""@)),
            );
            lemma_shaped_quiet(base, added, "response.reasoning_summary_part.added"@, part);
        }
    }
}

/// A text part keeps the shape, and streams its text.
proof fn lemma_shaped_text(
    base: TranslatorModel,
    s: Step,
    text: Seq<char>,
    kind: Open,
    sig: Option<Seq<char>>,
    ids: PartIdsModel,
)
    requires
        shaped(base, s),
        s.state.room(10, 4),
    ensures
        ({
            let out = s.text(text, kind, sig, ids);
            let other = if kind == Open::Message {
                Open::Reasoning
            } else {
                Open::Message
            };
            &&& shaped(base, out)
            &&& streamed(kind, out.events) == streamed(kind, s.events) + text
            &&& streamed(other, out.events) == streamed(other, s.events)
        }),
{
    lemma_kinds_apart();
    lemma_shaped_open(base, s, kind, ids.closing, ids.item);
    let opened = s.open_item(kind, ids.closing, ids.item);
    let grown = Step {
        state: TranslatorModel { buf: opened.state.buf + text, ..opened.state },
        events: opened.events,
    };
    let key = match kind {
        Open::Reasoning => "summary_index"@,
        Open::Message => "content_index"@,
    };
    let fields = grown.state.delta_fields(key).with("delta"@, txt(text));
    assert(fields.get("delta"@) == Some(txt(text)));
    lemma_emit_shape(grown, delta_kind(kind), fields);
    let said = grown.emit(delta_kind(kind), fields);
    let other = if kind == Open::Message {
        Open::Reasoning
    } else {
        Open::Message
    };
    let e = event_json(delta_kind(kind), fields, (grown.state.seq + 1) as u64);
    lemma_plus_nothing(streamed(other, opened.events), delta_of(other, e));
    lemma_plus_nothing(finished(kind, opened.events), done_of(kind, e));
    lemma_plus_nothing(finished(other, opened.events), done_of(other, e));
    assert(delta_of(kind, e) == text);
    lemma_fit_same(base, marks(opened.events), opened.state, said.state);
    lemma_text_more(kind, base, opened.events, opened.state, said.events, said.state, text);
    lemma_text_same(other, base, opened.events, opened.state, said.events, said.state);
    assert(shaped(base, said));
    match kind {
        Open::Reasoning => {
            if let Some(x) = sig {
                lemma_shaped_close(base, said, ids.closing);
                let blob = BlobModel { covers_prev: 0, parts: seq![signed_text(""@, x)] };
                lemma_textless(ids.blob, JsonModel::Null, seq![], blob);
                lemma_shaped_item(base, said.close(ids.closing), blob_item_json(ids.blob, blob));
            }
        },
        Open::Message => {
            let out = s.text(text, kind, sig, ids);
            lemma_fit_same(base, marks(said.events), said.state, out.state);
            lemma_text_same(kind, base, said.events, said.state, out.events, out.state);
            lemma_text_same(other, base, said.events, said.state, out.events, out.state);
        },
    }
}

/// A state without events is shaped.
proof fn lemma_shaped_start(t: TranslatorModel)
    ensures
        shaped(t, Step { state: t, events: seq![] }),
{
    reveal(marks_fit);
    reveal(text_fits);
    let none: Seq<JsonModel> = seq![];
    let m = marks(none);
    assert(pending(t) + m =~= pending(t));
    assert(pending(t).take(0) =~= seq![]);
    assert(pending(t).skip(0) =~= pending(t));
    let silent: Seq<char> = seq![];
    assert(held(Open::Message, t) + silent =~= silent + held(Open::Message, t));
    assert(held(Open::Reasoning, t) + silent =~= silent + held(Open::Reasoning, t));
}

/// One part: what it adds is done in turn or left open, its text is streamed, and
/// it does not end the stream.
pub proof fn law_part_shape(t: TranslatorModel, part: JsonModel, ids: PartIdsModel)
    requires
        t.room(10, 4),
    ensures
        ({
            let out = (Step { state: t, events: seq![] }).on_part(part, ids);
            &&& shaped(t, out)
            &&& streamed(Open::Message, out.events) == words(Open::Message, part)
            &&& streamed(Open::Reasoning, out.events) == words(Open::Reasoning, part)
        }),
{
    let s = Step { state: t, events: seq![] };
    lemma_shaped_start(t);
    let sig = part.text_at("thoughtSignature"@);
    let text = part.text_or("text"@, ""@);
    let b0 = BlobModel { covers_prev: 0, parts: seq![part] };
    let b1 = BlobModel { covers_prev: 1, parts: seq![part] };
    lemma_textless(ids.blob, part, ids.call, b0);
    lemma_textless(ids.blob, part, ids.call, b1);
    let blob0 = blob_item_json(ids.blob, b0);
    let blob1 = blob_item_json(ids.blob, b1);
    lemma_shaped_close(t, s, ids.closing);
    let shut = s.close(ids.closing);
    let none: Seq<char> = seq![];
    assert(streamed(Open::Message, s.events) == none && streamed(Open::Reasoning, s.events)
        == none);
    assert(none + text =~= text);
    if let Some(fc) = part.get("functionCall"@) {
        let item = call_item(fc, ids.item, ids.call);
        lemma_textless(ids.item, fc, ids.call, b1);
        lemma_shaped_item(t, shut, item);
        if sig is Some {
            lemma_shaped_item(t, shut.item_added_done(item).count(), blob1);
        }
    } else if let Some(tc) = part.get("toolCall"@) {
        let item = search_item(tc, ids.item);
        lemma_textless(ids.item, tc, ids.call, b1);
        lemma_shaped_item(t, shut, item);
        lemma_shaped_item(t, shut.item_added_done(item).count(), blob1);
    } else if part.get("toolResponse"@) is Some {
        lemma_shaped_item(t, shut, blob0);
    } else if text.len() == 0 {
        assert(text =~= none);
        if sig is Some {
            lemma_shaped_item(t, shut, blob0);
        }
    } else if part.get("thought"@) == Some(JsonModel::Bool(true)) {
        lemma_shaped_text(t, s, text, Open::Reasoning, sig, ids);
    } else {
        lemma_shaped_text(t, s, text, Open::Message, sig, ids);
    }
}

/// What the events of two lists say, the one list after the other.
pub proof fn lemma_marks_concat(a: Seq<JsonModel>, b: Seq<JsonModel>)
    ensures
        marks(a + b) == marks(a) + marks(b),
        streamed(Open::Message, a + b) == streamed(Open::Message, a) + streamed(Open::Message, b),
        streamed(Open::Reasoning, a + b) == streamed(Open::Reasoning, a) + streamed(
            Open::Reasoning,
            b,
        ),
        finished(Open::Message, a + b) == finished(Open::Message, a) + finished(Open::Message, b),
        finished(Open::Reasoning, a + b) == finished(Open::Reasoning, a) + finished(
            Open::Reasoning,
            b,
        ),
    decreases b.len(),
{
    if b.len() == 0 {
        assert(a + b =~= a);
        assert(marks(a) + marks(b) =~= marks(a));
        let none: Seq<char> = seq![];
        assert(streamed(Open::Message, a) + none =~= streamed(Open::Message, a));
        assert(streamed(Open::Reasoning, a) + none =~= streamed(Open::Reasoning, a));
        assert(finished(Open::Message, a) + none =~= finished(Open::Message, a));
        assert(finished(Open::Reasoning, a) + none =~= finished(Open::Reasoning, a));
    } else {
        let front = b.drop_last();
        let e = b.last();
        lemma_marks_concat(a, front);
        assert((a + b).drop_last() =~= a + front);
        assert((a + b).last() == e);
        assert(marks(a + b) =~= marks(a) + marks(b));
        assert(streamed(Open::Message, a + b) =~= streamed(Open::Message, a) + streamed(
            Open::Message,
            b,
        ));
        assert(streamed(Open::Reasoning, a + b) =~= streamed(Open::Reasoning, a) + streamed(
            Open::Reasoning,
            b,
        ));
        assert(finished(Open::Message, a + b) =~= finished(Open::Message, a) + finished(
            Open::Message,
            b,
        ));
        assert(finished(Open::Reasoning, a + b) =~= finished(Open::Reasoning, a) + finished(
            Open::Reasoning,
            b,
        ));
    }
}

proof fn lemma_fit_concat(
    base: TranslatorModel,
    a: Seq<Mark>,
    middle: TranslatorModel,
    b: Seq<Mark>,
    end: TranslatorModel,
)
    requires
        marks_fit(base, a, middle),
        marks_fit(middle, b, end),
    ensures
        marks_fit(base, a + b, end),
{
    reveal(marks_fit);
    let wa = pending(base) + a;
    let na = wa.len() - pending(middle).len();
    let wb = pending(middle) + b;
    let nb = wb.len() - pending(end).len();
    let whole = pending(base) + (a + b);
    let n = whole.len() - pending(end).len();
    assert(wa =~= wa.take(na) + wa.skip(na));
    assert(whole =~= wa.take(na) + wb);
    assert(n == na + nb);
    assert(whole.take(n) =~= wa.take(na) + wb.take(nb));
    lemma_in_turn_concat(base.output_index as int, wa.take(na), wb.take(nb));
    assert(whole.skip(n) =~= wb.skip(nb));
}

proof fn lemma_text_concat(
    kind: Open,
    base: TranslatorModel,
    a: Seq<JsonModel>,
    middle: TranslatorModel,
    b: Seq<JsonModel>,
    end: TranslatorModel,
)
    requires
        text_fits(kind, base, a, middle),
        text_fits(kind, middle, b, end),
    ensures
        text_fits(kind, base, a + b, end),
{
    reveal(text_fits);
    lemma_marks_concat(a, b);
    let left = held(kind, base) + streamed(kind, a);
    assert(held(kind, base) + (streamed(kind, a) + streamed(kind, b)) =~= left + streamed(kind, b));
    assert((finished(kind, a) + held(kind, middle)) + streamed(kind, b) =~= finished(kind, a) + (
    held(kind, middle) + streamed(kind, b)));
    assert(finished(kind, a) + (finished(kind, b) + held(kind, end)) =~= (finished(kind, a)
        + finished(kind, b)) + held(kind, end));
}

/// Steps that are shaped one after the other are shaped together.
proof fn lemma_shaped_concat(base: TranslatorModel, a: Step, b: Step)
    requires
        shaped(base, a),
        shaped(a.state, b),
    ensures
        shaped(base, Step { state: b.state, events: a.events + b.events }),
{
    let events = a.events + b.events;
    lemma_marks_concat(a.events, b.events);
    lemma_fit_concat(base, marks(a.events), a.state, marks(b.events), b.state);
    lemma_text_concat(Open::Message, base, a.events, a.state, b.events, b.state);
    lemma_text_concat(Open::Reasoning, base, a.events, a.state, b.events, b.state);
    assert forall|i: int| 0 <= i < events.len() implies !is_end(#[trigger] events[i]) by {
        if i < a.events.len() {
            assert(events[i] == a.events[i]);
        } else {
            assert(events[i] == b.events[i - a.events.len()]);
        }
    }
}

/// A run: its items are added and done in turn, its text is streamed, and it does
/// not end the stream.
pub proof fn law_run_shape(start: TranslatorModel, parts: Seq<JsonModel>, ids: Seq<PartIdsModel>)
    requires
        parts.len() == ids.len(),
        run_room(start, parts, ids),
    ensures
        shaped(start, run(start, parts, ids)),
        streamed(Open::Message, run(start, parts, ids).events) == all_words(Open::Message, parts),
        streamed(Open::Reasoning, run(start, parts, ids).events) == all_words(
            Open::Reasoning,
            parts,
        ),
    decreases parts.len(),
{
    if parts.len() == 0 {
        lemma_shaped_start(start);
    } else {
        let front = parts.drop_last();
        let fids = ids.drop_last();
        law_run_shape(start, front, fids);
        let before = run(start, front, fids);
        assert(run_room(start, front, fids));
        assert(before.state.room(10, 4));
        let now = taken(before.state, parts.last(), ids.last());
        reveal(taken);
        law_part_shape(before.state, parts.last(), ids.last());
        lemma_shaped_concat(start, before, now);
        lemma_marks_concat(before.events, now.events);
    }
}

/// The end of a stream: what is open is done, nothing more is streamed, and the
/// one event that ends the stream is the last.
proof fn lemma_finish_shape(t: TranslatorModel, usage: JsonModel, closing: Seq<char>)
    requires
        t.room(10, 4),
    ensures
        ({
            let out = (Step { state: t, events: seq![] }).finish(usage, closing);
            &&& out.events.len() > 0
            &&& shaped(t, Step { state: out.state, events: out.events.drop_last() })
            &&& out.state.current is None
            &&& is_end(out.events.last())
            &&& !is_added(out.events.last()) && !is_done(out.events.last())
            &&& delta_of(Open::Message, out.events.last()).len() == 0
            &&& delta_of(Open::Reasoning, out.events.last()).len() == 0
            &&& streamed(Open::Message, out.events.drop_last()).len() == 0
            &&& streamed(Open::Reasoning, out.events.drop_last()).len() == 0
        }),
{
    lemma_kinds_apart();
    let s = Step { state: t, events: seq![] };
    lemma_shaped_start(t);
    lemma_shaped_close(t, s, closing);
    let shut = s.close(closing);
    let fields = empty_object().with(
        "response"@,
        empty_object().with("id"@, txt(t.response_id)).with("object"@, txt("response"@)).with(
            "status"@,
            txt("completed"@),
        ).with("usage"@, usage_json(usage)),
    );
    let out = s.finish(usage, closing);
    lemma_event("response.completed"@, fields, (shut.state.seq + 1) as u64);
    assert(out.events.drop_last() =~= shut.events);
    let end = Step { state: out.state, events: shut.events };
    lemma_fit_same(t, marks(shut.events), shut.state, end.state);
    lemma_text_same(Open::Message, t, shut.events, shut.state, end.events, end.state);
    lemma_text_same(Open::Reasoning, t, shut.events, shut.state, end.events, end.state);
}

/// A whole stream, from a translator that has no item open on. Output items are
/// added and done strictly in turn; the items have the output indices one after
/// the other, and each is done under the index, the id and the type that it was
/// added under; and the one event that ends the stream is the last.
pub proof fn law_items_in_turn(
    start: TranslatorModel,
    parts: Seq<JsonModel>,
    ids: Seq<PartIdsModel>,
    usage: JsonModel,
    closing: Seq<char>,
)
    requires
        start.current is None,
        parts.len() == ids.len(),
        run_room(start, parts, ids),
    ensures
        ({
            let told = run(start, parts, ids);
            let ended = (Step { state: told.state, events: seq![] }).finish(usage, closing);
            let events = told.events + ended.events;
            &&& in_turn(start.output_index as int, marks(events))
            &&& marks(events).len() % 2 == 0
            &&& events.len() > 0
            &&& goes_on(events.drop_last())
            &&& is_end(events.last())
        }),
{
    let told = run(start, parts, ids);
    let ended = (Step { state: told.state, events: seq![] }).finish(usage, closing);
    let events = told.events + ended.events;
    law_run_shape(start, parts, ids);
    lemma_finish_shape(told.state, usage, closing);
    let close = Step { state: ended.state, events: ended.events.drop_last() };
    lemma_shaped_concat(start, told, close);
    assert(events.drop_last() =~= told.events + close.events);
    assert(events.last() == ended.events.last());
    reveal(marks_fit);
    let m = marks(events);
    assert(m == marks(events.drop_last()));
    assert(pending(start) + m =~= m);
    assert(m.take(m.len() as int) =~= m);
}

/// No text is lost, repeated or reordered. Over a whole stream the text of the
/// messages that are done is the text that is streamed for messages, which is the
/// text of the parts that are no thoughts; and so it is for thoughts.
pub proof fn law_text_is_kept(
    kind: Open,
    start: TranslatorModel,
    parts: Seq<JsonModel>,
    ids: Seq<PartIdsModel>,
    usage: JsonModel,
    closing: Seq<char>,
)
    requires
        start.current is None,
        parts.len() == ids.len(),
        run_room(start, parts, ids),
    ensures
        ({
            let told = run(start, parts, ids);
            let ended = (Step { state: told.state, events: seq![] }).finish(usage, closing);
            let events = told.events + ended.events;
            &&& finished(kind, events) == all_words(kind, parts)
            &&& streamed(kind, events) == all_words(kind, parts)
        }),
{
    let told = run(start, parts, ids);
    let ended = (Step { state: told.state, events: seq![] }).finish(usage, closing);
    let events = told.events + ended.events;
    law_run_shape(start, parts, ids);
    lemma_finish_shape(told.state, usage, closing);
    let close = Step { state: ended.state, events: ended.events.drop_last() };
    lemma_shaped_concat(start, told, close);
    lemma_marks_concat(told.events, close.events);
    assert(events.drop_last() =~= told.events + close.events);
    assert(events.last() == ended.events.last());
    let none: Seq<char> = seq![];
    assert(delta_of(kind, events.last()) =~= none);
    assert(done_of(kind, events.last()) =~= none);
    assert(streamed(kind, close.events) =~= none);
    assert(streamed(kind, events) =~= streamed(kind, told.events));
    assert(finished(kind, events) =~= finished(kind, events.drop_last()));
    reveal(text_fits);
    assert(held(kind, start) + streamed(kind, events.drop_last()) =~= streamed(
        kind,
        events.drop_last(),
    ));
    assert(finished(kind, events.drop_last()) + held(kind, ended.state) =~= finished(
        kind,
        events.drop_last(),
    ));
    assert(streamed(kind, events.drop_last()) =~= streamed(kind, told.events));
}

}
