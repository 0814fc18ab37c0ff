//! The turns of a Gemini request: built from the visible items of a Responses
//! request. The parts of a replay blob replace what the items that it covers
//! produced.

use vstd::prelude::*;

use crate::blob::{BlobModel, ReplayBlob};
use crate::json::{group_json_models, models, Json, JsonModel};

verus! {

/// Who speaks in a turn.
#[derive(Debug, Clone, Copy, PartialEq, Eq, Structural)]
pub enum Role {
    User,
    Model,
}

/// A turn: neighbouring parts of one role.
pub struct Turn {
    pub role: Role,
    pub parts: Vec<Json>,
}

/// The model of a turn.
#[verifier::ext_equal]
pub struct TurnModel {
    pub role: Role,
    pub parts: Seq<JsonModel>,
}

impl View for Turn {
    type V = TurnModel;

    open spec fn view(&self) -> TurnModel {
        TurnModel { role: self.role, parts: models(self.parts@) }
    }
}

/// The models of a list of turns.
pub open spec fn turn_models(turns: Seq<Turn>) -> Seq<TurnModel> {
    turns.map_values(|t: Turn| t@)
}

/// A part, who says it, and whether a visible model-side item produced it.
pub struct Entry {
    pub role: Role,
    pub part: Json,
    pub shown: bool,
}

/// The model of an entry.
#[verifier::ext_equal]
pub struct EntryModel {
    pub role: Role,
    pub part: JsonModel,
    pub shown: bool,
}

impl View for Entry {
    type V = EntryModel;

    open spec fn view(&self) -> EntryModel {
        EntryModel { role: self.role, part: self.part@, shown: self.shown }
    }
}

/// The models of a list of entries.
pub open spec fn entry_models(entries: Seq<Entry>) -> Seq<EntryModel> {
    entries.map_values(|e: Entry| e@)
}

/// Accumulates parts, and keeps track of which part each visible model-side item
/// produced, so that a replay blob can replace it. Neighbours of the same role
/// make one turn.
pub struct Contents {
    pub entries: Vec<Entry>,
    /// For each visible model-side item, whether it produced a part.
    pub visible: Vec<bool>,
}

/// The model of what has been accumulated.
#[verifier::ext_equal]
pub struct ContentsModel {
    pub entries: Seq<EntryModel>,
    pub visible: Seq<bool>,
}

impl View for Contents {
    type V = ContentsModel;

    open spec fn view(&self) -> ContentsModel {
        ContentsModel { entries: entry_models(self.entries@), visible: self.visible@ }
    }
}

/// The turns with one more part: in the last turn where it has the role, else in
/// a turn of its own.
pub open spec fn pushed(turns: Seq<TurnModel>, role: Role, part: JsonModel) -> Seq<TurnModel> {
    if turns.len() > 0 && turns.last().role == role {
        turns.drop_last().push(TurnModel { role, parts: turns.last().parts.push(part) })
    } else {
        turns.push(TurnModel { role, parts: seq![part] })
    }
}

/// The turns with more parts of one role, in order.
pub open spec fn pushed_all(
    turns: Seq<TurnModel>,
    role: Role,
    parts: Seq<JsonModel>,
) -> Seq<TurnModel>
    decreases parts.len(),
{
    if parts.len() == 0 {
        turns
    } else {
        pushed(pushed_all(turns, role, parts.drop_last()), role, parts.last())
    }
}

/// What is said: who says which part.
pub open spec fn said(entries: Seq<EntryModel>) -> Seq<(Role, JsonModel)> {
    entries.map_values(|e: EntryModel| (e.role, e.part))
}

/// Parts that the model says.
pub open spec fn by_model(parts: Seq<JsonModel>) -> Seq<(Role, JsonModel)> {
    parts.map_values(|p: JsonModel| (Role::Model, p))
}

/// What is said, as turns.
pub open spec fn grouped(said: Seq<(Role, JsonModel)>) -> Seq<TurnModel>
    decreases said.len(),
{
    if said.len() == 0 {
        seq![]
    } else {
        pushed(grouped(said.drop_last()), said.last().0, said.last().1)
    }
}

/// The number of parts that the last `n` visible items produced.
pub open spec fn produced(visible: Seq<bool>, n: nat) -> nat
    decreases n,
{
    if n == 0 || visible.len() == 0 {
        0
    } else {
        (if visible.last() {
            1nat
        } else {
            0nat
        }) + produced(visible.drop_last(), (n - 1) as nat)
    }
}

/// The visible items but for the last `n`.
pub open spec fn uncovered(visible: Seq<bool>, n: nat) -> Seq<bool> {
    if n >= visible.len() {
        seq![]
    } else {
        visible.take(visible.len() - n)
    }
}

/// The entries without the last `n` of those that a visible item produced,
/// wherever they stand.
pub open spec fn cut(entries: Seq<EntryModel>, n: nat) -> Seq<EntryModel>
    decreases entries.len(),
{
    if n == 0 || entries.len() == 0 {
        entries
    } else if entries.last().shown {
        cut(entries.drop_last(), (n - 1) as nat)
    } else {
        cut(entries.drop_last(), n).push(entries.last())
    }
}

/// The entries of a blob's parts.
pub open spec fn raw_entries(parts: Seq<JsonModel>) -> Seq<EntryModel> {
    parts.map_values(|p: JsonModel| EntryModel { role: Role::Model, part: p, shown: false })
}

impl ContentsModel {
    /// Nothing accumulated.
    pub open spec fn empty() -> ContentsModel {
        ContentsModel { entries: seq![], visible: seq![] }
    }

    /// The turns: neighbouring parts of one role.
    pub open spec fn turns(self) -> Seq<TurnModel> {
        grouped(said(self.entries))
    }

    /// The entries that visible items produced are those of the visible items that
    /// produced one.
    pub open spec fn wf(self) -> bool {
        marked(self.entries, true).len() == produced(self.visible, self.visible.len())
    }

    /// One more part.
    pub open spec fn push(self, role: Role, part: JsonModel) -> ContentsModel {
        ContentsModel {
            entries: self.entries.push(EntryModel { role, part, shown: false }),
            visible: self.visible,
        }
    }

    /// One more visible model-side item, of one part.
    pub open spec fn push_visible_model(self, part: JsonModel) -> ContentsModel {
        ContentsModel {
            entries: self.entries.push(EntryModel { role: Role::Model, part, shown: true }),
            visible: self.visible.push(true),
        }
    }

    /// One more visible model-side item that produces no part.
    pub open spec fn push_visible_empty(self) -> ContentsModel {
        ContentsModel { entries: self.entries, visible: self.visible.push(false) }
    }

    /// What the visible items that the blob covers produced is taken out, and the
    /// blob's parts follow at the end. Where a user's part stands between the items
    /// and the blob, the blob's parts come after it.
    pub open spec fn apply_blob(self, blob: BlobModel) -> ContentsModel {
        ContentsModel {
            entries: cut(self.entries, produced(self.visible, blob.covers_prev)) + raw_entries(
                blob.parts,
            ),
            visible: uncovered(self.visible, blob.covers_prev),
        }
    }
}

/// Appending an entry appends its model.
broadcast proof fn lemma_entry_models_push(entries: Seq<Entry>, entry: Entry)
    ensures
        #[trigger] entry_models(entries.push(entry)) == entry_models(entries).push(entry@),
{
    assert(entry_models(entries.push(entry)) =~= entry_models(entries).push(entry@));
}

/// Appending a turn appends its model.
broadcast proof fn lemma_turn_models_push(turns: Seq<Turn>, turn: Turn)
    ensures
        #[trigger] turn_models(turns.push(turn)) == turn_models(turns).push(turn@),
{
    assert(turn_models(turns.push(turn)) =~= turn_models(turns).push(turn@));
}

/// Adds a part to turns: to the last one where it has the role, else in one of its
/// own.
fn push_part(turns: &mut Vec<Turn>, role: Role, part: Json)
    ensures
        turn_models(final(turns)@) == pushed(turn_models(old(turns)@), role, part@),
{
    broadcast use {lemma_turn_models_push, group_json_models};

    let ghost before = turns@;
    if let Some(mut last) = turns.pop() {
        assert(turns@ == before.drop_last());
        assert(turn_models(before.drop_last()) =~= turn_models(before).drop_last());
        assert(turn_models(before).last() == last@);
        if last.role == role {
            last.parts.push(part);
            turns.push(last);
            return ;
        }
        turns.push(last);
        assert(turns@ =~= before);
    }
    let mut parts: Vec<Json> = Vec::new();
    parts.push(part);
    assert(models(parts@) =~= seq![part@]);
    turns.push(Turn { role, parts });
}

impl Contents {
    /// Nothing accumulated.
    pub fn new() -> (r: Contents)
        ensures
            r@ == ContentsModel::empty(),
    {
        let r = Contents { entries: Vec::new(), visible: Vec::new() };
        assert(r@.entries =~= seq![]);
        r
    }

    /// Adds a part.
    pub fn push(&mut self, role: Role, part: Json)
        ensures
            final(self)@ == old(self)@.push(role, part@),
    {
        broadcast use lemma_entry_models_push;

        self.entries.push(Entry { role, part, shown: false });
    }

    /// Adds a visible model-side item of one part.
    pub fn push_visible_model(&mut self, part: Json)
        ensures
            final(self)@ == old(self)@.push_visible_model(part@),
    {
        broadcast use lemma_entry_models_push;

        self.entries.push(Entry { role: Role::Model, part, shown: true });
        self.visible.push(true);
    }

    /// Adds a visible model-side item that produces no part.
    pub fn push_visible_empty(&mut self)
        ensures
            final(self)@ == old(self)@.push_visible_empty(),
    {
        self.visible.push(false);
    }

    /// Takes out the last `n` parts that visible items produced, wherever they stand.
    fn cut(&mut self, n: usize)
        ensures
            final(self)@ == (ContentsModel {
                entries: cut(old(self)@.entries, n as nat),
                visible: old(self)@.visible,
            }),
    {
        broadcast use lemma_entry_models_push;

        let mut left: usize = n;
        let mut kept: Vec<Entry> = Vec::new();
        let ghost whole = cut(self@.entries, n as nat);
        assert(entry_models(kept@).reverse() =~= seq![]);
        assert(whole + entry_models(kept@).reverse() =~= whole);
        while left > 0 && self.entries.len() > 0
            invariant
                self.visible@ == old(self).visible@,
                whole == cut(entry_models(self.entries@), left as nat) + entry_models(
                    kept@,
                ).reverse(),
            decreases self.entries@.len(),
        {
            let ghost now = self.entries@;
            let ghost had = kept@;
            if let Some(entry) = self.entries.pop() {
                assert(self.entries@ == now.drop_last());
                assert(entry_models(self.entries@) =~= entry_models(now).drop_last());
                assert(entry_models(now).last() == entry@);
                if entry.shown {
                    left = left - 1;
                } else {
                    let ghost e = entry@;
                    kept.push(entry);
                    assert(entry_models(kept@).reverse() =~= seq![e] + entry_models(had).reverse());
                    assert(cut(entry_models(now), left as nat) + entry_models(had).reverse()
                        =~= cut(entry_models(self.entries@), left as nat) + entry_models(
                        kept@,
                    ).reverse());
                }
            }
        }
        assert(cut(entry_models(self.entries@), left as nat) == entry_models(self.entries@));
        while kept.len() > 0
            invariant
                self.visible@ == old(self).visible@,
                whole == entry_models(self.entries@) + entry_models(kept@).reverse(),
            decreases kept@.len(),
        {
            let ghost now = kept@;
            let ghost had = self.entries@;
            if let Some(entry) = kept.pop() {
                assert(kept@ == now.drop_last());
                self.entries.push(entry);
                assert(entry_models(had) + entry_models(now).reverse() =~= entry_models(
                    self.entries@,
                ) + entry_models(kept@).reverse());
            }
        }
        assert(whole =~= entry_models(self.entries@));
    }

    /// Takes out what the visible items that the blob covers produced, and adds the
    /// blob's parts at the end.
    pub fn apply_blob(&mut self, blob: ReplayBlob)
        ensures
            final(self)@ == old(self)@.apply_blob(blob@),
    {
        broadcast use {lemma_entry_models_push, group_json_models};

        let ghost start = self@;
        let mut count: usize = 0;
        let shown: usize = self.visible.len();
        let mut left: usize = blob.covers_prev;
        let ghost visible = self.visible@;
        while left > 0 && self.visible.len() > 0
            invariant
                visible == start.visible,
                self.entries@ == old(self).entries@,
                left <= blob.covers_prev,
                self.visible@.len() <= visible.len(),
                self.visible@ == visible.take(self.visible@.len() as int),
                blob.covers_prev - left == visible.len() - self.visible@.len(),
                count <= visible.len() - self.visible@.len(),
                visible.len() == shown,
                count + produced(self.visible@, left as nat) == produced(
                    visible,
                    blob.covers_prev as nat,
                ),
            decreases left,
        {
            let ghost now = self.visible@;
            if let Some(one) = self.visible.pop() {
                if one {
                    count = count + 1;
                }
            }
            assert(self.visible@ == now.drop_last());
            left = left - 1;
        }
        assert(self.visible@ =~= uncovered(visible, blob.covers_prev as nat));
        self.cut(count);
        let ghost kept = self@.entries;
        let ghost raw = raw_entries(models(blob.parts@));
        let mut i: usize = 0;
        let total: usize = blob.parts.len();
        assert(kept + raw.take(0) =~= kept);
        while i < total
            invariant
                total == blob.parts@.len(),
                i <= total,
                raw == raw_entries(models(blob.parts@)),
                self.visible@ == uncovered(visible, blob.covers_prev as nat),
                entry_models(self.entries@) == kept + raw.take(i as int),
            decreases total - i,
        {
            self.push(Role::Model, blob.parts[i].copy());
            assert(raw[i as int] == (EntryModel {
                role: Role::Model,
                part: blob.parts@[i as int]@,
                shown: false,
            }));
            assert(kept + raw.take(i + 1) =~= (kept + raw.take(i as int)).push(raw[i as int]));
            i = i + 1;
        }
        assert(raw.take(total as int) =~= raw);
    }

    /// The turns: neighbouring parts of one role.
    pub fn turns(&self) -> (r: Vec<Turn>)
        ensures
            turn_models(r@) == self@.turns(),
    {
        let mut out: Vec<Turn> = Vec::new();
        let n: usize = self.entries.len();
        let mut i: usize = 0;
        let ghost all = said(self@.entries);
        assert(turn_models(out@) =~= grouped(all.take(0)));
        while i < n
            invariant
                n == self.entries@.len(),
                i <= n,
                all == said(self@.entries),
                turn_models(out@) == grouped(all.take(i as int)),
            decreases n - i,
        {
            let e = &self.entries[i];
            assert(all.take(i + 1).drop_last() =~= all.take(i as int));
            assert(all.take(i + 1).last() == (e.role, e.part@));
            push_part(&mut out, e.role, e.part.copy());
            i = i + 1;
        }
        assert(all.take(n as int) =~= all);
        out
    }
}

/// Whether each turn has a part and no two neighbours have the same role.
pub open spec fn tidy(turns: Seq<TurnModel>) -> bool {
    &&& forall|i: int| 0 <= i < turns.len() ==> (#[trigger] turns[i]).parts.len() > 0
    &&& alternate(turns)
}

/// Whether no two neighbouring turns have the same role.
pub open spec fn alternate(turns: Seq<TurnModel>) -> bool {
    forall|i: int, j: int|
        0 <= i && j == i + 1 && j < turns.len() ==> (#[trigger] turns[i]).role != (
        #[trigger] turns[j]).role
}

/// Whatever is said, each turn has a part and neighbouring turns have different
/// roles.
pub proof fn law_turns_are_tidy(said: Seq<(Role, JsonModel)>)
    ensures
        tidy(grouped(said)),
    decreases said.len(),
{
    if said.len() > 0 {
        let turns = grouped(said.drop_last());
        law_turns_are_tidy(said.drop_last());
        let out = grouped(said);
        assert forall|i: int| 0 <= i < out.len() implies (#[trigger] out[i]).parts.len() > 0 by {
            if i < turns.len() {
                assert(turns[i].parts.len() > 0);
            }
        }
        assert forall|i: int, j: int| 0 <= i && j == i + 1 && j < out.len() implies (
        #[trigger] out[i]).role != (#[trigger] out[j]).role by {
            if j < turns.len() {
                assert(turns[i].role != turns[j].role);
            }
        }
    }
}

/// What the model says next goes on in its turn, or in a new one.
pub proof fn lemma_grouped_by_model(before: Seq<(Role, JsonModel)>, parts: Seq<JsonModel>)
    ensures
        grouped(before + by_model(parts)) == pushed_all(grouped(before), Role::Model, parts),
    decreases parts.len(),
{
    if parts.len() == 0 {
        assert(before + by_model(parts) =~= before);
    } else {
        lemma_grouped_by_model(before, parts.drop_last());
        let whole = before + by_model(parts);
        assert(whole.drop_last() =~= before + by_model(parts.drop_last()));
        assert(whole.last() == (Role::Model, parts.last()));
    }
}

/// What the model says at first is one turn.
pub proof fn lemma_one_turn(parts: Seq<JsonModel>)
    requires
        parts.len() > 0,
    ensures
        pushed_all(seq![], Role::Model, parts) == seq![TurnModel { role: Role::Model, parts }],
    decreases parts.len(),
{
    let front = parts.drop_last();
    let none: Seq<TurnModel> = seq![];
    if front.len() == 0 {
        assert(pushed_all(none, Role::Model, front) == none);
        assert(parts =~= seq![parts.last()]);
    } else {
        lemma_one_turn(front);
        let one = pushed_all(none, Role::Model, front);
        assert(one.drop_last() =~= none);
        assert(front.push(parts.last()) =~= parts);
        assert(none.push(TurnModel { role: Role::Model, parts }) =~= seq![
            TurnModel { role: Role::Model, parts },
        ]);
    }
}

/// A visible model-side item: one that produces a part, or one that does not.
pub open spec fn push_visible(c: ContentsModel, part: Option<JsonModel>) -> ContentsModel {
    match part {
        Some(p) => c.push_visible_model(p),
        None => c.push_visible_empty(),
    }
}

/// Visible model-side items, one after the other.
pub open spec fn push_visibles(c: ContentsModel, items: Seq<Option<JsonModel>>) -> ContentsModel
    decreases items.len(),
{
    if items.len() == 0 {
        c
    } else {
        push_visible(push_visibles(c, items.drop_last()), items.last())
    }
}

proof fn lemma_push_visibles(c: ContentsModel, items: Seq<Option<JsonModel>>)
    ensures
        push_visibles(c, items).visible.len() == c.visible.len() + items.len(),
        uncovered(push_visibles(c, items).visible, items.len()) == c.visible,
        cut(
            push_visibles(c, items).entries,
            produced(push_visibles(c, items).visible, items.len()),
        ) == c.entries,
    decreases items.len(),
{
    let all = push_visibles(c, items);
    if items.len() > 0 {
        let front = items.drop_last();
        lemma_push_visibles(c, front);
        let before = push_visibles(c, front);
        assert(all.visible.drop_last() =~= before.visible);
        assert(c.visible =~= before.visible.take(c.visible.len() as int)) by {
            if front.len() < before.visible.len() {
                assert(uncovered(before.visible, front.len()) == before.visible.take(
                    before.visible.len() - front.len(),
                ));
            }
        }
        assert(uncovered(all.visible, items.len()) =~= c.visible) by {
            if items.len() < all.visible.len() {
                assert(all.visible.take(all.visible.len() - items.len())
                    =~= before.visible.take(c.visible.len() as int));
            } else {
                assert(c.visible =~= seq![]);
            }
        }
        if items.last() is Some {
            assert(all.entries.drop_last() =~= before.entries);
        }
    } else {
        assert(uncovered(all.visible, 0) =~= c.visible);
    }
}

/// A replay blob that follows the visible items it covers leaves what was before
/// them, and then its own parts, as though the items had never been there.
pub proof fn law_blob_replaces(
    c: ContentsModel,
    items: Seq<Option<JsonModel>>,
    parts: Seq<JsonModel>,
)
    ensures
        push_visibles(c, items).apply_blob(BlobModel { covers_prev: items.len(), parts })
            == (ContentsModel { entries: c.entries + raw_entries(parts), visible: c.visible }),
{
    lemma_push_visibles(c, items);
}

/// The entries that a visible item produced, or those that none did, in order.
pub open spec fn marked(entries: Seq<EntryModel>, shown: bool) -> Seq<EntryModel>
    decreases entries.len(),
{
    if entries.len() == 0 {
        seq![]
    } else if entries.last().shown == shown {
        marked(entries.drop_last(), shown).push(entries.last())
    } else {
        marked(entries.drop_last(), shown)
    }
}

/// What is taken out for a blob are exactly the last parts that visible items
/// produced. Every other part stays: raw parts of earlier blobs, the user's parts,
/// and the parts of visible items before those.
pub proof fn law_cut_is_exact(entries: Seq<EntryModel>, n: nat)
    ensures
        marked(cut(entries, n), false) == marked(entries, false),
        marked(cut(entries, n), true) == marked(entries, true).take(
            if n >= marked(entries, true).len() {
                0
            } else {
                marked(entries, true).len() - n
            },
        ),
    decreases entries.len(),
{
    let all = marked(entries, true);
    if n == 0 || entries.len() == 0 {
        assert(all.take(all.len() as int) =~= all);
    } else {
        let front = entries.drop_last();
        if entries.last().shown {
            law_cut_is_exact(front, (n - 1) as nat);
            let before = marked(front, true);
            let keep = if n >= all.len() {
                0
            } else {
                all.len() - n
            };
            assert(all.take(keep) =~= before.take(keep));
        } else {
            law_cut_is_exact(front, n);
            let out = cut(entries, n);
            assert(out.drop_last() =~= cut(front, n));
        }
    }
}

/// A blob finds the part of the item that it covers, whatever was said since: the
/// part goes, and the rest stays.
pub proof fn law_blob_finds_its_part(
    c: ContentsModel,
    part: JsonModel,
    since: Seq<EntryModel>,
    parts: Seq<JsonModel>,
)
    requires
        forall|i: int| 0 <= i < since.len() ==> !(#[trigger] since[i]).shown,
    ensures
        ({
            let shown = c.push_visible_model(part);
            let later = ContentsModel { entries: shown.entries + since, visible: shown.visible };
            later.apply_blob(BlobModel { covers_prev: 1, parts }) == (ContentsModel {
                entries: c.entries + since + raw_entries(parts),
                visible: c.visible,
            })
        }),
{
    let shown = c.push_visible_model(part);
    assert(shown.visible.drop_last() =~= c.visible);
    assert(produced(c.visible, 0) == 0);
    assert(produced(shown.visible, 1) == 1);
    assert(uncovered(shown.visible, 1) =~= c.visible);
    lemma_cut_past(c.entries, shown.entries.last(), since);
    assert(shown.entries =~= c.entries.push(shown.entries.last()));
}

proof fn lemma_cut_past(before: Seq<EntryModel>, entry: EntryModel, since: Seq<EntryModel>)
    requires
        entry.shown,
        forall|i: int| 0 <= i < since.len() ==> !(#[trigger] since[i]).shown,
    ensures
        cut(before.push(entry) + since, 1) == before + since,
    decreases since.len(),
{
    let whole = before.push(entry) + since;
    if since.len() == 0 {
        assert(whole =~= before.push(entry));
        assert(whole.drop_last() =~= before);
        assert(cut(before, 0) == before);
        assert(before + since =~= before);
    } else {
        let front = since.drop_last();
        assert forall|i: int| 0 <= i < front.len() implies !(#[trigger] front[i]).shown by {
            assert(front[i] == since[i]);
        }
        lemma_cut_past(before, entry, front);
        assert(whole.drop_last() =~= before.push(entry) + front);
        assert(whole.last() == since[since.len() - 1]);
        assert((before + front).push(since.last()) =~= before + since);
    }
}

proof fn lemma_marked_raw(entries: Seq<EntryModel>, parts: Seq<JsonModel>)
    ensures
        marked(entries + raw_entries(parts), true) == marked(entries, true),
    decreases parts.len(),
{
    if parts.len() == 0 {
        assert(entries + raw_entries(parts) =~= entries);
    } else {
        lemma_marked_raw(entries, parts.drop_last());
        assert((entries + raw_entries(parts)).drop_last() =~= entries + raw_entries(
            parts.drop_last(),
        ));
    }
}

proof fn lemma_produced_split(visible: Seq<bool>, n: nat)
    ensures
        produced(visible, visible.len()) == produced(visible, n) + produced(
            uncovered(visible, n),
            uncovered(visible, n).len(),
        ),
    decreases visible.len(),
{
    if n == 0 {
        assert(uncovered(visible, 0) =~= visible);
    } else if visible.len() > 0 {
        lemma_produced_split(visible.drop_last(), (n - 1) as nat);
        if n < visible.len() {
            assert(uncovered(visible, n) =~= uncovered(visible.drop_last(), (n - 1) as nat));
        }
    }
}

/// The parts that are kept track of are always those of the visible items that
/// produced one, whatever is added.
pub proof fn law_marks_stay_right(
    c: ContentsModel,
    role: Role,
    part: JsonModel,
    blob: BlobModel,
)
    requires
        c.wf(),
    ensures
        ContentsModel::empty().wf(),
        c.push(role, part).wf(),
        c.push_visible_model(part).wf(),
        c.push_visible_empty().wf(),
        c.apply_blob(blob).wf(),
{
    let plain = c.push(role, part);
    assert(plain.entries.drop_last() =~= c.entries);
    let shown = c.push_visible_model(part);
    assert(shown.entries.drop_last() =~= c.entries);
    assert(shown.visible.drop_last() =~= c.visible);
    let silent = c.push_visible_empty();
    assert(silent.visible.drop_last() =~= c.visible);
    let n = produced(c.visible, blob.covers_prev);
    law_cut_is_exact(c.entries, n);
    lemma_marked_raw(cut(c.entries, n), blob.parts);
    lemma_produced_split(c.visible, blob.covers_prev);
}

/// Who says which part, turn by turn.
pub open spec fn flattened(turns: Seq<TurnModel>) -> Seq<(Role, JsonModel)>
    decreases turns.len(),
{
    if turns.len() == 0 {
        seq![]
    } else {
        flattened(turns.drop_last()) + turns.last().parts.map_values(
            |p: JsonModel| (turns.last().role, p),
        )
    }
}

/// Grouping loses, changes and reorders nothing: turn by turn and part by part, the
/// turns say what was said.
pub proof fn law_turns_keep_parts(said: Seq<(Role, JsonModel)>)
    ensures
        flattened(grouped(said)) == said,
    decreases said.len(),
{
    if said.len() == 0 {
        assert(grouped(said) =~= seq![]);
        assert(flattened(grouped(said)) =~= said);
    } else {
        let front = said.drop_last();
        law_turns_keep_parts(front);
        let (role, part) = said.last();
        let turns = grouped(front);
        let out = grouped(said);
        if turns.len() > 0 && turns.last().role == role {
            assert(out.drop_last() =~= turns.drop_last());
            assert(out.last().parts.map_values(|p: JsonModel| (role, p)) =~= turns.last().parts.map_values(
                |p: JsonModel| (role, p),
            ).push((role, part)));
            assert(flattened(out) =~= flattened(turns).push((role, part)));
        } else {
            assert(out.drop_last() =~= turns);
            assert(out.last().parts.map_values(|p: JsonModel| (role, p)) =~= seq![(role, part)]);
            assert(flattened(out) =~= flattened(turns).push((role, part)));
        }
        assert(said =~= front.push((role, part)));
    }
}

/// What is added is the part that was given, under its role, after all that was
/// there; only a visible item is remembered.
pub proof fn law_parts_are_added(c: ContentsModel, role: Role, part: JsonModel)
    ensures
        said(c.push(role, part).entries) == said(c.entries).push((role, part)),
        c.push(role, part).visible == c.visible,
        said(c.push_visible_model(part).entries) == said(c.entries).push((Role::Model, part)),
        c.push_visible_model(part).visible == c.visible.push(true),
        c.push_visible_empty().entries == c.entries,
        c.push_visible_empty().visible == c.visible.push(false),
        ContentsModel::empty().turns().len() == 0,
{
    assert(said(c.push(role, part).entries) =~= said(c.entries).push((role, part)));
    assert(said(c.push_visible_model(part).entries) =~= said(c.entries).push((Role::Model, part)));
}

proof fn lemma_cut_keeps(entries: Seq<EntryModel>, n: nat, e: EntryModel)
    requires
        entries.contains(e),
        !e.shown,
    ensures
        cut(entries, n).contains(e),
    decreases entries.len(),
{
    if n > 0 && entries.len() > 0 {
        let i = choose|i: int| 0 <= i < entries.len() && entries[i] == e;
        let front = entries.drop_last();
        if i < front.len() {
            assert(front[i] == e);
        }
        if entries.last().shown {
            lemma_cut_keeps(front, (n - 1) as nat, e);
        } else {
            let out = cut(entries, n);
            if i == front.len() {
                assert(out[out.len() - 1] == e);
            } else {
                lemma_cut_keeps(front, n, e);
                let rest = cut(front, n);
                let j = choose|j: int| 0 <= j < rest.len() && rest[j] == e;
                assert(out[j] == e);
            }
        }
    }
}

/// A blob takes out no part but those that visible items produced.
pub proof fn lemma_plain_entry_stays(c: ContentsModel, blob: BlobModel, e: EntryModel)
    requires
        c.entries.contains(e),
        !e.shown,
    ensures
        c.apply_blob(blob).entries.contains(e),
{
    let n = produced(c.visible, blob.covers_prev);
    lemma_cut_keeps(c.entries, n, e);
    let rest = cut(c.entries, n);
    let i = choose|i: int| 0 <= i < rest.len() && rest[i] == e;
    assert(c.apply_blob(blob).entries[i] == e);
}

/// A blob takes out the parts of as many visible items as it covers, and no other
/// part: where it covers none, it only adds its parts; and where it covers one more,
/// the last visible item is gone, with its part where it had one.
pub proof fn law_blob_covers(c: ContentsModel, part: JsonModel, n: nat, parts: Seq<JsonModel>)
    ensures
        said(c.apply_blob(BlobModel { covers_prev: 0, parts }).entries) == said(c.entries)
            + by_model(parts),
        c.apply_blob(BlobModel { covers_prev: 0, parts }).visible == c.visible,
        c.push_visible_model(part).apply_blob(BlobModel { covers_prev: n + 1, parts })
            == c.apply_blob(BlobModel { covers_prev: n, parts }),
        c.push_visible_empty().apply_blob(BlobModel { covers_prev: n + 1, parts })
            == c.apply_blob(BlobModel { covers_prev: n, parts }),
{
    assert(said(c.apply_blob(BlobModel { covers_prev: 0, parts }).entries) =~= said(c.entries)
        + by_model(parts));
    assert(c.apply_blob(BlobModel { covers_prev: 0, parts }).visible =~= c.visible);
    let p = c.push_visible_model(part);
    let e = c.push_visible_empty();
    assert(p.visible.drop_last() =~= c.visible);
    assert(e.visible.drop_last() =~= c.visible);
    assert(p.entries.drop_last() =~= c.entries);
    assert(uncovered(p.visible, n + 1) =~= uncovered(c.visible, n));
    assert(uncovered(e.visible, n + 1) =~= uncovered(c.visible, n));
    assert(cut(p.entries, produced(p.visible, n + 1)) == cut(c.entries, produced(c.visible, n)));
}

/// What is said stands in a turn of the one who says it.
pub proof fn lemma_said_stands(said: Seq<(Role, JsonModel)>, i: int)
    requires
        0 <= i < said.len(),
    ensures
        exists|t: int, p: int|
            0 <= t < grouped(said).len() && grouped(said)[t].role == said[i].0 && 0 <= p
                < grouped(said)[t].parts.len() && #[trigger] grouped(said)[t].parts[p]
                == said[i].1,
    decreases said.len(),
{
    let front = said.drop_last();
    let turns = grouped(front);
    let out = grouped(said);
    let (role, part) = said.last();
    let joins = turns.len() > 0 && turns.last().role == role;
    if i == said.len() - 1 {
        let t = out.len() - 1;
        let p = out[t].parts.len() - 1;
        assert(out[t].parts[p] == said[i].1);
    } else {
        lemma_said_stands(front, i);
        assert(front[i] == said[i]);
        let (t, p) = choose|t: int, p: int|
            0 <= t < turns.len() && turns[t].role == front[i].0 && 0 <= p < turns[t].parts.len()
                && #[trigger] turns[t].parts[p] == front[i].1;
        assert(out[t].parts[p] == turns[t].parts[p]);
    }
}

}
