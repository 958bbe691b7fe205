//! What the user interface asks of the view: the form for new shows, the
//! changes of number fields, and the modifications that are queued while a
//! page is drawn and applied after it.

use vstd::prelude::*;
use crate::number::{decimal_text, number_text, parse_decimal, parse_number};
use crate::show::{AdderShow, ShowCategory, ShowModel};
use crate::shows_db::{record_of, StoreWrite, WriteModel};
use crate::shows_view::{ShowsView, UiShowCategory, Updated};
use crate::view_model::ViewModel;

verus! {

/// A change of a number field.
#[derive(Copy, Clone, Debug, PartialEq, Eq, Structural)]
pub enum Step {
    /// One less.
    Down,
    /// The number as it is, written anew.
    Keep,
    /// One more.
    Up,
}

impl Step {
    /// What the step adds to a number.
    pub open spec fn delta(self) -> int {
        match self {
            Step::Down => -1,
            Step::Keep => 0,
            Step::Up => 1,
        }
    }
}

/// The text of a number field after a step: the number that the field
/// denotes, changed by the step and written anew. `None` where the field
/// denotes no number, or the changed number does not fit in 64 bits.
pub open spec fn stepped_text(field: Seq<char>, step: Step) -> Option<Seq<char>> {
    match parse_decimal(field) {
        Some(n) => if i64::MIN <= n + step.delta() <= i64::MAX {
            Some(decimal_text(n + step.delta()))
        } else {
            None
        },
        None => None,
    }
}

/// Changes a number field by a step.
pub fn changer(field: &str, step: Step) -> (r: Option<String>)
    ensures
        match r {
            Some(text) => stepped_text(field@, step) == Some(text@),
            None => stepped_text(field@, step) is None,
        },
{
    let number = match parse_number(field) {
        Some(number) => number,
        None => {
            return None;
        },
    };
    let changed = match step {
        Step::Down => number.checked_sub(1),
        Step::Keep => Some(number),
        Step::Up => number.checked_add(1),
    };
    match changed {
        Some(changed) => Some(number_text(changed)),
        None => None,
    }
}

/// Which number field of a show a change is about.
#[derive(Copy, Clone, Debug, PartialEq, Eq, Structural)]
pub enum NumberField {
    SeasonNumber,
    EpisodesSeen,
}

impl NumberField {
    /// The text of the field in a show.
    pub open spec fn of(self, m: ShowModel) -> Seq<char> {
        match self {
            NumberField::SeasonNumber => m.season_number,
            NumberField::EpisodesSeen => m.episodes_seen,
        }
    }

    /// The show with the text of the field replaced.
    pub open spec fn set(self, m: ShowModel, text: Seq<char>) -> ShowModel {
        match self {
            NumberField::SeasonNumber => ShowModel { season_number: text, ..m },
            NumberField::EpisodesSeen => ShowModel { episodes_seen: text, ..m },
        }
    }
}

/// A modification of the collection that waits to be applied.
pub enum Modification {
    /// Add the show.
    Add(AdderShow),
    /// Apply the edits of the visible show at the position.
    Update(usize),
    /// Remove the visible show at the position.
    Remove(usize),
}

/// What a modification asks for.
pub enum ModificationModel {
    Add(ShowModel),
    Update(int),
    Remove(int),
}

impl View for Modification {
    type V = ModificationModel;

    open spec fn view(&self) -> ModificationModel {
        match self {
            Modification::Add(show) => ModificationModel::Add(show@),
            Modification::Update(index) => ModificationModel::Update(*index as int),
            Modification::Remove(index) => ModificationModel::Remove(*index as int),
        }
    }
}

/// What a queue of modifications asks for.
pub open spec fn modification_models(queue: Seq<Modification>) -> Seq<ModificationModel> {
    Seq::new(queue.len(), |i: int| queue[i]@)
}

/// What a list of writes holds.
pub open spec fn write_models(writes: Seq<StoreWrite>) -> Seq<WriteModel> {
    Seq::new(writes.len(), |i: int| writes[i]@)
}

/// The view after a batch of modifications, and the writes for the store.
pub struct Applied {
    pub view: ViewModel,
    pub writes: Seq<WriteModel>,
}

/// One modification of a batch. The positions that the queued modifications
/// go by were read from the page as it was drawn. `valid` counts the
/// positions, from the first, that still hold the show that was drawn
/// there: a show that is removed in the batch moves the ones behind it, and
/// a show that is added or moves to another category has the whole visible
/// set computed anew. A modification that goes by a position that is no
/// longer valid is stale, and is skipped. The result is the view, the count
/// of the positions that are valid from here on, and the write for the
/// store, if there is one.
pub open spec fn apply_one(view: ViewModel, valid: int, m: ModificationModel) -> (
    ViewModel,
    int,
    Option<WriteModel>,
) {
    match m {
        ModificationModel::Add(show) => if view.accepts(show) {
            (view.added(show), 0, Some(WriteModel::Insert(record_of(show))))
        } else {
            (view, valid, None)
        },
        ModificationModel::Update(i) => if 0 <= i < valid && i < view.visible.len() {
            (
                view.updated(i),
                if view.moves(i) {
                    0
                } else {
                    valid
                },
                Some(WriteModel::Update(record_of(view.visible[i]))),
            )
        } else {
            (view, valid, None)
        },
        ModificationModel::Remove(i) => if 0 <= i < valid && i < view.visible.len() {
            (view.removed(i), i, Some(WriteModel::Delete(view.visible[i].name)))
        } else {
            (view, valid, None)
        },
    }
}

/// A run of modifications, applied one after the other in the order of the
/// queue. A modification that is rejected or stale is skipped, and the ones
/// behind it are applied all the same.
pub open spec fn apply_all(view: ViewModel, valid: int, queue: Seq<ModificationModel>) -> Applied
    decreases queue.len(),
{
    if queue.len() == 0 {
        Applied { view, writes: Seq::empty() }
    } else {
        let (next, next_valid, write) = apply_one(view, valid, queue[0]);
        let rest = apply_all(next, next_valid, queue.drop_first());
        Applied {
            view: rest.view,
            writes: match write {
                Some(w) => seq![w] + rest.writes,
                None => rest.writes,
            },
        }
    }
}

/// A batch of modifications that were queued while the page was drawn:
/// at its start every position of the visible set is valid.
pub open spec fn apply_batch(view: ViewModel, queue: Seq<ModificationModel>) -> Applied {
    apply_all(view, view.visible.len() as int, queue)
}

/// A modification that goes by a position that is no longer valid is
/// skipped: it neither changes the view nor writes to the store.
pub proof fn lemma_stale_position(
    view: ViewModel,
    valid: int,
    m: ModificationModel,
    rest: Seq<ModificationModel>,
)
    requires
        match m {
            ModificationModel::Add(_) => false,
            ModificationModel::Update(i) => i >= valid,
            ModificationModel::Remove(i) => i >= valid,
        },
    ensures
        apply_all(view, valid, seq![m] + rest) == apply_all(view, valid, rest),
{
    let queue = seq![m] + rest;
    assert(queue[0] == m);
    assert(queue.drop_first() =~= rest);
}

/// Where the removal of the show at a position is followed in the same
/// batch by a request to apply the edits of the show at that position, the
/// second request is dropped: the batch does what the removal alone does.
pub proof fn lemma_update_after_remove(view: ViewModel, i: int)
    ensures
        apply_batch(view, seq![ModificationModel::Remove(i), ModificationModel::Update(i)])
            == apply_batch(view, seq![ModificationModel::Remove(i)]),
{
    let both = seq![ModificationModel::Remove(i), ModificationModel::Update(i)];
    let one = seq![ModificationModel::Remove(i)];
    let update = seq![ModificationModel::Update(i)];
    let none = Seq::<ModificationModel>::empty();
    let all = view.visible.len() as int;
    assert(both.drop_first() =~= update);
    assert(one.drop_first() =~= none);
    assert(update.drop_first() =~= none);
    let (next, valid, write) = apply_one(view, all, ModificationModel::Remove(i));
    assert(apply_all(next, valid, update) == apply_all(next, valid, none)) by {
        if 0 <= i < all {
            assert(valid == i);
        } else {
            assert(next == view);
            assert(valid == all);
        }
    }
}

/// A request to apply the edits of a show that stands before a show that
/// was removed earlier in the same batch is carried out, on the show that
/// was drawn at its position.
pub proof fn lemma_update_before_remove(view: ViewModel, i: int, n: int)
    requires
        view.wf(),
        0 <= n < i < view.visible.len(),
    ensures
        ({
            let gone = view.removed(i);
            let batch = apply_batch(
                view,
                seq![ModificationModel::Remove(i), ModificationModel::Update(n)],
            );
            &&& gone.visible[n] == view.visible[n]
            &&& batch.view == gone.updated(n)
            &&& batch.writes == seq![
                WriteModel::Delete(view.visible[i].name),
                WriteModel::Update(record_of(view.visible[n])),
            ]
        }),
{
    let both = seq![ModificationModel::Remove(i), ModificationModel::Update(n)];
    let update = seq![ModificationModel::Update(n)];
    let none = Seq::<ModificationModel>::empty();
    assert(both.drop_first() =~= update);
    assert(update.drop_first() =~= none);
    assert(both[0] == ModificationModel::Remove(i));
    assert(update[0] == ModificationModel::Update(n));
    view.lemma_visible_located(i);
    let gone = view.removed(i);
    assert(gone.visible[n] == view.visible[n]);
    let last = apply_all(gone.updated(n), if gone.moves(n) { 0 } else { i }, none);
    assert(last.writes =~= Seq::<WriteModel>::empty());
    let second = apply_all(gone, i, update);
    assert(second.view == gone.updated(n));
    assert(second.writes =~= seq![WriteModel::Update(record_of(view.visible[n]))]);
    let batch = apply_batch(view, both);
    assert(batch.writes =~= seq![
        WriteModel::Delete(view.visible[i].name),
        WriteModel::Update(record_of(view.visible[n])),
    ]);
}

/// A run of modifications, whatever it holds, leaves the view well formed:
/// every partition sorted by key, and no key held twice.
pub proof fn lemma_apply_all_wf(view: ViewModel, valid: int, queue: Seq<ModificationModel>)
    requires
        view.wf(),
    ensures
        apply_all(view, valid, queue).view.wf(),
    decreases queue.len(),
{
    if queue.len() > 0 {
        let (next, next_valid, write) = apply_one(view, valid, queue[0]);
        match queue[0] {
            ModificationModel::Add(show) => {
                view.lemma_added(show);
            },
            ModificationModel::Update(i) => {
                view.lemma_updated(i);
            },
            ModificationModel::Remove(i) => {
                view.lemma_removed(i);
            },
        }
        lemma_apply_all_wf(next, next_valid, queue.drop_first());
    }
}

/// A form is fit to be submitted: it has a name, and its two number fields
/// denote numbers.
pub open spec fn submittable(form: ShowModel) -> bool {
    &&& form.name.len() > 0
    &&& parse_decimal(form.season_number) is Some
    &&& parse_decimal(form.episodes_seen) is Some
}

/// The state behind the user interface.
pub struct VccModel {
    /// The view.
    pub view: ViewModel,
    /// The form for new shows.
    pub adder: ShowModel,
    /// The modifications that wait to be applied, oldest first.
    pub pending: Seq<ModificationModel>,
}

impl VccModel {
    /// The state after a number field of the visible show at `i` was
    /// changed by a step: where the field denotes a number that the step
    /// can change, the field holds the new number and the request to apply
    /// the edit is queued; else nothing changes.
    pub open spec fn stepped(self, i: int, field: NumberField, step: Step) -> VccModel {
        if 0 <= i < self.view.visible.len() {
            let m = self.view.visible[i];
            match stepped_text(field.of(m), step) {
                Some(text) => VccModel {
                    view: self.view.edited(i, field.set(m, text)),
                    pending: self.pending.push(ModificationModel::Update(i)),
                    ..self
                },
                None => self,
            }
        } else {
            self
        }
    }

    /// The change is carried out: the position is one of the visible set,
    /// and the field denotes a number that the step can change.
    pub open spec fn steps(self, i: int, field: NumberField, step: Step) -> bool {
        0 <= i < self.view.visible.len() && stepped_text(field.of(self.view.visible[i]), step)
            is Some
    }

    /// The state after `text` was typed into a number field of the visible
    /// show at `i`: the field holds the text, and where the text denotes a
    /// number it is written anew and the request to apply the edit is
    /// queued.
    pub open spec fn typed(self, i: int, field: NumberField, text: Seq<char>) -> VccModel {
        if 0 <= i < self.view.visible.len() {
            VccModel {
                view: self.view.edited(i, field.set(self.view.visible[i], text)),
                ..self
            }.stepped(i, field, Step::Keep)
        } else {
            self
        }
    }

    /// The state after a category was chosen for the visible show at `i`:
    /// the show has the category, and the request to apply the edit is
    /// queued.
    pub open spec fn recategorized(self, i: int, category: ShowCategory) -> VccModel {
        if 0 <= i < self.view.visible.len() {
            VccModel {
                view: self.view.edited(i, ShowModel { category, ..self.view.visible[i] }),
                pending: self.pending.push(ModificationModel::Update(i)),
                ..self
            }
        } else {
            self
        }
    }
}

/// The state behind the user interface: the view, the form for new shows,
/// and the modifications that were asked for while the page was drawn.
pub struct Vcc {
    shows: ShowsView,
    adder: AdderShow,
    accumulated_modifications: Vec<Modification>,
}

impl View for Vcc {
    type V = VccModel;

    closed spec fn view(&self) -> VccModel {
        VccModel {
            view: self.shows@,
            adder: self.adder@,
            pending: modification_models(self.accumulated_modifications@),
        }
    }
}

impl Vcc {
    /// The view is well formed.
    pub closed spec fn wf(&self) -> bool {
        self.shows.wf()
    }

    /// A well-formed interface state has a well-formed view.
    pub proof fn lemma_wf(&self)
        requires
            self.wf(),
        ensures
            self@.view.wf(),
    {
    }

    /// The state of an interface that was just opened on a view: an empty
    /// form, and nothing waits.
    pub fn new(shows: ShowsView) -> (r: Vcc)
        requires
            shows.wf(),
        ensures
            r.wf(),
            r@ == (VccModel { view: shows@, adder: ShowModel::blank(), pending: Seq::empty() }),
    {
        let r = Vcc {
            shows,
            adder: AdderShow::default(),
            accumulated_modifications: Vec::new(),
        };
        assert(r@.pending =~= Seq::empty());
        r
    }

    /// The view.
    pub fn shows(&self) -> (r: &ShowsView)
        ensures
            r@ == self@.view,
            self.wf() ==> r.wf(),
    {
        &self.shows
    }

    /// The form for new shows.
    pub fn adder(&self) -> (r: &AdderShow)
        ensures
            r@ == self@.adder,
    {
        &self.adder
    }

    /// Fills in the form for new shows.
    pub fn set_adder(&mut self, adder: AdderShow)
        ensures
            final(self)@ == (VccModel { adder: adder@, ..old(self)@ }),
            old(self).wf() ==> final(self).wf(),
    {
        self.adder = adder;
    }

    /// The number of modifications that wait to be applied.
    pub fn pending(&self) -> (r: usize)
        ensures
            r == self@.pending.len(),
    {
        self.accumulated_modifications.len()
    }

    /// Queues a modification.
    fn queue(&mut self, modification: Modification)
        ensures
            final(self)@ == (VccModel {
                pending: old(self)@.pending.push(modification@),
                ..old(self)@
            }),
            old(self).wf() ==> final(self).wf(),
    {
        self.accumulated_modifications.push(modification);
        assert(modification_models(self.accumulated_modifications@) =~= old(self)@.pending.push(
            modification@,
        ));
    }

    /// Submits the form for new shows, and empties it. The show is queued to
    /// be added if the form has a name and its number fields denote numbers;
    /// else the request is dropped. Says whether the show was queued.
    pub fn submit_add(&mut self) -> (queued: bool)
        ensures
            queued == submittable(old(self)@.adder),
            final(self)@ == (VccModel {
                adder: ShowModel::blank(),
                pending: if queued {
                    old(self)@.pending.push(ModificationModel::Add(old(self)@.adder))
                } else {
                    old(self)@.pending
                },
                ..old(self)@
            }),
            old(self).wf() ==> final(self).wf(),
    {
        if self.adder.name.as_str().is_empty() {
            self.adder.clear();
            return false;
        }
        let season_number = parse_number(self.adder.season_number.as_str());
        let episodes_seen = parse_number(self.adder.episodes_seen.as_str());
        if season_number.is_none() || episodes_seen.is_none() {
            self.adder.clear();
            return false;
        }
        let owned_adder = self.adder.clone();
        self.queue(Modification::Add(owned_adder));
        self.adder.clear();
        true
    }

    /// Queues the request to apply the edits of the visible show at
    /// `index`.
    pub fn submit_update(&mut self, index: usize)
        ensures
            final(self)@ == (VccModel {
                pending: old(self)@.pending.push(ModificationModel::Update(index as int)),
                ..old(self)@
            }),
            old(self).wf() ==> final(self).wf(),
    {
        self.queue(Modification::Update(index));
    }

    /// Queues the request to remove the visible show at `index`.
    pub fn submit_remove(&mut self, index: usize)
        ensures
            final(self)@ == (VccModel {
                pending: old(self)@.pending.push(ModificationModel::Remove(index as int)),
                ..old(self)@
            }),
            old(self).wf() ==> final(self).wf(),
    {
        self.queue(Modification::Remove(index));
    }

    /// Searches for `term`.
    pub fn search(&mut self, term: String)
        requires
            old(self).wf(),
        ensures
            final(self).wf(),
            final(self)@ == (VccModel { view: old(self)@.view.searched(term@), ..old(self)@ }),
    {
        self.shows.search(term);
    }

    /// Sets the category filter.
    pub fn update_category(&mut self, category: UiShowCategory)
        requires
            old(self).wf(),
        ensures
            final(self).wf(),
            final(self)@ == (VccModel { view: old(self)@.view.filtered(category), ..old(self)@ }),
    {
        self.shows.update_category(category);
    }

    /// Goes to the next page, if there is one.
    pub fn next_page(&mut self)
        requires
            old(self).wf(),
        ensures
            final(self).wf(),
            final(self)@ == (VccModel { view: old(self)@.view.next_page(), ..old(self)@ }),
    {
        self.shows.next_page();
    }

    /// Goes to the page before, if there is one.
    pub fn previous_page(&mut self)
        requires
            old(self).wf(),
        ensures
            final(self).wf(),
            final(self)@ == (VccModel { view: old(self)@.view.previous_page(), ..old(self)@ }),
    {
        self.shows.previous_page();
    }

    /// Puts `text` into a number field of the visible show at `index`.
    fn set_field(&mut self, index: usize, field: NumberField, text: String)
        requires
            old(self).wf(),
        ensures
            final(self).wf(),
            final(self)@ == (VccModel {
                view: old(self)@.view.edited(
                    index as int,
                    field.set(old(self)@.view.visible[index as int], text@),
                ),
                ..old(self)@
            }),
    {
        match field {
            NumberField::SeasonNumber => self.shows.edit_season_number(index, text),
            NumberField::EpisodesSeen => self.shows.edit_episodes_seen(index, text),
        }
    }

    /// Changes a number field of the visible show at `index` by a step, and
    /// queues the request to apply the edit. Nothing happens where the
    /// position is stale, the field denotes no number, or the changed
    /// number does not fit in 64 bits. Says whether the change was carried
    /// out.
    pub fn step(&mut self, index: usize, field: NumberField, step: Step) -> (changed: bool)
        requires
            old(self).wf(),
        ensures
            final(self).wf(),
            final(self)@ == old(self)@.stepped(index as int, field, step),
            changed == old(self)@.steps(index as int, field, step),
    {
        let text = match self.shows.show(index) {
            Some(show) => {
                let current = match field {
                    NumberField::SeasonNumber => show.season_number.as_str(),
                    NumberField::EpisodesSeen => show.episodes_seen.as_str(),
                };
                changer(current, step)
            },
            None => None,
        };
        match text {
            Some(text) => {
                self.set_field(index, field, text);
                self.queue(Modification::Update(index));
                true
            },
            None => false,
        }
    }

    /// Types `text` into a number field of the visible show at `index`.
    /// Where the text denotes a number, it is written anew and the request
    /// to apply the edit is queued; else the field keeps the text, and
    /// nothing is queued. Says whether the request was queued.
    pub fn type_number(&mut self, index: usize, field: NumberField, text: String) -> (queued: bool)
        requires
            old(self).wf(),
        ensures
            final(self).wf(),
            final(self)@ == old(self)@.typed(index as int, field, text@),
            queued == (index < old(self)@.view.visible.len() && parse_decimal(text@) is Some),
    {
        if index >= self.shows.len() {
            return false;
        }
        self.set_field(index, field, text);
        self.step(index, field, Step::Keep)
    }

    /// Chooses a category for the visible show at `index`, and queues the
    /// request to apply the edit. Nothing happens where the position is
    /// stale.
    pub fn choose_category(&mut self, index: usize, category: ShowCategory)
        requires
            old(self).wf(),
        ensures
            final(self).wf(),
            final(self)@ == old(self)@.recategorized(index as int, category),
    {
        if index >= self.shows.len() {
            return ;
        }
        self.shows.edit_category(index, category);
        self.queue(Modification::Update(index));
    }

    /// Applies the modifications that wait, in the order in which they were
    /// queued, and empties the queue. The result is the writes that the
    /// store is to perform, in that order.
    pub fn apply_modifications(&mut self) -> (writes: Vec<StoreWrite>)
        requires
            old(self).wf(),
        ensures
            final(self).wf(),
            final(self)@.view == apply_batch(old(self)@.view, old(self)@.pending).view,
            write_models(writes@) == apply_batch(old(self)@.view, old(self)@.pending).writes,
            final(self)@.pending == Seq::<ModificationModel>::empty(),
            final(self)@.adder == old(self)@.adder,
    {
        let mut queue: Vec<Modification> = Vec::new();
        std::mem::swap(&mut queue, &mut self.accumulated_modifications);
        let ghost all = modification_models(queue@);
        let ghost start = self.shows@;
        let ghost adder = self.adder@;
        let mut writes: Vec<StoreWrite> = Vec::new();
        let mut valid = self.shows.len();
        let mut k: usize = 0;
        proof {
            assert(all.skip(0) =~= all);
            assert(write_models(writes@) =~= Seq::empty());
            assert(modification_models(self.accumulated_modifications@) =~= Seq::empty());
        }
        while k < queue.len()
            invariant
                k <= queue.len(),
                self.shows.wf(),
                all == modification_models(queue@),
                self.adder@ == adder,
                self.accumulated_modifications@.len() == 0,
                apply_batch(start, all).view == apply_all(
                    self.shows@,
                    valid as int,
                    all.skip(k as int),
                ).view,
                apply_batch(start, all).writes == write_models(writes@) + apply_all(
                    self.shows@,
                    valid as int,
                    all.skip(k as int),
                ).writes,
            decreases queue.len() - k,
        {
            let ghost rest = all.skip(k as int);
            let ghost done = write_models(writes@);
            proof {
                assert(rest.drop_first() =~= all.skip(k + 1));
                assert(rest[0] == queue@[k as int]@);
            }
            let write = match &queue[k] {
                Modification::Add(show) => {
                    let write = self.shows.add(show.clone());
                    if write.is_some() {
                        valid = 0;
                    }
                    write
                },
                Modification::Update(index) => {
                    if *index < valid {
                        match self.shows.update(*index) {
                            Updated::Stale => None,
                            Updated::InPlace(write) => Some(write),
                            Updated::Moved(write) => {
                                valid = 0;
                                Some(write)
                            },
                        }
                    } else {
                        None
                    }
                },
                Modification::Remove(index) => {
                    if *index < valid {
                        let write = self.shows.remove(*index);
                        if write.is_some() {
                            valid = *index;
                        }
                        write
                    } else {
                        None
                    }
                },
            };
            match write {
                Some(write) => {
                    writes.push(write);
                    proof {
                        let after = apply_all(self.shows@, valid as int, all.skip(k + 1)).writes;
                        assert(write_models(writes@) =~= done.push(write@));
                        assert(done + (seq![write@] + after) =~= done.push(write@) + after);
                    }
                },
                None => {},
            }
            k += 1;
        }
        assert(modification_models(self.accumulated_modifications@) =~= Seq::empty());
        assert(write_models(writes@) + Seq::<WriteModel>::empty() =~= write_models(writes@));
        writes
    }
}

} // verus!
