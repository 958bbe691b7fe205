//! The view on the collection: the shows that a category filter and a search
//! term let through, page by page, and the edits that go through it.

use vstd::prelude::*;
use crate::categorized::CategorizedShows;
use crate::collection::{holds_key, is_insertion_point, CollectionModel};
use crate::search::{matcher, matching, TermMatcher};
use crate::show::{models, AdderShow, DisplayShow, ShowCategory, ShowModel};
use crate::shows_db::{record_of, StoreWrite, WriteModel};
use crate::view_model::{num_pages, scope, ViewModel};

verus! {

/// The category filter of the view: one category, or all of them.
#[derive(Copy, Clone, Debug, PartialEq, Eq, Structural)]
pub enum UiShowCategory {
    Watching,
    PlanToWatch,
    Completed,
    All,
}

/// The filter that shows one category.
pub open spec fn ui_category(c: ShowCategory) -> UiShowCategory {
    match c {
        ShowCategory::Watching => UiShowCategory::Watching,
        ShowCategory::PlanToWatch => UiShowCategory::PlanToWatch,
        ShowCategory::Completed => UiShowCategory::Completed,
    }
}

impl From<ShowCategory> for UiShowCategory {
    fn from(value: ShowCategory) -> (r: UiShowCategory) {
        match value {
            ShowCategory::Watching => UiShowCategory::Watching,
            ShowCategory::PlanToWatch => UiShowCategory::PlanToWatch,
            ShowCategory::Completed => UiShowCategory::Completed,
        }
    }
}

impl vstd::std_specs::convert::FromSpecImpl<ShowCategory> for UiShowCategory {
    open spec fn obeys_from_spec() -> bool {
        true
    }

    open spec fn from_spec(value: ShowCategory) -> UiShowCategory {
        ui_category(value)
    }
}

/// The number of shows on a page.
pub const SHOWS_PER_PAGE: usize = 10;

/// Calls `subslice_index::subslice_index` on the list and on its part from
/// `begin` to `end`: the index in the list of the first show of the part,
/// which is `begin`.
#[verifier::external_body]
fn subslice_offset(shows: &Vec<DisplayShow>, begin: usize, end: usize) -> (r: usize)
    requires
        begin <= end <= shows.len(),
    ensures
        r == begin,
{
    subslice_index::subslice_index(&shows[..], &shows[begin..end])
}

/// The shows, and the view that a user has of them.
pub struct ShowsView {
    categorized_shows: CategorizedShows,
    ui_shows: Vec<DisplayShow>,
    search_term: String,
    current_category: UiShowCategory,
    page_number: usize,
    page_count: usize,
}

impl View for ShowsView {
    type V = ViewModel;

    closed spec fn view(&self) -> ViewModel {
        ViewModel {
            shows: self.categorized_shows@,
            visible: models(self.ui_shows@),
            search_term: self.search_term@,
            category: self.current_category,
            page: self.page_number as nat,
        }
    }
}

/// What became of a request to apply the edits of a visible show.
pub enum Updated {
    /// The position was stale: nothing was done.
    Stale,
    /// The show was replaced in place; the store is to be brought up to date.
    InPlace(StoreWrite),
    /// The show moved to another category, and the visible set changed; the
    /// store is to be brought up to date.
    Moved(StoreWrite),
}

impl ShowsView {
    /// The number of pages that the view has counted.
    pub closed spec fn counted_pages(&self) -> nat {
        self.page_count as nat
    }

    /// The state of the view is well formed, and the pages are counted.
    pub open spec fn wf(&self) -> bool {
        &&& self@.wf()
        &&& self.counted_pages() == self@.page_count()
    }

    /// The number of pages that `ui_shows_len` shows take: at least one.
    fn calculate_num_pages(ui_shows_len: usize) -> (r: usize)
        ensures
            r == num_pages(ui_shows_len as nat),
    {
        if ui_shows_len == 0 {
            1
        } else {
            (ui_shows_len - 1) / SHOWS_PER_PAGE + 1
        }
    }

    /// A view on the given shows, as they were loaded: they are added one
    /// after the other, so that a show whose key was seen before is dropped.
    /// The view starts on the first page of the shows that are watched.
    pub fn new(shows: Vec<DisplayShow>) -> (r: ShowsView)
        ensures
            r.wf(),
            r@ == ViewModel::loaded(models(shows@)),
    {
        let ghost all = models(shows@);
        let mut categorized_shows = CategorizedShows::new();
        let mut k: usize = 0;
        assert(all.take(0) =~= Seq::empty());
        while k < shows.len()
            invariant
                k <= shows.len(),
                all == models(shows@),
                categorized_shows.wf(),
                categorized_shows@ == CollectionModel::of(all.take(k as int)),
            decreases shows.len() - k,
        {
            assert(all.take(k + 1).drop_last() =~= all.take(k as int));
            assert(all.take(k + 1).last() == shows@[k as int]@);
            categorized_shows.add(shows[k].clone());
            k += 1;
        }
        assert(all.take(k as int) =~= all);
        let mut view = ShowsView {
            categorized_shows,
            ui_shows: Vec::new(),
            search_term: String::new(),
            current_category: UiShowCategory::Watching,
            page_number: 1,
            page_count: 1,
        };
        assert(view@.visible =~= Seq::empty());
        view.recalculate_ui_shows();
        view
    }

    /// The rows of the current page: each visible show of the page with its
    /// position in the visible set. An edit goes back to the view under
    /// that position.
    pub fn iter_mut(&self) -> (rows: Vec<(usize, DisplayShow)>)
        requires
            self.wf(),
        ensures
            rows.len() == self@.page_end() - self@.page_begin(),
            forall|k: int|
                0 <= k < rows.len() ==> (#[trigger] rows[k]).0 == self@.page_begin() + k
                    && rows[k].1@ == self@.visible[self@.page_begin() + k],
    {
        let mut rows: Vec<(usize, DisplayShow)> = Vec::new();
        if self.ui_shows.len() == 0 {
            return rows;
        }
        let begin_inclusive = (self.page_number - 1) * SHOWS_PER_PAGE;
        let end_exclusive = if self.ui_shows.len() - begin_inclusive > SHOWS_PER_PAGE {
            begin_inclusive + SHOWS_PER_PAGE
        } else {
            self.ui_shows.len()
        };
        let offset_index = subslice_offset(&self.ui_shows, begin_inclusive, end_exclusive);
        let mut k: usize = begin_inclusive;
        while k < end_exclusive
            invariant
                begin_inclusive <= k <= end_exclusive <= self.ui_shows.len(),
                offset_index == begin_inclusive,
                rows.len() == k - begin_inclusive,
                forall|n: int|
                    0 <= n < rows.len() ==> (#[trigger] rows[n]).0 == begin_inclusive + n
                        && rows[n].1@ == models(self.ui_shows@)[begin_inclusive + n],
            decreases end_exclusive - k,
        {
            rows.push((offset_index + (k - begin_inclusive), self.ui_shows[k].clone()));
            k += 1;
        }
        rows
    }

    /// Computes the visible set anew, and goes to its first page.
    fn recalculate_ui_shows(&mut self)
        requires
            old(self)@.shows.wf(),
        ensures
            final(self).wf(),
            final(self)@ == old(self)@.refreshed(),
    {
        let term_matcher = TermMatcher::new(self.search_term.as_str());
        let mut ui_shows: Vec<DisplayShow> = Vec::new();
        let ghost term = self.search_term@;
        let ghost shows = self.categorized_shows@;
        let watching = self.categorized_shows.partition(ShowCategory::Watching);
        let plan_to_watch = self.categorized_shows.partition(ShowCategory::PlanToWatch);
        let completed = self.categorized_shows.partition(ShowCategory::Completed);
        assert(models(ui_shows@) =~= Seq::empty());
        match self.current_category {
            UiShowCategory::All => {
                term_matcher.collect(watching, &mut ui_shows);
                term_matcher.collect(plan_to_watch, &mut ui_shows);
                term_matcher.collect(completed, &mut ui_shows);
                proof {
                    let pred = matcher(term);
                    Seq::filter_distributes_over_add(shows.watching, shows.plan_to_watch, pred);
                    Seq::filter_distributes_over_add(
                        shows.watching + shows.plan_to_watch,
                        shows.completed,
                        pred,
                    );
                    assert(models(ui_shows@) =~= matching(shows.every(), term));
                }
            },
            UiShowCategory::Watching => {
                term_matcher.collect(watching, &mut ui_shows);
                assert(models(ui_shows@) =~= matching(shows.watching, term));
            },
            UiShowCategory::PlanToWatch => {
                term_matcher.collect(plan_to_watch, &mut ui_shows);
                assert(models(ui_shows@) =~= matching(shows.plan_to_watch, term));
            },
            UiShowCategory::Completed => {
                term_matcher.collect(completed, &mut ui_shows);
                assert(models(ui_shows@) =~= matching(shows.completed, term));
            },
        }
        self.page_count = ShowsView::calculate_num_pages(ui_shows.len());
        self.ui_shows = ui_shows;
        self.page_number = 1;
    }

    /// Searches for `term`: the visible set becomes the shows under the
    /// category filter whose names match it, from the first page.
    pub fn search(&mut self, term: String)
        requires
            old(self).wf(),
        ensures
            final(self).wf(),
            final(self)@ == old(self)@.searched(term@),
    {
        self.search_term = term;
        self.recalculate_ui_shows();
    }

    /// The search term.
    pub fn search_box(&self) -> (r: &String)
        ensures
            r@ == self@.search_term,
    {
        &self.search_term
    }

    /// Sets the category filter: the visible set becomes the shows under
    /// it whose names match the search term, from the first page.
    pub fn update_category(&mut self, category: UiShowCategory)
        requires
            old(self).wf(),
        ensures
            final(self).wf(),
            final(self)@ == old(self)@.filtered(category),
    {
        self.current_category = category;
        self.recalculate_ui_shows();
    }

    /// The category filter.
    pub fn current_category(&self) -> (r: UiShowCategory)
        ensures
            r == self@.category,
    {
        self.current_category
    }

    /// Goes to the next page, if there is one.
    pub fn next_page(&mut self)
        requires
            old(self).wf(),
        ensures
            final(self).wf(),
            final(self)@ == old(self)@.next_page(),
    {
        // The user is on the last page.
        if self.page_number >= self.page_count {
            return ;
        }
        self.page_number += 1
    }

    /// Goes to the page before, if there is one.
    pub fn previous_page(&mut self)
        requires
            old(self).wf(),
        ensures
            final(self).wf(),
            final(self)@ == old(self)@.previous_page(),
    {
        // The user is on the first page.
        if self.page_number <= 1 {
            return ;
        }
        self.page_number -= 1
    }

    /// The number of the current page, from 1.
    pub fn page(&self) -> (r: usize)
        ensures
            r == self@.page,
    {
        self.page_number
    }

    /// The number of pages.
    pub fn page_count(&self) -> (r: usize)
        ensures
            r == self.counted_pages(),
            self.wf() ==> r == self@.page_count(),
    {
        self.page_count
    }

    /// The number of the current page and the number of pages.
    pub fn page_info(&self) -> (r: (usize, usize))
        ensures
            r.0 == self@.page,
            r.1 == self.counted_pages(),
            self.wf() ==> r.1 == self@.page_count(),
    {
        (self.page_number, self.page_count)
    }

    /// The number of shows in the visible set.
    pub fn len(&self) -> (r: usize)
        ensures
            r == self@.visible.len(),
    {
        self.ui_shows.len()
    }

    /// The show at position `ui_index` of the visible set, with the edits
    /// that were made to it.
    pub fn show(&self, ui_index: usize) -> (r: Option<&DisplayShow>)
        ensures
            match r {
                Some(show) => ui_index < self@.visible.len() && show@
                    == self@.visible[ui_index as int],
                None => ui_index >= self@.visible.len(),
            },
    {
        if ui_index < self.ui_shows.len() {
            Some(&self.ui_shows[ui_index])
        } else {
            None
        }
    }

    /// The collection behind the view.
    pub fn shows(&self) -> (r: &CategorizedShows)
        ensures
            r@ == self@.shows,
    {
        &self.categorized_shows
    }

    /// Looks for the show in the collection that has the key of `show`.
    /// With an `add_category`, or where the category filter is `All`, every
    /// partition is searched; else only the partition under the filter,
    /// which is where a visible show is kept.
    fn find_categorized_show(&self, show: &DisplayShow, add_category: Option<ShowCategory>) -> (r:
        Result<(ShowCategory, usize), usize>)
        requires
            self@.shows.wf(),
        ensures
            match r {
                Ok((c, i)) => {
                    &&& i < self@.shows.partition(c).len()
                    &&& self@.shows.partition(c)[i as int].key() == show@.key()
                    &&& self@.shows.locate(show@.key()) == Some((c, i as int))
                },
                Err(i) => match (self@.category, add_category) {
                    (_, Some(a)) => !self@.shows.holds_key(show@.key()) && is_insertion_point(
                        self@.shows.partition(a),
                        show@.key(),
                        i as int,
                    ),
                    (UiShowCategory::All, None) => !self@.shows.holds_key(show@.key()) && i
                        == usize::MAX,
                    (_, None) => !holds_key(scope(self@.shows, self@.category), show@.key())
                        && is_insertion_point(
                        scope(self@.shows, self@.category),
                        show@.key(),
                        i as int,
                    ),
                },
            },
    {
        let category = match (self.current_category, add_category) {
            (_, Some(_)) | (UiShowCategory::All, None) => {
                return self.categorized_shows.find(show, add_category);
            },
            (UiShowCategory::Watching, None) => ShowCategory::Watching,
            (UiShowCategory::PlanToWatch, None) => ShowCategory::PlanToWatch,
            (UiShowCategory::Completed, None) => ShowCategory::Completed,
        };
        match self.categorized_shows.find_in(category, show) {
            Ok(i) => Ok((category, i)),
            Err(i) => Err(i),
        }
    }

    /// Adds a show. Nothing happens, and `None` is returned, where the name
    /// is too long to be kept or a show with the same key is held already,
    /// in whatever category. Else the show is added, the view shows its
    /// category from the first page, and the result is the write that the
    /// store is to perform.
    pub fn add(&mut self, show: AdderShow) -> (r: Option<StoreWrite>)
        requires
            old(self).wf(),
        ensures
            final(self).wf(),
            final(self)@ == old(self)@.added(show@),
            match r {
                Some(w) => old(self)@.accepts(show@) && w@ == WriteModel::Insert(record_of(show@)),
                None => !old(self)@.accepts(show@),
            },
    {
        proof {
            self@.lemma_added(show@);
        }
        let show = match DisplayShow::try_new(
            show.name,
            show.season_number,
            show.episodes_seen,
            show.category,
        ) {
            Some(show) => show,
            None => {
                return None;
            },
        };
        let write = StoreWrite::add(&show);
        let category = show.category;
        // Make sure nobody adds a show that exists already.
        if !self.categorized_shows.add(show) {
            return None;
        }
        self.current_category = UiShowCategory::from(category);
        self.recalculate_ui_shows();
        Some(write)
    }

    /// Applies the edits of the show at position `ui_index` of the visible
    /// set to the collection.
    pub fn update(&mut self, ui_index: usize) -> (r: Updated)
        requires
            old(self).wf(),
        ensures
            final(self).wf(),
            final(self)@ == old(self)@.updated(ui_index as int),
            match r {
                Updated::Stale => ui_index >= old(self)@.visible.len(),
                Updated::InPlace(w) => {
                    &&& ui_index < old(self)@.visible.len()
                    &&& !old(self)@.moves(ui_index as int)
                    &&& w@ == WriteModel::Update(record_of(old(self)@.visible[ui_index as int]))
                },
                Updated::Moved(w) => {
                    &&& ui_index < old(self)@.visible.len()
                    &&& old(self)@.moves(ui_index as int)
                    &&& w@ == WriteModel::Update(record_of(old(self)@.visible[ui_index as int]))
                },
            },
    {
        if ui_index >= self.ui_shows.len() {
            return Updated::Stale;
        }
        proof {
            self@.lemma_updated(ui_index as int);
            self@.lemma_visible_located(ui_index as int);
        }
        let show = self.ui_shows[ui_index].clone();
        let (category, categorized_index) = match self.find_categorized_show(&show, None) {
            Ok(found) => found,
            Err(_) => {
                return Updated::Stale;
            },
        };
        let write = StoreWrite::update(&show);
        if category == show.category {
            self.categorized_shows.replace(categorized_index, show);
            return Updated::InPlace(write);
        }
        let new_category = show.category;
        proof {
            self@.shows.lemma_removed(category, categorized_index as int);
        }
        self.categorized_shows.remove(category, categorized_index);
        self.categorized_shows.add(show);
        self.current_category = UiShowCategory::from(new_category);
        self.recalculate_ui_shows();
        Updated::Moved(write)
    }

    /// Removes the show at position `ui_index` of the visible set from the
    /// collection and from the visible set, and counts the pages anew.
    /// Nothing happens, and `None` is returned, where the position is
    /// stale. Else the result is the write that the store is to perform.
    pub fn remove(&mut self, ui_index: usize) -> (r: Option<StoreWrite>)
        requires
            old(self).wf(),
        ensures
            final(self).wf(),
            final(self)@ == old(self)@.removed(ui_index as int),
            match r {
                Some(w) => ui_index < old(self)@.visible.len() && w@ == WriteModel::Delete(
                    old(self)@.visible[ui_index as int].name,
                ),
                None => ui_index >= old(self)@.visible.len(),
            },
    {
        if ui_index >= self.ui_shows.len() {
            return None;
        }
        proof {
            self@.lemma_removed(ui_index as int);
            self@.lemma_visible_located(ui_index as int);
            assert(models(self.ui_shows@.remove(ui_index as int)) =~= models(
                self.ui_shows@,
            ).remove(ui_index as int));
        }
        let show = self.ui_shows.remove(ui_index);
        match self.find_categorized_show(&show, None) {
            Ok((category, categorized_index)) => {
                let show = self.categorized_shows.remove(category, categorized_index);
                self.page_count = ShowsView::calculate_num_pages(self.ui_shows.len());
                if self.page_number > self.page_count {
                    self.page_number = self.page_count;
                }
                Some(StoreWrite::remove(&show))
            },
            Err(_) => None,
        }
    }

    /// Puts `show` in the place of the visible show at `ui_index`, which has
    /// the same name.
    fn edit(&mut self, ui_index: usize, show: DisplayShow)
        requires
            old(self).wf(),
            ui_index < old(self)@.visible.len(),
            show@.name == old(self)@.visible[ui_index as int].name,
        ensures
            final(self).wf(),
            final(self)@ == old(self)@.edited(ui_index as int, show@),
    {
        proof {
            self@.lemma_edited(ui_index as int, show@);
            assert(models(self.ui_shows@.update(ui_index as int, show)) =~= models(
                self.ui_shows@,
            ).update(ui_index as int, show@));
        }
        self.ui_shows.set(ui_index, show);
    }

    /// Edits the season of the visible show at `ui_index`. The collection
    /// does not change until the edit is applied by `update`. Nothing
    /// happens where the position is stale.
    pub fn edit_season_number(&mut self, ui_index: usize, season_number: String)
        requires
            old(self).wf(),
        ensures
            final(self).wf(),
            final(self)@ == old(self)@.edited(
                ui_index as int,
                ShowModel {
                    season_number: season_number@,
                    ..old(self)@.visible[ui_index as int]
                },
            ),
    {
        if ui_index < self.ui_shows.len() {
            let mut show = self.ui_shows[ui_index].clone();
            show.season_number = season_number;
            self.edit(ui_index, show);
        }
    }

    /// Edits the episode count of the visible show at `ui_index`. The
    /// collection does not change until the edit is applied by `update`.
    /// Nothing happens where the position is stale.
    pub fn edit_episodes_seen(&mut self, ui_index: usize, episodes_seen: String)
        requires
            old(self).wf(),
        ensures
            final(self).wf(),
            final(self)@ == old(self)@.edited(
                ui_index as int,
                ShowModel {
                    episodes_seen: episodes_seen@,
                    ..old(self)@.visible[ui_index as int]
                },
            ),
    {
        if ui_index < self.ui_shows.len() {
            let mut show = self.ui_shows[ui_index].clone();
            show.episodes_seen = episodes_seen;
            self.edit(ui_index, show);
        }
    }

    /// Edits the category of the visible show at `ui_index`. The collection
    /// does not change until the edit is applied by `update`. Nothing
    /// happens where the position is stale.
    pub fn edit_category(&mut self, ui_index: usize, category: ShowCategory)
        requires
            old(self).wf(),
        ensures
            final(self).wf(),
            final(self)@ == old(self)@.edited(
                ui_index as int,
                ShowModel { category, ..old(self)@.visible[ui_index as int] },
            ),
    {
        if ui_index < self.ui_shows.len() {
            let mut show = self.ui_shows[ui_index].clone();
            show.category = category;
            self.edit(ui_index, show);
        }
    }
}

} // verus!
