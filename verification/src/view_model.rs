//! The view as it is reasoned about: the collection, the visible set that
//! the category filter and the search term let through, and the page.

use vstd::prelude::*;
use crate::collection::{
    holds_key, index_of, insertion_point, lemma_index_of, lemma_insertion_point_exists,
    CollectionModel,
};
use crate::search::{matcher, matching, name_matches};
use crate::show::{name_fits, ShowCategory, ShowModel};
use crate::shows_view::{ui_category, UiShowCategory};

verus! {

/// The number of pages that `n` shows take: at least one.
pub open spec fn num_pages(n: nat) -> nat {
    if n == 0 {
        1
    } else {
        ((n + 9) / 10) as nat
    }
}

/// The shows that a category filter lets through: one partition, or all
/// three one after the other.
pub open spec fn scope(shows: CollectionModel, filter: UiShowCategory) -> Seq<ShowModel> {
    match filter {
        UiShowCategory::Watching => shows.watching,
        UiShowCategory::PlanToWatch => shows.plan_to_watch,
        UiShowCategory::Completed => shows.completed,
        UiShowCategory::All => shows.every(),
    }
}

/// The visible set: the shows that the category filter lets through and
/// whose names match the search term, in the order of the collection.
pub open spec fn visible_set(
    shows: CollectionModel,
    filter: UiShowCategory,
    term: Seq<char>,
) -> Seq<ShowModel> {
    matching(scope(shows, filter), term)
}

/// The two lists name the same shows in the same order.
pub open spec fn same_names(a: Seq<ShowModel>, b: Seq<ShowModel>) -> bool {
    &&& a.len() == b.len()
    &&& forall|i: int| 0 <= i < a.len() ==> (#[trigger] a[i]).name == b[i].name
}

/// The state of the view.
pub struct ViewModel {
    /// The collection.
    pub shows: CollectionModel,
    /// The visible set. Its shows carry the edits that were not yet applied
    /// to the collection.
    pub visible: Seq<ShowModel>,
    /// The search term.
    pub search_term: Seq<char>,
    /// The category filter.
    pub category: UiShowCategory,
    /// The number of the current page, from 1.
    pub page: nat,
}

impl ViewModel {
    /// The number of pages.
    pub open spec fn page_count(self) -> nat {
        num_pages(self.visible.len())
    }

    /// The collection is well formed, the visible set names the shows that
    /// filter and search term let through, and the page exists.
    pub open spec fn wf(self) -> bool {
        &&& self.shows.wf()
        &&& same_names(self.visible, visible_set(self.shows, self.category, self.search_term))
        &&& 1 <= self.page <= self.page_count()
    }

    /// The position in the visible set of the first show of the page.
    pub open spec fn page_begin(self) -> int {
        if self.visible.len() == 0 {
            0
        } else {
            (self.page - 1) * 10
        }
    }

    /// The position in the visible set behind the last show of the page.
    pub open spec fn page_end(self) -> int {
        if self.page * 10 < self.visible.len() {
            (self.page * 10) as int
        } else {
            self.visible.len() as int
        }
    }

    /// The view with the visible set computed anew, on its first page.
    pub open spec fn refreshed(self) -> ViewModel {
        ViewModel {
            visible: visible_set(self.shows, self.category, self.search_term),
            page: 1,
            ..self
        }
    }

    /// The view after a search for `term`.
    pub open spec fn searched(self, term: Seq<char>) -> ViewModel {
        ViewModel { search_term: term, ..self }.refreshed()
    }

    /// The view after the category filter was set.
    pub open spec fn filtered(self, category: UiShowCategory) -> ViewModel {
        ViewModel { category, ..self }.refreshed()
    }

    /// The view one page further, or unchanged on the last page.
    pub open spec fn next_page(self) -> ViewModel {
        if self.page + 1 > self.page_count() {
            self
        } else {
            ViewModel { page: self.page + 1, ..self }
        }
    }

    /// The view one page back, or unchanged on the first page.
    pub open spec fn previous_page(self) -> ViewModel {
        if self.page <= 1 {
            self
        } else {
            ViewModel { page: (self.page - 1) as nat, ..self }
        }
    }

    /// The view with one visible show edited, or unchanged where `i` is no
    /// position of the visible set. The collection does not change.
    pub open spec fn edited(self, i: int, m: ShowModel) -> ViewModel {
        if 0 <= i < self.visible.len() {
            ViewModel { visible: self.visible.update(i, m), ..self }
        } else {
            self
        }
    }

    /// A new show is accepted: its name fits, and the collection holds no
    /// show with its key, in whatever category.
    pub open spec fn accepts(self, m: ShowModel) -> bool {
        name_fits(m.name) && !self.shows.holds_key(m.key())
    }

    /// The view after `m` was submitted: unchanged where `m` is not
    /// accepted; else the collection holds `m`, and the view shows the
    /// category of `m` from its first page.
    pub open spec fn added(self, m: ShowModel) -> ViewModel {
        if self.accepts(m) {
            ViewModel {
                shows: self.shows.inserted(m),
                category: ui_category(m.category),
                ..self
            }.refreshed()
        } else {
            self
        }
    }

    /// Where in the collection the show at position `i` of the visible set
    /// stands, `None` where `i` is no position or the show is gone.
    pub open spec fn located(self, i: int) -> Option<(ShowCategory, int)> {
        if 0 <= i < self.visible.len() {
            self.shows.locate(self.visible[i].key())
        } else {
            None
        }
    }

    /// Applying the edits of the show at position `i` moves it to another
    /// category.
    pub open spec fn moves(self, i: int) -> bool {
        self.located(i) matches Some((c, j)) && self.visible[i].category != c
    }

    /// The view after the edits of the show at position `i` of the visible
    /// set were applied. Unchanged where `i` is stale. Where the category of
    /// the show is the one it is kept under, the show is replaced in place
    /// and the visible set stays as it is. Else the show moves to the
    /// partition of its new category, and the view shows that category from
    /// its first page.
    pub open spec fn updated(self, i: int) -> ViewModel {
        match self.located(i) {
            Some((c, j)) => {
                let m = self.visible[i];
                if m.category == c {
                    ViewModel { shows: self.shows.replaced(c, j, m), ..self }
                } else {
                    ViewModel {
                        shows: self.shows.removed(c, j).inserted(m),
                        category: ui_category(m.category),
                        ..self
                    }.refreshed()
                }
            },
            None => self,
        }
    }

    /// The view after the show at position `i` of the visible set was
    /// removed: the collection and the visible set are without it, and the
    /// view is on the page it was on, or on the last page where that page is
    /// gone. Unchanged where `i` is stale.
    pub open spec fn removed(self, i: int) -> ViewModel {
        match self.located(i) {
            Some((c, j)) => {
                let visible = self.visible.remove(i);
                ViewModel {
                    shows: self.shows.removed(c, j),
                    visible,
                    page: if self.page <= num_pages(visible.len()) {
                        self.page
                    } else {
                        num_pages(visible.len())
                    },
                    ..self
                }
            },
            None => self,
        }
    }

    /// The view on a collection that was just loaded: the shows that are
    /// watched, all of them, from the first page.
    pub open spec fn loaded(shows: Seq<ShowModel>) -> ViewModel {
        ViewModel {
            shows: CollectionModel::of(shows),
            visible: Seq::empty(),
            search_term: Seq::empty(),
            category: UiShowCategory::Watching,
            page: 1,
        }.refreshed()
    }
}

/// Two lists that name the same shows have matching shows that name the
/// same shows: whether a show matches depends on its name alone.
pub proof fn lemma_matching_same_names(a: Seq<ShowModel>, b: Seq<ShowModel>, term: Seq<char>)
    requires
        same_names(a, b),
    ensures
        same_names(matching(a, term), matching(b, term)),
    decreases a.len(),
{
    reveal(Seq::filter);
    if a.len() > 0 {
        let fa = a.drop_last();
        let fb = b.drop_last();
        assert forall|i: int| 0 <= i < fa.len() implies (#[trigger] fa[i]).name == fb[i].name by {
            assert(a[i].name == b[i].name);
        }
        lemma_matching_same_names(fa, fb, term);
        assert(a.last().name == b.last().name);
        assert(a.last().key() == b.last().key());
        let ma = matching(fa, term);
        let mb = matching(fb, term);
        if name_matches(a.last().key(), term) {
            assert forall|i: int| 0 <= i < ma.push(a.last()).len() implies (#[trigger] ma.push(
                a.last(),
            )[i]).name == mb.push(b.last())[i].name by {
                if i < ma.len() {
                    assert(ma[i].name == mb[i].name);
                }
            }
        }
    }
}

/// With an empty search term every show matches.
pub proof fn lemma_empty_term_matches_all(shows: Seq<ShowModel>, term: Seq<char>)
    requires
        term.len() == 0,
    ensures
        matching(shows, term) == shows,
    decreases shows.len(),
{
    reveal(Seq::filter);
    if shows.len() > 0 {
        lemma_empty_term_matches_all(shows.drop_last(), term);
        assert(shows.drop_last().push(shows.last()) =~= shows);
    }
}

/// A show is in the visible set exactly if the category filter lets it
/// through and its name matches the search term.
pub proof fn lemma_visible_set_members(
    shows: CollectionModel,
    filter: UiShowCategory,
    term: Seq<char>,
    m: ShowModel,
)
    ensures
        visible_set(shows, filter, term).contains(m) <==> scope(shows, filter).contains(m)
            && name_matches(m.key(), term),
{
    let source = scope(shows, filter);
    let found = visible_set(shows, filter, term);
    if found.contains(m) {
        let i = choose|i: int| 0 <= i < found.len() && found[i] == m;
        source.lemma_filter_contains_rev(matcher(term), m);
        source.lemma_filter_pred(matcher(term), i);
    }
    if source.contains(m) && name_matches(m.key(), term) {
        let i = choose|i: int| 0 <= i < source.len() && source[i] == m;
        source.lemma_filter_contains(matcher(term), i);
    }
}

/// With an empty search term the visible set is all that the category
/// filter lets through.
pub proof fn lemma_visible_set_unfiltered(
    shows: CollectionModel,
    filter: UiShowCategory,
    term: Seq<char>,
)
    requires
        term.len() == 0,
    ensures
        visible_set(shows, filter, term) == scope(shows, filter),
{
    lemma_empty_term_matches_all(scope(shows, filter), term);
}

/// Each show of the scope stands in a partition of the collection: in the
/// partition of its own category.
pub proof fn lemma_scope_member(shows: CollectionModel, filter: UiShowCategory, k: int)
    requires
        shows.wf(),
        0 <= k < scope(shows, filter).len(),
    ensures
        ({
            let m = scope(shows, filter)[k];
            &&& holds_key(shows.partition(m.category), m.key())
            &&& shows.partition(m.category)[index_of(shows.partition(m.category), m.key())] == m
            &&& filter != UiShowCategory::All ==> filter == ui_category(m.category)
        }),
{
    let m = scope(shows, filter)[k];
    let w = shows.watching.len() as int;
    let p = shows.plan_to_watch.len() as int;
    match filter {
        UiShowCategory::Watching => {
            assert(shows.watching[k].category == ShowCategory::Watching);
            lemma_index_of(shows.watching, m.key(), k);
        },
        UiShowCategory::PlanToWatch => {
            assert(shows.plan_to_watch[k].category == ShowCategory::PlanToWatch);
            lemma_index_of(shows.plan_to_watch, m.key(), k);
        },
        UiShowCategory::Completed => {
            assert(shows.completed[k].category == ShowCategory::Completed);
            lemma_index_of(shows.completed, m.key(), k);
        },
        UiShowCategory::All => {
            if k < w {
                assert(m == shows.watching[k]);
                assert(shows.watching[k].category == ShowCategory::Watching);
                lemma_index_of(shows.watching, m.key(), k);
            } else if k < w + p {
                assert(m == shows.plan_to_watch[k - w]);
                assert(shows.plan_to_watch[k - w].category == ShowCategory::PlanToWatch);
                lemma_index_of(shows.plan_to_watch, m.key(), k - w);
            } else {
                assert(m == shows.completed[k - w - p]);
                assert(shows.completed[k - w - p].category == ShowCategory::Completed);
                lemma_index_of(shows.completed, m.key(), k - w - p);
            }
        },
    }
}

/// A show that takes the place of one with the same name leaves the scope
/// naming the same shows.
pub proof fn lemma_replaced_scope(
    shows: CollectionModel,
    c: ShowCategory,
    j: int,
    m: ShowModel,
    filter: UiShowCategory,
)
    requires
        0 <= j < shows.partition(c).len(),
        shows.partition(c)[j].name == m.name,
    ensures
        same_names(scope(shows, filter), scope(shows.replaced(c, j, m), filter)),
{
    let before = scope(shows, filter);
    let after = scope(shows.replaced(c, j, m), filter);
    let p = shows.partition(c);
    assert(p.update(j, m).len() == p.len());
    assert forall|i: int| 0 <= i < p.len() implies (#[trigger] p[i]).name == p.update(
        j,
        m,
    )[i].name by {}
    assert(before.len() == after.len());
    assert forall|i: int| 0 <= i < before.len() implies (#[trigger] before[i]).name
        == after[i].name by {
        let w = shows.watching.len() as int;
        let q = shows.plan_to_watch.len() as int;
        if filter == UiShowCategory::All {
            if i < w {
                assert(before[i] == shows.watching[i]);
                assert(after[i] == shows.replaced(c, j, m).watching[i]);
            } else if i < w + q {
                assert(before[i] == shows.plan_to_watch[i - w]);
                assert(after[i] == shows.replaced(c, j, m).plan_to_watch[i - w]);
            } else {
                assert(before[i] == shows.completed[i - w - q]);
                assert(after[i] == shows.replaced(c, j, m).completed[i - w - q]);
            }
        }
    }
}

/// No two shows of the list have the same key.
pub open spec fn keys_unique(shows: Seq<ShowModel>) -> bool {
    forall|a: int, b: int|
        0 <= a < shows.len() && 0 <= b < shows.len() && (#[trigger] shows[a]).key() == (
        #[trigger] shows[b]).key() ==> a == b
}

/// The shows that a category filter lets through have keys of their own.
pub proof fn lemma_scope_unique(shows: CollectionModel, filter: UiShowCategory)
    requires
        shows.wf(),
    ensures
        keys_unique(scope(shows, filter)),
{
    let source = scope(shows, filter);
    assert forall|a: int, b: int|
        0 <= a < source.len() && 0 <= b < source.len() && (#[trigger] source[a]).key() == (
        #[trigger] source[b]).key() implies a == b by {
        match filter {
            UiShowCategory::All => {
                lemma_every_unique(shows, a, b);
            },
            _ => {
                lemma_index_of(source, source[a].key(), a);
                lemma_index_of(source, source[b].key(), b);
            },
        }
    }
}

/// Where a matching show is taken out of a list of shows with keys of their
/// own, it leaves the matching shows at the one place where a show with
/// its key stands among them.
pub proof fn lemma_matching_remove(shows: Seq<ShowModel>, term: Seq<char>, k: int, i: int)
    requires
        0 <= k < shows.len(),
        keys_unique(shows),
        0 <= i < matching(shows, term).len(),
        matching(shows, term)[i].key() == shows[k].key(),
    ensures
        matching(shows.remove(k), term) == matching(shows, term).remove(i),
{
    let front = shows.take(k);
    let back = shows.skip(k + 1);
    let one = seq![shows[k]];
    let pred = matcher(term);
    let found = matching(shows, term);
    let a = front.filter(pred);
    let b = back.filter(pred);
    assert(shows.remove(k) =~= front + back);
    assert(shows =~= front + one + back);
    Seq::filter_distributes_over_add(front, back, pred);
    Seq::filter_distributes_over_add(front, one, pred);
    Seq::filter_distributes_over_add(front + one, back, pred);
    shows.lemma_filter_pred(pred, i);
    assert(name_matches(shows[k].key(), term));
    assert(one.filter(pred) == one) by {
        reveal(Seq::filter);
        assert(one.drop_last() =~= Seq::<ShowModel>::empty());
        assert(one.drop_last().filter(pred) =~= Seq::<ShowModel>::empty());
        assert(Seq::<ShowModel>::empty().push(shows[k]) =~= one);
    }
    assert(found == a + one + b);
    if i < a.len() {
        assert(found[i] == a[i]);
        assert(a.contains(a[i]));
        front.lemma_filter_contains_rev(pred, a[i]);
        let n = choose|n: int| 0 <= n < front.len() && front[n] == a[i];
        assert(shows[n] == front[n]);
    }
    if i > a.len() {
        let m = i - a.len() - 1;
        assert(found[i] == b[m]);
        assert(b.contains(b[m]));
        back.lemma_filter_contains_rev(pred, b[m]);
        let n = choose|n: int| 0 <= n < back.len() && back[n] == b[m];
        assert(shows[n + k + 1] == back[n]);
    }
    assert(found.remove(i) =~= a + b);
}

/// In a well-formed collection no two shows have the same key, whatever
/// their categories.
pub proof fn lemma_every_unique(shows: CollectionModel, a: int, b: int)
    requires
        shows.wf(),
        0 <= a < shows.every().len(),
        0 <= b < shows.every().len(),
        shows.every()[a].key() == shows.every()[b].key(),
    ensures
        a == b,
{
    let every = shows.every();
    lemma_scope_member(shows, UiShowCategory::All, a);
    lemma_scope_member(shows, UiShowCategory::All, b);
    let w = shows.watching.len() as int;
    let p = shows.plan_to_watch.len() as int;
    let ca = every[a].category;
    let cb = every[b].category;
    let ja = if a < w { a } else if a < w + p { a - w } else { a - w - p };
    let jb = if b < w { b } else if b < w + p { b - w } else { b - w - p };
    assert(shows.partition(ca)[ja] == every[a]);
    assert(shows.partition(cb)[jb] == every[b]);
    shows.lemma_locate(ca, ja);
    shows.lemma_locate(cb, jb);
}

impl ViewModel {
    /// Each show of the visible set is held by the collection, under the
    /// same name, and where the filter is one category, in the partition of
    /// that category.
    pub proof fn lemma_visible_located(self, i: int)
        requires
            self.wf(),
            0 <= i < self.visible.len(),
        ensures
            self.located(i) is Some,
            ({
                let (c, j) = self.located(i).unwrap();
                &&& 0 <= j < self.shows.partition(c).len()
                &&& self.shows.partition(c)[j].name == self.visible[i].name
                &&& self.shows.partition(c)[j].category == c
                &&& self.category != UiShowCategory::All ==> self.category == ui_category(c)
            }),
    {
        let source = scope(self.shows, self.category);
        let found = visible_set(self.shows, self.category, self.search_term);
        assert(found[i].name == self.visible[i].name);
        assert(found.contains(found[i]));
        source.lemma_filter_contains_rev(matcher(self.search_term), found[i]);
        let k = choose|k: int| 0 <= k < source.len() && source[k] == found[i];
        lemma_scope_member(self.shows, self.category, k);
        let m = source[k];
        let j = index_of(self.shows.partition(m.category), m.key());
        self.shows.lemma_locate(m.category, j);
    }

    /// The page of a well-formed view is a window of at most ten shows of
    /// the visible set, and it is empty only where the visible set is.
    pub proof fn lemma_page_window(self)
        requires
            self.wf(),
        ensures
            0 <= self.page_begin() <= self.page_end() <= self.visible.len(),
            self.page_end() - self.page_begin() <= 10,
            self.visible.len() > 0 ==> self.page_begin() < self.page_end(),
            self.page == self.page_count() ==> self.page_end() == self.visible.len(),
            self.page < self.page_count() ==> self.page_end() - self.page_begin() == 10,
    {
    }

    /// A view whose visible set was just computed is well formed.
    pub proof fn lemma_refreshed(self)
        requires
            self.shows.wf(),
        ensures
            self.refreshed().wf(),
    {
    }

    /// Editing a visible show keeps the view well formed, as long as the
    /// show keeps its name.
    pub proof fn lemma_edited(self, i: int, m: ShowModel)
        requires
            self.wf(),
            0 <= i < self.visible.len() ==> m.name == self.visible[i].name,
        ensures
            self.edited(i, m).wf(),
    {
        if 0 <= i < self.visible.len() {
            let found = visible_set(self.shows, self.category, self.search_term);
            let after = self.visible.update(i, m);
            assert forall|k: int| 0 <= k < after.len() implies (#[trigger] after[k]).name
                == found[k].name by {
                assert(self.visible[k].name == found[k].name);
            }
        }
    }

    /// Adding a show keeps the view well formed.
    pub proof fn lemma_added(self, m: ShowModel)
        requires
            self.wf(),
        ensures
            self.added(m).wf(),
    {
        self.shows.lemma_inserted(m);
    }

    /// Applying the edits of a visible show keeps the view well formed.
    pub proof fn lemma_updated(self, i: int)
        requires
            self.wf(),
        ensures
            self.updated(i).wf(),
    {
        if 0 <= i < self.visible.len() {
            self.lemma_visible_located(i);
            let (c, j) = self.located(i).unwrap();
            let m = self.visible[i];
            if m.category == c {
                let shows = self.shows.replaced(c, j, m);
                self.shows.lemma_replaced(c, j, m);
                lemma_replaced_scope(self.shows, c, j, m, self.category);
                lemma_matching_same_names(
                    scope(self.shows, self.category),
                    scope(shows, self.category),
                    self.search_term,
                );
                let before = visible_set(self.shows, self.category, self.search_term);
                let after = visible_set(shows, self.category, self.search_term);
                assert forall|k: int| 0 <= k < self.visible.len() implies (
                #[trigger] self.visible[k]).name == after[k].name by {
                    assert(self.visible[k].name == before[k].name);
                    assert(before[k].name == after[k].name);
                }
            } else {
                self.shows.lemma_removed(c, j);
                self.shows.removed(c, j).lemma_inserted(m);
            }
        }
    }

    /// Removing a visible show keeps the view well formed.
    pub proof fn lemma_removed(self, i: int)
        requires
            self.wf(),
        ensures
            self.removed(i).wf(),
    {
        if 0 <= i < self.visible.len() {
            self.lemma_visible_located(i);
            let (c, j) = self.located(i).unwrap();
            self.shows.lemma_removed(c, j);
            let before = scope(self.shows, self.category);
            let after = scope(self.shows.removed(c, j), self.category);
            let w = self.shows.watching.len() as int;
            let p = self.shows.plan_to_watch.len() as int;
            let k = if self.category == UiShowCategory::All {
                match c {
                    ShowCategory::Watching => j,
                    ShowCategory::PlanToWatch => w + j,
                    ShowCategory::Completed => w + p + j,
                }
            } else {
                j
            };
            assert(before[k] == self.shows.partition(c)[j]);
            assert(after =~= before.remove(k));
            let found = visible_set(self.shows, self.category, self.search_term);
            assert(found[i].name == self.visible[i].name);
            lemma_scope_unique(self.shows, self.category);
            lemma_matching_remove(before, self.search_term, k, i);
            let left = self.visible.remove(i);
            let right = found.remove(i);
            assert forall|n: int| 0 <= n < left.len() implies (#[trigger] left[n]).name
                == right[n].name by {
                if n < i {
                    assert(self.visible[n].name == found[n].name);
                } else {
                    assert(self.visible[n + 1].name == found[n + 1].name);
                }
            }
        }
    }

    /// A show whose key is held already is not added, whatever its
    /// category: after a show was submitted, a second one with the same
    /// key leaves the view and the collection as they are.
    pub proof fn lemma_add_twice(self, first: ShowModel, second: ShowModel)
        requires
            self.wf(),
            name_fits(first.name),
            second.key() == first.key(),
        ensures
            !self.added(first).accepts(second),
            self.added(first).added(second) == self.added(first),
            self.added(first).shows.len() == self.added(first).added(second).shows.len(),
    {
        self.shows.lemma_inserted(first);
    }

    /// A show that moves to another category is afterwards held by the
    /// partition of its new category and by no other, and the view shows
    /// that category.
    pub proof fn lemma_transfer(self, i: int)
        requires
            self.wf(),
            self.moves(i),
        ensures
            ({
                let (c, j) = self.located(i).unwrap();
                let m = self.visible[i];
                let after = self.updated(i);
                &&& after.wf()
                &&& !holds_key(after.shows.partition(c), m.key())
                &&& after.shows.locate(m.key()) is Some
                &&& after.shows.locate(m.key()).unwrap().0 == m.category
                &&& after.category == ui_category(m.category)
                &&& after.page == 1
                &&& after.shows.len() == self.shows.len()
            }),
    {
        self.lemma_updated(i);
        self.lemma_visible_located(i);
        let (c, j) = self.located(i).unwrap();
        let m = self.visible[i];
        let without = self.shows.removed(c, j);
        self.shows.lemma_removed(c, j);
        without.lemma_inserted(m);
        let after = without.inserted(m);
        let d = m.category;
        let k = insertion_point(without.partition(d), m.key());
        lemma_insertion_point_exists(without.partition(d), m.key());
        assert(after.partition(d)[k] == m);
        after.lemma_locate(d, k);
        if holds_key(after.partition(c), m.key()) {
            let n = index_of(after.partition(c), m.key());
            after.lemma_locate(c, n);
        }
    }

    /// Applying edits that keep the category of a show leaves the visible
    /// set, the page and the number of pages as they are.
    pub proof fn lemma_update_in_place(self, i: int)
        requires
            !self.moves(i),
        ensures
            self.updated(i).visible == self.visible,
            self.updated(i).page == self.page,
            self.updated(i).page_count() == self.page_count(),
            self.updated(i).category == self.category,
            self.updated(i).search_term == self.search_term,
    {
    }

    /// After a visible show was removed the visible set has one show less,
    /// the shows before it keep their positions, the shows behind it move
    /// up by one, and the pages are counted for the new number of shows.
    pub proof fn lemma_removed_count(self, i: int)
        requires
            self.wf(),
            0 <= i < self.visible.len(),
        ensures
            self.removed(i).visible.len() == self.visible.len() - 1,
            self.removed(i).page_count() == num_pages((self.visible.len() - 1) as nat),
            self.removed(i).shows.len() == self.shows.len() - 1,
            forall|n: int| 0 <= n < i ==> self.removed(i).visible[n] == self.visible[n],
            forall|n: int|
                i <= n < self.visible.len() - 1 ==> self.removed(i).visible[n] == self.visible[n
                    + 1],
    {
        self.lemma_visible_located(i);
        let (c, j) = self.located(i).unwrap();
        self.shows.lemma_removed(c, j);
    }

    /// A view that is loaded from the shows of a well-formed collection,
    /// read out category by category, is a view on the same collection.
    pub proof fn lemma_reloaded(self)
        requires
            self.shows.wf(),
        ensures
            ViewModel::loaded(self.shows.every()).shows == self.shows,
            ViewModel::loaded(self.shows.every()).wf(),
    {
        self.shows.lemma_of_every();
        ViewModel::loaded(self.shows.every()).lemma_refreshed();
    }
}

} // verus!
