//! The show collection as it is kept: one sorted list of shows per category.

use vstd::prelude::*;
use crate::collection::{
    holds_key, is_insertion_point, lemma_insertion_point, sorted_by_key, CollectionModel,
};
use crate::order::{lex_less, lemma_lex_total, lemma_lex_transitive, KeyOrder};
use crate::show::{models, DisplayShow, ShowCategory};

verus! {

/// The binary search of a sorted partition for the key of `probe`: the
/// position of the show that has the key, or else the insertion point.
pub fn search(shows: &Vec<DisplayShow>, probe: &DisplayShow) -> (r: Result<usize, usize>)
    requires
        sorted_by_key(models(shows@)),
    ensures
        match r {
            Ok(i) => i < shows.len() && models(shows@)[i as int].key() == probe@.key(),
            Err(i) => is_insertion_point(models(shows@), probe@.key(), i as int),
        },
{
    let ghost p = models(shows@);
    let ghost key = probe@.key();
    let mut lo: usize = 0;
    let mut hi: usize = shows.len();
    while lo < hi
        invariant
            lo <= hi <= shows.len(),
            p == models(shows@),
            key == probe@.key(),
            sorted_by_key(p),
            forall|j: int| 0 <= j < lo ==> lex_less((#[trigger] p[j]).key(), key),
            forall|j: int| hi <= j < p.len() ==> lex_less(key, (#[trigger] p[j]).key()),
        decreases hi - lo,
    {
        let mid = lo + (hi - lo) / 2;
        assert(p[mid as int] == shows@[mid as int]@);
        match shows[mid].key_order(probe) {
            KeyOrder::Before => {
                assert forall|j: int| 0 <= j < mid + 1 implies lex_less(
                    (#[trigger] p[j]).key(),
                    key,
                ) by {
                    if j < mid {
                        assert(lex_less(p[j].key(), p[mid as int].key()));
                        lemma_lex_transitive(p[j].key(), p[mid as int].key(), key);
                    }
                }
                lo = mid + 1;
            },
            KeyOrder::Same => {
                return Ok(mid);
            },
            KeyOrder::After => {
                proof {
                    lemma_lex_total(p[mid as int].key(), key);
                }
                assert forall|j: int| mid <= j < p.len() implies lex_less(
                    key,
                    (#[trigger] p[j]).key(),
                ) by {
                    if mid < j {
                        assert(lex_less(p[mid as int].key(), p[j].key()));
                        lemma_lex_transitive(key, p[mid as int].key(), p[j].key());
                    }
                }
                hi = mid;
            },
        }
    }
    Err(lo)
}

/// The shows, one sorted partition per category.
pub struct CategorizedShows {
    watching: Vec<DisplayShow>,
    plan_to_watch: Vec<DisplayShow>,
    completed: Vec<DisplayShow>,
}

impl View for CategorizedShows {
    type V = CollectionModel;

    closed spec fn view(&self) -> CollectionModel {
        CollectionModel {
            watching: models(self.watching@),
            plan_to_watch: models(self.plan_to_watch@),
            completed: models(self.completed@),
        }
    }
}

/// What a list holds after a show went in, in terms of what it held before.
proof fn lemma_models_insert(before: Seq<DisplayShow>, i: int, show: DisplayShow)
    requires
        0 <= i <= before.len(),
    ensures
        models(before.insert(i, show)) == models(before).insert(i, show@),
{
    assert(models(before.insert(i, show)) =~= models(before).insert(i, show@));
}

/// What a list holds after a show left, in terms of what it held before.
proof fn lemma_models_remove(before: Seq<DisplayShow>, i: int)
    requires
        0 <= i < before.len(),
    ensures
        models(before.remove(i)) == models(before).remove(i),
{
    assert(models(before.remove(i)) =~= models(before).remove(i));
}

/// What a list holds after a show was replaced, in terms of what it held
/// before.
proof fn lemma_models_update(before: Seq<DisplayShow>, i: int, show: DisplayShow)
    requires
        0 <= i < before.len(),
    ensures
        models(before.update(i, show)) == models(before).update(i, show@),
{
    assert(models(before.update(i, show)) =~= models(before).update(i, show@));
}

impl CategorizedShows {
    /// Each partition is sorted by key and holds shows of its own category
    /// only, and no key is held twice.
    pub open spec fn wf(&self) -> bool {
        self@.wf()
    }

    /// A collection without shows.
    pub fn new() -> (r: CategorizedShows)
        ensures
            r@ == CollectionModel::empty(),
            r.wf(),
    {
        let r = CategorizedShows {
            watching: Vec::new(),
            plan_to_watch: Vec::new(),
            completed: Vec::new(),
        };
        assert(r@.watching =~= Seq::empty());
        assert(r@.plan_to_watch =~= Seq::empty());
        assert(r@.completed =~= Seq::empty());
        r
    }

    /// The partition of a category.
    pub fn partition(&self, c: ShowCategory) -> (r: &Vec<DisplayShow>)
        ensures
            models(r@) == self@.partition(c),
    {
        match c {
            ShowCategory::Watching => &self.watching,
            ShowCategory::PlanToWatch => &self.plan_to_watch,
            ShowCategory::Completed => &self.completed,
        }
    }

    /// Looks for the show that has the key of `probe`, in every partition.
    /// Where no show has it, the result is the insertion point in the
    /// partition of `add_category`, or `usize::MAX` where that is `None`.
    pub fn find(&self, probe: &DisplayShow, add_category: Option<ShowCategory>) -> (r: Result<
        (ShowCategory, usize),
        usize,
    >)
        requires
            self.wf(),
        ensures
            match r {
                Ok((c, i)) => {
                    &&& i < self@.partition(c).len()
                    &&& self@.partition(c)[i as int].key() == probe@.key()
                    &&& self@.locate(probe@.key()) == Some((c, i as int))
                },
                Err(i) => {
                    &&& !self@.holds_key(probe@.key())
                    &&& match add_category {
                        Some(a) => is_insertion_point(self@.partition(a), probe@.key(), i as int),
                        None => i == usize::MAX,
                    }
                },
            },
    {
        let mut result: usize = usize::MAX;
        match search(&self.watching, probe) {
            Ok(i) => {
                proof {
                    self@.lemma_locate(ShowCategory::Watching, i as int);
                }
                return Ok((ShowCategory::Watching, i));
            },
            Err(i) => {
                proof {
                    lemma_insertion_point(self@.watching, probe@.key(), i as int);
                }
                if let Some(ShowCategory::Watching) = add_category {
                    result = i;
                }
            },
        }
        match search(&self.plan_to_watch, probe) {
            Ok(i) => {
                proof {
                    self@.lemma_locate(ShowCategory::PlanToWatch, i as int);
                }
                return Ok((ShowCategory::PlanToWatch, i));
            },
            Err(i) => {
                proof {
                    lemma_insertion_point(self@.plan_to_watch, probe@.key(), i as int);
                }
                if let Some(ShowCategory::PlanToWatch) = add_category {
                    result = i;
                }
            },
        }
        match search(&self.completed, probe) {
            Ok(i) => {
                proof {
                    self@.lemma_locate(ShowCategory::Completed, i as int);
                }
                return Ok((ShowCategory::Completed, i));
            },
            Err(i) => {
                proof {
                    lemma_insertion_point(self@.completed, probe@.key(), i as int);
                }
                if let Some(ShowCategory::Completed) = add_category {
                    result = i;
                }
            },
        }
        Err(result)
    }

    /// Looks for the show that has the key of `probe`, in the partition of
    /// `c` only: its position, or else the insertion point.
    pub fn find_in(&self, c: ShowCategory, probe: &DisplayShow) -> (r: Result<usize, usize>)
        requires
            self.wf(),
        ensures
            match r {
                Ok(i) => {
                    &&& i < self@.partition(c).len()
                    &&& self@.partition(c)[i as int].key() == probe@.key()
                    &&& self@.locate(probe@.key()) == Some((c, i as int))
                },
                Err(i) => {
                    &&& !holds_key(self@.partition(c), probe@.key())
                    &&& is_insertion_point(self@.partition(c), probe@.key(), i as int)
                },
            },
    {
        let r = search(self.partition(c), probe);
        proof {
            match r {
                Ok(i) => {
                    self@.lemma_locate(c, i as int);
                },
                Err(i) => {
                    lemma_insertion_point(self@.partition(c), probe@.key(), i as int);
                },
            }
        }
        r
    }

    /// Puts `show` at position `i` of the partition of its category.
    fn insert_at(&mut self, i: usize, show: DisplayShow)
        requires
            i <= old(self)@.partition(show.category).len(),
        ensures
            final(self)@ == old(self)@.with_partition(
                show.category,
                old(self)@.partition(show.category).insert(i as int, show@),
            ),
    {
        proof {
            lemma_models_insert(
                match show.category {
                    ShowCategory::Watching => self.watching@,
                    ShowCategory::PlanToWatch => self.plan_to_watch@,
                    ShowCategory::Completed => self.completed@,
                },
                i as int,
                show,
            );
        }
        match show.category {
            ShowCategory::Watching => self.watching.insert(i, show),
            ShowCategory::PlanToWatch => self.plan_to_watch.insert(i, show),
            ShowCategory::Completed => self.completed.insert(i, show),
        }
    }

    /// Adds a show, unless a show with the same key is held already, in
    /// whatever category. Says whether the show was added.
    pub fn add(&mut self, show: DisplayShow) -> (added: bool)
        requires
            old(self).wf(),
        ensures
            final(self).wf(),
            final(self)@ == old(self)@.inserted(show@),
            added == !old(self)@.holds_key(show@.key()),
    {
        proof {
            self@.lemma_inserted(show@);
        }
        match self.find(&show, Some(show.category)) {
            Ok(_) => false,
            Err(i) => {
                proof {
                    lemma_insertion_point(self@.partition(show.category), show@.key(), i as int);
                }
                self.insert_at(i, show);
                true
            },
        }
    }

    /// Takes out the show at position `i` of the partition of `c`.
    pub fn remove(&mut self, c: ShowCategory, i: usize) -> (show: DisplayShow)
        requires
            old(self).wf(),
            i < old(self)@.partition(c).len(),
        ensures
            final(self).wf(),
            final(self)@ == old(self)@.removed(c, i as int),
            show@ == old(self)@.partition(c)[i as int],
    {
        proof {
            self@.lemma_removed(c, i as int);
            lemma_models_remove(
                match c {
                    ShowCategory::Watching => self.watching@,
                    ShowCategory::PlanToWatch => self.plan_to_watch@,
                    ShowCategory::Completed => self.completed@,
                },
                i as int,
            );
        }
        match c {
            ShowCategory::Watching => self.watching.remove(i),
            ShowCategory::PlanToWatch => self.plan_to_watch.remove(i),
            ShowCategory::Completed => self.completed.remove(i),
        }
    }

    /// Puts `show` in the place of the show at position `i` of the partition
    /// of its category, which has the same key.
    pub fn replace(&mut self, i: usize, show: DisplayShow)
        requires
            old(self).wf(),
            i < old(self)@.partition(show.category).len(),
            old(self)@.partition(show.category)[i as int].key() == show@.key(),
        ensures
            final(self).wf(),
            final(self)@ == old(self)@.replaced(show.category, i as int, show@),
    {
        proof {
            self@.lemma_replaced(show.category, i as int, show@);
            lemma_models_update(
                match show.category {
                    ShowCategory::Watching => self.watching@,
                    ShowCategory::PlanToWatch => self.plan_to_watch@,
                    ShowCategory::Completed => self.completed@,
                },
                i as int,
                show,
            );
        }
        match show.category {
            ShowCategory::Watching => self.watching.set(i, show),
            ShowCategory::PlanToWatch => self.plan_to_watch.set(i, show),
            ShowCategory::Completed => self.completed.set(i, show),
        }
    }
}

} // verus!
