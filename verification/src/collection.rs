//! The show collection as it is reasoned about: three partitions of shows,
//! one per category, each sorted by key, with no key held twice.

use vstd::prelude::*;
use crate::order::{lex_less, lemma_lex_irreflexive, lemma_lex_total, lemma_lex_transitive};
use crate::show::{ShowCategory, ShowModel};

verus! {

/// The keys rise strictly along the partition.
pub open spec fn sorted_by_key(p: Seq<ShowModel>) -> bool {
    forall|i: int, j: int|
        #![trigger p[i], p[j]]
        0 <= i < j < p.len() ==> lex_less(p[i].key(), p[j].key())
}

/// Every show of the partition has category `c`.
pub open spec fn all_of_category(p: Seq<ShowModel>, c: ShowCategory) -> bool {
    forall|i: int| 0 <= i < p.len() ==> (#[trigger] p[i]).category == c
}

/// Some show of the partition has the key.
pub open spec fn holds_key(p: Seq<ShowModel>, key: Seq<u8>) -> bool {
    exists|i: int| 0 <= i < p.len() && (#[trigger] p[i]).key() == key
}

/// The position in the partition of the show that has the key.
pub open spec fn index_of(p: Seq<ShowModel>, key: Seq<u8>) -> int {
    choose|i: int| 0 <= i < p.len() && (#[trigger] p[i]).key() == key
}

/// No key is held by both partitions.
pub open spec fn disjoint_keys(p: Seq<ShowModel>, q: Seq<ShowModel>) -> bool {
    forall|i: int, j: int|
        #![trigger p[i], q[j]]
        0 <= i < p.len() && 0 <= j < q.len() ==> p[i].key() != q[j].key()
}

/// A show with the key would stand at position `i`: every show before has a
/// smaller key, every show from `i` on a greater one.
pub open spec fn is_insertion_point(p: Seq<ShowModel>, key: Seq<u8>, i: int) -> bool {
    &&& 0 <= i <= p.len()
    &&& forall|j: int| 0 <= j < i ==> lex_less((#[trigger] p[j]).key(), key)
    &&& forall|j: int| i <= j < p.len() ==> lex_less(key, (#[trigger] p[j]).key())
}

/// The position at which a show with the key would stand.
pub open spec fn insertion_point(p: Seq<ShowModel>, key: Seq<u8>) -> int {
    choose|i: int| is_insertion_point(p, key, i)
}

/// A key has at most one insertion point, and none where it is held.
pub proof fn lemma_insertion_point(p: Seq<ShowModel>, key: Seq<u8>, i: int)
    requires
        is_insertion_point(p, key, i),
    ensures
        insertion_point(p, key) == i,
        !holds_key(p, key),
{
    let c = insertion_point(p, key);
    assert(is_insertion_point(p, key, c));
    if c < i {
        assert(lex_less(p[c].key(), key));
        assert(lex_less(key, p[c].key()));
        lemma_lex_transitive(key, p[c].key(), key);
        lemma_lex_irreflexive(key);
    }
    if i < c {
        assert(lex_less(p[i].key(), key));
        assert(lex_less(key, p[i].key()));
        lemma_lex_transitive(key, p[i].key(), key);
        lemma_lex_irreflexive(key);
    }
    if holds_key(p, key) {
        let k = index_of(p, key);
        assert(p[k].key() == key);
        lemma_lex_irreflexive(key);
    }
}

/// In a sorted partition a key stands at one position at most.
pub proof fn lemma_index_of(p: Seq<ShowModel>, key: Seq<u8>, i: int)
    requires
        sorted_by_key(p),
        0 <= i < p.len(),
        p[i].key() == key,
    ensures
        holds_key(p, key),
        index_of(p, key) == i,
{
    let k = index_of(p, key);
    assert(p[k].key() == key);
    lemma_lex_irreflexive(key);
    if k < i {
        assert(lex_less(p[k].key(), p[i].key()));
    }
    if i < k {
        assert(lex_less(p[i].key(), p[k].key()));
    }
}

/// A sorted partition stays sorted when a show goes in at its insertion
/// point.
pub proof fn lemma_insert_sorted(p: Seq<ShowModel>, m: ShowModel, i: int)
    requires
        sorted_by_key(p),
        is_insertion_point(p, m.key(), i),
    ensures
        sorted_by_key(p.insert(i, m)),
{
    let q = p.insert(i, m);
    assert forall|a: int, b: int| 0 <= a < b < q.len() implies lex_less(
        (#[trigger] q[a]).key(),
        (#[trigger] q[b]).key(),
    ) by {
        if b < i {
            assert(q[a] == p[a] && q[b] == p[b]);
        } else if b == i {
            assert(q[a] == p[a] && q[b] == m);
        } else if a < i {
            assert(q[a] == p[a] && q[b] == p[b - 1]);
            if a < b - 1 {
            } else {
                lemma_lex_transitive(p[a].key(), m.key(), p[b - 1].key());
            }
        } else if a == i {
            assert(q[a] == m && q[b] == p[b - 1]);
        } else {
            assert(q[a] == p[a - 1] && q[b] == p[b - 1]);
        }
    }
}

/// A sorted partition stays sorted when a show leaves, and no longer holds
/// the key of that show.
pub proof fn lemma_remove_sorted(p: Seq<ShowModel>, i: int)
    requires
        sorted_by_key(p),
        0 <= i < p.len(),
    ensures
        sorted_by_key(p.remove(i)),
        !holds_key(p.remove(i), p[i].key()),
        is_insertion_point(p.remove(i), p[i].key(), i),
{
    let q = p.remove(i);
    assert forall|a: int, b: int| 0 <= a < b < q.len() implies lex_less(
        (#[trigger] q[a]).key(),
        (#[trigger] q[b]).key(),
    ) by {
        let pa = if a < i { a } else { a + 1 };
        let pb = if b < i { b } else { b + 1 };
        assert(q[a] == p[pa] && q[b] == p[pb]);
    }
    assert forall|j: int| 0 <= j < i implies lex_less((#[trigger] q[j]).key(), p[i].key()) by {
        assert(q[j] == p[j]);
    }
    assert forall|j: int| i <= j < q.len() implies lex_less(
        p[i].key(),
        (#[trigger] q[j]).key(),
    ) by {
        assert(q[j] == p[j + 1]);
    }
    lemma_insertion_point(q, p[i].key(), i);
}

/// A sorted partition that does not hold a key has an insertion point for
/// it.
pub proof fn lemma_insertion_point_exists(p: Seq<ShowModel>, key: Seq<u8>)
    requires
        sorted_by_key(p),
        !holds_key(p, key),
    ensures
        is_insertion_point(p, key, insertion_point(p, key)),
    decreases p.len(),
{
    if p.len() == 0 {
        assert(is_insertion_point(p, key, 0));
    } else {
        let last = p.len() - 1;
        let front = p.drop_last();
        assert(p[last].key() != key);
        lemma_lex_total(p[last].key(), key);
        if lex_less(p[last].key(), key) {
            assert forall|j: int| 0 <= j < p.len() implies lex_less(
                (#[trigger] p[j]).key(),
                key,
            ) by {
                if j < last {
                    assert(lex_less(p[j].key(), p[last].key()));
                    lemma_lex_transitive(p[j].key(), p[last].key(), key);
                }
            }
            assert(is_insertion_point(p, key, p.len() as int));
        } else {
            assert forall|i: int, j: int| 0 <= i < j < front.len() implies lex_less(
                (#[trigger] front[i]).key(),
                (#[trigger] front[j]).key(),
            ) by {
                assert(front[i] == p[i] && front[j] == p[j]);
            }
            if holds_key(front, key) {
                let k = index_of(front, key);
                assert(front[k] == p[k]);
            }
            lemma_insertion_point_exists(front, key);
            let i = insertion_point(front, key);
            assert forall|j: int| 0 <= j < i implies lex_less((#[trigger] p[j]).key(), key) by {
                assert(front[j] == p[j]);
            }
            assert forall|j: int| i <= j < p.len() implies lex_less(
                key,
                (#[trigger] p[j]).key(),
            ) by {
                if j < last {
                    assert(front[j] == p[j]);
                }
            }
            assert(is_insertion_point(p, key, i));
        }
    }
}

/// Disjointness does not depend on the order of the two partitions.
pub proof fn lemma_disjoint_symmetric(p: Seq<ShowModel>, q: Seq<ShowModel>)
    requires
        disjoint_keys(p, q),
    ensures
        disjoint_keys(q, p),
{
    assert forall|i: int, j: int| 0 <= i < q.len() && 0 <= j < p.len() implies (
    #[trigger] q[i]).key() != (#[trigger] p[j]).key() by {
        assert(p[j].key() != q[i].key());
    }
}

/// A show that goes into a partition keeps it apart from another partition
/// that does not hold the key of the show, and the shows keep their category.
pub proof fn lemma_insert_apart(p: Seq<ShowModel>, other: Seq<ShowModel>, m: ShowModel, i: int)
    requires
        0 <= i <= p.len(),
        disjoint_keys(p, other),
        !holds_key(other, m.key()),
    ensures
        disjoint_keys(p.insert(i, m), other),
        disjoint_keys(other, p.insert(i, m)),
        all_of_category(p, m.category) ==> all_of_category(p.insert(i, m), m.category),
        holds_key(p.insert(i, m), m.key()),
        p.insert(i, m).len() == p.len() + 1,
{
    let q = p.insert(i, m);
    assert(q[i] == m);
    assert forall|a: int, b: int| 0 <= a < q.len() && 0 <= b < other.len() implies (
    #[trigger] q[a]).key() != (#[trigger] other[b]).key() by {
        if a < i {
            assert(q[a] == p[a]);
        } else if a == i {
            assert(other[b].key() != m.key());
        } else {
            assert(q[a] == p[a - 1]);
        }
    }
    lemma_disjoint_symmetric(q, other);
    if all_of_category(p, m.category) {
        assert forall|a: int| 0 <= a < q.len() implies (#[trigger] q[a]).category
            == m.category by {
            if a < i {
                assert(q[a] == p[a]);
            } else if a > i {
                assert(q[a] == p[a - 1]);
            }
        }
    }
}

/// A show that leaves a partition leaves it apart from every partition it
/// was apart from, and the shows keep their category.
pub proof fn lemma_remove_apart(p: Seq<ShowModel>, other: Seq<ShowModel>, c: ShowCategory, i: int)
    requires
        0 <= i < p.len(),
        disjoint_keys(p, other),
    ensures
        disjoint_keys(p.remove(i), other),
        disjoint_keys(other, p.remove(i)),
        all_of_category(p, c) ==> all_of_category(p.remove(i), c),
        p.remove(i).len() == p.len() - 1,
{
    let q = p.remove(i);
    assert forall|a: int, b: int| 0 <= a < q.len() && 0 <= b < other.len() implies (
    #[trigger] q[a]).key() != (#[trigger] other[b]).key() by {
        if a < i {
            assert(q[a] == p[a]);
        } else {
            assert(q[a] == p[a + 1]);
        }
    }
    lemma_disjoint_symmetric(q, other);
    if all_of_category(p, c) {
        assert forall|a: int| 0 <= a < q.len() implies (#[trigger] q[a]).category == c by {
            if a < i {
                assert(q[a] == p[a]);
            } else {
                assert(q[a] == p[a + 1]);
            }
        }
    }
}

/// A show that takes the place of one with the same key leaves the
/// partition sorted and apart from every partition it was apart from.
pub proof fn lemma_update_apart(p: Seq<ShowModel>, other: Seq<ShowModel>, m: ShowModel, i: int)
    requires
        0 <= i < p.len(),
        p[i].key() == m.key(),
        disjoint_keys(p, other),
    ensures
        disjoint_keys(p.update(i, m), other),
        disjoint_keys(other, p.update(i, m)),
        sorted_by_key(p) ==> sorted_by_key(p.update(i, m)),
        all_of_category(p, m.category) ==> all_of_category(p.update(i, m), m.category),
{
    let q = p.update(i, m);
    assert forall|a: int, b: int| 0 <= a < q.len() && 0 <= b < other.len() implies (
    #[trigger] q[a]).key() != (#[trigger] other[b]).key() by {
        assert(q[a].key() == p[a].key());
    }
    lemma_disjoint_symmetric(q, other);
    if sorted_by_key(p) {
        assert forall|a: int, b: int| 0 <= a < b < q.len() implies lex_less(
            (#[trigger] q[a]).key(),
            (#[trigger] q[b]).key(),
        ) by {
            assert(q[a].key() == p[a].key() && q[b].key() == p[b].key());
            assert(lex_less(p[a].key(), p[b].key()));
        }
    }
    if all_of_category(p, m.category) {
        assert forall|a: int| 0 <= a < q.len() implies (#[trigger] q[a]).category
            == m.category by {
            if a != i {
                assert(q[a] == p[a]);
            }
        }
    }
}

/// The three partitions of a collection.
pub struct CollectionModel {
    pub watching: Seq<ShowModel>,
    pub plan_to_watch: Seq<ShowModel>,
    pub completed: Seq<ShowModel>,
}

impl CollectionModel {
    /// The collection without any show.
    pub open spec fn empty() -> CollectionModel {
        CollectionModel {
            watching: Seq::empty(),
            plan_to_watch: Seq::empty(),
            completed: Seq::empty(),
        }
    }

    /// The partition of a category.
    pub open spec fn partition(self, c: ShowCategory) -> Seq<ShowModel> {
        match c {
            ShowCategory::Watching => self.watching,
            ShowCategory::PlanToWatch => self.plan_to_watch,
            ShowCategory::Completed => self.completed,
        }
    }

    /// The collection with the partition of `c` replaced by `p`.
    pub open spec fn with_partition(self, c: ShowCategory, p: Seq<ShowModel>) -> CollectionModel {
        match c {
            ShowCategory::Watching => CollectionModel { watching: p, ..self },
            ShowCategory::PlanToWatch => CollectionModel { plan_to_watch: p, ..self },
            ShowCategory::Completed => CollectionModel { completed: p, ..self },
        }
    }

    /// All shows, category by category.
    pub open spec fn every(self) -> Seq<ShowModel> {
        self.watching + self.plan_to_watch + self.completed
    }

    /// The number of shows.
    pub open spec fn len(self) -> nat {
        self.watching.len() + self.plan_to_watch.len() + self.completed.len()
    }

    /// Some partition holds the key.
    pub open spec fn holds_key(self, key: Seq<u8>) -> bool {
        ||| holds_key(self.watching, key)
        ||| holds_key(self.plan_to_watch, key)
        ||| holds_key(self.completed, key)
    }

    /// Where the show with the key stands: its partition and its position
    /// there.
    pub open spec fn locate(self, key: Seq<u8>) -> Option<(ShowCategory, int)> {
        if holds_key(self.watching, key) {
            Some((ShowCategory::Watching, index_of(self.watching, key)))
        } else if holds_key(self.plan_to_watch, key) {
            Some((ShowCategory::PlanToWatch, index_of(self.plan_to_watch, key)))
        } else if holds_key(self.completed, key) {
            Some((ShowCategory::Completed, index_of(self.completed, key)))
        } else {
            None
        }
    }

    /// Each partition is sorted by key and holds shows of its own category
    /// only, and no key is held twice.
    pub open spec fn wf(self) -> bool {
        &&& sorted_by_key(self.watching)
        &&& sorted_by_key(self.plan_to_watch)
        &&& sorted_by_key(self.completed)
        &&& all_of_category(self.watching, ShowCategory::Watching)
        &&& all_of_category(self.plan_to_watch, ShowCategory::PlanToWatch)
        &&& all_of_category(self.completed, ShowCategory::Completed)
        &&& disjoint_keys(self.watching, self.plan_to_watch)
        &&& disjoint_keys(self.watching, self.completed)
        &&& disjoint_keys(self.plan_to_watch, self.completed)
    }

    /// The collection after `m` was added: unchanged where the key of `m` is
    /// held already, in whatever category; else `m` stands in the partition
    /// of its category, at its insertion point.
    pub open spec fn inserted(self, m: ShowModel) -> CollectionModel {
        if self.holds_key(m.key()) {
            self
        } else {
            let p = self.partition(m.category);
            self.with_partition(m.category, p.insert(insertion_point(p, m.key()), m))
        }
    }

    /// The collection without the show at position `i` of partition `c`.
    pub open spec fn removed(self, c: ShowCategory, i: int) -> CollectionModel {
        self.with_partition(c, self.partition(c).remove(i))
    }

    /// The collection with `m` in place of the show at position `i` of
    /// partition `c`.
    pub open spec fn replaced(self, c: ShowCategory, i: int, m: ShowModel) -> CollectionModel {
        self.with_partition(c, self.partition(c).update(i, m))
    }

    /// The collection that holds the given shows, added one after the other.
    pub open spec fn of(shows: Seq<ShowModel>) -> CollectionModel
        decreases shows.len(),
    {
        if shows.len() == 0 {
            CollectionModel::empty()
        } else {
            CollectionModel::of(shows.drop_last()).inserted(shows.last())
        }
    }

    /// Adding a show keeps the collection well formed, and afterwards the
    /// collection holds the key of the show.
    pub proof fn lemma_inserted(self, m: ShowModel)
        requires
            self.wf(),
        ensures
            self.inserted(m).wf(),
            self.inserted(m).holds_key(m.key()),
            self.holds_key(m.key()) ==> self.inserted(m) == self,
            !self.holds_key(m.key()) ==> self.inserted(m).len() == self.len() + 1,
    {
        if !self.holds_key(m.key()) {
            let p = self.partition(m.category);
            lemma_insertion_point_exists(p, m.key());
            let i = insertion_point(p, m.key());
            lemma_insert_sorted(p, m, i);
            lemma_disjoint_symmetric(self.watching, self.plan_to_watch);
            lemma_disjoint_symmetric(self.watching, self.completed);
            lemma_disjoint_symmetric(self.plan_to_watch, self.completed);
            match m.category {
                ShowCategory::Watching => {
                    lemma_insert_apart(p, self.plan_to_watch, m, i);
                    lemma_insert_apart(p, self.completed, m, i);
                },
                ShowCategory::PlanToWatch => {
                    lemma_insert_apart(p, self.watching, m, i);
                    lemma_insert_apart(p, self.completed, m, i);
                },
                ShowCategory::Completed => {
                    lemma_insert_apart(p, self.watching, m, i);
                    lemma_insert_apart(p, self.plan_to_watch, m, i);
                },
            }
        }
    }

    /// Removing a show keeps the collection well formed, and afterwards the
    /// collection does not hold the key of the show.
    pub proof fn lemma_removed(self, c: ShowCategory, i: int)
        requires
            self.wf(),
            0 <= i < self.partition(c).len(),
        ensures
            self.removed(c, i).wf(),
            !self.removed(c, i).holds_key(self.partition(c)[i].key()),
            self.removed(c, i).len() == self.len() - 1,
    {
        let p = self.partition(c);
        let key = p[i].key();
        lemma_remove_sorted(p, i);
        lemma_disjoint_symmetric(self.watching, self.plan_to_watch);
        lemma_disjoint_symmetric(self.watching, self.completed);
        lemma_disjoint_symmetric(self.plan_to_watch, self.completed);
        let o1 = match c {
            ShowCategory::Watching => self.plan_to_watch,
            _ => self.watching,
        };
        let o2 = match c {
            ShowCategory::Completed => self.plan_to_watch,
            _ => self.completed,
        };
        lemma_remove_apart(p, o1, c, i);
        lemma_remove_apart(p, o2, c, i);
        if holds_key(o1, key) {
            let k = index_of(o1, key);
            assert(p[i].key() != o1[k].key());
        }
        if holds_key(o2, key) {
            let k = index_of(o2, key);
            assert(p[i].key() != o2[k].key());
        }
    }

    /// A show that takes the place of one with the same key and category
    /// keeps the collection well formed.
    pub proof fn lemma_replaced(self, c: ShowCategory, i: int, m: ShowModel)
        requires
            self.wf(),
            0 <= i < self.partition(c).len(),
            self.partition(c)[i].key() == m.key(),
            m.category == c,
        ensures
            self.replaced(c, i, m).wf(),
            self.replaced(c, i, m).len() == self.len(),
    {
        let p = self.partition(c);
        lemma_disjoint_symmetric(self.watching, self.plan_to_watch);
        lemma_disjoint_symmetric(self.watching, self.completed);
        lemma_disjoint_symmetric(self.plan_to_watch, self.completed);
        let o1 = match c {
            ShowCategory::Watching => self.plan_to_watch,
            _ => self.watching,
        };
        let o2 = match c {
            ShowCategory::Completed => self.plan_to_watch,
            _ => self.completed,
        };
        lemma_update_apart(p, o1, m, i);
        lemma_update_apart(p, o2, m, i);
    }

    /// In a well-formed collection the show with a key stands where its
    /// position in a partition says.
    pub proof fn lemma_locate(self, c: ShowCategory, i: int)
        requires
            self.wf(),
            0 <= i < self.partition(c).len(),
        ensures
            self.locate(self.partition(c)[i].key()) == Some((c, i)),
            self.holds_key(self.partition(c)[i].key()),
    {
        let p = self.partition(c);
        let key = p[i].key();
        lemma_index_of(p, key, i);
        if c != ShowCategory::Watching && holds_key(self.watching, key) {
            let k = index_of(self.watching, key);
            assert(self.watching[k].key() == p[i].key());
        }
        if c == ShowCategory::Completed && holds_key(self.plan_to_watch, key) {
            let k = index_of(self.plan_to_watch, key);
            assert(self.plan_to_watch[k].key() == p[i].key());
        }
    }
}

/// The part of a collection that its first `k` shows make up, counted
/// category by category.
pub open spec fn first_shows(shows: CollectionModel, k: int) -> CollectionModel {
    let w = shows.watching.len() as int;
    let p = shows.plan_to_watch.len() as int;
    CollectionModel {
        watching: shows.watching.take(if k < w { k } else { w }),
        plan_to_watch: shows.plan_to_watch.take(
            if k < w {
                0
            } else if k < w + p {
                k - w
            } else {
                p
            },
        ),
        completed: shows.completed.take(
            if k < w + p {
                0
            } else {
                k - w - p
            },
        ),
    }
}

/// The shows at the front of a sorted partition hold no key of a later
/// show, and a later show would go in right behind them if it is the next.
proof fn lemma_front_of_partition(p: Seq<ShowModel>, t: int, n: int)
    requires
        sorted_by_key(p),
        0 <= t <= n < p.len(),
    ensures
        !holds_key(p.take(t), p[n].key()),
        n == t ==> is_insertion_point(p.take(t), p[n].key(), t),
{
    let front = p.take(t);
    let key = p[n].key();
    assert forall|j: int| 0 <= j < t implies lex_less((#[trigger] front[j]).key(), key) by {
        assert(front[j] == p[j]);
        assert(lex_less(p[j].key(), p[n].key()));
    }
    if holds_key(front, key) {
        let j = index_of(front, key);
        assert(lex_less(front[j].key(), key));
        lemma_lex_irreflexive(key);
    }
}

/// The shows at the front of a partition hold no key of another partition
/// that is apart from it.
proof fn lemma_front_apart(p: Seq<ShowModel>, t: int, other: Seq<ShowModel>, n: int)
    requires
        disjoint_keys(p, other) || disjoint_keys(other, p),
        0 <= t <= p.len(),
        0 <= n < other.len(),
    ensures
        !holds_key(p.take(t), other[n].key()),
{
    let front = p.take(t);
    if holds_key(front, other[n].key()) {
        let j = index_of(front, other[n].key());
        assert(front[j] == p[j]);
        if disjoint_keys(p, other) {
            assert(p[j].key() != other[n].key());
        } else {
            assert(other[n].key() != p[j].key());
        }
    }
}

impl CollectionModel {
    /// The first `k` shows of a well-formed collection, added one after the
    /// other, make up the same part of the collection.
    pub proof fn lemma_of_first_shows(self, k: int)
        requires
            self.wf(),
            0 <= k <= self.every().len(),
        ensures
            CollectionModel::of(self.every().take(k)) == first_shows(self, k),
        decreases k,
    {
        let every = self.every();
        let w = self.watching.len() as int;
        let p = self.plan_to_watch.len() as int;
        if k == 0 {
            assert(every.take(0) =~= Seq::empty());
            assert(first_shows(self, 0).watching =~= Seq::empty());
            assert(first_shows(self, 0).plan_to_watch =~= Seq::empty());
            assert(first_shows(self, 0).completed =~= Seq::empty());
        } else {
            let n = k - 1;
            let m = every[n];
            self.lemma_of_first_shows(n);
            assert(every.take(k).drop_last() =~= every.take(n));
            assert(every.take(k).last() == m);
            let before = first_shows(self, n);
            let after = first_shows(self, k);
            if n < w {
                assert(m == self.watching[n]);
                assert(m.category == ShowCategory::Watching);
                lemma_front_of_partition(self.watching, n, n);
                lemma_front_apart(self.plan_to_watch, 0, self.watching, n);
                lemma_front_apart(self.completed, 0, self.watching, n);
                lemma_insertion_point(before.watching, m.key(), n);
                assert(before.watching.insert(n, m) =~= after.watching);
            } else if n < w + p {
                let t = n - w;
                assert(m == self.plan_to_watch[t]);
                assert(m.category == ShowCategory::PlanToWatch);
                lemma_front_of_partition(self.plan_to_watch, t, t);
                lemma_front_apart(self.watching, w, self.plan_to_watch, t);
                lemma_front_apart(self.completed, 0, self.plan_to_watch, t);
                lemma_insertion_point(before.plan_to_watch, m.key(), t);
                assert(before.plan_to_watch.insert(t, m) =~= after.plan_to_watch);
            } else {
                let t = n - w - p;
                assert(m == self.completed[t]);
                assert(m.category == ShowCategory::Completed);
                lemma_front_of_partition(self.completed, t, t);
                lemma_front_apart(self.watching, w, self.completed, t);
                lemma_front_apart(self.plan_to_watch, p, self.completed, t);
                lemma_insertion_point(before.completed, m.key(), t);
                assert(before.completed.insert(t, m) =~= after.completed);
            }
        }
    }

    /// A well-formed collection whose shows are read out category by
    /// category and added again, one after the other, is the same
    /// collection.
    pub proof fn lemma_of_every(self)
        requires
            self.wf(),
        ensures
            CollectionModel::of(self.every()) == self,
    {
        let every = self.every();
        self.lemma_of_first_shows(every.len() as int);
        assert(every.take(every.len() as int) =~= every);
        let all = first_shows(self, every.len() as int);
        assert(all.watching =~= self.watching);
        assert(all.plan_to_watch =~= self.plan_to_watch);
        assert(all.completed =~= self.completed);
    }
}

} // verus!
