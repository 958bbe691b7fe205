//! A plain list of shows, in the order in which they were added, where a
//! show is found by its exact name and has no category.

use std::rc::Rc;
use vstd::prelude::*;
use crate::number::{decimal_text, number_text};

verus! {

/// A show of the plain list, with its name held as an `S`.
pub struct Show<S> {
    pub name: S,
    pub season_number: String,
    pub episodes_seen: String,
}

/// What a show of the plain list is: the texts of its fields.
pub struct EntryModel {
    pub name: Seq<char>,
    pub season_number: Seq<char>,
    pub episodes_seen: Seq<char>,
}

impl<S: View<V = Seq<char>>> View for Show<S> {
    type V = EntryModel;

    open spec fn view(&self) -> EntryModel {
        EntryModel {
            name: self.name@,
            season_number: self.season_number@,
            episodes_seen: self.episodes_seen@,
        }
    }
}

impl Show<Rc<String>> {
    /// A show with the given fields.
    pub fn new(name: String, season_number: String, episodes_seen: String) -> (r: Show<Rc<String>>)
        ensures
            r@ == (EntryModel {
                name: name@,
                season_number: season_number@,
                episodes_seen: episodes_seen@,
            }),
    {
        Show { name: Rc::new(name), season_number, episodes_seen }
    }

    /// A show whose season and episode are given as numbers.
    pub fn new_numeric(name: String, season_number: i64, episodes_seen: i64) -> (r: Show<
        Rc<String>,
    >)
        ensures
            r@ == (EntryModel {
                name: name@,
                season_number: decimal_text(season_number as int),
                episodes_seen: decimal_text(episodes_seen as int),
            }),
    {
        Show::new(name, number_text(season_number), number_text(episodes_seen))
    }
}

impl Show<String> {
    /// Empties every field.
    pub fn clear(&mut self)
        ensures
            final(self)@ == (EntryModel {
                name: Seq::empty(),
                season_number: Seq::empty(),
                episodes_seen: Seq::empty(),
            }),
    {
        self.name = String::new();
        self.season_number = String::new();
        self.episodes_seen = String::new();
    }
}

/// A row of the plain table, as it is loaded.
pub struct Row {
    pub name: String,
    pub season_number: i64,
    pub episodes_seen: i64,
}

/// A write that the store of the plain list is asked to perform.
pub enum Write {
    /// Insert a row.
    Insert { name: String, season_number: i64, episodes_seen: i64 },
    /// Delete the rows that have the name.
    Delete { name: String },
    /// Set the season of the rows that have the name.
    SetSeasonNumber { name: String, season_number: i64 },
    /// Set the episode count of the rows that have the name.
    SetEpisodesSeen { name: String, episodes_seen: i64 },
}

/// What a write holds.
pub enum WriteModel {
    Insert { name: Seq<char>, season_number: int, episodes_seen: int },
    Delete { name: Seq<char> },
    SetSeasonNumber { name: Seq<char>, season_number: int },
    SetEpisodesSeen { name: Seq<char>, episodes_seen: int },
}

impl View for Write {
    type V = WriteModel;

    open spec fn view(&self) -> WriteModel {
        match self {
            Write::Insert { name, season_number, episodes_seen } => WriteModel::Insert {
                name: name@,
                season_number: *season_number as int,
                episodes_seen: *episodes_seen as int,
            },
            Write::Delete { name } => WriteModel::Delete { name: name@ },
            Write::SetSeasonNumber { name, season_number } => WriteModel::SetSeasonNumber {
                name: name@,
                season_number: *season_number as int,
            },
            Write::SetEpisodesSeen { name, episodes_seen } => WriteModel::SetEpisodesSeen {
                name: name@,
                episodes_seen: *episodes_seen as int,
            },
        }
    }
}

/// What a list of shows holds.
pub open spec fn entries(shows: Seq<Show<Rc<String>>>) -> Seq<EntryModel> {
    Seq::new(shows.len(), |i: int| shows[i]@)
}

/// What a list of writes holds.
pub open spec fn writes_of(writes: Seq<Write>) -> Seq<WriteModel> {
    Seq::new(writes.len(), |i: int| writes[i]@)
}

/// `i` is the position of the first show of the list that has the name.
pub open spec fn is_first_named(shows: Seq<EntryModel>, name: Seq<char>, i: int) -> bool {
    &&& 0 <= i < shows.len()
    &&& shows[i].name == name
    &&& forall|j: int| 0 <= j < i ==> (#[trigger] shows[j]).name != name
}

/// Some show of the list has the name.
pub open spec fn is_named(shows: Seq<EntryModel>, name: Seq<char>) -> bool {
    exists|i: int| 0 <= i < shows.len() && (#[trigger] shows[i]).name == name
}

/// The show that a row stands for.
pub open spec fn entry_of(name: Seq<char>, season_number: int, episodes_seen: int) -> EntryModel {
    EntryModel {
        name,
        season_number: decimal_text(season_number),
        episodes_seen: decimal_text(episodes_seen),
    }
}

/// The shows that a run of rows stands for.
pub open spec fn entries_of(rows: Seq<Row>) -> Seq<EntryModel> {
    Seq::new(
        rows.len(),
        |i: int|
            entry_of(rows[i].name@, rows[i].season_number as int, rows[i].episodes_seen as int),
    )
}

/// The show with its season and episode count replaced, each where a new
/// number is given.
pub open spec fn renumbered(
    m: EntryModel,
    season_number: Option<i64>,
    episodes_seen: Option<i64>,
) -> EntryModel {
    EntryModel {
        name: m.name,
        season_number: match season_number {
            Some(n) => decimal_text(n as int),
            None => m.season_number,
        },
        episodes_seen: match episodes_seen {
            Some(n) => decimal_text(n as int),
            None => m.episodes_seen,
        },
    }
}

/// The writes that bring the stored show up to date after it was
/// renumbered: one for each new number, the season first.
pub open spec fn renumber_writes(
    name: Seq<char>,
    season_number: Option<i64>,
    episodes_seen: Option<i64>,
) -> Seq<WriteModel> {
    let first = match season_number {
        Some(n) => seq![WriteModel::SetSeasonNumber { name, season_number: n as int }],
        None => Seq::empty(),
    };
    let second = match episodes_seen {
        Some(n) => seq![WriteModel::SetEpisodesSeen { name, episodes_seen: n as int }],
        None => Seq::empty(),
    };
    first + second
}

/// The plain list of shows.
pub struct Shows {
    shows: Vec<Show<Rc<String>>>,
}

impl View for Shows {
    type V = Seq<EntryModel>;

    closed spec fn view(&self) -> Seq<EntryModel> {
        entries(self.shows@)
    }
}

impl Shows {
    /// The list of the shows that the given rows stand for, in the order of
    /// the rows.
    pub fn new(rows: Vec<Row>) -> (r: Shows)
        ensures
            r@ == entries_of(rows@),
    {
        let mut shows = Shows { shows: Vec::new() };
        shows.load_all_shows(rows);
        assert(shows@ =~= entries_of(rows@));
        shows
    }

    /// The shows, in the order in which they were added.
    pub fn iter(&self) -> (r: &Vec<Show<Rc<String>>>)
        ensures
            entries(r@) == self@,
    {
        &self.shows
    }

    /// Adds a show at the end of the list. The result is the write that the
    /// store is to perform.
    pub fn add(&mut self, name: String, season_number: i64, episodes_seen: i64) -> (w: Write)
        ensures
            final(self)@ == old(self)@.push(
                entry_of(name@, season_number as int, episodes_seen as int),
            ),
            w@ == (WriteModel::Insert {
                name: name@,
                season_number: season_number as int,
                episodes_seen: episodes_seen as int,
            }),
    {
        let w = Write::Insert { name: name.clone(), season_number, episodes_seen };
        let show = Show::new_numeric(name, season_number, episodes_seen);
        self.shows.push(show);
        assert(self@ =~= old(self)@.push(show@));
        w
    }

    /// The position of the first show that has the name.
    fn position(&self, name: &str) -> (r: Option<usize>)
        ensures
            match r {
                Some(i) => is_first_named(self@, name@, i as int),
                None => !is_named(self@, name@),
            },
    {
        let wanted = name.to_owned();
        let mut i: usize = 0;
        while i < self.shows.len()
            invariant
                i <= self.shows.len(),
                wanted@ == name@,
                forall|j: int| 0 <= j < i ==> (#[trigger] self@[j]).name != name@,
            decreases self.shows.len() - i,
        {
            if *self.shows[i].name == wanted {
                return Some(i);
            }
            i += 1;
        }
        None
    }

    /// Removes the first show that has the name. Nothing happens, and
    /// `None` is returned, where no show has it. Else the result is the
    /// write that the store is to perform.
    pub fn remove(&mut self, name: &str) -> (w: Option<Write>)
        ensures
            match w {
                Some(w) => exists|i: int|
                    is_first_named(old(self)@, name@, i) && final(self)@ == old(self)@.remove(i)
                        && w@ == (WriteModel::Delete { name: name@ }),
                None => !is_named(old(self)@, name@) && final(self)@ == old(self)@,
            },
    {
        let show_idx = match self.position(name) {
            Some(show_idx) => show_idx,
            None => {
                return None;
            },
        };
        self.shows.remove(show_idx);
        assert(self@ =~= old(self)@.remove(show_idx as int));
        Some(Write::Delete { name: name.to_owned() })
    }

    /// Gives the first show that has the name a new season, a new episode
    /// count, or both. Nothing happens where no show has the name. The
    /// result is the writes that the store is to perform, in their order.
    pub fn update(
        &mut self,
        name: &str,
        season_number: Option<i64>,
        episodes_seen: Option<i64>,
    ) -> (w: Vec<Write>)
        ensures
            !is_named(old(self)@, name@) ==> final(self)@ == old(self)@ && w@.len() == 0,
            is_named(old(self)@, name@) ==> exists|i: int|
                is_first_named(old(self)@, name@, i) && final(self)@ == old(self)@.update(
                    i,
                    renumbered(old(self)@[i], season_number, episodes_seen),
                ) && writes_of(w@) == renumber_writes(name@, season_number, episodes_seen),
    {
        let mut writes: Vec<Write> = Vec::new();
        let i = match self.position(name) {
            Some(i) => i,
            None => {
                return writes;
            },
        };
        let ghost before = self@[i as int];
        let mut season_text = self.shows[i].season_number.clone();
        let mut episodes_text = self.shows[i].episodes_seen.clone();
        if let Some(season_number) = season_number {
            writes.push(Write::SetSeasonNumber { name: name.to_owned(), season_number });
            season_text = number_text(season_number);
        }
        if let Some(episodes_seen) = episodes_seen {
            writes.push(Write::SetEpisodesSeen { name: name.to_owned(), episodes_seen });
            episodes_text = number_text(episodes_seen);
        }
        let show = Show::new(name.to_owned(), season_text, episodes_text);
        self.shows.set(i, show);
        proof {
            assert(show@ == renumbered(before, season_number, episodes_seen));
            assert(self@ =~= old(self)@.update(i as int, show@));
            assert(writes_of(writes@) =~= renumber_writes(name@, season_number, episodes_seen));
        }
        writes
    }

    /// Appends the shows that the rows stand for, in the order of the rows.
    fn load_all_shows(&mut self, rows: Vec<Row>)
        ensures
            final(self)@ == old(self)@ + entries_of(rows@),
    {
        let mut k: usize = 0;
        assert(self@ =~= old(self)@ + entries_of(rows@).take(0));
        while k < rows.len()
            invariant
                k <= rows.len(),
                self@ == old(self)@ + entries_of(rows@).take(k as int),
            decreases rows.len() - k,
        {
            let ghost held = self@;
            let show = Show::new_numeric(
                rows[k].name.clone(),
                rows[k].season_number,
                rows[k].episodes_seen,
            );
            self.shows.push(show);
            assert(self@ =~= held.push(show@));
            assert(entries_of(rows@).take(k + 1) =~= entries_of(rows@).take(k as int).push(show@));
            k += 1;
        }
        assert(entries_of(rows@).take(k as int) =~= entries_of(rows@));
    }
}

} // verus!
