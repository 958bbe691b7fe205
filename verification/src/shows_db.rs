//! What the collection asks of the store that keeps the shows between runs.
//! The library decides what is written; the caller performs the write, and
//! treats a write that fails as fatal.

use vstd::prelude::*;
use crate::number::decimal_text;
use crate::show::{name_fits, DisplayShow, ShowCategory, ShowModel};

verus! {

/// One row of the table of shows, as it is written.
pub struct ShowRecord {
    pub name: String,
    pub season_number: String,
    pub episodes_seen: String,
    pub category: i64,
}

/// What a row holds.
pub struct RecordModel {
    pub name: Seq<char>,
    pub season_number: Seq<char>,
    pub episodes_seen: Seq<char>,
    pub category: int,
}

impl View for ShowRecord {
    type V = RecordModel;

    open spec fn view(&self) -> RecordModel {
        RecordModel {
            name: self.name@,
            season_number: self.season_number@,
            episodes_seen: self.episodes_seen@,
            category: self.category as int,
        }
    }
}

/// The row that stands for a show: its texts, and the number of its
/// category.
pub open spec fn record_of(m: ShowModel) -> RecordModel {
    RecordModel {
        name: m.name,
        season_number: m.season_number,
        episodes_seen: m.episodes_seen,
        category: m.category.spec_code(),
    }
}

/// The show that a row stands for, if the row holds the number of a
/// category.
pub open spec fn show_of(r: RecordModel) -> Option<ShowModel> {
    match ShowCategory::of_code(r.category) {
        Some(category) => Some(
            ShowModel {
                name: r.name,
                season_number: r.season_number,
                episodes_seen: r.episodes_seen,
                category,
            },
        ),
        None => None,
    }
}

/// A show that is written and read back is the same show.
pub proof fn lemma_record_round_trip(m: ShowModel)
    ensures
        show_of(record_of(m)) == Some(m),
{
}

/// A write that the store is asked to perform.
pub enum StoreWrite {
    /// Insert a row.
    Insert(ShowRecord),
    /// Set season, episodes and category of the row that has the name.
    Update(ShowRecord),
    /// Delete the row that has the name.
    Delete(String),
}

/// What a write holds.
pub enum WriteModel {
    Insert(RecordModel),
    Update(RecordModel),
    Delete(Seq<char>),
}

impl View for StoreWrite {
    type V = WriteModel;

    open spec fn view(&self) -> WriteModel {
        match self {
            StoreWrite::Insert(r) => WriteModel::Insert(r@),
            StoreWrite::Update(r) => WriteModel::Update(r@),
            StoreWrite::Delete(name) => WriteModel::Delete(name@),
        }
    }
}

/// The row that stands for a show.
pub fn record(show: &DisplayShow) -> (r: ShowRecord)
    ensures
        r@ == record_of(show@),
{
    ShowRecord {
        name: show.name().to_owned(),
        season_number: show.season_number.clone(),
        episodes_seen: show.episodes_seen.clone(),
        category: show.category.code(),
    }
}

impl StoreWrite {
    /// The write that adds a show to the store.
    pub fn add(show: &DisplayShow) -> (w: StoreWrite)
        ensures
            w@ == WriteModel::Insert(record_of(show@)),
    {
        StoreWrite::Insert(record(show))
    }

    /// The write that brings the stored show up to date.
    pub fn update(show: &DisplayShow) -> (w: StoreWrite)
        ensures
            w@ == WriteModel::Update(record_of(show@)),
    {
        StoreWrite::Update(record(show))
    }

    /// The write that takes a show out of the store.
    pub fn remove(show: &DisplayShow) -> (w: StoreWrite)
        ensures
            w@ == WriteModel::Delete(show@.name),
    {
        StoreWrite::Delete(show.name().to_owned())
    }
}

/// The show that a loaded row stands for. `None` where the row holds no
/// category number, or a name too long to be kept.
pub fn load_show(name: String, season_number: i64, episodes_seen: i64, category: i64) -> (r: Option<
    DisplayShow,
>)
    ensures
        r is Some <==> name_fits(name@) && ShowCategory::of_code(category as int) is Some,
        r matches Some(show) ==> Some(show@) == show_of(
            RecordModel {
                name: name@,
                season_number: decimal_text(season_number as int),
                episodes_seen: decimal_text(episodes_seen as int),
                category: category as int,
            },
        ),
{
    match ShowCategory::try_from(category) {
        Ok(category) => DisplayShow::try_new_numeric(name, season_number, episodes_seen, category),
        Err(_) => None,
    }
}

} // verus!
