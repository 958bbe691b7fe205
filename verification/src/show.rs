//! A show: its name, how far the viewer has got, and its category.

use vstd::prelude::*;
use vstd::utf8::encode_utf8;
use crate::number::{decimal_text, format_i64};
use crate::order::{key_order, KeyOrder};
use crate::text::{
    lowercase, lowercase_of, max_shared_len, shared_as_bytes, shared_as_str, shared_clone,
    shared_from_string, shared_key_order, shared_text, SharedText,
};

verus! {

/// What the viewer does with a show.
#[derive(Copy, Clone, Debug, PartialEq, Eq, Structural)]
pub enum ShowCategory {
    Watching,
    PlanToWatch,
    Completed,
}

impl Default for ShowCategory {
    fn default() -> (r: Self)
        ensures
            r == ShowCategory::PlanToWatch,
    {
        ShowCategory::PlanToWatch
    }
}

impl ShowCategory {
    /// The number under which a category is stored.
    pub open spec fn spec_code(self) -> int {
        match self {
            ShowCategory::Watching => 0,
            ShowCategory::PlanToWatch => 1,
            ShowCategory::Completed => 2,
        }
    }

    /// The category stored under a number, if the number stands for one.
    pub open spec fn of_code(code: int) -> Option<ShowCategory> {
        if code == 0 {
            Some(ShowCategory::Watching)
        } else if code == 1 {
            Some(ShowCategory::PlanToWatch)
        } else if code == 2 {
            Some(ShowCategory::Completed)
        } else {
            None
        }
    }

    /// The number under which this category is stored: 0, 1 or 2.
    pub fn code(self) -> (r: i64)
        ensures
            r == self.spec_code(),
            ShowCategory::of_code(r as int) == Some(self),
    {
        match self {
            ShowCategory::Watching => 0,
            ShowCategory::PlanToWatch => 1,
            ShowCategory::Completed => 2,
        }
    }
}

impl TryFrom<i64> for ShowCategory {
    type Error = ();

    /// The category that a stored number stands for; an error for any number
    /// but 0, 1 and 2.
    fn try_from(value: i64) -> (r: Result<Self, ()>) {
        if value == 0 {
            Ok(ShowCategory::Watching)
        } else if value == 1 {
            Ok(ShowCategory::PlanToWatch)
        } else if value == 2 {
            Ok(ShowCategory::Completed)
        } else {
            Err(())
        }
    }
}

impl vstd::std_specs::convert::TryFromSpecImpl<i64> for ShowCategory {
    open spec fn obeys_try_from_spec() -> bool {
        true
    }

    open spec fn try_from_spec(value: i64) -> Result<Self, ()> {
        match ShowCategory::of_code(value as int) {
            Some(c) => Ok(c),
            None => Err(()),
        }
    }
}

/// Reading back the number of a category gives the category.
pub proof fn lemma_category_code_round_trip(c: ShowCategory)
    ensures
        ShowCategory::of_code(c.spec_code()) == Some(c),
{
}

/// A show, with its name held as an `S`.
pub struct Show<S> {
    pub name: S,
    pub season_number: String,
    pub episodes_seen: String,
    pub category: ShowCategory,
}

/// What a show is: the texts of its fields and its category.
pub struct ShowModel {
    pub name: Seq<char>,
    pub season_number: Seq<char>,
    pub episodes_seen: Seq<char>,
    pub category: ShowCategory,
}

impl<S: View<V = Seq<char>>> View for Show<S> {
    type V = ShowModel;

    open spec fn view(&self) -> ShowModel {
        ShowModel {
            name: self.name@,
            season_number: self.season_number@,
            episodes_seen: self.episodes_seen@,
            category: self.category,
        }
    }
}

/// The key by which a name is ordered and found: the bytes of its lower-case
/// form. Two names that differ only in case have the same key.
pub open spec fn name_key(name: Seq<char>) -> Seq<u8> {
    encode_utf8(lowercase_of(name))
}

/// A name is short enough to be kept: neither it nor its lower-case form has
/// more bytes than a shared text can hold.
pub open spec fn name_fits(name: Seq<char>) -> bool {
    &&& encode_utf8(name).len() <= max_shared_len()
    &&& name_key(name).len() <= max_shared_len()
}

impl ShowModel {
    /// The key of the show's name.
    pub open spec fn key(self) -> Seq<u8> {
        name_key(self.name)
    }

    /// The show as the form for new shows holds it when it is empty.
    pub open spec fn blank() -> ShowModel {
        ShowModel {
            name: Seq::empty(),
            season_number: seq!['0'],
            episodes_seen: seq!['0'],
            category: ShowCategory::PlanToWatch,
        }
    }
}

/// A show as the form for new shows holds it: every field is editable text.
pub type AdderShow = Show<String>;

impl AdderShow {
    /// The text of a number field that nobody has touched.
    pub fn default_numeric_string() -> (r: String)
        ensures
            r@ == seq!['0'],
            r@ == decimal_text(0),
    {
        proof {
            reveal_strlit("0");
        }
        let r = "0".to_owned();
        assert(r@ =~= seq!['0']);
        assert(decimal_text(0) =~= seq!['0']);
        r
    }

    /// Empties the form.
    pub fn clear(&mut self)
        ensures
            final(self)@ == ShowModel::blank(),
    {
        self.name = String::new();
        self.season_number = AdderShow::default_numeric_string();
        self.episodes_seen = AdderShow::default_numeric_string();
        self.category = ShowCategory::PlanToWatch;
    }
}

impl Default for AdderShow {
    fn default() -> (r: Self)
        ensures
            r@ == ShowModel::blank(),
    {
        Show {
            name: String::new(),
            season_number: AdderShow::default_numeric_string(),
            episodes_seen: AdderShow::default_numeric_string(),
            category: ShowCategory::PlanToWatch,
        }
    }
}

impl Clone for AdderShow {
    fn clone(&self) -> (r: Self)
        ensures
            r@ == self@,
    {
        Show {
            name: self.name.clone(),
            season_number: self.season_number.clone(),
            episodes_seen: self.episodes_seen.clone(),
            category: self.category,
        }
    }
}

/// A name together with its lower-case form, both in shared texts.
pub struct SearchableName {
    lower_name: SharedText,
    name: SharedText,
}

impl View for SearchableName {
    type V = Seq<char>;

    closed spec fn view(&self) -> Seq<char> {
        shared_text(self.name)
    }
}

impl SearchableName {
    #[verifier::type_invariant]
    spec fn lower_name_is_lower(self) -> bool {
        &&& shared_text(self.lower_name) == lowercase_of(shared_text(self.name))
        &&& name_fits(shared_text(self.name))
    }

    /// Keeps a name, and computes its lower-case form once.
    pub fn new(name: String) -> (r: Self)
        requires
            name_fits(name@),
        ensures
            r@ == name@,
    {
        let lower = lowercase(name.as_str());
        let lower_name = shared_from_string(lower).unwrap();
        let name = shared_from_string(name).unwrap();
        SearchableName { lower_name, name }
    }

    /// Keeps a name if it is short enough to be kept.
    pub fn try_new(name: String) -> (r: Option<Self>)
        ensures
            r is Some <==> name_fits(name@),
            r matches Some(n) ==> n@ == name@,
    {
        let lower = lowercase(name.as_str());
        if name.as_str().as_bytes().len() > 0xffff_ffff || lower.as_str().as_bytes().len()
            > 0xffff_ffff {
            None
        } else {
            Some(SearchableName::new(name))
        }
    }

    /// The name as it was given.
    pub fn name(&self) -> (r: &str)
        ensures
            r@ == self@,
    {
        shared_as_str(&self.name)
    }

    /// The lower-case form of the name.
    pub fn lower_name(&self) -> (r: &str)
        ensures
            r@ == lowercase_of(self@),
    {
        proof {
            use_type_invariant(self);
        }
        shared_as_str(&self.lower_name)
    }

    /// The key of the name, as bytes.
    pub fn key_bytes(&self) -> (r: &[u8])
        ensures
            r@ == name_key(self@),
            name_fits(self@),
    {
        proof {
            use_type_invariant(self);
        }
        shared_as_bytes(&self.lower_name)
    }

    /// Where the key of this name stands relative to the key of `other`.
    pub fn key_order(&self, other: &SearchableName) -> (r: KeyOrder)
        ensures
            r == key_order(name_key(self@), name_key(other@)),
    {
        proof {
            use_type_invariant(self);
            use_type_invariant(other);
        }
        shared_key_order(&self.lower_name, &other.lower_name)
    }
}

impl Clone for SearchableName {
    fn clone(&self) -> (r: Self)
        ensures
            r@ == self@,
    {
        proof {
            use_type_invariant(self);
        }
        SearchableName {
            lower_name: shared_clone(&self.lower_name),
            name: shared_clone(&self.name),
        }
    }
}

/// A show as it is kept and displayed: the name can be searched, the other
/// fields are editable text.
pub type DisplayShow = Show<SearchableName>;

impl DisplayShow {
    /// A show with the given fields.
    pub fn new(
        name: String,
        season_number: String,
        episodes_seen: String,
        category: ShowCategory,
    ) -> (r: DisplayShow)
        requires
            name_fits(name@),
        ensures
            r@ == (ShowModel {
                name: name@,
                season_number: season_number@,
                episodes_seen: episodes_seen@,
                category,
            }),
    {
        Show { name: SearchableName::new(name), season_number, episodes_seen, category }
    }

    /// A show with the given fields, if its name is short enough to be kept.
    pub fn try_new(
        name: String,
        season_number: String,
        episodes_seen: String,
        category: ShowCategory,
    ) -> (r: Option<DisplayShow>)
        ensures
            r is Some <==> name_fits(name@),
            r matches Some(show) ==> show@ == (ShowModel {
                name: name@,
                season_number: season_number@,
                episodes_seen: episodes_seen@,
                category,
            }),
    {
        match SearchableName::try_new(name) {
            Some(name) => Some(Show { name, season_number, episodes_seen, category }),
            None => None,
        }
    }

    /// A show whose season and episode are given as numbers.
    pub fn new_numeric(
        name: String,
        season_number: i64,
        episodes_seen: i64,
        category: ShowCategory,
    ) -> (r: DisplayShow)
        requires
            name_fits(name@),
        ensures
            r@ == (ShowModel {
                name: name@,
                season_number: decimal_text(season_number as int),
                episodes_seen: decimal_text(episodes_seen as int),
                category,
            }),
    {
        DisplayShow::new(name, format_i64(season_number), format_i64(episodes_seen), category)
    }

    /// A show whose season and episode are given as numbers, if its name is
    /// short enough to be kept.
    pub fn try_new_numeric(
        name: String,
        season_number: i64,
        episodes_seen: i64,
        category: ShowCategory,
    ) -> (r: Option<DisplayShow>)
        ensures
            r is Some <==> name_fits(name@),
            r matches Some(show) ==> show@ == (ShowModel {
                name: name@,
                season_number: decimal_text(season_number as int),
                episodes_seen: decimal_text(episodes_seen as int),
                category,
            }),
    {
        DisplayShow::try_new(name, format_i64(season_number), format_i64(episodes_seen), category)
    }

    /// The name as it was given.
    pub fn name(&self) -> (r: &str)
        ensures
            r@ == self@.name,
    {
        self.name.name()
    }

    /// The lower-case form of the name.
    pub fn lower_name(&self) -> (r: &str)
        ensures
            r@ == lowercase_of(self@.name),
    {
        self.name.lower_name()
    }

    /// The key of the show, as bytes.
    pub fn key_bytes(&self) -> (r: &[u8])
        ensures
            r@ == self@.key(),
            name_fits(self@.name),
    {
        self.name.key_bytes()
    }

    /// Where this show stands relative to `other` in the order of the keys.
    pub fn key_order(&self, other: &DisplayShow) -> (r: KeyOrder)
        ensures
            r == key_order(self@.key(), other@.key()),
    {
        self.name.key_order(&other.name)
    }
}

impl Clone for DisplayShow {
    fn clone(&self) -> (r: Self)
        ensures
            r@ == self@,
    {
        Show {
            name: self.name.clone(),
            season_number: self.season_number.clone(),
            episodes_seen: self.episodes_seen.clone(),
            category: self.category,
        }
    }
}

/// What a list of shows holds.
pub open spec fn models(shows: Seq<DisplayShow>) -> Seq<ShowModel> {
    Seq::new(shows.len(), |i: int| shows[i]@)
}

} // verus!
