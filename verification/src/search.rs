//! The search over show names: a name matches a term when the lower-case
//! form of the term stands somewhere in the lower-case form of the name.

use memchr::memmem::Finder;
use vstd::prelude::*;
use crate::show::models;
use crate::show::{name_key, DisplayShow, ShowModel};
use crate::text::{
    contains_bytes, find_bytes, finder_needle, lowercase, max_shared_len, new_finder, occurs_at,
    shared_as_bytes, shared_bytes, shared_from_string, SharedText,
};

verus! {

/// A name with the given key matches the search term: the term is empty, or
/// its key stands somewhere in the key of the name.
pub open spec fn name_matches(key: Seq<u8>, term: Seq<char>) -> bool {
    term.len() == 0 || contains_bytes(key, name_key(term))
}

/// The test that a show passes when its name matches the term.
pub open spec fn matcher(term: Seq<char>) -> spec_fn(ShowModel) -> bool {
    |m: ShowModel| name_matches(m.key(), term)
}

/// The shows whose names match the term, in the order in which they stand.
pub open spec fn matching(shows: Seq<ShowModel>, term: Seq<char>) -> Seq<ShowModel> {
    shows.filter(matcher(term))
}

/// The matching shows among the first `k + 1` are those among the first `k`,
/// followed by the show at `k` if it matches.
pub proof fn lemma_matching_step(shows: Seq<ShowModel>, term: Seq<char>, k: int)
    requires
        0 <= k < shows.len(),
    ensures
        matching(shows.take(k + 1), term) == if name_matches(shows[k].key(), term) {
            matching(shows.take(k), term).push(shows[k])
        } else {
            matching(shows.take(k), term)
        },
{
    reveal(Seq::filter);
    let front = shows.take(k + 1);
    assert(front.drop_last() =~= shows.take(k));
    assert(front.last() == shows[k]);
}

/// Among no shows none matches.
pub proof fn lemma_matching_none(term: Seq<char>)
    ensures
        matching(Seq::empty(), term) == Seq::<ShowModel>::empty(),
{
    reveal(Seq::filter);
}

/// A search term made ready for matching. It is built for one search and
/// thrown away after it.
pub struct TermMatcher {
    needle: Option<SharedText>,
    empty: bool,
    term: Ghost<Seq<char>>,
}

impl TermMatcher {
    #[verifier::type_invariant]
    spec fn needle_is_key(self) -> bool {
        &&& self.empty <==> self.term@.len() == 0
        &&& self.needle matches Some(t) ==> !self.empty && shared_bytes(t) == name_key(self.term@)
        &&& self.needle is None && !self.empty ==> name_key(self.term@).len() > max_shared_len()
    }

    /// The term that is searched for.
    pub closed spec fn term(&self) -> Seq<char> {
        self.term@
    }

    /// Makes a search term ready.
    pub fn new(term: &str) -> (r: TermMatcher)
        ensures
            r.term() == term@,
    {
        if term.is_empty() {
            TermMatcher { needle: None, empty: true, term: Ghost(term@) }
        } else {
            match shared_from_string(lowercase(term)) {
                Ok(needle) => TermMatcher {
                    needle: Some(needle),
                    empty: false,
                    term: Ghost(term@),
                },
                Err(_) => TermMatcher { needle: None, empty: false, term: Ghost(term@) },
            }
        }
    }

    /// The searcher for the key of the term: none where the term is empty,
    /// and none where its key is longer than any key of a name.
    fn finder(&self) -> (r: Option<Finder<'_>>)
        ensures
            self.ready(r),
    {
        proof {
            use_type_invariant(self);
        }
        match &self.needle {
            Some(needle) => Some(new_finder(shared_as_bytes(needle))),
            None => None,
        }
    }

    /// The searcher is the one for the key of the term.
    closed spec fn ready(&self, finder: Option<Finder<'_>>) -> bool {
        match finder {
            Some(f) => !self.empty && finder_needle(f) == name_key(self.term@),
            None => self.empty || name_key(self.term@).len() > max_shared_len(),
        }
    }

    /// Whether the name of a show matches the term, given the searcher for
    /// the key of the term.
    fn matches_with(&self, finder: &Option<Finder<'_>>, show: &DisplayShow) -> (r: bool)
        requires
            self.ready(*finder),
        ensures
            r == name_matches(show@.key(), self.term()),
    {
        proof {
            use_type_invariant(self);
        }
        let key = show.key_bytes();
        match finder {
            Some(finder) => find_bytes(finder, key).is_some(),
            None => {
                assert(!self.empty ==> forall|i: int| !occurs_at(key@, name_key(self.term()), i));
                self.empty
            },
        }
    }

    /// Whether the name of a show matches the term.
    pub fn matches(&self, show: &DisplayShow) -> (r: bool)
        ensures
            r == name_matches(show@.key(), self.term()),
    {
        let finder = self.finder();
        self.matches_with(&finder, show)
    }

    /// Appends to `out` the shows of `shows` whose names match the term, in
    /// the order in which they stand.
    pub fn collect(&self, shows: &Vec<DisplayShow>, out: &mut Vec<DisplayShow>)
        ensures
            models(final(out)@) == models(old(out)@) + matching(models(shows@), self.term()),
    {
        let ghost before = models(out@);
        let ghost all = models(shows@);
        let finder = self.finder();
        let mut k: usize = 0;
        proof {
            lemma_matching_none(self.term());
            assert(all.take(0) =~= Seq::empty());
            assert(models(out@) =~= before + matching(all.take(0), self.term()));
        }
        while k < shows.len()
            invariant
                k <= shows.len(),
                all == models(shows@),
                self.ready(finder),
                models(out@) == before + matching(all.take(k as int), self.term()),
            decreases shows.len() - k,
        {
            proof {
                lemma_matching_step(all, self.term(), k as int);
            }
            if self.matches_with(&finder, &shows[k]) {
                let ghost held = out@;
                let show = shows[k].clone();
                out.push(show);
                assert(models(out@) =~= models(held).push(show@));
                assert(models(out@) =~= before + matching(all.take(k + 1), self.term()));
            }
            k += 1;
        }
        assert(all.take(k as int) =~= all);
    }
}

} // verus!
