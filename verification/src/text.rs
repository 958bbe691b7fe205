//! Text as the shows hold it: names in shared, immutable strings, their
//! lower-case forms, and substring search over bytes.

use memchr::memmem::Finder;
use std::cmp::Ordering;
use vstd::prelude::*;
use vstd::utf8::encode_utf8;
use crate::order::{lex_less, key_order, KeyOrder, lemma_lex_asymmetric, lemma_lex_irreflexive};

verus! {

/// The largest number of bytes that a shared string can hold.
pub open spec fn max_shared_len() -> int {
    0xffff_ffff
}

/// The lower-case form of a text, as `str::to_lowercase` computes it.
pub uninterp spec fn lowercase_of(s: Seq<char>) -> Seq<char>;

/// Calls `str::to_lowercase`. The contract only names the result: it is the
/// Unicode lower-case mapping of the argument, a function of the text alone.
#[verifier::external_body]
pub(crate) fn lowercase(s: &str) -> (r: String)
    ensures
        r@ == lowercase_of(s@),
{
    s.to_lowercase()
}

/// The error of `strumbra`, raised when a text is too long to be shared.
#[verifier::external_type_specification]
#[verifier::external_body]
pub struct ExStrumbraError(strumbra::Error);

/// An immutable text that is cheap to clone: a `strumbra::SharedString`. The
/// type is opaque to the verifier, which cannot take the type of `strumbra`
/// itself: that is generic over a private trait and over a constant.
/// Everything that is known of a value goes through `shared_text`.
#[verifier::external_body]
pub struct SharedText {
    inner: strumbra::SharedString,
}

/// The characters that a shared text holds.
pub uninterp spec fn shared_text(s: SharedText) -> Seq<char>;

/// The bytes that a shared text holds: its characters in UTF-8.
pub open spec fn shared_bytes(s: SharedText) -> Seq<u8> {
    encode_utf8(shared_text(s))
}

/// Calls `SharedString::try_from(String)`. It fails exactly when the text
/// has more bytes than a 32-bit length can count, and otherwise holds the
/// text unchanged.
#[verifier::external_body]
pub(crate) fn shared_from_string(s: String) -> (r: Result<SharedText, strumbra::Error>)
    ensures
        r is Ok <==> encode_utf8(s@).len() <= max_shared_len(),
        r matches Ok(t) ==> shared_text(t) == s@,
{
    match strumbra::SharedString::try_from(s) {
        Ok(inner) => Ok(SharedText { inner }),
        Err(e) => Err(e),
    }
}

/// Calls `UmbraString::as_str`: the text that was shared.
#[verifier::external_body]
pub(crate) fn shared_as_str(s: &SharedText) -> (r: &str)
    ensures
        r@ == shared_text(*s),
{
    s.inner.as_str()
}

/// Calls `UmbraString::as_bytes`: the UTF-8 bytes of the text, never more
/// than a 32-bit length can count.
#[verifier::external_body]
pub(crate) fn shared_as_bytes(s: &SharedText) -> (r: &[u8])
    ensures
        r@ == shared_bytes(*s),
        r@.len() <= max_shared_len(),
{
    s.inner.as_bytes()
}

/// Calls `UmbraString::clone`: another handle on the same text.
#[verifier::external_body]
pub(crate) fn shared_clone(s: &SharedText) -> (r: SharedText)
    ensures
        shared_text(r) == shared_text(*s),
{
    SharedText { inner: s.inner.clone() }
}

/// Calls `UmbraString::cmp`, which orders two texts by their bytes,
/// lexicographically: it compares the zero-padded prefixes, then the rest,
/// then the lengths, and a zero byte is the smallest byte.
#[verifier::external_body]
pub(crate) fn shared_order(a: &SharedText, b: &SharedText) -> (o: Ordering)
    ensures
        o == Ordering::Less <==> lex_less(shared_bytes(*a), shared_bytes(*b)),
        o == Ordering::Equal <==> shared_bytes(*a) == shared_bytes(*b),
        o == Ordering::Greater <==> lex_less(shared_bytes(*b), shared_bytes(*a)),
{
    a.inner.cmp(&b.inner)
}

/// Where the bytes of `a` stand relative to those of `b`.
pub(crate) fn shared_key_order(a: &SharedText, b: &SharedText) -> (r: KeyOrder)
    ensures
        r == key_order(shared_bytes(*a), shared_bytes(*b)),
{
    proof {
        lemma_lex_asymmetric(shared_bytes(*a), shared_bytes(*b));
        lemma_lex_irreflexive(shared_bytes(*a));
    }
    match shared_order(a, b) {
        Ordering::Less => KeyOrder::Before,
        Ordering::Equal => KeyOrder::Same,
        Ordering::Greater => KeyOrder::After,
    }
}

/// `needle` stands in `hay` at position `i`.
pub open spec fn occurs_at(hay: Seq<u8>, needle: Seq<u8>, i: int) -> bool {
    &&& 0 <= i
    &&& i + needle.len() <= hay.len()
    &&& hay.subrange(i, i + needle.len()) == needle
}

/// `needle` stands somewhere in `hay`.
pub open spec fn contains_bytes(hay: Seq<u8>, needle: Seq<u8>) -> bool {
    exists|i: int| occurs_at(hay, needle, i)
}

/// A searcher for one needle: a `memchr::memmem::Finder`.
#[verifier::external_type_specification]
#[verifier::external_body]
pub struct ExFinder<'n>(Finder<'n>);

/// The needle that a searcher looks for.
pub uninterp spec fn finder_needle(finder: Finder<'_>) -> Seq<u8>;

/// Calls `memchr::memmem::Finder::new`: a searcher for `needle`.
#[verifier::external_body]
pub(crate) fn new_finder<'n>(needle: &'n [u8]) -> (r: Finder<'n>)
    ensures
        finder_needle(r) == needle@,
{
    Finder::new(needle)
}

/// Calls `memchr::memmem::Finder::find`: the position of the first
/// occurrence of the needle in `hay`, if there is one.
#[verifier::external_body]
pub(crate) fn find_bytes(finder: &Finder<'_>, hay: &[u8]) -> (r: Option<usize>)
    ensures
        match r {
            Some(i) => occurs_at(hay@, finder_needle(*finder), i as int) && forall|j: int|
                0 <= j < i ==> !occurs_at(hay@, finder_needle(*finder), j),
            None => !contains_bytes(hay@, finder_needle(*finder)),
        },
{
    finder.find(hay)
}

} // verus!
