//! Resolution of optional boundary keys into an inclusive iteration range,
//! and the membership test that decides which keys the walk visits.

use vstd::prelude::*;
use crate::order::{lex_le, lex_lt, bytes_le, lemma_lex_le_transitive, lemma_lex_lt_asymmetric,
    lemma_lex_lt_irreflexive};

verus! {

/// A concrete iteration range over a table. When both ends are present the
/// range is inclusive on both.
pub enum KeyRange {
    Unbounded,
    FromStart(Vec<u8>),
    ToEnd(Vec<u8>),
    Bounded(Vec<u8>, Vec<u8>),
}

/// Mathematical model of a `KeyRange`: the boundary keys as byte sequences.
#[verifier::ext_equal]
pub enum RangeView {
    Unbounded,
    FromStart(Seq<u8>),
    ToEnd(Seq<u8>),
    Bounded(Seq<u8>, Seq<u8>),
}

impl View for KeyRange {
    type V = RangeView;

    open spec fn view(&self) -> RangeView {
        match self {
            KeyRange::Unbounded => RangeView::Unbounded,
            KeyRange::FromStart(s) => RangeView::FromStart(s@),
            KeyRange::ToEnd(e) => RangeView::ToEnd(e@),
            KeyRange::Bounded(s, e) => RangeView::Bounded(s@, e@),
        }
    }
}

/// Whether key `k` lies inside range `r`; both ends inclusive when bounded.
pub open spec fn key_in_range(r: RangeView, k: Seq<u8>) -> bool {
    match r {
        RangeView::Unbounded => true,
        RangeView::FromStart(s) => lex_le(s, k),
        RangeView::ToEnd(e) => lex_le(k, e),
        RangeView::Bounded(s, e) => lex_le(s, k) && lex_le(k, e),
    }
}

/// The view of an optional raw key.
pub open spec fn opt_key_view(o: Option<Vec<u8>>) -> Option<Seq<u8>> {
    match o {
        Option::None => Option::None,
        Option::Some(v) => Option::Some(v@),
    }
}

/// The range that a pair of optional boundary keys resolves to.
pub open spec fn resolved(start: Option<Seq<u8>>, end: Option<Seq<u8>>) -> RangeView {
    match (start, end) {
        (Option::None, Option::None) => RangeView::Unbounded,
        (Option::Some(s), Option::None) => RangeView::FromStart(s),
        (Option::None, Option::Some(e)) => RangeView::ToEnd(e),
        (Option::Some(s), Option::Some(e)) => RangeView::Bounded(s, e),
    }
}

/// Turns optional start and end keys into a concrete iteration range.
/// No validation is performed: a start key above the end key resolves to a
/// bounded range that no key satisfies, so the walk visits zero records.
pub fn resolve_range(start_key: Option<Vec<u8>>, end_key: Option<Vec<u8>>) -> (r: KeyRange)
    ensures
        r@ == resolved(opt_key_view(start_key), opt_key_view(end_key)),
{
    match (start_key, end_key) {
        (Option::None, Option::None) => KeyRange::Unbounded,
        (Option::Some(s), Option::None) => KeyRange::FromStart(s),
        (Option::None, Option::Some(e)) => KeyRange::ToEnd(e),
        (Option::Some(s), Option::Some(e)) => KeyRange::Bounded(s, e),
    }
}

impl KeyRange {
    /// Decides `key_in_range` for a raw key.
    pub fn contains_key(&self, k: &[u8]) -> (b: bool)
        ensures
            b == key_in_range(self@, k@),
    {
        match self {
            KeyRange::Unbounded => true,
            KeyRange::FromStart(s) => bytes_le(s.as_slice(), k),
            KeyRange::ToEnd(e) => bytes_le(k, e.as_slice()),
            KeyRange::Bounded(s, e) => bytes_le(s.as_slice(), k) && bytes_le(k, e.as_slice()),
        }
    }
}

/// A bounded range whose ends are ordered contains both of its endpoints.
pub proof fn lemma_bounded_endpoints_included(k1: Seq<u8>, k2: Seq<u8>)
    requires
        lex_le(k1, k2),
    ensures
        key_in_range(RangeView::Bounded(k1, k2), k1),
        key_in_range(RangeView::Bounded(k1, k2), k2),
{
}

/// A key strictly below the start or strictly above the end of a bounded
/// range lies outside it.
pub proof fn lemma_bounded_excludes_outside(k1: Seq<u8>, k2: Seq<u8>, k: Seq<u8>)
    ensures
        lex_lt(k, k1) ==> !key_in_range(RangeView::Bounded(k1, k2), k),
        lex_lt(k2, k) ==> !key_in_range(RangeView::Bounded(k1, k2), k),
{
    if lex_lt(k, k1) && lex_le(k1, k) {
        if lex_lt(k1, k) {
            lemma_lex_lt_asymmetric(k, k1);
        } else {
            lemma_lex_lt_irreflexive(k);
        }
    }
    if lex_lt(k2, k) && lex_le(k, k2) {
        if lex_lt(k, k2) {
            lemma_lex_lt_asymmetric(k, k2);
        } else {
            lemma_lex_lt_irreflexive(k);
        }
    }
}

/// A bounded range whose start lies strictly above its end contains no key.
pub proof fn lemma_inverted_range_is_empty(k1: Seq<u8>, k2: Seq<u8>, k: Seq<u8>)
    requires
        lex_lt(k2, k1),
    ensures
        !key_in_range(RangeView::Bounded(k1, k2), k),
{
    if lex_le(k1, k) && lex_le(k, k2) {
        lemma_lex_le_transitive(k1, k, k2);
        if lex_lt(k1, k2) {
            lemma_lex_lt_asymmetric(k1, k2);
        } else {
            lemma_lex_lt_irreflexive(k2);
        }
    }
}

} // verus!
