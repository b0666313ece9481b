//! Disjunctive ("OR") multi-term query execution over a segmented
//! inverted index: derivation of per-term weights from corpus
//! statistics, a k-way posting-list merge with additive scoring, and
//! per-segment orchestration that streams ranked documents to a
//! caller-supplied collector.
//!
//! Scores are exact fractions. Every per-term contribution is a
//! multiple of `1 / d` where `d` is the product of the per-term
//! inverse-document-frequency denominators, so a document's aggregate
//! score is carried as a numerator over that fixed denominator.
use vstd::prelude::*;

pub mod collector;
pub mod index;
pub mod multi_term_query;
pub mod postings;
pub mod scorer;
pub mod union_postings;

verus! {

/// An opaque, comparable key identifying one indexed (field, token)
/// pair. The token is carried as a number so that terms compare by
/// plain value.
#[derive(Clone, Copy, PartialEq, Eq, Structural, Debug, Hash)]
pub struct Term {
    pub field: u32,
    pub token: u64,
}

impl Term {
    pub fn new(field: u32, token: u64) -> (r: Term)
        ensures
            r.field == field,
            r.token == token,
    {
        Term { field, token }
    }
}

/// An error reported by a collector when it rejects a segment-context
/// change; it is propagated to the caller unmodified.
#[derive(Clone, Copy, PartialEq, Eq, Structural, Debug)]
pub struct CollectorError {
    pub code: u64,
}

/// Everything that can abort a search.
#[derive(Clone, Copy, PartialEq, Eq, Structural, Debug)]
pub enum SearchError {
    /// The query holds no terms; it is rejected before any segment or
    /// collector is touched.
    EmptyQuery,
    /// The query holds more terms than a document id space can tell
    /// apart; scored sums are only guaranteed to fit below this bound.
    TooManyTerms,
    /// The product of the per-term weight denominators does not fit the
    /// machine word that carries a score's denominator.
    WeightOverflow,
    /// Fetching a posting list or a field-norm source failed for a
    /// reason other than term absence.
    IndexAccess,
    /// The collector rejected a segment-context change.
    Collector(CollectorError),
}

} // verus!
