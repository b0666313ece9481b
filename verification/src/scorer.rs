//! Per-term weight derivation from corpus statistics and the additive
//! contribution function applied to each matched document.
//!
//! Weights are exact fractions. The inverse-document-frequency weight of
//! a term is `1 / d` where `d` is the term's document frequency (or 1
//! when the frequency is 0), and the coordination weight is uniformly 1.
//! All per-term denominators are multiplied into one query-wide
//! denominator once, so a document's score is a plain numerator over it.
use vstd::arithmetic::div_mod::lemma_div_by_multiple;
use vstd::prelude::*;

use crate::SearchError;

verus! {

/// One matched query-term position for a single document: the term's
/// position in the query, its raw frequency at the document, and the raw
/// field-norm factor read for that document.
#[derive(Clone, Copy, PartialEq, Eq, Structural, Debug)]
pub struct TermMatch {
    pub ord: usize,
    pub term_freq: u32,
    pub norm: u32,
}

/// The inverse-document-frequency denominator a document frequency maps
/// to: the frequency itself when positive (the weight is its exact
/// reciprocal), 1 when it is 0 (an absent term is non-discriminating,
/// not infinitely rare).
pub open spec fn idf_denominator(df: u64) -> u64 {
    if df == 0 {
        1u64
    } else {
        df
    }
}

/// The per-term denominators of a document-frequency sequence.
pub open spec fn idf_denominators(dfs: Seq<u64>) -> Seq<u64> {
    dfs.map_values(|df: u64| idf_denominator(df))
}

/// Product of a sequence of denominators.
pub open spec fn denominator_product(s: Seq<u64>) -> int
    decreases s.len(),
{
    if s.len() == 0 {
        1int
    } else {
        denominator_product(s.drop_last()) * s.last()
    }
}

/// Normalized frequency: the raw frequency dampened by the field-norm
/// factor (floored to 1 so a degenerate factor never divides by zero),
/// by integer division. Monotone increasing in the frequency and
/// monotone decreasing in the factor.
pub open spec fn spec_normalized_freq(term_freq: u32, norm: u32) -> int {
    (term_freq as int) / (if norm == 0 {
        1int
    } else {
        norm as int
    })
}

proof fn lemma_product_positive(s: Seq<u64>)
    requires
        forall|t: int| 0 <= t < s.len() ==> #[trigger] s[t] >= 1,
    ensures
        denominator_product(s) >= 1,
    decreases s.len(),
{
    if s.len() > 0 {
        lemma_product_positive(s.drop_last());
        assert(s.last() >= 1);
        assert(denominator_product(s.drop_last()) * s.last() >= 1) by (nonlinear_arith)
            requires
                denominator_product(s.drop_last()) >= 1,
                s.last() >= 1,
        ;
    }
}

proof fn lemma_product_take_step(s: Seq<u64>, j: int)
    requires
        0 <= j < s.len(),
    ensures
        denominator_product(s.take(j + 1)) == denominator_product(s.take(j)) * s[j],
{
    assert(s.take(j + 1).drop_last() =~= s.take(j));
    assert(s.take(j + 1).last() == s[j]);
}

proof fn lemma_product_take_monotonic(s: Seq<u64>, m: int)
    requires
        0 <= m <= s.len(),
        forall|t: int| 0 <= t < s.len() ==> #[trigger] s[t] >= 1,
    ensures
        denominator_product(s.take(m)) <= denominator_product(s),
    decreases s.len() - m,
{
    if m == s.len() {
        assert(s.take(m) =~= s);
    } else {
        lemma_product_take_step(s, m);
        assert(forall|t: int|
            0 <= t < s.take(m).len() ==> #[trigger] s.take(m)[t] >= 1);
        lemma_product_positive(s.take(m));
        assert(denominator_product(s.take(m)) <= denominator_product(s.take(m + 1)))
            by (nonlinear_arith)
            requires
                denominator_product(s.take(m + 1)) == denominator_product(s.take(m)) * s[m],
                denominator_product(s.take(m)) >= 1,
                s[m] >= 1,
        ;
        lemma_product_take_monotonic(s, m + 1);
    }
}

/// The product of a sequence of factors, each at least 1, is a multiple
/// of each single factor, with a quotient of at least 1.
proof fn lemma_product_factor(s: Seq<u64>, k: int)
    requires
        0 <= k < s.len(),
        forall|t: int| 0 <= t < s.len() ==> #[trigger] s[t] >= 1,
    ensures
        denominator_product(s) == denominator_product(s.remove(k)) * s[k],
        denominator_product(s.remove(k)) >= 1,
    decreases s.len(),
{
    assert(forall|t: int|
        0 <= t < s.remove(k).len() ==> #[trigger] s.remove(k)[t] >= 1);
    lemma_product_positive(s.remove(k));
    if k == s.len() - 1 {
        assert(s.remove(k) =~= s.drop_last());
    } else {
        let d = s.drop_last();
        lemma_product_factor(d, k);
        assert(s.remove(k).drop_last() =~= d.remove(k));
        assert(s.remove(k).last() == s.last());
        assert(denominator_product(s.remove(k)) == denominator_product(d.remove(k)) * s.last());
        assert(denominator_product(d) * s.last() == (denominator_product(d.remove(k)) * s.last())
            * d[k]) by (nonlinear_arith)
            requires
                denominator_product(d) == denominator_product(d.remove(k)) * d[k],
        ;
        assert(d[k] == s[k]);
    }
}

/// The spec-level image of a scorer: everything scoring reads of it.
/// The multiplier of term t is determined by `denom / idf_den[t]`.
#[verifier::ext_equal]
pub struct ScorerModel {
    pub coord: Seq<u64>,
    pub idf_den: Seq<u64>,
    pub denom: u64,
}

impl ScorerModel {
    /// Contribution of query-term position t, as a numerator over
    /// `denom`: coordination x (1 / idf_den[t]) x normalized frequency,
    /// scaled by `denom`.
    pub open spec fn contribution(self, t: int, term_freq: u32, norm: u32) -> int {
        self.coord[t] * spec_normalized_freq(term_freq, norm) * ((self.denom as int) / (
        self.idf_den[t] as int))
    }
}

/// Law: a contribution, read over the scorer's common denominator, is
/// exactly coordination weight x idf weight x normalized frequency.
/// Cross-multiplied against the idf weight `1 / idf_den[t]`:
/// `contribution(t) * idf_den[t] == coord[t] * normalized_freq * denom`.
pub proof fn lemma_contribution_is_weighted_freq(sc: Scorer, t: int, term_freq: u32, norm: u32)
    requires
        sc.wf(),
        0 <= t < sc.spec_len(),
    ensures
        sc.contribution(t, term_freq, norm) * sc.idf_den@[t] == sc.coord@[t]
            * spec_normalized_freq(term_freq, norm) * sc.denom,
{
    let c = sc.coord@[t] as int;
    let f = spec_normalized_freq(term_freq, norm);
    let m = sc.mult@[t] as int;
    let d = sc.idf_den@[t] as int;
    assert(m * d == sc.denom);
    assert((c * f * m) * d == c * f * (m * d)) by (nonlinear_arith);
}

/// A well-formed scorer's stored multiplier of term t equals
/// `denom / idf_den[t]`, so its contributions agree with its model's.
pub proof fn lemma_model_contribution_agrees(sc: Scorer, t: int, term_freq: u32, norm: u32)
    requires
        sc.wf(),
        0 <= t < sc.spec_len(),
    ensures
        sc.contribution(t, term_freq, norm) == sc.model().contribution(t, term_freq, norm),
{
    assert(sc.denom as int == (sc.mult@[t] as int) * (sc.idf_den@[t] as int));
    lemma_div_by_multiple(sc.mult@[t] as int, sc.idf_den@[t] as int);
    assert((sc.denom as int) / (sc.idf_den@[t] as int) == sc.mult@[t] as int);
}

/// Per-query scoring weights, aligned by position with the query's
/// terms: a coordination weight and an inverse-document-frequency weight
/// per term. `idf_den[t]` is the denominator of term t's idf weight
/// `1 / idf_den[t]`; `denom` is the product of all the denominators and
/// `mult[t] == denom / idf_den[t]`, so a contribution of term t scaled
/// by `denom` is a whole number. Immutable once constructed and shared
/// read-only across segments.
pub struct Scorer {
    pub coord: Vec<u64>,
    pub idf_den: Vec<u64>,
    pub mult: Vec<u64>,
    pub denom: u64,
}

impl Scorer {
    pub open spec fn spec_len(self) -> nat {
        self.idf_den@.len()
    }

    pub open spec fn model(self) -> ScorerModel {
        ScorerModel { coord: self.coord@, idf_den: self.idf_den@, denom: self.denom }
    }

    pub open spec fn wf(self) -> bool {
        &&& self.coord@.len() == self.spec_len()
        &&& self.mult@.len() == self.spec_len()
        &&& 1 <= self.spec_len()
        &&& self.spec_len() <= u32::MAX as nat
        &&& self.denom >= 1
        &&& forall|t: int| 0 <= t < self.spec_len() ==> #[trigger] self.idf_den@[t] >= 1
        &&& forall|t: int| 0 <= t < self.spec_len() ==> #[trigger] self.coord@[t] == 1
        &&& forall|t: int|
            0 <= t < self.spec_len() ==> #[trigger] (self.mult@[t] * self.idf_den@[t]) == self.denom
    }

    /// Contribution of query-term position t matching with raw frequency
    /// `term_freq` under raw norm factor `norm`, as a numerator over
    /// `denom`: coordination x (1 / idf_den[t]) x normalized frequency,
    /// scaled by `denom`.
    pub open spec fn contribution(self, t: int, term_freq: u32, norm: u32) -> int {
        self.coord@[t] * spec_normalized_freq(term_freq, norm) * self.mult@[t]
    }

    /// Sum of the contributions of a matched set, as a numerator over
    /// `denom`.
    pub open spec fn matched_sum(self, s: Seq<TermMatch>) -> int
        decreases s.len(),
    {
        if s.len() == 0 {
            0int
        } else {
            self.matched_sum(s.drop_last()) + self.contribution(
                s.last().ord as int,
                s.last().term_freq,
                s.last().norm,
            )
        }
    }

    pub fn len(&self) -> (r: usize)
        ensures
            r == self.spec_len(),
    {
        self.idf_den.len()
    }

    pub fn denominator(&self) -> (r: u64)
        ensures
            r == self.denom,
    {
        self.denom
    }

    /// Derives the weights from per-term document frequencies: term t's
    /// idf weight is exactly `1 / doc_freqs[t]` when the frequency is
    /// positive and exactly 1 when it is 0, and every coordination
    /// weight is 1. Rejects an empty sequence, one whose length cannot
    /// be counted in a document id, and one whose denominators' product
    /// does not fit the denominator word.
    pub fn new(doc_freqs: &Vec<u64>) -> (r: Result<Scorer, SearchError>)
        ensures
            doc_freqs@.len() == 0 ==> r == Err::<Scorer, SearchError>(SearchError::EmptyQuery),
            doc_freqs@.len() > u32::MAX as nat ==> r == Err::<Scorer, SearchError>(
                SearchError::TooManyTerms,
            ),
            0 < doc_freqs@.len() <= u32::MAX as nat && denominator_product(
                idf_denominators(doc_freqs@),
            ) > u64::MAX as int ==> r == Err::<Scorer, SearchError>(SearchError::WeightOverflow),
            0 < doc_freqs@.len() <= u32::MAX as nat && denominator_product(
                idf_denominators(doc_freqs@),
            ) <= u64::MAX as int ==> (r matches Ok(s) && s.wf() && s.spec_len()
                == doc_freqs@.len() && s.denom == denominator_product(idf_denominators(doc_freqs@))
                && forall|t: int|
                    0 <= t < doc_freqs@.len() ==> #[trigger] s.idf_den@[t] == idf_denominator(
                        doc_freqs@[t],
                    )),
    {
        let n = doc_freqs.len();
        if n == 0 {
            return Err(SearchError::EmptyQuery);
        }
        if n > u32::MAX as usize {
            return Err(SearchError::TooManyTerms);
        }
        let ghost dens = idf_denominators(doc_freqs@);

        let mut idf_den: Vec<u64> = Vec::new();
        let mut i: usize = 0;
        while i < n
            invariant
                i <= n,
                n == doc_freqs@.len(),
                idf_den@ == dens.take(i as int),
                dens == idf_denominators(doc_freqs@),
            decreases n - i,
        {
            let df = doc_freqs[i];
            let den: u64 = if df == 0 {
                1
            } else {
                df
            };
            idf_den.push(den);
            proof {
                assert(idf_den@ =~= dens.take(i + 1));
            }
            i += 1;
        }
        proof {
            assert(idf_den@ =~= dens);
            assert(forall|t: int| 0 <= t < dens.len() ==> #[trigger] dens[t] >= 1);
        }

        let mut denom: u64 = 1;
        let mut j: usize = 0;
        while j < n
            invariant
                j <= n,
                n == idf_den@.len(),
                n == doc_freqs@.len(),
                0 < n <= u32::MAX as usize,
                idf_den@ == dens,
                dens == idf_denominators(doc_freqs@),
                forall|t: int| 0 <= t < dens.len() ==> #[trigger] dens[t] >= 1,
                denom as int == denominator_product(dens.take(j as int)),
            decreases n - j,
        {
            proof {
                lemma_product_take_step(dens, j as int);
            }
            match denom.checked_mul(idf_den[j]) {
                Some(d2) => {
                    denom = d2;
                },
                None => {
                    proof {
                        lemma_product_take_monotonic(dens, j + 1);
                    }
                    return Err(SearchError::WeightOverflow);
                },
            }
            j += 1;
        }
        proof {
            assert(dens.take(n as int) =~= dens);
            lemma_product_positive(dens);
        }

        let mut mult: Vec<u64> = Vec::new();
        let mut k: usize = 0;
        while k < n
            invariant
                k <= n,
                n == idf_den@.len(),
                idf_den@ == dens,
                forall|t: int| 0 <= t < dens.len() ==> #[trigger] dens[t] >= 1,
                denom as int == denominator_product(dens),
                denom >= 1,
                mult@.len() == k,
                forall|t: int| 0 <= t < k ==> #[trigger] (mult@[t] * idf_den@[t]) == denom,
            decreases n - k,
        {
            let m: u64 = denom / idf_den[k];
            proof {
                lemma_product_factor(dens, k as int);
                let q = denominator_product(dens.remove(k as int));
                lemma_div_by_multiple(q, dens[k as int] as int);
                assert(denom as int == q * dens[k as int]);
                assert((q * dens[k as int]) / (dens[k as int] as int) == q);
                assert(m as int == q);
                assert(m * idf_den@[k as int] == denom);
            }
            mult.push(m);
            k += 1;
        }

        let mut coord: Vec<u64> = Vec::new();
        let mut c: usize = 0;
        while c < n
            invariant
                c <= n,
                coord@.len() == c,
                forall|t: int| 0 <= t < c ==> #[trigger] coord@[t] == 1,
            decreases n - c,
        {
            coord.push(1);
            c += 1;
        }

        Ok(Scorer { coord, idf_den, mult, denom })
    }

    /// Sums the contributions of the matched query-term positions of one
    /// document. Exact: the result, over `denom`, is the sum over
    /// exactly the given positions of coordination x idf x normalized
    /// frequency.
    pub fn score(&self, matched: &Vec<TermMatch>) -> (r: u128)
        requires
            self.wf(),
            matched@.len() <= self.spec_len(),
            forall|j: int| 0 <= j < matched@.len() ==> (#[trigger] matched@[j]).ord < self.spec_len(),
        ensures
            r as int == self.matched_sum(matched@),
    {
        let bound: u128 = (u32::MAX as u128) * (u64::MAX as u128);
        let mut total: u128 = 0;
        let mut j: usize = 0;
        let n = matched.len();
        while j < n
            invariant
                j <= n,
                n == matched@.len(),
                self.wf(),
                matched@.len() <= self.spec_len(),
                forall|t: int|
                    0 <= t < matched@.len() ==> (#[trigger] matched@[t]).ord < self.spec_len(),
                bound == (u32::MAX as int) * (u64::MAX as int),
                total as int == self.matched_sum(matched@.take(j as int)),
                total as int <= (j as int) * (bound as int),
            decreases n - j,
        {
            let m = matched[j];
            let divisor: u32 = if m.norm == 0 {
                1
            } else {
                m.norm
            };
            let nf: u32 = m.term_freq / divisor;
            let co: u64 = self.coord[m.ord];
            let mu: u64 = self.mult[m.ord];
            proof {
                assert(nf as int == spec_normalized_freq(m.term_freq, m.norm));
                assert(co == 1);
                assert((nf as int) * (mu as int) <= bound as int) by (nonlinear_arith)
                    requires
                        0 <= nf as int <= u32::MAX as int,
                        0 <= mu as int <= u64::MAX as int,
                        bound as int == (u32::MAX as int) * (u64::MAX as int),
                ;
            }
            let piece: u128 = (co as u128) * (nf as u128) * (mu as u128);
            proof {
                assert(piece as int == self.contribution(m.ord as int, m.term_freq, m.norm));
                assert(piece as int <= bound as int);
                assert(total as int + piece as int <= (j as int + 1) * (bound as int));
                assert((j as int + 1) * (bound as int) <= (u32::MAX as int) * (bound as int))
                    by (nonlinear_arith)
                    requires
                        j as int + 1 <= u32::MAX as int,
                        bound as int >= 0,
                ;
                assert((u32::MAX as int) * (bound as int) < u128::MAX as int);
                assert(matched@.take(j + 1).drop_last() =~= matched@.take(j as int));
                assert(matched@.take(j + 1).last() == matched@[j as int]);
            }
            total = total + piece;
            j += 1;
        }
        proof {
            assert(matched@.take(n as int) =~= matched@);
        }
        total
    }
}

} // verus!
