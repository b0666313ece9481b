//! The query executor: derives the scorer weights once, then runs the
//! merge over every segment in order, streaming each scored document to
//! the collector.
use vstd::prelude::*;

use crate::collector::{Collector, CollectorEvent, ScoredDoc};
use crate::index::{Searcher, SegmentReader};
use crate::scorer::{denominator_product, idf_denominator, idf_denominators, Scorer, ScorerModel};
use crate::union_postings::{
    channel_models, lemma_channel_models_wf, lemma_remaining_total_nonneg, merge_yield, min_current,
    models_wf, remaining_total, step_all, ChannelModel, TermChannel, UnionPostings, UnionState,
};
use crate::postings::Posting;
use crate::{SearchError, Term};

verus! {

/// The timing record a completed search returns. The hierarchical
/// profiling facility is an external collaborator and the search must
/// behave identically with a no-op facility; this is that no-op record.
pub struct TimerTree {}

/// Fetching `t` from a segment succeeds: the term is absent (an empty
/// binding, not an error), or its entry is readable and the segment
/// stores norms for the term's field.
pub open spec fn term_fetch_ok(reader: SegmentReader, t: Term) -> bool {
    match reader.lookup_term(t) {
        None => true,
        Some(k) => !reader.term_postings@[k].corrupt && reader.lookup_field(t.field) is Some,
    }
}

pub open spec fn segment_fetch_ok(reader: SegmentReader, terms: Seq<Term>) -> bool {
    forall|t: int| 0 <= t < terms.len() ==> term_fetch_ok(reader, #[trigger] terms[t])
}

/// The channel a term binds to within a segment: the term's stored
/// postings with a fresh cursor and its field's norms when present, the
/// empty binding when absent.
pub open spec fn channel_matches(reader: SegmentReader, t: Term, c: TermChannel) -> bool {
    match reader.lookup_term(t) {
        None => c.postings.entries@.len() == 0 && c.postings.pos == 0 && c.norms.norms@.len() == 0,
        Some(k) => {
            &&& c.postings.entries@ == reader.term_postings@[k].docs@
            &&& c.postings.pos == 0
            &&& match reader.lookup_field(t.field) {
                Some(f) => c.norms.norms@ == reader.fieldnorms@[f].norms.norms@,
                None => false,
            }
        },
    }
}

/// The spec-level channel a term binds to within a segment: the term's
/// stored postings with a fresh cursor and its field's norms when
/// present, the empty binding when absent.
pub open spec fn expected_channel_model(reader: SegmentReader, t: Term) -> ChannelModel {
    match reader.lookup_term(t) {
        None => ChannelModel { entries: Seq::empty(), pos: 0, norms: Seq::empty() },
        Some(k) => ChannelModel {
            entries: reader.term_postings@[k].docs@,
            pos: 0,
            norms: match reader.lookup_field(t.field) {
                Some(f) => reader.fieldnorms@[f].norms.norms@,
                None => Seq::empty(),
            },
        },
    }
}

/// A disjunctive multi-term query: an ordered sequence of terms, each
/// position weighted and matched independently (duplicates allowed).
pub struct MultiTermQuery {
    pub terms: Vec<Term>,
}

impl MultiTermQuery {
    pub fn new(terms: Vec<Term>) -> (r: MultiTermQuery)
        ensures
            r.terms@ == terms@,
    {
        MultiTermQuery { terms }
    }

    /// The corpus document frequency of each query term, in query order.
    pub open spec fn spec_doc_freqs(self, searcher: Searcher) -> Seq<u64> {
        Seq::new(self.terms@.len(), |i: int| searcher.spec_doc_freq(self.terms@[i]))
    }

    /// The query's weights are derivable: it has terms, not more than a
    /// document id can count, and their denominators' product fits the
    /// denominator word.
    pub open spec fn weights_ok(self, searcher: Searcher) -> bool {
        &&& 0 < self.terms@.len() <= u32::MAX as nat
        &&& denominator_product(idf_denominators(self.spec_doc_freqs(searcher))) <= u64::MAX as int
    }

    /// The scorer the query derives under `searcher`, as a pure function
    /// of the inputs.
    pub open spec fn spec_scorer_model(self, searcher: Searcher) -> ScorerModel {
        ScorerModel {
            coord: Seq::new(self.terms@.len(), |i: int| 1u64),
            idf_den: idf_denominators(self.spec_doc_freqs(searcher)),
            denom: denominator_product(idf_denominators(self.spec_doc_freqs(searcher))) as u64,
        }
    }

    /// The per-term channels the query binds within one segment, in
    /// query order.
    pub open spec fn segment_models(self, reader: SegmentReader) -> Seq<ChannelModel> {
        Seq::new(self.terms@.len(), |t: int| expected_channel_model(reader, self.terms@[t]))
    }

    /// The calls searching one segment makes on the collector: the
    /// segment change first, then every merged document of that segment
    /// in ascending order with its exact aggregate score.
    pub open spec fn segment_events(self, searcher: Searcher, s: int) -> Seq<CollectorEvent> {
        seq![CollectorEvent::Segment(s as u32)] + merge_yield(
            self.spec_scorer_model(searcher),
            self.segment_models(searcher.segments@[s]),
        ).map_values(|x: ScoredDoc| CollectorEvent::Doc(x))
    }

    /// All calls made on the collector while searching the first k
    /// segments, in order.
    pub open spec fn expected_events(self, searcher: Searcher, k: int) -> Seq<CollectorEvent>
        decreases k,
    {
        if k <= 0 {
            Seq::empty()
        } else {
            self.expected_events(searcher, k - 1) + self.segment_events(searcher, k - 1)
        }
    }

    /// Derives the per-term weights from the index-wide document
    /// frequencies: one idf weight and one coordination weight per term,
    /// aligned by position with the query's terms.
    pub fn scorer(&self, searcher: &Searcher) -> (r: Result<Scorer, SearchError>)
        ensures
            self.terms@.len() == 0 ==> r == Err::<Scorer, SearchError>(SearchError::EmptyQuery),
            self.terms@.len() > u32::MAX as nat ==> r == Err::<Scorer, SearchError>(
                SearchError::TooManyTerms,
            ),
            0 < self.terms@.len() <= u32::MAX as nat && !self.weights_ok(*searcher) ==> r == Err::<
                Scorer,
                SearchError,
            >(SearchError::WeightOverflow),
            self.weights_ok(*searcher) ==> (r matches Ok(s) && s.wf() && s.spec_len()
                == self.terms@.len() && s.denom == denominator_product(
                idf_denominators(self.spec_doc_freqs(*searcher)),
            ) && forall|t: int|
                0 <= t < self.terms@.len() ==> #[trigger] s.idf_den@[t] == idf_denominator(
                    searcher.spec_doc_freq(self.terms@[t]),
                )),
    {
        let n = self.terms.len();
        let mut dfs: Vec<u64> = Vec::new();
        let mut i: usize = 0;
        while i < n
            invariant
                i <= n,
                n == self.terms@.len(),
                dfs@ == self.spec_doc_freqs(*searcher).take(i as int),
            decreases n - i,
        {
            let df = searcher.doc_freq(&self.terms[i]);
            dfs.push(df);
            proof {
                assert(dfs@ =~= self.spec_doc_freqs(*searcher).take(i + 1));
            }
            i += 1;
        }
        proof {
            assert(dfs@ =~= self.spec_doc_freqs(*searcher));
        }
        Scorer::new(&dfs)
    }

    /// Binds every query term within one segment, in query order: the
    /// resulting merge has exactly one channel per term, an empty one
    /// where the term is absent. Any unreadable entry or missing norm
    /// source is an index-access error.
    pub fn search_segment(&self, reader: &SegmentReader) -> (r: Result<UnionPostings, SearchError>)
        requires
            reader.wf(),
        ensures
            r is Err <==> !segment_fetch_ok(*reader, self.terms@),
            r is Err ==> r == Err::<UnionPostings, SearchError>(SearchError::IndexAccess),
            r matches Ok(u) ==> u.wf() && u.state == UnionState::Unpositioned && u.channels@.len()
                == self.terms@.len() && forall|t: int|
                0 <= t < self.terms@.len() ==> channel_matches(
                    *reader,
                    self.terms@[t],
                    #[trigger] u.channels@[t],
                ),
            r matches Ok(u) ==> channel_models(u.channels@) == self.segment_models(*reader),
    {
        let n = self.terms.len();
        let mut channels: Vec<TermChannel> = Vec::new();
        let mut i: usize = 0;
        while i < n
            invariant
                i <= n,
                n == self.terms@.len(),
                reader.wf(),
                channels@.len() == i,
                forall|t: int| 0 <= t < i ==> term_fetch_ok(*reader, #[trigger] self.terms@[t]),
                forall|t: int|
                    0 <= t < i ==> channel_matches(
                        *reader,
                        self.terms@[t],
                        #[trigger] channels@[t],
                    ),
                forall|t: int| 0 <= t < i ==> (#[trigger] channels@[t]).wf(),
            decreases n - i,
        {
            let term = &self.terms[i];
            match reader.read_postings(term) {
                Err(_) => {
                    return Err(SearchError::IndexAccess);
                },
                Ok(None) => {
                    channels.push(TermChannel::empty());
                },
                Ok(Some(pl)) => {
                    match reader.get_fieldnorms_reader(term.field) {
                        Some(norms) => {
                            channels.push(TermChannel::new(pl, norms));
                        },
                        None => {
                            return Err(SearchError::IndexAccess);
                        },
                    }
                },
            }
            i += 1;
        }
        proof {
            let ms = channel_models(channels@);
            assert forall|t: int|
                0 <= t < ms.len() implies ms[t] =~~= self.segment_models(*reader)[t] by {
                assert(ms[t] == channels@[t].model());
                assert(channel_matches(*reader, self.terms@[t], channels@[t]));
                assert(self.segment_models(*reader)[t] == expected_channel_model(
                    *reader,
                    self.terms@[t],
                ));
                match reader.lookup_term(self.terms@[t]) {
                    None => {
                        assert(channels@[t].postings.entries@ =~= Seq::<Posting>::empty());
                        assert(channels@[t].norms.norms@ =~= Seq::<u32>::empty());
                    },
                    Some(k) => {},
                }
            }
            assert(channel_models(channels@) =~~= self.segment_models(*reader));
        }
        Ok(UnionPostings::new(channels))
    }

    /// Runs the query against every segment of the index view, in
    /// ascending segment order. The whole call sequence the collector
    /// receives is pinned: for each segment the segment change first,
    /// then every merged document of that segment in ascending order
    /// with its exact aggregate score. An empty query (and any other
    /// weight failure) is rejected before any segment or collector
    /// call; a collector or index-access failure aborts the search at
    /// once, the collector holding exactly the strict prefix of
    /// segments searched before it.
    pub fn search<C: Collector>(&self, searcher: &Searcher, collector: &mut C) -> (r: Result<
        TimerTree,
        SearchError,
    >)
        requires
            searcher.wf(),
            searcher.segments@.len() <= u32::MAX as nat,
        ensures
            self.terms@.len() == 0 ==> r == Err::<TimerTree, SearchError>(SearchError::EmptyQuery),
            self.terms@.len() > u32::MAX as nat ==> r == Err::<TimerTree, SearchError>(
                SearchError::TooManyTerms,
            ),
            0 < self.terms@.len() <= u32::MAX as nat && !self.weights_ok(*searcher) ==> r == Err::<
                TimerTree,
                SearchError,
            >(SearchError::WeightOverflow),
            self.weights_ok(*searcher) ==> !(r == Err::<TimerTree, SearchError>(
                SearchError::EmptyQuery,
            ) || r == Err::<TimerTree, SearchError>(SearchError::TooManyTerms) || r == Err::<
                TimerTree,
                SearchError,
            >(SearchError::WeightOverflow)),
            !self.weights_ok(*searcher) ==> final(collector).events() == old(collector).events(),
            self.weights_ok(*searcher) && searcher.segments@.len() == 0 ==> r is Ok,
            self.weights_ok(*searcher) && (forall|s: int|
                0 <= s < searcher.segments@.len() ==> segment_fetch_ok(
                    #[trigger] searcher.segments@[s],
                    self.terms@,
                )) ==> (r is Ok || (r matches Err(e) && e matches SearchError::Collector(_))),
            r is Ok ==> self.weights_ok(*searcher),
            r is Ok ==> forall|s: int|
                0 <= s < searcher.segments@.len() ==> segment_fetch_ok(
                    #[trigger] searcher.segments@[s],
                    self.terms@,
                ),
            r is Ok ==> final(collector).events() == old(collector).events()
                + self.expected_events(*searcher, searcher.segments@.len() as int),
            r == Err::<TimerTree, SearchError>(SearchError::IndexAccess) ==> exists|k: int|
                0 <= k < searcher.segments@.len() && !segment_fetch_ok(
                    #[trigger] searcher.segments@[k],
                    self.terms@,
                ) && (forall|j: int|
                    0 <= j < k ==> #[trigger] segment_fetch_ok(
                        searcher.segments@[j],
                        self.terms@,
                    )) && final(collector).events() == old(collector).events()
                    + self.expected_events(*searcher, k) + seq![
                    CollectorEvent::Segment(k as u32),
                ],
            (r matches Err(e) && e matches SearchError::Collector(_)) ==> self.weights_ok(
                *searcher,
            ) && exists|k: int|
                0 <= k < searcher.segments@.len() && (forall|j: int|
                    0 <= j < k ==> #[trigger] segment_fetch_ok(
                        searcher.segments@[j],
                        self.terms@,
                    )) && final(collector).events() == old(collector).events()
                    + #[trigger] self.expected_events(*searcher, k),
    {
        let ghost ev0 = collector.events();
        let scorer = match self.scorer(searcher) {
            Ok(s) => s,
            Err(e) => {
                return Err(e);
            },
        };
        let ghost sm = self.spec_scorer_model(*searcher);
        proof {
            assert(scorer.model().coord =~= sm.coord);
            assert(scorer.model().idf_den =~= sm.idf_den);
            assert(scorer.model() =~~= sm);
        }
        let den = scorer.denominator();
        let nseg = searcher.segments.len();
        let mut s: usize = 0;
        proof {
            assert(collector.events() =~= ev0 + self.expected_events(*searcher, 0));
        }
        while s < nseg
            invariant
                s <= nseg,
                nseg == searcher.segments@.len(),
                searcher.segments@.len() <= u32::MAX as nat,
                searcher.wf(),
                scorer.wf(),
                scorer.spec_len() == self.terms@.len(),
                self.weights_ok(*searcher),
                den == scorer.denom,
                sm == self.spec_scorer_model(*searcher),
                sm == scorer.model(),
                den == sm.denom,
                forall|k: int|
                    0 <= k < s ==> segment_fetch_ok(#[trigger] searcher.segments@[k], self.terms@),
                collector.events() == ev0 + self.expected_events(*searcher, s as int),
                ev0 == old(collector).events(),
            decreases nseg - s,
        {
            let reader = &searcher.segments[s];
            match collector.set_segment(s as u32, reader) {
                Ok(_) => {},
                Err(ce) => {
                    proof {
                        assert(collector.events() == ev0 + self.expected_events(
                            *searcher,
                            s as int,
                        ));
                    }
                    return Err(SearchError::Collector(ce));
                },
            }
            let mut postings = match self.search_segment(reader) {
                Ok(u) => u,
                Err(_) => {
                    proof {
                        assert(collector.events() =~= ev0 + self.expected_events(
                            *searcher,
                            s as int,
                        ) + seq![CollectorEvent::Segment((s as int) as u32)]);
                    }
                    return Err(SearchError::IndexAccess);
                },
            };
            let ghost models0 = channel_models(postings.channels@);
            let ghost base = collector.events();
            let ghost mut yielded: Seq<ScoredDoc> = Seq::empty();
            proof {
                lemma_channel_models_wf(postings.channels@);
            }
            let mut more = postings.advance(&scorer);
            proof {
                lemma_remaining_total_nonneg(postings.channels@);
                lemma_channel_models_wf(postings.channels@);
                if more {
                    assert(channel_models(postings.channels@) == step_all(models0, postings.doc));
                    assert(merge_yield(sm, models0) =~= seq![
                        (ScoredDoc {
                            score_num: postings.score_num,
                            score_den: sm.denom,
                            doc: postings.doc,
                        }),
                    ] + merge_yield(sm, channel_models(postings.channels@)));
                } else {
                    assert(min_current(models0) is None);
                    assert(merge_yield(sm, models0) =~= Seq::<ScoredDoc>::empty());
                }
            }
            while more
                invariant
                    scorer.wf(),
                    sm == scorer.model(),
                    den == sm.denom,
                    postings.wf(),
                    postings.channels@.len() == scorer.spec_len(),
                    more ==> postings.state == UnionState::Positioned,
                    models_wf(channel_models(postings.channels@)),
                    models_wf(models0),
                    collector.events() == base + yielded.map_values(
                        |x: ScoredDoc| CollectorEvent::Doc(x),
                    ),
                    merge_yield(sm, models0) == yielded + (if more {
                        seq![
                            (ScoredDoc {
                                score_num: postings.score_num,
                                score_den: sm.denom,
                                doc: postings.doc,
                            }),
                        ] + merge_yield(sm, channel_models(postings.channels@))
                    } else {
                        Seq::<ScoredDoc>::empty()
                    }),
                decreases remaining_total(postings.channels@), (if more {
                    1int
                } else {
                    0int
                }),
            {
                proof {
                    lemma_remaining_total_nonneg(postings.channels@);
                }
                let sd = ScoredDoc {
                    score_num: postings.score(),
                    score_den: den,
                    doc: postings.doc(),
                };
                collector.collect(sd);
                proof {
                    yielded = yielded.push(sd);
                    assert(collector.events() =~= base + yielded.map_values(
                        |x: ScoredDoc| CollectorEvent::Doc(x),
                    ));
                    assert(merge_yield(sm, models0) =~= yielded + merge_yield(
                        sm,
                        channel_models(postings.channels@),
                    ));
                }
                let ghost mprev = channel_models(postings.channels@);
                more = postings.advance(&scorer);
                proof {
                    lemma_remaining_total_nonneg(postings.channels@);
                    lemma_channel_models_wf(postings.channels@);
                    if more {
                        assert(channel_models(postings.channels@) == step_all(
                            mprev,
                            postings.doc,
                        ));
                        assert(merge_yield(sm, mprev) =~= seq![
                            (ScoredDoc {
                                score_num: postings.score_num,
                                score_den: sm.denom,
                                doc: postings.doc,
                            }),
                        ] + merge_yield(sm, channel_models(postings.channels@)));
                        assert(merge_yield(sm, models0) =~= yielded + (seq![
                            (ScoredDoc {
                                score_num: postings.score_num,
                                score_den: sm.denom,
                                doc: postings.doc,
                            }),
                        ] + merge_yield(sm, channel_models(postings.channels@))));
                    } else {
                        assert(min_current(mprev) is None);
                        assert(merge_yield(sm, mprev) =~= Seq::<ScoredDoc>::empty());
                        assert(merge_yield(sm, models0) =~= yielded);
                    }
                }
            }
            proof {
                assert(merge_yield(sm, models0) == yielded);
                assert(self.segment_events(*searcher, s as int) =~= seq![
                    CollectorEvent::Segment((s as int) as u32),
                ] + yielded.map_values(|x: ScoredDoc| CollectorEvent::Doc(x)));
                assert(self.expected_events(*searcher, s + 1) =~= self.expected_events(
                    *searcher,
                    s as int,
                ) + self.segment_events(*searcher, s as int));
                assert(collector.events() =~= ev0 + self.expected_events(*searcher, s + 1));
            }
            s += 1;
        }
        proof {
            assert(collector.events() == ev0 + self.expected_events(*searcher, nseg as int));
        }
        Ok(TimerTree {  })
    }
}

} // verus!
