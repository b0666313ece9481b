use multiterm_search::collector::{CollectorEvent, ScoredDoc, SimpleCollector};
use multiterm_search::index::{FieldNormsEntry, Searcher, SegmentReader, TermDocFreq, TermPostings};
use multiterm_search::multi_term_query::MultiTermQuery;
use multiterm_search::postings::{FieldNorms, Posting, PostingList};
use multiterm_search::scorer::{Scorer, TermMatch};
use multiterm_search::union_postings::{TermChannel, UnionPostings, UnionState};
use multiterm_search::{CollectorError, SearchError, Term};

fn postings(entries: &[(u32, u32)]) -> Vec<Posting> {
    entries
        .iter()
        .map(|&(doc, term_freq)| Posting { doc, term_freq })
        .collect()
}

fn term_entry(term: Term, entries: &[(u32, u32)]) -> TermPostings {
    TermPostings {
        term,
        corrupt: false,
        docs: postings(entries),
    }
}

fn norms_entry(field: u32, norms: Vec<u32>) -> FieldNormsEntry {
    FieldNormsEntry {
        field,
        norms: FieldNorms { norms },
    }
}

// Scorer weights: idf is exactly the reciprocal of a positive document
// frequency, and exactly 1 for frequency 0.
#[test]
fn idf_weight_reciprocal_and_clamped() {
    let scorer = Scorer::new(&vec![0, 4]).unwrap();
    assert_eq!(scorer.idf_den, vec![1, 4]);
    assert_eq!(scorer.coord, vec![1, 1]);
    assert_eq!(scorer.denom, 4);
    assert_eq!(scorer.mult, vec![4, 1]);
}

#[test]
fn scorer_rejects_empty_query() {
    assert_eq!(Scorer::new(&vec![]).err(), Some(SearchError::EmptyQuery));
}

#[test]
fn scorer_rejects_denominator_overflow() {
    assert_eq!(
        Scorer::new(&vec![u64::MAX, 2]).err(),
        Some(SearchError::WeightOverflow)
    );
}

#[test]
fn score_sums_exactly_the_matched_positions() {
    // denominators [2, 5] -> denom 10, multipliers [5, 2]
    let scorer = Scorer::new(&vec![2, 5]).unwrap();
    let matched = vec![
        TermMatch {
            ord: 0,
            term_freq: 3,
            norm: 1,
        },
        TermMatch {
            ord: 1,
            term_freq: 4,
            norm: 2,
        },
    ];
    // 3/1 * 5 + (4/2) * 2 = 15 + 4
    assert_eq!(scorer.score(&matched), 19);
    assert_eq!(scorer.score(&vec![]), 0);
}

#[test]
fn normalized_frequency_dampens_and_floors() {
    let scorer = Scorer::new(&vec![1]).unwrap();
    let raw = |term_freq: u32, norm: u32| {
        scorer.score(&vec![TermMatch {
            ord: 0,
            term_freq,
            norm,
        }])
    };
    assert_eq!(raw(4, 2), 2); // dampened by the norm factor
    assert_eq!(raw(4, 0), 4); // degenerate factor floors to 1
    assert!(raw(6, 2) >= raw(4, 2)); // monotone in frequency
    assert!(raw(4, 4) <= raw(4, 2)); // antitone in the factor
}

#[test]
fn posting_list_rejects_unsorted_entries() {
    assert!(PostingList::new(postings(&[(3, 1), (3, 2)])).is_none());
    assert!(PostingList::new(postings(&[(7, 1), (3, 2)])).is_none());
    assert!(PostingList::new(postings(&[(3, 2), (7, 1)])).is_some());
}

#[test]
fn posting_list_cursor_walk() {
    let mut pl = PostingList::new(postings(&[(3, 2), (7, 1)])).unwrap();
    assert!(pl.has_current());
    assert_eq!(pl.doc(), 3);
    assert_eq!(pl.term_freq(), 2);
    assert!(pl.advance());
    assert_eq!(pl.doc(), 7);
    assert_eq!(pl.term_freq(), 1);
    assert!(!pl.advance());
    assert!(!pl.has_current());
    assert!(!pl.advance());
}

fn channel(entries: &[(u32, u32)], norms: Vec<u32>) -> TermChannel {
    TermChannel::new(
        PostingList::new(postings(entries)).unwrap(),
        FieldNorms::new(norms),
    )
}

// The merge yields strictly ascending document ids, scores each from
// exactly the matching terms, and exhaustion is terminal.
#[test]
fn union_merges_ascending_and_additive() {
    // denominators [2, 4] -> denom 8, multipliers [4, 2]
    let scorer = Scorer::new(&vec![2, 4]).unwrap();
    let mut union = UnionPostings::new(vec![
        channel(&[(1, 1), (5, 1)], vec![0, 1, 0, 0, 0, 1]),
        channel(&[(5, 2), (9, 1)], vec![0, 0, 0, 0, 0, 1, 0, 0, 0, 1]),
    ]);
    assert_eq!(union.state, UnionState::Unpositioned);

    assert!(union.advance(&scorer));
    assert_eq!(union.doc(), 1);
    assert_eq!(union.score(), 4); // term 0 alone: 1/1 * 8/2

    assert!(union.advance(&scorer));
    assert_eq!(union.doc(), 5);
    assert_eq!(union.score(), 8); // both terms: 1*4 + 2*2

    assert!(union.advance(&scorer));
    assert_eq!(union.doc(), 9);
    assert_eq!(union.score(), 2); // term 1 alone: 1/1 * 8/4

    assert!(!union.advance(&scorer));
    assert_eq!(union.state, UnionState::Exhausted);
    assert!(!union.advance(&scorer));
    assert_eq!(union.state, UnionState::Exhausted);
}

#[test]
fn union_of_empty_channels_exhausts_at_once() {
    let scorer = Scorer::new(&vec![0, 0]).unwrap();
    let mut union = UnionPostings::new(vec![TermChannel::empty(), TermChannel::empty()]);
    assert!(!union.advance(&scorer));
    assert_eq!(union.state, UnionState::Exhausted);
    assert!(!union.advance(&scorer));
}

fn single_term_searcher() -> (MultiTermQuery, Searcher, Term) {
    let term = Term::new(0, 42);
    let segment = SegmentReader {
        term_postings: vec![term_entry(term, &[(3, 2), (7, 1)])],
        fieldnorms: vec![norms_entry(0, vec![0, 0, 0, 1, 0, 0, 0, 1])],
    };
    let searcher = Searcher {
        segments: vec![segment],
        doc_freqs: vec![TermDocFreq { term, doc_freq: 1 }],
    };
    (MultiTermQuery::new(vec![term]), searcher, term)
}

// A single present term with postings [(3, 2), (7, 1)] and
// document frequency 1 yields docs 3 then 7, scores proportional to
// their frequencies.
#[test]
fn single_term_segment_walk() {
    let (query, searcher, _) = single_term_searcher();
    let mut collector = SimpleCollector::new();
    assert!(query.search(&searcher, &mut collector).is_ok());
    assert_eq!(
        collector.events,
        vec![
            CollectorEvent::Segment(0),
            CollectorEvent::Doc(ScoredDoc {
                score_num: 2,
                score_den: 1,
                doc: 3
            }),
            CollectorEvent::Doc(ScoredDoc {
                score_num: 1,
                score_den: 1,
                doc: 7
            }),
        ]
    );
}

// Of two terms one is absent from the segment; the binding
// still has one slot per term, in query order, and the only yielded
// document is scored from the present term alone.
#[test]
fn absent_term_binds_empty_slot() {
    let term_x = Term::new(0, 1);
    let term_y = Term::new(0, 2);
    let segment = SegmentReader {
        term_postings: vec![term_entry(term_y, &[(1, 1)])],
        fieldnorms: vec![norms_entry(0, vec![0, 1])],
    };
    let searcher = Searcher {
        segments: vec![segment],
        doc_freqs: vec![
            TermDocFreq {
                term: term_x,
                doc_freq: 0,
            },
            TermDocFreq {
                term: term_y,
                doc_freq: 1,
            },
        ],
    };
    let query = MultiTermQuery::new(vec![term_x, term_y]);

    let union = query.search_segment(&searcher.segments[0]).unwrap();
    assert_eq!(union.channels.len(), 2);
    assert!(!union.channels[0].postings.has_current());
    assert!(union.channels[1].postings.has_current());

    let mut collector = SimpleCollector::new();
    assert!(query.search(&searcher, &mut collector).is_ok());
    assert_eq!(
        collector.events,
        vec![
            CollectorEvent::Segment(0),
            CollectorEvent::Doc(ScoredDoc {
                score_num: 1,
                score_den: 1,
                doc: 1
            }),
        ]
    );
}

// Two present terms both matching one document; its score is
// the sum of their individual contributions, strictly above either.
#[test]
fn overlapping_terms_add_contributions() {
    let term_a = Term::new(0, 1);
    let term_b = Term::new(0, 2);
    let segment = SegmentReader {
        term_postings: vec![
            term_entry(term_a, &[(5, 3)]),
            term_entry(term_b, &[(5, 4)]),
        ],
        fieldnorms: vec![norms_entry(0, vec![0, 0, 0, 0, 0, 1])],
    };
    let searcher = Searcher {
        segments: vec![segment],
        doc_freqs: vec![
            TermDocFreq {
                term: term_a,
                doc_freq: 1,
            },
            TermDocFreq {
                term: term_b,
                doc_freq: 2,
            },
        ],
    };

    let both = MultiTermQuery::new(vec![term_a, term_b]);
    let mut collector = SimpleCollector::new();
    assert!(both.search(&searcher, &mut collector).is_ok());
    // denom 2; term a: 3 * 2 = 6, term b: 4 * 1 = 4
    assert_eq!(
        collector.events,
        vec![
            CollectorEvent::Segment(0),
            CollectorEvent::Doc(ScoredDoc {
                score_num: 10,
                score_den: 2,
                doc: 5
            }),
        ]
    );
    assert!(10 > 6 && 10 > 4);
}

// The empty query is rejected before any segment or collector
// call.
#[test]
fn empty_query_rejected_before_any_work() {
    let (_, searcher, _) = single_term_searcher();
    let query = MultiTermQuery::new(vec![]);
    let mut collector = SimpleCollector::new();
    let r = query.search(&searcher, &mut collector);
    assert_eq!(r.err(), Some(SearchError::EmptyQuery));
    assert!(collector.events.is_empty());
}

// An unreadable posting entry aborts the whole search. The
// failing segment was announced to the collector (the notification
// precedes the fetch), nothing of it was collected, and no later
// segment is processed.
#[test]
fn corrupt_entry_aborts_search() {
    let term = Term::new(0, 42);
    let bad_segment = SegmentReader {
        term_postings: vec![TermPostings {
            term,
            corrupt: true,
            docs: postings(&[(3, 2)]),
        }],
        fieldnorms: vec![norms_entry(0, vec![0, 0, 0, 1])],
    };
    let good_segment = SegmentReader {
        term_postings: vec![term_entry(term, &[(1, 1)])],
        fieldnorms: vec![norms_entry(0, vec![0, 1])],
    };
    let searcher = Searcher {
        segments: vec![bad_segment, good_segment],
        doc_freqs: vec![TermDocFreq { term, doc_freq: 1 }],
    };
    let query = MultiTermQuery::new(vec![term]);
    let mut collector = SimpleCollector::new();
    let r = query.search(&searcher, &mut collector);
    assert_eq!(r.err(), Some(SearchError::IndexAccess));
    assert_eq!(collector.events, vec![CollectorEvent::Segment(0)]);
}

#[test]
fn missing_norms_for_present_term_is_index_error() {
    let term = Term::new(3, 42);
    let segment = SegmentReader {
        term_postings: vec![term_entry(term, &[(1, 1)])],
        fieldnorms: vec![norms_entry(0, vec![0, 1])], // field 3 has no norms
    };
    let searcher = Searcher {
        segments: vec![segment],
        doc_freqs: vec![TermDocFreq { term, doc_freq: 1 }],
    };
    let query = MultiTermQuery::new(vec![term]);
    let mut collector = SimpleCollector::new();
    let r = query.search(&searcher, &mut collector);
    assert_eq!(r.err(), Some(SearchError::IndexAccess));
}

#[test]
fn collector_refusal_propagates_unmodified() {
    let (query, searcher, _) = single_term_searcher();
    let mut collector = SimpleCollector::new();
    collector.refusal = Some((0, CollectorError { code: 7 }));
    let r = query.search(&searcher, &mut collector);
    assert_eq!(
        r.err(),
        Some(SearchError::Collector(CollectorError { code: 7 }))
    );
    assert!(collector.events.is_empty());
}

#[test]
fn collector_refusal_keeps_earlier_segments() {
    let term = Term::new(0, 42);
    let seg = |doc: u32| SegmentReader {
        term_postings: vec![term_entry(term, &[(doc, 1)])],
        fieldnorms: vec![norms_entry(0, vec![1; 16])],
    };
    let searcher = Searcher {
        segments: vec![seg(4), seg(6)],
        doc_freqs: vec![TermDocFreq { term, doc_freq: 1 }],
    };
    let query = MultiTermQuery::new(vec![term]);
    let mut collector = SimpleCollector::new();
    collector.refusal = Some((1, CollectorError { code: 9 }));
    let r = query.search(&searcher, &mut collector);
    assert_eq!(
        r.err(),
        Some(SearchError::Collector(CollectorError { code: 9 }))
    );
    // the first segment was fully delivered before the refusal
    assert_eq!(
        collector.events,
        vec![
            CollectorEvent::Segment(0),
            CollectorEvent::Doc(ScoredDoc {
                score_num: 1,
                score_den: 1,
                doc: 4
            }),
        ]
    );
}

#[test]
fn duplicate_terms_score_independently() {
    let term = Term::new(0, 9);
    let segment = SegmentReader {
        term_postings: vec![term_entry(term, &[(2, 1)])],
        fieldnorms: vec![norms_entry(0, vec![0, 0, 1])],
    };
    let searcher = Searcher {
        segments: vec![segment],
        doc_freqs: vec![TermDocFreq { term, doc_freq: 1 }],
    };
    let query = MultiTermQuery::new(vec![term, term]);
    let mut collector = SimpleCollector::new();
    assert!(query.search(&searcher, &mut collector).is_ok());
    // each of the two positions contributes 1
    assert_eq!(
        collector.events,
        vec![
            CollectorEvent::Segment(0),
            CollectorEvent::Doc(ScoredDoc {
                score_num: 2,
                score_den: 1,
                doc: 2
            }),
        ]
    );
}

#[test]
fn unknown_term_has_zero_doc_freq_and_unit_weight() {
    let known = Term::new(0, 1);
    let unknown = Term::new(0, 99);
    let searcher = Searcher {
        segments: vec![],
        doc_freqs: vec![TermDocFreq {
            term: known,
            doc_freq: 5,
        }],
    };
    assert_eq!(searcher.doc_freq(&unknown), 0);
    let query = MultiTermQuery::new(vec![unknown, known]);
    let scorer = query.scorer(&searcher).unwrap();
    assert_eq!(scorer.idf_den, vec![1, 5]);
}

#[test]
fn segments_processed_in_order() {
    let term = Term::new(0, 42);
    let seg = |doc: u32| SegmentReader {
        term_postings: vec![term_entry(term, &[(doc, 1)])],
        fieldnorms: vec![norms_entry(0, vec![1; 16])],
    };
    let searcher = Searcher {
        segments: vec![seg(4), seg(2), seg(8)],
        doc_freqs: vec![TermDocFreq { term, doc_freq: 3 }],
    };
    let query = MultiTermQuery::new(vec![term]);
    let mut collector = SimpleCollector::new();
    assert!(query.search(&searcher, &mut collector).is_ok());
    let hit = |doc: u32| {
        CollectorEvent::Doc(ScoredDoc {
            score_num: 1,
            score_den: 3,
            doc,
        })
    };
    assert_eq!(
        collector.events,
        vec![
            CollectorEvent::Segment(0),
            hit(4),
            CollectorEvent::Segment(1),
            hit(2),
            CollectorEvent::Segment(2),
            hit(8),
        ]
    );
}
