//! The consumer side of a search: scored hits and the collector they
//! stream to. A collector carries a spec-level record of the calls it
//! accepted, so a caller's contract can pin its whole call sequence.
use vstd::prelude::*;

use crate::CollectorError;
use crate::index::SegmentReader;

verus! {

/// A scored hit: the aggregate score as the exact fraction
/// `score_num / score_den`, and the segment-local document id. Global
/// identity is the pairing of the segment ordinal (told to the collector
/// separately) with the local id; resolving it is the collector's job.
#[derive(Clone, Copy, PartialEq, Eq, Structural, Debug)]
pub struct ScoredDoc {
    pub score_num: u128,
    pub score_den: u64,
    pub doc: u32,
}

/// One call a search makes on its collector: a segment-context change
/// or a delivered hit.
#[derive(Clone, Copy, PartialEq, Eq, Structural, Debug)]
pub enum CollectorEvent {
    Segment(u32),
    Doc(ScoredDoc),
}

/// External consumer of the ranked document stream. `events` is the
/// collector's record of the calls it accepted, oldest first; each
/// method states how one call grows it. A search tells the collector of
/// each segment change before any of that segment's documents, and a
/// `set_segment` failure aborts the search; a rejected change is not
/// recorded.
pub trait Collector {
    spec fn events(&self) -> Seq<CollectorEvent>;

    fn set_segment(&mut self, segment_ord: u32, reader: &SegmentReader) -> (r: Result<
        (),
        CollectorError,
    >)
        ensures
            r is Ok ==> final(self).events() == old(self).events().push(
                CollectorEvent::Segment(segment_ord),
            ),
            r is Err ==> final(self).events() == old(self).events(),
    ;

    fn collect(&mut self, doc: ScoredDoc)
        ensures
            final(self).events() == old(self).events().push(CollectorEvent::Doc(doc)),
    ;
}

/// A collector that records every call, in arrival order. It can be
/// told to refuse one segment change, to exercise a search's
/// failure path.
pub struct SimpleCollector {
    pub events: Vec<CollectorEvent>,
    pub refusal: Option<(u32, CollectorError)>,
}

impl SimpleCollector {
    pub fn new() -> (r: SimpleCollector)
        ensures
            r.events@.len() == 0,
            r.refusal is None,
    {
        SimpleCollector { events: Vec::new(), refusal: None }
    }
}

impl Collector for SimpleCollector {
    open spec fn events(&self) -> Seq<CollectorEvent> {
        self.events@
    }

    fn set_segment(&mut self, segment_ord: u32, _reader: &SegmentReader) -> (r: Result<
        (),
        CollectorError,
    >) {
        match self.refusal {
            Some((ord, e)) => {
                if ord == segment_ord {
                    return Err(e);
                }
            },
            None => {},
        }
        self.events.push(CollectorEvent::Segment(segment_ord));
        Ok(())
    }

    fn collect(&mut self, doc: ScoredDoc) {
        self.events.push(CollectorEvent::Doc(doc));
    }
}

} // verus!
