//! The consumed side of the index: per-segment posting storage,
//! field-norm storage, and the corpus-wide view that a query executes
//! against. Everything is held as plain values so that lookups have
//! exact contracts; a corrupt entry models an index-access failure.
use vstd::prelude::*;

use crate::postings::{FieldNorms, Posting, PostingList, postings_ascending};
use crate::{SearchError, Term};

verus! {

/// The stored posting data of one term within one segment. `corrupt`
/// models an entry that cannot be decoded: reading it is an index-access
/// failure, distinct from the term simply being absent.
pub struct TermPostings {
    pub term: Term,
    pub corrupt: bool,
    pub docs: Vec<Posting>,
}

/// The stored field-norm data of one field within one segment.
pub struct FieldNormsEntry {
    pub field: u32,
    pub norms: FieldNorms,
}

/// One corpus-wide document-frequency record: how many documents of the
/// whole corpus contain the term.
pub struct TermDocFreq {
    pub term: Term,
    pub doc_freq: u64,
}

/// First position at or after i whose entry holds the term.
pub open spec fn find_term_postings(s: Seq<TermPostings>, t: Term, i: int) -> Option<int>
    decreases s.len() - i,
{
    if i < 0 || i >= s.len() {
        None
    } else if s[i].term == t {
        Some(i)
    } else {
        find_term_postings(s, t, i + 1)
    }
}

/// First position at or after i whose entry holds the field.
pub open spec fn find_field_entry(s: Seq<FieldNormsEntry>, f: u32, i: int) -> Option<int>
    decreases s.len() - i,
{
    if i < 0 || i >= s.len() {
        None
    } else if s[i].field == f {
        Some(i)
    } else {
        find_field_entry(s, f, i + 1)
    }
}

/// First position at or after i whose record holds the term.
pub open spec fn find_doc_freq(s: Seq<TermDocFreq>, t: Term, i: int) -> Option<int>
    decreases s.len() - i,
{
    if i < 0 || i >= s.len() {
        None
    } else if s[i].term == t {
        Some(i)
    } else {
        find_doc_freq(s, t, i + 1)
    }
}

fn copy_postings(src: &Vec<Posting>) -> (r: Vec<Posting>)
    ensures
        r@ == src@,
{
    let mut r: Vec<Posting> = Vec::new();
    let n = src.len();
    let mut i: usize = 0;
    while i < n
        invariant
            i <= n,
            n == src@.len(),
            r@ == src@.take(i as int),
        decreases n - i,
    {
        r.push(src[i]);
        proof {
            assert(r@ =~= src@.take(i + 1));
        }
        i += 1;
    }
    proof {
        assert(src@.take(n as int) =~= src@);
    }
    r
}

fn copy_norms(src: &Vec<u32>) -> (r: Vec<u32>)
    ensures
        r@ == src@,
{
    let mut r: Vec<u32> = Vec::new();
    let n = src.len();
    let mut i: usize = 0;
    while i < n
        invariant
            i <= n,
            n == src@.len(),
            r@ == src@.take(i as int),
        decreases n - i,
    {
        r.push(src[i]);
        proof {
            assert(r@ =~= src@.take(i + 1));
        }
        i += 1;
    }
    proof {
        assert(src@.take(n as int) =~= src@);
    }
    r
}

/// An independent, self-contained partition of the index with its own
/// local document-id space.
pub struct SegmentReader {
    pub term_postings: Vec<TermPostings>,
    pub fieldnorms: Vec<FieldNormsEntry>,
}

impl SegmentReader {
    /// Every stored posting list ascends by document id.
    pub open spec fn wf(self) -> bool {
        forall|k: int|
            0 <= k < self.term_postings@.len() ==> postings_ascending(
                (#[trigger] self.term_postings@[k]).docs@,
            )
    }

    pub open spec fn lookup_term(self, t: Term) -> Option<int> {
        find_term_postings(self.term_postings@, t, 0)
    }

    pub open spec fn lookup_field(self, f: u32) -> Option<int> {
        find_field_entry(self.fieldnorms@, f, 0)
    }

    /// Fetches the posting-list cursor of `term`: `Ok(None)` when the
    /// term is absent from this segment (not an error), and an
    /// index-access error when the stored entry cannot be read.
    pub fn read_postings(&self, term: &Term) -> (r: Result<Option<PostingList>, SearchError>)
        requires
            self.wf(),
        ensures
            match self.lookup_term(*term) {
                None => r == Ok::<Option<PostingList>, SearchError>(None),
                Some(k) => {
                    if self.term_postings@[k].corrupt {
                        r == Err::<Option<PostingList>, SearchError>(SearchError::IndexAccess)
                    } else {
                        r matches Ok(Some(pl)) && pl.wf() && pl.pos == 0 && pl.entries@
                            == self.term_postings@[k].docs@
                    }
                },
            },
    {
        let n = self.term_postings.len();
        let mut i: usize = 0;
        while i < n
            invariant
                i <= n,
                n == self.term_postings@.len(),
                self.wf(),
                find_term_postings(self.term_postings@, *term, 0) == find_term_postings(
                    self.term_postings@,
                    *term,
                    i as int,
                ),
                forall|j: int| 0 <= j < i ==> (#[trigger] self.term_postings@[j]).term != *term,
            decreases n - i,
        {
            let entry = &self.term_postings[i];
            if entry.term == *term {
                if entry.corrupt {
                    return Err(SearchError::IndexAccess);
                }
                let docs = copy_postings(&entry.docs);
                return Ok(Some(PostingList { entries: docs, pos: 0 }));
            }
            i += 1;
        }
        Ok(None)
    }

    /// Fetches the field-norm source of `field`, or `None` when this
    /// segment stores none for it.
    pub fn get_fieldnorms_reader(&self, field: u32) -> (r: Option<FieldNorms>)
        ensures
            match self.lookup_field(field) {
                None => r is None,
                Some(k) => r matches Some(fns) && fns.norms@ == self.fieldnorms@[k].norms.norms@,
            },
    {
        let n = self.fieldnorms.len();
        let mut i: usize = 0;
        while i < n
            invariant
                i <= n,
                n == self.fieldnorms@.len(),
                find_field_entry(self.fieldnorms@, field, 0) == find_field_entry(
                    self.fieldnorms@,
                    field,
                    i as int,
                ),
            decreases n - i,
        {
            let entry = &self.fieldnorms[i];
            if entry.field == field {
                let norms = copy_norms(&entry.norms.norms);
                return Some(FieldNorms { norms });
            }
            i += 1;
        }
        None
    }
}

/// The corpus-wide view a search runs against: the segments, in the
/// order they are searched, and the per-term document frequencies.
pub struct Searcher {
    pub segments: Vec<SegmentReader>,
    pub doc_freqs: Vec<TermDocFreq>,
}

impl Searcher {
    pub open spec fn wf(self) -> bool {
        forall|s: int| 0 <= s < self.segments@.len() ==> (#[trigger] self.segments@[s]).wf()
    }

    /// The corpus-wide document frequency of a term; a term with no
    /// record has frequency 0.
    pub open spec fn spec_doc_freq(self, t: Term) -> u64 {
        match find_doc_freq(self.doc_freqs@, t, 0) {
            None => 0u64,
            Some(k) => self.doc_freqs@[k].doc_freq,
        }
    }

    pub fn doc_freq(&self, term: &Term) -> (r: u64)
        ensures
            r == self.spec_doc_freq(*term),
    {
        let n = self.doc_freqs.len();
        let mut i: usize = 0;
        while i < n
            invariant
                i <= n,
                n == self.doc_freqs@.len(),
                find_doc_freq(self.doc_freqs@, *term, 0) == find_doc_freq(
                    self.doc_freqs@,
                    *term,
                    i as int,
                ),
            decreases n - i,
        {
            let entry = &self.doc_freqs[i];
            if entry.term == *term {
                return entry.doc_freq;
            }
            i += 1;
        }
        0
    }
}

} // verus!
