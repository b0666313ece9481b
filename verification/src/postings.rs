//! Posting-list cursors and field-norm sources: the per-term,
//! per-segment inputs of the merge.
use vstd::prelude::*;

verus! {

/// One (document id, term frequency) pair of a posting list.
#[derive(Clone, Copy, PartialEq, Eq, Structural, Debug)]
pub struct Posting {
    pub doc: u32,
    pub term_freq: u32,
}

/// Document ids of a posting list strictly ascend.
pub open spec fn postings_ascending(s: Seq<Posting>) -> bool {
    forall|i: int, j: int| 0 <= i < j < s.len() ==> s[i].doc < s[j].doc
}

/// A sequential ascending cursor over the (document id, term frequency)
/// pairs of one term within one segment. The cursor starts at the first
/// entry and only moves forward.
pub struct PostingList {
    pub entries: Vec<Posting>,
    pub pos: usize,
}

impl PostingList {
    pub open spec fn wf(self) -> bool {
        &&& postings_ascending(self.entries@)
        &&& self.pos <= self.entries@.len()
    }

    /// Whether the cursor has a current position.
    pub open spec fn spec_has_current(self) -> bool {
        self.pos < self.entries@.len()
    }

    pub open spec fn current(self) -> Posting
        recommends
            self.spec_has_current(),
    {
        self.entries@[self.pos as int]
    }

    /// An always-exhausted posting list, standing for a term absent from
    /// a segment.
    pub fn empty() -> (r: PostingList)
        ensures
            r.wf(),
            !r.spec_has_current(),
            r.entries@.len() == 0,
            r.pos == 0,
    {
        PostingList { entries: Vec::new(), pos: 0 }
    }

    /// Builds a cursor positioned at the first entry; rejects entries
    /// whose document ids do not strictly ascend.
    pub fn new(entries: Vec<Posting>) -> (r: Option<PostingList>)
        ensures
            r is Some <==> postings_ascending(entries@),
            r matches Some(l) ==> l.entries@ == entries@ && l.pos == 0 && l.wf(),
    {
        let n = entries.len();
        let mut i: usize = 1;
        while i < n
            invariant
                1 <= i,
                i <= n || n == 0,
                n == entries@.len(),
                forall|a: int, b: int| 0 <= a < b < i && b < n ==> entries@[a].doc < entries@[b].doc,
            decreases n - i,
        {
            if entries[i - 1].doc >= entries[i].doc {
                assert(!postings_ascending(entries@)) by {
                    assert(0 <= i - 1 < i < n);
                    assert(entries@[i - 1].doc >= entries@[i as int].doc);
                }
                return None;
            }
            assert forall|a: int, b: int| 0 <= a < b < i + 1 && b < n implies entries@[a].doc
                < entries@[b].doc by {
                if b == i {
                    if a < i - 1 {
                        assert(entries@[a].doc < entries@[i - 1].doc);
                    }
                }
            }
            i += 1;
        }
        Some(PostingList { entries, pos: 0 })
    }

    pub fn has_current(&self) -> (r: bool)
        ensures
            r == self.spec_has_current(),
    {
        self.pos < self.entries.len()
    }

    pub fn doc(&self) -> (r: u32)
        requires
            self.spec_has_current(),
        ensures
            r == self.current().doc,
    {
        self.entries[self.pos].doc
    }

    pub fn term_freq(&self) -> (r: u32)
        requires
            self.spec_has_current(),
        ensures
            r == self.current().term_freq,
    {
        self.entries[self.pos].term_freq
    }

    /// Moves past the current position and reports whether a new current
    /// position exists. An exhausted cursor stays exhausted.
    pub fn advance(&mut self) -> (r: bool)
        requires
            old(self).wf(),
        ensures
            final(self).wf(),
            final(self).entries@ == old(self).entries@,
            old(self).spec_has_current() ==> final(self).pos == old(self).pos + 1,
            !old(self).spec_has_current() ==> final(self).pos == old(self).pos,
            r == final(self).spec_has_current(),
    {
        if self.pos < self.entries.len() {
            self.pos = self.pos + 1;
        }
        self.pos < self.entries.len()
    }
}

/// Per-document field-length normalization factors for one field,
/// indexed by local document id. Ids beyond the stored range read as 0,
/// which the scorer floors to 1.
pub struct FieldNorms {
    pub norms: Vec<u32>,
}

impl FieldNorms {
    pub open spec fn spec_norm_factor(self, doc: u32) -> u32 {
        if (doc as int) < self.norms@.len() {
            self.norms@[doc as int]
        } else {
            0u32
        }
    }

    /// A norm source with no stored factors, standing for a term absent
    /// from a segment; its postings are empty, so it is never read.
    pub fn empty() -> (r: FieldNorms)
        ensures
            r.norms@.len() == 0,
    {
        FieldNorms { norms: Vec::new() }
    }

    pub fn new(norms: Vec<u32>) -> (r: FieldNorms)
        ensures
            r.norms@ == norms@,
    {
        FieldNorms { norms }
    }

    pub fn norm_factor(&self, doc: u32) -> (r: u32)
        ensures
            r == self.spec_norm_factor(doc),
    {
        if (doc as usize) < self.norms.len() {
            self.norms[doc as usize]
        } else {
            0
        }
    }
}

} // verus!
