//! The k-way merge engine: fuses the per-term posting-list cursors of
//! one segment into a single ascending document cursor, computing each
//! document's aggregate score from exactly the terms positioned at it.
use vstd::prelude::*;

use crate::collector::ScoredDoc;
use crate::postings::{postings_ascending, FieldNorms, Posting, PostingList};
use crate::scorer::{lemma_model_contribution_agrees, Scorer, ScorerModel, TermMatch};

verus! {

/// The per-term binding of one segment: the term's posting-list cursor
/// paired with the field-norm source for the term's field, so the two
/// can never fall out of alignment. An absent term holds an empty
/// cursor and an empty norm source.
pub struct TermChannel {
    pub postings: PostingList,
    pub norms: FieldNorms,
}

impl TermChannel {
    pub open spec fn wf(self) -> bool {
        self.postings.wf()
    }

    pub open spec fn has_current(self) -> bool {
        self.postings.spec_has_current()
    }

    /// The channel's cursor is positioned exactly at document d.
    pub open spec fn at_doc(self, d: u32) -> bool {
        self.postings.spec_has_current() && self.postings.current().doc == d
    }

    /// The binding of a term absent from the segment.
    pub fn empty() -> (r: TermChannel)
        ensures
            r.wf(),
            !r.has_current(),
            r.postings.entries@.len() == 0,
            r.postings.pos == 0,
            r.norms.norms@.len() == 0,
    {
        TermChannel { postings: PostingList::empty(), norms: FieldNorms::empty() }
    }

    pub fn new(postings: PostingList, norms: FieldNorms) -> (r: TermChannel)
        ensures
            r.postings == postings,
            r.norms == norms,
    {
        TermChannel { postings, norms }
    }
}

/// Merge-cursor phase: before the first advance, at a valid document,
/// or terminally exhausted.
#[derive(Clone, Copy, PartialEq, Eq, Structural, Debug)]
pub enum UnionState {
    Unpositioned,
    Positioned,
    Exhausted,
}

/// Contribution of channel t to document d: its term's scorer
/// contribution when the channel is positioned at d, otherwise 0.
pub open spec fn channel_contribution(sc: Scorer, c: TermChannel, t: int, d: u32) -> int {
    if c.at_doc(d) {
        sc.contribution(t, c.postings.current().term_freq, c.norms.spec_norm_factor(d))
    } else {
        0int
    }
}

pub open spec fn doc_score_prefix(sc: Scorer, chans: Seq<TermChannel>, d: u32, n: int) -> int
    decreases n,
{
    if n <= 0 {
        0int
    } else {
        doc_score_prefix(sc, chans, d, n - 1) + channel_contribution(sc, chans[n - 1], n - 1, d)
    }
}

/// The aggregate score of document d, as a numerator over the scorer's
/// denominator: the sum over exactly the query-term positions whose
/// cursor is positioned at d — no contribution from any other position.
pub open spec fn doc_score(sc: Scorer, chans: Seq<TermChannel>, d: u32) -> int {
    doc_score_prefix(sc, chans, d, chans.len() as int)
}

pub open spec fn some_current(chans: Seq<TermChannel>) -> bool {
    exists|i: int| 0 <= i < chans.len() && (#[trigger] chans[i]).has_current()
}

/// d is the minimum current document id among the channels.
pub open spec fn is_min_doc(chans: Seq<TermChannel>, d: u32) -> bool {
    &&& exists|i: int| 0 <= i < chans.len() && (#[trigger] chans[i]).at_doc(d)
    &&& forall|i: int|
        0 <= i < chans.len() && (#[trigger] chans[i]).has_current()
            ==> chans[i].postings.current().doc >= d
}

/// How one advance of the merge moves a channel: a channel positioned at
/// the yielded document steps one entry forward, every other channel is
/// left untouched.
pub open spec fn channel_advanced(before: TermChannel, after: TermChannel, d: u32) -> bool {
    if before.at_doc(d) {
        &&& after.postings.entries@ == before.postings.entries@
        &&& after.postings.pos == before.postings.pos + 1
        &&& after.norms == before.norms
    } else {
        after == before
    }
}

/// Entries a channel's cursor has not yet consumed.
pub open spec fn channel_remaining(c: TermChannel) -> int {
    if c.postings.pos <= c.postings.entries@.len() {
        c.postings.entries@.len() - c.postings.pos
    } else {
        0int
    }
}

/// Total unconsumed entries of all channels: the merge's progress
/// measure.
pub open spec fn remaining_total(chans: Seq<TermChannel>) -> int
    decreases chans.len(),
{
    if chans.len() == 0 {
        0int
    } else {
        remaining_total(chans.drop_last()) + channel_remaining(chans.last())
    }
}

pub proof fn lemma_remaining_total_nonneg(chans: Seq<TermChannel>)
    ensures
        remaining_total(chans) >= 0,
    decreases chans.len(),
{
    if chans.len() > 0 {
        lemma_remaining_total_nonneg(chans.drop_last());
    }
}

proof fn lemma_remaining_total_le(a: Seq<TermChannel>, b: Seq<TermChannel>)
    requires
        a.len() == b.len(),
        forall|i: int|
            0 <= i < a.len() ==> channel_remaining(#[trigger] b[i]) <= channel_remaining(a[i]),
    ensures
        remaining_total(b) <= remaining_total(a),
    decreases a.len(),
{
    if a.len() > 0 {
        assert(forall|i: int|
            0 <= i < a.drop_last().len() ==> channel_remaining(#[trigger] b.drop_last()[i])
                <= channel_remaining(a.drop_last()[i]));
        lemma_remaining_total_le(a.drop_last(), b.drop_last());
        assert(channel_remaining(b.last()) <= channel_remaining(a.last()));
    }
}

proof fn lemma_remaining_total_lt(a: Seq<TermChannel>, b: Seq<TermChannel>, w: int)
    requires
        a.len() == b.len(),
        forall|i: int|
            0 <= i < a.len() ==> channel_remaining(#[trigger] b[i]) <= channel_remaining(a[i]),
        0 <= w < a.len(),
        channel_remaining(b[w]) < channel_remaining(a[w]),
    ensures
        remaining_total(b) < remaining_total(a),
    decreases a.len(),
{
    assert(forall|i: int|
        0 <= i < a.drop_last().len() ==> channel_remaining(#[trigger] b.drop_last()[i])
            <= channel_remaining(a.drop_last()[i]));
    if w == a.len() - 1 {
        lemma_remaining_total_le(a.drop_last(), b.drop_last());
        assert(channel_remaining(b.last()) < channel_remaining(a.last()));
    } else {
        lemma_remaining_total_lt(a.drop_last(), b.drop_last(), w);
        assert(channel_remaining(b.last()) <= channel_remaining(a.last()));
    }
}

/// Spec-level image of a channel: everything the merge reads of it.
#[verifier::ext_equal]
pub struct ChannelModel {
    pub entries: Seq<Posting>,
    pub pos: int,
    pub norms: Seq<u32>,
}

impl ChannelModel {
    pub open spec fn wf(self) -> bool {
        &&& postings_ascending(self.entries)
        &&& 0 <= self.pos <= self.entries.len()
    }

    pub open spec fn has_current(self) -> bool {
        self.pos < self.entries.len()
    }

    pub open spec fn current(self) -> Posting
        recommends
            self.has_current(),
    {
        self.entries[self.pos]
    }

    pub open spec fn at_doc(self, d: u32) -> bool {
        self.has_current() && self.current().doc == d
    }

    pub open spec fn norm_factor(self, d: u32) -> u32 {
        if (d as int) < self.norms.len() {
            self.norms[d as int]
        } else {
            0u32
        }
    }

    pub open spec fn remaining(self) -> int {
        if self.pos <= self.entries.len() {
            self.entries.len() - self.pos
        } else {
            0int
        }
    }

    /// The channel after one merge step at document d: positioned there,
    /// it moves one entry forward; elsewhere, it is untouched.
    pub open spec fn step(self, d: u32) -> ChannelModel {
        if self.at_doc(d) {
            ChannelModel { entries: self.entries, pos: self.pos + 1, norms: self.norms }
        } else {
            self
        }
    }
}

impl TermChannel {
    pub open spec fn model(self) -> ChannelModel {
        ChannelModel {
            entries: self.postings.entries@,
            pos: self.postings.pos as int,
            norms: self.norms.norms@,
        }
    }
}

pub open spec fn channel_models(chans: Seq<TermChannel>) -> Seq<ChannelModel> {
    chans.map_values(|c: TermChannel| c.model())
}

pub open spec fn models_wf(ms: Seq<ChannelModel>) -> bool {
    forall|i: int| 0 <= i < ms.len() ==> (#[trigger] ms[i]).wf()
}

pub proof fn lemma_channel_models_wf(chans: Seq<TermChannel>)
    requires
        forall|i: int| 0 <= i < chans.len() ==> (#[trigger] chans[i]).wf(),
    ensures
        models_wf(channel_models(chans)),
{
    assert forall|i: int|
        0 <= i < channel_models(chans).len() implies (#[trigger] channel_models(chans)[i]).wf() by {
        assert(channel_models(chans)[i] == chans[i].model());
        assert(chans[i].wf());
    }
}

/// The smallest current document id among the channels, if any channel
/// has one.
pub open spec fn min_current(ms: Seq<ChannelModel>) -> Option<u32>
    decreases ms.len(),
{
    if ms.len() == 0 {
        None
    } else {
        let rest = min_current(ms.drop_last());
        let c = ms.last();
        if !c.has_current() {
            rest
        } else {
            match rest {
                None => Some(c.current().doc),
                Some(m) => if c.current().doc < m {
                    Some(c.current().doc)
                } else {
                    Some(m)
                },
            }
        }
    }
}

pub proof fn lemma_min_current_characterization(ms: Seq<ChannelModel>)
    ensures
        match min_current(ms) {
            None => forall|i: int| 0 <= i < ms.len() ==> !(#[trigger] ms[i]).has_current(),
            Some(d) => (exists|i: int| 0 <= i < ms.len() && (#[trigger] ms[i]).at_doc(d))
                && forall|i: int|
                0 <= i < ms.len() && (#[trigger] ms[i]).has_current() ==> ms[i].current().doc >= d,
        },
    decreases ms.len(),
{
    if ms.len() > 0 {
        lemma_min_current_characterization(ms.drop_last());
        assert(forall|i: int| 0 <= i < ms.len() - 1 ==> ms.drop_last()[i] == ms[i]);
        match min_current(ms) {
            None => {},
            Some(d) => {
                let c = ms.last();
                if c.has_current() && c.current().doc == d {
                    assert(ms[ms.len() - 1].at_doc(d));
                } else {
                    assert(min_current(ms.drop_last()) == Some(d));
                    let w = choose|i: int|
                        0 <= i < ms.drop_last().len() && (#[trigger] ms.drop_last()[i]).at_doc(d);
                    assert(ms[w].at_doc(d));
                }
            },
        }
    }
}

pub open spec fn step_all(ms: Seq<ChannelModel>, d: u32) -> Seq<ChannelModel> {
    ms.map_values(|c: ChannelModel| c.step(d))
}

pub open spec fn model_contribution(sm: ScorerModel, c: ChannelModel, t: int, d: u32) -> int {
    if c.at_doc(d) {
        sm.contribution(t, c.current().term_freq, c.norm_factor(d))
    } else {
        0int
    }
}

pub open spec fn model_doc_score_prefix(sm: ScorerModel, ms: Seq<ChannelModel>, d: u32, n: int) -> int
    decreases n,
{
    if n <= 0 {
        0int
    } else {
        model_doc_score_prefix(sm, ms, d, n - 1) + model_contribution(sm, ms[n - 1], n - 1, d)
    }
}

/// The aggregate score of document d over the channel models, as a
/// numerator over the model's denominator.
pub open spec fn model_doc_score(sm: ScorerModel, ms: Seq<ChannelModel>, d: u32) -> int {
    model_doc_score_prefix(sm, ms, d, ms.len() as int)
}

proof fn lemma_doc_score_models_agree(sc: Scorer, chans: Seq<TermChannel>, d: u32, n: int)
    requires
        sc.wf(),
        0 <= n <= chans.len(),
        chans.len() <= sc.spec_len(),
    ensures
        model_doc_score_prefix(sc.model(), channel_models(chans), d, n) == doc_score_prefix(
            sc,
            chans,
            d,
            n,
        ),
    decreases n,
{
    if n > 0 {
        lemma_doc_score_models_agree(sc, chans, d, n - 1);
        assert(channel_models(chans)[n - 1] == chans[n - 1].model());
        if chans[n - 1].at_doc(d) {
            lemma_model_contribution_agrees(
                sc,
                n - 1,
                chans[n - 1].postings.current().term_freq,
                chans[n - 1].norms.spec_norm_factor(d),
            );
        }
    }
}

pub open spec fn model_remaining_total(ms: Seq<ChannelModel>) -> int
    decreases ms.len(),
{
    if ms.len() == 0 {
        0int
    } else {
        model_remaining_total(ms.drop_last()) + ms.last().remaining()
    }
}

pub proof fn lemma_model_remaining_nonneg(ms: Seq<ChannelModel>)
    ensures
        model_remaining_total(ms) >= 0,
    decreases ms.len(),
{
    if ms.len() > 0 {
        lemma_model_remaining_nonneg(ms.drop_last());
    }
}

proof fn lemma_model_remaining_le(a: Seq<ChannelModel>, b: Seq<ChannelModel>)
    requires
        a.len() == b.len(),
        forall|i: int| 0 <= i < a.len() ==> (#[trigger] b[i]).remaining() <= a[i].remaining(),
    ensures
        model_remaining_total(b) <= model_remaining_total(a),
    decreases a.len(),
{
    if a.len() > 0 {
        assert(forall|i: int|
            0 <= i < a.drop_last().len() ==> (#[trigger] b.drop_last()[i]).remaining()
                <= a.drop_last()[i].remaining());
        lemma_model_remaining_le(a.drop_last(), b.drop_last());
    }
}

proof fn lemma_model_remaining_lt(a: Seq<ChannelModel>, b: Seq<ChannelModel>, w: int)
    requires
        a.len() == b.len(),
        forall|i: int| 0 <= i < a.len() ==> (#[trigger] b[i]).remaining() <= a[i].remaining(),
        0 <= w < a.len(),
        b[w].remaining() < a[w].remaining(),
    ensures
        model_remaining_total(b) < model_remaining_total(a),
    decreases a.len(),
{
    assert(forall|i: int|
        0 <= i < a.drop_last().len() ==> (#[trigger] b.drop_last()[i]).remaining()
            <= a.drop_last()[i].remaining());
    if w == a.len() - 1 {
        lemma_model_remaining_le(a.drop_last(), b.drop_last());
    } else {
        lemma_model_remaining_lt(a.drop_last(), b.drop_last(), w);
    }
}

/// The full stream the merge produces from the given channel states:
/// one (document id, aggregate score) entry per id appearing in some
/// channel, smallest id first, each scored over `sm.denom`.
pub open spec fn merge_yield(sm: ScorerModel, ms: Seq<ChannelModel>) -> Seq<ScoredDoc>
    decreases model_remaining_total(ms),
    when models_wf(ms)
    via merge_yield_decreases
{
    match min_current(ms) {
        None => Seq::empty(),
        Some(d) => seq![
            ScoredDoc {
                score_num: model_doc_score(sm, ms, d) as u128,
                score_den: sm.denom,
                doc: d,
            },
        ] + merge_yield(sm, step_all(ms, d)),
    }
}

proof fn lemma_step_all_preserves(ms: Seq<ChannelModel>, d: u32)
    requires
        models_wf(ms),
        min_current(ms) == Some(d),
    ensures
        models_wf(step_all(ms, d)),
        model_remaining_total(step_all(ms, d)) < model_remaining_total(ms),
        model_remaining_total(step_all(ms, d)) >= 0,
{
    lemma_min_current_characterization(ms);
    let sms = step_all(ms, d);
    assert forall|i: int| 0 <= i < sms.len() implies (#[trigger] sms[i]).wf() by {
        assert(sms[i] == ms[i].step(d));
        assert(ms[i].wf());
    }
    assert forall|i: int| 0 <= i < ms.len() implies (#[trigger] sms[i]).remaining()
        <= ms[i].remaining() by {
        assert(sms[i] == ms[i].step(d));
    }
    let w = choose|i: int| 0 <= i < ms.len() && (#[trigger] ms[i]).at_doc(d);
    assert(sms[w] == ms[w].step(d));
    assert(sms[w].remaining() < ms[w].remaining());
    lemma_model_remaining_lt(ms, sms, w);
    lemma_model_remaining_nonneg(sms);
}

proof fn lemma_min_current_none(ms: Seq<ChannelModel>)
    requires
        forall|i: int| 0 <= i < ms.len() ==> !(#[trigger] ms[i]).has_current(),
    ensures
        min_current(ms) is None,
{
    lemma_min_current_characterization(ms);
    match min_current(ms) {
        None => {},
        Some(d) => {
            let w = choose|i: int| 0 <= i < ms.len() && (#[trigger] ms[i]).at_doc(d);
            assert(ms[w].has_current());
        },
    }
}

proof fn lemma_min_current_some(ms: Seq<ChannelModel>, d: u32)
    requires
        exists|i: int| 0 <= i < ms.len() && (#[trigger] ms[i]).at_doc(d),
        forall|i: int|
            0 <= i < ms.len() && (#[trigger] ms[i]).has_current() ==> ms[i].current().doc >= d,
    ensures
        min_current(ms) == Some(d),
{
    lemma_min_current_characterization(ms);
    let w = choose|i: int| 0 <= i < ms.len() && (#[trigger] ms[i]).at_doc(d);
    match min_current(ms) {
        None => {
            assert(ms[w].has_current());
        },
        Some(d2) => {
            let w2 = choose|i: int| 0 <= i < ms.len() && (#[trigger] ms[i]).at_doc(d2);
            assert(ms[w].current().doc >= d2);
            assert(ms[w2].current().doc >= d);
        },
    }
}

#[via_fn]
proof fn merge_yield_decreases(sm: ScorerModel, ms: Seq<ChannelModel>) {
    match min_current(ms) {
        None => {},
        Some(d) => {
            lemma_step_all_preserves(ms, d);
        },
    }
}

/// Law: the merged stream never repeats a document id — every yielded id
/// strictly exceeds the bound below all current ids.
proof fn lemma_merge_yield_above(sm: ScorerModel, ms: Seq<ChannelModel>, b: u32)
    requires
        models_wf(ms),
        forall|i: int|
            0 <= i < ms.len() && (#[trigger] ms[i]).has_current() ==> ms[i].current().doc > b,
    ensures
        forall|k: int|
            0 <= k < merge_yield(sm, ms).len() ==> (#[trigger] merge_yield(sm, ms)[k]).doc > b,
    decreases model_remaining_total(ms),
{
    lemma_min_current_characterization(ms);
    lemma_model_remaining_nonneg(ms);
    match min_current(ms) {
    None => {},
    Some(d) => {
        lemma_step_all_preserves(ms, d);
        let w = choose|i: int| 0 <= i < ms.len() && (#[trigger] ms[i]).at_doc(d);
        assert(ms[w].current().doc == d);
        assert(d > b);
        let sms = step_all(ms, d);
        assert forall|i: int|
            0 <= i < sms.len() && (#[trigger] sms[i]).has_current() implies sms[i].current().doc
            > d by {
            assert(sms[i] == ms[i].step(d));
            if ms[i].at_doc(d) {
                assert(ms[i].entries[ms[i].pos].doc < ms[i].entries[ms[i].pos + 1].doc);
            }
        }
        lemma_merge_yield_above(sm, sms, d);
        assert forall|k: int|
            0 <= k < merge_yield(sm, ms).len() implies (#[trigger] merge_yield(sm, ms)[k]).doc
            > b by {
            if k > 0 {
                assert(merge_yield(sm, ms)[k] == merge_yield(sm, sms)[k - 1]);
                assert(merge_yield(sm, sms)[k - 1].doc > d);
            }
        }
    },
    }
}

/// Law: within one merged stream, document ids strictly ascend — no id
/// is ever yielded twice.
pub proof fn lemma_merge_yield_ascending(sm: ScorerModel, ms: Seq<ChannelModel>)
    requires
        models_wf(ms),
    ensures
        forall|i: int, j: int|
            0 <= i < j < merge_yield(sm, ms).len() ==> merge_yield(sm, ms)[i].doc < merge_yield(
                sm,
                ms,
            )[j].doc,
    decreases model_remaining_total(ms),
{
    lemma_min_current_characterization(ms);
    lemma_model_remaining_nonneg(ms);
    match min_current(ms) {
    None => {},
    Some(d) => {
        lemma_step_all_preserves(ms, d);
        let sms = step_all(ms, d);
        assert forall|i: int|
            0 <= i < sms.len() && (#[trigger] sms[i]).has_current() implies sms[i].current().doc
            > d by {
            assert(sms[i] == ms[i].step(d));
            if ms[i].at_doc(d) {
                assert(ms[i].entries[ms[i].pos].doc < ms[i].entries[ms[i].pos + 1].doc);
            }
        }
        lemma_merge_yield_above(sm, sms, d);
        lemma_merge_yield_ascending(sm, sms);
        assert forall|i: int, j: int|
            0 <= i < j < merge_yield(sm, ms).len() implies merge_yield(sm, ms)[i].doc < merge_yield(
            sm,
            ms,
        )[j].doc by {
            assert(merge_yield(sm, ms)[j] == merge_yield(sm, sms)[j - 1]);
            if i > 0 {
                assert(merge_yield(sm, ms)[i] == merge_yield(sm, sms)[i - 1]);
            } else {
                assert(merge_yield(sm, ms)[0].doc == d);
                assert(merge_yield(sm, sms)[j - 1].doc > d);
            }
        }
    },
    }
}

/// Law: the merge is complete — every document id at or past some
/// channel's cursor is yielded.
pub proof fn lemma_merge_yield_complete(sm: ScorerModel, ms: Seq<ChannelModel>)
    requires
        models_wf(ms),
    ensures
        forall|i: int, k: int|
            0 <= i < ms.len() && ms[i].pos <= k < ms[i].entries.len() ==> exists|j: int|
                0 <= j < merge_yield(sm, ms).len() && (#[trigger] merge_yield(sm, ms)[j]).doc == (
                #[trigger] ms[i].entries[k]).doc,
    decreases model_remaining_total(ms),
{
    lemma_min_current_characterization(ms);
    lemma_model_remaining_nonneg(ms);
    match min_current(ms) {
        None => {},
        Some(d) => {
            lemma_step_all_preserves(ms, d);
            let sms = step_all(ms, d);
            lemma_merge_yield_complete(sm, sms);
            assert forall|i: int, k: int|
                0 <= i < ms.len() && ms[i].pos <= k < ms[i].entries.len() implies exists|j: int|
                0 <= j < merge_yield(sm, ms).len() && (#[trigger] merge_yield(sm, ms)[j]).doc == (
            #[trigger] ms[i].entries[k]).doc by {
                assert(sms[i] == ms[i].step(d));
                if ms[i].at_doc(d) && k == ms[i].pos {
                    assert(merge_yield(sm, ms)[0].doc == d);
                    assert(ms[i].entries[k].doc == d);
                } else {
                    assert(sms[i].pos <= k < sms[i].entries.len());
                    assert(sms[i].entries[k] == ms[i].entries[k]);
                    let j = choose|j: int|
                        0 <= j < merge_yield(sm, sms).len() && (#[trigger] merge_yield(
                            sm,
                            sms,
                        )[j]).doc == sms[i].entries[k].doc;
                    assert(merge_yield(sm, ms)[j + 1] == merge_yield(sm, sms)[j]);
                }
            }
        },
    }
}

/// Law: the merge yields no stray id — every yielded document id stands
/// at or past some channel's cursor.
pub proof fn lemma_merge_yield_sound(sm: ScorerModel, ms: Seq<ChannelModel>)
    requires
        models_wf(ms),
    ensures
        forall|j: int|
            0 <= j < merge_yield(sm, ms).len() ==> exists|i: int, k: int|
                0 <= i < ms.len() && ms[i].pos <= k < ms[i].entries.len() && (#[trigger] merge_yield(
                    sm,
                    ms,
                )[j]).doc == ms[i].entries[k].doc,
    decreases model_remaining_total(ms),
{
    lemma_min_current_characterization(ms);
    lemma_model_remaining_nonneg(ms);
    match min_current(ms) {
        None => {},
        Some(d) => {
            lemma_step_all_preserves(ms, d);
            let sms = step_all(ms, d);
            lemma_merge_yield_sound(sm, sms);
            let w = choose|i: int| 0 <= i < ms.len() && (#[trigger] ms[i]).at_doc(d);
            assert forall|j: int|
                0 <= j < merge_yield(sm, ms).len() implies exists|i: int, k: int|
                0 <= i < ms.len() && ms[i].pos <= k < ms[i].entries.len() && (#[trigger] merge_yield(
                    sm,
                    ms,
                )[j]).doc == ms[i].entries[k].doc by {
                if j == 0 {
                    assert(merge_yield(sm, ms)[0].doc == d);
                    assert(ms[w].pos <= ms[w].pos < ms[w].entries.len());
                    assert(ms[w].entries[ms[w].pos].doc == d);
                } else {
                    assert(merge_yield(sm, ms)[j] == merge_yield(sm, sms)[j - 1]);
                    let (i2, k2) = choose|i2: int, k2: int|
                        0 <= i2 < sms.len() && sms[i2].pos <= k2 < sms[i2].entries.len() && (
                        #[trigger] merge_yield(sm, sms)[j - 1]).doc == sms[i2].entries[k2].doc;
                    assert(sms[i2] == ms[i2].step(d));
                    assert(ms[i2].pos <= k2 < ms[i2].entries.len());
                    assert(ms[i2].entries[k2] == sms[i2].entries[k2]);
                }
            }
        },
    }
}

fn channel_at_mut(v: &mut Vec<TermChannel>, i: usize) -> (r: &mut TermChannel)
    requires
        i < old(v)@.len(),
    ensures
        *r == old(v)@[i as int],
        final(v)@ == old(v)@.update(i as int, *final(r)),
{
    &mut v[i]
}

/// The merge cursor itself: N per-term channels fused into one ascending
/// stream of (document id, aggregate score) pairs — one entry per
/// document id that appears in at least one channel.
pub struct UnionPostings {
    pub channels: Vec<TermChannel>,
    pub state: UnionState,
    pub doc: u32,
    pub score_num: u128,
}

impl UnionPostings {
    pub open spec fn wf(self) -> bool {
        &&& forall|i: int| 0 <= i < self.channels@.len() ==> (#[trigger] self.channels@[i]).wf()
        &&& self.state == UnionState::Positioned ==> forall|i: int|
            0 <= i < self.channels@.len() && (#[trigger] self.channels@[i]).has_current()
                ==> self.channels@[i].postings.current().doc > self.doc
        &&& self.state == UnionState::Exhausted ==> !some_current(self.channels@)
    }

    /// Builds the merge over channels already aligned to query order.
    pub fn new(channels: Vec<TermChannel>) -> (r: UnionPostings)
        requires
            forall|i: int| 0 <= i < channels@.len() ==> (#[trigger] channels@[i]).wf(),
        ensures
            r.wf(),
            r.state == UnionState::Unpositioned,
            r.channels@ == channels@,
    {
        UnionPostings { channels, state: UnionState::Unpositioned, doc: 0, score_num: 0 }
    }

    pub fn doc(&self) -> (r: u32)
        requires
            self.state == UnionState::Positioned,
        ensures
            r == self.doc,
    {
        self.doc
    }

    pub fn score(&self) -> (r: u128)
        requires
            self.state == UnionState::Positioned,
        ensures
            r == self.score_num,
    {
        self.score_num
    }

    /// One step of the merge. On success the cursor stands at the
    /// smallest current document id among the channels, its score is the
    /// sum of exactly the matching channels' contributions, every
    /// matching channel has stepped forward, and the id strictly exceeds
    /// the previously yielded one. Reporting failure is terminal: the
    /// cursor is exhausted and every later advance fails too.
    pub fn advance(&mut self, scorer: &Scorer) -> (r: bool)
        requires
            old(self).wf(),
            scorer.wf(),
            old(self).channels@.len() == scorer.spec_len(),
        ensures
            final(self).wf(),
            final(self).channels@.len() == old(self).channels@.len(),
            old(self).state == UnionState::Exhausted ==> !r && *final(self) == *old(self),
            !r ==> final(self).state == UnionState::Exhausted && final(self).channels@ == old(
                self,
            ).channels@,
            r ==> final(self).state == UnionState::Positioned,
            r ==> is_min_doc(old(self).channels@, final(self).doc),
            r ==> final(self).score_num as int == doc_score(
                *scorer,
                old(self).channels@,
                final(self).doc,
            ),
            r && old(self).state == UnionState::Positioned ==> final(self).doc > old(self).doc,
            r ==> forall|i: int|
                0 <= i < old(self).channels@.len() ==> #[trigger] channel_advanced(
                    old(self).channels@[i],
                    final(self).channels@[i],
                    final(self).doc,
                ),
            r ==> remaining_total(final(self).channels@) < remaining_total(old(self).channels@),
            !r ==> min_current(channel_models(old(self).channels@)) is None,
            r ==> min_current(channel_models(old(self).channels@)) == Some(final(self).doc),
            r ==> channel_models(final(self).channels@) == step_all(
                channel_models(old(self).channels@),
                final(self).doc,
            ),
            r ==> final(self).score_num as int == model_doc_score(
                scorer.model(),
                channel_models(old(self).channels@),
                final(self).doc,
            ),
    {
        match self.state {
            UnionState::Exhausted => {
                proof {
                    let m0 = channel_models(self.channels@);
                    assert forall|i: int| 0 <= i < m0.len() implies !(#[trigger] m0[i]).has_current() by {
                        assert(m0[i] == self.channels@[i].model());
                        assert(!self.channels@[i].has_current());
                    }
                    lemma_min_current_none(m0);
                }
                return false;
            },
            _ => {},
        }
        let ghost chans0 = self.channels@;
        let ghost doc0 = self.doc;
        let ghost state0 = self.state;
        let n = self.channels.len();

        let mut found: bool = false;
        let mut d: u32 = 0;
        let mut i: usize = 0;
        while i < n
            invariant
                i <= n,
                n == self.channels@.len(),
                self.channels@ == chans0,
                self.doc == doc0,
                self.state == state0,
                found ==> exists|t: int| 0 <= t < i && (#[trigger] chans0[t]).at_doc(d),
                forall|t: int|
                    0 <= t < i && (#[trigger] chans0[t]).has_current()
                        ==> chans0[t].postings.current().doc >= d,
                !found ==> forall|t: int| 0 <= t < i ==> !(#[trigger] chans0[t]).has_current(),
            decreases n - i,
        {
            let ch = &self.channels[i];
            if ch.postings.has_current() {
                let cd = ch.postings.doc();
                if !found || cd < d {
                    d = cd;
                    found = true;
                }
            }
            i += 1;
        }

        if !found {
            self.state = UnionState::Exhausted;
            proof {
                let m0 = channel_models(chans0);
                assert forall|i: int| 0 <= i < m0.len() implies !(#[trigger] m0[i]).has_current() by {
                    assert(m0[i] == chans0[i].model());
                    assert(!chans0[i].has_current());
                }
                lemma_min_current_none(m0);
            }
            return false;
        }
        assert(is_min_doc(chans0, d));

        let mut matched: Vec<TermMatch> = Vec::new();
        let mut k: usize = 0;
        while k < n
            invariant
                k <= n,
                n == self.channels@.len(),
                n == chans0.len(),
                n == scorer.spec_len(),
                scorer.wf(),
                is_min_doc(chans0, d),
                forall|t: int| 0 <= t < chans0.len() ==> (#[trigger] chans0[t]).wf(),
                self.doc == doc0,
                self.state == state0,
                forall|t: int|
                    0 <= t < k ==> #[trigger] channel_advanced(chans0[t], self.channels@[t], d),
                forall|t: int| k <= t < n ==> #[trigger] self.channels@[t] == chans0[t],
                matched@.len() <= k,
                forall|q: int| 0 <= q < matched@.len() ==> (#[trigger] matched@[q]).ord < n,
                scorer.matched_sum(matched@) == doc_score_prefix(*scorer, chans0, d, k as int),
                forall|t: int| 0 <= t < n ==> (#[trigger] self.channels@[t]).wf(),
            decreases n - k,
        {
            let at_min: bool;
            let freq: u32;
            let norm_raw: u32;
            {
                let ch = &self.channels[k];
                if ch.postings.has_current() && ch.postings.doc() == d {
                    at_min = true;
                    freq = ch.postings.term_freq();
                    norm_raw = ch.norms.norm_factor(d);
                } else {
                    at_min = false;
                    freq = 0;
                    norm_raw = 0;
                }
            }
            let ghost matched0 = matched@;
            if at_min {
                matched.push(TermMatch { ord: k, term_freq: freq, norm: norm_raw });
                let chm = channel_at_mut(&mut self.channels, k);
                chm.postings.advance();
                proof {
                    assert(matched@.drop_last() =~= matched0);
                    assert(channel_contribution(*scorer, chans0[k as int], k as int, d)
                        == scorer.contribution(k as int, freq, norm_raw));
                }
            }
            proof {
                assert(scorer.matched_sum(matched@) == doc_score_prefix(
                    *scorer,
                    chans0,
                    d,
                    k + 1,
                ));
            }
            k += 1;
        }

        let score_val = scorer.score(&matched);
        proof {
            assert(doc_score_prefix(*scorer, chans0, d, n as int) == doc_score(*scorer, chans0, d));
        }
        self.doc = d;
        self.score_num = score_val;
        self.state = UnionState::Positioned;

        proof {
            let chans1 = self.channels@;
            assert forall|t: int|
                0 <= t < chans1.len() && (#[trigger] chans1[t]).has_current() implies chans1[t].postings.current().doc
                > d by {
                assert(channel_advanced(chans0[t], chans1[t], d));
                if chans0[t].at_doc(d) {
                    let p = chans0[t].postings;
                    assert(chans1[t].postings.pos == p.pos + 1);
                    assert(chans1[t].postings.entries@ == p.entries@);
                    assert(p.entries@[p.pos as int].doc == d);
                    assert(p.entries@[p.pos as int].doc < p.entries@[p.pos + 1].doc);
                } else {
                    assert(chans1[t] == chans0[t]);
                    assert(chans0[t].postings.current().doc >= d);
                    assert(chans0[t].postings.current().doc != d);
                }
            }
            let w = choose|t: int| 0 <= t < chans0.len() && (#[trigger] chans0[t]).at_doc(d);
            if state0 == UnionState::Positioned {
                assert(chans0[w].has_current());
                assert(chans0[w].postings.current().doc == d);
                assert(d > doc0);
            }
            assert forall|t: int|
                0 <= t < chans0.len() implies channel_remaining(#[trigger] chans1[t])
                <= channel_remaining(chans0[t]) by {
                assert(channel_advanced(chans0[t], chans1[t], d));
            }
            assert(channel_advanced(chans0[w], chans1[w], d));
            assert(channel_remaining(chans1[w]) < channel_remaining(chans0[w]));
            lemma_remaining_total_lt(chans0, chans1, w);

            let m0 = channel_models(chans0);
            assert(m0[w] == chans0[w].model());
            assert(m0[w].at_doc(d));
            assert forall|i: int|
                0 <= i < m0.len() && (#[trigger] m0[i]).has_current() implies m0[i].current().doc
                >= d by {
                assert(m0[i] == chans0[i].model());
                assert(chans0[i].has_current());
            }
            lemma_min_current_some(m0, d);
            let m1 = channel_models(chans1);
            assert forall|i: int| 0 <= i < m1.len() implies m1[i] == step_all(m0, d)[i] by {
                assert(m1[i] == chans1[i].model());
                assert(m0[i] == chans0[i].model());
                assert(step_all(m0, d)[i] == m0[i].step(d));
                assert(channel_advanced(chans0[i], chans1[i], d));
            }
            assert(m1 =~~= step_all(m0, d));
            lemma_doc_score_models_agree(*scorer, chans0, d, chans0.len() as int);
        }
        true
    }
}

} // verus!
