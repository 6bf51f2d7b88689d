//! The corpus engine: the record store and the search index behind one
//! interface. The engine keeps the two consistent: a record's tokens are
//! indexed exactly while the record is unredacted, and redaction
//! overwrites the stored text and unindexes the record in one step.

use vstd::prelude::*;
use crate::index::{
    entry_matches, entry_matches_exec, entry_score, entry_score_exec, index_indexed,
    index_removed, num_matched, EntryModel, SearchIndex,
};
use crate::rng::random_below;
use crate::store::{
    store_added, store_lookup, store_redacted, valid_records, CorpusError, Quote, QuoteModel,
    RecordStore,
};
use crate::text::{highlight, highlight_seq, tokenize, tokens_of, trim_seq, trim_string};

verus! {

/// The index entries that a full build over `s` produces: tokens of the
/// text for unredacted records, a non-matchable entry for redacted ones.
pub open spec fn built_entries(s: Seq<QuoteModel>) -> Seq<EntryModel> {
    Seq::new(
        s.len(),
        |i: int|
            if s[i].redacted {
                EntryModel { searchable: false, tokens: Seq::empty() }
            } else {
                EntryModel { searchable: true, tokens: tokens_of(s[i].text) }
            },
    )
}

/// One search result: the matched record's id, its relevance, and the
/// record's text with every matched token highlighted.
pub struct SearchHit {
    pub id: i64,
    pub score: u128,
    pub snippet: String,
}

/// A matching record id paired with its relevance.
#[derive(Clone, Copy)]
struct Cand {
    id: i64,
    score: u128,
}

/// The corpus engine. All operations go through it; it owns the record
/// store and the search index and keeps them consistent.
pub struct CorpusEngine {
    store: RecordStore,
    index: SearchIndex,
    ready: bool,
}

impl CorpusEngine {
    /// The stored records, in id order.
    pub closed spec fn records(&self) -> Seq<QuoteModel> {
        self.store@
    }

    /// The index entries, in id order.
    pub closed spec fn entries(&self) -> Seq<EntryModel> {
        self.index@
    }

    /// Whether the search index has completed its initial build.
    pub closed spec fn is_ready(&self) -> bool {
        self.ready
    }

    /// Store and index are consistent: same length, ids equal to
    /// positions, and an entry is searchable with the tokens of the
    /// record's text exactly while the record is unredacted.
    pub closed spec fn wf(&self) -> bool {
        &&& self.store.wf()
        &&& self.index@.len() == self.store@.len()
        &&& forall|i: int|
            0 <= i < self.store@.len() ==> ((#[trigger] self.index@[i]).searchable <==> !self.store@[i].redacted)
        &&& forall|i: int|
            0 <= i < self.store@.len() ==> (self.store@[i].redacted
                || (#[trigger] self.index@[i]).tokens == tokens_of(self.store@[i].text))
    }

    /// What well-formedness gives a caller: store and index have the
    /// same length, ids are exactly the 1-based positions and fit an
    /// `i64`, and an entry is searchable with the tokens of the
    /// record's text exactly while the record is unredacted.
    pub proof fn lemma_wf_shape(&self)
        requires
            self.wf(),
        ensures
            self.entries().len() == self.records().len(),
            self.records().len() <= 0x7fff_ffff_ffff_fffe,
            forall|i: int|
                0 <= i < self.records().len() ==> (#[trigger] self.records()[i]).id == i + 1,
            forall|i: int|
                0 <= i < self.records().len() ==> ((#[trigger] self.entries()[i]).searchable
                    <==> !self.records()[i].redacted),
            forall|i: int|
                0 <= i < self.records().len() ==> (self.records()[i].redacted || (
                #[trigger] self.entries()[i]).tokens == tokens_of(self.records()[i].text)),
    {
    }

    /// An empty corpus whose (empty) index is already built.
    pub fn new() -> (r: CorpusEngine)
        ensures
            r.wf(),
            r.records() == Seq::<QuoteModel>::empty(),
            r.entries() == Seq::<EntryModel>::empty(),
            r.is_ready(),
    {
        CorpusEngine { store: RecordStore::new(), index: SearchIndex::new(), ready: true }
    }

    /// A corpus over previously stored records, handed over in id order.
    /// The search index is not yet built: `rebuild_index` must run
    /// before `search` is usable. Records whose ids do not equal their
    /// 1-based positions are refused whole.
    pub fn from_records(records: Vec<Quote>) -> (r: Result<CorpusEngine, CorpusError>)
        ensures
            r is Ok <==> valid_records(records.deep_view()),
            r matches Err(e) ==> e == CorpusError::StorageError,
            r matches Ok(engine) ==> {
                &&& engine.wf()
                &&& engine.records() == records.deep_view()
                &&& engine.entries() == built_entries(records.deep_view())
                &&& !engine.is_ready()
            },
    {
        let store = match RecordStore::from_records(records) {
            Ok(s) => s,
            Err(e) => {
                return Err(e);
            },
        };
        let index = build_index(&store);
        Ok(CorpusEngine { store, index, ready: false })
    }

    /// Rebuilds the search index from a full scan of the record store
    /// and marks it built.
    pub fn rebuild_index(&mut self)
        requires
            old(self).wf(),
        ensures
            final(self).wf(),
            final(self).records() == old(self).records(),
            final(self).entries() == built_entries(old(self).records()),
            final(self).is_ready(),
    {
        let index = build_index(&self.store);
        self.index = index;
        self.ready = true;
    }

    /// How many records the corpus holds, redacted ones included.
    pub fn len(&self) -> (n: usize)
        ensures
            n == self.records().len(),
    {
        self.store.len()
    }

    /// Validates that `text` is non-empty after trimming, stores the
    /// trimmed text as a new record, and indexes it synchronously: a
    /// search that runs after this call can already find it.
    pub fn add_quote(&mut self, text: &str, submitter: &str, submitted: Option<i64>) -> (r:
        Result<i64, CorpusError>)
        requires
            old(self).wf(),
            old(self).records().len() < 0x7fff_ffff_ffff_fffe,
        ensures
            final(self).wf(),
            final(self).is_ready() == old(self).is_ready(),
            trim_seq(text@).len() == 0 ==> {
                &&& r matches Err(e) && e == CorpusError::BadQuery
                &&& final(self).records() == old(self).records()
                &&& final(self).entries() == old(self).entries()
            },
            trim_seq(text@).len() > 0 ==> {
                &&& r matches Ok(id) && id == old(self).records().len() + 1
                &&& final(self).records() == store_added(
                    old(self).records(),
                    trim_seq(text@),
                    submitter@,
                    submitted,
                )
                &&& final(self).entries() == index_indexed(
                    old(self).entries(),
                    old(self).records().len() as int + 1,
                    trim_seq(text@),
                )
            },
    {
        let trimmed = trim_string(text);
        if trimmed.as_str().unicode_len() == 0 {
            proof {
                assert(trim_seq(text@).len() == 0);
            }
            return Err(CorpusError::BadQuery);
        }
        let kept = trimmed.clone();
        let id = self.store.insert(trimmed, submitter.to_owned(), submitted);
        self.index.index_text(id, kept.as_str());
        Ok(id)
    }

    /// The record with the given id, tombstone text and all; redaction
    /// does not hide a record from id lookup.
    pub fn get_by_id(&self, id: i64) -> (r: Result<Quote, CorpusError>)
        ensures
            r is Ok <==> store_lookup(self.records(), id as int) is Some,
            r matches Ok(q) ==> store_lookup(self.records(), id as int) == Some(q@),
            r matches Err(e) ==> e == CorpusError::NotFound,
    {
        match self.store.get(id) {
            Some(q) => Ok(q),
            None => Err(CorpusError::NotFound),
        }
    }

    /// One record drawn at random from the whole corpus, redacted
    /// records included; `EmptyCorpus` exactly when there are none.
    pub fn get_random(&self) -> (r: Result<Quote, CorpusError>)
        ensures
            r is Ok <==> self.records().len() > 0,
            r matches Ok(q) ==> exists|i: int|
                0 <= i < self.records().len() && q@ == self.records()[i],
            r matches Err(e) ==> e == CorpusError::EmptyCorpus,
    {
        match self.store.random() {
            Some(q) => {
                proof {
                    let i = choose|i: int|
                        0 <= i < self.store@.len() && q@ == self.store@[i];
                    assert(0 <= i < self.records().len() && q@ == self.records()[i]);
                }
                Ok(q)
            },
            None => Err(CorpusError::EmptyCorpus),
        }
    }

    /// Overwrites the record's text with the tombstone, marks it
    /// redacted, and removes it from search, in one step; the record
    /// stays retrievable by id and by random draw.
    pub fn expunge(&mut self, id: i64, tombstone: &str) -> (r: Result<Quote, CorpusError>)
        requires
            old(self).wf(),
        ensures
            final(self).wf(),
            final(self).is_ready() == old(self).is_ready(),
            final(self).records() == store_redacted(old(self).records(), id as int, tombstone@),
            final(self).entries() == index_removed(old(self).entries(), id as int),
            r is Ok <==> 1 <= id <= old(self).records().len(),
            r matches Ok(q) ==> store_lookup(final(self).records(), id as int) == Some(q@),
            r matches Err(e) ==> e == CorpusError::NotFound,
    {
        match self.store.redact(id, tombstone) {
            Some(q) => {
                self.index.remove_from_search(id);
                Ok(q)
            },
            None => {
                proof {
                    assert(final(self).entries() =~= index_removed(
                        old(self).entries(),
                        id as int,
                    ));
                }
                Err(CorpusError::NotFound)
            },
        }
    }
}

/// Whether `c` records a genuine match of `q` against `es`.
spec fn cand_ok(es: Seq<EntryModel>, q: Seq<Seq<char>>, c: Cand) -> bool {
    &&& 1 <= c.id <= es.len()
    &&& entry_matches(es[c.id - 1], q)
    &&& c.score == entry_score(es[c.id - 1], q)
}

/// One search result is sound: its id matches, its score is the entry's
/// relevance, and its snippet is the record's text with the query's
/// tokens highlighted.
pub open spec fn hit_ok(
    rs: Seq<QuoteModel>,
    es: Seq<EntryModel>,
    q: Seq<Seq<char>>,
    h: SearchHit,
) -> bool {
    &&& 1 <= h.id <= es.len()
    &&& h.id <= rs.len()
    &&& entry_matches(es[h.id - 1], q)
    &&& h.score == entry_score(es[h.id - 1], q)
    &&& h.snippet@ == highlight_seq(rs[h.id - 1].text, q)
}

/// The whole result list is sound and complete: every hit is a genuine
/// match, hits are ranked by relevance and distinct, as many matches as
/// the limit allows are returned, and a match that was left out lost to
/// a full list whose weakest hit scores at least as high.
pub open spec fn search_results_ok(
    rs: Seq<QuoteModel>,
    es: Seq<EntryModel>,
    q: Seq<Seq<char>>,
    hits: Seq<SearchHit>,
    limit: int,
) -> bool {
    &&& hits.len() == (if limit <= num_matched(es, q) {
        limit as int
    } else {
        num_matched(es, q) as int
    })
    &&& forall|k: int| 0 <= k < hits.len() ==> hit_ok(rs, es, q, #[trigger] hits[k])
    &&& forall|k1: int, k2: int|
        0 <= k1 < k2 < hits.len() ==> hits[k1].score >= hits[k2].score
    &&& forall|k1: int, k2: int| 0 <= k1 < k2 < hits.len() ==> hits[k1].id != hits[k2].id
    &&& forall|i: int|
        0 <= i < es.len() && #[trigger] entry_matches(es[i], q) ==> (exists|k: int|
            0 <= k < hits.len() && (#[trigger] hits[k]).id == i + 1) || (hits.len() == limit
            && entry_score(es[i], q) <= hits[hits.len() - 1].score)
}

/// `pool` names a top-`limit` candidate pool over the index: as many
/// matched positions as the limit allows, pairwise distinct, ranked by
/// relevance, and no matched position outside the pool scoring higher
/// than its weakest member.
pub open spec fn top_pool(
    es: Seq<EntryModel>,
    q: Seq<Seq<char>>,
    pool: Seq<int>,
    limit: int,
) -> bool {
    &&& pool.len() == (if limit <= num_matched(es, q) {
        limit as int
    } else {
        num_matched(es, q) as int
    })
    &&& forall|m: int|
        0 <= m < pool.len() ==> 0 <= #[trigger] pool[m] < es.len() && entry_matches(
            es[pool[m]],
            q,
        )
    &&& forall|m1: int, m2: int| 0 <= m1 < m2 < pool.len() ==> pool[m1] != pool[m2]
    &&& forall|m1: int, m2: int|
        0 <= m1 < m2 < pool.len() ==> entry_score(es[pool[m1]], q) >= entry_score(
            es[pool[m2]],
            q,
        )
    &&& forall|i: int|
        0 <= i < es.len() && #[trigger] entry_matches(es[i], q) && !pool.contains(i)
            ==> pool.len() == limit && entry_score(es[i], q) <= entry_score(
            es[pool[pool.len() - 1]],
            q,
        )
}

impl CorpusEngine {
    /// Every matching entry, in id order, with its relevance.
    fn collect_matches(&self, qtoks: &Vec<String>) -> (cands: Vec<Cand>)
        requires
            self.wf(),
        ensures
            ({
                let es = self.entries();
                let q = qtoks.deep_view();
                &&& cands@.len() == num_matched(es, q)
                &&& forall|k: int|
                    0 <= k < cands@.len() ==> cand_ok(es, q, #[trigger] cands@[k])
                &&& forall|k1: int, k2: int|
                    0 <= k1 < k2 < cands@.len() ==> cands@[k1].id < cands@[k2].id
                &&& forall|i: int|
                    0 <= i < es.len() && #[trigger] entry_matches(es[i], q) ==> exists|k: int|
                        0 <= k < cands@.len() && (#[trigger] cands@[k]).id == i + 1
            }),
    {
        let ghost es = self.entries();
        let ghost q = qtoks.deep_view();
        let n = self.index.len();
        let mut cands: Vec<Cand> = Vec::new();
        let mut i: usize = 0;
        proof {
            assert(es.take(0) =~= Seq::<EntryModel>::empty());
        }
        while i < n
            invariant
                i <= n,
                n == es.len(),
                es == self.entries(),
                q == qtoks.deep_view(),
                self.wf(),
                cands@.len() == num_matched(es.take(i as int), q),
                forall|k: int|
                    0 <= k < cands@.len() ==> cand_ok(es, q, #[trigger] cands@[k]),
                forall|k: int| 0 <= k < cands@.len() ==> (#[trigger] cands@[k]).id <= i,
                forall|k1: int, k2: int|
                    0 <= k1 < k2 < cands@.len() ==> cands@[k1].id < cands@[k2].id,
                forall|j: int|
                    0 <= j < i && #[trigger] entry_matches(es[j], q) ==> exists|k: int|
                        0 <= k < cands@.len() && (#[trigger] cands@[k]).id == j + 1,
            decreases n - i,
        {
            let e = self.index.entry_at(i);
            proof {
                assert(es.take(i + 1).drop_last() =~= es.take(i as int));
                assert(es.take(i + 1).last() == es[i as int]);
            }
            if entry_matches_exec(e, qtoks) {
                let sc = entry_score_exec(e, qtoks);
                let id: i64 = (i as i64) + 1;
                let ghost pre = cands@;
                cands.push(Cand { id, score: sc });
                proof {
                    assert(cands@ =~= pre.push(Cand { id, score: sc }));
                    assert(cand_ok(es, q, cands@[cands@.len() - 1]));
                    assert forall|j: int|
                        0 <= j < i + 1 && #[trigger] entry_matches(es[j], q) implies exists|
                        k: int,
                    |
                        0 <= k < cands@.len() && (#[trigger] cands@[k]).id == j + 1 by {
                        if j == i {
                            assert(cands@[cands@.len() - 1].id == j + 1);
                        } else {
                            let k = choose|k: int|
                                0 <= k < pre.len() && (#[trigger] pre[k]).id == j + 1;
                            assert(cands@[k].id == j + 1);
                        }
                    }
                }
            }
            i += 1;
        }
        proof {
            assert(es.take(n as int) =~= es);
        }
        cands
    }
}

/// The top `limit` candidates by score, highest first; candidates left
/// out score no higher than the weakest one kept.
#[verifier::rlimit(50)]
fn select_top(cands: Vec<Cand>, limit: usize) -> (out: Vec<Cand>)
    requires
        limit >= 1,
        forall|k1: int, k2: int|
            0 <= k1 < k2 < cands@.len() ==> cands@[k1].id != cands@[k2].id,
    ensures
        out@.len() == (if limit <= cands@.len() {
            limit as int
        } else {
            cands@.len() as int
        }),
        forall|k: int| 0 <= k < out@.len() ==> cands@.contains(#[trigger] out@[k]),
        forall|k1: int, k2: int|
            0 <= k1 < k2 < out@.len() ==> out@[k1].score >= out@[k2].score,
        forall|k1: int, k2: int| 0 <= k1 < k2 < out@.len() ==> out@[k1].id != out@[k2].id,
        forall|c: Cand|
            #[trigger] cands@.contains(c) ==> (exists|k: int|
                0 <= k < out@.len() && (#[trigger] out@[k]).id == c.id) || (out@.len()
                == limit && c.score <= out@[out@.len() - 1].score),
{
    let ghost cs = cands@;
    let mut rem = cands;
    let mut out: Vec<Cand> = Vec::new();
    while out.len() < limit && rem.len() > 0
        invariant
            out@.len() + rem@.len() == cs.len(),
            out@.len() <= limit,
            forall|m: int| 0 <= m < rem@.len() ==> cs.contains(#[trigger] rem@[m]),
            forall|k: int| 0 <= k < out@.len() ==> cs.contains(#[trigger] out@[k]),
            forall|k1: int, k2: int|
                0 <= k1 < k2 < out@.len() ==> out@[k1].id != out@[k2].id,
            forall|m1: int, m2: int|
                0 <= m1 < m2 < rem@.len() ==> rem@[m1].id != rem@[m2].id,
            forall|k: int, m: int|
                0 <= k < out@.len() && 0 <= m < rem@.len() ==> out@[k].id != rem@[m].id,
            forall|c: Cand|
                #[trigger] cs.contains(c) ==> (exists|k: int|
                    0 <= k < out@.len() && (#[trigger] out@[k]).id == c.id) || (exists|m: int|
                    0 <= m < rem@.len() && (#[trigger] rem@[m]).id == c.id),
            forall|k1: int, k2: int|
                0 <= k1 < k2 < out@.len() ==> out@[k1].score >= out@[k2].score,
            forall|k: int, m: int|
                0 <= k < out@.len() && 0 <= m < rem@.len() ==> out@[k].score >= rem@[m].score,
        decreases rem@.len(),
    {
        let mut best: usize = 0;
        let mut j: usize = 1;
        while j < rem.len()
            invariant
                best < rem@.len(),
                j <= rem@.len(),
                forall|m: int| 0 <= m < j ==> rem@[m].score <= rem@[best as int].score,
            decreases rem@.len() - j,
        {
            if rem[j].score > rem[best].score {
                best = j;
            }
            j += 1;
        }
        let ghost old_rem = rem@;
        let ghost old_out = out@;
        let c = rem.remove(best);
        out.push(c);
        proof {
            old_rem.remove_ensures(best as int);
            assert(out@ =~= old_out.push(c));
            assert forall|c2: Cand| #[trigger] cs.contains(c2) implies (exists|k: int|
                0 <= k < out@.len() && (#[trigger] out@[k]).id == c2.id) || (exists|m: int|
                0 <= m < rem@.len() && (#[trigger] rem@[m]).id == c2.id) by {
                if exists|k: int| 0 <= k < old_out.len() && (#[trigger] old_out[k]).id == c2.id {
                    let k = choose|k: int|
                        0 <= k < old_out.len() && (#[trigger] old_out[k]).id == c2.id;
                    assert(out@[k].id == c2.id);
                } else {
                    let m = choose|m: int|
                        0 <= m < old_rem.len() && (#[trigger] old_rem[m]).id == c2.id;
                    if m == best {
                        assert(out@[out@.len() - 1].id == c2.id);
                    } else if m < best {
                        assert(rem@[m].id == c2.id);
                    } else {
                        assert(rem@[m - 1].id == c2.id);
                    }
                }
            }
        }
    }
    proof {
        assert forall|c: Cand| #[trigger] cs.contains(c) implies (exists|k: int|
            0 <= k < out@.len() && (#[trigger] out@[k]).id == c.id) || (out@.len() == limit
            && c.score <= out@[out@.len() - 1].score) by {
            if !(exists|k: int| 0 <= k < out@.len() && (#[trigger] out@[k]).id == c.id) {
                let m = choose|m: int|
                    0 <= m < rem@.len() && (#[trigger] rem@[m]).id == c.id;
                let k1 = choose|k1: int| 0 <= k1 < cs.len() && cs[k1] == c;
                let k2 = choose|k2: int| 0 <= k2 < cs.len() && cs[k2] == rem@[m];
                assert(cs.contains(rem@[m]));
                assert(cs[k1] == c && cs[k2] == rem@[m]);
                assert(k1 == k2);
                assert(c == rem@[m]);
                assert(out@[out@.len() - 1].score >= rem@[m].score);
            }
        }
    }
    out
}

impl CorpusEngine {
    /// Relevance-ranked full-text search: up to `limit` matching
    /// records, highest relevance first, each with its text highlighted.
    /// The query must be non-empty after trimming, and the index must
    /// have completed its initial build.
    pub fn search(&self, query: &str, limit: usize) -> (r: Result<Vec<SearchHit>, CorpusError>)
        requires
            self.wf(),
            limit >= 1,
        ensures
            trim_seq(query@).len() == 0 ==> (r matches Err(e) && e == CorpusError::BadQuery),
            trim_seq(query@).len() > 0 && !self.is_ready() ==> (r matches Err(e) && e
                == CorpusError::IndexUnavailable),
            trim_seq(query@).len() > 0 && self.is_ready() ==> (r matches Ok(hits)
                && search_results_ok(
                self.records(),
                self.entries(),
                tokens_of(query@),
                hits@,
                limit as int,
            )),
    {
        let trimmed = trim_string(query);
        if trimmed.as_str().unicode_len() == 0 {
            return Err(CorpusError::BadQuery);
        }
        if !self.ready {
            return Err(CorpusError::IndexUnavailable);
        }
        let ghost rs = self.records();
        let ghost es = self.entries();
        let qtoks = tokenize(query);
        let ghost q = qtoks.deep_view();
        let cands = self.collect_matches(&qtoks);
        let ghost cs = cands@;
        let top = select_top(cands, limit);
        let n = self.store.len();
        let mut hits: Vec<SearchHit> = Vec::new();
        let mut k: usize = 0;
        while k < top.len()
            invariant
                k <= top@.len(),
                n == rs.len(),
                rs == self.records(),
                es == self.entries(),
                q == qtoks.deep_view(),
                self.wf(),
                hits@.len() == k,
                forall|k2: int|
                    0 <= k2 < top@.len() ==> cand_ok(es, q, #[trigger] top@[k2]),
                forall|k2: int|
                    0 <= k2 < k ==> (#[trigger] hits@[k2]).id == top@[k2].id
                        && hits@[k2].score == top@[k2].score && hit_ok(rs, es, q, hits@[k2]),
            decreases top@.len() - k,
        {
            let c = top[k];
            proof {
                assert(cand_ok(es, q, c));
            }
            let idx: usize = (c.id - 1) as usize;
            let rec = self.store.get_at(idx);
            let snippet = highlight(rec.quote.as_str(), &qtoks);
            hits.push(SearchHit { id: c.id, score: c.score, snippet });
            k += 1;
        }
        proof {
            assert forall|i: int|
                0 <= i < es.len() && #[trigger] entry_matches(es[i], q) implies (exists|k2: int|
                0 <= k2 < hits@.len() && (#[trigger] hits@[k2]).id == i + 1) || (hits@.len()
                == limit && entry_score(es[i], q) <= hits@[hits@.len() - 1].score) by {
                let kc = choose|kc: int|
                    0 <= kc < cs.len() && (#[trigger] cs[kc]).id == i + 1;
                assert(cs.contains(cs[kc]));
                let c = cs[kc];
                if exists|k2: int| 0 <= k2 < top@.len() && (#[trigger] top@[k2]).id == c.id {
                    let k2 = choose|k2: int|
                        0 <= k2 < top@.len() && (#[trigger] top@[k2]).id == c.id;
                    assert(hits@[k2].id == i + 1);
                } else {
                    assert(top@.len() == limit && c.score <= top@[top@.len() - 1].score);
                    assert(hits@[hits@.len() - 1].score == top@[top@.len() - 1].score);
                    assert(cand_ok(es, q, c));
                }
            }
        }
        Ok(hits)
    }

    /// One quote drawn from the best matches for the query: the search
    /// runs with a candidate limit of 5 and one candidate of that pool
    /// is picked at random, so repeated identical queries can vary. The
    /// returned record carries the highlighted text.
    pub fn get_by_query(&self, query: &str) -> (r: Result<Quote, CorpusError>)
        requires
            self.wf(),
        ensures
            trim_seq(query@).len() == 0 ==> (r matches Err(e) && e == CorpusError::BadQuery),
            trim_seq(query@).len() > 0 && !self.is_ready() ==> (r matches Err(e) && e
                == CorpusError::IndexUnavailable),
            trim_seq(query@).len() > 0 && self.is_ready() ==> {
                let q = tokens_of(query@);
                let es = self.entries();
                let rs = self.records();
                &&& ((r matches Err(e) && e == CorpusError::NoMatch) <==> num_matched(es, q)
                    == 0)
                &&& (num_matched(es, q) > 0 ==> r is Ok)
                &&& (r matches Ok(qt) ==> (exists|i: int|
                    {
                        &&& 0 <= i < es.len()
                        &&& #[trigger] entry_matches(es[i], q)
                        &&& qt.id == i + 1
                        &&& qt@.text == highlight_seq(rs[i].text, q)
                        &&& qt@.submitter == rs[i].submitter
                        &&& qt@.submitted == rs[i].submitted
                        &&& qt@.redacted == rs[i].redacted
                    }))
                &&& (r matches Ok(qt) ==> (exists|pool: Seq<int>|
                    #[trigger] top_pool(es, q, pool, 5) && pool.contains(qt.id - 1)))
            },
    {
        let limit: usize = 5;
        match self.search(query, limit) {
            Err(e) => Err(e),
            Ok(hits) => {
                if hits.len() == 0 {
                    Err(CorpusError::NoMatch)
                } else {
                    let ghost rs = self.records();
                    let ghost es = self.entries();
                    let ghost q = tokens_of(query@);
                    let pick = random_below(hits.len());
                    let n = self.store.len();
                    proof {
                        assert(hit_ok(rs, es, q, hits@[pick as int]));
                        assert(hits@[pick as int].id <= n);
                    }
                    let h = &hits[pick];
                    let idx: usize = (h.id - 1) as usize;
                    let rec = self.store.get_at(idx);
                    let out = Quote {
                        id: h.id,
                        quote: h.snippet.clone(),
                        submitter: rec.submitter,
                        submitted: rec.submitted,
                        redacted: rec.redacted,
                    };
                    proof {
                        let i = h.id - 1;
                        assert(0 <= i < es.len() && entry_matches(es[i], q) && out.id == i + 1
                            && out@.text == highlight_seq(rs[i].text, q) && out@.submitter
                            == rs[i].submitter && out@.submitted == rs[i].submitted
                            && out@.redacted == rs[i].redacted);
                        let pool = Seq::new(hits@.len(), |k: int| hits@[k].id - 1);
                        assert forall|j: int|
                            0 <= j < es.len() && #[trigger] entry_matches(es[j], q)
                                && !pool.contains(j) implies pool.len() == 5 && entry_score(
                            es[j],
                            q,
                        ) <= entry_score(es[pool[pool.len() - 1]], q) by {
                            if exists|k: int|
                                0 <= k < hits@.len() && (#[trigger] hits@[k]).id == j + 1 {
                                let k = choose|k: int|
                                    0 <= k < hits@.len() && (#[trigger] hits@[k]).id == j
                                        + 1;
                                assert(pool[k] == j);
                            } else {
                                assert(hits@.len() == 5 && entry_score(es[j], q)
                                    <= hits@[hits@.len() - 1].score);
                                assert(hit_ok(rs, es, q, hits@[hits@.len() - 1]));
                                assert(pool[pool.len() - 1] == hits@[hits@.len() - 1].id
                                    - 1);
                            }
                        }
                        assert forall|m1: int, m2: int|
                            0 <= m1 < m2 < pool.len() implies entry_score(es[pool[m1]], q)
                            >= entry_score(es[pool[m2]], q) by {
                            assert(hit_ok(rs, es, q, hits@[m1]));
                            assert(hit_ok(rs, es, q, hits@[m2]));
                            assert(hits@[m1].score >= hits@[m2].score);
                        }
                        assert forall|m: int| 0 <= m < pool.len() implies 0 <= #[trigger] pool[m]
                            < es.len() && entry_matches(es[pool[m]], q) by {
                            assert(hit_ok(rs, es, q, hits@[m]));
                        }
                        assert(top_pool(es, q, pool, 5));
                        assert(pool[pick as int] == out.id - 1);
                        assert(pool.contains(out.id - 1));
                    }
                    Ok(out)
                }
            },
        }
    }
}

/// A search index freshly built from a full scan of `store`.
fn build_index(store: &RecordStore) -> (ix: SearchIndex)
    requires
        store.wf(),
    ensures
        ix@ == built_entries(store@),
{
    let records = store.scan();
    let n = records.len();
    let mut ix = SearchIndex::new();
    let mut i: usize = 0;
    while i < n
        invariant
            i <= n,
            n == store@.len(),
            records.deep_view() == store@,
            store.wf(),
            ix@.len() == i,
            ix@ == built_entries(store@).take(i as int),
        decreases n - i,
    {
        let ghost pre = ix@;
        let rec = &records[i];
        proof {
            assert(rec@ == store@[i as int]);
            assert(rec.id == i + 1);
        }
        ix.index_text(rec.id, rec.quote.as_str());
        if rec.redacted {
            ix.remove_from_search(rec.id);
            proof {
                assert(ix@ =~= pre.push(
                    EntryModel { searchable: false, tokens: Seq::empty() },
                ));
            }
        }
        proof {
            assert(built_entries(store@).take(i + 1) =~= built_entries(store@).take(
                i as int,
            ).push(built_entries(store@)[i as int]));
            assert(ix@ =~= built_entries(store@).take(i + 1));
        }
        i += 1;
    }
    proof {
        assert(built_entries(store@).take(n as int) =~= built_entries(store@));
    }
    ix
}

} // verus!
