//! The search index: one entry per record id, holding the lowercased
//! word tokens of the record's text while the record is searchable. A
//! query matches an entry when every query token occurs among the
//! entry's tokens; relevance is the total number of occurrences of the
//! query's tokens in the entry.

use vstd::prelude::*;
use crate::text::{contains_token, string_eq, tokenize, tokens_of};

verus! {

/// One per-record entry of the search index.
pub struct IndexEntry {
    pub searchable: bool,
    pub tokens: Vec<String>,
}

/// Mathematical model of an index entry.
pub ghost struct EntryModel {
    pub searchable: bool,
    pub tokens: Seq<Seq<char>>,
}

impl View for IndexEntry {
    type V = EntryModel;

    open spec fn view(&self) -> EntryModel {
        EntryModel { searchable: self.searchable, tokens: self.tokens.deep_view() }
    }
}

impl DeepView for IndexEntry {
    type V = EntryModel;

    open spec fn deep_view(&self) -> EntryModel {
        self.view()
    }
}

/// A non-empty query matches a searchable entry when every query token
/// occurs among the entry's tokens.
pub open spec fn entry_matches(e: EntryModel, q: Seq<Seq<char>>) -> bool {
    e.searchable && q.len() > 0 && forall|j: int|
        0 <= j < q.len() ==> e.tokens.contains(#[trigger] q[j])
}

/// How often token `t` occurs in `toks`.
pub open spec fn count_occ(toks: Seq<Seq<char>>, t: Seq<char>) -> nat
    decreases toks.len(),
{
    if toks.len() == 0 {
        0
    } else {
        (if toks[0] == t {
            1nat
        } else {
            0nat
        }) + count_occ(toks.skip(1), t)
    }
}

/// Relevance of an entry for a query: total occurrences of the query's
/// tokens among the entry's tokens.
pub open spec fn entry_score(e: EntryModel, q: Seq<Seq<char>>) -> nat
    decreases q.len(),
{
    if q.len() == 0 {
        0
    } else {
        count_occ(e.tokens, q[0]) + entry_score(e, q.skip(1))
    }
}

pub proof fn lemma_count_occ_le(toks: Seq<Seq<char>>, t: Seq<char>)
    ensures
        count_occ(toks, t) <= toks.len(),
    decreases toks.len(),
{
    if toks.len() > 0 {
        lemma_count_occ_le(toks.skip(1), t);
    }
}

/// How often the string `t` occurs in `toks`.
pub fn count_occ_exec(toks: &Vec<String>, t: &String) -> (r: usize)
    ensures
        r == count_occ(toks.deep_view(), t@),
{
    let ghost td = toks.deep_view();
    let n = toks.len();
    let mut acc: usize = 0;
    let mut k: usize = 0;
    proof {
        assert(td.skip(0) =~= td);
        lemma_count_occ_le(td, t@);
    }
    while k < n
        invariant
            k <= n,
            n == td.len(),
            td == toks.deep_view(),
            acc <= k,
            count_occ(td, t@) == acc + count_occ(td.skip(k as int), t@),
        decreases n - k,
    {
        proof {
            assert(td.skip(k as int).skip(1) =~= td.skip(k + 1));
            assert(td.skip(k as int)[0] == td[k as int]);
        }
        if string_eq(&toks[k], t) {
            acc += 1;
        }
        k += 1;
    }
    proof {
        assert(td.skip(n as int) =~= Seq::<Seq<char>>::empty());
    }
    acc
}

/// Whether the query tokens `q` match the entry.
pub fn entry_matches_exec(e: &IndexEntry, q: &Vec<String>) -> (r: bool)
    ensures
        r == entry_matches(e@, q.deep_view()),
{
    if !e.searchable {
        return false;
    }
    let n = q.len();
    if n == 0 {
        return false;
    }
    let mut k: usize = 0;
    while k < n
        invariant
            k <= n,
            n == q.deep_view().len(),
            forall|j: int| 0 <= j < k ==> e@.tokens.contains(#[trigger] q.deep_view()[j]),
        decreases n - k,
    {
        if !contains_token(&e.tokens, &q[k]) {
            proof {
                assert(!e@.tokens.contains(q.deep_view()[k as int]));
            }
            return false;
        }
        k += 1;
    }
    true
}

/// The relevance of the entry for the query tokens `q`.
pub fn entry_score_exec(e: &IndexEntry, q: &Vec<String>) -> (r: u128)
    ensures
        r == entry_score(e@, q.deep_view()),
{
    let ghost qd = q.deep_view();
    let n = q.len();
    let tlen = e.tokens.len();
    let mut acc: u128 = 0;
    let mut k: usize = 0;
    proof {
        assert(qd.skip(0) =~= qd);
    }
    while k < n
        invariant
            k <= n,
            n == qd.len(),
            qd == q.deep_view(),
            tlen == e@.tokens.len(),
            acc <= (k as nat) * (tlen as nat),
            entry_score(e@, qd) == acc + entry_score(e@, qd.skip(k as int)),
        decreases n - k,
    {
        proof {
            assert(qd.skip(k as int).skip(1) =~= qd.skip(k + 1));
            assert(qd.skip(k as int)[0] == qd[k as int]);
            lemma_count_occ_le(e@.tokens, qd[k as int]);
            assert((k as nat) * (tlen as nat) + (tlen as nat) == ((k + 1) as nat) * (
            tlen as nat)) by (nonlinear_arith);
            assert((k as nat) * (tlen as nat) <= (0xffff_ffff_ffff_ffffnat) * (
            0xffff_ffff_ffff_ffffnat)) by (nonlinear_arith)
                requires
                    k <= 0xffff_ffff_ffff_ffff,
                    tlen <= 0xffff_ffff_ffff_ffff,
            ;
        }
        let c = count_occ_exec(&e.tokens, &q[k]);
        acc += c as u128;
        k += 1;
    }
    proof {
        assert(qd.skip(n as int) =~= Seq::<Seq<char>>::empty());
    }
    acc
}

/// How many entries of `es` the query tokens `q` match.
pub open spec fn num_matched(es: Seq<EntryModel>, q: Seq<Seq<char>>) -> nat
    decreases es.len(),
{
    if es.len() == 0 {
        0
    } else {
        num_matched(es.drop_last(), q) + (if entry_matches(es.last(), q) {
            1nat
        } else {
            0nat
        })
    }
}

/// The index after (re)indexing `id` with the tokens of `text`: a fresh
/// entry appended when `id` is the next unused id, the existing entry
/// replaced otherwise.
pub open spec fn index_indexed(s: Seq<EntryModel>, id: int, text: Seq<char>) -> Seq<
    EntryModel,
> {
    if id == s.len() + 1 {
        s.push(EntryModel { searchable: true, tokens: tokens_of(text) })
    } else if 1 <= id <= s.len() {
        s.update(id - 1, EntryModel { searchable: true, tokens: tokens_of(text) })
    } else {
        s
    }
}

/// The index after marking `id` non-matchable (unchanged when there is
/// no such entry).
pub open spec fn index_removed(s: Seq<EntryModel>, id: int) -> Seq<EntryModel> {
    if 1 <= id <= s.len() {
        s.update(id - 1, EntryModel { searchable: false, tokens: Seq::empty() })
    } else {
        s
    }
}

/// A text index keyed by record id over each record's searchable text,
/// modelled as the sequence of entries in id order.
pub struct SearchIndex {
    entries: Vec<IndexEntry>,
}

impl View for SearchIndex {
    type V = Seq<EntryModel>;

    closed spec fn view(&self) -> Seq<EntryModel> {
        self.entries.deep_view()
    }
}

impl SearchIndex {
    /// An empty index.
    pub fn new() -> (r: SearchIndex)
        ensures
            r@ == Seq::<EntryModel>::empty(),
    {
        let r = SearchIndex { entries: Vec::new() };
        proof {
            assert(r@ =~= Seq::<EntryModel>::empty());
        }
        r
    }

    /// How many ids are indexed.
    pub fn len(&self) -> (n: usize)
        ensures
            n == self@.len(),
    {
        self.entries.len()
    }

    /// A reference to the entry at position `idx` (id `idx + 1`).
    pub fn entry_at(&self, idx: usize) -> (e: &IndexEntry)
        requires
            idx < self@.len(),
        ensures
            e@ == self@[idx as int],
    {
        &self.entries[idx]
    }

    /// (Re)indexes the searchable text for `id`. Indexing the same id
    /// twice with the same text leaves the index as after the first
    /// call.
    pub fn index_text(&mut self, id: i64, text: &str)
        requires
            1 <= id <= old(self)@.len() + 1,
            old(self)@.len() + 1 <= 0x7fff_ffff_ffff_ffff,
        ensures
            final(self)@ == index_indexed(old(self)@, id as int, text@),
    {
        let toks = tokenize(text);
        let entry = IndexEntry { searchable: true, tokens: toks };
        let ghost em = entry@;
        let n = self.entries.len();
        if (id as u64) == (n as u64) + 1 {
            self.entries.push(entry);
            proof {
                assert(self@ =~= old(self)@.push(em));
            }
        } else {
            let idx: usize = (id - 1) as usize;
            self.entries[idx] = entry;
            proof {
                assert(self@ =~= old(self)@.update(id - 1, em));
            }
        }
    }

    /// Marks `id` non-matchable by future queries and drops its tokens.
    pub fn remove_from_search(&mut self, id: i64)
        ensures
            final(self)@ == index_removed(old(self)@, id as int),
    {
        let n = self.entries.len();
        if id < 1 || (id - 1) as u64 >= n as u64 {
            proof {
                assert(final(self)@ =~= index_removed(old(self)@, id as int));
            }
        } else {
            let idx: usize = (id - 1) as usize;
            let entry = IndexEntry { searchable: false, tokens: Vec::new() };
            let ghost em = entry@;
            self.entries[idx] = entry;
            proof {
                assert(em.tokens =~= Seq::<Seq<char>>::empty());
                assert(self@ =~= index_removed(old(self)@, id as int));
            }
        }
    }
}

} // verus!
