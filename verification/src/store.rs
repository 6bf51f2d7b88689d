//! The record store: the authoritative, append-only collection of quote
//! records. Ids are assigned monotonically starting at 1 and are never
//! reused; redaction overwrites a record's text in place and never
//! removes the record.

use vstd::prelude::*;
use crate::rng::random_below;

verus! {

/// One stored quote record.
#[derive(Debug)]
pub struct Quote {
    pub id: i64,
    pub quote: String,
    pub submitter: String,
    pub submitted: Option<i64>,
    pub redacted: bool,
}

/// Mathematical model of a record.
pub ghost struct QuoteModel {
    pub id: int,
    pub text: Seq<char>,
    pub submitter: Seq<char>,
    pub submitted: Option<i64>,
    pub redacted: bool,
}

impl View for Quote {
    type V = QuoteModel;

    open spec fn view(&self) -> QuoteModel {
        QuoteModel {
            id: self.id as int,
            text: self.quote@,
            submitter: self.submitter@,
            submitted: self.submitted,
            redacted: self.redacted,
        }
    }
}

impl DeepView for Quote {
    type V = QuoteModel;

    open spec fn deep_view(&self) -> QuoteModel {
        self.view()
    }
}

impl Quote {
    /// A field-by-field copy.
    pub fn duplicate(&self) -> (r: Quote)
        ensures
            r@ == self@,
    {
        Quote {
            id: self.id,
            quote: self.quote.clone(),
            submitter: self.submitter.clone(),
            submitted: self.submitted,
            redacted: self.redacted,
        }
    }
}

/// Every way a corpus operation can fail.
#[derive(Clone, Copy, Debug, PartialEq, Eq, Structural)]
pub enum CorpusError {
    /// No record carries the requested id.
    NotFound,
    /// A random draw was asked of a corpus with no records.
    EmptyCorpus,
    /// The query (or new quote text) was empty after trimming.
    BadQuery,
    /// A well-formed query matched no record.
    NoMatch,
    /// The search index has not completed its initial build.
    IndexUnavailable,
    /// The records handed to the store broke its invariants.
    StorageError,
}

/// The record at `id`, if any: ids are the 1-based positions.
pub open spec fn store_lookup(s: Seq<QuoteModel>, id: int) -> Option<QuoteModel> {
    if 1 <= id <= s.len() {
        Some(s[id - 1])
    } else {
        None
    }
}

/// The store after appending a fresh record.
pub open spec fn store_added(
    s: Seq<QuoteModel>,
    text: Seq<char>,
    submitter: Seq<char>,
    submitted: Option<i64>,
) -> Seq<QuoteModel> {
    s.push(
        QuoteModel {
            id: s.len() as int + 1,
            text: text,
            submitter: submitter,
            submitted: submitted,
            redacted: false,
        },
    )
}

/// The store after redacting the record at `id` (unchanged when there is
/// no such record).
pub open spec fn store_redacted(s: Seq<QuoteModel>, id: int, tomb: Seq<char>) -> Seq<
    QuoteModel,
> {
    if 1 <= id <= s.len() {
        s.update(
            id - 1,
            QuoteModel {
                id: id,
                text: tomb,
                submitter: s[id - 1].submitter,
                submitted: s[id - 1].submitted,
                redacted: true,
            },
        )
    } else {
        s
    }
}

/// Records are valid store contents when their ids are exactly the
/// 1-based positions and every id fits an `i64`.
pub open spec fn valid_records(s: Seq<QuoteModel>) -> bool {
    &&& s.len() <= 0x7fff_ffff_ffff_fffe
    &&& forall|i: int| 0 <= i < s.len() ==> (#[trigger] s[i]).id == i + 1
}

/// Durable storage of quote records, modelled as the sequence of records
/// in insertion order.
pub struct RecordStore {
    records: Vec<Quote>,
}

impl View for RecordStore {
    type V = Seq<QuoteModel>;

    closed spec fn view(&self) -> Seq<QuoteModel> {
        self.records.deep_view()
    }
}

impl RecordStore {
    /// Ids equal 1-based positions, and the store is small enough for
    /// every id to fit in an `i64`.
    pub open spec fn wf(&self) -> bool {
        &&& forall|i: int| 0 <= i < self@.len() ==> (#[trigger] self@[i]).id == i + 1
        &&& self@.len() <= 0x7fff_ffff_ffff_fffe
    }

    /// An empty store.
    pub fn new() -> (r: RecordStore)
        ensures
            r@ == Seq::<QuoteModel>::empty(),
            r.wf(),
    {
        let r = RecordStore { records: Vec::new() };
        proof {
            assert(r@ =~= Seq::<QuoteModel>::empty());
        }
        r
    }

    /// A store over previously persisted records, handed over in id
    /// order; refused whole when ids do not equal 1-based positions.
    pub fn from_records(records: Vec<Quote>) -> (r: Result<RecordStore, CorpusError>)
        ensures
            r is Ok <==> valid_records(records.deep_view()),
            r matches Ok(s) ==> s@ == records.deep_view() && s.wf(),
            r matches Err(e) ==> e == CorpusError::StorageError,
    {
        let n = records.len();
        if (n as u64) > 0x7fff_ffff_ffff_fffeu64 {
            return Err(CorpusError::StorageError);
        }
        let mut i: usize = 0;
        while i < n
            invariant
                i <= n,
                n == records.deep_view().len(),
                n <= 0x7fff_ffff_ffff_fffe,
                forall|m: int|
                    0 <= m < i ==> (#[trigger] records.deep_view()[m]).id == m + 1,
            decreases n - i,
        {
            let expected = (i as i64) + 1;
            if records[i].id != expected {
                proof {
                    assert(records.deep_view()[i as int].id != i + 1);
                }
                return Err(CorpusError::StorageError);
            }
            proof {
                assert(records.deep_view()[i as int].id == i + 1);
            }
            i += 1;
        }
        let s = RecordStore { records };
        Ok(s)
    }

    /// How many records are stored.
    pub fn len(&self) -> (n: usize)
        ensures
            n == self@.len(),
    {
        self.records.len()
    }

    /// Appends a new record and returns its id, the next unused one.
    pub fn insert(&mut self, text: String, submitter: String, submitted: Option<i64>) -> (id:
        i64)
        requires
            old(self).wf(),
            old(self)@.len() < 0x7fff_ffff_ffff_fffe,
        ensures
            final(self).wf(),
            final(self)@ == store_added(old(self)@, text@, submitter@, submitted),
            id == old(self)@.len() + 1,
    {
        let id = (self.records.len() as i64) + 1;
        let q = Quote { id, quote: text, submitter, submitted, redacted: false };
        let ghost qm = q@;
        self.records.push(q);
        proof {
            assert(self@ =~= old(self)@.push(qm));
        }
        id
    }

    /// The record at `id`, if any.
    pub fn get(&self, id: i64) -> (r: Option<Quote>)
        ensures
            r is Some <==> store_lookup(self@, id as int) is Some,
            r matches Some(q) ==> store_lookup(self@, id as int) == Some(q@),
    {
        let n = self.records.len();
        if id < 1 || (id - 1) as u64 >= n as u64 {
            None
        } else {
            let idx: usize = (id - 1) as usize;
            Some(self.records[idx].duplicate())
        }
    }

    /// A copy of the record at position `idx` (id `idx + 1`).
    pub fn get_at(&self, idx: usize) -> (q: Quote)
        requires
            idx < self@.len(),
        ensures
            q@ == self@[idx as int],
    {
        self.records[idx].duplicate()
    }

    /// One record drawn at random from the full record set, redacted
    /// records included; `None` exactly when the store is empty.
    pub fn random(&self) -> (r: Option<Quote>)
        ensures
            r is Some <==> self@.len() > 0,
            r matches Some(q) ==> exists|i: int| 0 <= i < self@.len() && q@ == self@[i],
    {
        let n = self.records.len();
        if n == 0 {
            None
        } else {
            let idx = random_below(n);
            let q = self.records[idx].duplicate();
            proof {
                assert(q@ == self@[idx as int]);
            }
            Some(q)
        }
    }

    /// Overwrites the text of the record at `id` with `tombstone` and
    /// marks it redacted, returning the updated record; `None` (and no
    /// change) when there is no such record.
    pub fn redact(&mut self, id: i64, tombstone: &str) -> (r: Option<Quote>)
        requires
            old(self).wf(),
        ensures
            final(self).wf(),
            final(self)@ == store_redacted(old(self)@, id as int, tombstone@),
            r is Some <==> 1 <= id <= old(self)@.len(),
            r matches Some(q) ==> store_lookup(final(self)@, id as int) == Some(q@),
    {
        let n = self.records.len();
        if id < 1 || (id - 1) as u64 >= n as u64 {
            proof {
                assert(final(self)@ =~= store_redacted(old(self)@, id as int, tombstone@));
            }
            None
        } else {
            let idx: usize = (id - 1) as usize;
            let tomb: String = tombstone.to_owned();
            let entry = &mut self.records[idx];
            entry.quote = tomb;
            entry.redacted = true;
            let q = self.records[idx].duplicate();
            proof {
                assert(final(self)@ =~= store_redacted(old(self)@, id as int, tombstone@));
            }
            Some(q)
        }
    }

    /// Every record, in id order: the full scan used to (re)build the
    /// search index.
    pub fn scan(&self) -> (r: Vec<Quote>)
        ensures
            r.deep_view() == self@,
    {
        let n = self.records.len();
        let mut out: Vec<Quote> = Vec::new();
        let mut i: usize = 0;
        while i < n
            invariant
                i <= n,
                n == self@.len(),
                out.deep_view() == self@.take(i as int),
            decreases n - i,
        {
            let ghost pre = out.deep_view();
            out.push(self.records[i].duplicate());
            proof {
                assert(out.deep_view() =~= pre.push(self@[i as int]));
                assert(self@.take(i + 1) =~= self@.take(i as int).push(self@[i as int]));
            }
            i += 1;
        }
        proof {
            assert(self@.take(n as int) =~= self@);
        }
        out
    }
}

} // verus!
