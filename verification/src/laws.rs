//! Laws of the corpus, stated over the same spec functions that the
//! engine's contracts use and proved once and for all.

use vstd::prelude::*;
use crate::index::{entry_matches, index_indexed, index_removed, EntryModel};
use crate::render::{dec_digit, dec_str, digit_val, digits_val, is_digit};
use crate::store::{store_added, store_lookup, store_redacted, QuoteModel};

verus! {

/// A rendered decimal number parses back to the same value: rendering
/// yields digits only, and their value is the number itself.
pub proof fn lemma_dec_str_round_trip(n: nat)
    ensures
        digits_val(dec_str(n)) == n,
        forall|k: int| 0 <= k < dec_str(n).len() ==> is_digit(#[trigger] dec_str(n)[k]),
    decreases n,
{
    if n < 10 {
        assert(dec_str(n) =~= seq![dec_digit(n)]);
        assert(seq![dec_digit(n)].drop_last() =~= Seq::<char>::empty());
        assert(seq![dec_digit(n)].last() == dec_digit(n));
        assert(digits_val(Seq::<char>::empty()) == 0);
        assert(digits_val(seq![dec_digit(n)]) == digit_val(dec_digit(n)));
        assert(digit_val(dec_digit(n)) == n);
    } else {
        lemma_dec_str_round_trip(n / 10);
        assert(dec_str(n).drop_last() =~= dec_str(n / 10));
        assert(dec_str(n).last() == dec_digit(n % 10));
        assert(digit_val(dec_digit(n % 10)) == n % 10);
        assert(digits_val(dec_str(n)) == (n / 10) * 10 + n % 10);
    }
}

/// Adding a quote and looking its fresh id up returns a record with
/// exactly the added text and submitter, unredacted.
pub proof fn lemma_add_then_get(
    s: Seq<QuoteModel>,
    text: Seq<char>,
    submitter: Seq<char>,
    submitted: Option<i64>,
)
    ensures
        store_lookup(store_added(s, text, submitter, submitted), s.len() as int + 1) == Some(
            QuoteModel {
                id: s.len() as int + 1,
                text: text,
                submitter: submitter,
                submitted: submitted,
                redacted: false,
            },
        ),
{
}

/// After an expunge, id lookup returns the record with exactly the
/// tombstone text, marked redacted, its other fields untouched.
pub proof fn lemma_expunge_then_get(s: Seq<QuoteModel>, id: int, tomb: Seq<char>)
    requires
        1 <= id <= s.len(),
    ensures
        store_lookup(store_redacted(s, id, tomb), id) == Some(
            QuoteModel {
                id: id,
                text: tomb,
                submitter: s[id - 1].submitter,
                submitted: s[id - 1].submitted,
                redacted: true,
            },
        ),
{
}

/// After an expunge, no query whatsoever matches the expunged id: its
/// entry is no longer searchable.
pub proof fn lemma_expunge_unsearchable(es: Seq<EntryModel>, id: int, q: Seq<Seq<char>>)
    requires
        1 <= id <= es.len(),
    ensures
        !entry_matches(index_removed(es, id)[id - 1], q),
{
}

/// Expunging the same id twice with the same tombstone leaves store and
/// index exactly as one expunge does.
pub proof fn lemma_expunge_idempotent(
    s: Seq<QuoteModel>,
    es: Seq<EntryModel>,
    id: int,
    tomb: Seq<char>,
)
    ensures
        store_redacted(store_redacted(s, id, tomb), id, tomb) == store_redacted(s, id, tomb),
        index_removed(index_removed(es, id), id) == index_removed(es, id),
{
    assert(store_redacted(store_redacted(s, id, tomb), id, tomb) =~= store_redacted(
        s,
        id,
        tomb,
    ));
    assert(index_removed(index_removed(es, id), id) =~= index_removed(es, id));
}

/// Indexing the same id twice with the same text leaves the index as
/// after the first call.
pub proof fn lemma_index_idempotent(es: Seq<EntryModel>, id: int, text: Seq<char>)
    ensures
        index_indexed(index_indexed(es, id, text), id, text) == index_indexed(es, id, text),
{
    assert(index_indexed(index_indexed(es, id, text), id, text) =~= index_indexed(
        es,
        id,
        text,
    ));
}

} // verus!
