use fyrnwita::engine::CorpusEngine;
use fyrnwita::store::{CorpusError, Quote};

fn seeded() -> CorpusEngine {
    let mut e = CorpusEngine::new();
    e.add_quote("the quick brown fox", "alice", Some(1_600_000_000))
        .unwrap();
    e.add_quote("a lazy dog", "bob", None).unwrap();
    e
}

#[test]
fn add_then_get_returns_same_text_and_submitter() {
    let mut e = CorpusEngine::new();
    let id = e.add_quote("wit beyond measure", "rowena", Some(42)).unwrap();
    assert_eq!(id, 1);
    let q = e.get_by_id(id).unwrap();
    assert_eq!(q.id, 1);
    assert_eq!(q.quote, "wit beyond measure");
    assert_eq!(q.submitter, "rowena");
    assert_eq!(q.submitted, Some(42));
    assert!(!q.redacted);
}

#[test]
fn add_trims_text_before_storing() {
    let mut e = CorpusEngine::new();
    let id = e.add_quote("  spaced out \t\n", "s", None).unwrap();
    let q = e.get_by_id(id).unwrap();
    assert_eq!(q.quote, "spaced out");
}

#[test]
fn add_empty_after_trim_is_rejected() {
    let mut e = CorpusEngine::new();
    assert_eq!(e.add_quote("   \t \n ", "s", None), Err(CorpusError::BadQuery));
    assert_eq!(e.len(), 0);
}

#[test]
fn get_by_id_unknown_is_not_found() {
    let e = seeded();
    assert_eq!(e.get_by_id(99).unwrap_err(), CorpusError::NotFound);
    assert_eq!(e.get_by_id(0).unwrap_err(), CorpusError::NotFound);
    assert_eq!(e.get_by_id(-4).unwrap_err(), CorpusError::NotFound);
}

#[test]
fn get_random_on_empty_corpus_is_empty_corpus() {
    let e = CorpusEngine::new();
    assert_eq!(e.get_random().unwrap_err(), CorpusError::EmptyCorpus);
}

#[test]
fn get_random_returns_each_record_eventually() {
    let e = seeded();
    let mut seen = [false; 2];
    for _ in 0..500 {
        let q = e.get_random().unwrap();
        assert!(q.id == 1 || q.id == 2);
        seen[(q.id - 1) as usize] = true;
    }
    assert!(seen[0] && seen[1]);
}

#[test]
fn get_random_includes_redacted_records() {
    let mut e = seeded();
    e.expunge(1, "gone").unwrap();
    let mut seen_redacted = false;
    for _ in 0..500 {
        let q = e.get_random().unwrap();
        if q.id == 1 {
            assert_eq!(q.quote, "gone");
            seen_redacted = true;
        }
    }
    assert!(seen_redacted);
}

#[test]
fn query_fox_returns_first_record_highlighted() {
    let e = seeded();
    let q = e.get_by_query("fox").unwrap();
    assert_eq!(q.id, 1);
    assert_eq!(q.quote, "the quick brown **fox**");
    assert_eq!(q.submitter, "alice");
}

#[test]
fn query_zzz_yields_no_match() {
    let e = seeded();
    assert_eq!(e.get_by_query("zzz").unwrap_err(), CorpusError::NoMatch);
}

#[test]
fn query_leaves_other_record_untouched() {
    let e = seeded();
    let q = e.get_by_query("fox").unwrap();
    assert_eq!(q.id, 1);
    let other = e.get_by_id(2).unwrap();
    assert_eq!(other.quote, "a lazy dog");
}

#[test]
fn empty_query_is_bad_query() {
    let e = seeded();
    assert_eq!(e.get_by_query("").unwrap_err(), CorpusError::BadQuery);
    assert_eq!(e.get_by_query("   \t").unwrap_err(), CorpusError::BadQuery);
}

#[test]
fn query_is_case_insensitive() {
    let e = seeded();
    let q = e.get_by_query("FOX").unwrap();
    assert_eq!(q.id, 1);
    assert_eq!(q.quote, "the quick brown **fox**");
}

#[test]
fn multi_token_query_needs_every_token() {
    let e = seeded();
    let q = e.get_by_query("quick fox").unwrap();
    assert_eq!(q.id, 1);
    assert_eq!(e.get_by_query("quick dog").unwrap_err(), CorpusError::NoMatch);
}

#[test]
fn search_ranks_by_occurrences() {
    let mut e = CorpusEngine::new();
    e.add_quote("echo", "s", None).unwrap();
    e.add_quote("echo echo echo", "s", None).unwrap();
    e.add_quote("echo echo", "s", None).unwrap();
    let hits = e.search("echo", 2).unwrap();
    assert_eq!(hits.len(), 2);
    assert_eq!(hits[0].id, 2);
    assert_eq!(hits[0].score, 3);
    assert_eq!(hits[1].id, 3);
    assert_eq!(hits[1].score, 2);
}

#[test]
fn search_highlights_every_occurrence() {
    let mut e = CorpusEngine::new();
    e.add_quote("Fox says: fox fox!", "s", None).unwrap();
    let hits = e.search("fox", 5).unwrap();
    assert_eq!(hits.len(), 1);
    assert_eq!(hits[0].snippet, "**Fox** says: **fox** **fox**!");
}

#[test]
fn expunge_overwrites_text_and_hides_from_search() {
    let mut e = seeded();
    let tomb = "< DATA EXPUNGED ON BEHALF OF THE BUREAU OF CHAT HYGIENE >";
    let q = e.expunge(1, tomb).unwrap();
    assert_eq!(q.id, 1);
    assert_eq!(q.quote, tomb);
    assert!(q.redacted);
    let back = e.get_by_id(1).unwrap();
    assert_eq!(back.quote, tomb);
    assert!(back.redacted);
    assert_eq!(e.get_by_query("fox").unwrap_err(), CorpusError::NoMatch);
    assert_eq!(e.get_by_query("quick").unwrap_err(), CorpusError::NoMatch);
}

#[test]
fn tombstone_text_is_not_searchable() {
    let mut e = seeded();
    e.expunge(1, "expunged by the bureau").unwrap();
    assert_eq!(e.get_by_query("bureau").unwrap_err(), CorpusError::NoMatch);
}

#[test]
fn expunge_unknown_id_is_not_found() {
    let mut e = seeded();
    assert_eq!(e.expunge(7, "t").unwrap_err(), CorpusError::NotFound);
    assert_eq!(e.get_by_id(1).unwrap().quote, "the quick brown fox");
}

#[test]
fn expunge_twice_is_idempotent() {
    let mut once = seeded();
    once.expunge(2, "tomb").unwrap();
    let mut twice = seeded();
    twice.expunge(2, "tomb").unwrap();
    twice.expunge(2, "tomb").unwrap();
    for id in 1..=2 {
        let a = once.get_by_id(id).unwrap();
        let b = twice.get_by_id(id).unwrap();
        assert_eq!(a.quote, b.quote);
        assert_eq!(a.submitter, b.submitter);
        assert_eq!(a.submitted, b.submitted);
        assert_eq!(a.redacted, b.redacted);
    }
    assert_eq!(
        once.get_by_query("lazy").unwrap_err(),
        twice.get_by_query("lazy").unwrap_err()
    );
}

#[test]
fn expunged_record_stays_searchable_for_others() {
    let mut e = seeded();
    e.expunge(1, "tomb").unwrap();
    let q = e.get_by_query("lazy").unwrap();
    assert_eq!(q.id, 2);
    assert_eq!(q.quote, "a **lazy** dog");
}

#[test]
fn added_quote_is_immediately_searchable() {
    let mut e = seeded();
    e.add_quote("fresh words", "carol", None).unwrap();
    let q = e.get_by_query("fresh").unwrap();
    assert_eq!(q.id, 3);
    assert_eq!(q.quote, "**fresh** words");
}

fn stored(id: i64, text: &str, submitter: &str) -> Quote {
    Quote {
        id,
        quote: text.to_string(),
        submitter: submitter.to_string(),
        submitted: None,
        redacted: false,
    }
}

#[test]
fn from_records_requires_rebuild_before_search() {
    let rows = vec![stored(1, "old words", "a"), stored(2, "new words", "b")];
    let mut e = CorpusEngine::from_records(rows).unwrap();
    assert_eq!(
        e.get_by_query("words").unwrap_err(),
        CorpusError::IndexUnavailable
    );
    assert_eq!(e.get_by_id(1).unwrap().quote, "old words");
    e.rebuild_index();
    let q = e.get_by_query("old").unwrap();
    assert_eq!(q.id, 1);
    assert_eq!(q.quote, "**old** words");
}

#[test]
fn from_records_with_wrong_ids_is_storage_error() {
    let rows = vec![stored(1, "one", "a"), stored(5, "five", "b")];
    assert!(matches!(
        CorpusEngine::from_records(rows),
        Err(CorpusError::StorageError)
    ));
}

#[test]
fn from_records_keeps_redacted_rows_unsearchable() {
    let mut rows = vec![stored(1, "tomb text", "a"), stored(2, "plain words", "b")];
    rows[0].redacted = true;
    let mut e = CorpusEngine::from_records(rows).unwrap();
    e.rebuild_index();
    assert_eq!(e.get_by_query("tomb").unwrap_err(), CorpusError::NoMatch);
    assert_eq!(e.get_by_query("plain").unwrap().id, 2);
}

#[test]
fn random_draws_are_roughly_uniform() {
    let mut e = CorpusEngine::new();
    e.add_quote("first", "s", None).unwrap();
    e.add_quote("second", "s", None).unwrap();
    e.add_quote("third", "s", None).unwrap();
    let mut counts = [0u32; 3];
    for _ in 0..600 {
        let q = e.get_random().unwrap();
        counts[(q.id - 1) as usize] += 1;
    }
    for c in counts {
        assert!((100..=300).contains(&c), "draws far from uniform: {counts:?}");
    }
}

#[test]
fn rebuilding_the_index_changes_no_answers() {
    let mut e = seeded();
    let before = e.get_by_query("fox").unwrap();
    e.rebuild_index();
    e.rebuild_index();
    let after = e.get_by_query("fox").unwrap();
    assert_eq!(before.id, after.id);
    assert_eq!(before.quote, after.quote);
}

#[test]
fn search_returns_at_most_limit_hits() {
    let mut e = CorpusEngine::new();
    for i in 0..8 {
        e.add_quote(&format!("common word number {i}"), "s", None).unwrap();
    }
    let hits = e.search("common", 5).unwrap();
    assert_eq!(hits.len(), 5);
    let all = e.search("common", 100).unwrap();
    assert_eq!(all.len(), 8);
}
