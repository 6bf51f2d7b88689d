use fyrnwita::config::{default_configuration, matching_reactions, Configuration, EmojiTypes};
use fyrnwita::datefmt::get_date_with_default;
use fyrnwita::render::{
    add_reply, expunge_reply, ms_to_string, parse_id, quote_message, ratelimit_message,
    render_quote, slap_message, slap_target, u64_to_string, RenderedQuote,
};
use fyrnwita::stats::{status_message, uptime_parts, CommandCount};
use fyrnwita::store::{CorpusError, Quote};
use fyrnwita::text::{contains_str, highlight, lower_string, tokenize, trim_string};

#[test]
fn numbers_render_in_decimal() {
    assert_eq!(u64_to_string(0), "0");
    assert_eq!(u64_to_string(7), "7");
    assert_eq!(u64_to_string(42), "42");
    assert_eq!(u64_to_string(1009), "1009");
    assert_eq!(u64_to_string(18_446_744_073_709_551_615), "18446744073709551615");
}

#[test]
fn ids_parse_from_digit_strings_only() {
    assert_eq!(parse_id("0"), Some(0));
    assert_eq!(parse_id("42"), Some(42));
    assert_eq!(parse_id("0042"), Some(42));
    assert_eq!(parse_id("9223372036854775807"), Some(i64::MAX));
    assert_eq!(parse_id("9223372036854775808"), None);
    assert_eq!(parse_id(""), None);
    assert_eq!(parse_id("-3"), None);
    assert_eq!(parse_id("12a"), None);
    assert_eq!(parse_id(" 7"), None);
    assert_eq!(parse_id(&u64_to_string(12345)), Some(12345));
}

#[test]
fn milliseconds_render_with_two_decimals() {
    assert_eq!(ms_to_string(0), "0.00");
    assert_eq!(ms_to_string(1_234), "1.23");
    assert_eq!(ms_to_string(1_235), "1.24");
    assert_eq!(ms_to_string(999), "1.00");
    assert_eq!(ms_to_string(12_040), "12.04");
}

#[test]
fn epoch_renders_as_calendar_date() {
    assert_eq!(
        get_date_with_default(&Some(0), "N/A"),
        "Jan 01 1970 00:00:00"
    );
    assert_eq!(
        get_date_with_default(&Some(1_600_000_000), "N/A"),
        "Sep 13 2020 12:26:40"
    );
    assert_eq!(get_date_with_default(&None, "N/A"), "N/A");
}

#[test]
fn dates_in_range_always_format() {
    assert_eq!(get_date_with_default(&Some(-1), "N/A"), "Dec 31 1969 23:59:59");
    assert_eq!(
        get_date_with_default(&Some(253_402_300_799), "N/A"),
        "Dec 31 9999 23:59:59"
    );
    assert_ne!(get_date_with_default(&Some(-377_705_116_800), "N/A"), "N/A");
    assert_eq!(get_date_with_default(&Some(253_402_300_800), "N/A"), "N/A");
    assert_eq!(get_date_with_default(&Some(i64::MAX), "N/A"), "N/A");
    assert_eq!(get_date_with_default(&Some(i64::MIN), "N/A"), "N/A");
}

#[test]
fn quote_message_with_submitter() {
    let rq = RenderedQuote {
        id: 3,
        text: "a lazy dog".to_string(),
        submitter: "bob".to_string(),
        submitted: "Sep 13 2020 12:26:40".to_string(),
        elapsed_micros: 1_234,
    };
    assert_eq!(
        quote_message(&Ok(rq)),
        "[3] a lazy dog\n\n*Submitted by bob on Sep 13 2020 12:26:40 [1.23ms]*"
    );
}

#[test]
fn quote_message_without_submitter_omits_the_clause() {
    let rq = RenderedQuote {
        id: 1,
        text: "t".to_string(),
        submitter: String::new(),
        submitted: "N/A".to_string(),
        elapsed_micros: 0,
    };
    assert_eq!(quote_message(&Ok(rq)), "[1] t\n\n*Submitted on N/A [0.00ms]*");
}

#[test]
fn quote_message_for_errors() {
    assert_eq!(quote_message(&Err(CorpusError::NotFound)), "No quote found.");
    assert_eq!(quote_message(&Err(CorpusError::EmptyCorpus)), "No quote found.");
    assert_eq!(quote_message(&Err(CorpusError::NoMatch)), "No quote found.");
    assert_eq!(quote_message(&Err(CorpusError::BadQuery)), "Querying error.");
    assert_eq!(quote_message(&Err(CorpusError::StorageError)), "Querying error.");
    assert_eq!(
        quote_message(&Err(CorpusError::IndexUnavailable)),
        "Querying error."
    );
}

#[test]
fn render_quote_formats_timestamp_or_default() {
    let q = Quote {
        id: 2,
        quote: "text".to_string(),
        submitter: "ann".to_string(),
        submitted: Some(0),
        redacted: false,
    };
    let rq = render_quote(&q, 55);
    assert_eq!(rq.id, 2);
    assert_eq!(rq.text, "text");
    assert_eq!(rq.submitter, "ann");
    assert_eq!(rq.submitted, "Jan 01 1970 00:00:00");
    assert_eq!(rq.elapsed_micros, 55);
    let q2 = Quote { submitted: None, ..q };
    assert_eq!(render_quote(&q2, 0).submitted, "N/A");
}

#[test]
fn add_and_expunge_replies() {
    assert_eq!(add_reply(&Ok(12)), "Added quote (id: 12)");
    assert_eq!(add_reply(&Err(CorpusError::StorageError)), "Failed to add quote.");
    let q = Quote {
        id: 4,
        quote: "tomb".to_string(),
        submitter: String::new(),
        submitted: None,
        redacted: true,
    };
    assert_eq!(expunge_reply(&Ok(q)), "Expunged quote id: 4");
    assert_eq!(
        expunge_reply(&Err(CorpusError::NotFound)),
        "Failed to expunge quote."
    );
}

#[test]
fn ratelimit_and_slap_messages() {
    assert_eq!(ratelimit_message(9), "Try this again in 9 seconds.");
    assert_eq!(slap_target("", 77), "<@77>");
    assert_eq!(slap_target("the wall", 77), "the wall");
    assert_eq!(
        slap_message("Fyrnwita", "<@77>"),
        "Fyrnwita slaps <@77> around a bit with a large trout"
    );
}

#[test]
fn uptime_splits_into_days_hours_minutes() {
    assert_eq!(uptime_parts(0), (0, 0, 0));
    assert_eq!(uptime_parts(86_400 + 3_600 * 2 + 60 * 5 + 30), (1, 2, 5));
    assert_eq!(uptime_parts(59), (0, 0, 0));
}

#[test]
fn status_message_shape() {
    assert_eq!(
        status_message(3, 17, 86_400 + 3_600 * 2 + 60 * 5, "0.1.0"),
        "\nBot Status:\n```\nQuotes  :: 3\nQueries :: 17\nUptime  :: 1d.2h.5m\nVersion :: 0.1.0\n```"
    );
}

#[test]
fn command_count_increments() {
    let mut c = CommandCount::new();
    assert_eq!(c.count, 0);
    c.increment();
    c.increment();
    assert_eq!(c.count, 2);
}

#[test]
fn default_configuration_values() {
    let c = default_configuration();
    assert_eq!(c.hord_path, "/var/lib/fyrnwita/hord.sl3");
    assert_eq!(c.expunged_message, "Quote has been removed.");
    assert!(c.admin_users.is_empty());
    assert!(c.reactions.is_empty());
}

#[test]
fn reactions_match_triggers_case_insensitively() {
    let mut c: Configuration = default_configuration();
    c.reactions.push(("fish".to_string(), EmojiTypes::Emoji('F')));
    c.reactions.push(("tea".to_string(), EmojiTypes::CustomEmoji("cup".to_string())));
    let hits = matching_reactions(&c, "A FISH swims");
    assert_eq!(hits.len(), 1);
    assert!(matches!(hits[0], EmojiTypes::Emoji('F')));
    let both = matching_reactions(&c, "fish and Tea");
    assert_eq!(both.len(), 2);
    assert!(matches!(&both[1], EmojiTypes::CustomEmoji(s) if s == "cup"));
    assert_eq!(matching_reactions(&c, "nothing here").len(), 0);
}

#[test]
fn text_helpers_behave() {
    assert_eq!(trim_string("  ab c \n"), "ab c");
    assert_eq!(trim_string("   "), "");
    assert_eq!(lower_string("MiXeD 123!"), "mixed 123!");
    assert_eq!(tokenize("The quick-brown FOX!"), vec!["the", "quick", "brown", "fox"]);
    assert_eq!(tokenize("  .,;  "), Vec::<String>::new());
    assert!(contains_str("hello world", "lo wo"));
    assert!(contains_str("hello", ""));
    assert!(!contains_str("hello", "world"));
    let toks = tokenize("fox");
    assert_eq!(highlight("the quick brown fox", &toks), "the quick brown **fox**");
    assert_eq!(highlight("a lazy dog", &toks), "a lazy dog");
    assert_eq!(highlight("foxes fox", &toks), "foxes **fox**");
}
