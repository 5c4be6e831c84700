use voxable::history::HistoryEntry;
use voxable::stats::{parse_rfc3339_secs, tally, word_count};

fn entry(ts: &str, cleaned: &str, duration_ms: u64, app: Option<&str>) -> HistoryEntry {
    HistoryEntry {
        id: ts.to_string(),
        timestamp: ts.to_string(),
        app: app.map(str::to_string),
        raw: cleaned.to_string(),
        cleaned: cleaned.to_string(),
        model: "base".into(),
        cleanup_level: "medium".into(),
        duration_ms,
    }
}

#[test]
fn empty_history_tallies_to_zero() {
    let t = tally(&[], "2026-09-09T12:00:00Z");
    assert_eq!(t.dictations, 0);
    assert_eq!(t.words, 0);
    assert_eq!(t.dictations_this_week, 0);
    assert_eq!(t.words_this_week, 0);
    assert_eq!(t.top_app, None);
}

#[test]
fn tally_counts_words_and_dictations() {
    let entries = [
        entry("2026-09-09T12:00:00Z", "one two three", 6_000, None),
        entry("2026-09-09T12:01:00Z", "four five", 6_000, None),
    ];
    let t = tally(&entries, "2026-09-09T12:02:00Z");
    assert_eq!(t.dictations, 2);
    assert_eq!(t.words, 5);
}

#[test]
fn tally_weekly_window_excludes_older_entries() {
    let entries = [
        entry("2026-09-01T12:00:00Z", "old words here", 3_000, None),
        entry("2026-09-08T12:00:00Z", "new words", 3_000, None),
    ];
    let t = tally(&entries, "2026-09-09T12:00:00Z");
    assert_eq!(t.dictations, 2);
    assert_eq!(t.dictations_this_week, 1);
    assert_eq!(t.words_this_week, 2);
}

#[test]
fn tally_window_edge_is_inclusive() {
    let entries = [
        entry("2026-09-02T12:00:00Z", "exactly seven days", 1_000, None),
        entry("2026-09-02T11:59:59Z", "one second more", 1_000, None),
    ];
    let t = tally(&entries, "2026-09-09T12:00:00Z");
    assert_eq!(t.dictations_this_week, 1);
    assert_eq!(t.words_this_week, 3);
}

#[test]
fn tally_top_app_is_the_most_frequent() {
    let entries = [
        entry("2026-09-09T12:00:00Z", "a", 1_000, Some("Slack")),
        entry("2026-09-09T12:01:00Z", "b", 1_000, Some("Safari")),
        entry("2026-09-09T12:02:00Z", "c", 1_000, Some("Slack")),
    ];
    let t = tally(&entries, "2026-09-09T12:03:00Z");
    assert_eq!(t.top_app, Some(("Slack".into(), 2)));
}

#[test]
fn tally_top_app_ties_go_to_the_first_name() {
    let entries = [
        entry("2026-09-09T12:00:00Z", "a", 1_000, Some("Slack")),
        entry("2026-09-09T12:01:00Z", "b", 1_000, Some("Mail")),
        entry("2026-09-09T12:02:00Z", "c", 1_000, Some("")),
        entry("2026-09-09T12:03:00Z", "d", 1_000, Some("Zed")),
    ];
    let t = tally(&entries, "2026-09-09T12:03:00Z");
    assert_eq!(t.top_app, Some(("Mail".into(), 1)));
}

#[test]
fn tally_entries_without_an_app_do_not_produce_a_top_app() {
    let t = tally(
        &[entry("2026-09-09T12:00:00Z", "a", 1_000, None), entry("2026-09-09T12:00:00Z", "a", 1_000, Some(""))],
        "2026-09-09T12:01:00Z",
    );
    assert_eq!(t.top_app, None);
}

#[test]
fn tally_unparseable_timestamps_drop_out_of_the_weekly_window_only() {
    let entries = [entry("not-a-timestamp", "one two", 1_000, None)];
    let t = tally(&entries, "2026-09-09T12:00:00Z");
    assert_eq!(t.words, 2);
    assert_eq!(t.words_this_week, 0);
    let t = tally(&[entry("2026-09-09T12:00:00Z", "one", 1, None)], "garbage");
    assert_eq!(t.dictations_this_week, 0);
}

#[test]
fn rfc3339_parses_against_known_epoch_seconds() {
    assert_eq!(parse_rfc3339_secs("1970-01-01T00:00:00Z"), Some(0));
    assert_eq!(parse_rfc3339_secs("2026-09-09T12:00:00Z"), Some(1_788_955_200));
}

#[test]
fn rfc3339_reads_fixed_positions_only() {
    assert_eq!(parse_rfc3339_secs("2000-03-01T00:00:00"), Some(951_868_800));
    assert_eq!(parse_rfc3339_secs("1969-12-31T23:59:59Z"), Some(-1));
    // Separators are not checked; fields are.
    assert_eq!(parse_rfc3339_secs("1970x01y01 00-00-00"), Some(0));
    assert_eq!(parse_rfc3339_secs("1970-01-01T00:00:0"), None);
    assert_eq!(parse_rfc3339_secs("19a0-01-01T00:00:00Z"), None);
    assert_eq!(parse_rfc3339_secs("é970-01-01T00:00:00Z"), None);
    assert_eq!(parse_rfc3339_secs("+970-01-01T00:00:00Z"), Some(-31_556_908_800));
    assert_eq!(parse_rfc3339_secs("-999--9--9T-9:-9:-9Z"), Some(-93_719_927_349));
}

#[test]
fn words_are_runs_of_non_whitespace() {
    assert_eq!(word_count(""), 0);
    assert_eq!(word_count("   "), 0);
    assert_eq!(word_count("one"), 1);
    assert_eq!(word_count("  one  two\tthree\n"), 3);
    assert_eq!(word_count("a\u{3000}b\u{a0}c"), 3);
}
