use voxable::history::{add_entry_capped, parse_timestamp, prune, History, HistoryEntry, MAX_ENTRIES};

fn entry(id: &str, timestamp: &str) -> HistoryEntry {
    HistoryEntry {
        id: id.into(),
        timestamp: timestamp.into(),
        app: Some("Code".into()),
        raw: "raw text".into(),
        cleaned: "Cleaned text.".into(),
        model: "base".into(),
        cleanup_level: "medium".into(),
        duration_ms: 1234,
    }
}

#[test]
fn history_paths() {
    let h = History::new("/tmp/voxable/history");
    assert_eq!(h.index_path(), "/tmp/voxable/history/history.json");
    assert_eq!(h.audio_dir(), "/tmp/voxable/history/audio");
    assert_eq!(h.audio_path("id-1"), "/tmp/voxable/history/audio/id-1.f32");
}

#[test]
fn five_hundred_entry_cap_in_the_index() {
    let mut entries = Vec::new();
    for i in 0..501u32 {
        let e = entry(&format!("id-{i}"), &format!("2026-09-09T{:02}:00:00Z", i % 24));
        let dropped = add_entry_capped(&mut entries, e);
        if i < 500 {
            assert!(dropped.is_empty());
        } else {
            assert_eq!(dropped.len(), 1);
            assert_eq!(dropped[0].id, "id-0");
        }
    }
    assert_eq!(entries.len(), MAX_ENTRIES);
    assert_eq!(entries[0].id, "id-1");
    assert_eq!(entries[499].id, "id-500");
}

#[test]
fn timestamps_become_nanoseconds_since_the_epoch() {
    assert_eq!(parse_timestamp("1970-01-01T00:00:01Z"), 1_000_000_000);
    assert_eq!(parse_timestamp("2026-09-09T12:00:00.5Z"), 1_788_955_200_500_000_000);
    assert_eq!(parse_timestamp("1969-12-31T23:59:59Z"), -1_000_000_000);
    assert_eq!(parse_timestamp("2026-09-09T14:00:00+02:00"), 1_788_955_200_000_000_000);
    assert_eq!(parse_timestamp("not a time"), 0);
}

#[test]
fn cleanup_by_age_and_count() {
    let entries = vec![
        entry("old", "2026-08-01T00:00:00Z"),
        entry("recent-1", "2026-09-08T00:00:00Z"),
        entry("recent-2", "2026-09-09T00:00:00Z"),
        entry("recent-3", "2026-09-09T01:00:00Z"),
    ];
    let cutoff = parse_timestamp("2026-08-26T00:00:00Z");
    let (kept, dropped) = prune(entries, cutoff, 2);
    let kept_ids: Vec<&str> = kept.iter().map(|e| e.id.as_str()).collect();
    let dropped_ids: Vec<&str> = dropped.iter().map(|e| e.id.as_str()).collect();
    assert_eq!(kept_ids, vec!["recent-2", "recent-3"]);
    assert_eq!(dropped_ids, vec!["old", "recent-1"]);
}

#[test]
fn clearing_keeps_nothing() {
    let entries = vec![entry("a", "2026-09-08T00:00:00Z"), entry("b", "garbage")];
    let (kept, dropped) = prune(entries, i128::MIN, 0);
    assert!(kept.is_empty());
    assert_eq!(dropped.len(), 2);
}

#[test]
fn unparseable_timestamps_count_as_the_epoch() {
    let entries = vec![entry("bad", "garbage"), entry("good", "2026-09-08T00:00:00Z")];
    let (kept, dropped) = prune(entries, 1, 10);
    assert_eq!(kept.len(), 1);
    assert_eq!(kept[0].id, "good");
    assert_eq!(dropped[0].id, "bad");
}
