//! Dictation history: the entry index and its retention rules.
//!
//! The index lives in `history.json` under the history directory and each entry's
//! raw audio in `audio/<id>.f32`. Adding an entry keeps at most 500, dropping the
//! oldest; cleanup drops entries older than a cutoff and then keeps at most a given
//! number of the newest. The files themselves are read and written by the caller,
//! which also deletes the audio of every dropped entry.

use vstd::prelude::*;
use crate::clock::{parse_rfc3339, rfc3339_instant};
use crate::config::{join, main_separator, path_join, platform_separator};
use crate::text::push_str;

verus! {

/// A single dictation history entry (one row of the index).
#[derive(Debug, Clone, PartialEq, Eq)]
pub struct HistoryEntry {
    pub id: String,
    /// RFC 3339 UTC timestamp, e.g. `2026-09-09T12:34:56.789Z`.
    pub timestamp: String,
    /// Foreground app name at dictation time, when known.
    pub app: Option<String>,
    /// Raw Whisper transcription.
    pub raw: String,
    /// Final cleaned text.
    pub cleaned: String,
    /// Whisper model used.
    pub model: String,
    /// Cleanup level used (`none` | `light` | `medium` | `high`).
    pub cleanup_level: String,
    /// Duration of the recorded audio in milliseconds.
    pub duration_ms: u64,
}

/// Maximum number of entries kept in the index.
pub const MAX_ENTRIES: usize = 500;

/// History storage rooted at a directory.
pub struct History {
    storage: String,
    separator: char,
}

impl History {
    /// The directory the history lives in.
    pub closed spec fn dir(&self) -> Seq<char> {
        self.storage@
    }

    /// The path separator its paths are built with: the platform's.
    pub closed spec fn sep(&self) -> char {
        self.separator
    }

    /// History rooted at `dir`, with paths built with the platform's separator.
    pub fn new(dir: &str) -> (h: History)
        ensures
            h.dir() == dir@,
            platform_separator(h.sep()),
    {
        let mut storage = String::new();
        push_str(&mut storage, dir);
        History { storage, separator: main_separator() }
    }

    /// The index file: `history.json` in the history directory.
    pub fn index_path(&self) -> (r: String)
        ensures
            r@ == path_join(self.sep(), self.dir(), "history.json"@),
    {
        join(self.separator, self.storage.as_str(), "history.json")
    }

    /// The audio directory: `audio` in the history directory.
    pub fn audio_dir(&self) -> (r: String)
        ensures
            r@ == path_join(self.sep(), self.dir(), "audio"@),
    {
        join(self.separator, self.storage.as_str(), "audio")
    }

    /// The audio file of entry `id`: `<id>.f32` in the audio directory.
    pub fn audio_path(&self, id: &str) -> (r: String)
        ensures
            r@ == path_join(self.sep(), path_join(self.sep(), self.dir(), "audio"@), id@ + ".f32"@),
    {
        let dir = self.audio_dir();
        let mut name = String::new();
        push_str(&mut name, id);
        push_str(&mut name, ".f32");
        join(self.separator, dir.as_str(), name.as_str())
    }
}

/// Appends `entry` to `entries` (oldest first) and keeps at most 500, dropping the
/// oldest. Returns the dropped entries, oldest first, so their audio can be deleted.
pub fn add_entry_capped(entries: &mut Vec<HistoryEntry>, entry: HistoryEntry) -> (dropped: Vec<
    HistoryEntry,
>)
    ensures
        ({
            let all = old(entries)@.push(entry);
            if all.len() > MAX_ENTRIES {
                &&& dropped@ == all.take(all.len() - MAX_ENTRIES)
                &&& final(entries)@ == all.skip(all.len() - MAX_ENTRIES)
            } else {
                &&& dropped@.len() == 0
                &&& final(entries)@ == all
            }
        }),
{
    entries.push(entry);
    if entries.len() > MAX_ENTRIES {
        let overflow = entries.len() - MAX_ENTRIES;
        let mut kept = entries.split_off(overflow);
        std::mem::swap(entries, &mut kept);
        kept
    } else {
        Vec::new()
    }
}

/// Nanoseconds since the Unix epoch for `secs` seconds and `nanos` nanoseconds, the
/// way the instant is rebuilt from them: `epoch + (secs, nanos)` for non-negative
/// seconds and `epoch - (-secs, nanos)` for negative ones.
pub open spec fn instant_nanos(secs: i64, nanos: u32) -> int {
    if secs >= 0 {
        secs * 1_000_000_000 + nanos
    } else {
        -((-secs) * 1_000_000_000 + nanos)
    }
}

/// The instant of an entry timestamp in nanoseconds since the Unix epoch; an
/// unparseable timestamp counts as the epoch itself, so its entry reads as old.
pub open spec fn timestamp_nanos(ts: Seq<char>) -> int {
    match rfc3339_instant(ts) {
        Some(at) => instant_nanos(at.0, at.1),
        None => 0,
    }
}

/// The instant of an RFC 3339 timestamp in nanoseconds since the Unix epoch, or the
/// epoch (0) when it does not parse.
pub fn parse_timestamp(ts: &str) -> (r: i128)
    ensures
        r == timestamp_nanos(ts@),
{
    match parse_rfc3339(ts) {
        Some((secs, nanos)) => {
            let s = secs as i128;
            if s >= 0 {
                s * 1_000_000_000 + nanos as i128
            } else {
                -((-s) * 1_000_000_000 + nanos as i128)
            }
        },
        None => 0,
    }
}

/// The entries stamped at or after `cutoff`, in order.
pub open spec fn recent_entries(entries: Seq<HistoryEntry>, cutoff: int) -> Seq<HistoryEntry>
    decreases entries.len(),
{
    if entries.len() == 0 {
        entries
    } else {
        let r = recent_entries(entries.drop_last(), cutoff);
        if timestamp_nanos(entries.last().timestamp@) >= cutoff {
            r.push(entries.last())
        } else {
            r
        }
    }
}

/// The entries stamped before `cutoff`, in order.
pub open spec fn aged_entries(entries: Seq<HistoryEntry>, cutoff: int) -> Seq<HistoryEntry>
    decreases entries.len(),
{
    if entries.len() == 0 {
        entries
    } else {
        let r = aged_entries(entries.drop_last(), cutoff);
        if timestamp_nanos(entries.last().timestamp@) >= cutoff {
            r
        } else {
            r.push(entries.last())
        }
    }
}

/// Splits `entries` (oldest first) into those kept and those dropped: entries
/// stamped before `cutoff` go, and of the rest only the newest `max_entries` stay.
///
/// Returns `(kept, dropped)`: kept in order; dropped as the aged entries in order
/// followed by the oldest recent ones over the limit.
pub fn prune(entries: Vec<HistoryEntry>, cutoff: i128, max_entries: usize) -> (r: (
    Vec<HistoryEntry>,
    Vec<HistoryEntry>,
))
    ensures
        ({
            let recent = recent_entries(entries@, cutoff as int);
            let aged = aged_entries(entries@, cutoff as int);
            if recent.len() > max_entries {
                &&& r.0@ == recent.skip(recent.len() - max_entries)
                &&& r.1@ == aged + recent.take(recent.len() - max_entries)
            } else {
                &&& r.0@ == recent
                &&& r.1@ == aged
            }
        }),
{
    let ghost all = entries@;
    let mut kept: Vec<HistoryEntry> = Vec::new();
    let mut dropped: Vec<HistoryEntry> = Vec::new();
    let total = entries.len();
    let mut rest = reverse(entries);
    let mut n: usize = 0;
    assert(all.take(0) =~= Seq::<HistoryEntry>::empty());
    // `rest` holds the entries not yet sorted, newest first, so `pop` yields them in
    // order.
    while rest.len() > 0
        invariant
            all.len() == total,
            n + rest.len() == total,
            forall|k: int| 0 <= k < rest.len() ==> rest@[k] == all[all.len() - 1 - k],
            kept@ == recent_entries(all.take(n as int), cutoff as int),
            dropped@ == aged_entries(all.take(n as int), cutoff as int),
        decreases rest.len(),
    {
        let e = rest.pop().unwrap();
        assert(e == all[n as int]);
        let ts = parse_timestamp(e.timestamp.as_str());
        assert(all.take(n + 1).drop_last() =~= all.take(n as int));
        assert(all.take(n + 1).last() == e);
        if ts >= cutoff {
            kept.push(e);
        } else {
            dropped.push(e);
        }
        n = n + 1;
    }
    assert(all.take(n as int) =~= all);
    let ghost recent = kept@;
    if kept.len() > max_entries {
        let overflow = kept.len() - max_entries;
        let mut tail = kept.split_off(overflow);
        std::mem::swap(&mut kept, &mut tail);
        // `tail` now holds the oldest recent entries over the limit.
        dropped.append(&mut tail);
    }
    (kept, dropped)
}

/// `v` in reverse order.
fn reverse(v: Vec<HistoryEntry>) -> (r: Vec<HistoryEntry>)
    ensures
        r.len() == v.len(),
        forall|k: int| 0 <= k < v.len() ==> r@[k] == v@[v.len() - 1 - k],
{
    let ghost orig = v@;
    let mut v = v;
    let mut r: Vec<HistoryEntry> = Vec::new();
    while v.len() > 0
        invariant
            r.len() + v.len() == orig.len(),
            v@ == orig.take(v.len() as int),
            forall|k: int| 0 <= k < r.len() ==> r@[k] == orig[orig.len() - 1 - k],
        decreases v.len(),
    {
        let x = v.pop().unwrap();
        assert(v@ =~= orig.take(v.len() as int));
        r.push(x);
    }
    r
}

/// The recent and the aged entries split the list: together they are all of it,
/// the recent ones are stamped at or after the cutoff and the aged ones before it.
pub proof fn lemma_recent_and_aged_partition(entries: Seq<HistoryEntry>, cutoff: int)
    ensures
        recent_entries(entries, cutoff).len() + aged_entries(entries, cutoff).len()
            == entries.len(),
        forall|i: int|
            0 <= i < recent_entries(entries, cutoff).len() ==> timestamp_nanos(
                (#[trigger] recent_entries(entries, cutoff)[i]).timestamp@,
            ) >= cutoff,
        forall|i: int|
            0 <= i < aged_entries(entries, cutoff).len() ==> timestamp_nanos(
                (#[trigger] aged_entries(entries, cutoff)[i]).timestamp@,
            ) < cutoff,
    decreases entries.len(),
{
    if entries.len() > 0 {
        lemma_recent_and_aged_partition(entries.drop_last(), cutoff);
    }
}

/// Adding an entry to a history within the limit keeps it within the limit, and the
/// new entry is always the newest one kept.
pub proof fn lemma_add_keeps_the_cap(entries: Seq<HistoryEntry>, entry: HistoryEntry)
    requires
        entries.len() <= MAX_ENTRIES,
    ensures
        ({
            let all = entries.push(entry);
            let kept = if all.len() > MAX_ENTRIES {
                all.skip(all.len() - MAX_ENTRIES)
            } else {
                all
            };
            kept.len() <= MAX_ENTRIES && kept.len() > 0 && kept.last() == entry
        }),
{
}

/// After cleanup at most `max_entries` entries remain, none of them older than the
/// cutoff, and every entry is either kept or dropped.
pub proof fn lemma_prune_bounds(entries: Seq<HistoryEntry>, cutoff: int, max_entries: nat)
    ensures
        ({
            let recent = recent_entries(entries, cutoff);
            let aged = aged_entries(entries, cutoff);
            let (kept, dropped) = if recent.len() > max_entries {
                (
                    recent.skip(recent.len() - max_entries),
                    aged + recent.take(recent.len() - max_entries),
                )
            } else {
                (recent, aged)
            };
            &&& kept.len() <= max_entries
            &&& kept.len() + dropped.len() == entries.len()
            &&& forall|i: int|
                0 <= i < kept.len() ==> timestamp_nanos((#[trigger] kept[i]).timestamp@) >= cutoff
        }),
{
    lemma_recent_and_aged_partition(entries, cutoff);
    let recent = recent_entries(entries, cutoff);
    if recent.len() > max_entries {
        let kept = recent.skip(recent.len() - max_entries);
        assert forall|i: int| 0 <= i < kept.len() implies timestamp_nanos(
            (#[trigger] kept[i]).timestamp@,
        ) >= cutoff by {
            assert(kept[i] == recent[i + recent.len() - max_entries]);
        }
    }
}

} // verus!
