//! Usage counts derived from history entries.
//!
//! Everything the Hub's home screen counts is computed here: dictations and words,
//! overall and over the last seven days, and the app dictated into most often. The
//! rates and time estimates built on these counts are floating-point and are derived
//! by the caller.

use vstd::prelude::*;
use crate::history::HistoryEntry;
use crate::text::{chars_of, is_space, is_space_char};
use crate::version::{compare_text, lemma_text_order_facts, lemma_text_order_trans, text_order};

verus! {

// ---------------------------------------------------------------------------
// Words
// ---------------------------------------------------------------------------

/// The number of words in `s`: maximal runs of non-whitespace characters.
pub open spec fn words_in(s: Seq<char>) -> nat
    decreases s.len(),
{
    if s.len() == 0 {
        0
    } else {
        words_in(s.drop_last()) + if !is_space(s.last()) && (s.len() == 1 || is_space(
            s[s.len() - 2],
        )) {
            1nat
        } else {
            0nat
        }
    }
}

/// Count words the way a person would: runs of non-whitespace.
pub fn word_count(text: &str) -> (n: usize)
    ensures
        n == words_in(text@),
{
    let v = chars_of(text);
    let mut n: usize = 0;
    let mut i: usize = 0;
    assert(v@.take(0) =~= Seq::<char>::empty());
    while i < v.len()
        invariant
            i <= v.len(),
            v@ == text@,
            n <= i,
            n == words_in(v@.take(i as int)),
        decreases v.len() - i,
    {
        let starts = !is_space_char(v[i]) && (i == 0 || is_space_char(v[i - 1]));
        proof {
            let t = v@.take(i + 1);
            assert(t.drop_last() =~= v@.take(i as int));
            assert(t.last() == v@[i as int]);
            if i > 0 {
                assert(t[t.len() - 2] == v@[i - 1]);
            }
        }
        if starts {
            n = n + 1;
        }
        i = i + 1;
    }
    assert(v@.take(v.len() as int) =~= v@);
    n
}

// ---------------------------------------------------------------------------
// Timestamps
// ---------------------------------------------------------------------------

/// Whether `b` is an ASCII decimal digit.
pub open spec fn is_ascii_digit(b: u8) -> bool {
    48 <= b <= 57
}

/// The decimal value of ASCII digits, most significant first.
pub open spec fn ascii_digits_value(d: Seq<u8>) -> int
    decreases d.len(),
{
    if d.len() == 0 {
        0
    } else {
        ascii_digits_value(d.drop_last()) * 10 + (d.last() - 48)
    }
}

/// Whether `b` starts with `+` or `-`.
pub open spec fn has_sign(b: Seq<u8>) -> bool {
    b.len() > 0 && (b[0] == 43 || b[0] == 45)
}

/// `b` without its leading sign.
pub open spec fn digits_part(b: Seq<u8>) -> Seq<u8> {
    if has_sign(b) {
        b.drop_first()
    } else {
        b
    }
}

/// Whether every byte of `d` is an ASCII digit.
pub open spec fn all_ascii_digits(d: Seq<u8>) -> bool {
    forall|i: int| 0 <= i < d.len() ==> is_ascii_digit(#[trigger] d[i])
}

/// The value of a signed run of digits.
pub open spec fn signed_value(b: Seq<u8>) -> int {
    if has_sign(b) && b[0] == 45 {
        -ascii_digits_value(digits_part(b))
    } else {
        ascii_digits_value(digits_part(b))
    }
}

/// `str::parse::<i64>` on ASCII text: an optional `+` or `-`, then one or more
/// digits, within the `i64` range.
pub open spec fn parse_ascii_i64(b: Seq<u8>) -> Option<int> {
    if digits_part(b).len() > 0 && all_ascii_digits(digits_part(b)) && i64::MIN <= signed_value(b)
        <= i64::MAX {
        Some(signed_value(b))
    } else {
        None
    }
}

/// Days from 1970-01-01 to the civil date `year-month-day` (Howard Hinnant's
/// `days_from_civil`), applied as written to whatever numbers it is given.
pub open spec fn days_from_civil(year: int, month: int, day: int) -> int {
    let y = if month <= 2 {
        year - 1
    } else {
        year
    };
    let era = y / 400;
    let yoe = y - era * 400;
    let mp = (month + 9) % 12;
    let doy = (153 * mp + 2) / 5 + day - 1;
    let doe = yoe * 365 + yoe / 4 - yoe / 100 + doy;
    era * 146_097 + doe - 719_468
}

/// The field of `b` at bytes `from..to`, parsed as an `i64`.
pub open spec fn field(b: Seq<u8>, from: int, to: int) -> Option<int> {
    parse_ascii_i64(b.subrange(from, to))
}

/// Seconds since the Unix epoch for an RFC 3339 UTC timestamp, read from the fixed
/// byte positions `YYYY-MM-DDTHH:MM:SS`; `None` when the text is under 19 bytes or a
/// field is not a number. The separators are not checked.
///
/// A field holding only ASCII signs and digits lies on character boundaries, so
/// reading bytes is what slicing the text there and parsing the slice does.
pub open spec fn rfc3339_secs(b: Seq<u8>) -> Option<int> {
    if b.len() < 19 {
        None
    } else {
        match (
            field(b, 0, 4),
            field(b, 5, 7),
            field(b, 8, 10),
            field(b, 11, 13),
            field(b, 14, 16),
            field(b, 17, 19),
        ) {
            (Some(year), Some(month), Some(day), Some(hour), Some(minute), Some(second)) => Some(
                days_from_civil(year, month, day) * 86_400 + hour * 3_600 + minute * 60 + second,
            ),
            _ => None,
        }
    }
}

proof fn lemma_ascii_digits_value_bound(d: Seq<u8>)
    requires
        forall|i: int| 0 <= i < d.len() ==> is_ascii_digit(#[trigger] d[i]),
    ensures
        0 <= ascii_digits_value(d),
        d.len() <= 1 ==> ascii_digits_value(d) <= 9,
        d.len() <= 2 ==> ascii_digits_value(d) <= 99,
        d.len() <= 3 ==> ascii_digits_value(d) <= 999,
        d.len() <= 4 ==> ascii_digits_value(d) <= 9999,
    decreases d.len(),
{
    if d.len() > 0 {
        let t = d.drop_last();
        assert forall|i: int| 0 <= i < t.len() implies is_ascii_digit(#[trigger] t[i]) by {
            assert(t[i] == d[i]);
        }
        lemma_ascii_digits_value_bound(t);
        assert(is_ascii_digit(d[d.len() - 1]));
    }
}

/// Parses bytes `b[from..to]` (at most four) as an `i64`.
fn parse_field(b: &[u8], from: usize, to: usize) -> (r: Option<i64>)
    requires
        from < to <= b.len(),
        to - from <= 4,
    ensures
        match r {
            Some(v) => field(b@, from as int, to as int) == Some(v as int) && -999 <= v <= 9999 && (
                to - from <= 2 ==> -9 <= v <= 99),
            None => field(b@, from as int, to as int) is None,
        },
{
    let ghost s = b@.subrange(from as int, to as int);
    let signed = b[from] == 43 || b[from] == 45;
    assert(b@.subrange(from as int, to as int)[0] == b@[from as int]);
    let negative = b[from] == 45;
    let start = if signed {
        from + 1
    } else {
        from
    };
    let ghost body = b@.subrange(start as int, to as int);
    assert(s[0] == b@[from as int]);
    assert(body =~= digits_part(s));
    if start == to {
        return None;
    }
    let mut value: i64 = 0;
    let mut i = start;
    assert(b@.subrange(start as int, start as int) =~= Seq::<u8>::empty());
    while i < to
        invariant
            from <= start < to <= b.len(),
            to - from <= 4,
            start <= i <= to,
            body == b@.subrange(start as int, to as int),
            forall|k: int| start <= k < i ==> is_ascii_digit(#[trigger] b@[k]),
            value == ascii_digits_value(b@.subrange(start as int, i as int)),
            0 <= value <= 9999,
            signed == has_sign(s),
            negative == (s[0] == 45),
            s == b@.subrange(from as int, to as int),
            body == digits_part(s),
        decreases to - i,
    {
        let c = b[i];
        if !(48 <= c && c <= 57) {
            assert(!is_ascii_digit(body[i - start]));
            return None;
        }
        let ghost pre = b@.subrange(start as int, (i + 1) as int);
        let ghost done = b@.subrange(start as int, i as int);
        assert(pre.drop_last() =~= done);
        assert(pre.last() == c);
        proof {
            assert forall|k: int| 0 <= k < done.len() implies is_ascii_digit(#[trigger] done[k]) by {
                assert(done[k] == b@[start + k]);
            }
            lemma_ascii_digits_value_bound(done);
        }
        value = value * 10 + (c - 48) as i64;
        i = i + 1;
    }
    assert(b@.subrange(start as int, to as int) =~= body);
    assert forall|k: int| 0 <= k < body.len() implies is_ascii_digit(#[trigger] body[k]) by {
        assert(body[k] == b@[start + k]);
    }
    proof {
        lemma_ascii_digits_value_bound(body);
        assert(value == ascii_digits_value(digits_part(s)));
    }
    if negative {
        Some(-value)
    } else {
        Some(value)
    }
}

/// Seconds since the Unix epoch at `year-month-day hour:minute:second`, by
/// `days_from_civil`, for fields of at most four characters.
fn civil_seconds(year: i64, month: i64, day: i64, hour: i64, minute: i64, second: i64) -> (r: i64)
    requires
        -999 <= year <= 9999,
        -9 <= month <= 99,
        -9 <= day <= 99,
        -9 <= hour <= 99,
        -9 <= minute <= 99,
        -9 <= second <= 99,
    ensures
        r == days_from_civil(year as int, month as int, day as int) * 86_400 + hour * 3_600
            + minute * 60 + second,
        -1_000_000_000_000 <= r <= 1_000_000_000_000,
{
    let y = if month <= 2 {
        year - 1
    } else {
        year
    };
    let era = if y >= 0 {
        y / 400
    } else {
        -((399 - y) / 400)
    };
    assert(era == y / 400 && -3 <= era <= 25) by (nonlinear_arith)
        requires
            -1000 <= y <= 9999,
            era == (if y >= 0 { y / 400 } else { -((399 - y) / 400) }),
    ;
    let yoe = y - era * 400;
    assert(0 <= yoe < 400) by (nonlinear_arith)
        requires
            era == y / 400,
            yoe == y - era * 400,
    ;
    let mp = (month + 9) % 12;
    assert(0 <= mp < 12);
    let doy = (153 * mp + 2) / 5 + day - 1;
    assert(0 <= (153 * mp + 2) / 5 <= 337);
    let doe = yoe * 365 + yoe / 4 - yoe / 100 + doy;
    let days = era * 146_097 + doe - 719_468;
    assert(-3 * 146_097 - 719_468 - 2000 <= days <= 25 * 146_097 + 400 * 366 + 10_400);
    days * 86_400 + hour * 3_600 + minute * 60 + second
}

/// Seconds since the Unix epoch for an RFC 3339 UTC timestamp; `None` for anything
/// that cannot be read, so a corrupt row drops out of the weekly window instead of
/// breaking every count.
pub fn parse_rfc3339_secs(ts: &str) -> (r: Option<i64>)
    ensures
        match r {
            Some(v) => rfc3339_secs(vstd::utf8::encode_utf8(ts@)) == Some(v as int)
                && -1_000_000_000_000 <= v <= 1_000_000_000_000,
            None => rfc3339_secs(vstd::utf8::encode_utf8(ts@)) is None,
        },
{
    let b = ts.as_bytes();
    if b.len() < 19 {
        return None;
    }
    let year = match parse_field(b, 0, 4) {
        Some(v) => v,
        None => return None,
    };
    let month = match parse_field(b, 5, 7) {
        Some(v) => v,
        None => return None,
    };
    let day = match parse_field(b, 8, 10) {
        Some(v) => v,
        None => return None,
    };
    let hour = match parse_field(b, 11, 13) {
        Some(v) => v,
        None => return None,
    };
    let minute = match parse_field(b, 14, 16) {
        Some(v) => v,
        None => return None,
    };
    let second = match parse_field(b, 17, 19) {
        Some(v) => v,
        None => return None,
    };
    Some(civil_seconds(year, month, day, hour, minute, second))
}

// ---------------------------------------------------------------------------
// Tally
// ---------------------------------------------------------------------------

/// Seconds in the weekly window.
pub const WEEK_SECS: i64 = 604_800;

/// The counts behind the usage stats.
pub struct Tally {
    /// Number of dictations recorded.
    pub dictations: usize,
    /// Total words across every cleaned transcript.
    pub words: usize,
    /// Dictations in the seven days up to now.
    pub dictations_this_week: usize,
    /// Words in the seven days up to now.
    pub words_this_week: usize,
    /// The app dictated into most often, with its number of dictations.
    pub top_app: Option<(String, usize)>,
}

/// The app an entry was dictated into, when it names one.
pub open spec fn app_name(e: HistoryEntry) -> Option<Seq<char>> {
    match e.app {
        Some(a) => if a@.len() > 0 {
            Some(a@)
        } else {
            None
        },
        None => None,
    }
}

/// How many entries were dictated into `name`.
pub open spec fn app_count(entries: Seq<HistoryEntry>, name: Seq<char>) -> nat
    decreases entries.len(),
{
    if entries.len() == 0 {
        0
    } else {
        app_count(entries.drop_last(), name) + if app_name(entries.last()) == Some(name) {
            1nat
        } else {
            0nat
        }
    }
}

/// Words across every entry's cleaned text.
pub open spec fn total_words(entries: Seq<HistoryEntry>) -> nat
    decreases entries.len(),
{
    if entries.len() == 0 {
        0
    } else {
        total_words(entries.drop_last()) + words_in(entries.last().cleaned@)
    }
}

/// Whether an entry falls in the seven days up to `now` (seconds): both it and
/// `now` must have readable timestamps.
pub open spec fn in_week(e: HistoryEntry, now: Option<int>) -> bool {
    match now {
        Some(n) => match rfc3339_secs(vstd::utf8::encode_utf8(e.timestamp@)) {
            Some(at) => at >= n - 604_800,
            None => false,
        },
        None => false,
    }
}

/// How many entries fall in the week up to `now`.
pub open spec fn week_count(entries: Seq<HistoryEntry>, now: Option<int>) -> nat
    decreases entries.len(),
{
    if entries.len() == 0 {
        0
    } else {
        week_count(entries.drop_last(), now) + if in_week(entries.last(), now) {
            1nat
        } else {
            0nat
        }
    }
}

/// Words in the entries that fall in the week up to `now`.
pub open spec fn week_words(entries: Seq<HistoryEntry>, now: Option<int>) -> nat
    decreases entries.len(),
{
    if entries.len() == 0 {
        0
    } else {
        week_words(entries.drop_last(), now) + if in_week(entries.last(), now) {
            words_in(entries.last().cleaned@)
        } else {
            0nat
        }
    }
}

/// `name` with `count` dictations is the top app: no app has more, and any app with
/// as many sorts after it by name.
pub open spec fn is_top_app(entries: Seq<HistoryEntry>, name: Seq<char>, count: nat) -> bool {
    &&& count > 0
    &&& count == app_count(entries, name)
    &&& forall|j: int|
        0 <= j < entries.len() ==> match app_name(#[trigger] entries[j]) {
            Some(m) => m == name || app_count(entries, m) < count || (app_count(entries, m)
                == count && text_order(name, m) < 0),
            None => true,
        }
}

proof fn lemma_total_words_prefix(entries: Seq<HistoryEntry>, i: int)
    requires
        0 <= i <= entries.len(),
    ensures
        total_words(entries.take(i)) <= total_words(entries),
    decreases entries.len() - i,
{
    if i < entries.len() {
        lemma_total_words_prefix(entries, i + 1);
        assert(entries.take(i + 1).drop_last() =~= entries.take(i));
    } else {
        assert(entries.take(i) =~= entries);
    }
}

proof fn lemma_app_count_positive(entries: Seq<HistoryEntry>, j: int)
    requires
        0 <= j < entries.len(),
        app_name(entries[j]) is Some,
    ensures
        app_count(entries, app_name(entries[j])->0) > 0,
    decreases entries.len(),
{
    if j < entries.len() - 1 {
        assert(entries.drop_last()[j] == entries[j]);
        lemma_app_count_positive(entries.drop_last(), j);
    }
}

proof fn lemma_app_count_means_present(entries: Seq<HistoryEntry>, name: Seq<char>)
    requires
        app_count(entries, name) > 0,
    ensures
        exists|j: int| 0 <= j < entries.len() && app_name(#[trigger] entries[j]) == Some(name),
    decreases entries.len(),
{
    if app_name(entries.last()) != Some(name) {
        lemma_app_count_means_present(entries.drop_last(), name);
        let j = choose|j: int|
            0 <= j < entries.drop_last().len() && app_name(#[trigger] entries.drop_last()[j])
                == Some(name);
        assert(entries[j] == entries.drop_last()[j]);
    } else {
        assert(entries[entries.len() - 1] == entries.last());
    }
}

/// The weekly counts never exceed the overall ones.
pub proof fn lemma_week_within_total(entries: Seq<HistoryEntry>, now: Option<int>)
    ensures
        week_count(entries, now) <= entries.len(),
        week_words(entries, now) <= total_words(entries),
    decreases entries.len(),
{
    if entries.len() > 0 {
        lemma_week_within_total(entries.drop_last(), now);
    }
}

/// Word totals count each entry's cleaned text: adding an entry adds the words of its
/// cleaned text to the total, and to the week's words when it falls in the week.
pub proof fn lemma_words_come_from_cleaned_text(
    entries: Seq<HistoryEntry>,
    entry: HistoryEntry,
    now: Option<int>,
)
    ensures
        total_words(seq![entry]) == words_in(entry.cleaned@),
        total_words(entries.push(entry)) == total_words(entries) + words_in(entry.cleaned@),
        week_words(entries.push(entry), now) == week_words(entries, now) + if in_week(
            entry,
            now,
        ) {
            words_in(entry.cleaned@)
        } else {
            0
        },
{
    assert(entries.push(entry).drop_last() =~= entries);
    assert(seq![entry].drop_last() =~= Seq::<HistoryEntry>::empty());
    assert(total_words(Seq::<HistoryEntry>::empty()) == 0);
    assert(seq![entry].last() == entry);
    assert(total_words(seq![entry]) == total_words(seq![entry].drop_last()) + words_in(
        entry.cleaned@,
    ));
}

/// Only the cleaned text and the timestamp of an entry bear on the word totals: two
/// histories that agree on those agree on the total and the weekly words, whatever
/// their raw transcripts, apps or other fields hold.
pub proof fn lemma_words_ignore_other_fields(
    a: Seq<HistoryEntry>,
    b: Seq<HistoryEntry>,
    now: Option<int>,
)
    requires
        a.len() == b.len(),
        forall|i: int|
            0 <= i < a.len() ==> (#[trigger] a[i]).cleaned@ == b[i].cleaned@ && a[i].timestamp@
                == b[i].timestamp@,
    ensures
        total_words(a) == total_words(b),
        week_words(a, now) == week_words(b, now),
    decreases a.len(),
{
    if a.len() > 0 {
        let n = a.len() - 1;
        assert(a.last() == a[n]);
        assert(b.last() == b[n]);
        assert forall|i: int| 0 <= i < a.drop_last().len() implies (
        #[trigger] a.drop_last()[i]).cleaned@ == b.drop_last()[i].cleaned@
            && a.drop_last()[i].timestamp@ == b.drop_last()[i].timestamp@ by {
            assert(a.drop_last()[i] == a[i]);
            assert(b.drop_last()[i] == b[i]);
        }
        lemma_words_ignore_other_fields(a.drop_last(), b.drop_last(), now);
    }
}

/// Finds `name` among the first fields of `counts`, or `counts.len()`.
fn find_app(counts: &Vec<(String, usize)>, name: &String) -> (k: usize)
    ensures
        k <= counts.len(),
        forall|j: int| 0 <= j < k ==> counts@[j].0@ != name@,
        k < counts.len() ==> counts@[k as int].0@ == name@,
{
    let mut k: usize = 0;
    while k < counts.len()
        invariant
            k <= counts.len(),
            forall|j: int| 0 <= j < k ==> counts@[j].0@ != name@,
        decreases counts.len() - k,
    {
        if counts[k].0 == *name {
            return k;
        }
        k = k + 1;
    }
    k
}

/// The counts behind the usage stats for `entries`, with the weekly window ending at
/// `now_rfc3339`.
///
/// The time is passed in rather than read from the clock so the window is testable.
/// The top app is the one with the most dictations, ties going to the name that
/// sorts first; entries without an app do not count towards it.
pub fn tally(entries: &[HistoryEntry], now_rfc3339: &str) -> (t: Tally)
    requires
        total_words(entries@) <= usize::MAX,
    ensures
        t.dictations == entries.len(),
        t.words == total_words(entries@),
        t.dictations_this_week == week_count(
            entries@,
            rfc3339_secs(vstd::utf8::encode_utf8(now_rfc3339@)),
        ),
        t.words_this_week == week_words(
            entries@,
            rfc3339_secs(vstd::utf8::encode_utf8(now_rfc3339@)),
        ),
        match t.top_app {
            None => forall|j: int| 0 <= j < entries.len() ==> app_name(#[trigger] entries@[j]) is None,
            Some((name, count)) => is_top_app(entries@, name@, count as nat),
        },
{
    let ghost all = entries@;
    let ghost now = rfc3339_secs(vstd::utf8::encode_utf8(now_rfc3339@));
    let now_secs = parse_rfc3339_secs(now_rfc3339);
    let mut words: usize = 0;
    let mut week_dictations: usize = 0;
    let mut week_words_count: usize = 0;
    let mut counts: Vec<(String, usize)> = Vec::new();
    let mut i: usize = 0;
    assert(all.take(0) =~= Seq::<HistoryEntry>::empty());
    while i < entries.len()
        invariant
            i <= entries.len(),
            all == entries@,
            total_words(all) <= usize::MAX,
            now_secs matches Some(v) ==> now == Some(v as int) && -1_000_000_000_000 <= v
                <= 1_000_000_000_000,
            now_secs is None ==> now is None,
            words == total_words(all.take(i as int)),
            week_dictations == week_count(all.take(i as int), now),
            week_words_count == week_words(all.take(i as int), now),
            week_dictations <= i,
            week_words_count <= words,
            forall|k: int|
                0 <= k < counts.len() ==> (#[trigger] counts@[k]).0@.len() > 0 && counts@[k].1
                    == app_count(all.take(i as int), counts@[k].0@) && counts@[k].1 <= i
                    && counts@[k].1 > 0,
            forall|k1: int, k2: int|
                0 <= k1 < k2 < counts.len() ==> (#[trigger] counts@[k1]).0@ != (
                #[trigger] counts@[k2]).0@,
            forall|j: int|
                0 <= j < i ==> match app_name(#[trigger] all[j]) {
                    Some(m) => exists|k: int| 0 <= k < counts.len() && (#[trigger] counts@[k]).0@ == m,
                    None => true,
                },
        decreases entries.len() - i,
    {
        let e = &entries[i];
        let ghost prev = all.take(i as int);
        let ghost next = all.take(i + 1);
        assert(next.drop_last() =~= prev);
        assert(next.last() == *e);
        proof {
            lemma_total_words_prefix(all, i + 1);
        }
        let w = word_count(e.cleaned.as_str());
        words = words + w;
        let recent = match now_secs {
            Some(n) => match parse_rfc3339_secs(e.timestamp.as_str()) {
                Some(at) => at >= n - WEEK_SECS,
                None => false,
            },
            None => false,
        };
        if recent {
            week_dictations = week_dictations + 1;
            week_words_count = week_words_count + w;
        }
        let ghost old_counts = counts@;
        let ghost found: int = -1;
        match &e.app {
            Some(a) => {
                if !a.as_str().is_empty() {
                    let k = find_app(&counts, a);
                    if k < counts.len() {
                        let c = counts[k].1;
                        let name = counts[k].0.clone();
                        counts.set(k, (name, c + 1));
                        proof {
                            found = k as int;
                        }
                    } else {
                        proof {
                            if app_count(prev, a@) > 0 {
                                lemma_app_count_means_present(prev, a@);
                                let j = choose|j: int|
                                    0 <= j < prev.len() && app_name(#[trigger] prev[j]) == Some(a@);
                                assert(prev[j] == all[j]);
                            }
                        }
                        counts.push((a.clone(), 1));
                    }
                }
            },
            None => {},
        }
        proof {
            assert forall|k: int| 0 <= k < counts.len() implies (#[trigger] counts@[k]).0@.len()
                > 0 && counts@[k].1 == app_count(next, counts@[k].0@) && counts@[k].1 <= i + 1
                && counts@[k].1 > 0 by {
                if k < old_counts.len() {
                    assert(old_counts[k].1 == app_count(prev, old_counts[k].0@));
                    if k == found {
                        assert(app_name(*e) == Some(counts@[k].0@));
                    } else {
                        assert(counts@[k] == old_counts[k]);
                        assert(app_name(*e) != Some(counts@[k].0@));
                    }
                } else {
                    assert(app_name(*e) == Some(counts@[k].0@));
                }
            }
            assert forall|j: int| 0 <= j < i + 1 implies match app_name(#[trigger] all[j]) {
                Some(m) => exists|k: int| 0 <= k < counts.len() && (#[trigger] counts@[k]).0@ == m,
                None => true,
            } by {
                if j < i {
                    match app_name(all[j]) {
                        Some(m) => {
                            let k = choose|k: int|
                                0 <= k < old_counts.len() && (#[trigger] old_counts[k]).0@ == m;
                            assert(counts@[k].0@ == old_counts[k].0@);
                        },
                        None => {},
                    }
                } else {
                    match app_name(all[j]) {
                        Some(m) => {
                            assert(all[j] == *e);
                            if (exists|k: int| 0 <= k < old_counts.len() && (#[trigger] old_counts[k]).0@ == m) {
                                let k = choose|k: int|
                                    0 <= k < old_counts.len() && (#[trigger] old_counts[k]).0@ == m;
                                assert(counts@[k].0@ == old_counts[k].0@);
                            } else {
                                assert(counts@[counts.len() - 1].0@ == m);
                            }
                        },
                        None => {},
                    }
                }
            }
        }
        i = i + 1;
    }
    assert(all.take(entries.len() as int) =~= all);
    // The app with the most dictations, ties to the name that sorts first.
    let mut best: usize = 0;
    let mut k: usize = 1;
    if counts.len() > 0 {
        while k < counts.len()
            invariant
                0 < counts.len(),
                best < k <= counts.len(),
                forall|k1: int, k2: int|
                    0 <= k1 < k2 < counts.len() ==> (#[trigger] counts@[k1]).0@ != (
                    #[trigger] counts@[k2]).0@,
                forall|j: int|
                    0 <= j < k && j != best ==> (#[trigger] counts@[j]).1 < counts@[best as int].1
                        || (counts@[j].1 == counts@[best as int].1 && text_order(
                        counts@[best as int].0@,
                        counts@[j].0@,
                    ) < 0),
            decreases counts.len() - k,
        {
            let better = counts[k].1 > counts[best].1 || (counts[k].1 == counts[best].1
                && compare_text(&counts[k].0, &counts[best].0) < 0);
            proof {
                lemma_text_order_facts(counts@[k as int].0@, counts@[best as int].0@);
            }
            if better {
                proof {
                    assert forall|j: int| 0 <= j < k + 1 && j != k implies (#[trigger] counts@[j]).1
                        < counts@[k as int].1 || (counts@[j].1 == counts@[k as int].1 && text_order(
                        counts@[k as int].0@,
                        counts@[j].0@,
                    ) < 0) by {
                        lemma_text_order_facts(counts@[j].0@, counts@[best as int].0@);
                        lemma_text_order_facts(counts@[k as int].0@, counts@[j].0@);
                        if j != best && counts@[j].1 == counts@[k as int].1 {
                            lemma_text_order_trans(
                                counts@[j].0@,
                                counts@[best as int].0@,
                                counts@[k as int].0@,
                            );
                        }
                    }
                }
                best = k;
            }
            k = k + 1;
        }
    }
    let top_app = if counts.len() > 0 {
        let name = counts[best].0.clone();
        let c = counts[best].1;
        assert(counts@[best as int].1 == app_count(all, name@));
        proof {
            assert forall|j: int| 0 <= j < all.len() implies match app_name(#[trigger] all[j]) {
                Some(m) => m == name@ || app_count(all, m) < c || (app_count(all, m) == c
                    && text_order(name@, m) < 0),
                None => true,
            } by {
                match app_name(all[j]) {
                    Some(m) => {
                        let q = choose|q: int| 0 <= q < counts.len() && (#[trigger] counts@[q]).0@ == m;
                        assert(counts@[q].1 == app_count(all, m));
                    },
                    None => {},
                }
            }
        }
        Some((name, c))
    } else {
        proof {
            assert forall|j: int| 0 <= j < entries@.len() implies app_name(
                #[trigger] entries@[j],
            ) is None by {
                assert(all[j] == entries@[j]);
                match app_name(all[j]) {
                    Some(m) => {
                        let q = choose|q: int| 0 <= q < counts.len() && (#[trigger] counts@[q]).0@ == m;
                    },
                    None => {},
                }
            }
        }
        None
    };
    Tally {
        dictations: entries.len(),
        words,
        dictations_this_week: week_dictations,
        words_this_week: week_words_count,
        top_app,
    }
}

} // verus!
