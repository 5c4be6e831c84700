//! Comparing release versions.
//!
//! Only what a self-published app needs: dotted numeric versions, optionally with a
//! leading `v` from a git tag and optionally with a pre-release suffix. Anything that
//! cannot be parsed is treated as "not newer", so a malformed tag on the release page
//! can never prompt someone to downgrade.

use std::cmp::Ordering;
use vstd::prelude::*;
use crate::text::{chars_of, is_space, string_of, trim, trim_bounds};

verus! {

// ---------------------------------------------------------------------------
// The model
// ---------------------------------------------------------------------------

/// A version as compared here: its numeric parts and its pre-release suffix, if any.
pub type VersionModel = (Seq<u64>, Option<Seq<char>>);

/// `s` without its leading `v` and `V` characters (`trim_start_matches(['v', 'V'])`).
pub open spec fn strip_tag_prefix(s: Seq<char>) -> Seq<char>
    decreases s.len(),
{
    if s.len() > 0 && (s[0] == 'v' || s[0] == 'V') {
        strip_tag_prefix(s.drop_first())
    } else {
        s
    }
}

/// Index of the first `c` in `s`.
pub open spec fn index_of_first(s: Seq<char>, c: char) -> Option<int>
    decreases s.len(),
{
    if s.len() == 0 {
        None
    } else if s[0] == c {
        Some(0)
    } else {
        match index_of_first(s.drop_first(), c) {
            Some(k) => Some(k + 1),
            None => None,
        }
    }
}

/// Whether `c` is an ASCII decimal digit.
pub open spec fn is_digit(c: char) -> bool {
    '0' <= c && c <= '9'
}

/// The decimal value of a digit character.
pub open spec fn digit_value(c: char) -> int {
    (c as int) - ('0' as int)
}

/// The decimal value of a run of digits, most significant first.
pub open spec fn digits_value(d: Seq<char>) -> int
    decreases d.len(),
{
    if d.len() == 0 {
        0
    } else {
        digits_value(d.drop_last()) * 10 + digit_value(d.last())
    }
}

/// `seg` without a leading `+`.
pub open spec fn unsigned_body(seg: Seq<char>) -> Seq<char> {
    if seg.len() > 0 && seg[0] == '+' {
        seg.drop_first()
    } else {
        seg
    }
}

/// `str::parse::<u64>`: an optional `+`, then one or more ASCII digits whose value
/// fits in a `u64`.
pub open spec fn parse_u64(seg: Seq<char>) -> Option<u64> {
    let body = unsigned_body(seg);
    if body.len() > 0 && (forall|i: int| 0 <= i < body.len() ==> is_digit(#[trigger] body[i]))
        && digits_value(body) <= u64::MAX {
        Some(digits_value(body) as u64)
    } else {
        None
    }
}

/// The numbers of a `.`-separated list, when every piece parses as a `u64`.
pub open spec fn parse_dotted(s: Seq<char>) -> Option<Seq<u64>>
    decreases s.len(),
{
    match index_of_first(s, '.') {
        None => match parse_u64(s) {
            Some(x) => Some(seq![x]),
            None => None,
        },
        Some(k) => if 0 <= k < s.len() {
            match (parse_u64(s.subrange(0, k)), parse_dotted(s.subrange(k + 1, s.len() as int))) {
                (Some(x), Some(rest)) => Some(seq![x] + rest),
                _ => None,
            }
        } else {
            None
        },
    }
}

/// The version that `raw` denotes, or `None` when it is not one.
///
/// Surrounding whitespace and leading `v`/`V` characters are ignored. The text up to
/// the first `-` is the numbers; what follows it, which must not be empty, is the
/// pre-release suffix.
pub open spec fn parse_version(raw: Seq<char>) -> Option<VersionModel> {
    let s = strip_tag_prefix(trim(raw));
    if s.len() == 0 {
        None
    } else {
        match index_of_first(s, '-') {
            Some(k) => if k + 1 >= s.len() {
                None
            } else {
                match parse_dotted(s.subrange(0, k)) {
                    Some(parts) => Some((parts, Some(s.subrange(k + 1, s.len() as int)))),
                    None => None,
                }
            },
            None => match parse_dotted(s) {
                Some(parts) => Some((parts, None)),
                None => None,
            },
        }
    }
}

/// The first number of `p`, or 0 when `p` has run out.
pub open spec fn head_or_zero(p: Seq<u64>) -> int {
    if p.len() > 0 {
        p[0] as int
    } else {
        0
    }
}

/// `p` without its first number (empty stays empty).
pub open spec fn tail_of(p: Seq<u64>) -> Seq<u64> {
    if p.len() > 0 {
        p.drop_first()
    } else {
        p
    }
}

/// Compares numeric parts, padding the shorter list with zeros: -1, 0 or 1.
pub open spec fn parts_order(a: Seq<u64>, b: Seq<u64>) -> int
    decreases a.len() + b.len(),
{
    if a.len() == 0 && b.len() == 0 {
        0
    } else if head_or_zero(a) < head_or_zero(b) {
        -1
    } else if head_or_zero(a) > head_or_zero(b) {
        1
    } else {
        parts_order(tail_of(a), tail_of(b))
    }
}

/// Lexicographic order of two character sequences (a proper prefix sorts first):
/// -1, 0 or 1. On UTF-8 text this is the byte order `String` compares by.
pub open spec fn text_order(x: Seq<char>, y: Seq<char>) -> int
    decreases x.len(),
{
    if x.len() == 0 && y.len() == 0 {
        0
    } else if x.len() == 0 {
        -1
    } else if y.len() == 0 {
        1
    } else if (x[0] as int) < (y[0] as int) {
        -1
    } else if (x[0] as int) > (y[0] as int) {
        1
    } else {
        text_order(x.drop_first(), y.drop_first())
    }
}

/// How two versions compare: -1, 0 or 1. Numbers decide first; with equal numbers a
/// release outranks a pre-release of itself, and two pre-releases compare as text.
pub open spec fn version_order(a: VersionModel, b: VersionModel) -> int {
    let p = parts_order(a.0, b.0);
    if p != 0 {
        p
    } else {
        match (a.1, b.1) {
            (None, None) => 0,
            (None, Some(_)) => 1,
            (Some(_), None) => -1,
            (Some(x), Some(y)) => text_order(x, y),
        }
    }
}

/// Whether `remote` denotes a version that strictly leads `local`.
pub open spec fn newer(local: Seq<char>, remote: Seq<char>) -> bool {
    match (parse_version(local), parse_version(remote)) {
        (Some(l), Some(r)) => version_order(r, l) > 0,
        _ => false,
    }
}

// ---------------------------------------------------------------------------
// Lemmas about the model
// ---------------------------------------------------------------------------

proof fn lemma_strip_step(s: Seq<char>, i: int, j: int)
    requires
        0 <= i < j <= s.len(),
        s[i] == 'v' || s[i] == 'V',
    ensures
        strip_tag_prefix(s.subrange(i, j)) == strip_tag_prefix(s.subrange(i + 1, j)),
{
    assert(s.subrange(i, j).drop_first() =~= s.subrange(i + 1, j));
}

/// `index_of_first` finds the first `c`: at `k` when `s[k] == c` and nothing before
/// it is `c`, and nowhere when `k` is the length.
proof fn lemma_index_of_first(s: Seq<char>, c: char, k: int)
    requires
        0 <= k <= s.len(),
        forall|i: int| 0 <= i < k ==> s[i] != c,
        k < s.len() ==> s[k] == c,
    ensures
        index_of_first(s, c) == (if k < s.len() {
            Some(k)
        } else {
            None::<int>
        }),
    decreases s.len(),
{
    if s.len() == 0 {
    } else if s[0] == c {
    } else {
        let t = s.drop_first();
        assert forall|i: int| 0 <= i < k - 1 implies t[i] != c by {
            assert(t[i] == s[i + 1]);
        }
        if k < s.len() {
            assert(t[k - 1] == s[k]);
        }
        lemma_index_of_first(t, c, k - 1);
    }
}

proof fn lemma_digits_value_nonneg(d: Seq<char>)
    requires
        forall|i: int| 0 <= i < d.len() ==> is_digit(#[trigger] d[i]),
    ensures
        digits_value(d) >= 0,
    decreases d.len(),
{
    if d.len() > 0 {
        let t = d.drop_last();
        assert forall|i: int| 0 <= i < t.len() implies is_digit(#[trigger] t[i]) by {
            assert(t[i] == d[i]);
        }
        lemma_digits_value_nonneg(t);
        assert(is_digit(d[d.len() - 1]));
    }
}

/// A prefix of a run of digits is worth no more than the whole run.
proof fn lemma_digits_value_prefix(d: Seq<char>, k: int)
    requires
        0 <= k <= d.len(),
        forall|i: int| 0 <= i < d.len() ==> is_digit(#[trigger] d[i]),
    ensures
        digits_value(d.take(k)) <= digits_value(d),
    decreases d.len(),
{
    if k < d.len() {
        let t = d.drop_last();
        assert forall|i: int| 0 <= i < t.len() implies is_digit(#[trigger] t[i]) by {
            assert(t[i] == d[i]);
        }
        lemma_digits_value_prefix(t, k);
        assert(t.take(k) =~= d.take(k));
        lemma_digits_value_nonneg(t);
        assert(is_digit(d[d.len() - 1]));
    } else {
        assert(d.take(k) =~= d);
    }
}

// ---------------------------------------------------------------------------
// Parsing
// ---------------------------------------------------------------------------

/// A parsed version: numeric parts plus the pre-release suffix, if any, which sorts
/// before the same numbers without one.
struct Version {
    parts: Vec<u64>,
    prerelease: Option<String>,
}

impl Version {
    spec fn model(&self) -> VersionModel {
        (
            self.parts@,
            match self.prerelease {
                Some(p) => Some(p@),
                None => None,
            },
        )
    }
}

/// `str::parse::<u64>` on `v[a..b]`.
fn parse_u64_at(v: &Vec<char>, a: usize, b: usize) -> (r: Option<u64>)
    requires
        a <= b <= v.len(),
    ensures
        r == parse_u64(v@.subrange(a as int, b as int)),
{
    let ghost seg = v@.subrange(a as int, b as int);
    let mut start = a;
    if start < b && v[start] == '+' {
        start = start + 1;
    }
    let ghost body = v@.subrange(start as int, b as int);
    assert(body =~= unsigned_body(seg));
    if start == b {
        return None;
    }
    let mut acc: u64 = 0;
    let mut i = start;
    assert(v@.subrange(start as int, start as int) =~= Seq::<char>::empty());
    while i < b
        invariant
            a <= start < b <= v.len(),
            start <= i <= b,
            body == v@.subrange(start as int, b as int),
            seg == v@.subrange(a as int, b as int),
            body == unsigned_body(seg),
            forall|k: int| start <= k < i ==> is_digit(#[trigger] v@[k]),
            acc == digits_value(v@.subrange(start as int, i as int)),
        decreases b - i,
    {
        let c = v[i];
        if !('0' <= c && c <= '9') {
            assert(!is_digit(body[i - start]));
            assert(!(forall|k: int| 0 <= k < body.len() ==> is_digit(#[trigger] body[k])));
            assert(parse_u64(seg) is None);
            return None;
        }
        let d: u64 = (c as u32 - '0' as u32) as u64;
        let ghost pre = v@.subrange(start as int, (i + 1) as int);
        assert(pre.drop_last() =~= v@.subrange(start as int, i as int));
        assert(pre.last() == c);
        assert(digits_value(pre) == acc * 10 + d);
        let next = match acc.checked_mul(10) {
            Some(m) => m.checked_add(d),
            None => None,
        };
        match next {
            Some(x) => {
                acc = x;
            },
            None => {
                proof {
                    if forall|k: int| 0 <= k < body.len() ==> is_digit(#[trigger] body[k]) {
                        lemma_digits_value_prefix(body, i + 1 - start);
                        assert(body.take(i + 1 - start) =~= pre);
                    }
                }
                return None;
            },
        }
        i = i + 1;
    }
    assert(v@.subrange(start as int, b as int) =~= body);
    assert forall|k: int| 0 <= k < body.len() implies is_digit(#[trigger] body[k]) by {
        assert(body[k] == v@[start + k]);
    }
    Some(acc)
}

/// Prepends `p` to the numbers of `rest`, if there are any.
spec fn prefix_parts(p: Seq<u64>, rest: Option<Seq<u64>>) -> Option<Seq<u64>> {
    match rest {
        Some(r) => Some(p + r),
        None => None,
    }
}

/// Finds the first `c` in `v[from..to]`, or `to`.
fn find_char(v: &Vec<char>, from: usize, to: usize, c: char) -> (m: usize)
    requires
        from <= to <= v.len(),
    ensures
        from <= m <= to,
        forall|k: int| from <= k < m ==> v@[k] != c,
        m < to ==> v@[m as int] == c,
        index_of_first(v@.subrange(from as int, to as int), c) == (if m < to {
            Some(m - from)
        } else {
            None::<int>
        }),
{
    let mut m = from;
    while m < to && v[m] != c
        invariant
            from <= m <= to <= v.len(),
            forall|k: int| from <= k < m ==> v@[k] != c,
        decreases to - m,
    {
        m = m + 1;
    }
    proof {
        let s = v@.subrange(from as int, to as int);
        assert forall|i: int| 0 <= i < m - from implies s[i] != c by {
            assert(s[i] == v@[from + i]);
        }
        lemma_index_of_first(s, c, m - from);
    }
    m
}

/// The `.`-separated numbers of `v[a..b]`.
fn parse_dotted_at(v: &Vec<char>, a: usize, b: usize) -> (r: Option<Vec<u64>>)
    requires
        a <= b <= v.len(),
    ensures
        match r {
            Some(p) => parse_dotted(v@.subrange(a as int, b as int)) == Some(p@),
            None => parse_dotted(v@.subrange(a as int, b as int)) is None,
        },
{
    let mut parts: Vec<u64> = Vec::new();
    let mut seg = a;
    assert(parts@ + Seq::<u64>::empty() =~= parts@);
    loop
        invariant
            a <= seg <= b <= v.len(),
            parse_dotted(v@.subrange(a as int, b as int)) == prefix_parts(
                parts@,
                parse_dotted(v@.subrange(seg as int, b as int)),
            ),
        decreases b - seg,
    {
        let m = find_char(v, seg, b, '.');
        let ghost s = v@.subrange(seg as int, b as int);
        let x = parse_u64_at(v, seg, m);
        proof {
            if m < b {
                assert(s.subrange(0, m - seg) =~= v@.subrange(seg as int, m as int));
                assert(s.subrange(m - seg + 1, s.len() as int) =~= v@.subrange(
                    m + 1,
                    b as int,
                ));
            } else {
                assert(s =~= v@.subrange(seg as int, m as int));
            }
        }
        match x {
            None => {
                return None;
            },
            Some(x) => {
                let ghost old_parts = parts@;
                parts.push(x);
                if m == b {
                    assert(old_parts + seq![x] =~= parts@);
                    return Some(parts);
                }
                proof {
                    let rest = parse_dotted(v@.subrange(m + 1, b as int));
                    match rest {
                        Some(r) => {
                            assert(old_parts + (seq![x] + r) =~= parts@ + r);
                        },
                        None => {},
                    }
                }
                seg = m + 1;
            },
        }
    }
}

/// The version `raw` denotes, if it is one.
fn parse(raw: &str) -> (r: Option<Version>)
    ensures
        match r {
            Some(ver) => parse_version(raw@) == Some(ver.model()),
            None => parse_version(raw@) is None,
        },
{
    let v = chars_of(raw);
    let (i, j) = trim_bounds(&v);
    let mut k = i;
    while k < j && (v[k] == 'v' || v[k] == 'V')
        invariant
            i <= k <= j <= v.len(),
            v@ == raw@,
            strip_tag_prefix(trim(raw@)) == strip_tag_prefix(v@.subrange(k as int, j as int)),
        decreases j - k,
    {
        proof {
            lemma_strip_step(v@, k as int, j as int);
        }
        k = k + 1;
    }
    let ghost s = v@.subrange(k as int, j as int);
    proof {
        if k < j {
            assert(s[0] == v@[k as int]);
        }
        assert(strip_tag_prefix(s) == s);
    }
    if k == j {
        return None;
    }
    let m = find_char(&v, k, j, '-');
    if m < j {
        if m + 1 >= j {
            return None;
        }
        assert(s.subrange(0, m - k) =~= v@.subrange(k as int, m as int));
        assert(s.subrange(m - k + 1, s.len() as int) =~= v@.subrange(m + 1, j as int));
        match parse_dotted_at(&v, k, m) {
            None => None,
            Some(parts) => {
                let pre = string_of(&v, m + 1, j);
                Some(Version { parts, prerelease: Some(pre) })
            },
        }
    } else {
        match parse_dotted_at(&v, k, j) {
            None => None,
            Some(parts) => Some(Version { parts, prerelease: None }),
        }
    }
}

// ---------------------------------------------------------------------------
// Comparing
// ---------------------------------------------------------------------------

/// The numbers of `p` from index `i` on.
spec fn parts_from(p: Seq<u64>, i: usize) -> Seq<u64> {
    if i < p.len() {
        p.subrange(i as int, p.len() as int)
    } else {
        Seq::empty()
    }
}

/// The `i`-th number of `p`, or 0 past its end.
spec fn part_at(p: Seq<u64>, i: usize) -> u64 {
    if i < p.len() {
        p[i as int]
    } else {
        0
    }
}

proof fn lemma_parts_from_step(p: Seq<u64>, i: usize)
    requires
        i < usize::MAX,
    ensures
        head_or_zero(parts_from(p, i)) == part_at(p, i),
        tail_of(parts_from(p, i)) == parts_from(p, (i + 1) as usize),
        parts_from(p, 0) == p,
{
    if i < p.len() {
        assert(parts_from(p, i).drop_first() =~= parts_from(p, (i + 1) as usize));
    }
    assert(p.subrange(0, p.len() as int) =~= p);
    if p.len() == 0 {
        assert(parts_from(p, 0) =~= p);
    }
}

fn number_at(p: &Vec<u64>, i: usize) -> (x: u64)
    ensures
        x == part_at(p@, i),
{
    if i < p.len() {
        p[i]
    } else {
        0
    }
}

/// Compares the numeric parts of two versions: -1, 0 or 1.
fn compare_parts(a: &Vec<u64>, b: &Vec<u64>) -> (r: i8)
    ensures
        -1 <= r <= 1,
        r == parts_order(a@, b@),
{
    let len = if a.len() > b.len() {
        a.len()
    } else {
        b.len()
    };
    let mut i: usize = 0;
    proof {
        lemma_parts_from_step(a@, 0);
        lemma_parts_from_step(b@, 0);
    }
    while i < len
        invariant
            i <= len,
            len == a.len() || len == b.len(),
            a.len() <= len,
            b.len() <= len,
            parts_order(a@, b@) == parts_order(parts_from(a@, i), parts_from(b@, i)),
        decreases len - i,
    {
        let x = number_at(a, i);
        let y = number_at(b, i);
        proof {
            lemma_parts_from_step(a@, i);
            lemma_parts_from_step(b@, i);
        }
        if x < y {
            return -1;
        }
        if x > y {
            return 1;
        }
        i = i + 1;
    }
    0
}

/// Compares two texts as `String` does: -1, 0 or 1.
pub(crate) fn compare_text(x: &String, y: &String) -> (r: i8)
    ensures
        -1 <= r <= 1,
        r == text_order(x@, y@),
{
    let xs = chars_of(x.as_str());
    let ys = chars_of(y.as_str());
    let mut i: usize = 0;
    assert(xs@.skip(0) =~= xs@);
    assert(ys@.skip(0) =~= ys@);
    while i < xs.len() && i < ys.len()
        invariant
            i <= xs.len(),
            i <= ys.len(),
            text_order(x@, y@) == text_order(xs@.skip(i as int), ys@.skip(i as int)),
            xs@ == x@,
            ys@ == y@,
        decreases xs.len() - i,
    {
        let c = xs[i];
        let d = ys[i];
        assert(xs@.skip(i as int)[0] == c);
        assert(ys@.skip(i as int)[0] == d);
        if c < d {
            return -1;
        }
        if c > d {
            return 1;
        }
        assert(xs@.skip(i as int).drop_first() =~= xs@.skip(i + 1));
        assert(ys@.skip(i as int).drop_first() =~= ys@.skip(i + 1));
        i = i + 1;
    }
    if xs.len() == i && ys.len() == i {
        0
    } else if xs.len() == i {
        -1
    } else {
        1
    }
}

/// What an `Ordering` says, as -1, 0 or 1.
spec fn sign_of(o: Ordering) -> int {
    if o == Ordering::Less {
        -1
    } else if o == Ordering::Equal {
        0
    } else {
        1
    }
}

/// Compares two versions, padding the shorter numbers with zeros so `0.4` and
/// `0.4.0` are equal; with equal numbers a release outranks a pre-release of itself.
fn cmp(a: &Version, b: &Version) -> (o: Ordering)
    ensures
        sign_of(o) == version_order(a.model(), b.model()),
{
    let p = compare_parts(&a.parts, &b.parts);
    if p < 0 {
        return Ordering::Less;
    }
    if p > 0 {
        return Ordering::Greater;
    }
    match (&a.prerelease, &b.prerelease) {
        (None, None) => Ordering::Equal,
        (None, Some(_)) => Ordering::Greater,
        (Some(_), None) => Ordering::Less,
        (Some(x), Some(y)) => {
            let t = compare_text(x, y);
            if t < 0 {
                Ordering::Less
            } else if t > 0 {
                Ordering::Greater
            } else {
                Ordering::Equal
            }
        },
    }
}

/// Is `remote` a newer version than `local`?
///
/// False when either side cannot be parsed, when they are equal, or when `remote`
/// is older, so the only way to prompt an update is a version that definitely leads.
pub fn is_newer(local: &str, remote: &str) -> (b: bool)
    ensures
        b == newer(local@, remote@),
{
    match (parse(local), parse(remote)) {
        (Some(l), Some(r)) => match cmp(&r, &l) {
            Ordering::Greater => true,
            _ => false,
        },
        _ => false,
    }
}

// ---------------------------------------------------------------------------
// Laws
// ---------------------------------------------------------------------------

proof fn lemma_parts_order_facts(a: Seq<u64>, b: Seq<u64>)
    ensures
        -1 <= parts_order(a, b) <= 1,
        parts_order(a, b) == -parts_order(b, a),
        parts_order(a, a) == 0,
    decreases a.len() + b.len(),
{
    lemma_parts_order_self(a);
    if a.len() == 0 && b.len() == 0 {
    } else {
        lemma_parts_order_facts(tail_of(a), tail_of(b));
    }
}

proof fn lemma_parts_order_self(a: Seq<u64>)
    ensures
        parts_order(a, a) == 0,
    decreases a.len(),
{
    if a.len() > 0 {
        lemma_parts_order_self(tail_of(a));
    }
}

proof fn lemma_parts_order_trans(a: Seq<u64>, b: Seq<u64>, c: Seq<u64>)
    ensures
        parts_order(a, b) == 0 ==> parts_order(a, c) == parts_order(b, c),
        parts_order(a, b) > 0 && parts_order(b, c) > 0 ==> parts_order(a, c) > 0,
        parts_order(a, b) < 0 && parts_order(b, c) < 0 ==> parts_order(a, c) < 0,
    decreases a.len() + b.len() + c.len(),
{
    if a.len() == 0 && b.len() == 0 && c.len() == 0 {
    } else {
        lemma_parts_order_trans(tail_of(a), tail_of(b), tail_of(c));
        if a.len() == 0 && b.len() == 0 {
            assert(a =~= b);
        }
        if b.len() == 0 && c.len() == 0 {
            assert(b =~= c);
        }
        if a.len() == 0 && c.len() == 0 {
            assert(a =~= c);
        }
    }
}

pub(crate) proof fn lemma_text_order_facts(x: Seq<char>, y: Seq<char>)
    ensures
        -1 <= text_order(x, y) <= 1,
        text_order(x, y) == -text_order(y, x),
        text_order(x, y) == 0 <==> x == y,
    decreases x.len(),
{
    if x.len() == 0 && y.len() == 0 {
        assert(x =~= y);
    } else if x.len() == 0 || y.len() == 0 {
    } else {
        lemma_text_order_facts(x.drop_first(), y.drop_first());
        if x.drop_first() == y.drop_first() && x[0] == y[0] {
            assert(x =~= seq![x[0]] + x.drop_first());
            assert(y =~= seq![y[0]] + y.drop_first());
        }
    }
}

pub(crate) proof fn lemma_text_order_trans(x: Seq<char>, y: Seq<char>, z: Seq<char>)
    requires
        text_order(x, y) > 0,
        text_order(y, z) > 0,
    ensures
        text_order(x, z) > 0,
    decreases x.len(),
{
    if x.len() > 0 && y.len() > 0 && z.len() > 0 && x[0] == y[0] && y[0] == z[0] {
        lemma_text_order_trans(x.drop_first(), y.drop_first(), z.drop_first());
    }
}

/// Every version compares equal to itself, so no version is newer than itself.
pub proof fn lemma_version_order_reflexive(v: VersionModel)
    ensures
        version_order(v, v) == 0,
{
    lemma_parts_order_facts(v.0, v.0);
    match v.1 {
        Some(x) => lemma_text_order_facts(x, x),
        None => {},
    }
}

/// Swapping the two versions flips the comparison.
pub proof fn lemma_version_order_antisymmetric(a: VersionModel, b: VersionModel)
    ensures
        version_order(a, b) == -version_order(b, a),
        -1 <= version_order(a, b) <= 1,
{
    lemma_parts_order_facts(a.0, b.0);
    match (a.1, b.1) {
        (Some(x), Some(y)) => lemma_text_order_facts(x, y),
        _ => {},
    }
}

/// "Newer than" is transitive on versions.
pub proof fn lemma_version_order_transitive(a: VersionModel, b: VersionModel, c: VersionModel)
    requires
        version_order(a, b) > 0,
        version_order(b, c) > 0,
    ensures
        version_order(a, c) > 0,
{
    lemma_parts_order_trans(a.0, b.0, c.0);
    lemma_parts_order_trans(b.0, a.0, c.0);
    lemma_parts_order_trans(a.0, c.0, b.0);
    lemma_parts_order_facts(a.0, b.0);
    lemma_parts_order_facts(b.0, c.0);
    lemma_parts_order_facts(a.0, c.0);
    match (a.1, b.1, c.1) {
        (Some(x), Some(y), Some(z)) => {
            if parts_order(a.0, b.0) == 0 && parts_order(b.0, c.0) == 0 {
                lemma_text_order_trans(x, y, z);
            }
        },
        _ => {},
    }
}

/// No version text is newer than itself.
pub proof fn lemma_is_newer_irreflexive(s: Seq<char>)
    ensures
        !newer(s, s),
{
    match parse_version(s) {
        Some(v) => lemma_version_order_reflexive(v),
        None => {},
    }
}

/// If `b` is newer than `a`, then `a` is not newer than `b`.
pub proof fn lemma_is_newer_asymmetric(a: Seq<char>, b: Seq<char>)
    requires
        newer(a, b),
    ensures
        !newer(b, a),
{
    lemma_version_order_antisymmetric(parse_version(a)->0, parse_version(b)->0);
}

/// If `b` is newer than `a` and `c` newer than `b`, then `c` is newer than `a`.
pub proof fn lemma_is_newer_transitive(a: Seq<char>, b: Seq<char>, c: Seq<char>)
    requires
        newer(a, b),
        newer(b, c),
    ensures
        newer(a, c),
{
    lemma_version_order_transitive(
        parse_version(c)->0,
        parse_version(b)->0,
        parse_version(a)->0,
    );
}

/// Anything that cannot be parsed, on either side, is never newer.
pub proof fn lemma_unparseable_is_never_newer(local: Seq<char>, remote: Seq<char>)
    requires
        parse_version(local) is None || parse_version(remote) is None,
    ensures
        !newer(local, remote),
{
}

proof fn lemma_parts_order_zero_padding(p: Seq<u64>, n: nat)
    ensures
        parts_order(p, p + Seq::new(n, |i: int| 0u64)) == 0,
    decreases p.len() + n,
{
    let q = p + Seq::new(n, |i: int| 0u64);
    if p.len() == 0 && n == 0 {
        assert(q.len() == 0);
    } else if p.len() == 0 {
        let m = (n - 1) as nat;
        assert(tail_of(q) =~= Seq::<u64>::empty() + Seq::new(m, |i: int| 0u64));
        assert(p =~= Seq::<u64>::empty());
        lemma_parts_order_zero_padding(p, m);
        assert(tail_of(p) =~= p);
    } else {
        assert(tail_of(q) =~= tail_of(p) + Seq::new(n, |i: int| 0u64));
        lemma_parts_order_zero_padding(tail_of(p), n);
    }
}

/// Missing parts count as zero: `0.4` and `0.4.0` are the same version.
pub proof fn lemma_missing_parts_are_zero(p: Seq<u64>, n: nat, pre: Option<Seq<char>>)
    ensures
        version_order((p, pre), (p + Seq::new(n, |i: int| 0u64), pre)) == 0,
{
    lemma_parts_order_zero_padding(p, n);
    match pre {
        Some(x) => lemma_text_order_facts(x, x),
        None => {},
    }
}

/// A pre-release is older than the release with the same numbers.
pub proof fn lemma_prerelease_precedes_release(p: Seq<u64>, pre: Seq<char>)
    ensures
        version_order((p, Some(pre)), (p, None)) < 0,
{
    lemma_parts_order_facts(p, p);
}

proof fn lemma_trim_end_prepend(c: char, s: Seq<char>)
    requires
        !is_space(c),
    ensures
        crate::text::trim_end(seq![c] + s) == seq![c] + crate::text::trim_end(s),
    decreases s.len(),
{
    let t = seq![c] + s;
    if s.len() > 0 && is_space(s.last()) {
        assert(t.drop_last() =~= seq![c] + s.drop_last());
        lemma_trim_end_prepend(c, s.drop_last());
    } else if s.len() == 0 {
        assert(t.last() == c);
    } else {
        assert(t.last() == s.last());
    }
}

/// A leading `v` from a git tag is ignored: `v0.5.0` is the version `0.5.0`.
pub proof fn lemma_leading_v_is_ignored(s: Seq<char>)
    requires
        s.len() == 0 || !is_space(s[0]),
    ensures
        parse_version(seq!['v'] + s) == parse_version(s),
{
    let t = seq!['v'] + s;
    assert(crate::text::trim_start(t) == t);
    assert(crate::text::trim_start(s) == s);
    lemma_trim_end_prepend('v', s);
    let u = seq!['v'] + crate::text::trim_end(s);
    assert(u.drop_first() =~= crate::text::trim_end(s));
}

} // verus!
