//! Settings pieces and path helpers.
//!
//! Paths are `String`s with `/` separators (which every supported platform accepts),
//! built by [`path_join`]. The dictionary and snippet lists are edited here too:
//! adding an entry replaces the one with the same key or appends a new one, and
//! removing drops every entry with that key.

use vstd::prelude::*;
use vstd::string::StringExecFns;
use crate::text::{str_eq, trim, trimmed};
use crate::update::ends_with;

verus! {

/// The platform the app runs on, where behaviour differs by platform.
#[derive(Debug, Clone, Copy, PartialEq, Eq, Structural)]
pub enum Platform {
    MacOs,
    Windows,
    Other,
}

/// A dictionary correction: what Whisper types, and the written form wanted.
#[derive(Debug, Clone, PartialEq, Eq)]
pub struct DictEntry {
    pub word: String,
    pub replacement: String,
}

/// A snippet: a spoken trigger phrase and the text it expands to.
#[derive(Debug, Clone, PartialEq, Eq)]
pub struct Snippet {
    pub trigger: String,
    pub expansion: String,
}

/// A keyed list entry as text: (key, value).
pub type Pair = (Seq<char>, Seq<char>);

impl View for DictEntry {
    type V = Pair;

    open spec fn view(&self) -> Pair {
        (self.word@, self.replacement@)
    }
}

impl View for Snippet {
    type V = Pair;

    open spec fn view(&self) -> Pair {
        (self.trigger@, self.expansion@)
    }
}

/// The dictionary as (word, replacement) pairs.
pub open spec fn dict_pairs(d: Seq<DictEntry>) -> Seq<Pair> {
    d.map_values(|e: DictEntry| e@)
}

/// The snippets as (trigger, expansion) pairs.
pub open spec fn snippet_pairs(d: Seq<Snippet>) -> Seq<Pair> {
    d.map_values(|e: Snippet| e@)
}

// ---------------------------------------------------------------------------
// Hotkey and model facts
// ---------------------------------------------------------------------------

/// The out-of-the-box hotkey on `platform`.
pub open spec fn default_hotkey_text(platform: Platform) -> Seq<char> {
    if platform == Platform::MacOs {
        "Fn"@
    } else {
        "Win+Alt+Space"@
    }
}

/// The out-of-the-box hotkey.
///
/// On macOS this is the Fn / globe key, which is watched with an event tap rather
/// than registered as a shortcut. Elsewhere it is a three-key combo, because a bare
/// modifier is not something the OS hands over.
pub fn default_hotkey(platform: Platform) -> (r: &'static str)
    ensures
        r@ == default_hotkey_text(platform),
{
    match platform {
        Platform::MacOs => "Fn",
        _ => "Win+Alt+Space",
    }
}

/// The model file and its approximate size for a Whisper model name; an unknown
/// name is taken as the file name itself, with size `?`.
pub open spec fn model_info_text(name: Seq<char>) -> (Seq<char>, Seq<char>) {
    if name == "tiny"@ {
        ("ggml-tiny.bin"@, "39MB"@)
    } else if name == "base"@ {
        ("ggml-base.bin"@, "74MB"@)
    } else if name == "small"@ {
        ("ggml-small.bin"@, "244MB"@)
    } else if name == "medium"@ {
        ("ggml-medium.bin"@, "769MB"@)
    } else if name == "large-v3"@ {
        ("ggml-large-v3.bin"@, "1.5GB"@)
    } else {
        (name, "?"@)
    }
}

/// The model file name and approximate download size for `name`.
pub fn model_info(name: &str) -> (r: (String, String))
    ensures
        (r.0@, r.1@) == model_info_text(name@),
{
    let (file, size) = if str_eq(name, "tiny") {
        ("ggml-tiny.bin", "39MB")
    } else if str_eq(name, "base") {
        ("ggml-base.bin", "74MB")
    } else if str_eq(name, "small") {
        ("ggml-small.bin", "244MB")
    } else if str_eq(name, "medium") {
        ("ggml-medium.bin", "769MB")
    } else if str_eq(name, "large-v3") {
        ("ggml-large-v3.bin", "1.5GB")
    } else {
        (name, "?")
    };
    (String::from_str(file), String::from_str(size))
}

// ---------------------------------------------------------------------------
// Paths
// ---------------------------------------------------------------------------

/// Whether `c` separates path components where `sep` is the platform's separator:
/// `/` everywhere, and `sep` itself (`\` on Windows).
pub open spec fn is_separator(sep: char, c: char) -> bool {
    c == '/' || c == sep
}

/// The separators `std::path::MAIN_SEPARATOR` can be: `/` on Unix, `\` on Windows.
pub open spec fn platform_separator(sep: char) -> bool {
    sep == '/' || sep == '\\'
}

/// `base` joined with `part` on a platform whose separator is `sep`: a part that
/// starts with a separator replaces the base, an empty base or one that already ends
/// in a separator is followed directly by the part, and otherwise `sep` separates the
/// two.
pub open spec fn path_join(sep: char, base: Seq<char>, part: Seq<char>) -> Seq<char> {
    if part.len() > 0 && is_separator(sep, part[0]) {
        part
    } else if base.len() == 0 || is_separator(sep, base.last()) {
        base + part
    } else {
        base + seq![sep] + part
    }
}

/// The platform's path separator, `std::path::MAIN_SEPARATOR`: `/` on Unix and `\`
/// on Windows. Which one depends on the platform the code was built for.
#[verifier::external_body]
pub(crate) fn main_separator() -> (sep: char)
    ensures
        platform_separator(sep),
{
    std::path::MAIN_SEPARATOR
}

/// Joins `part` onto `base` with separator `sep` (see [`path_join`]).
pub fn join(sep: char, base: &str, part: &str) -> (r: String)
    ensures
        r@ == path_join(sep, base@, part@),
{
    let b = crate::text::chars_of(base);
    let p = crate::text::chars_of(part);
    if p.len() > 0 && (p[0] == '/' || p[0] == sep) {
        return String::from_str(part);
    }
    let mut r = String::from_str(base);
    if b.len() > 0 && b[b.len() - 1] != '/' && b[b.len() - 1] != sep {
        crate::text::push_char(&mut r, sep);
    }
    crate::text::push_str(&mut r, part);
    proof {
        if b.len() > 0 {
            assert(base@.last() == b@[b.len() - 1]);
        }
    }
    r
}

/// The platform's per-user configuration directory, from `dirs::config_dir`.
///
/// What it returns depends on the environment and the OS (`$XDG_CONFIG_HOME`, the
/// home directory, the roaming application data folder), so nothing is stated of
/// it. A path that is not valid UTF-8 is converted lossily.
#[verifier::external_body]
fn platform_config_dir() -> (r: Option<String>) {
    dirs::config_dir().map(|p| p.to_string_lossy().into_owned())
}

/// Voxable's configuration directory given the platform's one, if any: `voxable`
/// inside it, or inside `.` when there is none.
pub open spec fn config_dir_text(sep: char, base: Option<Seq<char>>) -> Seq<char> {
    match base {
        Some(b) => path_join(sep, b, "voxable"@),
        None => path_join(sep, "."@, "voxable"@),
    }
}

/// Voxable's configuration directory inside `base`, or inside `.` without one, with
/// separator `sep`.
pub fn config_dir_in(sep: char, base: Option<&str>) -> (r: String)
    ensures
        r@ == config_dir_text(sep, match base {
            Some(b) => Some(b@),
            None => None,
        }),
{
    match base {
        Some(b) => join(sep, b, "voxable"),
        None => join(sep, ".", "voxable"),
    }
}

/// The platform's separator and Voxable's configuration directory built with it.
fn separator_and_config_dir() -> (r: (char, String))
    ensures
        platform_separator(r.0),
        exists|base: Option<Seq<char>>| r.1@ == config_dir_text(r.0, base),
{
    let sep = main_separator();
    let base = platform_config_dir();
    match base {
        Some(b) => {
            let r = config_dir_in(sep, Some(b.as_str()));
            assert(r@ == config_dir_text(sep, Some(b@)));
            (sep, r)
        },
        None => {
            let r = config_dir_in(sep, None);
            assert(r@ == config_dir_text(sep, None));
            (sep, r)
        },
    }
}

/// Voxable's configuration directory: `voxable` inside the platform's one.
pub fn config_dir() -> (r: String)
    ensures
        exists|sep: char, base: Option<Seq<char>>|
            platform_separator(sep) && r@ == config_dir_text(sep, base),
{
    let (_sep, c) = separator_and_config_dir();
    c
}

/// The history directory: `history` inside the configuration directory.
pub fn history_dir() -> (r: String)
    ensures
        exists|sep: char, base: Option<Seq<char>>|
            platform_separator(sep) && r@ == path_join(
                sep,
                config_dir_text(sep, base),
                "history"@,
            ),
{
    let (sep, c) = separator_and_config_dir();
    join(sep, c.as_str(), "history")
}

/// Where recorded audio is kept: `audio` inside the history directory.
pub fn history_audio_dir() -> (r: String)
    ensures
        exists|sep: char, base: Option<Seq<char>>|
            platform_separator(sep) && r@ == path_join(
                sep,
                path_join(sep, config_dir_text(sep, base), "history"@),
                "audio"@,
            ),
{
    let (sep, c) = separator_and_config_dir();
    let h = join(sep, c.as_str(), "history");
    join(sep, h.as_str(), "audio")
}

/// Where Whisper models are kept: `models` inside the configuration directory.
pub fn models_dir() -> (r: String)
    ensures
        exists|sep: char, base: Option<Seq<char>>|
            platform_separator(sep) && r@ == path_join(
                sep,
                config_dir_text(sep, base),
                "models"@,
            ),
{
    let (sep, c) = separator_and_config_dir();
    join(sep, c.as_str(), "models")
}

/// The settings file: `settings.json` inside the configuration directory.
pub fn config_path() -> (r: String)
    ensures
        exists|sep: char, base: Option<Seq<char>>|
            platform_separator(sep) && r@ == path_join(
                sep,
                config_dir_text(sep, base),
                "settings.json"@,
            ),
{
    let (sep, c) = separator_and_config_dir();
    join(sep, c.as_str(), "settings.json")
}

/// The model file for `model_name` inside the models directory.
pub fn model_path(model_name: &str) -> (r: String)
    ensures
        exists|sep: char, base: Option<Seq<char>>|
            platform_separator(sep) && r@ == path_join(
                sep,
                path_join(sep, config_dir_text(sep, base), "models"@),
                model_info_text(model_name@).0,
            ),
{
    let (file, _) = model_info(model_name);
    let (sep, c) = separator_and_config_dir();
    let m = join(sep, c.as_str(), "models");
    join(sep, m.as_str(), file.as_str())
}

// ---------------------------------------------------------------------------
// Keyed lists: the dictionary and the snippets
// ---------------------------------------------------------------------------

/// Index of the first pair whose key is `key`.
pub open spec fn index_of_key(m: Seq<Pair>, key: Seq<char>) -> Option<int>
    decreases m.len(),
{
    if m.len() == 0 {
        None
    } else if m[0].0 == key {
        Some(0)
    } else {
        match index_of_key(m.drop_first(), key) {
            Some(i) => Some(i + 1),
            None => None,
        }
    }
}

/// The value of the first pair whose key is `key`.
pub open spec fn lookup(m: Seq<Pair>, key: Seq<char>) -> Option<Seq<char>> {
    match index_of_key(m, key) {
        Some(i) => Some(m[i].1),
        None => None,
    }
}

/// `m` with the first pair keyed `key` given `value`, or with `(key, value)`
/// appended when there is none.
pub open spec fn upsert(m: Seq<Pair>, key: Seq<char>, value: Seq<char>) -> Seq<Pair> {
    match index_of_key(m, key) {
        Some(i) => m.update(i, (key, value)),
        None => m.push((key, value)),
    }
}

/// `m` without any pair keyed `key`, the rest in order.
pub open spec fn remove_key(m: Seq<Pair>, key: Seq<char>) -> Seq<Pair>
    decreases m.len(),
{
    if m.len() == 0 {
        m
    } else {
        let r = remove_key(m.drop_last(), key);
        if m.last().0 == key {
            r
        } else {
            r.push(m.last())
        }
    }
}

proof fn lemma_index_of_key_found(m: Seq<Pair>, key: Seq<char>, i: int)
    requires
        0 <= i <= m.len(),
        forall|j: int| 0 <= j < i ==> m[j].0 != key,
        i < m.len() ==> m[i].0 == key,
    ensures
        index_of_key(m, key) == (if i < m.len() {
            Some(i)
        } else {
            None::<int>
        }),
    decreases m.len(),
{
    if m.len() > 0 && m[0].0 != key {
        let t = m.drop_first();
        assert forall|j: int| 0 <= j < i - 1 implies t[j].0 != key by {
            assert(t[j] == m[j + 1]);
        }
        if i < m.len() {
            assert(t[i - 1] == m[i]);
        }
        lemma_index_of_key_found(t, key, i - 1);
    }
}

proof fn lemma_index_of_key_is_first(m: Seq<Pair>, key: Seq<char>)
    ensures
        match index_of_key(m, key) {
            Some(i) => 0 <= i < m.len() && m[i].0 == key && forall|j: int|
                0 <= j < i ==> m[j].0 != key,
            None => forall|j: int| 0 <= j < m.len() ==> m[j].0 != key,
        },
    decreases m.len(),
{
    if m.len() > 0 {
        let t = m.drop_first();
        lemma_index_of_key_is_first(t, key);
        assert forall|j: int| 0 < j < m.len() implies m[j] == t[j - 1] by {}
    }
}

/// Adds a dictionary correction, or replaces the replacement of the entry with the
/// same word.
///
/// The word is trimmed first; a word that is empty after trimming is refused with
/// `Word cannot be empty` and the dictionary is left as it was.
pub fn add_dictionary_entry(
    dictionary: &mut Vec<DictEntry>,
    word: &str,
    replacement: String,
) -> (r: Result<(), String>)
    ensures
        trim(word@).len() == 0 ==> r is Err && r->Err_0@ == "Word cannot be empty"@
            && final(dictionary)@ == old(dictionary)@,
        trim(word@).len() > 0 ==> r is Ok && dict_pairs(final(dictionary)@) == upsert(
            dict_pairs(old(dictionary)@),
            trim(word@),
            replacement@,
        ),
{
    let w = trimmed(word);
    if w.as_str().is_empty() {
        return Err(String::from_str("Word cannot be empty"));
    }
    let ghost before = dict_pairs(dictionary@);
    let mut i: usize = 0;
    while i < dictionary.len()
        invariant
            i <= dictionary.len(),
            dictionary@ == old(dictionary)@,
            before == dict_pairs(dictionary@),
            w@ == trim(word@),
            w@.len() > 0,
            forall|j: int| 0 <= j < i ==> before[j].0 != w@,
        decreases dictionary.len() - i,
    {
        if dictionary[i].word == w {
            proof {
                lemma_index_of_key_found(before, w@, i as int);
            }
            dictionary.set(i, DictEntry { word: w, replacement });
            assert(dict_pairs(dictionary@) =~= upsert(before, trim(word@), replacement@));
            return Ok(());
        }
        i = i + 1;
    }
    proof {
        lemma_index_of_key_found(before, w@, i as int);
    }
    dictionary.push(DictEntry { word: w, replacement });
    assert(dict_pairs(dictionary@) =~= upsert(before, trim(word@), replacement@));
    Ok(())
}

/// Removes every dictionary entry whose word is exactly `word`.
pub fn remove_dictionary_entry(dictionary: &mut Vec<DictEntry>, word: &str)
    ensures
        dict_pairs(final(dictionary)@) == remove_key(dict_pairs(old(dictionary)@), word@),
{
    let ghost before = dict_pairs(dictionary@);
    let mut kept: Vec<DictEntry> = Vec::new();
    let n = dictionary.len();
    let mut i: usize = 0;
    while i < n
        invariant
            i <= n == dictionary.len(),
            dictionary@ == old(dictionary)@,
            before == dict_pairs(dictionary@),
            dict_pairs(kept@) == remove_key(before.take(i as int), word@),
        decreases n - i,
    {
        let e = &dictionary[i];
        assert(before.take(i + 1).drop_last() =~= before.take(i as int));
        assert(before.take(i + 1).last() == e@);
        if !str_eq(e.word.as_str(), word) {
            kept.push(DictEntry { word: e.word.clone(), replacement: e.replacement.clone() });
            assert(dict_pairs(kept@) =~= remove_key(before.take(i + 1), word@));
        } else {
            assert(dict_pairs(kept@) =~= remove_key(before.take(i + 1), word@));
        }
        i = i + 1;
    }
    assert(before.take(n as int) =~= before);
    *dictionary = kept;
}

/// Adds a snippet, or replaces the expansion of the snippet with the same trigger.
///
/// The trigger is trimmed first; a trigger that is empty after trimming is refused
/// with `Trigger cannot be empty` and the snippets are left as they were.
pub fn add_snippet(
    snippets: &mut Vec<Snippet>,
    trigger: &str,
    expansion: String,
) -> (r: Result<(), String>)
    ensures
        trim(trigger@).len() == 0 ==> r is Err && r->Err_0@ == "Trigger cannot be empty"@
            && final(snippets)@ == old(snippets)@,
        trim(trigger@).len() > 0 ==> r is Ok && snippet_pairs(final(snippets)@) == upsert(
            snippet_pairs(old(snippets)@),
            trim(trigger@),
            expansion@,
        ),
{
    let w = trimmed(trigger);
    if w.as_str().is_empty() {
        return Err(String::from_str("Trigger cannot be empty"));
    }
    let ghost before = snippet_pairs(snippets@);
    let mut i: usize = 0;
    while i < snippets.len()
        invariant
            i <= snippets.len(),
            snippets@ == old(snippets)@,
            before == snippet_pairs(snippets@),
            w@ == trim(trigger@),
            w@.len() > 0,
            forall|j: int| 0 <= j < i ==> before[j].0 != w@,
        decreases snippets.len() - i,
    {
        if snippets[i].trigger == w {
            proof {
                lemma_index_of_key_found(before, w@, i as int);
            }
            snippets.set(i, Snippet { trigger: w, expansion });
            assert(snippet_pairs(snippets@) =~= upsert(before, trim(trigger@), expansion@));
            return Ok(());
        }
        i = i + 1;
    }
    proof {
        lemma_index_of_key_found(before, w@, i as int);
    }
    snippets.push(Snippet { trigger: w, expansion });
    assert(snippet_pairs(snippets@) =~= upsert(before, trim(trigger@), expansion@));
    Ok(())
}

/// Removes every snippet whose trigger is exactly `trigger`.
pub fn remove_snippet(snippets: &mut Vec<Snippet>, trigger: &str)
    ensures
        snippet_pairs(final(snippets)@) == remove_key(snippet_pairs(old(snippets)@), trigger@),
{
    let ghost before = snippet_pairs(snippets@);
    let mut kept: Vec<Snippet> = Vec::new();
    let n = snippets.len();
    let mut i: usize = 0;
    while i < n
        invariant
            i <= n == snippets.len(),
            snippets@ == old(snippets)@,
            before == snippet_pairs(snippets@),
            snippet_pairs(kept@) == remove_key(before.take(i as int), trigger@),
        decreases n - i,
    {
        let e = &snippets[i];
        assert(before.take(i + 1).drop_last() =~= before.take(i as int));
        assert(before.take(i + 1).last() == e@);
        if !str_eq(e.trigger.as_str(), trigger) {
            kept.push(Snippet { trigger: e.trigger.clone(), expansion: e.expansion.clone() });
            assert(snippet_pairs(kept@) =~= remove_key(before.take(i + 1), trigger@));
        } else {
            assert(snippet_pairs(kept@) =~= remove_key(before.take(i + 1), trigger@));
        }
        i = i + 1;
    }
    assert(before.take(n as int) =~= before);
    *snippets = kept;
}


/// Whether no two pairs of `m` share a key.
pub open spec fn keys_unique(m: Seq<Pair>) -> bool {
    forall|i: int, j: int| 0 <= i < j < m.len() ==> m[i].0 != m[j].0
}

/// After adding `(key, value)`, looking `key` up gives `value`.
pub proof fn lemma_upsert_then_lookup(m: Seq<Pair>, key: Seq<char>, value: Seq<char>)
    ensures
        lookup(upsert(m, key, value), key) == Some(value),
{
    lemma_index_of_key_is_first(m, key);
    let u = upsert(m, key, value);
    match index_of_key(m, key) {
        Some(i) => {
            lemma_index_of_key_found(u, key, i);
        },
        None => {
            lemma_index_of_key_found(u, key, m.len() as int);
        },
    }
}

/// Adding `(key, value)` leaves every other key's value as it was.
pub proof fn lemma_upsert_keeps_other_keys(
    m: Seq<Pair>,
    key: Seq<char>,
    value: Seq<char>,
    other: Seq<char>,
)
    requires
        other != key,
    ensures
        lookup(upsert(m, key, value), other) == lookup(m, other),
{
    lemma_index_of_key_is_first(m, other);
    lemma_index_of_key_is_first(m, key);
    let u = upsert(m, key, value);
    match index_of_key(m, other) {
        Some(i) => {
            lemma_index_of_key_found(u, other, i);
        },
        None => {
            lemma_index_of_key_found(u, other, u.len() as int);
        },
    }
}

/// Adding an entry keeps the keys unique when they were.
pub proof fn lemma_upsert_keeps_keys_unique(m: Seq<Pair>, key: Seq<char>, value: Seq<char>)
    requires
        keys_unique(m),
    ensures
        keys_unique(upsert(m, key, value)),
{
    lemma_index_of_key_is_first(m, key);
}

proof fn lemma_remove_key_members(m: Seq<Pair>, key: Seq<char>)
    ensures
        forall|i: int| 0 <= i < remove_key(m, key).len() ==> remove_key(m, key)[i].0 != key,
        forall|i: int| 0 <= i < remove_key(m, key).len() ==> m.contains(#[trigger] remove_key(m, key)[i]),
        forall|i: int|
            0 <= i < m.len() && m[i].0 != key ==> remove_key(m, key).contains(#[trigger] m[i]),
    decreases m.len(),
{
    if m.len() > 0 {
        let t = m.drop_last();
        lemma_remove_key_members(t, key);
        let r = remove_key(m, key);
        let rt = remove_key(t, key);
        assert forall|i: int| 0 <= i < r.len() implies m.contains(#[trigger] r[i]) by {
            if i < rt.len() {
                assert(r[i] == rt[i]);
                let k = choose|k: int| 0 <= k < t.len() && t[k] == rt[i];
                assert(m[k] == t[k]);
            } else {
                assert(r[i] == m.last());
                assert(m[m.len() - 1] == m.last());
            }
        }
        assert forall|i: int| 0 <= i < m.len() && m[i].0 != key implies r.contains(
            #[trigger] m[i],
        ) by {
            if i < t.len() {
                assert(t[i] == m[i]);
                let k = choose|k: int| 0 <= k < rt.len() && rt[k] == t[i];
                assert(r[k] == rt[k]);
            } else {
                assert(r[r.len() - 1] == m.last());
            }
        }
    }
}

/// After removing `key`, no entry has that key, and every other key keeps its value.
pub proof fn lemma_remove_then_lookup(m: Seq<Pair>, key: Seq<char>, other: Seq<char>)
    ensures
        lookup(remove_key(m, key), key) is None,
        other != key ==> lookup(remove_key(m, key), other) == lookup(m, other),
    decreases m.len(),
{
    lemma_remove_key_members(m, key);
    let r = remove_key(m, key);
    lemma_index_of_key_is_first(r, key);
    if m.len() > 0 {
        let t = m.drop_last();
        lemma_remove_then_lookup(t, key, other);
        let rt = remove_key(t, key);
        if other != key {
            lemma_index_of_key_is_first(t, other);
            lemma_index_of_key_is_first(rt, other);
            lemma_index_of_key_is_first(m, other);
            lemma_index_of_key_is_first(r, other);
            match index_of_key(rt, other) {
                Some(i) => {
                    assert(r[i] == rt[i]);
                    assert forall|j: int| 0 <= j < i implies r[j].0 != other by {
                        assert(r[j] == rt[j]);
                    }
                    lemma_index_of_key_found(r, other, i);
                    match index_of_key(t, other) {
                        Some(k) => {
                            assert(m[k] == t[k]);
                            assert forall|j: int| 0 <= j < k implies m[j].0 != other by {
                                assert(m[j] == t[j]);
                            }
                            lemma_index_of_key_found(m, other, k);
                        },
                        None => {},
                    }
                },
                None => {
                    match index_of_key(t, other) {
                        Some(k) => {},
                        None => {
                            assert forall|j: int| 0 <= j < t.len() implies m[j].0 != other by {
                                assert(m[j] == t[j]);
                            }
                            if m.last().0 == other {
                                assert(r[rt.len() as int] == m.last());
                                assert forall|j: int| 0 <= j < rt.len() implies r[j].0 != other by {
                                    assert(r[j] == rt[j]);
                                }
                                lemma_index_of_key_found(r, other, rt.len() as int);
                                lemma_index_of_key_found(m, other, t.len() as int);
                            } else {
                                assert forall|j: int| 0 <= j < r.len() implies r[j].0 != other by {
                                    if j < rt.len() {
                                        assert(r[j] == rt[j]);
                                    }
                                }
                                lemma_index_of_key_found(r, other, r.len() as int);
                                lemma_index_of_key_found(m, other, m.len() as int);
                            }
                        },
                    }
                },
            }
        }
    }
}

/// A sequence ends with what is appended to it, and appending keeps a suffix.
proof fn lemma_ends_with_append(s: Seq<char>, t: Seq<char>, u: Seq<char>)
    requires
        ends_with(s, t),
    ensures
        ends_with(s + u, t + u),
        ends_with(s + u, u),
{
    let n: int = (s.len() + u.len()) as int;
    assert((s + u).subrange(n - (t.len() + u.len()), n) =~= s.subrange(
        s.len() - t.len(),
        s.len() as int,
    ) + u);
    assert((s + u).subrange(n - u.len(), n) =~= u);
}

/// Joining a relative, non-empty `part` leaves the path ending in `tail`, `sep`,
/// `part` whenever the base ends in `tail`, which itself does not end in a separator.
proof fn lemma_join_nests(sep: char, base: Seq<char>, tail: Seq<char>, part: Seq<char>)
    requires
        ends_with(base, tail),
        tail.len() > 0,
        !is_separator(sep, tail.last()),
        part.len() > 0,
        !is_separator(sep, part[0]),
    ensures
        ends_with(path_join(sep, base, part), tail + seq![sep] + part),
{
    assert(base.last() == tail.last()) by {
        assert(base.subrange(base.len() - tail.len(), base.len() as int)[tail.len() - 1]
            == tail[tail.len() - 1]);
    }
    lemma_ends_with_append(base, tail, seq![sep] + part);
    assert(base + seq![sep] + part =~= base + (seq![sep] + part));
    assert(tail + seq![sep] + part =~= tail + (seq![sep] + part));
}

/// The directories nest as documented, whatever the platform directory and
/// separator are: the history directory ends in `voxable`, the separator and
/// `history`; its audio in `voxable`, `history` and `audio`; the settings file in
/// `voxable` and `settings.json`; the models directory in `voxable` and `models`.
pub proof fn lemma_paths_nest(sep: char, base: Option<Seq<char>>)
    requires
        platform_separator(sep),
    ensures
        ends_with(
            path_join(sep, config_dir_text(sep, base), "history"@),
            "voxable"@ + seq![sep] + "history"@,
        ),
        ends_with(
            path_join(sep, path_join(sep, config_dir_text(sep, base), "history"@), "audio"@),
            "voxable"@ + seq![sep] + "history"@ + seq![sep] + "audio"@,
        ),
        ends_with(
            path_join(sep, config_dir_text(sep, base), "settings.json"@),
            "voxable"@ + seq![sep] + "settings.json"@,
        ),
        ends_with(
            path_join(sep, config_dir_text(sep, base), "models"@),
            "voxable"@ + seq![sep] + "models"@,
        ),
{
    reveal_strlit("voxable");
    reveal_strlit("history");
    reveal_strlit("audio");
    reveal_strlit("settings.json");
    reveal_strlit("models");
    let b = match base {
        Some(d) => d,
        None => "."@,
    };
    let c = config_dir_text(sep, base);
    let v = "voxable"@;
    assert(c == path_join(sep, b, v));
    let pre = if b.len() == 0 || is_separator(sep, b.last()) {
        b
    } else {
        b + seq![sep]
    };
    assert(c =~= pre + v);
    assert(ends_with(pre + v, v)) by {
        assert((pre + v).subrange((pre + v).len() - v.len(), (pre + v).len() as int) =~= v);
    }
    let h = "history"@;
    lemma_join_nests(sep, c, v, h);
    let vh = v + seq![sep] + h;
    assert(vh.last() == 'y');
    lemma_join_nests(sep, path_join(sep, c, h), vh, "audio"@);
    lemma_join_nests(sep, c, v, "settings.json"@);
    lemma_join_nests(sep, c, v, "models"@);
}

} // verus!
