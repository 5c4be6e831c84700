//! Dictionary corrections and snippet expansion.
//!
//! Both replace whole words, case-insensitively, with literal text: the pattern is
//! `(?i)\b<escaped from>\b`, compiled and applied by the `regex` crate with
//! `NoExpand`, so a `$` in the replacement is not read as a group reference. Pairs
//! are applied in the order given; a pair with an empty side is skipped, and so is a
//! pattern the regex crate refuses to compile.

use vstd::prelude::*;
use crate::config::{snippet_pairs, DictEntry, Pair, Snippet};
use vstd::string::StringExecFns;
use crate::text::{push_str, trim, trimmed};

verus! {

/// `regex::is_meta_character`: the characters `regex::escape` puts a backslash
/// before.
pub open spec fn is_meta_character(c: char) -> bool {
    ||| c == '\\'
    ||| c == '.'
    ||| c == '+'
    ||| c == '*'
    ||| c == '?'
    ||| c == '('
    ||| c == ')'
    ||| c == '|'
    ||| c == '['
    ||| c == ']'
    ||| c == '{'
    ||| c == '}'
    ||| c == '^'
    ||| c == '$'
    ||| c == '#'
    ||| c == '&'
    ||| c == '-'
    ||| c == '~'
}

/// `s` with a backslash before every meta character.
pub open spec fn escaped(s: Seq<char>) -> Seq<char>
    decreases s.len(),
{
    if s.len() == 0 {
        Seq::empty()
    } else {
        let r = escaped(s.drop_last());
        if is_meta_character(s.last()) {
            r + seq!['\\', s.last()]
        } else {
            r.push(s.last())
        }
    }
}

/// `regex::escape`: the text with every regex meta character backslash-escaped, so
/// that it matches itself literally. The claim restates the function's loop.
#[verifier::external_body]
fn regex_escape(s: &str) -> (r: String)
    ensures
        r@ == escaped(s@),
{
    regex::escape(s)
}

/// What compiling `pattern` with `regex::Regex::new` and replacing every match in
/// `text` with the literal `replacement` (`replace_all` with `NoExpand`) gives:
/// `None` when the pattern does not compile.
pub uninterp spec fn regex_replace_all_literal(
    pattern: Seq<char>,
    text: Seq<char>,
    replacement: Seq<char>,
) -> Option<Seq<char>>;

/// Compiles `pattern` (`regex::Regex::new`) and replaces every non-overlapping match
/// in `text` with `replacement` taken literally (`Regex::replace_all` with
/// `regex::NoExpand`); `None` when the pattern does not compile. Matching (Unicode
/// case folding, word boundaries, leftmost-first semantics) is the regex crate's and
/// is only named here, by `regex_replace_all_literal`; the compiled `Regex` never
/// leaves this function.
#[verifier::external_body]
fn replace_all_literal(pattern: &str, text: &str, replacement: &str) -> (r: Option<String>)
    ensures
        match r {
            Some(s) => regex_replace_all_literal(pattern@, text@, replacement@) == Some(s@),
            None => regex_replace_all_literal(pattern@, text@, replacement@) is None,
        },
{
    match regex::Regex::new(pattern) {
        Ok(re) => Some(re.replace_all(text, regex::NoExpand(replacement)).into_owned()),
        Err(_) => None,
    }
}

/// The whole-word, case-insensitive pattern for `from`: `(?i)\b<escaped>\b`.
pub open spec fn word_pattern(from: Seq<char>) -> Seq<char> {
    "(?i)\\b"@ + escaped(from) + "\\b"@
}

/// One substitution: `out` with whole-word matches of `from` replaced by `to`;
/// unchanged when either side is empty or the pattern does not compile.
pub open spec fn substitute_one(out: Seq<char>, from: Seq<char>, to: Seq<char>) -> Seq<char> {
    if from.len() == 0 || to.len() == 0 {
        out
    } else {
        match regex_replace_all_literal(word_pattern(from), out, to) {
            Some(s) => s,
            None => out,
        }
    }
}

/// `text` after applying every `(from, to)` pair of `pairs` in order.
pub open spec fn substituted(text: Seq<char>, pairs: Seq<Pair>) -> Seq<char>
    decreases pairs.len(),
{
    if pairs.len() == 0 {
        text
    } else {
        substitute_one(substituted(text, pairs.drop_last()), pairs.last().0, pairs.last().1)
    }
}

/// The dictionary as correction pairs: both sides trimmed.
pub open spec fn correction_pairs(entries: Seq<DictEntry>) -> Seq<Pair> {
    entries.map_values(|e: DictEntry| (trim(e.word@), trim(e.replacement@)))
}

/// Replaces each `from` with its `to`, whole-word and case-insensitive, in order.
fn substitute(text: &str, pairs: &Vec<(String, String)>) -> (r: String)
    ensures
        r@ == substituted(text@, pairs@.map_values(|p: (String, String)| (p.0@, p.1@))),
{
    let ghost views = pairs@.map_values(|p: (String, String)| (p.0@, p.1@));
    let mut out = String::new();
    push_str(&mut out, text);
    let mut i: usize = 0;
    assert(views.take(0) =~= Seq::<Pair>::empty());
    while i < pairs.len()
        invariant
            i <= pairs.len(),
            views == pairs@.map_values(|p: (String, String)| (p.0@, p.1@)),
            out@ == substituted(text@, views.take(i as int)),
        decreases pairs.len() - i,
    {
        let from = &pairs[i].0;
        let to = &pairs[i].1;
        let ghost prefix = views.take(i + 1);
        assert(prefix.drop_last() =~= views.take(i as int));
        assert(prefix.last() == (from@, to@));
        if !from.as_str().is_empty() && !to.as_str().is_empty() {
            let mut pattern = String::new();
            push_str(&mut pattern, "(?i)\\b");
            let esc = regex_escape(from.as_str());
            push_str(&mut pattern, esc.as_str());
            push_str(&mut pattern, "\\b");
            assert(pattern@ =~= word_pattern(from@));
            match replace_all_literal(pattern.as_str(), out.as_str(), to.as_str()) {
                Some(s) => {
                    out = s;
                },
                None => {},
            }
        }
        i = i + 1;
    }
    assert(views.take(pairs.len() as int) =~= views);
    out
}

/// Apply dictionary corrections to transcribed text.
///
/// The dictionary's consumer that needs no LLM: whatever Whisper typed is replaced
/// with the written form. Both sides are trimmed, and matching is whole-word and
/// case-insensitive. Runs before snippet expansion, so a correction can repair a
/// misheard trigger phrase and let its snippet match.
pub fn apply_dictionary(text: &str, entries: &[DictEntry]) -> (r: String)
    ensures
        r@ == substituted(text@, correction_pairs(entries@)),
{
    let mut pairs: Vec<(String, String)> = Vec::new();
    let mut i: usize = 0;
    while i < entries.len()
        invariant
            i <= entries.len(),
            pairs@.map_values(|p: (String, String)| (p.0@, p.1@)) =~= correction_pairs(
                entries@.take(i as int),
            ),
        decreases entries.len() - i,
    {
        let w = trimmed(entries[i].word.as_str());
        let rep = trimmed(entries[i].replacement.as_str());
        let ghost before = pairs@.map_values(|p: (String, String)| (p.0@, p.1@));
        pairs.push((w, rep));
        assert(pairs@.map_values(|p: (String, String)| (p.0@, p.1@)) =~= before.push(
            (w@, rep@),
        ));
        assert(entries@.take(i + 1) =~= entries@.take(i as int).push(entries@[i as int]));
        assert(correction_pairs(entries@.take(i + 1)) =~= correction_pairs(
            entries@.take(i as int),
        ).push((w@, rep@)));
        i = i + 1;
    }
    assert(entries@.take(entries.len() as int) =~= entries@);
    substitute(text, &pairs)
}

/// Replace every snippet trigger in `text` with its expansion.
///
/// Each trigger is matched as a whole word, case-insensitively; snippets are applied
/// in the order given, and one with an empty trigger or expansion is skipped.
pub fn expand_snippets(text: &str, snippets: &[Snippet]) -> (r: String)
    ensures
        r@ == substituted(text@, snippet_pairs(snippets@)),
{
    let mut pairs: Vec<(String, String)> = Vec::new();
    let mut i: usize = 0;
    while i < snippets.len()
        invariant
            i <= snippets.len(),
            pairs@.map_values(|p: (String, String)| (p.0@, p.1@)) =~= snippet_pairs(
                snippets@.take(i as int),
            ),
        decreases snippets.len() - i,
    {
        let t = snippets[i].trigger.clone();
        let x = snippets[i].expansion.clone();
        let ghost before = pairs@.map_values(|p: (String, String)| (p.0@, p.1@));
        pairs.push((t, x));
        assert(pairs@.map_values(|p: (String, String)| (p.0@, p.1@)) =~= before.push(
            (t@, x@),
        ));
        assert(snippets@.take(i + 1) =~= snippets@.take(i as int).push(snippets@[i as int]));
        assert(snippet_pairs(snippets@.take(i + 1)) =~= snippet_pairs(
            snippets@.take(i as int),
        ).push((t@, x@)));
        i = i + 1;
    }
    assert(snippets@.take(snippets.len() as int) =~= snippets@);
    substitute(text, &pairs)
}

/// The transcript handed to the cleanup pass: dictionary corrections first, then
/// snippet expansion. Order matters: a correction can repair a trigger phrase that
/// Whisper misheard, which then lets its snippet match. A transcript that is blank
/// after trimming is refused with `No transcript to clean up`.
pub fn prepare_for_cleanup(raw: &str, dictionary: &[DictEntry], snippets: &[Snippet]) -> (r: Result<
    String,
    String,
>)
    ensures
        trim(raw@).len() == 0 ==> r is Err && r->Err_0@ == "No transcript to clean up"@,
        trim(raw@).len() > 0 ==> r is Ok && r->Ok_0@ == substituted(
            substituted(raw@, correction_pairs(dictionary@)),
            snippet_pairs(snippets@),
        ),
{
    let t = trimmed(raw);
    if t.as_str().is_empty() {
        return Err(String::from_str("No transcript to clean up"));
    }
    let corrected = apply_dictionary(raw, dictionary);
    Ok(expand_snippets(corrected.as_str(), snippets))
}

/// Every dictionary entry takes part in the correction, one pair per entry in order:
/// the pairs are exactly the entries' trimmed words and trimmed replacements, and an
/// entry added to the dictionary is applied after all the others.
pub proof fn lemma_every_entry_corrects(text: Seq<char>, entries: Seq<DictEntry>, entry: DictEntry)
    ensures
        correction_pairs(entries).len() == entries.len(),
        forall|i: int|
            0 <= i < entries.len() ==> #[trigger] correction_pairs(entries)[i] == (
                trim(entries[i].word@),
                trim(entries[i].replacement@),
            ),
        substituted(text, correction_pairs(Seq::<DictEntry>::empty())) == text,
        substituted(text, correction_pairs(entries.push(entry))) == substitute_one(
            substituted(text, correction_pairs(entries)),
            trim(entry.word@),
            trim(entry.replacement@),
        ),
{
    assert(correction_pairs(entries.push(entry)) =~= correction_pairs(entries).push(
        (trim(entry.word@), trim(entry.replacement@)),
    ));
    assert(correction_pairs(entries.push(entry)).drop_last() =~= correction_pairs(entries));
    assert(correction_pairs(Seq::<DictEntry>::empty()) =~= Seq::<Pair>::empty());
}

/// Every snippet takes part in the expansion, one pair per snippet in order: the
/// pairs are exactly the snippets' triggers and expansions, untrimmed, and a snippet
/// added to the list is applied after all the others.
pub proof fn lemma_every_snippet_expands(text: Seq<char>, snippets: Seq<Snippet>, snippet: Snippet)
    ensures
        snippet_pairs(snippets).len() == snippets.len(),
        forall|i: int|
            0 <= i < snippets.len() ==> #[trigger] snippet_pairs(snippets)[i] == (
                snippets[i].trigger@,
                snippets[i].expansion@,
            ),
        substituted(text, snippet_pairs(Seq::<Snippet>::empty())) == text,
        substituted(text, snippet_pairs(snippets.push(snippet))) == substitute_one(
            substituted(text, snippet_pairs(snippets)),
            snippet.trigger@,
            snippet.expansion@,
        ),
{
    assert(snippet_pairs(snippets.push(snippet)) =~= snippet_pairs(snippets).push(
        (snippet.trigger@, snippet.expansion@),
    ));
    assert(snippet_pairs(snippets.push(snippet)).drop_last() =~= snippet_pairs(snippets));
    assert(snippet_pairs(Seq::<Snippet>::empty()) =~= Seq::<Pair>::empty());
}

/// Pairs with an empty side change nothing: when every pair has one, the text comes
/// back as it was.
pub proof fn lemma_blank_pairs_change_nothing(text: Seq<char>, pairs: Seq<Pair>)
    requires
        forall|i: int| 0 <= i < pairs.len() ==> (#[trigger] pairs[i]).0.len() == 0 || pairs[i].1.len() == 0,
    ensures
        substituted(text, pairs) == text,
    decreases pairs.len(),
{
    if pairs.len() > 0 {
        let t = pairs.drop_last();
        assert forall|i: int| 0 <= i < t.len() implies (#[trigger] t[i]).0.len() == 0 || t[i].1.len() == 0 by {
            assert(t[i] == pairs[i]);
        }
        lemma_blank_pairs_change_nothing(text, t);
        assert(pairs[pairs.len() - 1] == pairs.last());
    }
}

/// Appending a pair applies it after all the others: substitutions compose in list
/// order.
pub proof fn lemma_substituted_in_order(text: Seq<char>, first: Seq<Pair>, rest: Seq<Pair>)
    ensures
        substituted(text, first + rest) == substituted(substituted(text, first), rest),
    decreases rest.len(),
{
    if rest.len() == 0 {
        assert(first + rest =~= first);
    } else {
        assert((first + rest).drop_last() =~= first + rest.drop_last());
        assert((first + rest).last() == rest.last());
        lemma_substituted_in_order(text, first, rest.drop_last());
    }
}

} // verus!
