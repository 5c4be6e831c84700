//! Numbers and checks around recording, transcribing and fetching models.
//!
//! Audio is captured as 16 kHz mono and capped at two minutes; clips shorter than a
//! quarter second after silence trimming are not transcribed, because Whisper
//! invents words for fragments; a model download that ends short of its announced
//! size is discarded rather than kept as a broken model.

use vstd::prelude::*;
use crate::text::{push_char, push_str, str_eq, trim, trimmed};

verus! {

/// The sample rate everything is converted to.
pub const TARGET_RATE: u32 = 16_000;

/// The longest recording, in milliseconds.
pub const MAX_DURATION_MS: usize = 120_000;

/// The shortest speech worth transcribing, in samples (250 ms).
pub const MIN_SPEECH_SAMPLES: usize = 4_000;

/// Bytes downloaded between two progress reports.
pub const PROGRESS_STEP_BYTES: u64 = 4_000_000;

/// Milliseconds of audio in `sample_count` samples at 16 kHz, rounded down.
pub fn duration_ms(sample_count: usize) -> (ms: u32)
    requires
        sample_count <= 4_294_967,
    ensures
        ms == sample_count * 1000 / 16_000,
{
    let count = sample_count as u32;
    count * 1000 / TARGET_RATE
}

/// Whether `sample_count` samples reach the two-minute cap (1,920,000 samples), at
/// which recording stops by itself.
pub fn reached_max_duration(sample_count: usize) -> (b: bool)
    ensures
        b == (sample_count >= 1_920_000),
{
    let max_samples = MAX_DURATION_MS * (TARGET_RATE as usize) / 1000;
    assert(max_samples == 1_920_000);
    sample_count >= max_samples
}

/// Whether a clip of `samples` samples (after silence trimming) is long enough to
/// transcribe: at least a quarter second.
pub fn long_enough_to_transcribe(samples: usize) -> (b: bool)
    ensures
        b == (samples >= 4_000),
{
    samples >= MIN_SPEECH_SAMPLES
}

/// Where a Whisper model file is downloaded from.
pub open spec fn model_url_text(file: Seq<char>) -> Seq<char> {
    "https://huggingface.co/ggerganov/whisper.cpp/resolve/main/"@ + file
}

/// The download URL of model file `file`.
pub fn model_url(file: &str) -> (url: String)
    ensures
        url@ == model_url_text(file@),
{
    let mut url = String::new();
    push_str(&mut url, "https://huggingface.co/ggerganov/whisper.cpp/resolve/main/");
    push_str(&mut url, file);
    url
}

/// Whether a finished download is short of its announced size. A size of 0 means
/// none was announced, and then nothing counts as short.
pub fn download_truncated(downloaded: u64, total: u64) -> (b: bool)
    ensures
        b == (total > 0 && downloaded < total),
{
    total > 0 && downloaded < total
}

/// Whether enough bytes have arrived since the last progress report to send another.
pub fn should_report_progress(downloaded: u64, last_reported: u64) -> (b: bool)
    requires
        last_reported <= downloaded,
    ensures
        b == (downloaded - last_reported >= 4_000_000),
{
    downloaded - last_reported >= PROGRESS_STEP_BYTES
}

/// The decoder's segments run together, each followed by one space.
pub open spec fn spaced(segments: Seq<Seq<char>>) -> Seq<char>
    decreases segments.len(),
{
    if segments.len() == 0 {
        Seq::empty()
    } else {
        spaced(segments.drop_last()) + segments.last() + seq![' ']
    }
}

/// The transcript from the decoder's text segments: each segment followed by a
/// space, the whole trimmed.
pub fn transcript_from_segments(segments: &[String]) -> (text: String)
    ensures
        text@ == trim(spaced(segments@.map_values(|s: String| s@))),
{
    let ghost views = segments@.map_values(|s: String| s@);
    let mut joined = String::new();
    let mut i: usize = 0;
    while i < segments.len()
        invariant
            i <= segments.len(),
            views == segments@.map_values(|s: String| s@),
            joined@ == spaced(views.take(i as int)),
        decreases segments.len() - i,
    {
        push_str(&mut joined, segments[i].as_str());
        push_char(&mut joined, ' ');
        proof {
            let t = views.take(i + 1);
            assert(t.drop_last() =~= views.take(i as int));
            assert(t.last() == segments@[i as int]@);
        }
        i = i + 1;
    }
    assert(views.take(segments.len() as int) =~= views);
    trimmed(joined.as_str())
}

/// Whether `language` pins the decoder to one language; `auto` leaves it to detect.
pub fn forced_language(language: &str) -> (b: bool)
    ensures
        b == (language@ != "auto"@),
{
    !str_eq(language, "auto")
}

/// Whether the engine already holds `wanted`: the same model name is loaded and a
/// context exists, so loading again would only repeat work.
pub fn model_loaded(loaded: Option<&str>, has_context: bool, wanted: &str) -> (b: bool)
    ensures
        b == (has_context && match loaded {
            Some(name) => name@ == wanted@,
            None => false,
        }),
{
    match loaded {
        Some(name) => has_context && str_eq(name, wanted),
        None => false,
    }
}

} // verus!
