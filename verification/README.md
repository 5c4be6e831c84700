# voxable

The logic of Voxable, a push-to-talk dictation app, as a Verus-verified library.

- `src/` — the library. Each module states its behaviour in `requires`/`ensures`
  over spec models (`Seq<char>` for text, sequences of pairs for the dictionary and
  snippets) and Verus proves the code against them. Public `lemma_*` proof functions
  state the properties that span calls: version ordering, dictionary upserts,
  history retention, vocabulary budgets, hotkey press/release semantics.
- `tests/` — executable tests against the compiled library.
- `app/` — the Tauri desktop shell: windows, tray, global shortcuts, microphone
  capture, Whisper, HTTP and file I/O. It calls the library for its decisions, with
  these exceptions, which stay in `app/`: the floating-point window placement and
  silence trimming, the audio resampling, and which text to hand
  `llm::cleaned_or_expanded` as the fallback after an LLM error (the corrected and
  expanded transcript).

Calls into `regex`, `chrono`, `dirs`, `serde_json` and the standard library (such as
the platform's path separator) that the library
cannot prove are made through small trusted wrappers whose contracts state what
those crates document.
