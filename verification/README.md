# jaim

The core of a Japanese input method, verified with Verus: romaji to kana
conversion, a trie-based kana-to-kanji dictionary, segment editing during
conversion, grammar rules, user learning counts, key dispatch for IBus and
a C front end, and the IPADIC word-list builder.

## Layout

- `src/` — the verified library.
  - `romaji/` — the romaji state machine (`RomajiConverter`) and the kana,
    half-width and romaji forms.
  - `dictionary/` — the trie (`trie.rs`), the built-in words (`builtin.rs`)
    and `Dictionary`: lookup, prefix searches, user entries, importing, and
    building segments from the back pointers of a segmentation.
  - `engine.rs` — `ConversionState`: focus, candidate cycling, kana forms,
    resizing segments, sentence candidates; the segments always tile the
    kana being converted.
  - `grammar.rs` — the nine grammar rules and the issues they report.
  - `user_scorer.rs` — selection counts per (reading, surface).
  - `llm.rs` — candidate profiles and the committed-text context window.
  - `ime/` — key constants, toggle-key configuration, and the decisions for
    each key event (IBus and the C interface).
  - `dictgen/` — parsing IPADIC rows, compound words, merging duplicates
    and ordering the word list.
- `tests/` — tests against the library.
- `app/` — the program around it: D-Bus service, C interface, file I/O,
  the HTTP scorer, and the parts computed in floating point (segmentation
  costs, grammar and learning scores, candidate ranking).
