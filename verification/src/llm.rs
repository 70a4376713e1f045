//! The parts of LLM reranking that need no model: the committed-text
//! context window, and the character profile the heuristic scorer uses.
use vstd::prelude::*;
use crate::text::{append_chars, chars_of, chars_range, string_of};

verus! {

/// Heuristic scorer for use without a real language model. Its score is
/// computed by the caller from `candidate_profile`.
pub struct MockScorer;

/// CJK unified ideographs and extension A.
pub open spec fn kanji(c: char) -> bool {
    ('\u{4E00}' <= c <= '\u{9FFF}') || ('\u{3400}' <= c <= '\u{4DBF}')
}

/// The hiragana block.
pub open spec fn hiragana(c: char) -> bool {
    '\u{3040}' <= c <= '\u{309F}'
}

/// Whether `c` is a kanji (CJK unified ideograph, or extension A).
pub fn is_kanji(c: char) -> (r: bool)
    ensures
        r == kanji(c),
{
    ('\u{4E00}' <= c && c <= '\u{9FFF}') || ('\u{3400}' <= c && c <= '\u{4DBF}')
}

/// Whether `c` is in the hiragana block.
pub fn is_hiragana(c: char) -> (r: bool)
    ensures
        r == hiragana(c),
{
    '\u{3040}' <= c && c <= '\u{309F}'
}

/// Number of kanji among the first `n` characters.
pub open spec fn kanji_count(s: Seq<char>, n: int) -> nat
    decreases n,
{
    if n <= 0 {
        0
    } else {
        kanji_count(s, n - 1) + if kanji(s[n - 1]) { 1nat } else { 0nat }
    }
}

/// What the heuristic scorer looks at in a candidate.
#[derive(Debug, Clone, Copy, PartialEq, Eq, Structural)]
pub struct CandidateProfile {
    /// Number of characters.
    pub chars: usize,
    /// Number of kanji.
    pub kanji: usize,
    /// Whether every character is hiragana.
    pub all_hiragana: bool,
    /// Whether the first character is hiragana.
    pub first_hiragana: bool,
}

/// The character profile of a candidate.
pub fn candidate_profile(candidate: &str) -> (r: CandidateProfile)
    ensures
        r.chars == candidate@.len(),
        r.kanji == kanji_count(candidate@, candidate@.len() as int),
        r.all_hiragana == forall|i: int| 0 <= i < candidate@.len() ==> #[trigger] hiragana(candidate@[i]),
        r.first_hiragana == (candidate@.len() > 0 && hiragana(candidate@[0])),
{
    let cs = chars_of(candidate);
    let mut k: usize = 0;
    let mut all = true;
    let mut i: usize = 0;
    while i < cs.len()
        invariant
            cs@ == candidate@,
            i <= cs@.len(),
            k == kanji_count(cs@, i as int),
            k <= i,
            all == forall|j: int| 0 <= j < i ==> #[trigger] hiragana(cs@[j]),
        decreases cs.len() - i,
    {
        if is_kanji(cs[i]) {
            k += 1;
        }
        if !is_hiragana(cs[i]) {
            all = false;
        }
        i += 1;
    }
    let first = cs.len() > 0 && is_hiragana(cs[0]);
    CandidateProfile { chars: cs.len(), kanji: k, all_hiragana: all, first_hiragana: first }
}

// ---------------------------------------------------------------------------
// Context window
// ---------------------------------------------------------------------------

/// The context kept for scoring: the whole text while it has at most 200
/// characters, else its last 200 characters.
pub open spec fn context_window(s: Seq<char>) -> Seq<char> {
    if s.len() > 200 {
        s.subrange(s.len() - 200, s.len() as int)
    } else {
        s
    }
}

/// Appends committed text to the context and keeps only its last 200
/// characters.
pub fn update_context(context: &mut String, committed: &str)
    ensures
        final(context)@ == context_window(old(context)@ + committed@),
{
    let mut all = chars_of(context.as_str());
    let add = chars_of(committed);
    append_chars(&mut all, &add);
    let n = all.len();
    if n <= 200 {
        *context = string_of(&all);
    } else {
        let kept = chars_range(&all, n - 200, n);
        *context = string_of(&kept);
    }
}

// ---------------------------------------------------------------------------
// Generation-based scoring
// ---------------------------------------------------------------------------

/// How many tokens to generate for a candidate: five more than its
/// characters, at most 30.
pub open spec fn prediction_length_spec(chars: nat) -> u32 {
    if (chars as u32) + 5 > 30 { 30 } else { ((chars as u32) + 5) as u32 }
}

/// The generation length asked for when scoring `candidate`.
pub fn prediction_length(candidate: &str) -> (r: u32)
    requires
        (candidate@.len() as u32) + 5 <= u32::MAX,
    ensures
        r == prediction_length_spec(candidate@.len()),
{
    let n = chars_of(candidate).len();
    #[verifier::truncate]
    let c = n as u32;
    let t = c + 5;
    if t > 30 { 30 } else { t }
}

/// The length of the longest common prefix of `a` and `b`.
pub open spec fn common_prefix_len(a: Seq<char>, b: Seq<char>, k: int) -> int
    decreases a.len() - k,
{
    if k < 0 || k >= a.len() || k >= b.len() || a[k] != b[k] {
        k
    } else {
        common_prefix_len(a, b, k + 1)
    }
}

/// How many leading characters of `candidate` the generated text repeats.
pub fn matching_prefix_len(candidate: &str, generated: &str) -> (r: usize)
    ensures
        r == common_prefix_len(candidate@, generated@, 0),
{
    let a = chars_of(candidate);
    let b = chars_of(generated);
    let mut k: usize = 0;
    while k < a.len() && k < b.len() && a[k] == b[k]
        invariant
            a@ == candidate@,
            b@ == generated@,
            k <= a@.len(),
            common_prefix_len(candidate@, generated@, 0) == common_prefix_len(candidate@, generated@, k as int),
        decreases a.len() - k,
    {
        k += 1;
    }
    k
}


/// Law: the context kept for scoring is a suffix of the text and holds its
/// last 200 characters (all of it when shorter).
pub proof fn lemma_context_window(s: Seq<char>)
    ensures
        context_window(s).len() == if s.len() > 200 { 200 } else { s.len() },
        context_window(s) == s.skip(s.len() - context_window(s).len()),
{
    if s.len() <= 200 {
        assert(s.skip(0) =~= s);
    } else {
        assert(context_window(s) =~= s.skip(s.len() - 200));
    }
}

} // verus!
