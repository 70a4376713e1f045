//! JaIM: romaji input, kana/kanji dictionary lookup, segment editing and
//! grammar checks for a Japanese input method.
use vstd::prelude::*;

pub mod dictgen;
pub mod dictionary;
pub mod engine;
pub mod grammar;
pub mod ime;
pub mod llm;
pub mod romaji;
pub mod text;
pub mod user_scorer;

verus! {
} // verus!
