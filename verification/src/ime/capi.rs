//! The decisions behind the C interface: how a key event is handled (the
//! C side only forwards events and reads back state) and the snapshot of
//! the UI state it reads back.
use vstd::prelude::*;
use super::dispatch::{char_input, ConversionKey, FocusedForm, InputKey, KeyDecision};
use super::keymap::printable;
use crate::engine::{composed, concat, texts, ConversionState};
use crate::text::{chars_of, char_from_u32};

verus! {

pub const KEY_SPACE: u32 = 0x0020;
pub const KEY_RETURN: u32 = 0xFF0D;
pub const KEY_ESCAPE: u32 = 0xFF1B;
pub const KEY_BACKSPACE: u32 = 0xFF08;
pub const KEY_UP: u32 = 0xFF52;
pub const KEY_DOWN: u32 = 0xFF54;
pub const KEY_LEFT: u32 = 0xFF51;
pub const KEY_RIGHT: u32 = 0xFF53;
pub const KEY_PAGE_UP: u32 = 0xFF55;
pub const KEY_PAGE_DOWN: u32 = 0xFF56;
pub const KEY_F6: u32 = 0xFFC3;
pub const KEY_F7: u32 = 0xFFC4;
pub const KEY_F8: u32 = 0xFFC5;
pub const KEY_F9: u32 = 0xFFC6;
pub const KEY_F10: u32 = 0xFFC7;

pub const SHIFT_MASK: u32 = 0x1;
pub const CONTROL_MASK: u32 = 0x4;
pub const MOD1_MASK: u32 = 0x8;
pub const RELEASE_MASK: u32 = 0x4000_0000;

/// Maximum number of segments in a UI snapshot.
pub const MAX_SEGMENTS: usize = 32;
/// Maximum number of candidates in a UI snapshot.
pub const MAX_CANDIDATES: usize = 64;

/// Segment info for the batch UI state.
#[derive(Debug, Clone, Copy, PartialEq, Eq, Structural)]
pub struct JaimSegmentInfo {
    /// Character start position in composed text.
    pub start_chars: i32,
    /// Character length in composed text.
    pub char_len: i32,
}

/// Everything the C side reads back after a key event.
#[derive(Debug, Clone)]
pub struct UiSnapshot {
    /// Committed text, if any.
    pub committed: Option<String>,
    /// Whether the engine is in conversion mode.
    pub converting: bool,
    /// Whether there is preedit (or composed) text.
    pub has_preedit: bool,
    /// The preedit when not converting, the composed text when converting.
    pub preedit: Option<String>,
    pub segment_count: i32,
    pub focus_index: i32,
    /// One entry per reported segment.
    pub segments: Vec<JaimSegmentInfo>,
    pub candidate_count: i32,
    pub selected_index: i32,
    /// The reported candidates of the focused segment.
    pub candidates: Vec<String>,
}

/// The function keys F6 to F10 (C interface key codes).
pub open spec fn capi_function_key(keyval: u32) -> bool {
    keyval == KEY_F6 || keyval == KEY_F7 || keyval == KEY_F8 || keyval == KEY_F9 || keyval == KEY_F10
}

/// The conversion-mode meaning of a key on the C interface.
pub open spec fn capi_conversion_decision(keyval: u32, state: u32) -> KeyDecision {
    let shift = state & SHIFT_MASK != 0;
    if keyval == KEY_SPACE || keyval == KEY_DOWN {
        KeyDecision::Conversion(ConversionKey::NextCandidate)
    } else if keyval == KEY_UP {
        KeyDecision::Conversion(ConversionKey::PreviousCandidate)
    } else if keyval == KEY_RIGHT {
        KeyDecision::Conversion(if shift { ConversionKey::Extend } else { ConversionKey::FocusNext })
    } else if keyval == KEY_LEFT {
        KeyDecision::Conversion(if shift { ConversionKey::Shrink } else { ConversionKey::FocusPrevious })
    } else if keyval == KEY_RETURN {
        KeyDecision::Conversion(ConversionKey::Commit)
    } else if keyval == KEY_ESCAPE {
        KeyDecision::Conversion(ConversionKey::Cancel)
    } else if printable(keyval) {
        KeyDecision::CommitThenInput
    } else {
        KeyDecision::PassThrough
    }
}

/// The C interface's decision on a key event, in order: releases (F6 to
/// F10 are consumed while there is preedit text or a conversion),
/// Ctrl/Alt combinations, F6 to F10, conversion mode, input.
pub open spec fn capi_decision(converting: bool, has_preedit: bool, keyval: u32, state: u32) -> KeyDecision {
    if state & RELEASE_MASK != 0 {
        if capi_function_key(keyval) && (has_preedit || converting) {
            KeyDecision::Consume
        } else {
            KeyDecision::PassThrough
        }
    } else if state & (CONTROL_MASK | MOD1_MASK) != 0 {
        KeyDecision::PassThrough
    } else if capi_function_key(keyval) {
        if converting {
            KeyDecision::ConvertFocused(
                if keyval == KEY_F6 { FocusedForm::Hiragana }
                else if keyval == KEY_F8 { FocusedForm::HalfwidthKatakana }
                else if keyval == KEY_F9 { FocusedForm::FullwidthRomaji }
                else if keyval == KEY_F10 { FocusedForm::Romaji }
                else { FocusedForm::Katakana })
        } else {
            KeyDecision::StartKanaConversion(
                if keyval == KEY_F6 { 0 }
                else if keyval == KEY_F8 { 2 }
                else if keyval == KEY_F9 { 4 }
                else if keyval == KEY_F10 { 3 }
                else { 1 })
        }
    } else if converting {
        capi_conversion_decision(keyval, state)
    } else {
        KeyDecision::Input
    }
}

/// The input meaning of a key outside conversion (C interface key codes);
/// `Other` keys are not consumed.
pub open spec fn capi_input(keyval: u32) -> InputKey {
    if keyval == KEY_SPACE {
        InputKey::StartConversion
    } else if keyval == KEY_RETURN {
        InputKey::CommitPreedit
    } else if keyval == KEY_ESCAPE {
        InputKey::CancelInput
    } else if keyval == KEY_BACKSPACE {
        InputKey::Backspace
    } else if keyval == KEY_LEFT || keyval == KEY_RIGHT || keyval == KEY_UP || keyval == KEY_DOWN
        || keyval == KEY_PAGE_UP || keyval == KEY_PAGE_DOWN {
        InputKey::Navigate
    } else if printable(keyval) {
        char_input(keyval as char)
    } else {
        InputKey::Other
    }
}

/// Decides a key event on the C interface.
pub fn capi_key(converting: bool, has_preedit: bool, keyval: u32, state: u32) -> (r: KeyDecision)
    ensures
        r == capi_decision(converting, has_preedit, keyval, state),
{
    let fkey = keyval == KEY_F6 || keyval == KEY_F7 || keyval == KEY_F8 || keyval == KEY_F9 || keyval == KEY_F10;
    if state & RELEASE_MASK != 0 {
        if fkey && (has_preedit || converting) {
            return KeyDecision::Consume;
        }
        return KeyDecision::PassThrough;
    }
    if state & (CONTROL_MASK | MOD1_MASK) != 0 {
        return KeyDecision::PassThrough;
    }
    if fkey {
        if converting {
            let form = if keyval == KEY_F6 {
                FocusedForm::Hiragana
            } else if keyval == KEY_F8 {
                FocusedForm::HalfwidthKatakana
            } else if keyval == KEY_F9 {
                FocusedForm::FullwidthRomaji
            } else if keyval == KEY_F10 {
                FocusedForm::Romaji
            } else {
                FocusedForm::Katakana
            };
            return KeyDecision::ConvertFocused(form);
        }
        let form: usize = if keyval == KEY_F6 {
            0
        } else if keyval == KEY_F8 {
            2
        } else if keyval == KEY_F9 {
            4
        } else if keyval == KEY_F10 {
            3
        } else {
            1
        };
        return KeyDecision::StartKanaConversion(form);
    }
    if converting {
        let shift = state & SHIFT_MASK != 0;
        return if keyval == KEY_SPACE || keyval == KEY_DOWN {
            KeyDecision::Conversion(ConversionKey::NextCandidate)
        } else if keyval == KEY_UP {
            KeyDecision::Conversion(ConversionKey::PreviousCandidate)
        } else if keyval == KEY_RIGHT {
            KeyDecision::Conversion(if shift { ConversionKey::Extend } else { ConversionKey::FocusNext })
        } else if keyval == KEY_LEFT {
            KeyDecision::Conversion(if shift { ConversionKey::Shrink } else { ConversionKey::FocusPrevious })
        } else if keyval == KEY_RETURN {
            KeyDecision::Conversion(ConversionKey::Commit)
        } else if keyval == KEY_ESCAPE {
            KeyDecision::Conversion(ConversionKey::Cancel)
        } else if 0x20 <= keyval && keyval <= 0x7E {
            KeyDecision::CommitThenInput
        } else {
            KeyDecision::PassThrough
        };
    }
    KeyDecision::Input
}

/// Decides a key outside conversion on the C interface.
pub fn capi_input_key(keyval: u32) -> (r: InputKey)
    ensures
        r == capi_input(keyval),
{
    if keyval == KEY_SPACE {
        InputKey::StartConversion
    } else if keyval == KEY_RETURN {
        InputKey::CommitPreedit
    } else if keyval == KEY_ESCAPE {
        InputKey::CancelInput
    } else if keyval == KEY_BACKSPACE {
        InputKey::Backspace
    } else if keyval == KEY_LEFT || keyval == KEY_RIGHT || keyval == KEY_UP || keyval == KEY_DOWN
        || keyval == KEY_PAGE_UP || keyval == KEY_PAGE_DOWN {
        InputKey::Navigate
    } else if 0x20 <= keyval && keyval <= 0x7E {
        match char_from_u32(keyval) {
            Some(c) => super::dispatch::char_key(c),
            None => InputKey::Other,
        }
    } else {
        InputKey::Other
    }
}

// ---------------------------------------------------------------------------
// UI snapshot
// ---------------------------------------------------------------------------

/// At most `cap` of `n`.
pub open spec fn capped(n: int, cap: int) -> int {
    if n < cap { n } else { cap }
}

/// The snapshot of a conversion in progress: the composed text as
/// preedit, the first segments' ranges in it, and the focused segment's
/// first candidates.
pub open spec fn converting_snapshot_ok(r: UiSnapshot, st: ConversionState) -> bool {
    let segs = st.segments@;
    let n = capped(segs.len() as int, MAX_SEGMENTS as int);
    let seg = segs[st.focus as int];
    let m = capped(seg.candidates@.len() as int, MAX_CANDIDATES as int);
    &&& r.has_preedit
    &&& r.preedit matches Some(p) && p@ == composed(segs)
    &&& r.segment_count == n as i32
    &&& r.focus_index == st.focus as i32
    &&& r.segments@.len() == n
    &&& forall|k: int| 0 <= k < n ==> {
        let a = concat(texts(segs).take(k)).len();
        let b = concat(texts(segs).take(k + 1)).len();
        &&& (#[trigger] r.segments@[k]).start_chars == a as i32
        &&& r.segments@[k].char_len == (b - a) as i32
    }
    &&& r.candidate_count == m as i32
    &&& r.selected_index == seg.selected as i32
    &&& r.candidates@ == seg.candidates@.take(m)
}

/// The UI state after a key event: the pending commit, then either the
/// conversion (when converting and a conversion exists) or the preedit.
pub fn ui_snapshot(committed: Option<String>, converting: bool, state: Option<&ConversionState>, preedit: String) -> (r: UiSnapshot)
    requires
        state matches Some(st) ==> st.wf(),
    ensures
        r.committed == committed,
        r.converting == converting,
        converting && state is Some ==> converting_snapshot_ok(r, *state.unwrap()),
        converting && state is None ==> !r.has_preedit && r.preedit is None && r.segment_count == 0
            && r.focus_index == 0 && r.segments@.len() == 0 && r.candidate_count == 0 && r.selected_index == 0
            && r.candidates@.len() == 0,
        !converting ==> r.has_preedit == (preedit@.len() > 0)
            && (if preedit@.len() > 0 { r.preedit == Some(preedit) } else { r.preedit is None })
            && r.segment_count == 0 && r.focus_index == 0 && r.segments@.len() == 0
            && r.candidate_count == 0 && r.selected_index == 0 && r.candidates@.len() == 0,
{
    if converting {
        match state {
            Some(st) => {
                let text = st.composed_text();
                let text_len = chars_of(text.as_str()).len();
                assert(composed(st.segments@).len() == text_len);
                let ranges = st.segment_char_ranges();
                let total = st.segments.len();
                let n = if total < MAX_SEGMENTS { total } else { MAX_SEGMENTS };
                let mut segments: Vec<JaimSegmentInfo> = Vec::new();
                let mut i: usize = 0;
                while i < n
                    invariant
                        n <= ranges@.len(),
                        ranges@.len() == st.segments@.len(),
                        forall|k: int| 0 <= k < ranges@.len() ==> (#[trigger] ranges@[k]).0 == concat(texts(st.segments@).take(k)).len()
                            && ranges@[k].1 == concat(texts(st.segments@).take(k + 1)).len(),
                        i <= n,
                        segments@.len() == i,
                        forall|k: int| 0 <= k < i ==> {
                            let a = concat(texts(st.segments@).take(k)).len();
                            let b = concat(texts(st.segments@).take(k + 1)).len();
                            &&& (#[trigger] segments@[k]).start_chars == a as i32
                            &&& segments@[k].char_len == (b - a) as i32
                        },
                    decreases n - i,
                {
                    let (start, end) = ranges[i];
                    proof {
                        assert(concat(texts(st.segments@).take(i + 1)) == concat(texts(st.segments@).take(i as int)) + texts(st.segments@)[i as int]) by {
                            assert(texts(st.segments@).take(i + 1).drop_last() =~= texts(st.segments@).take(i as int));
                        }
                    }
                    #[verifier::truncate]
                    let start_chars = start as i32;
                    #[verifier::truncate]
                    let char_len = (end - start) as i32;
                    segments.push(JaimSegmentInfo { start_chars, char_len });
                    i += 1;
                }
                let seg = &st.segments[st.focus];
                let count = seg.candidates.len();
                let m = if count < MAX_CANDIDATES { count } else { MAX_CANDIDATES };
                let mut candidates: Vec<String> = Vec::new();
                let mut j: usize = 0;
                while j < m
                    invariant
                        m <= seg.candidates@.len(),
                        j <= m,
                        candidates@ == seg.candidates@.take(j as int),
                    decreases m - j,
                {
                    candidates.push(seg.candidates[j].clone());
                    j += 1;
                    assert(candidates@ =~= seg.candidates@.take(j as int));
                }
                #[verifier::truncate]
                let segment_count = n as i32;
                #[verifier::truncate]
                let focus_index = st.focus as i32;
                #[verifier::truncate]
                let candidate_count = m as i32;
                #[verifier::truncate]
                let selected_index = seg.selected as i32;
                UiSnapshot {
                    committed,
                    converting,
                    has_preedit: true,
                    preedit: Some(text),
                    segment_count,
                    focus_index,
                    segments,
                    candidate_count,
                    selected_index,
                    candidates,
                }
            },
            None => UiSnapshot {
                committed,
                converting,
                has_preedit: false,
                preedit: None,
                segment_count: 0,
                focus_index: 0,
                segments: Vec::new(),
                candidate_count: 0,
                selected_index: 0,
                candidates: Vec::new(),
            },
        }
    } else {
        let has = chars_of(preedit.as_str()).len() > 0;
        UiSnapshot {
            committed,
            converting,
            has_preedit: has,
            preedit: if has { Some(preedit) } else { None },
            segment_count: 0,
            focus_index: 0,
            segments: Vec::new(),
            candidate_count: 0,
            selected_index: 0,
            candidates: Vec::new(),
        }
    }
}

} // verus!
