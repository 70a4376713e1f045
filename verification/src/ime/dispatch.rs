//! The per-key decisions of the IBus engine.
//!
//! A key event is decided here from the engine's flags (enabled,
//! converting) and the event itself; the caller carries out the decision
//! on the conversion engine and talks to IBus.
use vstd::prelude::*;
use super::config::CompiledToggleKey;
use super::keymap::{
    has_modifier, is_release, keyval_to_char, printable, IBUS_CONTROL_MASK, IBUS_KEY_BACKSPACE,
    IBUS_KEY_DOWN, IBUS_KEY_ESCAPE, IBUS_KEY_F10, IBUS_KEY_F6, IBUS_KEY_F7, IBUS_KEY_F8, IBUS_KEY_F9,
    IBUS_KEY_LEFT, IBUS_KEY_PAGE_DOWN, IBUS_KEY_PAGE_UP, IBUS_KEY_RETURN, IBUS_KEY_RIGHT, IBUS_KEY_SPACE,
    IBUS_KEY_UP, IBUS_MOD1_MASK, IBUS_RELEASE_MASK, IBUS_SHIFT_MASK,
};

verus! {

/// The form a function key switches the focused segment to.
#[derive(Debug, Clone, Copy, PartialEq, Eq, Structural)]
pub enum FocusedForm {
    Hiragana,
    Katakana,
    HalfwidthKatakana,
    FullwidthRomaji,
    Romaji,
}

/// A key handled by conversion mode.
#[derive(Debug, Clone, Copy, PartialEq, Eq, Structural)]
pub enum ConversionKey {
    /// Next candidate of the focused segment.
    NextCandidate,
    /// Previous candidate of the focused segment.
    PreviousCandidate,
    /// Focus the next segment.
    FocusNext,
    /// Focus the previous segment.
    FocusPrevious,
    /// Extend the focused segment by one character.
    Extend,
    /// Shrink the focused segment by one character.
    Shrink,
    /// Commit the composed text.
    Commit,
    /// Cancel conversion and return to the preedit.
    Cancel,
}

/// The decision on a key event.
#[derive(Debug, Clone, Copy, PartialEq, Eq, Structural)]
pub enum KeyDecision {
    /// Not handled: the application gets the key.
    PassThrough,
    /// Handled with nothing more to do.
    Consume,
    /// Switch the input method on or off (cancelling input when switching off).
    Toggle,
    /// During conversion: switch the focused segment to another form.
    ConvertFocused(FocusedForm),
    /// Outside conversion: start kana conversion with this form
    /// (0 hiragana, 1 katakana, 2 half-width katakana, 3 romaji, 4 full-width romaji).
    StartKanaConversion(usize),
    /// During conversion: a conversion key.
    Conversion(ConversionKey),
    /// During conversion, a printable key that conversion does not use:
    /// commit the conversion, then decide the key as input.
    CommitThenInput,
    /// Outside conversion: decide the key as input.
    Input,
}

/// What an input key does outside conversion.
#[derive(Debug, Clone, Copy, PartialEq, Eq, Structural)]
pub enum InputKey {
    /// Start segment conversion.
    StartConversion,
    /// Commit the preedit as it is.
    CommitPreedit,
    /// Drop the preedit.
    CancelInput,
    /// Delete the last character.
    Backspace,
    /// A navigation key: consumed only while there is preedit text.
    Navigate,
    /// A symbol, entered as its full-width form.
    Symbol(char),
    /// A romaji letter (lower case) or `-` or `'`.
    Romaji(char),
    /// Anything else.
    Other,
}

// ---------------------------------------------------------------------------
// Full-width symbols
// ---------------------------------------------------------------------------

/// The full-width form of an ASCII symbol, for the symbols that have one.
pub open spec fn fullwidth_symbol(c: char) -> Option<char> {
    if c == ',' { Some('、') }
    else if c == '.' { Some('。') }
    else if c == '!' { Some('！') }
    else if c == '?' { Some('？') }
    else if c == '(' { Some('（') }
    else if c == ')' { Some('）') }
    else if c == '[' { Some('［') }
    else if c == ']' { Some('］') }
    else if c == '{' { Some('｛') }
    else if c == '}' { Some('｝') }
    else if c == '+' { Some('＋') }
    else if c == '=' { Some('＝') }
    else if c == '*' { Some('＊') }
    else if c == '/' { Some('／') }
    else if c == '\\' { Some('＼') }
    else if c == '&' { Some('＆') }
    else if c == '@' { Some('＠') }
    else if c == '#' { Some('＃') }
    else if c == '$' { Some('＄') }
    else if c == '%' { Some('％') }
    else if c == '^' { Some('＾') }
    else if c == '|' { Some('｜') }
    else if c == '~' { Some('～') }
    else if c == '<' { Some('＜') }
    else if c == '>' { Some('＞') }
    else if c == ':' { Some('：') }
    else if c == ';' { Some('；') }
    else if c == '_' { Some('＿') }
    else if c == '"' { Some('＂') }
    else if c == '`' { Some('｀') }
    else { None }
}

/// Full-width punctuation mapping.
pub fn to_fullwidth(c: char) -> (r: Option<char>)
    ensures
        r == fullwidth_symbol(c),
{
    match c {
        ',' => Some('、'),
        '.' => Some('。'),
        '!' => Some('！'),
        '?' => Some('？'),
        '(' => Some('（'),
        ')' => Some('）'),
        '[' => Some('［'),
        ']' => Some('］'),
        '{' => Some('｛'),
        '}' => Some('｝'),
        '+' => Some('＋'),
        '=' => Some('＝'),
        '*' => Some('＊'),
        '/' => Some('／'),
        '\\' => Some('＼'),
        '&' => Some('＆'),
        '@' => Some('＠'),
        '#' => Some('＃'),
        '$' => Some('＄'),
        '%' => Some('％'),
        '^' => Some('＾'),
        '|' => Some('｜'),
        '~' => Some('～'),
        '<' => Some('＜'),
        '>' => Some('＞'),
        ':' => Some('：'),
        ';' => Some('；'),
        '_' => Some('＿'),
        '"' => Some('＂'),
        '`' => Some('｀'),
        _ => None,
    }
}

/// Whether `c` goes to the romaji converter: an ASCII letter, `-` or `'`.
pub open spec fn romaji_input(c: char) -> bool {
    ('a' <= c <= 'z') || ('A' <= c <= 'Z') || c == '-' || c == '\''
}

/// ASCII lower case of a letter (other characters unchanged).
pub open spec fn ascii_lower_char(c: char) -> char {
    if 'A' <= c <= 'Z' { ((c as int) + 32) as char } else { c }
}

fn lower_ascii(c: char) -> (r: char)
    ensures
        r == ascii_lower_char(c),
{
    if 'A' <= c && c <= 'Z' {
        let b = c as u8;
        ((b + 32) as char)
    } else {
        c
    }
}

/// The input meaning of a printable character: a full-width symbol, a
/// romaji letter, or nothing.
pub open spec fn char_input(c: char) -> InputKey {
    match fullwidth_symbol(c) {
        Some(_) => InputKey::Symbol(c),
        None => if romaji_input(c) { InputKey::Romaji(ascii_lower_char(c)) } else { InputKey::Other },
    }
}

fn decide_char(c: char) -> (r: InputKey)
    ensures
        r == char_input(c),
{
    match to_fullwidth(c) {
        Some(_) => InputKey::Symbol(c),
        None => {
            if ('a' <= c && c <= 'z') || ('A' <= c && c <= 'Z') || c == '-' || c == '\'' {
                InputKey::Romaji(lower_ascii(c))
            } else {
                InputKey::Other
            }
        },
    }
}

// ---------------------------------------------------------------------------
// IBus decisions
// ---------------------------------------------------------------------------

/// The function keys F6 to F10.
pub open spec fn is_function_key(keyval: u32) -> bool {
    keyval == IBUS_KEY_F6 || keyval == IBUS_KEY_F7 || keyval == IBUS_KEY_F8 || keyval == IBUS_KEY_F9
        || keyval == IBUS_KEY_F10
}

/// Whether the event matches a toggle binding: same key, and exactly the
/// binding's Ctrl/Alt/Shift modifiers.
pub open spec fn matches_toggle(keys: Seq<CompiledToggleKey>, keyval: u32, state: u32) -> bool {
    exists|i: int| 0 <= i < keys.len() && (#[trigger] keys[i]).keyval == keyval
        && state & (IBUS_CONTROL_MASK | IBUS_MOD1_MASK | IBUS_SHIFT_MASK) == keys[i].modifier_mask
}

/// Checks if the given key event matches any configured toggle binding.
pub fn is_toggle_key(keys: &Vec<CompiledToggleKey>, keyval: u32, state: u32) -> (r: bool)
    ensures
        r == matches_toggle(keys@, keyval, state),
{
    let active = state & (IBUS_CONTROL_MASK | IBUS_MOD1_MASK | IBUS_SHIFT_MASK);
    let mut i: usize = 0;
    while i < keys.len()
        invariant
            i <= keys@.len(),
            active == state & (IBUS_CONTROL_MASK | IBUS_MOD1_MASK | IBUS_SHIFT_MASK),
            forall|j: int| 0 <= j < i ==> !((#[trigger] keys@[j]).keyval == keyval && active == keys@[j].modifier_mask),
        decreases keys.len() - i,
    {
        if keys[i].keyval == keyval && active == keys[i].modifier_mask {
            return true;
        }
        i += 1;
    }
    false
}

/// The form a function key stands for during conversion.
pub open spec fn focused_form(keyval: u32) -> FocusedForm {
    if keyval == IBUS_KEY_F6 { FocusedForm::Hiragana }
    else if keyval == IBUS_KEY_F8 { FocusedForm::HalfwidthKatakana }
    else if keyval == IBUS_KEY_F9 { FocusedForm::FullwidthRomaji }
    else if keyval == IBUS_KEY_F10 { FocusedForm::Romaji }
    else { FocusedForm::Katakana }
}

/// The kana-conversion form number a function key starts with.
pub open spec fn start_form(keyval: u32) -> usize {
    if keyval == IBUS_KEY_F6 { 0 }
    else if keyval == IBUS_KEY_F8 { 2 }
    else if keyval == IBUS_KEY_F9 { 4 }
    else if keyval == IBUS_KEY_F10 { 3 }
    else { 1 }
}

/// The conversion-mode meaning of a key, if it has one.
pub open spec fn ibus_conversion_key(keyval: u32, state: u32) -> Option<ConversionKey> {
    let shift = state & IBUS_SHIFT_MASK != 0;
    if keyval == IBUS_KEY_SPACE || keyval == IBUS_KEY_DOWN {
        Some(ConversionKey::NextCandidate)
    } else if keyval == IBUS_KEY_UP {
        Some(ConversionKey::PreviousCandidate)
    } else if keyval == IBUS_KEY_RIGHT {
        Some(if shift { ConversionKey::Extend } else { ConversionKey::FocusNext })
    } else if keyval == IBUS_KEY_LEFT {
        Some(if shift { ConversionKey::Shrink } else { ConversionKey::FocusPrevious })
    } else if keyval == IBUS_KEY_RETURN {
        Some(ConversionKey::Commit)
    } else if keyval == IBUS_KEY_ESCAPE {
        Some(ConversionKey::Cancel)
    } else {
        None
    }
}

/// The IBus engine's decision on a key event, in order: releases (only F6
/// to F10 are consumed, and only while enabled), toggle keys, Ctrl/Alt
/// combinations, a disabled engine, F6 to F10, conversion mode, input.
pub open spec fn ibus_decision(
    toggle: Seq<CompiledToggleKey>,
    enabled: bool,
    converting: bool,
    keyval: u32,
    state: u32,
) -> KeyDecision {
    if state & IBUS_RELEASE_MASK != 0 {
        if enabled && is_function_key(keyval) { KeyDecision::Consume } else { KeyDecision::PassThrough }
    } else if matches_toggle(toggle, keyval, state) {
        KeyDecision::Toggle
    } else if state & (IBUS_CONTROL_MASK | IBUS_MOD1_MASK) != 0 || !enabled {
        KeyDecision::PassThrough
    } else if is_function_key(keyval) {
        if converting {
            KeyDecision::ConvertFocused(focused_form(keyval))
        } else {
            KeyDecision::StartKanaConversion(start_form(keyval))
        }
    } else if converting {
        match ibus_conversion_key(keyval, state) {
            Some(k) => KeyDecision::Conversion(k),
            None => if printable(keyval) { KeyDecision::CommitThenInput } else { KeyDecision::Consume },
        }
    } else {
        KeyDecision::Input
    }
}

/// The input meaning of a key outside conversion (IBus key codes).
pub open spec fn ibus_input_key(keyval: u32) -> InputKey {
    if keyval == IBUS_KEY_SPACE {
        InputKey::StartConversion
    } else if keyval == IBUS_KEY_RETURN {
        InputKey::CommitPreedit
    } else if keyval == IBUS_KEY_ESCAPE {
        InputKey::CancelInput
    } else if keyval == IBUS_KEY_BACKSPACE {
        InputKey::Backspace
    } else if keyval == IBUS_KEY_LEFT || keyval == IBUS_KEY_RIGHT || keyval == IBUS_KEY_UP
        || keyval == IBUS_KEY_DOWN || keyval == IBUS_KEY_PAGE_UP || keyval == IBUS_KEY_PAGE_DOWN {
        InputKey::Navigate
    } else if printable(keyval) {
        char_input(keyval as char)
    } else {
        InputKey::Other
    }
}

fn function_key(keyval: u32) -> (r: bool)
    ensures
        r == is_function_key(keyval),
{
    keyval == IBUS_KEY_F6 || keyval == IBUS_KEY_F7 || keyval == IBUS_KEY_F8 || keyval == IBUS_KEY_F9
        || keyval == IBUS_KEY_F10
}

/// Decides a key in conversion mode (IBus key codes).
pub fn conversion_key(keyval: u32, state: u32) -> (r: Option<ConversionKey>)
    ensures
        r == ibus_conversion_key(keyval, state),
{
    let shift = state & IBUS_SHIFT_MASK != 0;
    if keyval == IBUS_KEY_SPACE || keyval == IBUS_KEY_DOWN {
        Some(ConversionKey::NextCandidate)
    } else if keyval == IBUS_KEY_UP {
        Some(ConversionKey::PreviousCandidate)
    } else if keyval == IBUS_KEY_RIGHT {
        Some(if shift { ConversionKey::Extend } else { ConversionKey::FocusNext })
    } else if keyval == IBUS_KEY_LEFT {
        Some(if shift { ConversionKey::Shrink } else { ConversionKey::FocusPrevious })
    } else if keyval == IBUS_KEY_RETURN {
        Some(ConversionKey::Commit)
    } else if keyval == IBUS_KEY_ESCAPE {
        Some(ConversionKey::Cancel)
    } else {
        None
    }
}

/// Decides an IBus key event.
pub fn decide_key(toggle: &Vec<CompiledToggleKey>, enabled: bool, converting: bool, keyval: u32, state: u32) -> (r: KeyDecision)
    ensures
        r == ibus_decision(toggle@, enabled, converting, keyval, state),
{
    if is_release(state) {
        if enabled && function_key(keyval) {
            return KeyDecision::Consume;
        }
        return KeyDecision::PassThrough;
    }
    if is_toggle_key(toggle, keyval, state) {
        return KeyDecision::Toggle;
    }
    if has_modifier(state) || !enabled {
        return KeyDecision::PassThrough;
    }
    if function_key(keyval) {
        if converting {
            let form = if keyval == IBUS_KEY_F6 {
                FocusedForm::Hiragana
            } else if keyval == IBUS_KEY_F8 {
                FocusedForm::HalfwidthKatakana
            } else if keyval == IBUS_KEY_F9 {
                FocusedForm::FullwidthRomaji
            } else if keyval == IBUS_KEY_F10 {
                FocusedForm::Romaji
            } else {
                FocusedForm::Katakana
            };
            return KeyDecision::ConvertFocused(form);
        }
        let form: usize = if keyval == IBUS_KEY_F6 {
            0
        } else if keyval == IBUS_KEY_F8 {
            2
        } else if keyval == IBUS_KEY_F9 {
            4
        } else if keyval == IBUS_KEY_F10 {
            3
        } else {
            1
        };
        return KeyDecision::StartKanaConversion(form);
    }
    if converting {
        return match conversion_key(keyval, state) {
            Some(k) => KeyDecision::Conversion(k),
            None => match keyval_to_char(keyval) {
                Some(_) => KeyDecision::CommitThenInput,
                None => KeyDecision::Consume,
            },
        };
    }
    KeyDecision::Input
}

/// Decides a key outside conversion (IBus key codes).
pub fn input_key(keyval: u32) -> (r: InputKey)
    ensures
        r == ibus_input_key(keyval),
{
    if keyval == IBUS_KEY_SPACE {
        InputKey::StartConversion
    } else if keyval == IBUS_KEY_RETURN {
        InputKey::CommitPreedit
    } else if keyval == IBUS_KEY_ESCAPE {
        InputKey::CancelInput
    } else if keyval == IBUS_KEY_BACKSPACE {
        InputKey::Backspace
    } else if keyval == IBUS_KEY_LEFT || keyval == IBUS_KEY_RIGHT || keyval == IBUS_KEY_UP
        || keyval == IBUS_KEY_DOWN || keyval == IBUS_KEY_PAGE_UP || keyval == IBUS_KEY_PAGE_DOWN {
        InputKey::Navigate
    } else {
        match keyval_to_char(keyval) {
            Some(c) => decide_char(c),
            None => InputKey::Other,
        }
    }
}

/// Decides a printable character as input.
pub fn char_key(c: char) -> (r: InputKey)
    ensures
        r == char_input(c),
{
    decide_char(c)
}

} // verus!
