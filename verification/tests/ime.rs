use jaim::ime::bus::bus_address;
use jaim::engine::{ConversionState, SegmentState};
use jaim::ime::capi::{capi_input_key, capi_key, ui_snapshot, JaimSegmentInfo};
use jaim::ime::config::{CompiledToggleKey, JaimConfig, ToggleKeyBinding};
use jaim::ime::dispatch::{
    char_key, conversion_key, decide_key, input_key, is_toggle_key, to_fullwidth, ConversionKey,
    FocusedForm, InputKey, KeyDecision,
};
use jaim::ime::keymap::{
    has_modifier, is_printable_ascii, is_release, keyval_to_char, IBUS_CONTROL_MASK, IBUS_KEY_DOWN,
    IBUS_KEY_F10, IBUS_KEY_F6, IBUS_KEY_F7, IBUS_KEY_F8, IBUS_KEY_F9, IBUS_KEY_LEFT, IBUS_KEY_RETURN,
    IBUS_KEY_RIGHT, IBUS_KEY_SPACE, IBUS_MOD1_MASK, IBUS_RELEASE_MASK, IBUS_SHIFT_MASK,
};

fn binding(keyval: &str, mods: &[&str]) -> ToggleKeyBinding {
    ToggleKeyBinding { keyval: keyval.to_string(), modifiers: mods.iter().map(|m| m.to_string()).collect() }
}

fn compiled(config: &JaimConfig) -> Vec<(u32, u32)> {
    config.compile_toggle_keys().iter().map(|k| (k.keyval, k.modifier_mask)).collect()
}

#[test]
fn keymap_basics() {
    assert!(is_printable_ascii(0x20));
    assert!(is_printable_ascii(0x7E));
    assert!(!is_printable_ascii(0x7F));
    assert_eq!(keyval_to_char(0x61), Some('a'));
    assert_eq!(keyval_to_char(0xFF0D), None);
    assert!(has_modifier(IBUS_CONTROL_MASK));
    assert!(has_modifier(IBUS_MOD1_MASK | IBUS_SHIFT_MASK));
    assert!(!has_modifier(IBUS_SHIFT_MASK));
    assert!(is_release(IBUS_RELEASE_MASK | IBUS_SHIFT_MASK));
    assert!(!is_release(IBUS_CONTROL_MASK));
}

#[test]
fn default_config_is_ctrl_shift_space() {
    let config = JaimConfig::default();
    assert_eq!(compiled(&config), vec![(0x20, 0x5)]);
}

#[test]
fn compile_named_and_hex_keys() {
    let config = JaimConfig {
        toggle_keys: vec![
            binding("Zenkaku_Hankaku", &[]),
            binding("0xff2a", &["Alt", "bogus"]),
            binding("A", &["CONTROL", "mod1"]),
            binding("nosuchkey", &["ctrl"]),
            binding("0x1FFFFFFFF", &[]),
            binding("0x+10", &[]),
            binding("0x", &[]),
            binding(" ", &[]),
            binding("Enter", &["shift"]),
        ],
    };
    assert_eq!(
        compiled(&config),
        vec![(0xFF2A, 0), (0xFF2A, 0x8), (0x61, 0xC), (0x10, 0), (0xFF0D, 0x1)]
    );
}

#[test]
fn toggle_key_matching_ignores_other_bits() {
    let keys = vec![CompiledToggleKey { keyval: 0x20, modifier_mask: 0x5 }];
    assert!(is_toggle_key(&keys, 0x20, 0x5));
    assert!(is_toggle_key(&keys, 0x20, 0x5 | 0x10));
    assert!(!is_toggle_key(&keys, 0x20, 0x4));
    assert!(!is_toggle_key(&keys, 0x21, 0x5));
}

#[test]
fn ibus_release_and_toggle() {
    let keys = JaimConfig::default().compile_toggle_keys();
    assert_eq!(decide_key(&keys, true, false, IBUS_KEY_F10, IBUS_RELEASE_MASK), KeyDecision::Consume);
    assert_eq!(decide_key(&keys, false, false, IBUS_KEY_F10, IBUS_RELEASE_MASK), KeyDecision::PassThrough);
    assert_eq!(decide_key(&keys, true, false, 0x61, IBUS_RELEASE_MASK), KeyDecision::PassThrough);
    assert_eq!(decide_key(&keys, false, false, IBUS_KEY_SPACE, 0x5), KeyDecision::Toggle);
    assert_eq!(decide_key(&keys, true, false, 0x63, IBUS_CONTROL_MASK), KeyDecision::PassThrough);
    assert_eq!(decide_key(&keys, false, false, 0x61, 0), KeyDecision::PassThrough);
}

#[test]
fn ibus_function_keys() {
    let keys = Vec::new();
    assert_eq!(decide_key(&keys, true, false, IBUS_KEY_F6, 0), KeyDecision::StartKanaConversion(0));
    assert_eq!(decide_key(&keys, true, false, IBUS_KEY_F7, 0), KeyDecision::StartKanaConversion(1));
    assert_eq!(decide_key(&keys, true, false, IBUS_KEY_F8, 0), KeyDecision::StartKanaConversion(2));
    assert_eq!(decide_key(&keys, true, false, IBUS_KEY_F9, 0), KeyDecision::StartKanaConversion(4));
    assert_eq!(decide_key(&keys, true, false, IBUS_KEY_F10, 0), KeyDecision::StartKanaConversion(3));
    assert_eq!(decide_key(&keys, true, true, IBUS_KEY_F6, 0), KeyDecision::ConvertFocused(FocusedForm::Hiragana));
    assert_eq!(decide_key(&keys, true, true, IBUS_KEY_F7, 0), KeyDecision::ConvertFocused(FocusedForm::Katakana));
    assert_eq!(decide_key(&keys, true, true, IBUS_KEY_F8, 0), KeyDecision::ConvertFocused(FocusedForm::HalfwidthKatakana));
    assert_eq!(decide_key(&keys, true, true, IBUS_KEY_F9, 0), KeyDecision::ConvertFocused(FocusedForm::FullwidthRomaji));
    assert_eq!(decide_key(&keys, true, true, IBUS_KEY_F10, 0), KeyDecision::ConvertFocused(FocusedForm::Romaji));
}

#[test]
fn ibus_conversion_keys() {
    let keys = Vec::new();
    assert_eq!(conversion_key(IBUS_KEY_SPACE, 0), Some(ConversionKey::NextCandidate));
    assert_eq!(conversion_key(IBUS_KEY_DOWN, 0), Some(ConversionKey::NextCandidate));
    // X11 keysyms: Right is 0xFF53 and moves the focus; Down is 0xFF54 and cycles.
    assert_eq!(conversion_key(0xFF53, 0), Some(ConversionKey::FocusNext));
    assert_eq!(conversion_key(0xFF54, 0), Some(ConversionKey::NextCandidate));
    assert_eq!(conversion_key(IBUS_KEY_RIGHT, IBUS_SHIFT_MASK), Some(ConversionKey::Extend));
    assert_eq!(conversion_key(IBUS_KEY_LEFT, IBUS_SHIFT_MASK), Some(ConversionKey::Shrink));
    assert_eq!(conversion_key(IBUS_KEY_LEFT, 0), Some(ConversionKey::FocusPrevious));
    assert_eq!(conversion_key(IBUS_KEY_RETURN, 0), Some(ConversionKey::Commit));
    assert_eq!(decide_key(&keys, true, true, 0x61, 0), KeyDecision::CommitThenInput);
    assert_eq!(decide_key(&keys, true, true, 0xFFE1, 0), KeyDecision::Consume);
    assert_eq!(decide_key(&keys, true, true, IBUS_KEY_RIGHT, 0), KeyDecision::Conversion(ConversionKey::FocusNext));
    assert_eq!(decide_key(&keys, true, false, 0x61, 0), KeyDecision::Input);
}

#[test]
fn ibus_input_keys() {
    assert_eq!(input_key(IBUS_KEY_SPACE), InputKey::StartConversion);
    assert_eq!(input_key(IBUS_KEY_RETURN), InputKey::CommitPreedit);
    assert_eq!(input_key(0xFF1B), InputKey::CancelInput);
    assert_eq!(input_key(0xFF08), InputKey::Backspace);
    assert_eq!(input_key(0xFF55), InputKey::Navigate);
    assert_eq!(input_key(0x2C), InputKey::Symbol(','));
    assert_eq!(input_key(0x41), InputKey::Romaji('a'));
    assert_eq!(input_key(0x2D), InputKey::Romaji('-'));
    assert_eq!(input_key(0x31), InputKey::Other);
    assert_eq!(input_key(0xFFE1), InputKey::Other);
    assert_eq!(char_key('\''), InputKey::Romaji('\''));
    assert_eq!(to_fullwidth('.'), Some('。'));
    assert_eq!(to_fullwidth('`'), Some('｀'));
    assert_eq!(to_fullwidth('a'), None);
}

#[test]
fn capi_decisions() {
    // Releases of F6..F10 are consumed only with preedit or conversion.
    assert_eq!(capi_key(false, false, 0xFFC7, 1 << 30), KeyDecision::PassThrough);
    assert_eq!(capi_key(false, true, 0xFFC7, 1 << 30), KeyDecision::Consume);
    assert_eq!(capi_key(false, true, 0x61, 0x4), KeyDecision::PassThrough);
    assert_eq!(capi_key(false, false, 0xFFC5, 0), KeyDecision::StartKanaConversion(2));
    assert_eq!(capi_key(true, false, 0xFFC6, 0), KeyDecision::ConvertFocused(FocusedForm::FullwidthRomaji));
    // The C interface uses the standard keysyms for Right (0xFF53) and Down (0xFF54).
    assert_eq!(capi_key(true, false, 0xFF53, 0x1), KeyDecision::Conversion(ConversionKey::Extend));
    assert_eq!(capi_key(true, false, 0xFF54, 0), KeyDecision::Conversion(ConversionKey::NextCandidate));
    assert_eq!(capi_key(true, false, 0x2E, 0), KeyDecision::CommitThenInput);
    assert_eq!(capi_key(true, false, 0xFFE1, 0), KeyDecision::PassThrough);
    assert_eq!(capi_key(false, false, 0x61, 0), KeyDecision::Input);
    assert_eq!(capi_input_key(0x20), InputKey::StartConversion);
    assert_eq!(capi_input_key(0xFF53), InputKey::Navigate);
    assert_eq!(capi_input_key(0x3F), InputKey::Symbol('?'));
    assert_eq!(capi_input_key(0x5A), InputKey::Romaji('z'));
}

fn seg(reading: &str, start: usize, candidates: &[&str]) -> SegmentState {
    SegmentState::from_surfaces(reading.to_string(), start, candidates.iter().map(|c| c.to_string()).collect())
}

#[test]
fn ui_snapshot_while_converting() {
    let mut st = ConversionState::new(
        "きょうは".to_string(),
        vec![seg("きょう", 0, &["今日", "京"]), seg("は", 3, &["は"])],
    )
    .unwrap();
    st.move_focus(1);
    let snap = ui_snapshot(Some("前".to_string()), true, Some(&st), String::new());
    assert_eq!(snap.committed.as_deref(), Some("前"));
    assert!(snap.converting);
    assert!(snap.has_preedit);
    assert_eq!(snap.preedit.as_deref(), Some("今日は"));
    assert_eq!(snap.segment_count, 2);
    assert_eq!(snap.focus_index, 1);
    assert_eq!(
        snap.segments,
        vec![JaimSegmentInfo { start_chars: 0, char_len: 2 }, JaimSegmentInfo { start_chars: 2, char_len: 1 }]
    );
    assert_eq!(snap.candidate_count, 1);
    assert_eq!(snap.selected_index, 0);
    assert_eq!(snap.candidates, vec!["は"]);
}

#[test]
fn ui_snapshot_with_preedit() {
    let snap = ui_snapshot(None, false, None, "かn".to_string());
    assert!(!snap.converting);
    assert!(snap.has_preedit);
    assert_eq!(snap.preedit.as_deref(), Some("かn"));
    assert_eq!(snap.segment_count, 0);
    let empty = ui_snapshot(None, false, None, String::new());
    assert!(!empty.has_preedit);
    assert!(empty.preedit.is_none());
    let lost = ui_snapshot(None, true, None, "x".to_string());
    assert!(!lost.has_preedit);
    assert!(lost.preedit.is_none());
}

#[test]
fn bus_file_address() {
    let file = "# session bus\n\
IBUS_ADDRESS=unix:path=/home/u/.cache/ibus/dbus-Abc,guid=123\n\
IBUS_DAEMON_PID=4242\n";
    assert_eq!(bus_address(file), Some("unix:path=/home/u/.cache/ibus/dbus-Abc,guid=123".to_string()));
    // A carriage return before the line feed is not part of the address.
    assert_eq!(bus_address("IBUS_ADDRESS=unix:a\r\nX=1"), Some("unix:a".to_string()));
    // An empty address is skipped for a later line.
    assert_eq!(bus_address("IBUS_ADDRESS=\nIBUS_ADDRESS=unix:b"), Some("unix:b".to_string()));
    // The first address wins.
    assert_eq!(bus_address("IBUS_ADDRESS=unix:c\nIBUS_ADDRESS=unix:d\n"), Some("unix:c".to_string()));
    // A key further into a line does not count.
    assert_eq!(bus_address(" IBUS_ADDRESS=unix:e"), None);
    assert_eq!(bus_address(""), None);
    assert_eq!(bus_address("IBUS_ADDRESS"), None);
}
