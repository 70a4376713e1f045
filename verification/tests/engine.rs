use jaim::dictionary::{DictionaryEntry, PartOfSpeech, Segment};
use jaim::engine::{build_candidates, tokens_for_grammar, ConversionState, SegmentState};

fn seg(reading: &str, start: usize, candidates: &[&str]) -> SegmentState {
    SegmentState::from_surfaces(reading.to_string(), start, candidates.iter().map(|c| c.to_string()).collect())
}

/// きょう|は|いい|てんき
fn sample() -> ConversionState {
    ConversionState::new(
        "きょうはいいてんき".to_string(),
        vec![
            seg("きょう", 0, &["今日", "京"]),
            seg("は", 3, &["は", "歯", "葉"]),
            seg("いい", 4, &["いい"]),
            seg("てんき", 6, &["天気"]),
        ],
    )
    .unwrap()
}

#[test]
fn segment_state_appends_reading_fallback() {
    let s = seg("きょう", 0, &["今日", "京"]);
    assert_eq!(s.candidates, vec!["今日", "京", "きょう"]);
    let t = seg("は", 0, &["は", "歯"]);
    assert_eq!(t.candidates, vec!["は", "歯"]);
    let u = seg("ぱ", 0, &[]);
    assert_eq!(u.candidates, vec!["ぱ"]);
    assert_eq!(u.selected, 0);
    assert!(!u.user_selected);
}

#[test]
fn new_rejects_segments_that_do_not_tile() {
    let gap = vec![seg("きょう", 0, &["今日"]), seg("は", 4, &["は"])];
    assert!(ConversionState::new("きょうは".to_string(), gap).is_none());
    let wrong = vec![seg("きょう", 0, &["今日"]), seg("が", 3, &["が"])];
    assert!(ConversionState::new("きょうは".to_string(), wrong).is_none());
    assert!(ConversionState::new("きょうは".to_string(), Vec::new()).is_none());
    let short = vec![seg("きょう", 0, &["今日"])];
    assert!(ConversionState::new("きょうは".to_string(), short).is_none());
}

#[test]
fn composed_text_and_ranges() {
    let st = sample();
    assert_eq!(st.composed_text(), "今日はいい天気");
    assert_eq!(st.segment_char_ranges(), vec![(0, 2), (2, 3), (3, 5), (5, 7)]);
}

#[test]
fn move_focus_wraps() {
    let mut st = sample();
    st.move_focus(1);
    assert_eq!(st.focus, 1);
    st.move_focus(-1);
    assert_eq!(st.focus, 0);
    st.move_focus(-1);
    assert_eq!(st.focus, 3);
    st.move_focus(1);
    assert_eq!(st.focus, 0);
}

#[test]
fn cycle_candidate_wraps_and_marks() {
    let mut st = sample();
    st.cycle_candidate(1);
    assert_eq!(st.segments[0].selected, 1);
    assert!(st.segments[0].user_selected);
    assert_eq!(st.composed_text(), "京はいい天気");
    st.cycle_candidate(1);
    st.cycle_candidate(1);
    assert_eq!(st.segments[0].selected, 0);
    st.cycle_candidate(-1);
    assert_eq!(st.segments[0].selected, 2);
    assert_eq!(st.composed_text(), "きょうはいい天気");
    assert!(!st.segments[1].user_selected);
}

#[test]
fn convert_focused_forms() {
    let mut st = sample();
    st.move_focus(1);
    st.move_focus(1);
    st.move_focus(1);
    st.convert_focused_to_katakana();
    assert_eq!(st.composed_text(), "今日はいいテンキ");
    assert_eq!(st.segments[3].candidates.len(), 3);
    st.convert_focused_to_hiragana();
    assert_eq!(st.composed_text(), "今日はいいてんき");
    assert_eq!(st.segments[3].selected, 1);
    st.convert_focused_to_halfwidth_katakana();
    assert_eq!(st.composed_text(), "今日はいいﾃﾝｷ");
    st.convert_focused_to_romaji();
    assert_eq!(st.composed_text(), "今日はいいtenki");
    st.convert_focused_to_fullwidth_romaji();
    assert_eq!(st.composed_text(), "今日はいいｔｅｎｋｉ");
    assert!(st.segments[3].user_selected);
}

#[test]
fn resize_extends_and_shrinks() {
    let mut st = sample();
    // Extend きょう by one: takes は, which disappears.
    assert!(st.resize_readings(1));
    let readings: Vec<&str> = st.segments.iter().map(|s| s.reading.as_str()).collect();
    assert_eq!(readings, vec!["きょうは", "いい", "てんき"]);
    assert_eq!(st.segments[1].start, 4);
    // Extend again: takes い from いい.
    assert!(st.resize_readings(1));
    let readings: Vec<&str> = st.segments.iter().map(|s| s.reading.as_str()).collect();
    assert_eq!(readings, vec!["きょうはい", "い", "てんき"]);
    assert_eq!(st.segments[1].start, 5);
    // Shrink: the last character moves back to the next segment.
    assert!(st.resize_readings(-1));
    let readings: Vec<&str> = st.segments.iter().map(|s| s.reading.as_str()).collect();
    assert_eq!(readings, vec!["きょうは", "いい", "てんき"]);
    assert_eq!(st.segments[1].start, 4);
}

#[test]
fn resize_at_the_edges() {
    let mut st = sample();
    st.move_focus(-1);
    // The last segment cannot extend.
    assert!(!st.resize_readings(1));
    // Shrinking the last segment creates a new one after it.
    assert!(st.resize_readings(-1));
    let readings: Vec<&str> = st.segments.iter().map(|s| s.reading.as_str()).collect();
    assert_eq!(readings, vec!["きょう", "は", "いい", "てん", "き"]);
    assert_eq!(st.segments[4].candidates, vec!["き"]);
    assert_eq!(st.segments[4].start, 8);
    // A one-character segment cannot shrink.
    st.move_focus(-1);
    st.move_focus(-1);
    assert_eq!(st.segments[st.focus].reading, "は");
    assert!(!st.resize_readings(-1));
}

#[test]
fn set_candidates_and_mark() {
    let mut st = sample();
    st.resize_readings(1);
    st.set_candidates(0, vec!["今日は".to_string()]);
    assert_eq!(st.segments[0].candidates, vec!["今日は", "きょうは"]);
    assert_eq!(st.segments[0].selected, 0);
    st.mark_resized();
    assert!(st.segments[0].user_selected);
    assert!(st.segments[1].user_selected);
    assert!(!st.segments[2].user_selected);
}

#[test]
fn user_selections_in_order() {
    let mut st = sample();
    st.cycle_candidate(1);
    st.move_focus(1);
    st.move_focus(1);
    st.move_focus(1);
    st.convert_focused_to_katakana();
    let picks = st.user_selections();
    assert_eq!(
        picks,
        vec![("きょう".to_string(), "京".to_string()), ("てんき".to_string(), "テンキ".to_string())]
    );
}

#[test]
fn kana_forms_state() {
    let st = ConversionState::for_kana_forms("てすと".to_string(), 1);
    assert_eq!(st.segments.len(), 1);
    assert_eq!(st.segments[0].candidates, vec!["てすと", "テスト", "ﾃｽﾄ", "tesuto", "ｔｅｓｕｔｏ"]);
    assert_eq!(st.segments[0].selected, 1);
    assert!(st.segments[0].user_selected);
    // F10: half-width alphanumerics; F9: full-width.
    let st = ConversionState::for_kana_forms("か".to_string(), 3);
    assert_eq!(st.segments[0].candidates[st.segments[0].selected], "ka");
    let st = ConversionState::for_kana_forms("か".to_string(), 4);
    assert_eq!(st.segments[0].candidates[st.segments[0].selected], "ｋａ");
    let st = ConversionState::for_kana_forms("てすと".to_string(), 7);
    assert_eq!(st.segments[0].selected, 4);
    let st = ConversionState::for_kana_forms("てすと".to_string(), 0);
    assert!(!st.segments[0].user_selected);
    // Forms that coincide are offered once, and each key picks its own form.
    let st = ConversionState::for_kana_forms("ー".to_string(), 2);
    assert_eq!(st.segments[0].candidates, vec!["ー", "ｰ", "-"]);
    assert_eq!(st.segments[0].selected, 1);
    let st = ConversionState::for_kana_forms("ー".to_string(), 1);
    assert_eq!(st.segments[0].selected, 0);
    let st = ConversionState::for_kana_forms("ー".to_string(), 3);
    assert_eq!(st.segments[0].selected, 2);
}

#[test]
fn composed_text_needs_only_valid_selections() {
    let st = ConversionState {
        kana: String::new(),
        segments: vec![
            SegmentState { reading: "きょう".to_string(), start: 0, candidates: vec!["今日".to_string(), "京".to_string()], selected: 1, user_selected: false },
            SegmentState { reading: "は".to_string(), start: 3, candidates: vec!["は".to_string()], selected: 0, user_selected: false },
        ],
        focus: 5,
    };
    assert_eq!(st.composed_text(), "京は");
    assert_eq!(st.segment_char_ranges(), vec![(0, 1), (1, 2)]);
}

fn entry(reading: &str, surface: &str, pos: PartOfSpeech, frequency: u32) -> DictionaryEntry {
    DictionaryEntry { reading: reading.to_string(), surface: surface.to_string(), pos, frequency }
}

fn dseg(reading: &str, start: usize, cands: Vec<DictionaryEntry>) -> Segment {
    Segment { reading: reading.to_string(), start, len: reading.chars().count(), candidates: cands }
}

#[test]
fn sentence_candidates_swap_one_segment() {
    let segments = vec![
        dseg("あめ", 0, vec![
            entry("あめ", "雨", PartOfSpeech::Noun, 8000),
            entry("あめ", "飴", PartOfSpeech::Noun, 6000),
            entry("あめ", "天", PartOfSpeech::Noun, 4000),
        ]),
        dseg("が", 2, vec![entry("が", "が", PartOfSpeech::Particle, 9800)]),
        dseg("ぱ", 3, vec![]),
    ];
    let c = build_candidates(&segments);
    assert_eq!(c, vec!["雨がぱ", "飴がぱ", "天がぱ", "あめがぱ"]);
    let tokens = tokens_for_grammar(&segments);
    assert_eq!(tokens.len(), 3);
    assert_eq!(tokens[0].surface, "雨");
    assert_eq!(tokens[2].surface, "ぱ");
    assert_eq!(tokens[2].pos, PartOfSpeech::Other);
}

#[test]
fn sentence_candidates_without_repeats() {
    let segments = vec![dseg("は", 0, vec![
        entry("は", "は", PartOfSpeech::Particle, 9800),
        entry("は", "歯", PartOfSpeech::Noun, 5000),
        entry("は", "葉", PartOfSpeech::Noun, 5500),
        entry("は", "刃", PartOfSpeech::Noun, 4000),
        entry("は", "派", PartOfSpeech::Noun, 3000),
    ])];
    let c = build_candidates(&segments);
    // Only the second to fourth candidates are tried; the raw kana is already there.
    assert_eq!(c, vec!["は", "歯", "葉", "刃"]);
}

#[test]
fn resize_as_a_whole() {
    let mut st = sample();
    let kana: String = st.kana.clone();
    assert!(st.resize_readings(1));
    st.set_candidates(0, vec!["今日は".to_string()]);
    st.set_candidates(1, vec!["良い".to_string(), "いい".to_string()]);
    st.mark_resized();
    assert_eq!(st.kana, kana);
    assert_eq!(st.focus, 0);
    let readings: Vec<&str> = st.segments.iter().map(|s| s.reading.as_str()).collect();
    assert_eq!(readings, vec!["きょうは", "いい", "てんき"]);
    assert_eq!(st.segments[0].candidates, vec!["今日は", "きょうは"]);
    assert_eq!(st.segments[1].candidates, vec!["良い", "いい"]);
    for k in 0..2 {
        assert_eq!(st.segments[k].selected, 0);
        assert!(st.segments[k].user_selected);
    }
    assert_eq!(st.composed_text(), "今日は良い天気");
}

#[test]
fn refresh_after_resize() {
    let mut st = sample();
    assert!(st.resize_readings(1));
    st.refresh_resized(vec!["今日は".to_string()], vec!["良い".to_string(), "いい".to_string()]);
    assert_eq!(st.segments[0].candidates, vec!["今日は", "きょうは"]);
    assert_eq!(st.segments[1].candidates, vec!["良い", "いい"]);
    assert!(st.segments[0].user_selected && st.segments[1].user_selected);
    assert_eq!((st.segments[0].selected, st.segments[1].selected), (0, 0));
    assert_eq!(st.segments[2].candidates, vec!["天気", "てんき"]);
    assert!(!st.segments[2].user_selected);
    // At the last segment there is no next one to refresh.
    st.move_focus(-1);
    assert!(st.resize_readings(-1));
    st.refresh_resized(vec!["天".to_string()], vec!["木".to_string()]);
    assert_eq!(st.segments[2].candidates, vec!["天", "てん"]);
    assert_eq!(st.segments[3].candidates, vec!["木", "き"]);
}
