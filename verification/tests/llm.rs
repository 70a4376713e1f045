use jaim::llm::{candidate_profile, is_hiragana, is_kanji, update_context};

#[test]
fn context_update() {
    let mut context = String::new();
    update_context(&mut context, "今日は");
    update_context(&mut context, "天気が");
    assert_eq!(context, "今日は天気が");
}

#[test]
fn context_truncation() {
    let mut context = String::new();
    for _ in 0..100 {
        update_context(&mut context, "あいうえおかきくけこ");
    }
    assert!(context.len() <= 600);
}

#[test]
fn context_keeps_last_two_hundred_characters() {
    let mut context = String::new();
    for _ in 0..100 {
        update_context(&mut context, "あいうえおかきくけこ");
    }
    assert_eq!(context.chars().count(), 200);
    assert!(context.starts_with("あいう") && context.ends_with("けこ"));
    // 100 kana fit whole (300 bytes, 100 characters).
    let mut kana = String::new();
    update_context(&mut kana, &"か".repeat(100));
    assert_eq!(kana.chars().count(), 100);
    let mut ascii = "x".repeat(150);
    update_context(&mut ascii, &"y".repeat(100));
    assert_eq!(ascii.len(), 200);
    assert_eq!(&ascii[..100], &"x".repeat(100));
}

#[test]
fn character_classes() {
    assert!(is_kanji('今'));
    assert!(is_kanji('\u{3400}'));
    assert!(!is_kanji('あ'));
    assert!(is_hiragana('あ'));
    assert!(!is_hiragana('ア'));
}

#[test]
fn profiles() {
    let p = candidate_profile("食べる");
    assert_eq!((p.chars, p.kanji, p.all_hiragana, p.first_hiragana), (3, 1, false, false));
    let p = candidate_profile("たべる");
    assert_eq!((p.chars, p.kanji, p.all_hiragana, p.first_hiragana), (3, 0, true, true));
    let p = candidate_profile("");
    assert_eq!((p.chars, p.kanji, p.all_hiragana, p.first_hiragana), (0, 0, true, false));
}
