use jaim::romaji::{
    hiragana_to_fullwidth_romaji, hiragana_to_halfwidth_katakana, hiragana_to_katakana,
    hiragana_to_romaji, RomajiConverter,
};

fn convert(input: &str) -> String {
    let mut conv = RomajiConverter::new();
    let mut result = String::new();
    for ch in input.chars() {
        if let Some(kana) = conv.process_key(ch) {
            result.push_str(&kana);
        }
    }
    if let Some(kana) = conv.flush() {
        result.push_str(&kana);
    }
    result
}

#[test]
fn vowels() {
    assert_eq!(convert("a"), "あ");
    assert_eq!(convert("i"), "い");
    assert_eq!(convert("u"), "う");
    assert_eq!(convert("e"), "え");
    assert_eq!(convert("o"), "お");
}

#[test]
fn basic_consonant_vowel() {
    assert_eq!(convert("ka"), "か");
    assert_eq!(convert("ki"), "き");
    assert_eq!(convert("ku"), "く");
    assert_eq!(convert("ke"), "け");
    assert_eq!(convert("ko"), "こ");
    assert_eq!(convert("sa"), "さ");
    assert_eq!(convert("ta"), "た");
    assert_eq!(convert("na"), "な");
    assert_eq!(convert("ha"), "は");
    assert_eq!(convert("ma"), "ま");
    assert_eq!(convert("ya"), "や");
    assert_eq!(convert("ra"), "ら");
    assert_eq!(convert("wa"), "わ");
}

#[test]
fn shi_chi_tsu_fu() {
    assert_eq!(convert("shi"), "し");
    assert_eq!(convert("si"), "し");
    assert_eq!(convert("chi"), "ち");
    assert_eq!(convert("ti"), "ち");
    assert_eq!(convert("tsu"), "つ");
    assert_eq!(convert("tu"), "つ");
    assert_eq!(convert("fu"), "ふ");
    assert_eq!(convert("hu"), "ふ");
}

#[test]
fn compound_sounds() {
    assert_eq!(convert("sha"), "しゃ");
    assert_eq!(convert("shu"), "しゅ");
    assert_eq!(convert("sho"), "しょ");
    assert_eq!(convert("cha"), "ちゃ");
    assert_eq!(convert("chu"), "ちゅ");
    assert_eq!(convert("cho"), "ちょ");
    assert_eq!(convert("ja"), "じゃ");
    assert_eq!(convert("ju"), "じゅ");
    assert_eq!(convert("jo"), "じょ");
    assert_eq!(convert("kya"), "きゃ");
    assert_eq!(convert("kyu"), "きゅ");
    assert_eq!(convert("kyo"), "きょ");
    assert_eq!(convert("nya"), "にゃ");
    assert_eq!(convert("nyu"), "にゅ");
    assert_eq!(convert("nyo"), "にょ");
}

#[test]
fn double_consonant() {
    assert_eq!(convert("kka"), "っか");
    assert_eq!(convert("tta"), "った");
    assert_eq!(convert("ssa"), "っさ");
    assert_eq!(convert("ppa"), "っぱ");
    assert_eq!(convert("cchi"), "っち");
}

#[test]
fn tchi() {
    assert_eq!(convert("tchi"), "っち");
}

#[test]
fn n_handling() {
    assert_eq!(convert("na"), "な");
    assert_eq!(convert("ni"), "に");
    assert_eq!(convert("nn"), "ん");
    assert_eq!(convert("n'"), "ん");
    assert_eq!(convert("nk"), "ん");
    assert_eq!(convert("kanji"), "かんじ");
    assert_eq!(convert("shinbun"), "しんぶん");
}

#[test]
fn n_flush() {
    let mut conv = RomajiConverter::new();
    conv.process_key('n');
    assert_eq!(conv.flush(), Some("ん".to_string()));
}

#[test]
fn small_kana() {
    assert_eq!(convert("xtu"), "っ");
    assert_eq!(convert("ltu"), "っ");
    assert_eq!(convert("xa"), "ぁ");
    assert_eq!(convert("la"), "ぁ");
}

#[test]
fn long_vowel_mark() {
    assert_eq!(convert("-"), "ー");
}

#[test]
fn word_toukyou() {
    assert_eq!(convert("toukyou"), "とうきょう");
}

#[test]
fn word_gakkou() {
    assert_eq!(convert("gakkou"), "がっこう");
}

#[test]
fn word_konnichiwa() {
    assert_eq!(convert("konnichiwa"), "こんいちわ");
    assert_eq!(convert("konnnichiwa"), "こんにちわ");
}

#[test]
fn word_nihongo() {
    assert_eq!(convert("nihongo"), "にほんご");
}

#[test]
fn word_senshuu() {
    assert_eq!(convert("senshuu"), "せんしゅう");
}

#[test]
fn output_accumulates() {
    let mut conv = RomajiConverter::new();
    for ch in "toukyou".chars() {
        conv.process_key(ch);
    }
    assert_eq!(conv.output(), "とうきょう");
}

#[test]
fn wo_particle() {
    assert_eq!(convert("wo"), "を");
}

#[test]
fn hiragana_to_katakana_basic() {
    assert_eq!(hiragana_to_katakana("ぷろんぷと"), "プロンプト");
}

#[test]
fn hiragana_to_katakana_mixed() {
    assert_eq!(hiragana_to_katakana("こーひー"), "コーヒー");
    assert_eq!(hiragana_to_katakana("あ"), "ア");
}

#[test]
fn hiragana_to_katakana_empty() {
    assert_eq!(hiragana_to_katakana(""), "");
}

#[test]
fn halfwidth_katakana_basic() {
    assert_eq!(hiragana_to_halfwidth_katakana("ぷろんぷと"), "ﾌﾟﾛﾝﾌﾟﾄ");
}

#[test]
fn halfwidth_katakana_dakuten() {
    assert_eq!(hiragana_to_halfwidth_katakana("がぎぐげご"), "ｶﾞｷﾞｸﾞｹﾞｺﾞ");
    assert_eq!(hiragana_to_halfwidth_katakana("ぱぴぷぺぽ"), "ﾊﾟﾋﾟﾌﾟﾍﾟﾎﾟ");
}

#[test]
fn halfwidth_katakana_small() {
    assert_eq!(hiragana_to_halfwidth_katakana("っ"), "ｯ");
    assert_eq!(hiragana_to_halfwidth_katakana("ゃゅょ"), "ｬｭｮ");
}

#[test]
fn halfwidth_katakana_punctuation() {
    assert_eq!(hiragana_to_halfwidth_katakana("。、"), "｡､");
}

#[test]
fn halfwidth_symbols() {
    assert_eq!(hiragana_to_halfwidth_katakana("！？"), "!?");
    assert_eq!(hiragana_to_halfwidth_katakana("（）"), "()");
}

#[test]
fn romaji_basic() {
    assert_eq!(hiragana_to_romaji("か"), "ka");
    assert_eq!(hiragana_to_romaji("し"), "si");
    assert_eq!(hiragana_to_romaji("ち"), "ti");
    assert_eq!(hiragana_to_romaji("つ"), "tu");
}

#[test]
fn romaji_words() {
    assert_eq!(hiragana_to_romaji("とうきょう"), "toukyou");
    assert_eq!(hiragana_to_romaji("にほんご"), "nihongo");
}

#[test]
fn romaji_sokuon() {
    assert_eq!(hiragana_to_romaji("がっこう"), "gakkou");
    assert_eq!(hiragana_to_romaji("きって"), "kitte");
}

#[test]
fn romaji_fullwidth_symbols() {
    assert_eq!(hiragana_to_romaji("。"), ".");
    assert_eq!(hiragana_to_romaji("、"), ",");
    assert_eq!(hiragana_to_romaji("！"), "!");
}

#[test]
fn romaji_compound() {
    let sha = hiragana_to_romaji("しゃ");
    assert!(sha == "sya" || sha == "sha", "got: {}", sha);
    let cho = hiragana_to_romaji("ちょ");
    assert!(cho == "tyo" || cho == "cho", "got: {}", cho);
}

// ---- further cases ----

#[test]
fn fullwidth_romaji_of_word() {
    assert_eq!(hiragana_to_fullwidth_romaji("にほんご"), "ｎｉｈｏｎｇｏ");
}

#[test]
fn buffer_shows_pending_romaji() {
    let mut conv = RomajiConverter::new();
    assert_eq!(conv.process_key('k'), None);
    assert_eq!(conv.buffer(), "k");
    assert_eq!(conv.process_key('y'), None);
    assert_eq!(conv.buffer(), "ky");
    assert_eq!(conv.process_key('a'), Some("きゃ".to_string()));
    assert_eq!(conv.buffer(), "");
}

#[test]
fn delete_last_removes_pending_then_kana() {
    let mut conv = RomajiConverter::new();
    for ch in "kak".chars() {
        conv.process_key(ch);
    }
    assert!(conv.delete_last());
    assert_eq!(conv.buffer(), "");
    assert_eq!(conv.output(), "か");
    assert!(conv.delete_last());
    assert_eq!(conv.output(), "");
    assert!(!conv.delete_last());
}

#[test]
fn append_raw_bypasses_conversion() {
    let mut conv = RomajiConverter::new();
    conv.process_key('a');
    conv.append_raw("、");
    assert_eq!(conv.output(), "あ、");
}

#[test]
fn reset_clears_everything() {
    let mut conv = RomajiConverter::new();
    conv.process_key('a');
    conv.process_key('k');
    conv.reset();
    assert_eq!(conv.output(), "");
    assert_eq!(conv.buffer(), "");
}

#[test]
fn flush_drops_incomplete_romaji() {
    let mut conv = RomajiConverter::new();
    conv.process_key('k');
    assert_eq!(conv.flush(), None);
    assert_eq!(conv.buffer(), "");
    assert_eq!(conv.output(), "");
}

#[test]
fn invalid_sequence_does_not_stall() {
    // "q" starts no spelling: it is dropped and typing continues.
    assert_eq!(convert("qa"), "あ");
}
