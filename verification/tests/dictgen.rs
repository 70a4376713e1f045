use jaim::dictgen::order::dedup_and_sort;
use jaim::dictgen::{
    boost_freq, cost_to_frequency, extra_entries, generate_compounds, is_compound_stem, katakana_to_hiragana, map_pos,
    parse_fields, parse_i32, rows_of_text, source_rows, split_fields, GenEntry, ParsedEntry,
};
use jaim::dictionary::PartOfSpeech;

fn gen(reading: &str, surface: &str, pos: PartOfSpeech, frequency: u32) -> GenEntry {
    GenEntry { reading: reading.to_string(), surface: surface.to_string(), pos, frequency }
}

fn parsed(reading: &str, surface: &str, ctype: &str, cform: &str, frequency: u32) -> ParsedEntry {
    ParsedEntry {
        entry: gen(reading, surface, PartOfSpeech::Verb, frequency),
        conjugation_type: ctype.to_string(),
        conjugation_form: cform.to_string(),
    }
}

fn pairs(v: &[GenEntry]) -> Vec<(String, String, u32)> {
    v.iter().map(|e| (e.reading.clone(), e.surface.clone(), e.frequency)).collect()
}

#[test]
fn katakana_readings_become_hiragana() {
    assert_eq!(katakana_to_hiragana("トウキョウ"), "とうきょう");
    assert_eq!(katakana_to_hiragana("ラーメン"), "らーめん");
    assert_eq!(katakana_to_hiragana("ヴ"), "ゔ");
    assert_eq!(katakana_to_hiragana("abc"), "abc");
}

#[test]
fn parts_of_speech_are_mapped() {
    assert_eq!(map_pos("名詞", "一般"), PartOfSpeech::Noun);
    assert_eq!(map_pos("名詞", "接尾"), PartOfSpeech::Suffix);
    assert_eq!(map_pos("動詞", "自立"), PartOfSpeech::Verb);
    assert_eq!(map_pos("形容詞", "自立"), PartOfSpeech::Adjective);
    assert_eq!(map_pos("助詞", "格助詞"), PartOfSpeech::Particle);
    assert_eq!(map_pos("助動詞", "*"), PartOfSpeech::Auxiliary);
    assert_eq!(map_pos("接頭詞", "名詞接続"), PartOfSpeech::Prefix);
    assert_eq!(map_pos("連体詞", "*"), PartOfSpeech::Other);
}

#[test]
fn costs_become_frequencies() {
    assert_eq!(cost_to_frequency(3003), 6997);
    assert_eq!(cost_to_frequency(10000), 1);
    assert_eq!(cost_to_frequency(15000), 1);
    assert_eq!(cost_to_frequency(-20000), 20000);
    assert_eq!(boost_freq(3000), 6000);
    assert_eq!(boost_freq(12000), 20000);
}

#[test]
fn fields_and_numbers() {
    let f = split_fields("a,,b");
    assert_eq!(f, vec![vec!['a'], vec![], vec!['b']]);
    assert_eq!(parse_i32(&"3003".chars().collect()), Some(3003));
    assert_eq!(parse_i32(&"-12".chars().collect()), Some(-12));
    assert_eq!(parse_i32(&"12x".chars().collect()), None);
    assert_eq!(parse_i32(&"".chars().collect()), None);
}

#[test]
fn rows_are_parsed_and_filtered() {
    let line = "東京,1293,1293,3003,名詞,固有名詞,地域,一般,*,*,東京,トウキョウ,トーキョー";
    let row = parse_fields(line, Some(5500), false).unwrap();
    assert_eq!(row.parsed.entry.reading, "とうきょう");
    assert_eq!(row.parsed.entry.surface, "東京");
    assert_eq!(row.parsed.entry.pos, PartOfSpeech::Noun);
    assert_eq!(row.parsed.entry.frequency, 6997);
    assert_eq!(row.pos_major, "名詞");
    assert_eq!(row.pos_sub, "固有名詞");
    // At or above the cost threshold.
    assert!(parse_fields(line, Some(3003), false).is_none());
    // A single kanji is kept whatever its cost.
    let kanji = "誤,1285,1285,9000,名詞,一般,*,*,*,*,誤,ゴ,ゴ";
    assert!(parse_fields(kanji, Some(5500), false).is_some());
    // Kana-only nouns are dropped; kana-only particles are kept.
    assert!(parse_fields("すし,1285,1285,3000,名詞,一般,*,*,*,*,すし,スシ,スシ", None, false).is_none());
    assert!(parse_fields("は,261,261,3000,助詞,係助詞,*,*,*,*,は,ハ,ワ", None, false).is_some());
    // Forms outside the practical ones are dropped when filtered.
    let imperative = "食べろ,625,625,7000,動詞,自立,*,*,一段,命令ｒｏ,食べる,タベロ,タベロ";
    assert!(parse_fields(imperative, None, true).is_none());
    assert!(parse_fields(imperative, None, false).is_some());
    // Lone small-reading katakana and rows without reading.
    assert!(parse_fields("ヲ,100,100,3000,助詞,格助詞,*,*,*,*,ヲ,ヲ,ヲ", None, false).is_none());
    assert!(parse_fields("東京,1293,1293,3003,名詞,固有名詞,地域,一般,*,*,東京,*,*", None, false).is_none());
}

#[test]
fn compounds_from_stems() {
    let stems = vec![
        parsed("よん", "読ん", "五段・マ行", "連用タ接続", 3000),
        parsed("たべ", "食べ", "一段", "連用形", 12000),
        parsed("かか", "書か", "五段・カ行イ音便", "未然形", 4000),
        parsed("かい", "書い", "五段・カ行イ音便", "連用形", 4000),
    ];
    let c = generate_compounds(&stems);
    let surfaces: Vec<&str> = c.iter().map(|e| e.surface.as_str()).collect();
    assert_eq!(
        surfaces,
        vec![
            "読んだ", "読んで", "読んでいる", "読んでいた", "読んでいない", "読んでいます",
            "食べた", "食べて", "食べている", "食べていた", "食べていない", "食べています",
            "書かれる", "書かれた", "書かれて", "書かれない",
        ]
    );
    assert_eq!(c[0].reading, "よんだ");
    assert_eq!(c[0].frequency, 6000);
    assert_eq!(c[6].frequency, 20000);
    assert_eq!(c[12].reading, "かかれる");
}

#[test]
fn extra_words() {
    assert_eq!(pairs(&extra_entries()), vec![("ご".to_string(), "誤".to_string(), 5000)]);
}

#[test]
fn duplicates_keep_the_highest_frequency() {
    let words = vec![
        gen("かみ", "紙", PartOfSpeech::Noun, 300),
        gen("かみ", "神", PartOfSpeech::Noun, 500),
        gen("かみ", "紙", PartOfSpeech::Noun, 900),
        gen("かみ", "紙", PartOfSpeech::Suffix, 100),
        gen("かみ", "紙", PartOfSpeech::Noun, 700),
    ];
    let out = dedup_and_sort(words);
    assert_eq!(out.len(), 3);
    assert_eq!(
        pairs(&out),
        vec![
            ("かみ".to_string(), "紙".to_string(), 900),
            ("かみ".to_string(), "神".to_string(), 500),
            ("かみ".to_string(), "紙".to_string(), 100),
        ]
    );
    assert_eq!(out[0].pos, PartOfSpeech::Noun);
    assert_eq!(out[2].pos, PartOfSpeech::Suffix);
}

#[test]
fn list_is_ordered_by_frequency_reading_surface() {
    let words = vec![
        gen("b", "x", PartOfSpeech::Noun, 10),
        gen("a", "y", PartOfSpeech::Noun, 10),
        gen("a", "x", PartOfSpeech::Noun, 10),
        gen("c", "z", PartOfSpeech::Noun, 20),
        gen("ab", "x", PartOfSpeech::Noun, 10),
    ];
    let out = dedup_and_sort(words);
    assert_eq!(
        pairs(&out),
        vec![
            ("c".to_string(), "z".to_string(), 20),
            ("a".to_string(), "x".to_string(), 10),
            ("a".to_string(), "y".to_string(), 10),
            ("ab".to_string(), "x".to_string(), 10),
            ("b".to_string(), "x".to_string(), 10),
        ]
    );
    assert!(dedup_and_sort(Vec::new()).is_empty());
}

#[test]
fn compound_stems_are_selected() {
    assert!(is_compound_stem(&parsed("よん", "読ん", "五段・マ行", "連用タ接続", 3000)));
    assert!(is_compound_stem(&parsed("たべ", "食べ", "一段", "連用形", 3000)));
    assert!(is_compound_stem(&parsed("かか", "書か", "五段・カ行イ音便", "未然形", 3000)));
    // Base forms, kana-only stems and other parts of speech are not stems.
    assert!(!is_compound_stem(&parsed("たべる", "食べる", "一段", "基本形", 3000)));
    assert!(!is_compound_stem(&parsed("して", "して", "サ変・スル", "連用形", 3000)));
    let mut noun = parsed("やま", "山", "*", "連用形", 3000);
    noun.entry.pos = PartOfSpeech::Noun;
    assert!(!is_compound_stem(&noun));
}

fn euc_jp(text: &str) -> Vec<u8> {
    let (bytes, _, unmappable) = encoding_rs::EUC_JP.encode(text);
    assert!(!unmappable);
    bytes.into_owned()
}

#[test]
fn source_files_are_decoded_and_parsed() {
    let text = "東京,1293,1293,3003,名詞,固有名詞,地域,一般,*,*,東京,トウキョウ,トーキョー\r\n\
すし,1285,1285,3000,名詞,一般,*,*,*,*,すし,スシ,スシ\n\
大阪,1293,1293,3500,名詞,固有名詞,地域,一般,*,*,大阪,オオサカ,オーサカ\n";
    let (malformed, rows) = source_rows(&euc_jp(text), Some(5500), false);
    assert!(!malformed);
    let rows = rows.unwrap();
    assert_eq!(rows.len(), 2);
    assert_eq!(rows[0].parsed.entry.surface, "東京");
    assert_eq!(rows[0].parsed.entry.reading, "とうきょう");
    assert_eq!(rows[0].parsed.entry.frequency, 6997);
    assert_eq!(rows[1].parsed.entry.surface, "大阪");
    assert_eq!(rows[1].pos_sub, "固有名詞");
}

#[test]
fn source_files_flag_malformed_bytes() {
    let mut raw = euc_jp("東京,1293,1293,3003,名詞,固有名詞,地域,一般,*,*,東京,トウキョウ,トーキョー\n");
    raw.push(0xFF);
    let (malformed, rows) = source_rows(&raw, None, false);
    assert!(malformed);
    assert_eq!(rows.unwrap().len(), 1);
}

#[test]
fn source_files_with_unusable_costs() {
    // A kept row whose cost is too low for a frequency.
    let kept = euc_jp("漢字,1,1,-2147483648,名詞,一般,*,*,*,*,漢字,カンジ,カンジ\n");
    assert!(source_rows(&kept, None, false).1.is_none());
    // The same cost on a row that is dropped anyway does no harm.
    let dropped = euc_jp("すし,1,1,-2147483648,名詞,一般,*,*,*,*,すし,スシ,スシ\n");
    assert_eq!(source_rows(&dropped, None, false).1.unwrap().len(), 0);
}

#[test]
fn text_rows_are_parsed_line_by_line() {
    let text = "東京,1293,1293,3003,名詞,固有名詞,地域,一般,*,*,東京,トウキョウ,トーキョー\r\nshort,line\n\n大阪,1293,1293,3500,名詞,固有名詞,地域,一般,*,*,大阪,オオサカ,オーサカ";
    let rows = rows_of_text(text, Some(5500), false).unwrap();
    assert_eq!(rows.len(), 2);
    assert_eq!(rows[0].parsed.entry.surface, "東京");
    assert_eq!(rows[1].parsed.entry.reading, "おおさか");
    assert!(rows_of_text("", None, false).unwrap().is_empty());
    assert!(rows_of_text("漢字,1,1,-2147483648,名詞,一般,*,*,*,*,漢字,カンジ,カンジ", None, false).is_none());
}
