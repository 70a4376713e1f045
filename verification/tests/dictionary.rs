use jaim::dictionary::trie::Trie;
use jaim::dictionary::{Dictionary, DictionaryEntry, PartOfSpeech};

fn entry(reading: &str, surface: &str, pos: PartOfSpeech, frequency: u32) -> DictionaryEntry {
    DictionaryEntry { reading: reading.to_string(), surface: surface.to_string(), pos, frequency }
}

#[test]
fn builtin_dictionary_loads() {
    let dict = Dictionary::new();
    assert!(dict.len() > 100);
}

#[test]
fn lookup_common_words() {
    let dict = Dictionary::new();
    let results = dict.lookup("きょう");
    assert!(!results.is_empty());
    assert_eq!(results[0].surface, "今日");
}

#[test]
fn lookup_particles() {
    let dict = Dictionary::new();
    let results = dict.lookup("は");
    assert!(!results.is_empty());
    assert_eq!(results[0].pos, PartOfSpeech::Particle);
}

#[test]
fn lookup_miss() {
    let dict = Dictionary::new();
    let results = dict.lookup("zzz");
    assert!(results.is_empty());
}

#[test]
fn lookup_multiple_candidates() {
    let dict = Dictionary::new();
    let results = dict.lookup("あめ");
    assert!(results.len() >= 2);
    let surfaces: Vec<&str> = results.iter().map(|e| e.surface.as_str()).collect();
    assert!(surfaces.contains(&"雨"));
}

#[test]
fn mod_prefix_lookup_basic() {
    let dict = Dictionary::new();
    let results = dict.prefix_lookup("きょう");
    let surfaces: Vec<&str> = results.iter().map(|e| e.surface.as_str()).collect();
    assert!(surfaces.contains(&"今日"));
    assert!(surfaces.contains(&"京都"));
}

#[test]
fn mod_common_prefix_search_basic() {
    let dict = Dictionary::new();
    let results = dict.common_prefix_search("きょうは");
    assert!(results.len() >= 2);
}

#[test]
fn add_entry_runtime() {
    let mut dict = Dictionary::new();
    let count_before = dict.len();
    dict.add_entry(entry("てすと", "テスト", PartOfSpeech::Noun, 8000));
    assert_eq!(dict.len(), count_before + 1);
    let results = dict.lookup("てすと");
    assert_eq!(results[0].surface, "テスト");
}

// ---- trie ----

#[test]
fn insert_and_exact_lookup() {
    let mut trie = Trie::new();
    trie.insert("きょう", 0, 9500);
    trie.insert("きょう", 1, 7000);
    trie.insert("きた", 2, 8000);
    assert_eq!(trie.exact_lookup("きょう"), &[0, 1]);
    assert_eq!(trie.exact_lookup("きた"), &[2]);
}

#[test]
fn exact_lookup_miss() {
    let trie = Trie::new();
    assert_eq!(trie.exact_lookup("きょう"), &[] as &[usize]);
}

#[test]
fn trie_common_prefix_search_basic() {
    let mut trie = Trie::new();
    trie.insert("き", 0, 5000);
    trie.insert("きょう", 1, 9500);
    trie.insert("きょうと", 2, 8000);
    let results = trie.common_prefix_search("きょうは");
    assert_eq!(results.len(), 2);
    assert_eq!(results[0], (1, vec![0]));
    assert_eq!(results[1], (3, vec![1]));
}

#[test]
fn trie_prefix_lookup_basic() {
    let mut trie = Trie::new();
    trie.insert("きょう", 0, 9500);
    trie.insert("きょうと", 1, 8000);
    trie.insert("きょうだい", 2, 7500);
    trie.insert("きた", 3, 8000);
    let mut results = trie.prefix_lookup("きょう");
    results.sort();
    assert_eq!(results, vec![0, 1, 2]);
    let mut results2 = trie.prefix_lookup("き");
    results2.sort();
    assert_eq!(results2, vec![0, 1, 2, 3]);
}

#[test]
fn empty_trie() {
    let trie = Trie::new();
    assert!(trie.exact_lookup("あ").is_empty());
    assert!(trie.prefix_lookup("あ").is_empty());
    assert!(trie.common_prefix_search("あいう").is_empty());
}

// ---- further cases ----

#[test]
fn trie_insert_same_index_twice_keeps_one() {
    let mut trie = Trie::new();
    trie.insert("あ", 4, 100);
    trie.insert("あ", 4, 100);
    assert_eq!(trie.exact_lookup("あ"), vec![4]);
}

#[test]
fn trie_keeps_highest_frequency_first() {
    let mut trie = Trie::new();
    trie.insert("き", 0, 5000);
    trie.insert("き", 1, 9000);
    assert_eq!(trie.exact_lookup("き"), vec![1, 0]);
    // Equal frequencies keep insertion order; lower ones go last.
    trie.insert("き", 2, 5000);
    trie.insert("き", 3, 100);
    trie.insert("き", 4, 9000);
    assert_eq!(trie.exact_lookup("き"), vec![1, 4, 0, 2, 3]);
}

#[test]
fn trie_prefix_lookup_counts_each_reading() {
    let mut trie = Trie::new();
    trie.insert("きょう", 7, 100);
    trie.insert("きょうと", 7, 100);
    trie.insert("きた", 8, 100);
    let mut results = trie.prefix_lookup("き");
    results.sort();
    assert_eq!(results, vec![7, 7, 8]);
    assert_eq!(trie.prefix_lookup("きょうと"), vec![7]);
    assert!(trie.prefix_lookup("ん").is_empty());
}

#[test]
fn lookup_orders_by_frequency_stably() {
    let mut dict = Dictionary::new();
    dict.add_entry(entry("ぬぬ", "甲", PartOfSpeech::Noun, 10));
    dict.add_entry(entry("ぬぬ", "乙", PartOfSpeech::Noun, 30));
    dict.add_entry(entry("ぬぬ", "丙", PartOfSpeech::Noun, 10));
    let surfaces: Vec<&str> = dict.lookup("ぬぬ").iter().map(|e| e.surface.as_str()).collect();
    assert_eq!(surfaces, vec!["乙", "甲", "丙"]);
}

#[test]
fn common_prefix_search_lengths_and_order() {
    let dict = Dictionary::new();
    let results = dict.common_prefix_search("きょうと");
    let lens: Vec<usize> = results.iter().map(|(l, _)| *l).collect();
    assert_eq!(lens, vec![1, 3, 4]);
    assert_eq!(results[0].1[0].surface, "気");
    assert_eq!(results[1].1[0].surface, "今日");
    assert_eq!(results[2].1[0].surface, "京都");
}

#[test]
fn prefix_lookup_is_sorted() {
    let dict = Dictionary::new();
    let results = dict.prefix_lookup("き");
    assert!(results.windows(2).all(|w| w[0].frequency >= w[1].frequency));
    assert!(results.iter().all(|e| e.reading.starts_with('き')));
}

#[test]
fn prefix_lookup_lists_each_entry_once() {
    let dict = Dictionary::new();
    let results = dict.prefix_lookup("き");
    let mut expected: Vec<(String, String, u32)> = dict
        .entries()
        .iter()
        .filter(|e| e.reading.starts_with('き'))
        .map(|e| (e.reading.clone(), e.surface.clone(), e.frequency))
        .collect();
    let mut got: Vec<(String, String, u32)> =
        results.iter().map(|e| (e.reading.clone(), e.surface.clone(), e.frequency)).collect();
    expected.sort();
    got.sort();
    assert!(!got.is_empty());
    assert_eq!(got, expected);
}

#[test]
fn symbol_entries_are_loaded() {
    let dict = Dictionary::new();
    let arrows = dict.lookup("やじるし");
    assert_eq!(arrows.len(), 10);
    assert_eq!(arrows[0].surface, "→");
    assert_eq!(arrows[0].frequency, 8000);
    assert_eq!(arrows[9].frequency, 7100);
    let desu = dict.lookup("ですね");
    assert_eq!(desu[0].pos, PartOfSpeech::Auxiliary);
    assert_eq!(desu[0].frequency, 9000);
}

#[test]
fn new_dictionary_has_no_user_entries() {
    let mut dict = Dictionary::new();
    assert!(dict.user_entries().is_empty());
    dict.add_entry(entry("くろーど", "クロード", PartOfSpeech::Noun, 5000));
    let user = dict.user_entries();
    assert_eq!(user.len(), 1);
    assert_eq!(user[0].surface, "クロード");
    assert_eq!(dict.entries().len(), dict.len());
}

#[test]
fn import_skips_existing_pairs() {
    let mut dict = Dictionary::new();
    let before = dict.len();
    let batch = vec![
        entry("らすと", "Rust", PartOfSpeech::Noun, 7000),
        entry("きょう", "今日", PartOfSpeech::Noun, 1),
        entry("らすと", "Rust", PartOfSpeech::Noun, 7000),
    ];
    let added = dict.import_entries(batch.clone());
    assert_eq!(added, 1);
    assert_eq!(dict.len(), before + 1);
    assert_eq!(dict.lookup("らすと")[0].surface, "Rust");
    // Importing the same entries again adds nothing.
    assert_eq!(dict.import_entries(batch), 0);
    assert_eq!(dict.len(), before + 1);
}

#[test]
fn segments_follow_back_pointers() {
    let dict = Dictionary::new();
    // きょう|は : back[3] = 0, back[4] = 3.
    let back = vec![None, Some(0), Some(1), Some(0), Some(3)];
    let segs = dict.segments_from_back("きょうは", &back);
    let readings: Vec<&str> = segs.iter().map(|s| s.reading.as_str()).collect();
    assert_eq!(readings, vec!["きょう", "は"]);
    assert_eq!(segs[0].start, 0);
    assert_eq!(segs[0].len, 3);
    assert_eq!(segs[1].start, 3);
    assert_eq!(segs[0].candidates[0].surface, "今日");
    assert_eq!(segs[1].candidates[0].pos, PartOfSpeech::Particle);
}

#[test]
fn segments_without_back_pointers_are_single_characters() {
    let dict = Dictionary::new();
    let back = vec![None, None, None, None];
    let segs = dict.segments_from_back("ぱぴぷ", &back);
    assert_eq!(segs.len(), 3);
    assert_eq!(segs[0].reading, "ぱ");
    assert!(segs[0].candidates.is_empty());
}
