//! The built-in word list: common readings with their surfaces, parts of
//! speech and frequencies.
use vstd::prelude::*;
use super::{entry_view, DictionaryEntry, EntryView, PartOfSpeech};
use crate::text::string_of;

verus! {

/// Number of built-in words.
pub const BUILTIN_LEN: usize = 136;

/// Built-in word `i`: (reading, surface, part of speech, frequency).
pub open spec fn builtin_row(i: int) -> EntryView {
    if i == 0 { (seq!['き', 'ょ', 'う'], seq!['今', '日'], PartOfSpeech::Noun, 9500) }
    else if i == 1 { (seq!['き', 'ょ', 'う'], seq!['京'], PartOfSpeech::Noun, 7000) }
    else if i == 2 { (seq!['き', 'ょ', 'う'], seq!['強'], PartOfSpeech::Prefix, 5200) }
    else if i == 3 { (seq!['き', 'ょ', 'う', 'と'], seq!['京', '都'], PartOfSpeech::Noun, 8000) }
    else if i == 4 { (seq!['き', 'ょ', 'ね', 'ん'], seq!['去', '年'], PartOfSpeech::Noun, 7600) }
    else if i == 5 { (seq!['き', 'ょ', 'う', 'し'], seq!['教', '師'], PartOfSpeech::Noun, 6800) }
    else if i == 6 { (seq!['き'], seq!['木'], PartOfSpeech::Noun, 6000) }
    else if i == 7 { (seq!['き'], seq!['気'], PartOfSpeech::Noun, 7500) }
    else if i == 8 { (seq!['き'], seq!['機'], PartOfSpeech::Suffix, 5500) }
    else if i == 9 { (seq!['は'], seq!['は'], PartOfSpeech::Particle, 9800) }
    else if i == 10 { (seq!['は'], seq!['歯'], PartOfSpeech::Noun, 5000) }
    else if i == 11 { (seq!['は'], seq!['葉'], PartOfSpeech::Noun, 5500) }
    else if i == 12 { (seq!['が'], seq!['が'], PartOfSpeech::Particle, 9800) }
    else if i == 13 { (seq!['を'], seq!['を'], PartOfSpeech::Particle, 9800) }
    else if i == 14 { (seq!['の'], seq!['の'], PartOfSpeech::Particle, 9800) }
    else if i == 15 { (seq!['に'], seq!['に'], PartOfSpeech::Particle, 9800) }
    else if i == 16 { (seq!['で'], seq!['で'], PartOfSpeech::Particle, 9500) }
    else if i == 17 { (seq!['と'], seq!['と'], PartOfSpeech::Particle, 9000) }
    else if i == 18 { (seq!['へ'], seq!['へ'], PartOfSpeech::Particle, 9000) }
    else if i == 19 { (seq!['も'], seq!['も'], PartOfSpeech::Particle, 9400) }
    else if i == 20 { (seq!['か'], seq!['か'], PartOfSpeech::Particle, 9000) }
    else if i == 21 { (seq!['ね'], seq!['ね'], PartOfSpeech::Particle, 8500) }
    else if i == 22 { (seq!['よ'], seq!['よ'], PartOfSpeech::Particle, 8500) }
    else if i == 23 { (seq!['か', 'ら'], seq!['か', 'ら'], PartOfSpeech::Particle, 9200) }
    else if i == 24 { (seq!['ま', 'で'], seq!['ま', 'で'], PartOfSpeech::Particle, 9000) }
    else if i == 25 { (seq!['よ', 'り'], seq!['よ', 'り'], PartOfSpeech::Particle, 8600) }
    else if i == 26 { (seq!['あ', 'め'], seq!['雨'], PartOfSpeech::Noun, 8000) }
    else if i == 27 { (seq!['あ', 'め'], seq!['飴'], PartOfSpeech::Noun, 6000) }
    else if i == 28 { (seq!['あ', 'め'], seq!['天'], PartOfSpeech::Noun, 4000) }
    else if i == 29 { (seq!['い', 'い'], seq!['い', 'い'], PartOfSpeech::Adjective, 8500) }
    else if i == 30 { (seq!['よ', 'い'], seq!['良', 'い'], PartOfSpeech::Adjective, 8000) }
    else if i == 31 { (seq!['て', 'ん', 'き'], seq!['天', '気'], PartOfSpeech::Noun, 8500) }
    else if i == 32 { (seq!['て', 'ん'], seq!['点'], PartOfSpeech::Noun, 6000) }
    else if i == 33 { (seq!['て', 'ん'], seq!['天'], PartOfSpeech::Noun, 5800) }
    else if i == 34 { (seq!['で', 'す'], seq!['で', 'す'], PartOfSpeech::Auxiliary, 9500) }
    else if i == 35 { (seq!['だ'], seq!['だ'], PartOfSpeech::Auxiliary, 9200) }
    else if i == 36 { (seq!['ま', 'す'], seq!['ま', 'す'], PartOfSpeech::Auxiliary, 9400) }
    else if i == 37 { (seq!['た'], seq!['た'], PartOfSpeech::Auxiliary, 9300) }
    else if i == 38 { (seq!['な', 'い'], seq!['な', 'い'], PartOfSpeech::Auxiliary, 9000) }
    else if i == 39 { (seq!['と', 'う', 'き', 'ょ', 'う'], seq!['東', '京'], PartOfSpeech::Noun, 9000) }
    else if i == 40 { (seq!['と', 'う'], seq!['塔'], PartOfSpeech::Noun, 5000) }
    else if i == 41 { (seq!['と', 'う'], seq!['党'], PartOfSpeech::Noun, 5200) }
    else if i == 42 { (seq!['い', 'く'], seq!['行', 'く'], PartOfSpeech::Verb, 8000) }
    else if i == 43 { (seq!['く', 'る'], seq!['来', 'る'], PartOfSpeech::Verb, 7800) }
    else if i == 44 { (seq!['み', 'る'], seq!['見', 'る'], PartOfSpeech::Verb, 8200) }
    else if i == 45 { (seq!['た', 'べ', 'る'], seq!['食', 'べ', 'る'], PartOfSpeech::Verb, 8000) }
    else if i == 46 { (seq!['の', 'む'], seq!['飲', 'む'], PartOfSpeech::Verb, 7600) }
    else if i == 47 { (seq!['よ', 'む'], seq!['読', 'む'], PartOfSpeech::Verb, 7500) }
    else if i == 48 { (seq!['か', 'く'], seq!['書', 'く'], PartOfSpeech::Verb, 7500) }
    else if i == 49 { (seq!['は', 'な', 'す'], seq!['話', 'す'], PartOfSpeech::Verb, 7400) }
    else if i == 50 { (seq!['き', 'く'], seq!['聞', 'く'], PartOfSpeech::Verb, 7600) }
    else if i == 51 { (seq!['す', 'る'], seq!['す', 'る'], PartOfSpeech::Verb, 9000) }
    else if i == 52 { (seq!['い', 'る'], seq!['い', 'る'], PartOfSpeech::Verb, 8800) }
    else if i == 53 { (seq!['あ', 'る'], seq!['あ', 'る'], PartOfSpeech::Verb, 8800) }
    else if i == 54 { (seq!['わ', 'た', 'し'], seq!['私'], PartOfSpeech::Noun, 8800) }
    else if i == 55 { (seq!['あ', 'な', 'た'], seq!['貴', '方'], PartOfSpeech::Noun, 6000) }
    else if i == 56 { (seq!['ひ', 'と'], seq!['人'], PartOfSpeech::Noun, 8200) }
    else if i == 57 { (seq!['ほ', 'ん'], seq!['本'], PartOfSpeech::Noun, 8000) }
    else if i == 58 { (seq!['に', 'ほ', 'ん'], seq!['日', '本'], PartOfSpeech::Noun, 9000) }
    else if i == 59 { (seq!['に', 'ほ', 'ん', 'ご'], seq!['日', '本', '語'], PartOfSpeech::Noun, 8500) }
    else if i == 60 { (seq!['へ', 'ん', 'か', 'ん'], seq!['変', '換'], PartOfSpeech::Noun, 7000) }
    else if i == 61 { (seq!['か', 'ん', 'じ'], seq!['漢', '字'], PartOfSpeech::Noun, 7500) }
    else if i == 62 { (seq!['か', 'ん', 'じ'], seq!['感', 'じ'], PartOfSpeech::Noun, 7200) }
    else if i == 63 { (seq!['が', 'っ', 'こ', 'う'], seq!['学', '校'], PartOfSpeech::Noun, 8000) }
    else if i == 64 { (seq!['せ', 'ん', 'せ', 'い'], seq!['先', '生'], PartOfSpeech::Noun, 8000) }
    else if i == 65 { (seq!['が', 'く', 'せ', 'い'], seq!['学', '生'], PartOfSpeech::Noun, 7800) }
    else if i == 66 { (seq!['じ', 'し', 'ょ'], seq!['辞', '書'], PartOfSpeech::Noun, 7000) }
    else if i == 67 { (seq!['に', 'ゅ', 'う', 'り', 'ょ', 'く'], seq!['入', '力'], PartOfSpeech::Noun, 7200) }
    else if i == 68 { (seq!['も', 'じ'], seq!['文', '字'], PartOfSpeech::Noun, 7400) }
    else if i == 69 { (seq!['こ', 'と', 'ば'], seq!['言', '葉'], PartOfSpeech::Noun, 7600) }
    else if i == 70 { (seq!['せ', 'ん', 'し', 'ゅ', 'う'], seq!['先', '週'], PartOfSpeech::Noun, 7000) }
    else if i == 71 { (seq!['ら', 'い', 'し', 'ゅ', 'う'], seq!['来', '週'], PartOfSpeech::Noun, 7000) }
    else if i == 72 { (seq!['あ', 'し', 'た'], seq!['明', '日'], PartOfSpeech::Noun, 8600) }
    else if i == 73 { (seq!['き', 'の', 'う'], seq!['昨', '日'], PartOfSpeech::Noun, 8400) }
    else if i == 74 { (seq!['い', 'ま'], seq!['今'], PartOfSpeech::Noun, 8800) }
    else if i == 75 { (seq!['と', 'き'], seq!['時'], PartOfSpeech::Noun, 8000) }
    else if i == 76 { (seq!['ひ'], seq!['日'], PartOfSpeech::Noun, 8000) }
    else if i == 77 { (seq!['ひ'], seq!['火'], PartOfSpeech::Noun, 6800) }
    else if i == 78 { (seq!['つ', 'き'], seq!['月'], PartOfSpeech::Noun, 7400) }
    else if i == 79 { (seq!['ほ', 'し'], seq!['星'], PartOfSpeech::Noun, 6800) }
    else if i == 80 { (seq!['そ', 'ら'], seq!['空'], PartOfSpeech::Noun, 7000) }
    else if i == 81 { (seq!['や', 'ま'], seq!['山'], PartOfSpeech::Noun, 7600) }
    else if i == 82 { (seq!['か', 'わ'], seq!['川'], PartOfSpeech::Noun, 7200) }
    else if i == 83 { (seq!['う', 'み'], seq!['海'], PartOfSpeech::Noun, 7400) }
    else if i == 84 { (seq!['み', 'ず'], seq!['水'], PartOfSpeech::Noun, 7800) }
    else if i == 85 { (seq!['は', 'な'], seq!['花'], PartOfSpeech::Noun, 7400) }
    else if i == 86 { (seq!['は', 'な'], seq!['鼻'], PartOfSpeech::Noun, 6400) }
    else if i == 87 { (seq!['は', 'し'], seq!['橋'], PartOfSpeech::Noun, 6600) }
    else if i == 88 { (seq!['は', 'し'], seq!['箸'], PartOfSpeech::Noun, 6200) }
    else if i == 89 { (seq!['は', 'し'], seq!['端'], PartOfSpeech::Noun, 6000) }
    else if i == 90 { (seq!['か', 'み'], seq!['紙'], PartOfSpeech::Noun, 7000) }
    else if i == 91 { (seq!['か', 'み'], seq!['神'], PartOfSpeech::Noun, 6800) }
    else if i == 92 { (seq!['か', 'み'], seq!['髪'], PartOfSpeech::Noun, 6600) }
    else if i == 93 { (seq!['く', 'る', 'ま'], seq!['車'], PartOfSpeech::Noun, 7600) }
    else if i == 94 { (seq!['で', 'ん', 'し', 'ゃ'], seq!['電', '車'], PartOfSpeech::Noun, 7400) }
    else if i == 95 { (seq!['え', 'き'], seq!['駅'], PartOfSpeech::Noun, 7600) }
    else if i == 96 { (seq!['み', 'ち'], seq!['道'], PartOfSpeech::Noun, 7400) }
    else if i == 97 { (seq!['い', 'え'], seq!['家'], PartOfSpeech::Noun, 7800) }
    else if i == 98 { (seq!['へ', 'や'], seq!['部', '屋'], PartOfSpeech::Noun, 7200) }
    else if i == 99 { (seq!['し', 'ご', 'と'], seq!['仕', '事'], PartOfSpeech::Noun, 8000) }
    else if i == 100 { (seq!['か', 'い', 'し', 'ゃ'], seq!['会', '社'], PartOfSpeech::Noun, 8000) }
    else if i == 101 { (seq!['で', 'ん', 'わ'], seq!['電', '話'], PartOfSpeech::Noun, 7600) }
    else if i == 102 { (seq!['と', 'も', 'だ', 'ち'], seq!['友', '達'], PartOfSpeech::Noun, 7800) }
    else if i == 103 { (seq!['か', 'ぞ', 'く'], seq!['家', '族'], PartOfSpeech::Noun, 7600) }
    else if i == 104 { (seq!['こ', 'ど', 'も'], seq!['子', '供'], PartOfSpeech::Noun, 7800) }
    else if i == 105 { (seq!['な', 'ま', 'え'], seq!['名', '前'], PartOfSpeech::Noun, 7800) }
    else if i == 106 { (seq!['じ', 'か', 'ん'], seq!['時', '間'], PartOfSpeech::Noun, 8200) }
    else if i == 107 { (seq!['お', 'ん', 'が', 'く'], seq!['音', '楽'], PartOfSpeech::Noun, 7000) }
    else if i == 108 { (seq!['え', 'い', 'が'], seq!['映', '画'], PartOfSpeech::Noun, 7200) }
    else if i == 109 { (seq!['し', 'ん', 'ぶ', 'ん'], seq!['新', '聞'], PartOfSpeech::Noun, 7000) }
    else if i == 110 { (seq!['て', 'が', 'み'], seq!['手', '紙'], PartOfSpeech::Noun, 6800) }
    else if i == 111 { (seq!['あ', 'さ'], seq!['朝'], PartOfSpeech::Noun, 7800) }
    else if i == 112 { (seq!['ひ', 'る'], seq!['昼'], PartOfSpeech::Noun, 7400) }
    else if i == 113 { (seq!['よ', 'る'], seq!['夜'], PartOfSpeech::Noun, 7800) }
    else if i == 114 { (seq!['お', 'お', 'き', 'い'], seq!['大', 'き', 'い'], PartOfSpeech::Adjective, 7800) }
    else if i == 115 { (seq!['ち', 'い', 'さ', 'い'], seq!['小', 'さ', 'い'], PartOfSpeech::Adjective, 7600) }
    else if i == 116 { (seq!['あ', 'た', 'ら', 'し', 'い'], seq!['新', 'し', 'い'], PartOfSpeech::Adjective, 7800) }
    else if i == 117 { (seq!['ふ', 'る', 'い'], seq!['古', 'い'], PartOfSpeech::Adjective, 7000) }
    else if i == 118 { (seq!['た', 'か', 'い'], seq!['高', 'い'], PartOfSpeech::Adjective, 7600) }
    else if i == 119 { (seq!['や', 'す', 'い'], seq!['安', 'い'], PartOfSpeech::Adjective, 7200) }
    else if i == 120 { (seq!['と', 'て', 'も'], seq!['と', 'て', 'も'], PartOfSpeech::Adverb, 7800) }
    else if i == 121 { (seq!['す', 'こ', 'し'], seq!['少', 'し'], PartOfSpeech::Adverb, 7600) }
    else if i == 122 { (seq!['も', 'う'], seq!['も', 'う'], PartOfSpeech::Adverb, 8000) }
    else if i == 123 { (seq!['ま', 'だ'], seq!['ま', 'だ'], PartOfSpeech::Adverb, 7800) }
    else if i == 124 { (seq!['そ', 'し', 'て'], seq!['そ', 'し', 'て'], PartOfSpeech::Conjunction, 7600) }
    else if i == 125 { (seq!['で', 'も'], seq!['で', 'も'], PartOfSpeech::Conjunction, 7800) }
    else if i == 126 { (seq!['し', 'か', 'し'], seq!['し', 'か', 'し'], PartOfSpeech::Conjunction, 7400) }
    else if i == 127 { (seq!['は', 'い'], seq!['は', 'い'], PartOfSpeech::Interjection, 8000) }
    else if i == 128 { (seq!['い', 'い', 'え'], seq!['い', 'い', 'え'], PartOfSpeech::Interjection, 7000) }
    else if i == 129 { (seq!['さ', 'ん'], seq!['さ', 'ん'], PartOfSpeech::Suffix, 8400) }
    else if i == 130 { (seq!['ご'], seq!['誤'], PartOfSpeech::Noun, 5000) }
    else if i == 131 { (seq!['ご'], seq!['語'], PartOfSpeech::Suffix, 6000) }
    else if i == 132 { (seq!['お'], seq!['お'], PartOfSpeech::Prefix, 8000) }
    else if i == 133 { (seq!['ぶ', 'ん'], seq!['文'], PartOfSpeech::Noun, 7200) }
    else if i == 134 { (seq!['ぶ', 'ん', 'ぽ', 'う'], seq!['文', '法'], PartOfSpeech::Noun, 6600) }
    else if i == 135 { (seq!['け', 'ん', 'さ', 'く'], seq!['検', '索'], PartOfSpeech::Noun, 6800) }
    else { (Seq::empty(), Seq::empty(), PartOfSpeech::Other, 0) }
}

/// The characters of built-in word `i`: (reading, surface, part of speech, frequency).
fn builtin_chars(i: usize) -> (r: (Vec<char>, Vec<char>, PartOfSpeech, u32))
    requires
        i < BUILTIN_LEN,
    ensures
        (r.0@, r.1@, r.2, r.3) == builtin_row(i as int),
{
    if i == 0 { (vec!['き', 'ょ', 'う'], vec!['今', '日'], PartOfSpeech::Noun, 9500) }
    else if i == 1 { (vec!['き', 'ょ', 'う'], vec!['京'], PartOfSpeech::Noun, 7000) }
    else if i == 2 { (vec!['き', 'ょ', 'う'], vec!['強'], PartOfSpeech::Prefix, 5200) }
    else if i == 3 { (vec!['き', 'ょ', 'う', 'と'], vec!['京', '都'], PartOfSpeech::Noun, 8000) }
    else if i == 4 { (vec!['き', 'ょ', 'ね', 'ん'], vec!['去', '年'], PartOfSpeech::Noun, 7600) }
    else if i == 5 { (vec!['き', 'ょ', 'う', 'し'], vec!['教', '師'], PartOfSpeech::Noun, 6800) }
    else if i == 6 { (vec!['き'], vec!['木'], PartOfSpeech::Noun, 6000) }
    else if i == 7 { (vec!['き'], vec!['気'], PartOfSpeech::Noun, 7500) }
    else if i == 8 { (vec!['き'], vec!['機'], PartOfSpeech::Suffix, 5500) }
    else if i == 9 { (vec!['は'], vec!['は'], PartOfSpeech::Particle, 9800) }
    else if i == 10 { (vec!['は'], vec!['歯'], PartOfSpeech::Noun, 5000) }
    else if i == 11 { (vec!['は'], vec!['葉'], PartOfSpeech::Noun, 5500) }
    else if i == 12 { (vec!['が'], vec!['が'], PartOfSpeech::Particle, 9800) }
    else if i == 13 { (vec!['を'], vec!['を'], PartOfSpeech::Particle, 9800) }
    else if i == 14 { (vec!['の'], vec!['の'], PartOfSpeech::Particle, 9800) }
    else if i == 15 { (vec!['に'], vec!['に'], PartOfSpeech::Particle, 9800) }
    else if i == 16 { (vec!['で'], vec!['で'], PartOfSpeech::Particle, 9500) }
    else if i == 17 { (vec!['と'], vec!['と'], PartOfSpeech::Particle, 9000) }
    else if i == 18 { (vec!['へ'], vec!['へ'], PartOfSpeech::Particle, 9000) }
    else if i == 19 { (vec!['も'], vec!['も'], PartOfSpeech::Particle, 9400) }
    else if i == 20 { (vec!['か'], vec!['か'], PartOfSpeech::Particle, 9000) }
    else if i == 21 { (vec!['ね'], vec!['ね'], PartOfSpeech::Particle, 8500) }
    else if i == 22 { (vec!['よ'], vec!['よ'], PartOfSpeech::Particle, 8500) }
    else if i == 23 { (vec!['か', 'ら'], vec!['か', 'ら'], PartOfSpeech::Particle, 9200) }
    else if i == 24 { (vec!['ま', 'で'], vec!['ま', 'で'], PartOfSpeech::Particle, 9000) }
    else if i == 25 { (vec!['よ', 'り'], vec!['よ', 'り'], PartOfSpeech::Particle, 8600) }
    else if i == 26 { (vec!['あ', 'め'], vec!['雨'], PartOfSpeech::Noun, 8000) }
    else if i == 27 { (vec!['あ', 'め'], vec!['飴'], PartOfSpeech::Noun, 6000) }
    else if i == 28 { (vec!['あ', 'め'], vec!['天'], PartOfSpeech::Noun, 4000) }
    else if i == 29 { (vec!['い', 'い'], vec!['い', 'い'], PartOfSpeech::Adjective, 8500) }
    else if i == 30 { (vec!['よ', 'い'], vec!['良', 'い'], PartOfSpeech::Adjective, 8000) }
    else if i == 31 { (vec!['て', 'ん', 'き'], vec!['天', '気'], PartOfSpeech::Noun, 8500) }
    else if i == 32 { (vec!['て', 'ん'], vec!['点'], PartOfSpeech::Noun, 6000) }
    else if i == 33 { (vec!['て', 'ん'], vec!['天'], PartOfSpeech::Noun, 5800) }
    else if i == 34 { (vec!['で', 'す'], vec!['で', 'す'], PartOfSpeech::Auxiliary, 9500) }
    else if i == 35 { (vec!['だ'], vec!['だ'], PartOfSpeech::Auxiliary, 9200) }
    else if i == 36 { (vec!['ま', 'す'], vec!['ま', 'す'], PartOfSpeech::Auxiliary, 9400) }
    else if i == 37 { (vec!['た'], vec!['た'], PartOfSpeech::Auxiliary, 9300) }
    else if i == 38 { (vec!['な', 'い'], vec!['な', 'い'], PartOfSpeech::Auxiliary, 9000) }
    else if i == 39 { (vec!['と', 'う', 'き', 'ょ', 'う'], vec!['東', '京'], PartOfSpeech::Noun, 9000) }
    else if i == 40 { (vec!['と', 'う'], vec!['塔'], PartOfSpeech::Noun, 5000) }
    else if i == 41 { (vec!['と', 'う'], vec!['党'], PartOfSpeech::Noun, 5200) }
    else if i == 42 { (vec!['い', 'く'], vec!['行', 'く'], PartOfSpeech::Verb, 8000) }
    else if i == 43 { (vec!['く', 'る'], vec!['来', 'る'], PartOfSpeech::Verb, 7800) }
    else if i == 44 { (vec!['み', 'る'], vec!['見', 'る'], PartOfSpeech::Verb, 8200) }
    else if i == 45 { (vec!['た', 'べ', 'る'], vec!['食', 'べ', 'る'], PartOfSpeech::Verb, 8000) }
    else if i == 46 { (vec!['の', 'む'], vec!['飲', 'む'], PartOfSpeech::Verb, 7600) }
    else if i == 47 { (vec!['よ', 'む'], vec!['読', 'む'], PartOfSpeech::Verb, 7500) }
    else if i == 48 { (vec!['か', 'く'], vec!['書', 'く'], PartOfSpeech::Verb, 7500) }
    else if i == 49 { (vec!['は', 'な', 'す'], vec!['話', 'す'], PartOfSpeech::Verb, 7400) }
    else if i == 50 { (vec!['き', 'く'], vec!['聞', 'く'], PartOfSpeech::Verb, 7600) }
    else if i == 51 { (vec!['す', 'る'], vec!['す', 'る'], PartOfSpeech::Verb, 9000) }
    else if i == 52 { (vec!['い', 'る'], vec!['い', 'る'], PartOfSpeech::Verb, 8800) }
    else if i == 53 { (vec!['あ', 'る'], vec!['あ', 'る'], PartOfSpeech::Verb, 8800) }
    else if i == 54 { (vec!['わ', 'た', 'し'], vec!['私'], PartOfSpeech::Noun, 8800) }
    else if i == 55 { (vec!['あ', 'な', 'た'], vec!['貴', '方'], PartOfSpeech::Noun, 6000) }
    else if i == 56 { (vec!['ひ', 'と'], vec!['人'], PartOfSpeech::Noun, 8200) }
    else if i == 57 { (vec!['ほ', 'ん'], vec!['本'], PartOfSpeech::Noun, 8000) }
    else if i == 58 { (vec!['に', 'ほ', 'ん'], vec!['日', '本'], PartOfSpeech::Noun, 9000) }
    else if i == 59 { (vec!['に', 'ほ', 'ん', 'ご'], vec!['日', '本', '語'], PartOfSpeech::Noun, 8500) }
    else if i == 60 { (vec!['へ', 'ん', 'か', 'ん'], vec!['変', '換'], PartOfSpeech::Noun, 7000) }
    else if i == 61 { (vec!['か', 'ん', 'じ'], vec!['漢', '字'], PartOfSpeech::Noun, 7500) }
    else if i == 62 { (vec!['か', 'ん', 'じ'], vec!['感', 'じ'], PartOfSpeech::Noun, 7200) }
    else if i == 63 { (vec!['が', 'っ', 'こ', 'う'], vec!['学', '校'], PartOfSpeech::Noun, 8000) }
    else if i == 64 { (vec!['せ', 'ん', 'せ', 'い'], vec!['先', '生'], PartOfSpeech::Noun, 8000) }
    else if i == 65 { (vec!['が', 'く', 'せ', 'い'], vec!['学', '生'], PartOfSpeech::Noun, 7800) }
    else if i == 66 { (vec!['じ', 'し', 'ょ'], vec!['辞', '書'], PartOfSpeech::Noun, 7000) }
    else if i == 67 { (vec!['に', 'ゅ', 'う', 'り', 'ょ', 'く'], vec!['入', '力'], PartOfSpeech::Noun, 7200) }
    else if i == 68 { (vec!['も', 'じ'], vec!['文', '字'], PartOfSpeech::Noun, 7400) }
    else if i == 69 { (vec!['こ', 'と', 'ば'], vec!['言', '葉'], PartOfSpeech::Noun, 7600) }
    else if i == 70 { (vec!['せ', 'ん', 'し', 'ゅ', 'う'], vec!['先', '週'], PartOfSpeech::Noun, 7000) }
    else if i == 71 { (vec!['ら', 'い', 'し', 'ゅ', 'う'], vec!['来', '週'], PartOfSpeech::Noun, 7000) }
    else if i == 72 { (vec!['あ', 'し', 'た'], vec!['明', '日'], PartOfSpeech::Noun, 8600) }
    else if i == 73 { (vec!['き', 'の', 'う'], vec!['昨', '日'], PartOfSpeech::Noun, 8400) }
    else if i == 74 { (vec!['い', 'ま'], vec!['今'], PartOfSpeech::Noun, 8800) }
    else if i == 75 { (vec!['と', 'き'], vec!['時'], PartOfSpeech::Noun, 8000) }
    else if i == 76 { (vec!['ひ'], vec!['日'], PartOfSpeech::Noun, 8000) }
    else if i == 77 { (vec!['ひ'], vec!['火'], PartOfSpeech::Noun, 6800) }
    else if i == 78 { (vec!['つ', 'き'], vec!['月'], PartOfSpeech::Noun, 7400) }
    else if i == 79 { (vec!['ほ', 'し'], vec!['星'], PartOfSpeech::Noun, 6800) }
    else if i == 80 { (vec!['そ', 'ら'], vec!['空'], PartOfSpeech::Noun, 7000) }
    else if i == 81 { (vec!['や', 'ま'], vec!['山'], PartOfSpeech::Noun, 7600) }
    else if i == 82 { (vec!['か', 'わ'], vec!['川'], PartOfSpeech::Noun, 7200) }
    else if i == 83 { (vec!['う', 'み'], vec!['海'], PartOfSpeech::Noun, 7400) }
    else if i == 84 { (vec!['み', 'ず'], vec!['水'], PartOfSpeech::Noun, 7800) }
    else if i == 85 { (vec!['は', 'な'], vec!['花'], PartOfSpeech::Noun, 7400) }
    else if i == 86 { (vec!['は', 'な'], vec!['鼻'], PartOfSpeech::Noun, 6400) }
    else if i == 87 { (vec!['は', 'し'], vec!['橋'], PartOfSpeech::Noun, 6600) }
    else if i == 88 { (vec!['は', 'し'], vec!['箸'], PartOfSpeech::Noun, 6200) }
    else if i == 89 { (vec!['は', 'し'], vec!['端'], PartOfSpeech::Noun, 6000) }
    else if i == 90 { (vec!['か', 'み'], vec!['紙'], PartOfSpeech::Noun, 7000) }
    else if i == 91 { (vec!['か', 'み'], vec!['神'], PartOfSpeech::Noun, 6800) }
    else if i == 92 { (vec!['か', 'み'], vec!['髪'], PartOfSpeech::Noun, 6600) }
    else if i == 93 { (vec!['く', 'る', 'ま'], vec!['車'], PartOfSpeech::Noun, 7600) }
    else if i == 94 { (vec!['で', 'ん', 'し', 'ゃ'], vec!['電', '車'], PartOfSpeech::Noun, 7400) }
    else if i == 95 { (vec!['え', 'き'], vec!['駅'], PartOfSpeech::Noun, 7600) }
    else if i == 96 { (vec!['み', 'ち'], vec!['道'], PartOfSpeech::Noun, 7400) }
    else if i == 97 { (vec!['い', 'え'], vec!['家'], PartOfSpeech::Noun, 7800) }
    else if i == 98 { (vec!['へ', 'や'], vec!['部', '屋'], PartOfSpeech::Noun, 7200) }
    else if i == 99 { (vec!['し', 'ご', 'と'], vec!['仕', '事'], PartOfSpeech::Noun, 8000) }
    else if i == 100 { (vec!['か', 'い', 'し', 'ゃ'], vec!['会', '社'], PartOfSpeech::Noun, 8000) }
    else if i == 101 { (vec!['で', 'ん', 'わ'], vec!['電', '話'], PartOfSpeech::Noun, 7600) }
    else if i == 102 { (vec!['と', 'も', 'だ', 'ち'], vec!['友', '達'], PartOfSpeech::Noun, 7800) }
    else if i == 103 { (vec!['か', 'ぞ', 'く'], vec!['家', '族'], PartOfSpeech::Noun, 7600) }
    else if i == 104 { (vec!['こ', 'ど', 'も'], vec!['子', '供'], PartOfSpeech::Noun, 7800) }
    else if i == 105 { (vec!['な', 'ま', 'え'], vec!['名', '前'], PartOfSpeech::Noun, 7800) }
    else if i == 106 { (vec!['じ', 'か', 'ん'], vec!['時', '間'], PartOfSpeech::Noun, 8200) }
    else if i == 107 { (vec!['お', 'ん', 'が', 'く'], vec!['音', '楽'], PartOfSpeech::Noun, 7000) }
    else if i == 108 { (vec!['え', 'い', 'が'], vec!['映', '画'], PartOfSpeech::Noun, 7200) }
    else if i == 109 { (vec!['し', 'ん', 'ぶ', 'ん'], vec!['新', '聞'], PartOfSpeech::Noun, 7000) }
    else if i == 110 { (vec!['て', 'が', 'み'], vec!['手', '紙'], PartOfSpeech::Noun, 6800) }
    else if i == 111 { (vec!['あ', 'さ'], vec!['朝'], PartOfSpeech::Noun, 7800) }
    else if i == 112 { (vec!['ひ', 'る'], vec!['昼'], PartOfSpeech::Noun, 7400) }
    else if i == 113 { (vec!['よ', 'る'], vec!['夜'], PartOfSpeech::Noun, 7800) }
    else if i == 114 { (vec!['お', 'お', 'き', 'い'], vec!['大', 'き', 'い'], PartOfSpeech::Adjective, 7800) }
    else if i == 115 { (vec!['ち', 'い', 'さ', 'い'], vec!['小', 'さ', 'い'], PartOfSpeech::Adjective, 7600) }
    else if i == 116 { (vec!['あ', 'た', 'ら', 'し', 'い'], vec!['新', 'し', 'い'], PartOfSpeech::Adjective, 7800) }
    else if i == 117 { (vec!['ふ', 'る', 'い'], vec!['古', 'い'], PartOfSpeech::Adjective, 7000) }
    else if i == 118 { (vec!['た', 'か', 'い'], vec!['高', 'い'], PartOfSpeech::Adjective, 7600) }
    else if i == 119 { (vec!['や', 'す', 'い'], vec!['安', 'い'], PartOfSpeech::Adjective, 7200) }
    else if i == 120 { (vec!['と', 'て', 'も'], vec!['と', 'て', 'も'], PartOfSpeech::Adverb, 7800) }
    else if i == 121 { (vec!['す', 'こ', 'し'], vec!['少', 'し'], PartOfSpeech::Adverb, 7600) }
    else if i == 122 { (vec!['も', 'う'], vec!['も', 'う'], PartOfSpeech::Adverb, 8000) }
    else if i == 123 { (vec!['ま', 'だ'], vec!['ま', 'だ'], PartOfSpeech::Adverb, 7800) }
    else if i == 124 { (vec!['そ', 'し', 'て'], vec!['そ', 'し', 'て'], PartOfSpeech::Conjunction, 7600) }
    else if i == 125 { (vec!['で', 'も'], vec!['で', 'も'], PartOfSpeech::Conjunction, 7800) }
    else if i == 126 { (vec!['し', 'か', 'し'], vec!['し', 'か', 'し'], PartOfSpeech::Conjunction, 7400) }
    else if i == 127 { (vec!['は', 'い'], vec!['は', 'い'], PartOfSpeech::Interjection, 8000) }
    else if i == 128 { (vec!['い', 'い', 'え'], vec!['い', 'い', 'え'], PartOfSpeech::Interjection, 7000) }
    else if i == 129 { (vec!['さ', 'ん'], vec!['さ', 'ん'], PartOfSpeech::Suffix, 8400) }
    else if i == 130 { (vec!['ご'], vec!['誤'], PartOfSpeech::Noun, 5000) }
    else if i == 131 { (vec!['ご'], vec!['語'], PartOfSpeech::Suffix, 6000) }
    else if i == 132 { (vec!['お'], vec!['お'], PartOfSpeech::Prefix, 8000) }
    else if i == 133 { (vec!['ぶ', 'ん'], vec!['文'], PartOfSpeech::Noun, 7200) }
    else if i == 134 { (vec!['ぶ', 'ん', 'ぽ', 'う'], vec!['文', '法'], PartOfSpeech::Noun, 6600) }
    else if i == 135 { (vec!['け', 'ん', 'さ', 'く'], vec!['検', '索'], PartOfSpeech::Noun, 6800) }
    else { (Vec::new(), Vec::new(), PartOfSpeech::Other, 0) }
}

/// Built-in word `i` as a dictionary entry.
pub fn builtin_entry(i: usize) -> (e: DictionaryEntry)
    requires
        i < BUILTIN_LEN,
    ensures
        entry_view(e) == builtin_row(i as int),
{
    let (reading, surface, pos, frequency) = builtin_chars(i);
    DictionaryEntry { reading: string_of(&reading), surface: string_of(&surface), pos, frequency }
}

/// Number of symbol groups.
pub const SYMBOL_GROUPS: usize = 18;

/// Symbol group `g`: a reading and its symbols, most common first.
pub open spec fn symbol_group(g: int) -> (Seq<char>, Seq<Seq<char>>) {
    if g == 0 { (seq!['や', 'じ', 'る', 'し'], seq![seq!['→'], seq!['←'], seq!['↑'], seq!['↓'], seq!['⇒'], seq!['⇐'], seq!['⇑'], seq!['⇓'], seq!['↔'], seq!['↕']]) }
    else if g == 1 { (seq!['み', 'ぎ'], seq![seq!['→'], seq!['⇒']]) }
    else if g == 2 { (seq!['ひ', 'だ', 'り'], seq![seq!['←'], seq!['⇐']]) }
    else if g == 3 { (seq!['う', 'え'], seq![seq!['↑'], seq!['⇑']]) }
    else if g == 4 { (seq!['し', 'た'], seq![seq!['↓'], seq!['⇓']]) }
    else if g == 5 { (seq!['ま', 'る'], seq![seq!['○'], seq!['◎'], seq!['●'], seq!['◯']]) }
    else if g == 6 { (seq!['さ', 'ん', 'か', 'く'], seq![seq!['△'], seq!['▲'], seq!['▽'], seq!['▼']]) }
    else if g == 7 { (seq!['し', 'か', 'く'], seq![seq!['□'], seq!['■'], seq!['◇'], seq!['◆']]) }
    else if g == 8 { (seq!['ほ', 'し'], seq![seq!['☆'], seq!['★']]) }
    else if g == 9 { (seq!['こ', 'め'], seq![seq!['※']]) }
    else if g == 10 { (seq!['か', 'ら'], seq![seq!['〜'], seq!['～']]) }
    else if g == 11 { (seq!['て', 'ん'], seq![seq!['・'], seq!['…'], seq!['‥'], seq!['、']]) }
    else if g == 12 { (seq!['ま', 'る'], seq![seq!['。'], seq!['○'], seq!['◎'], seq!['●']]) }
    else if g == 13 { (seq!['か', 'っ', 'こ'], seq![seq!['「', '」'], seq!['「'], seq!['」'], seq!['『', '』'], seq!['『'], seq!['』'], seq!['【', '】'], seq!['【'], seq!['】'], seq!['（', '）'], seq!['（'], seq!['）'], seq!['〔', '〕'], seq!['［', '］'], seq!['｛', '｝'], seq!['〈', '〉'], seq!['《', '》']]) }
    else if g == 14 { (seq!['か', 'ぎ', 'か', 'っ', 'こ'], seq![seq!['「', '」'], seq!['「'], seq!['」'], seq!['『', '』'], seq!['『'], seq!['』']]) }
    else if g == 15 { (seq!['す', 'み', 'か', 'っ', 'こ'], seq![seq!['【', '】'], seq!['【'], seq!['】']]) }
    else if g == 16 { (seq!['ま', 'る', 'か', 'っ', 'こ'], seq![seq!['（', '）'], seq!['（'], seq!['）']]) }
    else if g == 17 { (seq!['ゆ', 'う', 'び', 'ん'], seq![seq!['〒']]) }
    else { (Seq::empty(), Seq::empty()) }
}

/// The characters of symbol group `g`.
pub fn symbol_group_chars(g: usize) -> (r: (Vec<char>, Vec<Vec<char>>))
    requires
        g < SYMBOL_GROUPS,
    ensures
        r.0@ == symbol_group(g as int).0,
        r.1@.len() == symbol_group(g as int).1.len(),
        forall|i: int| 0 <= i < r.1@.len() ==> #[trigger] r.1@[i]@ == symbol_group(g as int).1[i],
        r.1@.len() <= 17,
{
    if g == 0 {
        let r = (vec!['や', 'じ', 'る', 'し'], vec![vec!['→'], vec!['←'], vec!['↑'], vec!['↓'], vec!['⇒'], vec!['⇐'], vec!['⇑'], vec!['⇓'], vec!['↔'], vec!['↕']]);
        assert(r.1@.len() == symbol_group(g as int).1.len());
        r
    }
    else if g == 1 {
        let r = (vec!['み', 'ぎ'], vec![vec!['→'], vec!['⇒']]);
        assert(r.1@.len() == symbol_group(g as int).1.len());
        r
    }
    else if g == 2 {
        let r = (vec!['ひ', 'だ', 'り'], vec![vec!['←'], vec!['⇐']]);
        assert(r.1@.len() == symbol_group(g as int).1.len());
        r
    }
    else if g == 3 {
        let r = (vec!['う', 'え'], vec![vec!['↑'], vec!['⇑']]);
        assert(r.1@.len() == symbol_group(g as int).1.len());
        r
    }
    else if g == 4 {
        let r = (vec!['し', 'た'], vec![vec!['↓'], vec!['⇓']]);
        assert(r.1@.len() == symbol_group(g as int).1.len());
        r
    }
    else if g == 5 {
        let r = (vec!['ま', 'る'], vec![vec!['○'], vec!['◎'], vec!['●'], vec!['◯']]);
        assert(r.1@.len() == symbol_group(g as int).1.len());
        r
    }
    else if g == 6 {
        let r = (vec!['さ', 'ん', 'か', 'く'], vec![vec!['△'], vec!['▲'], vec!['▽'], vec!['▼']]);
        assert(r.1@.len() == symbol_group(g as int).1.len());
        r
    }
    else if g == 7 {
        let r = (vec!['し', 'か', 'く'], vec![vec!['□'], vec!['■'], vec!['◇'], vec!['◆']]);
        assert(r.1@.len() == symbol_group(g as int).1.len());
        r
    }
    else if g == 8 {
        let r = (vec!['ほ', 'し'], vec![vec!['☆'], vec!['★']]);
        assert(r.1@.len() == symbol_group(g as int).1.len());
        r
    }
    else if g == 9 {
        let r = (vec!['こ', 'め'], vec![vec!['※']]);
        assert(r.1@.len() == symbol_group(g as int).1.len());
        r
    }
    else if g == 10 {
        let r = (vec!['か', 'ら'], vec![vec!['〜'], vec!['～']]);
        assert(r.1@.len() == symbol_group(g as int).1.len());
        r
    }
    else if g == 11 {
        let r = (vec!['て', 'ん'], vec![vec!['・'], vec!['…'], vec!['‥'], vec!['、']]);
        assert(r.1@.len() == symbol_group(g as int).1.len());
        r
    }
    else if g == 12 {
        let r = (vec!['ま', 'る'], vec![vec!['。'], vec!['○'], vec!['◎'], vec!['●']]);
        assert(r.1@.len() == symbol_group(g as int).1.len());
        r
    }
    else if g == 13 {
        let r = (vec!['か', 'っ', 'こ'], vec![vec!['「', '」'], vec!['「'], vec!['」'], vec!['『', '』'], vec!['『'], vec!['』'], vec!['【', '】'], vec!['【'], vec!['】'], vec!['（', '）'], vec!['（'], vec!['）'], vec!['〔', '〕'], vec!['［', '］'], vec!['｛', '｝'], vec!['〈', '〉'], vec!['《', '》']]);
        assert(r.1@.len() == symbol_group(g as int).1.len());
        r
    }
    else if g == 14 {
        let r = (vec!['か', 'ぎ', 'か', 'っ', 'こ'], vec![vec!['「', '」'], vec!['「'], vec!['」'], vec!['『', '』'], vec!['『'], vec!['』']]);
        assert(r.1@.len() == symbol_group(g as int).1.len());
        r
    }
    else if g == 15 {
        let r = (vec!['す', 'み', 'か', 'っ', 'こ'], vec![vec!['【', '】'], vec!['【'], vec!['】']]);
        assert(r.1@.len() == symbol_group(g as int).1.len());
        r
    }
    else if g == 16 {
        let r = (vec!['ま', 'る', 'か', 'っ', 'こ'], vec![vec!['（', '）'], vec!['（'], vec!['）']]);
        assert(r.1@.len() == symbol_group(g as int).1.len());
        r
    }
    else if g == 17 {
        let r = (vec!['ゆ', 'う', 'び', 'ん'], vec![vec!['〒']]);
        assert(r.1@.len() == symbol_group(g as int).1.len());
        r
    }
    else { (Vec::new(), Vec::new()) }
}

/// Number of auxiliary verb forms.
pub const AUXILIARY_LEN: usize = 22;

/// Auxiliary verb form `i` (reading and surface are the same).
pub open spec fn auxiliary(i: int) -> Seq<char> {
    if i == 0 { seq!['ま', 'し', 'ょ', 'う'] }
    else if i == 1 { seq!['ま', 'せ', 'ん'] }
    else if i == 2 { seq!['ま', 'し', 'た'] }
    else if i == 3 { seq!['ま', 'せ', 'ん', 'で', 'し', 'た'] }
    else if i == 4 { seq!['で', 'し', 'ょ', 'う'] }
    else if i == 5 { seq!['で', 'し', 'た'] }
    else if i == 6 { seq!['で', 'す', 'が'] }
    else if i == 7 { seq!['で', 'す', 'け', 'ど'] }
    else if i == 8 { seq!['で', 'す', 'か', 'ら'] }
    else if i == 9 { seq!['で', 'す', 'の', 'で'] }
    else if i == 10 { seq!['で', 'す', 'よ', 'ね'] }
    else if i == 11 { seq!['で', 'す', 'よ'] }
    else if i == 12 { seq!['で', 'す', 'ね'] }
    else if i == 13 { seq!['で', 'す', 'か'] }
    else if i == 14 { seq!['ま', 'す', 'が'] }
    else if i == 15 { seq!['ま', 'す', 'か'] }
    else if i == 16 { seq!['ま', 'す', 'よ'] }
    else if i == 17 { seq!['ま', 'す', 'ね'] }
    else if i == 18 { seq!['く', 'だ', 'さ', 'い'] }
    else if i == 19 { seq!['く', 'だ', 'さ', 'る'] }
    else if i == 20 { seq!['て', 'お', 'り', 'ま', 'す'] }
    else if i == 21 { seq!['い', 'た', 'し', 'ま', 'す'] }
    else { Seq::empty() }
}

/// The characters of auxiliary verb form `i`.
pub fn auxiliary_chars(i: usize) -> (r: Vec<char>)
    requires
        i < AUXILIARY_LEN,
    ensures
        r@ == auxiliary(i as int),
{
    if i == 0 { vec!['ま', 'し', 'ょ', 'う'] }
    else if i == 1 { vec!['ま', 'せ', 'ん'] }
    else if i == 2 { vec!['ま', 'し', 'た'] }
    else if i == 3 { vec!['ま', 'せ', 'ん', 'で', 'し', 'た'] }
    else if i == 4 { vec!['で', 'し', 'ょ', 'う'] }
    else if i == 5 { vec!['で', 'し', 'た'] }
    else if i == 6 { vec!['で', 'す', 'が'] }
    else if i == 7 { vec!['で', 'す', 'け', 'ど'] }
    else if i == 8 { vec!['で', 'す', 'か', 'ら'] }
    else if i == 9 { vec!['で', 'す', 'の', 'で'] }
    else if i == 10 { vec!['で', 'す', 'よ', 'ね'] }
    else if i == 11 { vec!['で', 'す', 'よ'] }
    else if i == 12 { vec!['で', 'す', 'ね'] }
    else if i == 13 { vec!['で', 'す', 'か'] }
    else if i == 14 { vec!['ま', 'す', 'が'] }
    else if i == 15 { vec!['ま', 'す', 'か'] }
    else if i == 16 { vec!['ま', 'す', 'よ'] }
    else if i == 17 { vec!['ま', 'す', 'ね'] }
    else if i == 18 { vec!['く', 'だ', 'さ', 'い'] }
    else if i == 19 { vec!['く', 'だ', 'さ', 'る'] }
    else if i == 20 { vec!['て', 'お', 'り', 'ま', 'す'] }
    else if i == 21 { vec!['い', 'た', 'し', 'ま', 'す'] }
    else { Vec::new() }
}

} // verus!
