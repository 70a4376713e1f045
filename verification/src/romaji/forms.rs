//! Kana form conversions: katakana, half-width katakana and romaji.
use vstd::prelude::*;
use crate::text::{append_chars, char_from_u32, chars_of, chars_range, string_of};
use super::table::{entry, spec_entry, TABLE_LEN};

verus! {

// ---------------------------------------------------------------------------
// Full-width katakana
// ---------------------------------------------------------------------------

/// Hiragana ぁ..ゖ map to katakana ァ..ヶ (code point + 0x60); other
/// characters are unchanged.
pub open spec fn katakana_char(c: char) -> char {
    if 0x3041 <= (c as u32) && (c as u32) <= 0x3096 {
        ((c as u32) + 0x60) as char
    } else {
        c
    }
}

/// Converts a hiragana string to full-width katakana; other characters
/// (ー, kanji, ...) are left unchanged.
pub fn hiragana_to_katakana(s: &str) -> (r: String)
    ensures
        r@ == s@.map_values(|c: char| katakana_char(c)),
{
    let v = chars_of(s);
    let mut out: Vec<char> = Vec::new();
    let mut i: usize = 0;
    while i < v.len()
        invariant
            i <= v.len(),
            v@ == s@,
            out@ == v@.take(i as int).map_values(|c: char| katakana_char(c)),
        decreases v.len() - i,
    {
        let c = v[i];
        let code = c as u32;
        let k = if 0x3041 <= code && code <= 0x3096 {
            match char_from_u32(code + 0x60) {
                Some(k) => k,
                None => c,
            }
        } else {
            c
        };
        out.push(k);
        i += 1;
        assert(out@ =~= v@.take(i as int).map_values(|c: char| katakana_char(c)));
    }
    assert(v@.take(v.len() as int) == v@);
    string_of(&out)
}

/// Law: katakana conversion moves every hiragana character, U+3041 to
/// U+3096 (small kana such as っ included), 0x60 code points up and leaves
/// every other character as it is; so the result holds no hiragana.
pub proof fn lemma_katakana_shift(s: Seq<char>)
    ensures
        s.map_values(|c: char| katakana_char(c)).len() == s.len(),
        forall|k: int| 0 <= k < s.len() && 0x3041 <= (#[trigger] s[k] as u32) <= 0x3096 ==>
            s.map_values(|c: char| katakana_char(c))[k] as u32 == (s[k] as u32) + 0x60,
        forall|k: int| 0 <= k < s.len() && !(0x3041 <= (#[trigger] s[k] as u32) <= 0x3096) ==>
            s.map_values(|c: char| katakana_char(c))[k] == s[k],
        forall|k: int| #![trigger s[k]] 0 <= k < s.len() ==>
            !(0x3041 <= (s.map_values(|c: char| katakana_char(c))[k] as u32) <= 0x3096),
{
    let r = s.map_values(|c: char| katakana_char(c));
    assert forall|k: int| 0 <= k < s.len() && 0x3041 <= (#[trigger] s[k] as u32) <= 0x3096 implies
        r[k] as u32 == (s[k] as u32) + 0x60 by {
        let x: u32 = s[k] as u32;
        let y: u32 = (x + 0x60) as u32;
        assert(r[k] == (y as char));
        assert(((y as char) as u32) == y);
    }
    assert forall|k: int| #![trigger s[k]] 0 <= k < s.len() implies !(0x3041 <= (r[k] as u32) <= 0x3096) by {
        let x: u32 = s[k] as u32;
        if 0x3041 <= x <= 0x3096 {
            let y: u32 = (x + 0x60) as u32;
            assert(r[k] == (y as char));
            assert(((y as char) as u32) == y);
        }
    }
}

// ---------------------------------------------------------------------------
// Half-width katakana
// ---------------------------------------------------------------------------

/// The half-width form of one character: kana become half-width katakana
/// (voiced and semi-voiced kana become two characters, base + ﾞ/ﾟ),
/// full-width punctuation, digits and letters become ASCII, and anything
/// else is unchanged.
pub open spec fn halfwidth_chars(c: char) -> Seq<char> {
    if c == 'あ' { seq!['ｱ'] }
    else if c == 'い' { seq!['ｲ'] }
    else if c == 'う' { seq!['ｳ'] }
    else if c == 'え' { seq!['ｴ'] }
    else if c == 'お' { seq!['ｵ'] }
    else if c == 'か' { seq!['ｶ'] }
    else if c == 'き' { seq!['ｷ'] }
    else if c == 'く' { seq!['ｸ'] }
    else if c == 'け' { seq!['ｹ'] }
    else if c == 'こ' { seq!['ｺ'] }
    else if c == 'さ' { seq!['ｻ'] }
    else if c == 'し' { seq!['ｼ'] }
    else if c == 'す' { seq!['ｽ'] }
    else if c == 'せ' { seq!['ｾ'] }
    else if c == 'そ' { seq!['ｿ'] }
    else if c == 'た' { seq!['ﾀ'] }
    else if c == 'ち' { seq!['ﾁ'] }
    else if c == 'つ' { seq!['ﾂ'] }
    else if c == 'て' { seq!['ﾃ'] }
    else if c == 'と' { seq!['ﾄ'] }
    else if c == 'な' { seq!['ﾅ'] }
    else if c == 'に' { seq!['ﾆ'] }
    else if c == 'ぬ' { seq!['ﾇ'] }
    else if c == 'ね' { seq!['ﾈ'] }
    else if c == 'の' { seq!['ﾉ'] }
    else if c == 'は' { seq!['ﾊ'] }
    else if c == 'ひ' { seq!['ﾋ'] }
    else if c == 'ふ' { seq!['ﾌ'] }
    else if c == 'へ' { seq!['ﾍ'] }
    else if c == 'ほ' { seq!['ﾎ'] }
    else if c == 'ま' { seq!['ﾏ'] }
    else if c == 'み' { seq!['ﾐ'] }
    else if c == 'む' { seq!['ﾑ'] }
    else if c == 'め' { seq!['ﾒ'] }
    else if c == 'も' { seq!['ﾓ'] }
    else if c == 'や' { seq!['ﾔ'] }
    else if c == 'ゆ' { seq!['ﾕ'] }
    else if c == 'よ' { seq!['ﾖ'] }
    else if c == 'ら' { seq!['ﾗ'] }
    else if c == 'り' { seq!['ﾘ'] }
    else if c == 'る' { seq!['ﾙ'] }
    else if c == 'れ' { seq!['ﾚ'] }
    else if c == 'ろ' { seq!['ﾛ'] }
    else if c == 'わ' { seq!['ﾜ'] }
    else if c == 'を' { seq!['ｦ'] }
    else if c == 'ん' { seq!['ﾝ'] }
    else if c == 'が' { seq!['ｶ', 'ﾞ'] }
    else if c == 'ぎ' { seq!['ｷ', 'ﾞ'] }
    else if c == 'ぐ' { seq!['ｸ', 'ﾞ'] }
    else if c == 'げ' { seq!['ｹ', 'ﾞ'] }
    else if c == 'ご' { seq!['ｺ', 'ﾞ'] }
    else if c == 'ざ' { seq!['ｻ', 'ﾞ'] }
    else if c == 'じ' { seq!['ｼ', 'ﾞ'] }
    else if c == 'ず' { seq!['ｽ', 'ﾞ'] }
    else if c == 'ぜ' { seq!['ｾ', 'ﾞ'] }
    else if c == 'ぞ' { seq!['ｿ', 'ﾞ'] }
    else if c == 'だ' { seq!['ﾀ', 'ﾞ'] }
    else if c == 'ぢ' { seq!['ﾁ', 'ﾞ'] }
    else if c == 'づ' { seq!['ﾂ', 'ﾞ'] }
    else if c == 'で' { seq!['ﾃ', 'ﾞ'] }
    else if c == 'ど' { seq!['ﾄ', 'ﾞ'] }
    else if c == 'ば' { seq!['ﾊ', 'ﾞ'] }
    else if c == 'び' { seq!['ﾋ', 'ﾞ'] }
    else if c == 'ぶ' { seq!['ﾌ', 'ﾞ'] }
    else if c == 'べ' { seq!['ﾍ', 'ﾞ'] }
    else if c == 'ぼ' { seq!['ﾎ', 'ﾞ'] }
    else if c == 'ゔ' { seq!['ｳ', 'ﾞ'] }
    else if c == 'ぱ' { seq!['ﾊ', 'ﾟ'] }
    else if c == 'ぴ' { seq!['ﾋ', 'ﾟ'] }
    else if c == 'ぷ' { seq!['ﾌ', 'ﾟ'] }
    else if c == 'ぺ' { seq!['ﾍ', 'ﾟ'] }
    else if c == 'ぽ' { seq!['ﾎ', 'ﾟ'] }
    else if c == 'ぁ' { seq!['ｧ'] }
    else if c == 'ぃ' { seq!['ｨ'] }
    else if c == 'ぅ' { seq!['ｩ'] }
    else if c == 'ぇ' { seq!['ｪ'] }
    else if c == 'ぉ' { seq!['ｫ'] }
    else if c == 'っ' { seq!['ｯ'] }
    else if c == 'ゃ' { seq!['ｬ'] }
    else if c == 'ゅ' { seq!['ｭ'] }
    else if c == 'ょ' { seq!['ｮ'] }
    else if c == 'ー' { seq!['ｰ'] }
    else if c == '。' { seq!['｡'] }
    else if c == '、' { seq!['､'] }
    else if c == '「' { seq!['｢'] }
    else if c == '」' { seq!['｣'] }
    else if c == '・' { seq!['･'] }
    else if c == '！' { seq!['!'] }
    else if c == '？' { seq!['?'] }
    else if c == '（' { seq!['('] }
    else if c == '）' { seq![')'] }
    else if c == '｛' { seq!['{'] }
    else if c == '｝' { seq!['}'] }
    else if c == '［' { seq!['['] }
    else if c == '］' { seq![']'] }
    else if c == '＋' { seq!['+'] }
    else if c == '－' { seq!['-'] }
    else if c == '＝' { seq!['='] }
    else if c == '＊' { seq!['*'] }
    else if c == '／' { seq!['/'] }
    else if c == '＼' { seq!['\\'] }
    else if c == '＆' { seq!['&'] }
    else if c == '＠' { seq!['@'] }
    else if c == '＃' { seq!['#'] }
    else if c == '＄' { seq!['$'] }
    else if c == '％' { seq!['%'] }
    else if c == '＾' { seq!['^'] }
    else if c == '｜' { seq!['|'] }
    else if c == '～' { seq!['~'] }
    else if c == '＜' { seq!['<'] }
    else if c == '＞' { seq!['>'] }
    else if c == '：' { seq![':'] }
    else if c == '；' { seq![';'] }
    else if c == '＿' { seq!['_'] }
    else if c == '＂' { seq!['"'] }
    else if c == '＇' { seq!['\''] }
    else if 0xFF10 <= (c as u32) && (c as u32) <= 0xFF19 { seq![((c as u32) - 0xFF10 + 0x30) as char] }
    else if 0xFF21 <= (c as u32) && (c as u32) <= 0xFF3A { seq![((c as u32) - 0xFF21 + 0x41) as char] }
    else if 0xFF41 <= (c as u32) && (c as u32) <= 0xFF5A { seq![((c as u32) - 0xFF41 + 0x61) as char] }
    else { seq![c] }
}

/// The concatenated half-width forms of the characters of `s`.
pub open spec fn halfwidth_of(s: Seq<char>) -> Seq<char>
    decreases s.len(),
{
    if s.len() == 0 {
        Seq::empty()
    } else {
        halfwidth_of(s.drop_last()) + halfwidth_chars(s.last())
    }
}

fn push_ascii_offset(out: &mut Vec<char>, c: char, base: u32, target: u32)
    requires
        base <= (c as u32),
        (c as u32) - base + target < 0x80,
    ensures
        final(out)@ == old(out)@.push(((c as u32) - base + target) as char),
{
    let code = (c as u32) - base + target;
    match char_from_u32(code) {
        Some(h) => out.push(h),
        None => {},
    }
}

fn push_halfwidth(out: &mut Vec<char>, c: char)
    ensures
        final(out)@ == old(out)@ + halfwidth_chars(c),
{
    if c == 'あ' { out.push('ｱ'); }
    else if c == 'い' { out.push('ｲ'); }
    else if c == 'う' { out.push('ｳ'); }
    else if c == 'え' { out.push('ｴ'); }
    else if c == 'お' { out.push('ｵ'); }
    else if c == 'か' { out.push('ｶ'); }
    else if c == 'き' { out.push('ｷ'); }
    else if c == 'く' { out.push('ｸ'); }
    else if c == 'け' { out.push('ｹ'); }
    else if c == 'こ' { out.push('ｺ'); }
    else if c == 'さ' { out.push('ｻ'); }
    else if c == 'し' { out.push('ｼ'); }
    else if c == 'す' { out.push('ｽ'); }
    else if c == 'せ' { out.push('ｾ'); }
    else if c == 'そ' { out.push('ｿ'); }
    else if c == 'た' { out.push('ﾀ'); }
    else if c == 'ち' { out.push('ﾁ'); }
    else if c == 'つ' { out.push('ﾂ'); }
    else if c == 'て' { out.push('ﾃ'); }
    else if c == 'と' { out.push('ﾄ'); }
    else if c == 'な' { out.push('ﾅ'); }
    else if c == 'に' { out.push('ﾆ'); }
    else if c == 'ぬ' { out.push('ﾇ'); }
    else if c == 'ね' { out.push('ﾈ'); }
    else if c == 'の' { out.push('ﾉ'); }
    else if c == 'は' { out.push('ﾊ'); }
    else if c == 'ひ' { out.push('ﾋ'); }
    else if c == 'ふ' { out.push('ﾌ'); }
    else if c == 'へ' { out.push('ﾍ'); }
    else if c == 'ほ' { out.push('ﾎ'); }
    else if c == 'ま' { out.push('ﾏ'); }
    else if c == 'み' { out.push('ﾐ'); }
    else if c == 'む' { out.push('ﾑ'); }
    else if c == 'め' { out.push('ﾒ'); }
    else if c == 'も' { out.push('ﾓ'); }
    else if c == 'や' { out.push('ﾔ'); }
    else if c == 'ゆ' { out.push('ﾕ'); }
    else if c == 'よ' { out.push('ﾖ'); }
    else if c == 'ら' { out.push('ﾗ'); }
    else if c == 'り' { out.push('ﾘ'); }
    else if c == 'る' { out.push('ﾙ'); }
    else if c == 'れ' { out.push('ﾚ'); }
    else if c == 'ろ' { out.push('ﾛ'); }
    else if c == 'わ' { out.push('ﾜ'); }
    else if c == 'を' { out.push('ｦ'); }
    else if c == 'ん' { out.push('ﾝ'); }
    else if c == 'が' { out.push('ｶ'); out.push('ﾞ'); }
    else if c == 'ぎ' { out.push('ｷ'); out.push('ﾞ'); }
    else if c == 'ぐ' { out.push('ｸ'); out.push('ﾞ'); }
    else if c == 'げ' { out.push('ｹ'); out.push('ﾞ'); }
    else if c == 'ご' { out.push('ｺ'); out.push('ﾞ'); }
    else if c == 'ざ' { out.push('ｻ'); out.push('ﾞ'); }
    else if c == 'じ' { out.push('ｼ'); out.push('ﾞ'); }
    else if c == 'ず' { out.push('ｽ'); out.push('ﾞ'); }
    else if c == 'ぜ' { out.push('ｾ'); out.push('ﾞ'); }
    else if c == 'ぞ' { out.push('ｿ'); out.push('ﾞ'); }
    else if c == 'だ' { out.push('ﾀ'); out.push('ﾞ'); }
    else if c == 'ぢ' { out.push('ﾁ'); out.push('ﾞ'); }
    else if c == 'づ' { out.push('ﾂ'); out.push('ﾞ'); }
    else if c == 'で' { out.push('ﾃ'); out.push('ﾞ'); }
    else if c == 'ど' { out.push('ﾄ'); out.push('ﾞ'); }
    else if c == 'ば' { out.push('ﾊ'); out.push('ﾞ'); }
    else if c == 'び' { out.push('ﾋ'); out.push('ﾞ'); }
    else if c == 'ぶ' { out.push('ﾌ'); out.push('ﾞ'); }
    else if c == 'べ' { out.push('ﾍ'); out.push('ﾞ'); }
    else if c == 'ぼ' { out.push('ﾎ'); out.push('ﾞ'); }
    else if c == 'ゔ' { out.push('ｳ'); out.push('ﾞ'); }
    else if c == 'ぱ' { out.push('ﾊ'); out.push('ﾟ'); }
    else if c == 'ぴ' { out.push('ﾋ'); out.push('ﾟ'); }
    else if c == 'ぷ' { out.push('ﾌ'); out.push('ﾟ'); }
    else if c == 'ぺ' { out.push('ﾍ'); out.push('ﾟ'); }
    else if c == 'ぽ' { out.push('ﾎ'); out.push('ﾟ'); }
    else if c == 'ぁ' { out.push('ｧ'); }
    else if c == 'ぃ' { out.push('ｨ'); }
    else if c == 'ぅ' { out.push('ｩ'); }
    else if c == 'ぇ' { out.push('ｪ'); }
    else if c == 'ぉ' { out.push('ｫ'); }
    else if c == 'っ' { out.push('ｯ'); }
    else if c == 'ゃ' { out.push('ｬ'); }
    else if c == 'ゅ' { out.push('ｭ'); }
    else if c == 'ょ' { out.push('ｮ'); }
    else if c == 'ー' { out.push('ｰ'); }
    else if c == '。' { out.push('｡'); }
    else if c == '、' { out.push('､'); }
    else if c == '「' { out.push('｢'); }
    else if c == '」' { out.push('｣'); }
    else if c == '・' { out.push('･'); }
    else if c == '！' { out.push('!'); }
    else if c == '？' { out.push('?'); }
    else if c == '（' { out.push('('); }
    else if c == '）' { out.push(')'); }
    else if c == '｛' { out.push('{'); }
    else if c == '｝' { out.push('}'); }
    else if c == '［' { out.push('['); }
    else if c == '］' { out.push(']'); }
    else if c == '＋' { out.push('+'); }
    else if c == '－' { out.push('-'); }
    else if c == '＝' { out.push('='); }
    else if c == '＊' { out.push('*'); }
    else if c == '／' { out.push('/'); }
    else if c == '＼' { out.push('\\'); }
    else if c == '＆' { out.push('&'); }
    else if c == '＠' { out.push('@'); }
    else if c == '＃' { out.push('#'); }
    else if c == '＄' { out.push('$'); }
    else if c == '％' { out.push('%'); }
    else if c == '＾' { out.push('^'); }
    else if c == '｜' { out.push('|'); }
    else if c == '～' { out.push('~'); }
    else if c == '＜' { out.push('<'); }
    else if c == '＞' { out.push('>'); }
    else if c == '：' { out.push(':'); }
    else if c == '；' { out.push(';'); }
    else if c == '＿' { out.push('_'); }
    else if c == '＂' { out.push('"'); }
    else if c == '＇' { out.push('\''); }
    else if 0xFF10 <= (c as u32) && (c as u32) <= 0xFF19 { push_ascii_offset(out, c, 0xFF10, 0x30); }
    else if 0xFF21 <= (c as u32) && (c as u32) <= 0xFF3A { push_ascii_offset(out, c, 0xFF21, 0x41); }
    else if 0xFF41 <= (c as u32) && (c as u32) <= 0xFF5A { push_ascii_offset(out, c, 0xFF41, 0x61); }
    else { out.push(c); }
    assert(final(out)@ =~= old(out)@ + halfwidth_chars(c));
}

/// Converts a hiragana string to half-width katakana. Voiced and
/// semi-voiced kana are decomposed into base + ﾞ/ﾟ.
pub fn hiragana_to_halfwidth_katakana(s: &str) -> (r: String)
    ensures
        r@ == halfwidth_of(s@),
{
    let v = chars_of(s);
    let mut out: Vec<char> = Vec::new();
    let mut i: usize = 0;
    while i < v.len()
        invariant
            i <= v.len(),
            v@ == s@,
            out@ == halfwidth_of(v@.take(i as int)),
        decreases v.len() - i,
    {
        push_halfwidth(&mut out, v[i]);
        assert(v@.take(i + 1).drop_last() =~= v@.take(i as int));
        i += 1;
    }
    assert(v@.take(v.len() as int) == v@);
    string_of(&out)
}

// ---------------------------------------------------------------------------
// Romaji
// ---------------------------------------------------------------------------

/// Whether every character of `r` is an ASCII letter.
pub open spec fn all_alpha(r: Seq<char>) -> bool {
    forall|j: int| 0 <= j < r.len() ==> #[trigger] is_ascii_alpha(r[j])
}

pub open spec fn is_ascii_alpha(c: char) -> bool {
    ('a' <= c && c <= 'z') || ('A' <= c && c <= 'Z')
}

/// Whether the spelling `r` replaces the best spelling found so far:
/// it is shorter, or equally long and made of letters only.
pub open spec fn replaces(r: Seq<char>, best: Option<Seq<char>>) -> bool {
    match best {
        None => true,
        Some(p) => r.len() < p.len() || (r.len() == p.len() && all_alpha(r)),
    }
}

/// The preferred spelling for `kana` among the first `n` table rows.
pub open spec fn best_spelling(kana: Seq<char>, n: int) -> Option<Seq<char>>
    decreases n,
{
    if n <= 0 {
        None
    } else {
        let b = best_spelling(kana, n - 1);
        if spec_entry(n - 1).1 == kana && replaces(spec_entry(n - 1).0, b) {
            Some(spec_entry(n - 1).0)
        } else {
            b
        }
    }
}

/// Reverse lookup kana → romaji: ん is `n`, っ has no spelling of its own
/// (it doubles the next consonant), otherwise the shortest spelling of the
/// table, preferring letters-only spellings among equally short ones.
pub open spec fn reverse_spelling(kana: Seq<char>) -> Option<Seq<char>> {
    if kana == seq!['ん'] {
        Some(seq!['n'])
    } else if kana == seq!['っ'] {
        None
    } else {
        best_spelling(kana, TABLE_LEN as int)
    }
}

fn all_ascii_alpha(r: &Vec<char>) -> (b: bool)
    ensures
        b == all_alpha(r@),
{
    let mut i: usize = 0;
    while i < r.len()
        invariant
            i <= r.len(),
            forall|j: int| 0 <= j < i ==> #[trigger] is_ascii_alpha(r@[j]),
        decreases r.len() - i,
    {
        let c = r[i];
        if !(('a' <= c && c <= 'z') || ('A' <= c && c <= 'Z')) {
            assert(!is_ascii_alpha(r@[i as int]));
            return false;
        }
        i += 1;
    }
    true
}

fn kana_to_romaji_lookup(kana: &Vec<char>) -> (r: Option<Vec<char>>)
    ensures
        match r {
            Some(v) => reverse_spelling(kana@) == Some(v@),
            None => reverse_spelling(kana@) is None,
        },
{
    if kana.len() == 1 && kana[0] == 'ん' {
        assert(kana@ =~= seq!['ん']);
        return Some(vec!['n']);
    }
    if kana.len() == 1 && kana[0] == 'っ' {
        assert(kana@ =~= seq!['っ']);
        return None;
    }
    proof {
        if kana@ == seq!['ん'] || kana@ == seq!['っ'] {
            assert(kana@[0] == kana@[0]);
        }
    }
    let mut best: Option<Vec<char>> = None;
    let mut i: usize = 0;
    while i < TABLE_LEN
        invariant
            i <= TABLE_LEN,
            match best {
                Some(v) => best_spelling(kana@, i as int) == Some(v@),
                None => best_spelling(kana@, i as int) is None,
            },
        decreases TABLE_LEN - i,
    {
        let (rom, k) = entry(i);
        if crate::text::chars_eq(&k, kana) {
            let take = match &best {
                None => true,
                Some(prev) => {
                    if rom.len() < prev.len() {
                        true
                    } else if rom.len() == prev.len() {
                        all_ascii_alpha(&rom)
                    } else {
                        false
                    }
                },
            };
            if take {
                best = Some(rom);
            }
        }
        i += 1;
    }
    best
}

/// The ASCII form of a full-width character outside the kana table.
pub open spec fn romaji_punct(c: char) -> char {
    if c == '。' { '.' }
    else if c == '、' { ',' }
    else if c == '！' { '!' }
    else if c == '？' { '?' }
    else if c == '（' { '(' }
    else if c == '）' { ')' }
    else if c == '［' { '[' }
    else if c == '］' { ']' }
    else if c == '｛' { '{' }
    else if c == '｝' { '}' }
    else if c == '＋' { '+' }
    else if c == '＝' { '=' }
    else if c == '＊' { '*' }
    else if c == '／' { '/' }
    else if c == '＼' { '\\' }
    else if c == '＆' { '&' }
    else if c == '＠' { '@' }
    else if c == '＃' { '#' }
    else if c == '＄' { '$' }
    else if c == '％' { '%' }
    else if c == '＾' { '^' }
    else if c == '｜' { '|' }
    else if c == '～' { '~' }
    else if c == '＜' { '<' }
    else if c == '＞' { '>' }
    else if c == '：' { ':' }
    else if c == '；' { ';' }
    else if c == '＿' { '_' }
    else if c == '＂' { '"' }
    else if c == '｀' { '`' }
    else if c == 'ー' { '-' }
    else { c }
}

fn romaji_punct_char(c: char) -> (r: char)
    ensures
        r == romaji_punct(c),
{
    if c == '。' { '.' }
    else if c == '、' { ',' }
    else if c == '！' { '!' }
    else if c == '？' { '?' }
    else if c == '（' { '(' }
    else if c == '）' { ')' }
    else if c == '［' { '[' }
    else if c == '］' { ']' }
    else if c == '｛' { '{' }
    else if c == '｝' { '}' }
    else if c == '＋' { '+' }
    else if c == '＝' { '=' }
    else if c == '＊' { '*' }
    else if c == '／' { '/' }
    else if c == '＼' { '\\' }
    else if c == '＆' { '&' }
    else if c == '＠' { '@' }
    else if c == '＃' { '#' }
    else if c == '＄' { '$' }
    else if c == '％' { '%' }
    else if c == '＾' { '^' }
    else if c == '｜' { '|' }
    else if c == '～' { '~' }
    else if c == '＜' { '<' }
    else if c == '＞' { '>' }
    else if c == '：' { ':' }
    else if c == '；' { ';' }
    else if c == '＿' { '_' }
    else if c == '＂' { '"' }
    else if c == '｀' { '`' }
    else if c == 'ー' { '-' }
    else { c }
}

/// The longest kana run of at most 3 characters starting at `i` that has a
/// spelling, and that spelling.
pub open spec fn longest_match(k: Seq<char>, i: int) -> Option<(int, Seq<char>)> {
    if i + 3 <= k.len() && reverse_spelling(k.subrange(i, i + 3)) is Some {
        Some((3, reverse_spelling(k.subrange(i, i + 3))->0))
    } else if i + 2 <= k.len() && reverse_spelling(k.subrange(i, i + 2)) is Some {
        Some((2, reverse_spelling(k.subrange(i, i + 2))->0))
    } else if i + 1 <= k.len() && reverse_spelling(k.subrange(i, i + 1)) is Some {
        Some((1, reverse_spelling(k.subrange(i, i + 1))->0))
    } else {
        None
    }
}

/// The romaji for a っ at `i`: the first letter of the next syllable's
/// spelling when that is an ASCII letter, otherwise `xtu`.
pub open spec fn sokuon_romaji(k: Seq<char>, i: int) -> Seq<char> {
    match longest_match(k, i + 1) {
        Some((_, r)) => if r.len() > 0 && is_ascii_alpha(r[0]) {
            seq![r[0]]
        } else {
            seq!['x', 't', 'u']
        },
        None => seq!['x', 't', 'u'],
    }
}

/// Romaji for the kana `k` from position `i` on: greedy longest match of
/// up to 3 kana, っ doubles the next consonant, other characters are
/// turned into their ASCII forms.
pub open spec fn romaji_from(k: Seq<char>, i: int) -> Seq<char>
    decreases k.len() - i,
{
    if i < 0 || i >= k.len() {
        Seq::empty()
    } else {
        match longest_match(k, i) {
            Some((n, r)) => r + romaji_from(k, i + n),
            None => if k[i] == 'っ' {
                sokuon_romaji(k, i) + romaji_from(k, i + 1)
            } else {
                seq![romaji_punct(k[i])] + romaji_from(k, i + 1)
            },
        }
    }
}

/// Finds the longest match at `i` (up to 3 kana).
fn find_match(k: &Vec<char>, i: usize) -> (r: Option<(usize, Vec<char>)>)
    requires
        i <= k.len(),
    ensures
        match r {
            Some((n, v)) => longest_match(k@, i as int) == Some((n as int, v@)),
            None => longest_match(k@, i as int) is None,
        },
{
    let mut len: usize = 3;
    while len >= 1
        invariant
            1 <= len + 1 <= 4,
            i <= k.len(),
            forall|l: int| len < l <= 3 ==> !(i + l <= k.len() && #[trigger] reverse_spelling(k@.subrange(i as int, i + l)) is Some),
        decreases len,
    {
        if len <= k.len() - i {
            let slice = chars_range(k, i, i + len);
            if let Some(r) = kana_to_romaji_lookup(&slice) {
                return Some((len, r));
            }
        }
        len -= 1;
    }
    None
}

/// Converts a hiragana string back to half-width ASCII romaji using the
/// romaji table in reverse. っ doubles the next consonant; characters
/// without a spelling are converted from full-width to half-width.
pub fn hiragana_to_romaji(s: &str) -> (r: String)
    ensures
        r@ == romaji_from(s@, 0),
{
    let k = chars_of(s);
    let mut out: Vec<char> = Vec::new();
    let mut i: usize = 0;
    while i < k.len()
        invariant
            i <= k.len(),
            k@ == s@,
            out@ + romaji_from(k@, i as int) == romaji_from(k@, 0),
        decreases k.len() - i,
    {
        let ghost before = romaji_from(k@, i as int);
        match find_match(&k, i) {
            Some((n, r)) => {
                append_chars(&mut out, &r);
                i += n;
                assert(out@ + romaji_from(k@, i as int) =~= romaji_from(k@, 0));
            },
            None => {
                let c = k[i];
                if c == 'っ' {
                    let next = if i + 1 <= k.len() { find_match(&k, i + 1) } else { None };
                    let mut doubled = false;
                    if let Some((_, r)) = next {
                        if r.len() > 0 {
                            let first = r[0];
                            if ('a' <= first && first <= 'z') || ('A' <= first && first <= 'Z') {
                                out.push(first);
                                doubled = true;
                            }
                        }
                    }
                    if !doubled {
                        out.push('x');
                        out.push('t');
                        out.push('u');
                    }
                } else {
                    out.push(romaji_punct_char(c));
                }
                i += 1;
                assert(out@ + romaji_from(k@, i as int) =~= romaji_from(k@, 0));
            },
        }
    }
    assert(romaji_from(k@, k.len() as int) == Seq::<char>::empty());
    assert(out@ =~= romaji_from(k@, 0));
    string_of(&out)
}

// ---------------------------------------------------------------------------
// Full-width romaji
// ---------------------------------------------------------------------------

/// The full-width form of one half-width romaji character: ASCII letters
/// and digits become full-width letters and digits, punctuation becomes its
/// full-width (or Japanese) form, space becomes the ideographic space.
pub open spec fn fullwidth_char(c: char) -> char {
    if 'a' <= c && c <= 'z' {
        ((c as u32) - 0x61 + 0xFF41) as char
    } else if 'A' <= c && c <= 'Z' {
        ((c as u32) - 0x41 + 0xFF21) as char
    } else if '0' <= c && c <= '9' {
        ((c as u32) - 0x30 + 0xFF10) as char
    } else {
        fullwidth_punct(c)
    }
}

pub open spec fn fullwidth_punct(c: char) -> char {
    if c == '!' { '！' }
    else if c == '?' { '？' }
    else if c == '.' { '。' }
    else if c == ',' { '、' }
    else if c == '(' { '（' }
    else if c == ')' { '）' }
    else if c == '[' { '［' }
    else if c == ']' { '］' }
    else if c == '{' { '｛' }
    else if c == '}' { '｝' }
    else if c == '+' { '＋' }
    else if c == '=' { '＝' }
    else if c == '*' { '＊' }
    else if c == '/' { '／' }
    else if c == '\\' { '＼' }
    else if c == '&' { '＆' }
    else if c == '@' { '＠' }
    else if c == '#' { '＃' }
    else if c == '$' { '＄' }
    else if c == '%' { '％' }
    else if c == '^' { '＾' }
    else if c == '|' { '｜' }
    else if c == '~' { '～' }
    else if c == '<' { '＜' }
    else if c == '>' { '＞' }
    else if c == ':' { '：' }
    else if c == ';' { '；' }
    else if c == '_' { '＿' }
    else if c == '"' { '＂' }
    else if c == '\'' { '＇' }
    else if c == '`' { '｀' }
    else if c == '-' { 'ー' }
    else if c == ' ' { '\u{3000}' }
    else { c }
}

fn fullwidth_punct_char(c: char) -> (r: char)
    ensures
        r == fullwidth_punct(c),
{
    if c == '!' { '！' }
    else if c == '?' { '？' }
    else if c == '.' { '。' }
    else if c == ',' { '、' }
    else if c == '(' { '（' }
    else if c == ')' { '）' }
    else if c == '[' { '［' }
    else if c == ']' { '］' }
    else if c == '{' { '｛' }
    else if c == '}' { '｝' }
    else if c == '+' { '＋' }
    else if c == '=' { '＝' }
    else if c == '*' { '＊' }
    else if c == '/' { '／' }
    else if c == '\\' { '＼' }
    else if c == '&' { '＆' }
    else if c == '@' { '＠' }
    else if c == '#' { '＃' }
    else if c == '$' { '＄' }
    else if c == '%' { '％' }
    else if c == '^' { '＾' }
    else if c == '|' { '｜' }
    else if c == '~' { '～' }
    else if c == '<' { '＜' }
    else if c == '>' { '＞' }
    else if c == ':' { '：' }
    else if c == ';' { '；' }
    else if c == '_' { '＿' }
    else if c == '"' { '＂' }
    else if c == '\'' { '＇' }
    else if c == '`' { '｀' }
    else if c == '-' { 'ー' }
    else if c == ' ' { '\u{3000}' }
    else { c }
}

fn fullwidth_offset(c: char, base: u32, target: u32) -> (r: char)
    requires
        base <= (c as u32),
        0xFF00 <= (c as u32) - base + target <= 0xFFEF,
    ensures
        r == ((c as u32) - base + target) as char,
{
    match char_from_u32((c as u32) - base + target) {
        Some(h) => h,
        None => c,
    }
}

/// Converts a hiragana string to full-width romaji: the half-width romaji
/// of `hiragana_to_romaji`, with each character turned into its full-width
/// form.
pub fn hiragana_to_fullwidth_romaji(s: &str) -> (r: String)
    ensures
        r@ == romaji_from(s@, 0).map_values(|c: char| fullwidth_char(c)),
{
    let half = hiragana_to_romaji(s);
    let v = chars_of(half.as_str());
    let mut out: Vec<char> = Vec::new();
    let mut i: usize = 0;
    while i < v.len()
        invariant
            i <= v.len(),
            out@ == v@.take(i as int).map_values(|c: char| fullwidth_char(c)),
        decreases v.len() - i,
    {
        let c = v[i];
        let f = if 'a' <= c && c <= 'z' {
            fullwidth_offset(c, 0x61, 0xFF41)
        } else if 'A' <= c && c <= 'Z' {
            fullwidth_offset(c, 0x41, 0xFF21)
        } else if '0' <= c && c <= '9' {
            fullwidth_offset(c, 0x30, 0xFF10)
        } else {
            fullwidth_punct_char(c)
        };
        out.push(f);
        i += 1;
        assert(out@ =~= v@.take(i as int).map_values(|c: char| fullwidth_char(c)));
    }
    assert(v@.take(v.len() as int) == v@);
    string_of(&out)
}

} // verus!
