//! Building the word list from IPADIC CSV rows.
//!
//! An IPADIC row is `surface,left,right,cost,pos,pos1,pos2,pos3,ctype,cform,base,reading,...`
//! with the reading in katakana. Rows are filtered (cost threshold,
//! conjugation forms, kana-only surfaces, lone small katakana), readings
//! are turned into hiragana, parts of speech are mapped, and the cost
//! becomes a frequency. Verb and adjective stems also yield compound words
//! (past, te-form, progressive, passive). The part-of-speech frequency
//! adjustment, which works in floating point, is applied by the caller.
pub mod order;

use vstd::prelude::*;
use crate::dictionary::PartOfSpeech;
use crate::llm::{is_kanji, kanji};
use crate::text::{append_chars, char_from_u32, chars_eq, chars_of, chars_starts_with, split_lines, starts_with, string_of, text_lines};

verus! {

/// A word of the list.
#[derive(Debug)]
pub struct GenEntry {
    pub reading: String,
    pub surface: String,
    pub pos: PartOfSpeech,
    pub frequency: u32,
}

impl Clone for GenEntry {
    fn clone(&self) -> (r: Self)
        ensures
            r == *self,
    {
        GenEntry {
            reading: self.reading.clone(),
            surface: self.surface.clone(),
            pos: self.pos,
            frequency: self.frequency,
        }
    }
}

/// A word with the conjugation data that compound generation needs.
#[derive(Debug, Clone)]
pub struct ParsedEntry {
    pub entry: GenEntry,
    pub conjugation_type: String,
    pub conjugation_form: String,
}

/// A parsed row: the word (with the frequency from the cost alone), its
/// conjugation data, and the IPADIC part of speech it was mapped from.
#[derive(Debug, Clone)]
pub struct ParsedLine {
    pub parsed: ParsedEntry,
    pub pos_major: String,
    pub pos_sub: String,
}

/// A word of the list as plain values.
pub type GenView = (Seq<char>, Seq<char>, PartOfSpeech, u32);

pub open spec fn gen_view(e: GenEntry) -> GenView {
    (e.reading@, e.surface@, e.pos, e.frequency)
}

// ---------------------------------------------------------------------------
// Small conversions
// ---------------------------------------------------------------------------

/// Katakana ァ..ヶ become hiragana; everything else (ー included) stays.
pub open spec fn hira_of_kata(c: char) -> char {
    if '\u{30A1}' <= c <= '\u{30F6}' { ((c as int) - 0x60) as char } else { c }
}

/// Converts a katakana string to hiragana.
pub fn katakana_to_hiragana(s: &str) -> (r: String)
    ensures
        r@ == s@.map_values(|c: char| hira_of_kata(c)),
{
    let cs = chars_of(s);
    let mut out: Vec<char> = Vec::new();
    let mut i: usize = 0;
    while i < cs.len()
        invariant
            cs@ == s@,
            i <= cs@.len(),
            out@ == s@.map_values(|c: char| hira_of_kata(c)).take(i as int),
        decreases cs.len() - i,
    {
        let c = cs[i];
        let h = if '\u{30A1}' <= c && c <= '\u{30F6}' {
            match char_from_u32((c as u32) - 0x60) {
                Some(h) => h,
                None => c,
            }
        } else {
            c
        };
        out.push(h);
        i += 1;
        assert(out@ =~= s@.map_values(|c: char| hira_of_kata(c)).take(i as int));
    }
    assert(s@.map_values(|c: char| hira_of_kata(c)).take(cs.len() as int) =~= s@.map_values(|c: char| hira_of_kata(c)));
    string_of(&out)
}

/// The part of speech for an IPADIC major class and first subclass.
pub open spec fn pos_of(major: Seq<char>, sub: Seq<char>) -> PartOfSpeech {
    if major == seq!['名', '詞'] {
        if sub == seq!['接', '尾'] { PartOfSpeech::Suffix } else { PartOfSpeech::Noun }
    } else if major == seq!['動', '詞'] { PartOfSpeech::Verb }
    else if major == seq!['形', '容', '詞'] { PartOfSpeech::Adjective }
    else if major == seq!['副', '詞'] { PartOfSpeech::Adverb }
    else if major == seq!['助', '詞'] { PartOfSpeech::Particle }
    else if major == seq!['助', '動', '詞'] { PartOfSpeech::Auxiliary }
    else if major == seq!['接', '続', '詞'] { PartOfSpeech::Conjunction }
    else if major == seq!['感', '動', '詞'] { PartOfSpeech::Interjection }
    else if major == seq!['接', '頭', '詞'] { PartOfSpeech::Prefix }
    else { PartOfSpeech::Other }
}

fn is(s: &Vec<char>, w: Vec<char>) -> (r: bool)
    ensures
        r == (s@ == w@),
{
    chars_eq(s, &w)
}

/// Maps an IPADIC part of speech to the dictionary's.
pub fn map_pos(major: &str, sub: &str) -> (r: PartOfSpeech)
    ensures
        r == pos_of(major@, sub@),
{
    let m = chars_of(major);
    let s = chars_of(sub);
    let w = vec!['名', '詞'];
    assert(w@ =~= seq!['名', '詞']);
    if is(&m, w) {
        let w2 = vec!['接', '尾'];
        assert(w2@ =~= seq!['接', '尾']);
        return if is(&s, w2) { PartOfSpeech::Suffix } else { PartOfSpeech::Noun };
    }
    let w = vec!['動', '詞'];
    assert(w@ =~= seq!['動', '詞']);
    if is(&m, w) { return PartOfSpeech::Verb; }
    let w = vec!['形', '容', '詞'];
    assert(w@ =~= seq!['形', '容', '詞']);
    if is(&m, w) { return PartOfSpeech::Adjective; }
    let w = vec!['副', '詞'];
    assert(w@ =~= seq!['副', '詞']);
    if is(&m, w) { return PartOfSpeech::Adverb; }
    let w = vec!['助', '詞'];
    assert(w@ =~= seq!['助', '詞']);
    if is(&m, w) { return PartOfSpeech::Particle; }
    let w = vec!['助', '動', '詞'];
    assert(w@ =~= seq!['助', '動', '詞']);
    if is(&m, w) { return PartOfSpeech::Auxiliary; }
    let w = vec!['接', '続', '詞'];
    assert(w@ =~= seq!['接', '続', '詞']);
    if is(&m, w) { return PartOfSpeech::Conjunction; }
    let w = vec!['感', '動', '詞'];
    assert(w@ =~= seq!['感', '動', '詞']);
    if is(&m, w) { return PartOfSpeech::Interjection; }
    let w = vec!['接', '頭', '詞'];
    assert(w@ =~= seq!['接', '頭', '詞']);
    if is(&m, w) { return PartOfSpeech::Prefix; }
    PartOfSpeech::Other
}

/// Frequency from an IPADIC cost: `10000 - cost`, clamped to 1..=20000.
pub open spec fn frequency_of_cost(cost: i32) -> u32 {
    let f = 10000 - cost;
    if f < 1 { 1 } else if f > 20000 { 20000 } else { f as u32 }
}

/// Converts an IPADIC cost (lower is more common) to a frequency score
/// (higher is more common).
pub fn cost_to_frequency(cost: i32) -> (r: u32)
    requires
        10000 - cost <= i32::MAX,
    ensures
        r == frequency_of_cost(cost),
{
    let f = 10000 - cost;
    if f < 1 {
        1
    } else if f > 20000 {
        20000
    } else {
        f as u32
    }
}

/// Twice the frequency, at most 20000.
pub open spec fn boosted(f: u32) -> u32 {
    if 2 * f > 20000 { 20000 } else { (2 * f) as u32 }
}

/// Doubles a frequency for compound words, capped at 20000.
pub fn boost_freq(frequency: u32) -> (r: u32)
    ensures
        r == boosted(frequency),
{
    if frequency > 10000 {
        20000
    } else {
        frequency * 2
    }
}

/// A compound word: the base with suffixes appended to its reading and surface.
pub fn make_compound(base: &GenEntry, reading_suffix: &Vec<char>, surface_suffix: &Vec<char>, freq: u32) -> (r: GenEntry)
    ensures
        gen_view(r) == (base.reading@ + reading_suffix@, base.surface@ + surface_suffix@, base.pos, freq),
{
    let mut reading = chars_of(base.reading.as_str());
    append_chars(&mut reading, reading_suffix);
    let mut surface = chars_of(base.surface.as_str());
    append_chars(&mut surface, surface_suffix);
    GenEntry { reading: string_of(&reading), surface: string_of(&surface), pos: base.pos, frequency: freq }
}


// ---------------------------------------------------------------------------
// Compound words
// ---------------------------------------------------------------------------

/// Conjugation types whose past and te-forms are voiced (だ/で).
pub open spec fn voiced_type(t: Seq<char>) -> bool {
    starts_with(t, seq!['五', '段', '・', 'ガ', '行']) || starts_with(t, seq!['五', '段', '・', 'バ', '行'])
        || starts_with(t, seq!['五', '段', '・', 'マ', '行']) || starts_with(t, seq!['五', '段', '・', 'ナ', '行'])
}

/// Conjugation types whose 連用形 takes た/て directly.
pub open spec fn ichidan_type(t: Seq<char>) -> bool {
    starts_with(t, seq!['一', '段']) || starts_with(t, seq!['一', '段', '・', 'ク', 'レ', 'ル'])
        || starts_with(t, seq!['カ', '変', '・', '来', 'ル']) || starts_with(t, seq!['サ', '変', '・', 'ス', 'ル'])
        || starts_with(t, seq!['サ', '変', '・', '−', 'ス', 'ル'])
}

pub open spec fn godan_type(t: Seq<char>) -> bool {
    starts_with(t, seq!['五', '段'])
}

/// The suffixes appended to a stem of the given conjugation type and form.
pub open spec fn compound_suffixes(ctype: Seq<char>, cform: Seq<char>) -> Seq<Seq<char>> {
    if cform == seq!['連', '用', 'タ', '接', '続'] {
        let ta = if voiced_type(ctype) { seq!['だ'] } else { seq!['た'] };
        let te = if voiced_type(ctype) { seq!['で'] } else { seq!['て'] };
        seq![ta, te, te + seq!['い', 'る'], te + seq!['い', 'た'], te + seq!['い', 'な', 'い'], te + seq!['い', 'ま', 'す']]
    } else if cform == seq!['連', '用', '形'] {
        if ichidan_type(ctype) {
            seq![seq!['た'], seq!['て'], seq!['て', 'い', 'る'], seq!['て', 'い', 'た'], seq!['て', 'い', 'な', 'い'], seq!['て', 'い', 'ま', 'す']]
        } else {
            Seq::empty()
        }
    } else if cform == seq!['未', '然', '形'] {
        if ichidan_type(ctype) {
            seq![seq!['ら', 'れ', 'る'], seq!['ら', 'れ', 'た'], seq!['ら', 'れ', 'て'], seq!['ら', 'れ', 'な', 'い']]
        } else if godan_type(ctype) {
            seq![seq!['れ', 'る'], seq!['れ', 'た'], seq!['れ', 'て'], seq!['れ', 'な', 'い']]
        } else {
            Seq::empty()
        }
    } else {
        Seq::empty()
    }
}

/// Law: a 連用タ接続 stem whose conjugation type starts with 五段・ガ行,
/// 五段・バ行, 五段・マ行 or 五段・ナ行 takes the voiced suffixes だ, で,
/// でいる, でいた, でいない, でいます; a 連用タ接続 stem of any other type
/// takes た, て, ている, ていた, ていない, ています.
pub proof fn lemma_ta_te_suffixes(ctype: Seq<char>)
    ensures
        ({
            let head = ctype.subrange(0, 5);
            ctype.len() >= 5 && (head == seq!['五', '段', '・', 'ガ', '行'] || head == seq!['五', '段', '・', 'バ', '行']
                || head == seq!['五', '段', '・', 'マ', '行'] || head == seq!['五', '段', '・', 'ナ', '行'])
        }) ==> compound_suffixes(ctype, seq!['連', '用', 'タ', '接', '続']) == seq![
            seq!['だ'], seq!['で'], seq!['で', 'い', 'る'], seq!['で', 'い', 'た'], seq!['で', 'い', 'な', 'い'],
            seq!['で', 'い', 'ま', 'す']],
        !({
            let head = ctype.subrange(0, 5);
            ctype.len() >= 5 && (head == seq!['五', '段', '・', 'ガ', '行'] || head == seq!['五', '段', '・', 'バ', '行']
                || head == seq!['五', '段', '・', 'マ', '行'] || head == seq!['五', '段', '・', 'ナ', '行'])
        }) ==> compound_suffixes(ctype, seq!['連', '用', 'タ', '接', '続']) == seq![
            seq!['た'], seq!['て'], seq!['て', 'い', 'る'], seq!['て', 'い', 'た'], seq!['て', 'い', 'な', 'い'],
            seq!['て', 'い', 'ま', 'す']],
{
    let sfx = compound_suffixes(ctype, seq!['連', '用', 'タ', '接', '続']);
    if voiced_type(ctype) {
        assert(seq!['で'] + seq!['い', 'る'] =~= seq!['で', 'い', 'る']);
        assert(seq!['で'] + seq!['い', 'た'] =~= seq!['で', 'い', 'た']);
        assert(seq!['で'] + seq!['い', 'な', 'い'] =~= seq!['で', 'い', 'な', 'い']);
        assert(seq!['で'] + seq!['い', 'ま', 'す'] =~= seq!['で', 'い', 'ま', 'す']);
    } else {
        assert(seq!['て'] + seq!['い', 'る'] =~= seq!['て', 'い', 'る']);
        assert(seq!['て'] + seq!['い', 'た'] =~= seq!['て', 'い', 'た']);
        assert(seq!['て'] + seq!['い', 'な', 'い'] =~= seq!['て', 'い', 'な', 'い']);
        assert(seq!['て'] + seq!['い', 'ま', 'す'] =~= seq!['て', 'い', 'ま', 'す']);
    }
}

/// The compounds of one stem: each suffix on both reading and surface,
/// with the boosted frequency.
pub open spec fn compounds_of(p: ParsedEntry) -> Seq<GenView> {
    let sfx = compound_suffixes(p.conjugation_type@, p.conjugation_form@);
    Seq::new(sfx.len(), |k: int| (p.entry.reading@ + sfx[k], p.entry.surface@ + sfx[k], p.entry.pos, boosted(p.entry.frequency)))
}

/// The compounds of the first `n` stems, stem by stem.
pub open spec fn all_compounds(ps: Seq<ParsedEntry>, n: int) -> Seq<GenView>
    decreases n,
{
    if n <= 0 {
        Seq::empty()
    } else {
        all_compounds(ps, n - 1) + compounds_of(ps[n - 1])
    }
}

fn has_prefix(t: &Vec<char>, p: Vec<char>) -> (r: bool)
    ensures
        r == starts_with(t@, p@),
{
    chars_starts_with(t, &p)
}

fn voiced(t: &Vec<char>) -> (r: bool)
    ensures
        r == voiced_type(t@),
{
    let a = vec!['五', '段', '・', 'ガ', '行'];
    let b = vec!['五', '段', '・', 'バ', '行'];
    let c = vec!['五', '段', '・', 'マ', '行'];
    let d = vec!['五', '段', '・', 'ナ', '行'];
    assert(a@ =~= seq!['五', '段', '・', 'ガ', '行'] && b@ =~= seq!['五', '段', '・', 'バ', '行']);
    assert(c@ =~= seq!['五', '段', '・', 'マ', '行'] && d@ =~= seq!['五', '段', '・', 'ナ', '行']);
    has_prefix(t, a) || has_prefix(t, b) || has_prefix(t, c) || has_prefix(t, d)
}

fn ichidan(t: &Vec<char>) -> (r: bool)
    ensures
        r == ichidan_type(t@),
{
    let a = vec!['一', '段'];
    let b = vec!['一', '段', '・', 'ク', 'レ', 'ル'];
    let c = vec!['カ', '変', '・', '来', 'ル'];
    let d = vec!['サ', '変', '・', 'ス', 'ル'];
    let e = vec!['サ', '変', '・', '−', 'ス', 'ル'];
    assert(a@ =~= seq!['一', '段'] && b@ =~= seq!['一', '段', '・', 'ク', 'レ', 'ル']);
    assert(c@ =~= seq!['カ', '変', '・', '来', 'ル'] && d@ =~= seq!['サ', '変', '・', 'ス', 'ル']);
    assert(e@ =~= seq!['サ', '変', '・', '−', 'ス', 'ル']);
    has_prefix(t, a) || has_prefix(t, b) || has_prefix(t, c) || has_prefix(t, d) || has_prefix(t, e)
}

fn with_tail(head: &Vec<char>, tail: Vec<char>) -> (r: Vec<char>)
    ensures
        r@ == head@ + tail@,
{
    let mut r = head.clone();
    append_chars(&mut r, &tail);
    r
}

/// The suffixes for a conjugation type and form.
fn suffixes(ctype: &str, cform: &str) -> (r: Vec<Vec<char>>)
    ensures
        r@.map_values(|v: Vec<char>| v@) == compound_suffixes(ctype@, cform@),
{
    let t = chars_of(ctype);
    let f = chars_of(cform);
    let renyo_ta = vec!['連', '用', 'タ', '接', '続'];
    let renyo = vec!['連', '用', '形'];
    let mizen = vec!['未', '然', '形'];
    assert(renyo_ta@ =~= seq!['連', '用', 'タ', '接', '続']);
    assert(renyo@ =~= seq!['連', '用', '形']);
    assert(mizen@ =~= seq!['未', '然', '形']);
    let r: Vec<Vec<char>> = if is(&f, renyo_ta) {
        let v = voiced(&t);
        let ta = if v { vec!['だ'] } else { vec!['た'] };
        let te = if v { vec!['で'] } else { vec!['て'] };
        assert(ta@ =~= (if voiced_type(t@) { seq!['だ'] } else { seq!['た'] }));
        assert(te@ =~= (if voiced_type(t@) { seq!['で'] } else { seq!['て'] }));
        let i1 = vec!['い', 'る'];
        let i2 = vec!['い', 'た'];
        let i3 = vec!['い', 'な', 'い'];
        let i4 = vec!['い', 'ま', 'す'];
        assert(i1@ =~= seq!['い', 'る'] && i2@ =~= seq!['い', 'た']);
        assert(i3@ =~= seq!['い', 'な', 'い'] && i4@ =~= seq!['い', 'ま', 'す']);
        let a = with_tail(&te, i1);
        let b = with_tail(&te, i2);
        let c = with_tail(&te, i3);
        let d = with_tail(&te, i4);
        let r = vec![ta, te, a, b, c, d];
        assert(r@.map_values(|v: Vec<char>| v@) =~= compound_suffixes(ctype@, cform@));
        r
    } else if is(&f, renyo) {
        if ichidan(&t) {
            let s0 = vec!['た'];
            assert(s0@ =~= seq!['た']);
            let s1 = vec!['て'];
            assert(s1@ =~= seq!['て']);
            let s2 = vec!['て', 'い', 'る'];
            assert(s2@ =~= seq!['て', 'い', 'る']);
            let s3 = vec!['て', 'い', 'た'];
            assert(s3@ =~= seq!['て', 'い', 'た']);
            let s4 = vec!['て', 'い', 'な', 'い'];
            assert(s4@ =~= seq!['て', 'い', 'な', 'い']);
            let s5 = vec!['て', 'い', 'ま', 'す'];
            assert(s5@ =~= seq!['て', 'い', 'ま', 'す']);
            let r = vec![s0, s1, s2, s3, s4, s5];
            assert(r@.map_values(|v: Vec<char>| v@) =~= seq![seq!['た'], seq!['て'], seq!['て', 'い', 'る'], seq!['て', 'い', 'た'], seq!['て', 'い', 'な', 'い'], seq!['て', 'い', 'ま', 'す']]);
            r
        } else {
            Vec::new()
        }
    } else if is(&f, mizen) {
        if ichidan(&t) {
            let s0 = vec!['ら', 'れ', 'る'];
            assert(s0@ =~= seq!['ら', 'れ', 'る']);
            let s1 = vec!['ら', 'れ', 'た'];
            assert(s1@ =~= seq!['ら', 'れ', 'た']);
            let s2 = vec!['ら', 'れ', 'て'];
            assert(s2@ =~= seq!['ら', 'れ', 'て']);
            let s3 = vec!['ら', 'れ', 'な', 'い'];
            assert(s3@ =~= seq!['ら', 'れ', 'な', 'い']);
            let r = vec![s0, s1, s2, s3];
            assert(r@.map_values(|v: Vec<char>| v@) =~= seq![seq!['ら', 'れ', 'る'], seq!['ら', 'れ', 'た'], seq!['ら', 'れ', 'て'], seq!['ら', 'れ', 'な', 'い']]);
            r
        } else {
            let g = vec!['五', '段'];
            assert(g@ =~= seq!['五', '段']);
            if has_prefix(&t, g) {
                let s0 = vec!['れ', 'る'];
                assert(s0@ =~= seq!['れ', 'る']);
                let s1 = vec!['れ', 'た'];
                assert(s1@ =~= seq!['れ', 'た']);
                let s2 = vec!['れ', 'て'];
                assert(s2@ =~= seq!['れ', 'て']);
                let s3 = vec!['れ', 'な', 'い'];
                assert(s3@ =~= seq!['れ', 'な', 'い']);
                let r = vec![s0, s1, s2, s3];
                assert(r@.map_values(|v: Vec<char>| v@) =~= seq![seq!['れ', 'る'], seq!['れ', 'た'], seq!['れ', 'て'], seq!['れ', 'な', 'い']]);
                r
            } else {
                Vec::new()
            }
        }
    } else {
        Vec::new()
    };
    assert(r@.map_values(|v: Vec<char>| v@) =~= compound_suffixes(ctype@, cform@));
    r
}

/// Whether a parsed word is a stem that compounds are built from: a verb
/// or adjective whose surface differs from its reading, in the 連用タ接続,
/// 連用形 or 未然形 form.
pub open spec fn compound_stem(e: GenView, cform: Seq<char>) -> bool {
    &&& e.1 != e.0
    &&& (e.2 == PartOfSpeech::Verb || e.2 == PartOfSpeech::Adjective)
    &&& (cform == seq!['連', '用', 'タ', '接', '続'] || cform == seq!['連', '用', '形'] || cform == seq!['未', '然', '形'])
}

/// Whether compounds are built from this parsed word (see `compound_stem`).
pub fn is_compound_stem(p: &ParsedEntry) -> (r: bool)
    ensures
        r == compound_stem(gen_view(p.entry), p.conjugation_form@),
{
    let reading = chars_of(p.entry.reading.as_str());
    let surface = chars_of(p.entry.surface.as_str());
    if chars_eq(&surface, &reading) {
        return false;
    }
    if !(p.entry.pos == PartOfSpeech::Verb || p.entry.pos == PartOfSpeech::Adjective) {
        return false;
    }
    let f = chars_of(p.conjugation_form.as_str());
    let w1 = vec!['連', '用', 'タ', '接', '続'];
    assert(w1@ =~= seq!['連', '用', 'タ', '接', '続']);
    let w2 = vec!['連', '用', '形'];
    assert(w2@ =~= seq!['連', '用', '形']);
    let w3 = vec!['未', '然', '形'];
    assert(w3@ =~= seq!['未', '然', '形']);
    is(&f, w1) || is(&f, w2) || is(&f, w3)
}

/// Generates compound entries by combining verb and adjective stems with
/// auxiliaries: from a 連用タ接続 stem the past, te-form and progressive
/// forms (voiced だ/で after ガ/バ/マ/ナ-row godan stems); from an
/// ichidan-type 連用形 stem the past, te-form and progressive forms; from
/// a 未然形 stem the passive forms (られる for ichidan types, れる for
/// godan). Compounds get twice the stem's frequency, at most 20000.
pub fn generate_compounds(parsed: &Vec<ParsedEntry>) -> (r: Vec<GenEntry>)
    ensures
        r@.map_values(|e: GenEntry| gen_view(e)) == all_compounds(parsed@, parsed@.len() as int),
{
    let mut out: Vec<GenEntry> = Vec::new();
    let mut i: usize = 0;
    while i < parsed.len()
        invariant
            i <= parsed@.len(),
            out@.map_values(|e: GenEntry| gen_view(e)) == all_compounds(parsed@, i as int),
        decreases parsed.len() - i,
    {
        let p = &parsed[i];
        let sfx = suffixes(p.conjugation_type.as_str(), p.conjugation_form.as_str());
        let boost = boost_freq(p.entry.frequency);
        let ghost base = out@.map_values(|e: GenEntry| gen_view(e));
        let mut k: usize = 0;
        while k < sfx.len()
            invariant
                i < parsed@.len(),
                p == &parsed@[i as int],
                sfx@.map_values(|v: Vec<char>| v@) == compound_suffixes(p.conjugation_type@, p.conjugation_form@),
                boost == boosted(p.entry.frequency),
                base == all_compounds(parsed@, i as int),
                k <= sfx@.len(),
                out@.map_values(|e: GenEntry| gen_view(e)) == base + compounds_of(*p).take(k as int),
            decreases sfx.len() - k,
        {
            let e = make_compound(&p.entry, &sfx[k], &sfx[k], boost);
            let ghost before = out@;
            out.push(e);
            proof {
                assert(sfx@.map_values(|v: Vec<char>| v@)[k as int] == sfx@[k as int]@);
                assert(compounds_of(*p)[k as int] == gen_view(e));
                assert(out@.map_values(|e: GenEntry| gen_view(e)) =~= before.map_values(|e: GenEntry| gen_view(e)).push(gen_view(e)));
                assert(compounds_of(*p).take(k + 1) =~= compounds_of(*p).take(k as int).push(compounds_of(*p)[k as int]));
            }
            k += 1;
        }
        assert(compounds_of(*p).take(sfx@.len() as int) =~= compounds_of(*p));
        i += 1;
    }
    out
}


// ---------------------------------------------------------------------------
// Parsing rows
// ---------------------------------------------------------------------------

/// The comma-separated fields of the first `n` characters.
pub open spec fn fields_upto(s: Seq<char>, n: int) -> Seq<Seq<char>>
    decreases n,
{
    if n <= 0 {
        seq![Seq::<char>::empty()]
    } else {
        let f = fields_upto(s, n - 1);
        if s[n - 1] == ',' {
            f.push(Seq::empty())
        } else {
            f.update(f.len() - 1, f.last().push(s[n - 1]))
        }
    }
}

/// The comma-separated fields of a line (`str::split(',')`).
pub open spec fn fields(s: Seq<char>) -> Seq<Seq<char>> {
    fields_upto(s, s.len() as int)
}

proof fn lemma_fields_nonempty(s: Seq<char>, n: int)
    ensures
        fields_upto(s, n).len() >= 1,
    decreases n,
{
    if n > 0 {
        lemma_fields_nonempty(s, n - 1);
    }
}

/// Splits a line at commas.
pub fn split_fields(line: &str) -> (r: Vec<Vec<char>>)
    ensures
        r@.map_values(|v: Vec<char>| v@) == fields(line@),
{
    let cs = chars_of(line);
    let mut out: Vec<Vec<char>> = Vec::new();
    let mut cur: Vec<char> = Vec::new();
    let mut i: usize = 0;
    while i < cs.len()
        invariant
            cs@ == line@,
            i <= cs@.len(),
            out@.map_values(|v: Vec<char>| v@).push(cur@) == fields_upto(line@, i as int),
        decreases cs.len() - i,
    {
        proof { lemma_fields_nonempty(line@, i as int); }
        let ghost before = out@.map_values(|v: Vec<char>| v@).push(cur@);
        if cs[i] == ',' {
            out.push(cur);
            cur = Vec::new();
            assert(out@.map_values(|v: Vec<char>| v@).push(cur@) =~= before.push(Seq::empty()));
        } else {
            cur.push(cs[i]);
            assert(out@.map_values(|v: Vec<char>| v@).push(cur@) =~= before.update(before.len() - 1, before.last().push(cs@[i as int])));
        }
        i += 1;
    }
    out.push(cur);
    out
}

pub open spec fn is_digit(c: char) -> bool {
    '0' <= c <= '9'
}

pub open spec fn all_digits(d: Seq<char>) -> bool {
    forall|i: int| 0 <= i < d.len() ==> #[trigger] is_digit(d[i])
}

/// The number that the decimal digits `d` spell.
pub open spec fn dec_number(d: Seq<char>) -> int
    decreases d.len(),
{
    if d.len() == 0 {
        0
    } else {
        10 * dec_number(d.drop_last()) + ((d.last() as int) - 0x30)
    }
}

/// `str::parse::<i32>().ok()`: an optional sign, at least one decimal
/// digit, and a value that fits.
pub open spec fn parse_i32_spec(s: Seq<char>) -> Option<i32> {
    let signed = s.len() > 0 && (s[0] == '+' || s[0] == '-');
    let d = if signed { s.drop_first() } else { s };
    let v = if s.len() > 0 && s[0] == '-' { -dec_number(d) } else { dec_number(d) };
    if d.len() == 0 || !all_digits(d) || v < i32::MIN || v > i32::MAX {
        None
    } else {
        Some(v as i32)
    }
}

proof fn lemma_dec_mono(d: Seq<char>, k: int)
    requires
        all_digits(d),
        0 <= k <= d.len(),
    ensures
        0 <= dec_number(d.take(k)) <= dec_number(d),
    decreases d.len(),
{
    if k == d.len() {
        assert(d.take(k) =~= d);
        lemma_dec_nonneg(d);
    } else {
        let p = d.drop_last();
        assert(all_digits(p)) by {
            assert forall|i: int| 0 <= i < p.len() implies #[trigger] is_digit(p[i]) by {
                assert(p[i] == d[i]);
            }
        }
        lemma_dec_mono(p, k);
        assert(p.take(k) =~= d.take(k));
        lemma_dec_nonneg(p);
        assert(is_digit(d[d.len() - 1]));
    }
}

proof fn lemma_dec_nonneg(d: Seq<char>)
    requires
        all_digits(d),
    ensures
        0 <= dec_number(d),
    decreases d.len(),
{
    if d.len() > 0 {
        let p = d.drop_last();
        assert(all_digits(p)) by {
            assert forall|i: int| 0 <= i < p.len() implies #[trigger] is_digit(p[i]) by {
                assert(p[i] == d[i]);
            }
        }
        lemma_dec_nonneg(p);
        assert(is_digit(d[d.len() - 1]));
    }
}

/// Parses a decimal `i32` as `str::parse` does, without the error detail.
pub fn parse_i32(s: &Vec<char>) -> (r: Option<i32>)
    ensures
        r == parse_i32_spec(s@),
{
    let n = s.len();
    if n == 0 {
        return None;
    }
    let neg = s[0] == '-';
    let start: usize = if s[0] == '+' || s[0] == '-' { 1 } else { 0 };
    let ghost d = s@.skip(start as int);
    assert(d =~= (if s@.len() > 0 && (s@[0] == '+' || s@[0] == '-') { s@.drop_first() } else { s@ }));
    if start == n {
        return None;
    }
    let mut acc: u64 = 0;
    let mut i = start;
    while i < n
        invariant
            n == s@.len(),
            start <= i <= n,
            start < n,
            d == s@.skip(start as int),
            d == (if s@.len() > 0 && (s@[0] == '+' || s@[0] == '-') { s@.drop_first() } else { s@ }),
            all_digits(d.take(i - start)),
            acc as int == dec_number(d.take(i - start)),
            acc <= 2147483648,
        decreases n - i,
    {
        let c = s[i];
        let k = i - start;
        assert(d[k as int] == c);
        if !('0' <= c && c <= '9') {
            assert(!is_digit(d[k as int]));
            return None;
        }
        assert(d.take(k + 1).drop_last() =~= d.take(k as int));
        assert(all_digits(d.take(k + 1))) by {
            assert forall|j: int| 0 <= j < d.take(k + 1).len() implies #[trigger] is_digit(d.take(k + 1)[j]) by {
                if j < k {
                    assert(d.take(k + 1)[j] == d.take(k as int)[j]);
                }
            }
        }
        let v = (c as u32 - 0x30) as u64;
        acc = acc * 10 + v;
        assert(acc as int == dec_number(d.take(k + 1)));
        if acc > 2147483648 {
            proof {
                if all_digits(d) {
                    lemma_dec_mono(d, k + 1);
                }
            }
            return None;
        }
        i += 1;
    }
    assert(d.take(n - start) =~= d);
    if neg {
        let v = acc as i64;
        Some((0 - v) as i32)
    } else if acc > 2147483647 {
        None
    } else {
        Some(acc as i32)
    }
}

/// The conjugation forms kept for verbs, adjectives and auxiliaries.
pub open spec fn practical_form(f: Seq<char>) -> bool {
    f == seq!['基', '本', '形'] || f == seq!['連', '用', 'タ', '接', '続'] || f == seq!['連', '用', '形'] || f == seq!['未', '然', '形'] || f == seq!['仮', '定', '形']
}

/// Parts of speech whose kana-only words are kept.
pub open spec fn keeps_kana(m: Seq<char>) -> bool {
    m == seq!['助', '詞'] || m == seq!['助', '動', '詞'] || m == seq!['接', '続', '詞'] || m == seq!['副', '詞'] || m == seq!['感', '動', '詞'] || m == seq!['連', '体', '詞'] || m == seq!['動', '詞'] || m == seq!['形', '容', '詞']
}

fn is_practical(f: &Vec<char>) -> (r: bool)
    ensures
        r == practical_form(f@),
{
    let w0 = vec!['基', '本', '形'];
    assert(w0@ =~= seq!['基', '本', '形']);
    let w1 = vec!['連', '用', 'タ', '接', '続'];
    assert(w1@ =~= seq!['連', '用', 'タ', '接', '続']);
    let w2 = vec!['連', '用', '形'];
    assert(w2@ =~= seq!['連', '用', '形']);
    let w3 = vec!['未', '然', '形'];
    assert(w3@ =~= seq!['未', '然', '形']);
    let w4 = vec!['仮', '定', '形'];
    assert(w4@ =~= seq!['仮', '定', '形']);
    is(&f, w0) || is(&f, w1) || is(&f, w2) || is(&f, w3) || is(&f, w4)
}

fn keeps_kana_surface(m: &Vec<char>) -> (r: bool)
    ensures
        r == keeps_kana(m@),
{
    let w0 = vec!['助', '詞'];
    assert(w0@ =~= seq!['助', '詞']);
    let w1 = vec!['助', '動', '詞'];
    assert(w1@ =~= seq!['助', '動', '詞']);
    let w2 = vec!['接', '続', '詞'];
    assert(w2@ =~= seq!['接', '続', '詞']);
    let w3 = vec!['副', '詞'];
    assert(w3@ =~= seq!['副', '詞']);
    let w4 = vec!['感', '動', '詞'];
    assert(w4@ =~= seq!['感', '動', '詞']);
    let w5 = vec!['連', '体', '詞'];
    assert(w5@ =~= seq!['連', '体', '詞']);
    let w6 = vec!['動', '詞'];
    assert(w6@ =~= seq!['動', '詞']);
    let w7 = vec!['形', '容', '詞'];
    assert(w7@ =~= seq!['形', '容', '詞']);
    is(&m, w0) || is(&m, w1) || is(&m, w2) || is(&m, w3) || is(&m, w4) || is(&m, w5) || is(&m, w6) || is(&m, w7)
}

/// A single kanji.
pub open spec fn single_kanji(s: Seq<char>) -> bool {
    s.len() == 1 && kanji(s[0])
}

/// A parsed row as plain values: (reading, surface, part of speech,
/// frequency from the cost, conjugation type, conjugation form, IPADIC
/// major class, IPADIC subclass).
pub type RowView = (Seq<char>, Seq<char>, PartOfSpeech, u32, Seq<char>, Seq<char>, Seq<char>, Seq<char>);

/// What a row yields, if it is kept: rows with fewer than 13 fields or an
/// unreadable cost are dropped; so are rows at or above the source's cost
/// threshold (single kanji excepted), rows outside the practical
/// conjugation forms when the source filters forms, rows without reading,
/// kana-only words other than pronouns and function classes, and single
/// katakana with a single-kana reading.
pub open spec fn parsed_row(line: Seq<char>, max_cost: Option<i32>, forms_filtered: bool) -> Option<RowView> {
    let f = fields(line);
    if f.len() < 13 || parse_i32_spec(f[3]) is None {
        None
    } else {
        let surface = f[0];
        let cost = parse_i32_spec(f[3]).unwrap();
        let major = f[4];
        let sub = f[5];
        let ctype = f[8];
        let cform = f[9];
        let rk = f[11];
        let reading = rk.map_values(|c: char| hira_of_kata(c));
        let pronoun = major == seq!['名', '詞'] && sub == seq!['代', '名', '詞'];
        if !single_kanji(surface) && (max_cost matches Some(m) && cost >= m) {
            None
        } else if forms_filtered && !practical_form(cform) {
            None
        } else if rk.len() == 0 || rk == seq!['*'] {
            None
        } else if surface == reading && !pronoun && !keeps_kana(major) {
            None
        } else if reading.len() == 1 && surface.len() == 1 && '\u{30A1}' <= surface[0] <= '\u{30F6}' {
            None
        } else {
            Some((reading, surface, pos_of(major, sub), frequency_of_cost(cost), ctype, cform, major, sub))
        }
    }
}

/// The cost a row carries, when it has enough fields and a readable cost.
pub open spec fn row_cost_spec(line: Seq<char>) -> Option<i32> {
    let f = fields(line);
    if f.len() < 13 { None } else { parse_i32_spec(f[3]) }
}

/// A kept row whose cost is so low that `10000 - cost` does not fit an
/// `i32` (the frequency cannot be computed).
pub open spec fn row_overflows(line: Seq<char>, max_cost: Option<i32>, forms_filtered: bool) -> bool {
    parsed_row(line, max_cost, forms_filtered) is Some && 10000 - row_cost_spec(line).unwrap() > i32::MAX
}

/// The fields, cost and hiragana reading of a row that is kept.
fn row_parts(line: &str, max_cost: Option<i32>, forms_filtered: bool) -> (r: Option<(Vec<Vec<char>>, i32, String)>)
    ensures
        match r {
            Some((f, cost, reading)) => {
                &&& parsed_row(line@, max_cost, forms_filtered) is Some
                &&& f@.map_values(|v: Vec<char>| v@) == fields(line@)
                &&& f@.len() >= 13
                &&& row_cost_spec(line@) == Some(cost)
                &&& reading@ == fields(line@)[11].map_values(|c: char| hira_of_kata(c))
            },
            None => parsed_row(line@, max_cost, forms_filtered) is None,
        },
{
    let f = split_fields(line);
    let ghost fv = f@.map_values(|v: Vec<char>| v@);
    if f.len() < 13 {
        return None;
    }
    assert(fv[0] == f@[0]@ && fv[3] == f@[3]@ && fv[4] == f@[4]@ && fv[5] == f@[5]@);
    assert(fv[8] == f@[8]@ && fv[9] == f@[9]@ && fv[11] == f@[11]@);
    let cost = match parse_i32(&f[3]) {
        Some(c) => c,
        None => { return None; },
    };
    let surface = &f[0];
    let single = surface.len() == 1 && is_kanji(surface[0]);
    if !single {
        match max_cost {
            Some(m) => {
                if cost >= m {
                    return None;
                }
            },
            None => {},
        }
    }
    if forms_filtered && !is_practical(&f[9]) {
        return None;
    }
    let rk = &f[11];
    let star = vec!['*'];
    assert(star@ =~= seq!['*']);
    if rk.len() == 0 || is(rk, star) {
        return None;
    }
    let reading_s = katakana_to_hiragana(string_of(rk).as_str());
    let reading = chars_of(reading_s.as_str());
    let major = &f[4];
    let sub = &f[5];
    let w_noun = vec!['名', '詞'];
    let w_pron = vec!['代', '名', '詞'];
    assert(w_noun@ =~= seq!['名', '詞'] && w_pron@ =~= seq!['代', '名', '詞']);
    let pronoun = is(major, w_noun) && is(sub, w_pron);
    if chars_eq(surface, &reading) && !pronoun && !keeps_kana_surface(major) {
        return None;
    }
    if reading.len() == 1 && surface.len() == 1 && '\u{30A1}' <= surface[0] && surface[0] <= '\u{30F6}' {
        return None;
    }
    Some((f, cost, reading_s))
}

/// Builds the parsed row from the parts of a kept row.
fn build_row(Ghost(line): Ghost<Seq<char>>, max_cost: Option<i32>, forms_filtered: bool, f: &Vec<Vec<char>>, cost: i32, reading_s: String) -> (p: ParsedLine)
    requires
        parsed_row(line, max_cost, forms_filtered) is Some,
        f@.map_values(|v: Vec<char>| v@) == fields(line),
        f@.len() >= 13,
        row_cost_spec(line) == Some(cost),
        reading_s@ == fields(line)[11].map_values(|c: char| hira_of_kata(c)),
        10000 - cost <= i32::MAX,
    ensures
        parsed_row(line, max_cost, forms_filtered) == Some(row_view(p)),
{
    let ghost fv = f@.map_values(|v: Vec<char>| v@);
    assert(fv[0] == f@[0]@ && fv[3] == f@[3]@ && fv[4] == f@[4]@ && fv[5] == f@[5]@);
    assert(fv[8] == f@[8]@ && fv[9] == f@[9]@ && fv[11] == f@[11]@);
    let major = &f[4];
    let sub = &f[5];
    let pos = map_pos(string_of(major).as_str(), string_of(sub).as_str());
    let frequency = cost_to_frequency(cost);
    ParsedLine {
        parsed: ParsedEntry {
            entry: GenEntry { reading: reading_s, surface: string_of(&f[0]), pos, frequency },
            conjugation_type: string_of(&f[8]),
            conjugation_form: string_of(&f[9]),
        },
        pos_major: string_of(major),
        pos_sub: string_of(sub),
    }
}

/// A parsed row as plain values.
pub open spec fn row_view(p: ParsedLine) -> RowView {
    (p.parsed.entry.reading@, p.parsed.entry.surface@, p.parsed.entry.pos, p.parsed.entry.frequency,
        p.parsed.conjugation_type@, p.parsed.conjugation_form@, p.pos_major@, p.pos_sub@)
}

/// Parses one IPADIC row (see `parsed_row`). The frequency is the one
/// from the cost alone; the caller adjusts it by part of speech. A kept row
/// must have a cost for which `10000 - cost` fits an `i32`.
pub fn parse_fields(line: &str, max_cost: Option<i32>, forms_filtered: bool) -> (r: Option<ParsedLine>)
    requires
        !row_overflows(line@, max_cost, forms_filtered),
    ensures
        match r {
            Some(p) => parsed_row(line@, max_cost, forms_filtered) == Some(row_view(p)),
            None => parsed_row(line@, max_cost, forms_filtered) is None,
        },
{
    match row_parts(line, max_cost, forms_filtered) {
        Some((f, cost, reading_s)) => Some(build_row(Ghost(line@), max_cost, forms_filtered, &f, cost, reading_s)),
        None => None,
    }
}

/// The rows of a source file that are kept, in line order.
pub open spec fn kept_rows(lines: Seq<Seq<char>>, max_cost: Option<i32>, forms_filtered: bool) -> Seq<RowView>
    decreases lines.len(),
{
    if lines.len() == 0 {
        Seq::empty()
    } else {
        let prev = kept_rows(lines.drop_last(), max_cost, forms_filtered);
        match parsed_row(lines.last(), max_cost, forms_filtered) {
            Some(v) => prev.push(v),
            None => prev,
        }
    }
}

/// The text of EUC-JP bytes as `encoding_rs` decodes them (with BOM
/// sniffing, malformed sequences replaced by U+FFFD), and whether any
/// sequence was malformed.
pub uninterp spec fn euc_jp_decode(bytes: Seq<u8>) -> (Seq<char>, bool);

/// `encoding_rs::EUC_JP.decode`. Trusted: the text and the malformed flag
/// are what `euc_jp_decode` names for these bytes; the length bound keeps
/// the crate's buffer-size computation (three bytes out per byte in, plus
/// one) from overflowing, where it would panic.
#[verifier::external_body]
fn decode_euc_jp(bytes: &[u8]) -> (r: (String, bool))
    requires
        bytes@.len() <= usize::MAX / 4,
    ensures
        (r.0@, r.1) == euc_jp_decode(bytes@),
{
    let (text, _, malformed) = encoding_rs::EUC_JP.decode(bytes);
    (text.into_owned(), malformed)
}

/// Whether the kept rows of these lines all have a computable frequency,
/// and the rows then kept, in line order.
pub open spec fn rows_ok(lines: Seq<Seq<char>>, max_cost: Option<i32>, forms_filtered: bool, r: Option<Seq<RowView>>) -> bool {
    match r {
        Some(rows) => {
            &&& forall|k: int| 0 <= k < lines.len() ==> !row_overflows(#[trigger] lines[k], max_cost, forms_filtered)
            &&& rows == kept_rows(lines, max_cost, forms_filtered)
        },
        None => exists|k: int| 0 <= k < lines.len() && row_overflows(#[trigger] lines[k], max_cost, forms_filtered),
    }
}

/// The rows that the lines of an IPADIC source text keep, in line order;
/// `None` when some kept row's cost is too low for its frequency to be
/// computed.
pub fn rows_of_text(text: &str, max_cost: Option<i32>, forms_filtered: bool) -> (r: Option<Vec<ParsedLine>>)
    ensures
        rows_ok(text_lines(text@), max_cost, forms_filtered, match r {
            Some(rows) => Some(rows@.map_values(|p: ParsedLine| row_view(p))),
            None => None,
        }),
{
    let cs = chars_of(text);
    let lines = split_lines(&cs);
    let ghost ls = text_lines(text@);
    let mut rows: Vec<ParsedLine> = Vec::new();
    let mut k: usize = 0;
    while k < lines.len()
        invariant
            ls == text_lines(text@),
            lines@.map_values(|v: Vec<char>| v@) == ls,
            k <= lines@.len(),
            forall|j: int| 0 <= j < k ==> !row_overflows(#[trigger] ls[j], max_cost, forms_filtered),
            rows@.map_values(|p: ParsedLine| row_view(p)) == kept_rows(ls.take(k as int), max_cost, forms_filtered),
        decreases lines.len() - k,
    {
        let line = string_of(&lines[k]);
        assert(line@ == ls[k as int]);
        assert(ls.take(k + 1).drop_last() =~= ls.take(k as int));
        assert(ls.take(k + 1).last() == ls[k as int]);
        match row_parts(line.as_str(), max_cost, forms_filtered) {
            Some((f, cost, reading_s)) => {
                if cost < -2147473647 {
                    assert(row_overflows(ls[k as int], max_cost, forms_filtered));
                    return None;
                }
                let ghost before = rows@.map_values(|p: ParsedLine| row_view(p));
                let p = build_row(Ghost(line@), max_cost, forms_filtered, &f, cost, reading_s);
                rows.push(p);
                assert(rows@.map_values(|p: ParsedLine| row_view(p)) =~= before.push(row_view(p)));
            },
            None => {},
        }
        k += 1;
    }
    assert(ls.take(lines.len() as int) =~= ls);
    Some(rows)
}

/// Parses an IPADIC source file given as its EUC-JP bytes: whether the
/// text had malformed sequences, and the rows its text keeps
/// (`rows_of_text`).
pub fn source_rows(raw: &[u8], max_cost: Option<i32>, forms_filtered: bool) -> (r: (bool, Option<Vec<ParsedLine>>))
    requires
        raw@.len() <= usize::MAX / 4,
    ensures
        r.0 == euc_jp_decode(raw@).1,
        rows_ok(text_lines(euc_jp_decode(raw@).0), max_cost, forms_filtered, match r.1 {
            Some(rows) => Some(rows@.map_values(|p: ParsedLine| row_view(p))),
            None => None,
        }),
{
    let (text, malformed) = decode_euc_jp(raw);
    (malformed, rows_of_text(text.as_str(), max_cost, forms_filtered))
}

/// Extra words missing from IPADIC.
pub fn extra_entries() -> (r: Vec<GenEntry>)
    ensures
        r@.map_values(|e: GenEntry| gen_view(e)) == seq![(seq!['ご'], seq!['誤'], PartOfSpeech::Noun, 5000u32)],
{
    let reading = vec!['ご'];
    let surface = vec!['誤'];
    assert(reading@ =~= seq!['ご'] && surface@ =~= seq!['誤']);
    let r = vec![GenEntry { reading: string_of(&reading), surface: string_of(&surface), pos: PartOfSpeech::Noun, frequency: 5000 }];
    assert(r@.map_values(|e: GenEntry| gen_view(e)) =~= seq![(seq!['ご'], seq!['誤'], PartOfSpeech::Noun, 5000u32)]);
    r
}

} // verus!
