//! Romaji to kana conversion.
//!
//! `RomajiConverter` is a state machine that turns ASCII key input into
//! hiragana: plain syllables, doubled consonants (っ), the `n` rule (ん),
//! compound sounds (しゃ, ちゅ, ...) and small kana (x/l prefix).
use vstd::prelude::*;
use crate::text::{append_chars, chars_eq, chars_of, chars_starts_with, starts_with, string_of};

pub mod forms;
pub mod table;

pub use forms::{
    hiragana_to_fullwidth_romaji, hiragana_to_halfwidth_katakana, hiragana_to_katakana,
    hiragana_to_romaji,
};

use table::{entry, spec_entry, TABLE_LEN};

verus! {

// ---------------------------------------------------------------------------
// Table queries
// ---------------------------------------------------------------------------

/// The kana of the first table row at or after `i` whose romaji is `s`.
pub open spec fn lookup_from(s: Seq<char>, i: int) -> Option<Seq<char>>
    decreases TABLE_LEN - i,
{
    if i < 0 || i >= TABLE_LEN {
        None
    } else if spec_entry(i).0 == s {
        Some(spec_entry(i).1)
    } else {
        lookup_from(s, i + 1)
    }
}

/// The kana that the table gives for the romaji spelling `s`, if any.
pub open spec fn exact_kana(s: Seq<char>) -> Option<Seq<char>> {
    lookup_from(s, 0)
}

/// Whether `s` is a prefix of (or equal to) some romaji spelling of the table.
pub open spec fn is_table_prefix(s: Seq<char>) -> bool {
    exists|i: int| 0 <= i < TABLE_LEN && #[trigger] starts_with(spec_entry(i).0, s)
}

/// Consonants that produce っ (or ん for `n`) when typed twice.
pub open spec fn is_doubling(c: char) -> bool {
    c == 'b' || c == 'c' || c == 'd' || c == 'f' || c == 'g' || c == 'h' || c == 'j'
        || c == 'k' || c == 'm' || c == 'n' || c == 'p' || c == 'r' || c == 's'
        || c == 't' || c == 'v' || c == 'w' || c == 'z'
}

/// One conversion step on a pending romaji buffer: the buffer that remains
/// and the kana produced (`None` when nothing is produced).
///
/// 1. an exact spelling of the table becomes its kana;
/// 2. a prefix of some spelling stays pending;
/// 3. a doubled consonant gives っ and keeps the second consonant
///    (`nn` gives ん and clears the buffer);
/// 4. a leading `n` before anything else gives ん and the rest is converted;
/// 5. otherwise the buffer is dropped.
pub open spec fn convert_step(buf: Seq<char>) -> (Seq<char>, Option<Seq<char>>)
    decreases buf.len(),
{
    if exact_kana(buf) is Some {
        (Seq::empty(), exact_kana(buf))
    } else if is_table_prefix(buf) {
        (buf, None)
    } else if buf.len() >= 2 && buf[0] == buf[1] && is_doubling(buf[0]) {
        if buf[0] == 'n' {
            (Seq::empty(), Some(seq!['ん']))
        } else {
            let (b, more) = convert_step(buf.drop_first());
            (b, Some(seq!['っ'] + opt_chars(more)))
        }
    } else if buf.len() >= 2 && buf[0] == 'n' {
        let (b, more) = convert_step(buf.drop_first());
        (b, Some(seq!['ん'] + opt_chars(more)))
    } else {
        (Seq::empty(), None)
    }
}

/// The characters of an optional kana string (empty for `None`).
pub open spec fn opt_chars(o: Option<Seq<char>>) -> Seq<char> {
    match o {
        Some(s) => s,
        None => Seq::empty(),
    }
}

/// The character view of an optional `String`.
pub open spec fn opt_string_view(o: Option<String>) -> Option<Seq<char>> {
    match o {
        Some(s) => Some(s@),
        None => None,
    }
}

/// Looks up the kana for an exact romaji spelling.
fn exact_lookup(s: &Vec<char>) -> (r: Option<Vec<char>>)
    ensures
        match r {
            Some(k) => exact_kana(s@) == Some(k@),
            None => exact_kana(s@) is None,
        },
{
    let mut i: usize = 0;
    while i < TABLE_LEN
        invariant
            i <= TABLE_LEN,
            lookup_from(s@, 0) == lookup_from(s@, i as int),
        decreases TABLE_LEN - i,
    {
        let (rom, kana) = entry(i);
        if chars_eq(&rom, s) {
            return Some(kana);
        }
        i += 1;
    }
    None
}

/// Whether some table spelling starts with `s`.
fn has_prefix_match(s: &Vec<char>) -> (r: bool)
    ensures
        r == is_table_prefix(s@),
{
    let mut i: usize = 0;
    while i < TABLE_LEN
        invariant
            i <= TABLE_LEN,
            forall|j: int| 0 <= j < i ==> !#[trigger] starts_with(spec_entry(j).0, s@),
        decreases TABLE_LEN - i,
    {
        let (rom, _kana) = entry(i);
        if chars_starts_with(&rom, s) {
            return true;
        }
        i += 1;
    }
    false
}

fn is_doubling_consonant(c: char) -> (r: bool)
    ensures
        r == is_doubling(c),
{
    c == 'b' || c == 'c' || c == 'd' || c == 'f' || c == 'g' || c == 'h' || c == 'j'
        || c == 'k' || c == 'm' || c == 'n' || c == 'p' || c == 'r' || c == 's'
        || c == 't' || c == 'v' || c == 'w' || c == 'z'
}

/// Drops the first character of a non-empty buffer.
fn drop_first(v: &Vec<char>) -> (r: Vec<char>)
    requires
        v.len() >= 1,
    ensures
        r@ == v@.drop_first(),
{
    let r = crate::text::chars_range(v, 1, v.len());
    assert(r@ =~= v@.drop_first());
    r
}

/// Converts a pending buffer: returns the buffer that remains and the
/// kana produced.
fn try_convert(buf: Vec<char>) -> (r: (Vec<char>, Option<Vec<char>>))
    ensures
        r.0@ == convert_step(buf@).0,
        match r.1 {
            Some(k) => convert_step(buf@).1 == Some(k@),
            None => convert_step(buf@).1 is None,
        },
    decreases buf@.len(),
{
    // 1. exact match
    if let Some(kana) = exact_lookup(&buf) {
        return (Vec::new(), Some(kana));
    }
    // 2. prefix of some spelling: keep buffering
    if has_prefix_match(&buf) {
        return (buf, None);
    }
    // 3. doubled consonant
    if buf.len() >= 2 && buf[0] == buf[1] && is_doubling_consonant(buf[0]) {
        if buf[0] == 'n' {
            return (Vec::new(), Some(vec!['ん']));
        }
        let rest = drop_first(&buf);
        let (b, more) = try_convert(rest);
        let mut out = vec!['っ'];
        if let Some(m) = more {
            append_chars(&mut out, &m);
        }
        return (b, Some(out));
    }
    // 4. `n` before a character that does not continue a spelling
    if buf.len() >= 2 && buf[0] == 'n' {
        let rest = drop_first(&buf);
        let (b, more) = try_convert(rest);
        let mut out = vec!['ん'];
        if let Some(m) = more {
            append_chars(&mut out, &m);
        }
        return (b, Some(out));
    }
    // 5. no match: discard the buffer
    (Vec::new(), None)
}

/// The romaji to kana state machine.
pub struct RomajiConverter {
    buffer: Vec<char>,
    output: Vec<char>,
}

impl RomajiConverter {
    /// The pending buffer is empty or a prefix of some table spelling.
    #[verifier::type_invariant]
    spec fn pending_is_prefix(self) -> bool {
        self.buffer@.len() == 0 || is_table_prefix(self.buffer@)
    }

    /// Pending romaji that has not been converted yet.
    pub closed spec fn pending(self) -> Seq<char> {
        self.buffer@
    }

    /// The kana accumulated so far.
    pub closed spec fn kana(self) -> Seq<char> {
        self.output@
    }

    /// A converter with no pending input and no output.
    pub fn new() -> (r: Self)
        ensures
            r.pending() == Seq::<char>::empty(),
            r.kana() == Seq::<char>::empty(),
    {
        RomajiConverter { buffer: Vec::new(), output: Vec::new() }
    }

    /// Processes one key and returns the kana it produced, if any.
    /// The produced kana is appended to the output.
    pub fn process_key(&mut self, key: char) -> (r: Option<String>)
        ensures
            final(self).pending() == convert_step(old(self).pending().push(key)).0,
            opt_string_view(r) == convert_step(old(self).pending().push(key)).1,
            final(self).kana() == old(self).kana() + opt_chars(opt_string_view(r)),
            final(self).pending().len() == 0 || is_table_prefix(final(self).pending()),
    {
        let mut buf = self.buffer.clone();
        buf.push(key);
        let (rest, produced) = try_convert(buf);
        proof {
            lemma_convert_step_keeps_prefix(old(self).buffer@.push(key));
        }
        self.buffer = rest;
        match produced {
            Some(k) => {
                let mut o = self.output.clone();
                append_chars(&mut o, &k);
                self.output = o;
                Some(string_of(&k))
            },
            None => {
                assert(self.output@ == old(self).output@ + Seq::<char>::empty());
                None
            },
        }
    }

    /// Flushes the pending buffer: a lone `n` becomes ん, anything else is
    /// dropped. Returns the kana produced.
    pub fn flush(&mut self) -> (r: Option<String>)
        ensures
            final(self).pending() == Seq::<char>::empty(),
            old(self).pending() == seq!['n'] ==> opt_string_view(r) == Some(seq!['ん'])
                && final(self).kana() == old(self).kana().push('ん'),
            old(self).pending() != seq!['n'] ==> r is None && final(self).kana()
                == old(self).kana(),
    {
        if self.buffer.len() == 1 && self.buffer[0] == 'n' {
            self.buffer = Vec::new();
            let mut o = self.output.clone();
            o.push('ん');
            self.output = o;
            assert(old(self).buffer@ =~= seq!['n']);
            let k = vec!['ん'];
            return Some(string_of(&k));
        }
        proof {
            if old(self).buffer@ == seq!['n'] {
                assert(old(self).buffer@[0] == 'n');
            }
        }
        self.buffer = Vec::new();
        None
    }

    /// Clears both the pending buffer and the output.
    pub fn reset(&mut self)
        ensures
            final(self).pending() == Seq::<char>::empty(),
            final(self).kana() == Seq::<char>::empty(),
    {
        self.buffer = Vec::new();
        self.output = Vec::new();
    }

    /// The pending (not yet converted) romaji.
    pub fn buffer(&self) -> (r: String)
        ensures
            r@ == self.pending(),
    {
        string_of(&self.buffer)
    }

    /// Deletes the last pending romaji character, or else the last kana.
    /// Returns whether something was deleted.
    pub fn delete_last(&mut self) -> (r: bool)
        ensures
            old(self).pending().len() > 0 ==> r && final(self).pending()
                == old(self).pending().drop_last() && final(self).kana() == old(self).kana(),
            old(self).pending().len() == 0 && old(self).kana().len() > 0 ==> r
                && final(self).pending() == old(self).pending() && final(self).kana()
                == old(self).kana().drop_last(),
            old(self).pending().len() == 0 && old(self).kana().len() == 0 ==> !r
                && final(self).pending() == old(self).pending() && final(self).kana()
                == old(self).kana(),
            final(self).pending().len() == 0 || is_table_prefix(final(self).pending()),
    {
        proof {
            use_type_invariant(&*self);
        }
        if self.buffer.len() > 0 {
            let mut b = self.buffer.clone();
            b.pop();
            proof {
                let s = old(self).buffer@;
                let i = choose|i: int| 0 <= i < TABLE_LEN && #[trigger] starts_with(spec_entry(i).0, s);
                assert(spec_entry(i).0.subrange(0, b@.len() as int) =~= b@);
                assert(starts_with(spec_entry(i).0, b@));
            }
            self.buffer = b;
            true
        } else if self.output.len() > 0 {
            let mut o = self.output.clone();
            o.pop();
            self.output = o;
            true
        } else {
            false
        }
    }

    /// Appends a string directly to the output, bypassing conversion.
    pub fn append_raw(&mut self, s: &str)
        ensures
            final(self).pending() == old(self).pending(),
            final(self).kana() == old(self).kana() + s@,
            final(self).pending().len() == 0 || is_table_prefix(final(self).pending()),
    {
        proof {
            use_type_invariant(&*self);
        }
        let v = chars_of(s);
        let mut o = self.output.clone();
        append_chars(&mut o, &v);
        self.output = o;
    }

    /// The accumulated kana output.
    pub fn output(&self) -> (r: String)
        ensures
            r@ == self.kana(),
    {
        string_of(&self.output)
    }
}

/// The buffer left by a conversion step is empty or a table prefix.
pub proof fn lemma_convert_step_keeps_prefix(buf: Seq<char>)
    ensures
        convert_step(buf).0.len() == 0 || is_table_prefix(convert_step(buf).0),
    decreases buf.len(),
{
    if exact_kana(buf) is Some {
    } else if is_table_prefix(buf) {
    } else if buf.len() >= 2 && buf[0] == buf[1] && is_doubling(buf[0]) {
        if buf[0] != 'n' {
            lemma_convert_step_keeps_prefix(buf.drop_first());
        }
    } else if buf.len() >= 2 && buf[0] == 'n' {
        lemma_convert_step_keeps_prefix(buf.drop_first());
    }
}


/// No spelling of the table starts with a doubled letter other than `n`.
proof fn lemma_no_doubled_spelling(i: int)
    requires
        0 <= i < TABLE_LEN,
    ensures
        spec_entry(i).0.len() >= 2 && spec_entry(i).0[0] == spec_entry(i).0[1] ==> spec_entry(i).0[0] == 'n',
{
}

/// An exact spelling found at or after row `i` is the spelling of a row.
proof fn lemma_lookup_row(s: Seq<char>, i: int)
    requires
        lookup_from(s, i) is Some,
    ensures
        exists|j: int| 0 <= j < TABLE_LEN && #[trigger] spec_entry(j).0 == s,
    decreases TABLE_LEN - i,
{
    if !(i < 0 || i >= TABLE_LEN) && spec_entry(i).0 != s {
        lemma_lookup_row(s, i + 1);
    }
}

/// Law: typing a consonant other than `n` twice gives っ and keeps the
/// second consonant: for `c` among b c d f g h j k m p r s t v w z, the
/// buffer c·c·rest converts to っ followed by what c·rest converts to, and
/// leaves what c·rest leaves pending.
pub proof fn lemma_double_consonant(c: char, rest: Seq<char>)
    requires
        c == 'b' || c == 'c' || c == 'd' || c == 'f' || c == 'g' || c == 'h' || c == 'j' || c == 'k'
            || c == 'm' || c == 'p' || c == 'r' || c == 's' || c == 't' || c == 'v' || c == 'w' || c == 'z',
    ensures
        convert_step(seq![c, c] + rest).0 == convert_step(seq![c] + rest).0,
        convert_step(seq![c, c] + rest).1 == Some(seq!['っ'] + opt_chars(convert_step(seq![c] + rest).1)),
{
    let buf = seq![c, c] + rest;
    assert(buf[0] == c && buf[1] == c && buf.len() >= 2);
    assert(buf.drop_first() =~= seq![c] + rest);
    assert forall|i: int| 0 <= i < TABLE_LEN implies !#[trigger] starts_with(spec_entry(i).0, buf) by {
        lemma_no_doubled_spelling(i);
        let e = spec_entry(i).0;
        if starts_with(e, buf) {
            assert(e.subrange(0, buf.len() as int)[0] == buf[0]);
            assert(e.subrange(0, buf.len() as int)[1] == buf[1]);
        }
    }
    if exact_kana(buf) is Some {
        lemma_lookup_row(buf, 0);
        let j = choose|j: int| 0 <= j < TABLE_LEN && #[trigger] spec_entry(j).0 == buf;
        assert(spec_entry(j).0.subrange(0, buf.len() as int) =~= buf);
        assert(starts_with(spec_entry(j).0, buf));
    }
}

} // verus!
