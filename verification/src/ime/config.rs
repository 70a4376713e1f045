//! Toggle-key configuration: human-readable key bindings and their
//! compiled keysym/modifier-mask form.
use vstd::prelude::*;
use super::keymap::{
    IBUS_CONTROL_MASK, IBUS_KEY_BACKSPACE, IBUS_KEY_ESCAPE, IBUS_KEY_HENKAN_MODE, IBUS_KEY_MUHENKAN,
    IBUS_KEY_RETURN, IBUS_KEY_SPACE, IBUS_KEY_TAB, IBUS_KEY_ZENKAKU_HANKAKU, IBUS_MOD1_MASK,
    IBUS_SHIFT_MASK,
};
use crate::text::{chars_eq, chars_of, string_of};

verus! {

/// User-facing configuration.
#[derive(Debug, Clone)]
pub struct JaimConfig {
    pub toggle_keys: Vec<ToggleKeyBinding>,
}

/// A single toggle key binding in human-readable form.
#[derive(Debug, Clone)]
pub struct ToggleKeyBinding {
    pub keyval: String,
    pub modifiers: Vec<String>,
}

/// Pre-compiled toggle key for fast matching of key events.
#[derive(Debug, Clone, Copy)]
pub struct CompiledToggleKey {
    pub keyval: u32,
    pub modifier_mask: u32,
}

// ---------------------------------------------------------------------------
// ASCII lower case
// ---------------------------------------------------------------------------

/// ASCII lower case of one character; other characters are unchanged.
pub open spec fn lower_char(c: char) -> char {
    if 'A' <= c <= 'Z' {
        ((c as int) + 32) as char
    } else {
        c
    }
}

/// ASCII lower case of a string (`str::to_ascii_lowercase`).
pub open spec fn ascii_lower(s: Seq<char>) -> Seq<char> {
    s.map_values(|c: char| lower_char(c))
}

fn lower_of(c: char) -> (r: char)
    ensures
        r == lower_char(c),
{
    if 'A' <= c && c <= 'Z' {
        let b = c as u8;
        assert(b as int == c as int);
        ((b + 32) as char)
    } else {
        c
    }
}

/// The ASCII lower-case characters of `s`.
fn lowered(s: &str) -> (r: Vec<char>)
    ensures
        r@ == ascii_lower(s@),
{
    let cs = chars_of(s);
    let mut r: Vec<char> = Vec::new();
    let mut i: usize = 0;
    while i < cs.len()
        invariant
            i <= cs.len(),
            cs@ == s@,
            r@ == ascii_lower(s@).take(i as int),
        decreases cs.len() - i,
    {
        r.push(lower_of(cs[i]));
        i += 1;
        assert(r@ =~= ascii_lower(s@).take(i as int));
    }
    assert(ascii_lower(s@).take(cs.len() as int) =~= ascii_lower(s@));
    r
}

// ---------------------------------------------------------------------------
// Hexadecimal numbers
// ---------------------------------------------------------------------------

/// Value of a hexadecimal digit (either case).
pub open spec fn hex_digit(c: char) -> Option<u32> {
    if '0' <= c <= '9' {
        Some(((c as int) - 0x30) as u32)
    } else if 'a' <= c <= 'f' {
        Some(((c as int) - 0x61 + 10) as u32)
    } else if 'A' <= c <= 'F' {
        Some(((c as int) - 0x41 + 10) as u32)
    } else {
        None
    }
}

/// Whether every character is a hexadecimal digit.
pub open spec fn all_hex(d: Seq<char>) -> bool {
    forall|i: int| 0 <= i < d.len() ==> #[trigger] hex_digit(d[i]) is Some
}

/// The number that the hexadecimal digits `d` spell.
pub open spec fn hex_number(d: Seq<char>) -> int
    decreases d.len(),
{
    if d.len() == 0 {
        0
    } else {
        16 * hex_number(d.drop_last()) + hex_digit(d.last()).unwrap() as int
    }
}

/// `u32::from_str_radix(s, 16).ok()`: an optional `+`, then at least one
/// hexadecimal digit, and a value that fits in 32 bits.
pub open spec fn radix16(s: Seq<char>) -> Option<u32> {
    let d = if s.len() > 0 && s[0] == '+' { s.drop_first() } else { s };
    if d.len() == 0 || !all_hex(d) || hex_number(d) > u32::MAX {
        None
    } else {
        Some(hex_number(d) as u32)
    }
}

proof fn lemma_hex_mono(d: Seq<char>, k: int)
    requires
        all_hex(d),
        0 <= k <= d.len(),
    ensures
        0 <= hex_number(d.take(k)) <= hex_number(d),
    decreases d.len(),
{
    if k == d.len() {
        assert(d.take(k) =~= d);
        lemma_hex_nonneg(d);
    } else {
        let p = d.drop_last();
        assert(all_hex(p)) by {
            assert forall|i: int| 0 <= i < p.len() implies #[trigger] hex_digit(p[i]) is Some by {
                assert(p[i] == d[i]);
            }
        }
        lemma_hex_mono(p, k);
        assert(p.take(k) =~= d.take(k));
        lemma_hex_nonneg(p);
        assert(hex_digit(d[d.len() - 1]) is Some);
    }
}

proof fn lemma_hex_nonneg(d: Seq<char>)
    ensures
        0 <= hex_number(d),
    decreases d.len(),
{
    if d.len() > 0 {
        lemma_hex_nonneg(d.drop_last());
    }
}

fn hex_digit_of(c: char) -> (r: Option<u32>)
    ensures
        r == hex_digit(c),
{
    if '0' <= c && c <= '9' {
        Some((c as u32) - 0x30)
    } else if 'a' <= c && c <= 'f' {
        Some((c as u32) - 0x61 + 10)
    } else if 'A' <= c && c <= 'F' {
        Some((c as u32) - 0x41 + 10)
    } else {
        None
    }
}

/// Parses a hexadecimal number with an optional leading `+`, as
/// `u32::from_str_radix(.., 16)` does, without the error detail.
fn parse_hex(s: &Vec<char>, from: usize) -> (r: Option<u32>)
    requires
        from <= s@.len(),
    ensures
        r == radix16(s@.skip(from as int)),
{
    let ghost t = s@.skip(from as int);
    let mut start = from;
    if start < s.len() && s[start] == '+' {
        start += 1;
    }
    let ghost d = s@.skip(start as int);
    assert(d =~= (if t.len() > 0 && t[0] == '+' { t.drop_first() } else { t }));
    if start == s.len() {
        return None;
    }
    let mut acc: u32 = 0;
    let mut i = start;
    while i < s.len()
        invariant
            start <= i <= s@.len(),
            d == s@.skip(start as int),
            t == s@.skip(from as int),
            d == (if t.len() > 0 && t[0] == '+' { t.drop_first() } else { t }),
            d.len() > 0,
            all_hex(d.take(i - start)),
            acc as int == hex_number(d.take(i - start)),
        decreases s.len() - i,
    {
        let k = i - start;
        match hex_digit_of(s[i]) {
            None => {
                assert(d[k as int] == s@[i as int]);
                assert(hex_digit(d[k as int]) is None);
                assert(!all_hex(d));
                return None;
            },
            Some(v) => {
                assert(d.take(k + 1).drop_last() =~= d.take(k as int));
                assert(d.take(k + 1).last() == s@[i as int]);
                assert(all_hex(d.take(k + 1))) by {
                    assert forall|j: int| 0 <= j < d.take(k + 1).len() implies #[trigger] hex_digit(d.take(k + 1)[j]) is Some by {
                        if j < k {
                            assert(d.take(k + 1)[j] == d.take(k as int)[j]);
                        }
                    }
                }
                assert(hex_number(d.take(k + 1)) == 16 * hex_number(d.take(k as int)) + v);
                if acc > 0x0FFF_FFFF || acc * 16 > 0xFFFF_FFFF - v {
                    proof {
                        if all_hex(d) {
                            lemma_hex_mono(d, k + 1);
                        }
                    }
                    return None;
                }
                acc = acc * 16 + v;
            },
        }
        i += 1;
    }
    assert(d.take(s.len() - start) =~= d);
    Some(acc)
}

// ---------------------------------------------------------------------------
// Key names and modifiers
// ---------------------------------------------------------------------------

/// The keysym of a named key (already in lower case), if the name is known.
pub open spec fn named_keyval(s: Seq<char>) -> Option<u32> {
    if s == seq!['s', 'p', 'a', 'c', 'e'] {
        Some(IBUS_KEY_SPACE)
    } else if s == seq!['r', 'e', 't', 'u', 'r', 'n'] || s == seq!['e', 'n', 't', 'e', 'r'] {
        Some(IBUS_KEY_RETURN)
    } else if s == seq!['e', 's', 'c', 'a', 'p', 'e'] || s == seq!['e', 's', 'c'] {
        Some(IBUS_KEY_ESCAPE)
    } else if s == seq!['t', 'a', 'b'] {
        Some(IBUS_KEY_TAB)
    } else if s == seq!['b', 'a', 'c', 'k', 's', 'p', 'a', 'c', 'e'] {
        Some(IBUS_KEY_BACKSPACE)
    } else if s == seq!['g', 'r', 'a', 'v', 'e'] || s == seq!['b', 'a', 'c', 'k', 't', 'i', 'c', 'k'] {
        Some(0x0060u32)
    } else if s == seq!['z', 'e', 'n', 'k', 'a', 'k', 'u', '_', 'h', 'a', 'n', 'k', 'a', 'k', 'u'] {
        Some(IBUS_KEY_ZENKAKU_HANKAKU)
    } else if s == seq!['h', 'e', 'n', 'k', 'a', 'n'] || s == seq!['h', 'e', 'n', 'k', 'a', 'n', '_', 'm', 'o', 'd', 'e'] {
        Some(IBUS_KEY_HENKAN_MODE)
    } else if s == seq!['m', 'u', 'h', 'e', 'n', 'k', 'a', 'n'] {
        Some(IBUS_KEY_MUHENKAN)
    } else {
        None
    }
}

/// The keysym a key name stands for: a known name (any ASCII case), a
/// single printable non-space ASCII character, or `0x` followed by a
/// hexadecimal keysym.
pub open spec fn keyval_of_name(name: Seq<char>) -> Option<u32> {
    let s = ascii_lower(name);
    if named_keyval(s) is Some {
        named_keyval(s)
    } else if s.len() == 1 {
        if 0x21 <= (s[0] as u32) <= 0x7E {
            Some(s[0] as u32)
        } else {
            None
        }
    } else if s.len() >= 2 && s[0] == '0' && s[1] == 'x' {
        radix16(s.skip(2))
    } else {
        None
    }
}

/// The mask bit of a modifier name (any ASCII case), if known.
pub open spec fn modifier_bit(name: Seq<char>) -> Option<u32> {
    let s = ascii_lower(name);
    if s == seq!['c', 't', 'r', 'l'] || s == seq!['c', 'o', 'n', 't', 'r', 'o', 'l'] {
        Some(IBUS_CONTROL_MASK)
    } else if s == seq!['a', 'l', 't'] || s == seq!['m', 'o', 'd', '1'] {
        Some(IBUS_MOD1_MASK)
    } else if s == seq!['s', 'h', 'i', 'f', 't'] {
        Some(IBUS_SHIFT_MASK)
    } else {
        None
    }
}

/// The bitwise or of the known modifiers among `mods`; unknown names are ignored.
pub open spec fn modifier_mask(mods: Seq<Seq<char>>) -> u32
    decreases mods.len(),
{
    if mods.len() == 0 {
        0
    } else {
        match modifier_bit(mods.last()) {
            Some(b) => modifier_mask(mods.drop_last()) | b,
            None => modifier_mask(mods.drop_last()),
        }
    }
}

/// The modifier names of a binding.
pub open spec fn modifier_names(b: ToggleKeyBinding) -> Seq<Seq<char>> {
    b.modifiers@.map_values(|m: String| m@)
}

/// The compiled form of each binding whose key name is known, in order.
pub open spec fn compile_bindings(bs: Seq<ToggleKeyBinding>) -> Seq<CompiledToggleKey>
    decreases bs.len(),
{
    if bs.len() == 0 {
        Seq::empty()
    } else {
        let prev = compile_bindings(bs.drop_last());
        match keyval_of_name(bs.last().keyval@) {
            Some(k) => prev.push(CompiledToggleKey { keyval: k, modifier_mask: modifier_mask(modifier_names(bs.last())) }),
            None => prev,
        }
    }
}

/// Maps a human-readable key name to an X11 keysym value.
fn parse_keyval(name: &str) -> (r: Option<u32>)
    ensures
        r == keyval_of_name(name@),
{
    let s = lowered(name);
    if chars_eq(&s, &vec!['s', 'p', 'a', 'c', 'e']) {
        Some(IBUS_KEY_SPACE)
    } else if chars_eq(&s, &vec!['r', 'e', 't', 'u', 'r', 'n']) || chars_eq(&s, &vec!['e', 'n', 't', 'e', 'r']) {
        Some(IBUS_KEY_RETURN)
    } else if chars_eq(&s, &vec!['e', 's', 'c', 'a', 'p', 'e']) || chars_eq(&s, &vec!['e', 's', 'c']) {
        Some(IBUS_KEY_ESCAPE)
    } else if chars_eq(&s, &vec!['t', 'a', 'b']) {
        Some(IBUS_KEY_TAB)
    } else if chars_eq(&s, &vec!['b', 'a', 'c', 'k', 's', 'p', 'a', 'c', 'e']) {
        Some(IBUS_KEY_BACKSPACE)
    } else if chars_eq(&s, &vec!['g', 'r', 'a', 'v', 'e']) || chars_eq(&s, &vec!['b', 'a', 'c', 'k', 't', 'i', 'c', 'k']) {
        Some(0x0060)
    } else if chars_eq(&s, &vec!['z', 'e', 'n', 'k', 'a', 'k', 'u', '_', 'h', 'a', 'n', 'k', 'a', 'k', 'u']) {
        Some(IBUS_KEY_ZENKAKU_HANKAKU)
    } else if chars_eq(&s, &vec!['h', 'e', 'n', 'k', 'a', 'n']) || chars_eq(&s, &vec!['h', 'e', 'n', 'k', 'a', 'n', '_', 'm', 'o', 'd', 'e']) {
        Some(IBUS_KEY_HENKAN_MODE)
    } else if chars_eq(&s, &vec!['m', 'u', 'h', 'e', 'n', 'k', 'a', 'n']) {
        Some(IBUS_KEY_MUHENKAN)
    } else if s.len() == 1 {
        let c = s[0];
        if '!' <= c && c <= '~' {
            Some(c as u32)
        } else {
            None
        }
    } else if s.len() >= 2 && s[0] == '0' && s[1] == 'x' {
        parse_hex(&s, 2)
    } else {
        None
    }
}

/// Maps a modifier name to an IBus modifier mask bit.
fn parse_modifier(name: &str) -> (r: Option<u32>)
    ensures
        r == modifier_bit(name@),
{
    let s = lowered(name);
    if chars_eq(&s, &vec!['c', 't', 'r', 'l']) || chars_eq(&s, &vec!['c', 'o', 'n', 't', 'r', 'o', 'l']) {
        Some(IBUS_CONTROL_MASK)
    } else if chars_eq(&s, &vec!['a', 'l', 't']) || chars_eq(&s, &vec!['m', 'o', 'd', '1']) {
        Some(IBUS_MOD1_MASK)
    } else if chars_eq(&s, &vec!['s', 'h', 'i', 'f', 't']) {
        Some(IBUS_SHIFT_MASK)
    } else {
        None
    }
}

/// The default binding: Ctrl+Shift+Space.
pub open spec fn is_default_config(c: JaimConfig) -> bool {
    &&& c.toggle_keys@.len() == 1
    &&& c.toggle_keys@[0].keyval@ == seq!['s', 'p', 'a', 'c', 'e']
    &&& modifier_names(c.toggle_keys@[0]) == seq![seq!['c', 't', 'r', 'l'], seq!['s', 'h', 'i', 'f', 't']]
}

impl Default for JaimConfig {
    fn default() -> (r: Self)
        ensures
            is_default_config(r),
    {
        let binding = ToggleKeyBinding {
            keyval: string_of(&vec!['s', 'p', 'a', 'c', 'e']),
            modifiers: vec![string_of(&vec!['c', 't', 'r', 'l']), string_of(&vec!['s', 'h', 'i', 'f', 't'])],
        };
        let r = JaimConfig { toggle_keys: vec![binding] };
        assert(modifier_names(r.toggle_keys@[0]) =~= seq![seq!['c', 't', 'r', 'l'], seq!['s', 'h', 'i', 'f', 't']]);
        r
    }
}

impl JaimConfig {
    /// Compiles toggle key bindings into keysym/mask pairs for fast
    /// matching. Bindings with an unknown key name are dropped; unknown
    /// modifier names are ignored.
    pub fn compile_toggle_keys(&self) -> (r: Vec<CompiledToggleKey>)
        ensures
            r@ == compile_bindings(self.toggle_keys@),
    {
        let mut r: Vec<CompiledToggleKey> = Vec::new();
        let mut k: usize = 0;
        while k < self.toggle_keys.len()
            invariant
                k <= self.toggle_keys@.len(),
                r@ == compile_bindings(self.toggle_keys@.take(k as int)),
            decreases self.toggle_keys.len() - k,
        {
            let binding = &self.toggle_keys[k];
            assert(self.toggle_keys@.take(k + 1).drop_last() =~= self.toggle_keys@.take(k as int));
            match parse_keyval(binding.keyval.as_str()) {
                Some(keyval) => {
                    let mut mask: u32 = 0;
                    let mut m: usize = 0;
                    while m < binding.modifiers.len()
                        invariant
                            m <= binding.modifiers@.len(),
                            mask == modifier_mask(modifier_names(*binding).take(m as int)),
                        decreases binding.modifiers.len() - m,
                    {
                        assert(modifier_names(*binding).take(m + 1).drop_last() =~= modifier_names(*binding).take(m as int));
                        assert(modifier_names(*binding)[m as int] == binding.modifiers@[m as int]@);
                        match parse_modifier(binding.modifiers[m].as_str()) {
                            Some(bit) => {
                                mask = mask | bit;
                            },
                            None => {},
                        }
                        m += 1;
                    }
                    assert(modifier_names(*binding).take(binding.modifiers@.len() as int) =~= modifier_names(*binding));
                    r.push(CompiledToggleKey { keyval, modifier_mask: mask });
                },
                None => {},
            }
            k += 1;
        }
        assert(self.toggle_keys@.take(self.toggle_keys@.len() as int) =~= self.toggle_keys@);
        r
    }
}

} // verus!
