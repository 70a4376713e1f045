//! Dictionary-based kana to kanji lookup.
//!
//! Entries are kept in insertion order; a trie maps each reading to the
//! indices of its entries, highest frequency first. Lookups return entries
//! sorted by descending frequency (stable: equally frequent entries keep
//! insertion order).
use vstd::prelude::*;
use vstd::multiset::Multiset;
use crate::text::{chars_eq, chars_of, starts_with, string_of};

pub mod builtin;
pub mod trie;

use builtin::{
    auxiliary, auxiliary_chars, builtin_entry, builtin_row, symbol_group, symbol_group_chars, AUXILIARY_LEN,
    BUILTIN_LEN, SYMBOL_GROUPS,
};
use trie::{freq_slot, lemma_freq_slot, Trie};

verus! {

/// Part of speech of a dictionary entry.
#[derive(Debug, Clone, Copy, PartialEq, Eq, Structural)]
pub enum PartOfSpeech {
    Noun,
    Verb,
    Adjective,
    Adverb,
    Particle,
    Auxiliary,
    Conjunction,
    Interjection,
    Prefix,
    Suffix,
    Other,
}

/// One dictionary word.
#[derive(Debug)]
pub struct DictionaryEntry {
    /// Reading in hiragana
    pub reading: String,
    /// Surface form (kanji/mixed)
    pub surface: String,
    /// Part of speech
    pub pos: PartOfSpeech,
    /// Frequency score (higher = more common)
    pub frequency: u32,
}

impl Clone for DictionaryEntry {
    fn clone(&self) -> (r: Self)
        ensures
            r == *self,
    {
        DictionaryEntry {
            reading: self.reading.clone(),
            surface: self.surface.clone(),
            pos: self.pos,
            frequency: self.frequency,
        }
    }
}

/// An entry as plain values: (reading, surface, part of speech, frequency).
pub type EntryView = (Seq<char>, Seq<char>, PartOfSpeech, u32);

/// The plain-value form of an entry.
pub open spec fn entry_view(e: DictionaryEntry) -> EntryView {
    (e.reading@, e.surface@, e.pos, e.frequency)
}

/// A segment produced by word segmentation.
#[derive(Debug, Clone)]
pub struct Segment {
    /// Reading (kana substring)
    pub reading: String,
    /// Start position (char offset)
    pub start: usize,
    /// Length in characters
    pub len: usize,
    /// Candidate entries for this segment
    pub candidates: Vec<DictionaryEntry>,
}

// ---------------------------------------------------------------------------
// Ordering by frequency
// ---------------------------------------------------------------------------

/// Inserts `e` before the first element of `s` whose frequency is lower.
pub open spec fn insert_by_freq<'a>(s: Seq<&'a DictionaryEntry>, e: &'a DictionaryEntry) -> Seq<&'a DictionaryEntry>
    decreases s.len(),
{
    if s.len() == 0 {
        seq![e]
    } else if s[0].frequency >= e.frequency {
        seq![s[0]] + insert_by_freq(s.drop_first(), e)
    } else {
        seq![e] + s
    }
}

/// Stable sort by descending frequency (insertion sort).
pub open spec fn sort_by_freq<'a>(s: Seq<&'a DictionaryEntry>) -> Seq<&'a DictionaryEntry>
    decreases s.len(),
{
    if s.len() == 0 {
        Seq::empty()
    } else {
        insert_by_freq(sort_by_freq(s.drop_last()), s.last())
    }
}

/// Whether `s` is ordered by non-increasing frequency.
pub open spec fn freq_sorted(s: Seq<&DictionaryEntry>) -> bool {
    forall|a: int, b: int| 0 <= a < b < s.len() ==> #[trigger] s[a].frequency >= #[trigger] s[b].frequency
}

proof fn lemma_insert_at(s: Seq<&DictionaryEntry>, e: &DictionaryEntry, j: int)
    requires
        0 <= j <= s.len(),
        forall|t: int| 0 <= t < j ==> #[trigger] s[t].frequency >= e.frequency,
        j < s.len() ==> s[j].frequency < e.frequency,
    ensures
        insert_by_freq(s, e) == s.insert(j, e),
    decreases s.len(),
{
    if s.len() == 0 {
        assert(s.insert(j, e) =~= seq![e]);
    } else if j == 0 {
        assert(s.insert(0, e) =~= seq![e] + s);
    } else {
        assert forall|t: int| 0 <= t < j - 1 implies #[trigger] s.drop_first()[t].frequency >= e.frequency by {
            assert(s.drop_first()[t] == s[t + 1]);
        }
        lemma_insert_at(s.drop_first(), e, j - 1);
        assert(seq![s[0]] + s.drop_first().insert(j - 1, e) =~= s.insert(j, e));
    }
}

/// Inserting into a sorted sequence keeps it sorted and adds exactly `e`.
pub proof fn lemma_insert_by_freq(s: Seq<&DictionaryEntry>, e: &DictionaryEntry)
    requires
        freq_sorted(s),
    ensures
        freq_sorted(insert_by_freq(s, e)),
        insert_by_freq(s, e).to_multiset() == s.to_multiset().insert(e),
    decreases s.len(),
{
    broadcast use vstd::seq_lib::group_to_multiset_ensures;
    if s.len() == 0 {
        assert(seq![e] =~= Seq::<&DictionaryEntry>::empty().push(e));
    } else if s[0].frequency >= e.frequency {
        let rest = s.drop_first();
        assert(freq_sorted(rest)) by {
            assert forall|a: int, b: int| 0 <= a < b < rest.len() implies #[trigger] rest[a].frequency >= #[trigger] rest[b].frequency by {
                assert(s[a + 1].frequency >= s[b + 1].frequency);
            }
        }
        lemma_insert_by_freq(rest, e);
        let ins = insert_by_freq(rest, e);
        let r = seq![s[0]] + ins;
        assert forall|a: int, b: int| 0 <= a < b < r.len() implies #[trigger] r[a].frequency >= #[trigger] r[b].frequency by {
            if a == 0 {
                assert(r[b] == ins[b - 1]);
                assert(ins.to_multiset().contains(ins[b - 1]));
                assert(rest.to_multiset().insert(e).contains(ins[b - 1]));
                if ins[b - 1] != e {
                    assert(rest.to_multiset().contains(ins[b - 1]));
                    assert(rest.contains(ins[b - 1]));
                    let t = choose|t: int| 0 <= t < rest.len() && rest[t] == ins[b - 1];
                    assert(s[0].frequency >= s[t + 1].frequency);
                }
            } else {
                assert(r[a] == ins[a - 1] && r[b] == ins[b - 1]);
            }
        }
        assert(s =~= seq![s[0]] + rest);
        vstd::seq_lib::lemma_multiset_commutative(seq![s[0]], ins);
        vstd::seq_lib::lemma_multiset_commutative(seq![s[0]], rest);
        assert(seq![s[0]].to_multiset() =~= Multiset::empty().insert(s[0])) by {
            assert(seq![s[0]] =~= Seq::<&DictionaryEntry>::empty().push(s[0]));
        }
    } else {
        let r = seq![e] + s;
        assert forall|a: int, b: int| 0 <= a < b < r.len() implies #[trigger] r[a].frequency >= #[trigger] r[b].frequency by {
            if a == 0 {
                assert(r[b] == s[b - 1]);
                assert(s[0].frequency >= s[b - 1].frequency);
            } else {
                assert(r[a] == s[a - 1] && r[b] == s[b - 1]);
            }
        }
        vstd::seq_lib::lemma_multiset_commutative(seq![e], s);
        assert(seq![e].to_multiset() =~= Multiset::empty().insert(e)) by {
            assert(seq![e] =~= Seq::<&DictionaryEntry>::empty().push(e));
        }
    }
}

/// Law: the frequency sort orders entries by non-increasing frequency and
/// is a permutation of its input.
/// A list of distinct indices naming exactly the kept elements among the
/// first `n` holds, as a multiset, the kept elements.
proof fn lemma_index_perm<T>(all: Seq<T>, idx: Seq<usize>, keep: spec_fn(T) -> bool, n: int)
    requires
        0 <= n <= all.len(),
        all.len() <= usize::MAX,
        idx.no_duplicates(),
        forall|i: usize| #[trigger] idx.contains(i) <==> (i < n && keep(all[i as int])),
    ensures
        idx.map_values(|i: usize| all[i as int]).to_multiset() == all.take(n).filter(keep).to_multiset(),
    decreases n,
{
    broadcast use vstd::seq_lib::group_to_multiset_ensures;
    let m = idx.map_values(|i: usize| all[i as int]);
    if n == 0 {
        if idx.len() > 0 {
            assert(idx.contains(idx[0]));
        }
        assert(m =~= Seq::<T>::empty());
        assert(all.take(0) =~= Seq::<T>::empty());
    } else {
        let j = n - 1;
        assert(all.take(n) =~= all.take(j).push(all[j]));
        all.take(j).lemma_filter_push(all[j], keep);
        if keep(all[j]) {
            let ju = j as usize;
            assert(idx.contains(ju));
            let t = choose|t: int| 0 <= t < idx.len() && idx[t] == ju;
            let idx2 = idx.remove(t);
            assert forall|i: usize| #[trigger] idx2.contains(i) <==> (i < j && keep(all[i as int])) by {
                if idx2.contains(i) {
                    let x = choose|x: int| 0 <= x < idx2.len() && idx2[x] == i;
                    if x < t {
                        assert(idx[x] == i);
                    } else {
                        assert(idx[x + 1] == i);
                    }
                    assert(idx.contains(i));
                }
                if i < j && keep(all[i as int]) {
                    assert(idx.contains(i));
                    let x = choose|x: int| 0 <= x < idx.len() && idx[x] == i;
                    assert(x != t);
                    if x < t {
                        assert(idx2[x] == i);
                    } else {
                        assert(idx2[x - 1] == i);
                    }
                }
            }
            assert(idx2.no_duplicates()) by {
                assert forall|a: int, b: int| 0 <= a < idx2.len() && 0 <= b < idx2.len() && a != b implies idx2[a] != idx2[b] by {
                    let a1 = if a < t { a } else { a + 1 };
                    let b1 = if b < t { b } else { b + 1 };
                    assert(idx2[a] == idx[a1] && idx2[b] == idx[b1]);
                }
            }
            lemma_index_perm(all, idx2, keep, j);
            assert(m.remove(t) =~= idx2.map_values(|i: usize| all[i as int]));
            assert(m[t] == all[j]);
            assert(m.to_multiset().count(all[j]) > 0) by {
                assert(m.contains(all[j]));
            }
            assert(m.to_multiset() =~= m.remove(t).to_multiset().insert(all[j]));
        } else {
            assert forall|i: usize| #[trigger] idx.contains(i) <==> (i < j && keep(all[i as int])) by {
            }
            lemma_index_perm(all, idx, keep, j);
        }
    }
}

pub proof fn lemma_sort_by_freq(s: Seq<&DictionaryEntry>)
    ensures
        freq_sorted(sort_by_freq(s)),
        sort_by_freq(s).to_multiset() == s.to_multiset(),
    decreases s.len(),
{
    broadcast use vstd::seq_lib::group_to_multiset_ensures;
    if s.len() > 0 {
        lemma_sort_by_freq(s.drop_last());
        lemma_insert_by_freq(sort_by_freq(s.drop_last()), s.last());
        assert(s =~= s.drop_last().push(s.last()));
    }
}

/// Sorts entry references by descending frequency, stably.
fn sort_entries<'a>(items: Vec<&'a DictionaryEntry>) -> (r: Vec<&'a DictionaryEntry>)
    ensures
        r@ == sort_by_freq(items@),
{
    let mut result: Vec<&DictionaryEntry> = Vec::new();
    let mut i: usize = 0;
    while i < items.len()
        invariant
            i <= items.len(),
            result@ == sort_by_freq(items@.take(i as int)),
        decreases items.len() - i,
    {
        let e = items[i];
        let mut j: usize = 0;
        while j < result.len() && result[j].frequency >= e.frequency
            invariant
                j <= result.len(),
                forall|t: int| 0 <= t < j ==> #[trigger] result@[t].frequency >= e.frequency,
            decreases result.len() - j,
        {
            j += 1;
        }
        proof {
            lemma_insert_at(result@, e, j as int);
            assert(items@.take(i + 1).drop_last() =~= items@.take(i as int));
        }
        result.insert(j, e);
        i += 1;
    }
    assert(items@.take(items.len() as int) =~= items@);
    result
}

// ---------------------------------------------------------------------------
// Positions of a reading
// ---------------------------------------------------------------------------

/// Indices `i < n` of the entries whose reading is `r`, ascending.
pub open spec fn positions(entries: Seq<DictionaryEntry>, r: Seq<char>, n: int) -> Seq<usize>
    decreases n,
{
    if n <= 0 {
        Seq::empty()
    } else if entries[n - 1].reading@ == r {
        positions(entries, r, n - 1).push((n - 1) as usize)
    } else {
        positions(entries, r, n - 1)
    }
}

/// Every position is below `n` and names an entry with reading `r`.
proof fn lemma_positions_sound(entries: Seq<DictionaryEntry>, r: Seq<char>, n: int)
    requires
        0 <= n <= entries.len(),
        entries.len() <= usize::MAX,
    ensures
        forall|t: int| 0 <= t < positions(entries, r, n).len() ==> (#[trigger] positions(entries, r, n)[t]) < n
            && entries[positions(entries, r, n)[t] as int].reading@ == r,
    decreases n,
{
    if n > 0 {
        lemma_positions_sound(entries, r, n - 1);
        let p = positions(entries, r, n - 1);
        if entries[n - 1].reading@ == r {
            let q = p.push((n - 1) as usize);
            assert forall|t: int| 0 <= t < q.len() implies (#[trigger] q[t]) < n && entries[q[t] as int].reading@ == r by {
                if t < p.len() {
                    assert(q[t] == p[t]);
                }
            }
        }
    }
}

/// Every entry below `n` with reading `r` has its index among the positions.
proof fn lemma_positions_complete(entries: Seq<DictionaryEntry>, r: Seq<char>, n: int, i: int)
    requires
        0 <= i < n <= entries.len(),
        entries.len() <= usize::MAX,
        entries[i].reading@ == r,
    ensures
        exists|t: int| 0 <= t < positions(entries, r, n).len() && #[trigger] positions(entries, r, n)[t] as int == i,
    decreases n,
{
    let p = positions(entries, r, n - 1);
    if i == n - 1 {
        assert(positions(entries, r, n) == p.push((n - 1) as usize));
        assert(positions(entries, r, n)[p.len() as int] as int == i);
    } else {
        lemma_positions_complete(entries, r, n - 1, i);
        let t = choose|t: int| 0 <= t < p.len() && #[trigger] p[t] as int == i;
        if entries[n - 1].reading@ == r {
            assert(positions(entries, r, n) == p.push((n - 1) as usize));
            assert(p.push((n - 1) as usize)[t] == p[t]);
        }
        assert(positions(entries, r, n)[t] as int == i);
    }
}

/// The indices, and their frequencies, that the trie holds under reading
/// `r` after entries `0..n` were inserted in order: highest frequency
/// first, equal frequencies in index order.
pub open spec fn ranked(entries: Seq<DictionaryEntry>, r: Seq<char>, n: int) -> (Seq<usize>, Seq<u32>)
    decreases n,
{
    if n <= 0 {
        (Seq::empty(), Seq::empty())
    } else {
        let prev = ranked(entries, r, n - 1);
        if entries[n - 1].reading@ == r {
            let p = freq_slot(prev.1, entries[n - 1].frequency, 0);
            (prev.0.insert(p, (n - 1) as usize), prev.1.insert(p, entries[n - 1].frequency))
        } else {
            prev
        }
    }
}

/// What `ranked` holds: indices below `n` of entries with reading `r`,
/// each with its entry's frequency.
proof fn lemma_ranked(entries: Seq<DictionaryEntry>, r: Seq<char>, n: int)
    requires
        0 <= n <= entries.len(),
        entries.len() <= usize::MAX,
    ensures
        ranked(entries, r, n).0.len() == ranked(entries, r, n).1.len(),
        forall|t: int| 0 <= t < ranked(entries, r, n).0.len() ==> (#[trigger] ranked(entries, r, n).0[t]) < n
            && entries[ranked(entries, r, n).0[t] as int].reading@ == r
            && ranked(entries, r, n).1[t] == entries[ranked(entries, r, n).0[t] as int].frequency,
    decreases n,
{
    if n > 0 {
        lemma_ranked(entries, r, n - 1);
        let prev = ranked(entries, r, n - 1);
        if entries[n - 1].reading@ == r {
            let f = entries[n - 1].frequency;
            lemma_freq_slot(prev.1, f, 0);
            let p = freq_slot(prev.1, f, 0);
            let q = ranked(entries, r, n);
            assert forall|t: int| 0 <= t < q.0.len() implies (#[trigger] q.0[t]) < n
                && entries[q.0[t] as int].reading@ == r && q.1[t] == entries[q.0[t] as int].frequency by {
                if t < p {
                    assert(q.0[t] == prev.0[t] && q.1[t] == prev.1[t]);
                } else if t > p {
                    assert(q.0[t] == prev.0[t - 1] && q.1[t] == prev.1[t - 1]);
                }
            }
        }
    }
}

/// Every entry below `n` with reading `r` is ranked.
proof fn lemma_ranked_complete(entries: Seq<DictionaryEntry>, r: Seq<char>, n: int, i: int)
    requires
        0 <= i < n <= entries.len(),
        entries.len() <= usize::MAX,
        entries[i].reading@ == r,
    ensures
        exists|t: int| 0 <= t < ranked(entries, r, n).0.len() && #[trigger] ranked(entries, r, n).0[t] as int == i,
    decreases n,
{
    lemma_ranked(entries, r, n - 1);
    let prev = ranked(entries, r, n - 1);
    let q = ranked(entries, r, n);
    if entries[n - 1].reading@ == r {
        let f = entries[n - 1].frequency;
        lemma_freq_slot(prev.1, f, 0);
        let p = freq_slot(prev.1, f, 0);
        if i == n - 1 {
            assert(q.0[p] as int == i);
        } else {
            lemma_ranked_complete(entries, r, n - 1, i);
            let t = choose|t: int| 0 <= t < prev.0.len() && #[trigger] prev.0[t] as int == i;
            if t < p {
                assert(q.0[t] as int == i);
            } else {
                assert(q.0[t + 1] as int == i);
            }
        }
    } else {
        lemma_ranked_complete(entries, r, n - 1, i);
    }
}

proof fn lemma_ranked_prefix(entries: Seq<DictionaryEntry>, e: DictionaryEntry, r: Seq<char>, n: int)
    requires
        0 <= n <= entries.len(),
    ensures
        ranked(entries.push(e), r, n) == ranked(entries, r, n),
    decreases n,
{
    if n > 0 {
        lemma_ranked_prefix(entries, e, r, n - 1);
        assert(entries.push(e)[n - 1] == entries[n - 1]);
    }
}

/// The ranked indices name the entries in the order a stable sort by
/// descending frequency puts them.
proof fn lemma_ranked_sorted(entries: Seq<DictionaryEntry>, r: Seq<char>, n: int)
    requires
        0 <= n <= entries.len(),
        entries.len() <= usize::MAX,
    ensures
        ranked(entries, r, n).0.map_values(|i: usize| &entries[i as int])
            == sort_by_freq(positions(entries, r, n).map_values(|i: usize| &entries[i as int])),
    decreases n,
{
    if n > 0 {
        lemma_ranked_sorted(entries, r, n - 1);
        let prev = ranked(entries, r, n - 1);
        let pm = positions(entries, r, n - 1).map_values(|i: usize| &entries[i as int]);
        if entries[n - 1].reading@ == r {
            lemma_ranked(entries, r, n - 1);
            let e = &entries[n - 1];
            let f = e.frequency;
            lemma_freq_slot(prev.1, f, 0);
            let p = freq_slot(prev.1, f, 0);
            let sp = sort_by_freq(pm);
            let pmn = positions(entries, r, n).map_values(|i: usize| &entries[i as int]);
            assert(pmn =~= pm.push(e));
            assert(pmn.drop_last() =~= pm);
            assert(sort_by_freq(pmn) == insert_by_freq(sp, e));
            assert forall|t: int| 0 <= t < p implies #[trigger] sp[t].frequency >= e.frequency by {
                assert(sp[t] == &entries[prev.0[t] as int]);
            }
            if p < sp.len() {
                assert(sp[p] == &entries[prev.0[p] as int]);
            }
            lemma_insert_at(sp, e, p);
            assert(ranked(entries, r, n).0.map_values(|i: usize| &entries[i as int]) =~= sp.insert(p, e));
        } else {
            assert(positions(entries, r, n) == positions(entries, r, n - 1));
        }
    }
}

/// Sorting what is already sorted changes nothing.
proof fn lemma_sort_sorted(s: Seq<&DictionaryEntry>)
    requires
        freq_sorted(s),
    ensures
        sort_by_freq(s) == s,
    decreases s.len(),
{
    if s.len() > 0 {
        let d = s.drop_last();
        assert(freq_sorted(d)) by {
            assert forall|a: int, b: int| 0 <= a < b < d.len() implies #[trigger] d[a].frequency >= #[trigger] d[b].frequency by {
                assert(s[a].frequency >= s[b].frequency);
            }
        }
        lemma_sort_sorted(d);
        assert forall|t: int| 0 <= t < d.len() implies #[trigger] d[t].frequency >= s.last().frequency by {
            assert(s[t].frequency >= s[s.len() - 1].frequency);
        }
        lemma_insert_at(d, s.last(), d.len() as int);
        assert(d.insert(d.len() as int, s.last()) =~= s);
    }
}

// ---------------------------------------------------------------------------
// Data loaded at start-up
// ---------------------------------------------------------------------------

/// The entries of symbol group `g`, frequency falling by 100 per position.
pub open spec fn symbol_rows_of(g: int) -> Seq<EntryView> {
    Seq::new(
        symbol_group(g).1.len(),
        |i: int| (symbol_group(g).0, symbol_group(g).1[i], PartOfSpeech::Other, (8000 - 100 * i) as u32),
    )
}

/// The entries of the first `n` symbol groups, in order.
pub open spec fn symbol_rows(n: int) -> Seq<EntryView>
    decreases n,
{
    if n <= 0 {
        Seq::empty()
    } else {
        symbol_rows(n - 1) + symbol_rows_of(n - 1)
    }
}

/// The auxiliary verb forms as entries.
pub open spec fn auxiliary_rows() -> Seq<EntryView> {
    Seq::new(AUXILIARY_LEN as nat, |i: int| (auxiliary(i), auxiliary(i), PartOfSpeech::Auxiliary, 9000u32))
}

/// The built-in words as entries.
pub open spec fn builtin_rows() -> Seq<EntryView> {
    Seq::new(BUILTIN_LEN as nat, |i: int| builtin_row(i))
}

/// Everything a new dictionary holds: words, then symbols, then auxiliary forms.
pub open spec fn initial_rows() -> Seq<EntryView> {
    builtin_rows() + symbol_rows(SYMBOL_GROUPS as int) + auxiliary_rows()
}

// ---------------------------------------------------------------------------
// Merging imported entries
// ---------------------------------------------------------------------------

/// Whether `s` holds an entry with this reading and surface.
pub open spec fn has_pair(s: Seq<DictionaryEntry>, reading: Seq<char>, surface: Seq<char>) -> bool {
    exists|i: int| 0 <= i < s.len() && (#[trigger] s[i]).reading@ == reading && s[i].surface@ == surface
}

/// `base` followed by the entries of `new` whose (reading, surface) pair is
/// not yet present, taken in order.
pub open spec fn merged(base: Seq<DictionaryEntry>, new: Seq<DictionaryEntry>) -> Seq<DictionaryEntry>
    decreases new.len(),
{
    if new.len() == 0 {
        base
    } else {
        let acc = merged(base, new.drop_last());
        if has_pair(acc, new.last().reading@, new.last().surface@) {
            acc
        } else {
            acc.push(new.last())
        }
    }
}

proof fn lemma_merged_grows(base: Seq<DictionaryEntry>, new: Seq<DictionaryEntry>)
    ensures
        base.len() <= merged(base, new).len(),
        merged(base, new).take(base.len() as int) == base,
    decreases new.len(),
{
    if new.len() > 0 {
        lemma_merged_grows(base, new.drop_last());
        let acc = merged(base, new.drop_last());
        assert(acc.push(new.last()).take(base.len() as int) =~= acc.take(base.len() as int));
    }
}

/// A pair present in `acc` stays present after more entries are merged in.
proof fn lemma_pair_kept(base: Seq<DictionaryEntry>, new: Seq<DictionaryEntry>, r: Seq<char>, sf: Seq<char>)
    requires
        has_pair(base, r, sf),
    ensures
        has_pair(merged(base, new), r, sf),
    decreases new.len(),
{
    if new.len() > 0 {
        lemma_pair_kept(base, new.drop_last(), r, sf);
        let acc = merged(base, new.drop_last());
        let i = choose|i: int| 0 <= i < acc.len() && (#[trigger] acc[i]).reading@ == r && acc[i].surface@ == sf;
        assert(acc.push(new.last())[i] == acc[i]);
    }
}

/// After merging, every pair of the merged entries is present.
proof fn lemma_merged_has_all(base: Seq<DictionaryEntry>, new: Seq<DictionaryEntry>, k: int)
    requires
        0 <= k < new.len(),
    ensures
        has_pair(merged(base, new), new[k].reading@, new[k].surface@),
    decreases new.len(),
{
    let acc = merged(base, new.drop_last());
    let e = new.last();
    if k == new.len() - 1 {
        if !has_pair(acc, e.reading@, e.surface@) {
            assert(acc.push(e)[acc.len() as int] == e);
        }
    } else {
        lemma_merged_has_all(base, new.drop_last(), k);
        assert(new.drop_last()[k] == new[k]);
        let single = seq![e];
        lemma_pair_kept(acc, single, new[k].reading@, new[k].surface@);
        assert(single.drop_last() =~= Seq::<DictionaryEntry>::empty());
        assert(merged(acc, single.drop_last()) == acc);
    }
}

/// Merging entries whose pairs are all present changes nothing.
proof fn lemma_merge_present(base: Seq<DictionaryEntry>, new: Seq<DictionaryEntry>)
    requires
        forall|k: int| 0 <= k < new.len() ==> has_pair(base, (#[trigger] new[k]).reading@, new[k].surface@),
    ensures
        merged(base, new) == base,
    decreases new.len(),
{
    if new.len() > 0 {
        assert forall|k: int| 0 <= k < new.drop_last().len() implies has_pair(base, (#[trigger] new.drop_last()[k]).reading@, new.drop_last()[k].surface@) by {
            assert(new.drop_last()[k] == new[k]);
        }
        lemma_merge_present(base, new.drop_last());
        assert(has_pair(base, new[new.len() - 1].reading@, new[new.len() - 1].surface@));
    }
}

/// Law: importing the same entries a second time adds nothing.
pub proof fn lemma_import_idempotent(base: Seq<DictionaryEntry>, new: Seq<DictionaryEntry>)
    ensures
        merged(merged(base, new), new) == merged(base, new),
{
    assert forall|k: int| 0 <= k < new.len() implies has_pair(merged(base, new), (#[trigger] new[k]).reading@, new[k].surface@) by {
        lemma_merged_has_all(base, new, k);
    }
    lemma_merge_present(merged(base, new), new);
}

// ---------------------------------------------------------------------------
// Segmentation paths
// ---------------------------------------------------------------------------

/// Where the last segment ending at `pos` starts: the back pointer when it
/// points strictly backwards, otherwise one character before `pos`.
pub open spec fn back_start(back: Seq<Option<usize>>, pos: int) -> int {
    match back[pos] {
        Some(s) => if s < pos { s as int } else { pos - 1 },
        None => pos - 1,
    }
}

/// The segment boundaries (start, end) of the path that ends at `pos`,
/// found by following back pointers, in left-to-right order.
pub open spec fn back_path(back: Seq<Option<usize>>, pos: int) -> Seq<(int, int)>
    decreases pos,
{
    if pos <= 0 {
        Seq::empty()
    } else {
        back_path(back, back_start(back, pos)).push((back_start(back, pos), pos))
    }
}

proof fn lemma_back_path_bounds(back: Seq<Option<usize>>, pos: int)
    requires
        0 <= pos,
    ensures
        forall|k: int| 0 <= k < back_path(back, pos).len() ==> 0 <= (#[trigger] back_path(back, pos)[k]).0
            < back_path(back, pos)[k].1 <= pos,
    decreases pos,
{
    if pos > 0 {
        lemma_back_path_bounds(back, back_start(back, pos));
        let p = back_path(back, back_start(back, pos));
        assert forall|k: int| 0 <= k < p.len() + 1 implies 0 <= (#[trigger] p.push((back_start(back, pos), pos))[k]).0
            < p.push((back_start(back, pos), pos))[k].1 <= pos by {
            if k < p.len() {
                assert(p.push((back_start(back, pos), pos))[k] == p[k]);
            }
        }
    }
}

/// Law: the path that back pointers describe covers `0..pos` without gap
/// or overlap: it starts at 0, each segment starts where the previous one
/// ends, and the last one ends at `pos`.
pub proof fn lemma_back_path_tiles(back: Seq<Option<usize>>, pos: int)
    requires
        0 < pos,
    ensures
        back_path(back, pos).len() > 0,
        back_path(back, pos)[0].0 == 0,
        back_path(back, pos).last().1 == pos,
        forall|k: int| 0 < k < back_path(back, pos).len() ==> (#[trigger] back_path(back, pos)[k]).0 == back_path(back, pos)[k - 1].1,
    decreases pos,
{
    let s = back_start(back, pos);
    let p = back_path(back, s);
    let q = p.push((s, pos));
    assert(back_path(back, pos) == q);
    if s > 0 {
        lemma_back_path_tiles(back, s);
        assert forall|k: int| 0 < k < q.len() implies (#[trigger] q[k]).0 == q[k - 1].1 by {
            if k < p.len() {
                assert(q[k] == p[k] && q[k - 1] == p[k - 1]);
            } else {
                assert(q[k - 1] == p.last());
            }
        }
        assert(q[0] == p[0]);
    } else {
        assert(p =~= Seq::<(int, int)>::empty());
    }
}

// ---------------------------------------------------------------------------
// Dictionary
// ---------------------------------------------------------------------------

pub struct Dictionary {
    entries: Vec<DictionaryEntry>,
    trie: Trie,
    /// Index of the first user-added entry (all entries before it are built in).
    user_start: usize,
}

impl Dictionary {
    /// The trie indexes every entry under its reading, in insertion order.
    pub closed spec fn wf(&self) -> bool {
        &&& self.trie.wf()
        &&& self.entries@.len() <= usize::MAX
        &&& self.user_start <= self.entries@.len()
        &&& forall|r: Seq<char>| #![trigger self.trie.indices(r)] #![trigger self.trie.freqs(r)]
            self.trie.indices(r) == ranked(self.entries@, r, self.entries@.len() as int).0
                && self.trie.freqs(r) == ranked(self.entries@, r, self.entries@.len() as int).1
    }

    /// The entries in insertion order.
    pub closed spec fn entries_view(&self) -> Seq<DictionaryEntry> {
        self.entries@
    }

    /// The entries in insertion order, as plain values.
    pub open spec fn rows(&self) -> Seq<EntryView> {
        self.entries_view().map_values(|e: DictionaryEntry| entry_view(e))
    }

    /// Number of built-in entries (entries before this index are built in).
    pub closed spec fn builtin_count(&self) -> nat {
        self.user_start as nat
    }

    /// References to the entries with reading `r`, in insertion order.
    pub open spec fn with_reading(&self, r: Seq<char>) -> Seq<&DictionaryEntry> {
        positions(self.entries_view(), r, self.entries_view().len() as int).map_values(
            |i: usize| &self.entries_view()[i as int],
        )
    }

    /// The (length, entries) pairs for the prefixes `s[..1]`, ..., `s[..upto]`
    /// that are readings of some entry, shortest first; the entries of each
    /// prefix are sorted by descending frequency.
    pub open spec fn prefix_words(&self, s: Seq<char>, upto: int) -> Seq<(usize, Seq<&DictionaryEntry>)>
        decreases upto,
    {
        if upto <= 0 {
            Seq::empty()
        } else {
            let prev = self.prefix_words(s, upto - 1);
            let w = self.with_reading(s.take(upto));
            if w.len() > 0 {
                prev.push((upto as usize, sort_by_freq(w)))
            } else {
                prev
            }
        }
    }

    /// An empty dictionary.
    fn empty() -> (d: Self)
        ensures
            d.wf(),
            d.entries_view().len() == 0,
            d.builtin_count() == 0,
    {
        let d = Dictionary { entries: Vec::new(), trie: Trie::new(), user_start: 0 };
        assert forall|r: Seq<char>| #![trigger d.trie.indices(r)] #![trigger d.trie.freqs(r)]
            d.trie.indices(r) == ranked(d.entries@, r, 0).0 && d.trie.freqs(r) == ranked(d.entries@, r, 0).1 by {}
        d
    }

    /// A dictionary holding the built-in words, the symbol entries and the
    /// auxiliary verb forms, all counted as built in.
    pub fn new() -> (d: Self)
        ensures
            d.wf(),
            d.rows() == initial_rows(),
            d.builtin_count() == d.entries_view().len(),
    {
        let mut d = Self::empty();
        let mut i: usize = 0;
        while i < BUILTIN_LEN
            invariant
                d.wf(),
                i <= BUILTIN_LEN,
                d.rows() == builtin_rows().take(i as int),
                d.builtin_count() == 0,
            decreases BUILTIN_LEN - i,
        {
            let e = builtin_entry(i);
            let ghost before = d.rows();
            d.add_entry(e);
            i += 1;
            assert(d.rows() =~= builtin_rows().take(i as int)) by {
                assert(d.rows() =~= before.push(entry_view(e)));
            }
        }
        assert(builtin_rows().take(BUILTIN_LEN as int) =~= builtin_rows());
        d.load_symbol_entries();
        d.user_start = d.entries.len();
        d
    }

    /// Appends the symbol entries and the auxiliary verb forms.
    fn load_symbol_entries(&mut self)
        requires
            old(self).wf(),
        ensures
            final(self).wf(),
            final(self).rows() == old(self).rows() + symbol_rows(SYMBOL_GROUPS as int) + auxiliary_rows(),
            final(self).builtin_count() == old(self).builtin_count(),
    {
        let ghost base = self.rows();
        let mut g: usize = 0;
        while g < SYMBOL_GROUPS
            invariant
                self.wf(),
                g <= SYMBOL_GROUPS,
                self.rows() == base + symbol_rows(g as int),
                self.builtin_count() == old(self).builtin_count(),
            decreases SYMBOL_GROUPS - g,
        {
            let (reading, symbols) = symbol_group_chars(g);
            let mut i: usize = 0;
            while i < symbols.len()
                invariant
                    self.wf(),
                    g < SYMBOL_GROUPS,
                    reading@ == symbol_group(g as int).0,
                    symbols@.len() == symbol_group(g as int).1.len(),
                    symbols@.len() <= 17,
                    forall|k: int| 0 <= k < symbols@.len() ==> #[trigger] symbols@[k]@ == symbol_group(g as int).1[k],
                    i <= symbols.len(),
                    self.rows() == base + symbol_rows(g as int) + symbol_rows_of(g as int).take(i as int),
                    self.builtin_count() == old(self).builtin_count(),
                decreases symbols.len() - i,
            {
                let e = DictionaryEntry {
                    reading: string_of(&reading),
                    surface: string_of(&symbols[i]),
                    pos: PartOfSpeech::Other,
                    frequency: 8000 - (i as u32) * 100,
                };
                let ghost before = self.rows();
                self.add_entry(e);
                i += 1;
                assert(self.rows() =~= base + symbol_rows(g as int) + symbol_rows_of(g as int).take(i as int)) by {
                    assert(self.rows() =~= before.push(entry_view(e)));
                    assert(symbol_rows_of(g as int).take(i as int) =~= symbol_rows_of(g as int).take(i - 1).push(symbol_rows_of(g as int)[i - 1]));
                }
            }
            assert(symbol_rows_of(g as int).take(symbols@.len() as int) =~= symbol_rows_of(g as int));
            g += 1;
            assert(symbol_rows(g as int) == symbol_rows(g - 1) + symbol_rows_of(g - 1));
            assert(self.rows() =~= base + symbol_rows(g as int));
        }
        let ghost mid = self.rows();
        let mut a: usize = 0;
        while a < AUXILIARY_LEN
            invariant
                self.wf(),
                a <= AUXILIARY_LEN,
                self.rows() == mid + auxiliary_rows().take(a as int),
                self.builtin_count() == old(self).builtin_count(),
            decreases AUXILIARY_LEN - a,
        {
            let form = auxiliary_chars(a);
            let e = DictionaryEntry {
                reading: string_of(&form),
                surface: string_of(&form),
                pos: PartOfSpeech::Auxiliary,
                frequency: 9000,
            };
            let ghost before = self.rows();
            self.add_entry(e);
            a += 1;
            assert(self.rows() =~= mid + auxiliary_rows().take(a as int)) by {
                assert(self.rows() =~= before.push(entry_view(e)));
                assert(auxiliary_rows().take(a as int) =~= auxiliary_rows().take(a - 1).push(auxiliary_rows()[a - 1]));
            }
        }
        assert(auxiliary_rows().take(AUXILIARY_LEN as int) =~= auxiliary_rows());
    }

    /// Adds a single entry at the end.
    pub fn add_entry(&mut self, entry: DictionaryEntry)
        requires
            old(self).wf(),
        ensures
            final(self).wf(),
            final(self).entries_view() == old(self).entries_view().push(entry),
            final(self).builtin_count() == old(self).builtin_count(),
    {
        let idx = self.entries.len();
        let reading = entry.reading.clone();
        let frequency = entry.frequency;
        let ghost old_entries = self.entries@;
        self.entries.push(entry);
        let new_len = self.entries.len();
        proof {
            assert(new_len == self.entries@.len());
            lemma_ranked(old_entries, reading@, idx as int);
            assert forall|t: int| 0 <= t < self.trie.indices(reading@).len() implies #[trigger] self.trie.indices(reading@)[t] != idx by {}
        }
        self.trie.insert(reading.as_str(), idx, frequency);
        proof {
            let ents = self.entries@;
            assert(ents == old_entries.push(entry));
            assert forall|r: Seq<char>| #![trigger self.trie.indices(r)] #![trigger self.trie.freqs(r)]
                self.trie.indices(r) == ranked(ents, r, ents.len() as int).0
                    && self.trie.freqs(r) == ranked(ents, r, ents.len() as int).1 by {
                lemma_ranked_prefix(old_entries, entry, r, idx as int);
                assert(ents[idx as int] == entry);
            }
        }
    }

    /// The references to the entries with the given indices.
    fn refs_at(&self, indices: &Vec<usize>) -> (r: Vec<&DictionaryEntry>)
        requires
            forall|t: int| 0 <= t < indices@.len() ==> #[trigger] indices@[t] < self.entries@.len(),
        ensures
            r@ == indices@.map_values(|i: usize| &self.entries_view()[i as int]),
    {
        let mut r: Vec<&DictionaryEntry> = Vec::new();
        let mut t: usize = 0;
        while t < indices.len()
            invariant
                t <= indices.len(),
                forall|x: int| 0 <= x < indices@.len() ==> #[trigger] indices@[x] < self.entries@.len(),
                r@ == indices@.take(t as int).map_values(|i: usize| &self.entries_view()[i as int]),
            decreases indices.len() - t,
        {
            let i = indices[t];
            r.push(&self.entries[i]);
            t += 1;
            assert(r@ =~= indices@.take(t as int).map_values(|i: usize| &self.entries_view()[i as int]));
        }
        assert(indices@.take(indices.len() as int) =~= indices@);
        r
    }

    /// All entries with exactly this reading, highest frequency first
    /// (equal frequencies keep insertion order).
    pub fn lookup(&self, reading: &str) -> (r: Vec<&DictionaryEntry>)
        requires
            self.wf(),
        ensures
            r@ == sort_by_freq(self.with_reading(reading@)),
    {
        let indices = self.trie.exact_lookup(reading);
        proof {
            lemma_ranked(self.entries@, reading@, self.entries@.len() as int);
        }
        let refs = self.refs_at(&indices);
        proof {
            let w = self.with_reading(reading@);
            lemma_ranked_sorted(self.entries@, reading@, self.entries@.len() as int);
            assert(refs@ =~= sort_by_freq(w));
            lemma_sort_by_freq(w);
            lemma_sort_sorted(sort_by_freq(w));
        }
        sort_entries(refs)
    }

    /// Whether an entry with the given reading and surface exists.
    fn has_entry(&self, reading: &str, surface: &str) -> (r: bool)
        requires
            self.wf(),
        ensures
            r == has_pair(self.entries_view(), reading@, surface@),
    {
        let indices = self.trie.exact_lookup(reading);
        let n = self.entries.len();
        proof {
            lemma_ranked(self.entries@, reading@, n as int);
        }
        let want = chars_of(surface);
        let mut t: usize = 0;
        while t < indices.len()
            invariant
                want@ == surface@,
                n == self.entries@.len(),
                indices@ == ranked(self.entries@, reading@, n as int).0,
                forall|x: int| 0 <= x < indices@.len() ==> (#[trigger] indices@[x]) < n
                    && self.entries@[indices@[x] as int].reading@ == reading@,
                t <= indices.len(),
                forall|x: int| 0 <= x < t ==> self.entries@[(#[trigger] indices@[x]) as int].surface@ != surface@,
            decreases indices.len() - t,
        {
            let i = indices[t];
            let have = chars_of(self.entries[i].surface.as_str());
            if chars_eq(&have, &want) {
                assert(self.entries@[i as int].reading@ == reading@);
                return true;
            }
            t += 1;
        }
        proof {
            if has_pair(self.entries@, reading@, surface@) {
                let i = choose|i: int| 0 <= i < self.entries@.len() && (#[trigger] self.entries@[i]).reading@ == reading@
                    && self.entries@[i].surface@ == surface@;
                lemma_ranked_complete(self.entries@, reading@, n as int, i);
                let x = choose|x: int| 0 <= x < indices@.len() && #[trigger] indices@[x] as int == i;
                assert(self.entries@[indices@[x] as int].surface@ != surface@);
            }
        }
        false
    }

    /// Adds the given entries in order, skipping each one whose reading and
    /// surface are already present. Returns how many were added.
    pub fn import_entries(&mut self, entries: Vec<DictionaryEntry>) -> (added: usize)
        requires
            old(self).wf(),
        ensures
            final(self).wf(),
            final(self).entries_view() == merged(old(self).entries_view(), entries@),
            added == final(self).entries_view().len() - old(self).entries_view().len(),
            final(self).builtin_count() == old(self).builtin_count(),
    {
        let ghost base = self.entries_view();
        let mut added: usize = 0;
        let mut k: usize = 0;
        while k < entries.len()
            invariant
                self.wf(),
                k <= entries.len(),
                self.entries_view() == merged(base, entries@.take(k as int)),
                added == self.entries_view().len() - base.len(),
                self.builtin_count() == old(self).builtin_count(),
            decreases entries.len() - k,
        {
            proof {
                lemma_merged_grows(base, entries@.take(k as int));
            }
            let e = entries[k].clone();
            assert(entries@.take(k + 1).drop_last() =~= entries@.take(k as int));
            if !self.has_entry(e.reading.as_str(), e.surface.as_str()) {
                self.add_entry(e);
                assert(self.entries_view().len() <= usize::MAX);
                added += 1;
            }
            k += 1;
        }
        assert(entries@.take(entries.len() as int) =~= entries@);
        added
    }

    /// Common prefix search: the dictionary words that are prefixes of
    /// `input`, as (length in characters, entries sorted by descending
    /// frequency), shortest prefix first.
    pub fn common_prefix_search(&self, input: &str) -> (r: Vec<(usize, Vec<&DictionaryEntry>)>)
        requires
            self.wf(),
        ensures
            r@.map_values(|p: (usize, Vec<&DictionaryEntry>)| (p.0, p.1@)) == self.prefix_words(input@, input@.len() as int),
    {
        let hits = self.trie.common_prefix_search(input);
        let ghost n = input@.len() as int;
        proof {
            lemma_positions_sound(self.entries@, input@, self.entries@.len() as int);
            self.lemma_prefix_words(input@, n);
        }
        proof {
            let hv = hits@.map_values(|p: (usize, Vec<usize>)| (p.0, p.1@));
            assert forall|x: int| 0 <= x < hits@.len() implies forall|t: int| 0 <= t < (#[trigger] hits@[x]).1@.len() ==> #[trigger] hits@[x].1@[t] < self.entries@.len() by {
                assert(hv[x] == (hits@[x].0, hits@[x].1@));
                assert(hv[x] == self.trie.prefix_hits(input@, n)[x]);
                assert forall|t: int| 0 <= t < hits@[x].1@.len() implies #[trigger] hits@[x].1@[t] < self.entries@.len() by {
                    assert(self.trie.prefix_hits(input@, n)[x].1[t] < self.entries@.len());
                }
            }
        }
        let mut out: Vec<(usize, Vec<&DictionaryEntry>)> = Vec::new();
        let mut k: usize = 0;
        while k < hits.len()
            invariant
                self.wf(),
                k <= hits.len(),
                hits@.map_values(|p: (usize, Vec<usize>)| (p.0, p.1@)) == self.trie.prefix_hits(input@, n),
                self.prefix_words(input@, n) == self.trie.prefix_hits(input@, n).map_values(
                    |p: (usize, Seq<usize>)| (p.0, sort_by_freq(p.1.map_values(|i: usize| &self.entries_view()[i as int])))),
                forall|x: int| 0 <= x < hits@.len() ==> forall|t: int| 0 <= t < (#[trigger] hits@[x]).1@.len() ==> #[trigger] hits@[x].1@[t] < self.entries@.len(),
                out@.map_values(|p: (usize, Vec<&DictionaryEntry>)| (p.0, p.1@)) == self.prefix_words(input@, n).take(k as int),
            decreases hits.len() - k,
        {
            let (len, indices) = (hits[k].0, &hits[k].1);
            assert(hits@.map_values(|p: (usize, Vec<usize>)| (p.0, p.1@))[k as int] == (len, indices@));
            let refs = self.refs_at(indices);
            let sorted = sort_entries(refs);
            let ghost prev = out@;
            proof {
                let ph = self.trie.prefix_hits(input@, n);
                assert(ph[k as int] == (len, indices@));
                assert(self.prefix_words(input@, n)[k as int] == (len, sorted@));
            }
            out.push((len, sorted));
            k += 1;
            assert(out@.map_values(|p: (usize, Vec<&DictionaryEntry>)| (p.0, p.1@)) =~= self.prefix_words(input@, n).take(k as int)) by {
                assert(out@ == prev.push((len, sorted)));
                assert(out@.map_values(|p: (usize, Vec<&DictionaryEntry>)| (p.0, p.1@)) =~= prev.map_values(|p: (usize, Vec<&DictionaryEntry>)| (p.0, p.1@)).push((len, sorted@)));
                assert(self.prefix_words(input@, n).take(k as int) =~= self.prefix_words(input@, n).take(k - 1).push(self.prefix_words(input@, n)[k - 1]));
            }
        }
        proof {
            assert(self.prefix_words(input@, n).len() == hits@.len());
            assert(self.prefix_words(input@, n).take(hits@.len() as int) =~= self.prefix_words(input@, n));
        }
        out
    }

    /// The prefix words are the trie's prefix hits with indices turned into
    /// sorted entries; every hit index names an entry.
    proof fn lemma_prefix_words(&self, s: Seq<char>, upto: int)
        requires
            self.wf(),
        ensures
            self.prefix_words(s, upto) == self.trie.prefix_hits(s, upto).map_values(
                |p: (usize, Seq<usize>)| (p.0, sort_by_freq(p.1.map_values(|i: usize| &self.entries_view()[i as int])))),
            forall|x: int| 0 <= x < self.trie.prefix_hits(s, upto).len() ==> forall|t: int| 0 <= t < (#[trigger] self.trie.prefix_hits(s, upto)[x]).1.len()
                ==> #[trigger] self.trie.prefix_hits(s, upto)[x].1[t] < self.entries@.len(),
        decreases upto,
    {
        if upto > 0 {
            self.lemma_prefix_words(s, upto - 1);
            let r = s.take(upto);
            lemma_ranked(self.entries@, r, self.entries@.len() as int);
            let prev = self.trie.prefix_hits(s, upto - 1);
            let ix = self.trie.indices(r);
            let w = self.with_reading(r);
            lemma_ranked_sorted(self.entries@, r, self.entries@.len() as int);
            assert(ix.map_values(|i: usize| &self.entries_view()[i as int]) =~= sort_by_freq(w));
            lemma_sort_by_freq(w);
            lemma_sort_sorted(sort_by_freq(w));
            let f = |p: (usize, Seq<usize>)| (p.0, sort_by_freq(p.1.map_values(|i: usize| &self.entries_view()[i as int])));
            if ix.len() > 0 {
                assert(prev.push((upto as usize, ix)).map_values(f) =~= prev.map_values(f).push(f((upto as usize, ix))));
                let hits = prev.push((upto as usize, ix));
                assert forall|x: int| 0 <= x < hits.len() implies forall|t: int| 0 <= t < (#[trigger] hits[x]).1.len()
                    ==> #[trigger] hits[x].1[t] < self.entries@.len() by {
                    if x < prev.len() {
                        assert(hits[x] == prev[x]);
                    }
                }
            }
        }
    }

    /// Each entry index is stored under one reading only.
    proof fn lemma_trie_separate(&self)
        requires
            self.wf(),
        ensures
            self.trie.separate(),
    {
        let n = self.entries@.len() as int;
        assert forall|r1: Seq<char>, r2: Seq<char>, i: usize|
            r1 != r2 && #[trigger] self.trie.indices(r1).contains(i) implies !#[trigger] self.trie.indices(r2).contains(i) by {
            lemma_ranked(self.entries@, r1, n);
            lemma_ranked(self.entries@, r2, n);
            let x = choose|x: int| 0 <= x < self.trie.indices(r1).len() && self.trie.indices(r1)[x] == i;
            assert(self.entries@[i as int].reading@ == r1);
            if self.trie.indices(r2).contains(i) {
                let y = choose|y: int| 0 <= y < self.trie.indices(r2).len() && self.trie.indices(r2)[y] == i;
                assert(self.entries@[i as int].reading@ == r2);
            }
        }
        self.trie.lemma_separate();
    }

    /// References to all entries, in insertion order.
    pub open spec fn entry_refs(&self) -> Seq<&DictionaryEntry> {
        Seq::new(self.entries_view().len(), |i: int| &self.entries_view()[i])
    }

    /// All entries whose reading starts with `prefix`, each once, highest
    /// frequency first. The order among equally frequent entries is not
    /// specified.
    pub fn prefix_lookup(&self, prefix: &str) -> (r: Vec<&DictionaryEntry>)
        requires
            self.wf(),
        ensures
            freq_sorted(r@),
            r@.to_multiset() == self.entry_refs().filter(|e: &DictionaryEntry| starts_with(e.reading@, prefix@)).to_multiset(),
            forall|e: &DictionaryEntry| #[trigger] r@.contains(e) <==> exists|i: int| 0 <= i < self.entries_view().len()
                && starts_with((#[trigger] self.entries_view()[i]).reading@, prefix@) && *e == self.entries_view()[i],
    {
        proof {
            self.lemma_trie_separate();
        }
        let indices = self.trie.prefix_lookup(prefix);
        let n = self.entries.len();
        proof {
            let keep = |e: &DictionaryEntry| starts_with(e.reading@, prefix@);
            let all = self.entry_refs();
            assert forall|i: usize| #[trigger] indices@.contains(i) <==> (i < n && keep(all[i as int])) by {
                if indices@.contains(i) {
                    self.trie.lemma_under_prefix(prefix@, i);
                    let rr = choose|rr: Seq<char>| starts_with(rr, prefix@) && #[trigger] self.trie.indices(rr).contains(i);
                    lemma_ranked(self.entries@, rr, n as int);
                    let y = choose|y: int| 0 <= y < self.trie.indices(rr).len() && self.trie.indices(rr)[y] == i;
                    assert(self.trie.indices(rr)[y] < n);
                    assert(self.entries@[i as int].reading@ == rr);
                }
                if i < n && keep(all[i as int]) {
                    let rr = self.entries@[i as int].reading@;
                    lemma_ranked_complete(self.entries@, rr, n as int, i as int);
                    let t = choose|t: int| 0 <= t < ranked(self.entries@, rr, n as int).0.len() && #[trigger] ranked(self.entries@, rr, n as int).0[t] as int == i as int;
                    assert(self.trie.indices(rr)[t] == i);
                    assert(self.trie.indices(rr).contains(i));
                    self.trie.lemma_under_prefix(prefix@, i);
                }
            }
            lemma_index_perm(all, indices@, keep, n as int);
            assert(all.take(n as int) =~= all);
        }
        proof {
            assert forall|t: int| 0 <= t < indices@.len() implies #[trigger] indices@[t] < n by {
                let i = indices@[t];
                assert(indices@.contains(i));
                self.trie.lemma_under_prefix(prefix@, i);
                let rr = choose|rr: Seq<char>| starts_with(rr, prefix@) && #[trigger] self.trie.indices(rr).contains(i);
                lemma_ranked(self.entries@, rr, n as int);
                let x = choose|x: int| 0 <= x < self.trie.indices(rr).len() && self.trie.indices(rr)[x] == i;
                assert(self.trie.indices(rr)[x] < n);
            }
        }
        let refs = self.refs_at(&indices);
        let sorted = sort_entries(refs);
        proof {
            lemma_sort_by_freq(refs@);
            let all = self.entry_refs();
            assert(refs@ =~= indices@.map_values(|i: usize| all[i as int]));
            assert forall|e: &DictionaryEntry| #[trigger] sorted@.contains(e) <==> exists|i: int| 0 <= i < self.entries_view().len()
                && starts_with((#[trigger] self.entries_view()[i]).reading@, prefix@) && *e == self.entries_view()[i] by {
                vstd::seq_lib::to_multiset_contains(sorted@, e);
                vstd::seq_lib::to_multiset_contains(refs@, e);
                if refs@.contains(e) {
                    let x = choose|x: int| 0 <= x < refs@.len() && refs@[x] == e;
                    let i = indices@[x];
                    assert(indices@.contains(i));
                    self.trie.lemma_under_prefix(prefix@, i);
                    let rr = choose|rr: Seq<char>| starts_with(rr, prefix@) && #[trigger] self.trie.indices(rr).contains(i);
                    lemma_ranked(self.entries@, rr, n as int);
                    let y = choose|y: int| 0 <= y < self.trie.indices(rr).len() && self.trie.indices(rr)[y] == i;
                    assert(self.entries@[i as int].reading@ == rr);
                    assert(starts_with(self.entries_view()[i as int].reading@, prefix@));
                }
                if exists|i: int| 0 <= i < self.entries_view().len()
                    && starts_with((#[trigger] self.entries_view()[i]).reading@, prefix@) && *e == self.entries_view()[i] {
                    let i = choose|i: int| 0 <= i < self.entries_view().len()
                        && starts_with((#[trigger] self.entries_view()[i]).reading@, prefix@) && *e == self.entries_view()[i];
                    let rr = self.entries@[i].reading@;
                    lemma_ranked_complete(self.entries@, rr, n as int, i);
                    let t = choose|t: int| 0 <= t < ranked(self.entries@, rr, n as int).0.len() && #[trigger] ranked(self.entries@, rr, n as int).0[t] as int == i;
                    assert(self.trie.indices(rr)[t] == i as usize);
                    assert(self.trie.indices(rr).contains(i as usize));
                    self.trie.lemma_under_prefix(prefix@, i as usize);
                    assert(indices@.contains(i as usize));
                    let x = choose|x: int| 0 <= x < indices@.len() && indices@[x] == i as usize;
                    assert(refs@[x] == e);
                }
            }
        }
        sorted
    }

    /// Every entry is found by looking up its own reading.
    pub proof fn lemma_lookup_finds(&self, i: int)
        requires
            self.wf(),
            0 <= i < self.entries_view().len(),
        ensures
            sort_by_freq(self.with_reading(self.entries_view()[i].reading@)).contains(&self.entries_view()[i]),
    {
        let r = self.entries_view()[i].reading@;
        let n = self.entries@.len() as int;
        lemma_positions_complete(self.entries@, r, n, i);
        let p = positions(self.entries@, r, n);
        let t = choose|t: int| 0 <= t < p.len() && #[trigger] p[t] as int == i;
        let w = self.with_reading(r);
        assert(w[t] == &self.entries_view()[i]);
        assert(w.contains(&self.entries_view()[i]));
        lemma_sort_by_freq(w);
        vstd::seq_lib::to_multiset_contains(w, &self.entries_view()[i]);
        vstd::seq_lib::to_multiset_contains(sort_by_freq(w), &self.entries_view()[i]);
    }

    /// The candidate entries of a segment: copies of the entries with this
    /// reading, highest frequency first.
    fn candidates_for(&self, reading: &str) -> (r: Vec<DictionaryEntry>)
        requires
            self.wf(),
        ensures
            r@ == sort_by_freq(self.with_reading(reading@)).map_values(|e: &DictionaryEntry| *e),
    {
        let found = self.lookup(reading);
        let mut r: Vec<DictionaryEntry> = Vec::new();
        let mut t: usize = 0;
        while t < found.len()
            invariant
                t <= found.len(),
                r@ == found@.take(t as int).map_values(|e: &DictionaryEntry| *e),
            decreases found.len() - t,
        {
            r.push(found[t].clone());
            t += 1;
            assert(r@ =~= found@.take(t as int).map_values(|e: &DictionaryEntry| *e));
        }
        assert(found@.take(found.len() as int) =~= found@);
        r
    }

    /// Builds the segments of `input` along the path that the back pointers
    /// describe: `back[p]` is where the last segment ending at character
    /// position `p` starts. Each segment carries the entries for its reading.
    pub fn segments_from_back(&self, input: &str, back: &Vec<Option<usize>>) -> (r: Vec<Segment>)
        requires
            self.wf(),
            back@.len() == input@.len() + 1,
        ensures
            r@.len() == back_path(back@, input@.len() as int).len(),
            forall|k: int| 0 <= k < r@.len() ==> {
                let b = #[trigger] back_path(back@, input@.len() as int)[k];
                &&& r@[k].start == b.0
                &&& r@[k].len == b.1 - b.0
                &&& r@[k].reading@ == input@.subrange(b.0, b.1)
                &&& r@[k].candidates@ == sort_by_freq(self.with_reading(input@.subrange(b.0, b.1))).map_values(
                    |e: &DictionaryEntry| *e)
            },
    {
        let chars = chars_of(input);
        let n = chars.len();
        let ghost full = back_path(back@, n as int);
        proof {
            lemma_back_path_bounds(back@, n as int);
        }
        // Walk the back pointers from the end, collecting boundaries in reverse.
        let mut rev: Vec<(usize, usize)> = Vec::new();
        let mut pos = n;
        while pos > 0
            invariant
                chars@ == input@,
                n == chars@.len(),
                back@.len() == n + 1,
                pos <= n,
                full == back_path(back@, n as int),
                full =~= back_path(back@, pos as int) + Seq::new(rev@.len(), |j: int| (rev@[rev@.len() - 1 - j].0 as int, rev@[rev@.len() - 1 - j].1 as int)),
            decreases pos,
        {
            let start = match back[pos] {
                Some(s) => if s < pos { s } else { pos - 1 },
                None => pos - 1,
            };
            assert(start as int == back_start(back@, pos as int));
            let ghost old_rev = rev@;
            rev.push((start, pos));
            proof {
                let tail_old = Seq::new(old_rev.len(), |j: int| (old_rev[old_rev.len() - 1 - j].0 as int, old_rev[old_rev.len() - 1 - j].1 as int));
                let tail_new = Seq::new(rev@.len(), |j: int| (rev@[rev@.len() - 1 - j].0 as int, rev@[rev@.len() - 1 - j].1 as int));
                assert(tail_new =~= seq![(start as int, pos as int)] + tail_old);
                assert(back_path(back@, pos as int) == back_path(back@, start as int).push((start as int, pos as int)));
                assert(back_path(back@, pos as int) + tail_old =~= back_path(back@, start as int) + tail_new);
            }
            pos = start;
        }
        assert(back_path(back@, 0) =~= Seq::<(int, int)>::empty());
        // Emit the segments left to right.
        let mut out: Vec<Segment> = Vec::new();
        let mut k: usize = rev.len();
        while k > 0
            invariant
                chars@ == input@,
                n == chars@.len(),
                self.wf(),
                k <= rev@.len(),
                full == back_path(back@, n as int),
                full.len() == rev@.len(),
                forall|j: int| 0 <= j < rev@.len() ==> (#[trigger] rev@[j]).0 as int == full[rev@.len() - 1 - j].0
                    && rev@[j].1 as int == full[rev@.len() - 1 - j].1,
                forall|kk: int| 0 <= kk < full.len() ==> 0 <= (#[trigger] full[kk]).0 < full[kk].1 <= n,
                out@.len() == rev@.len() - k,
                forall|kk: int| 0 <= kk < out@.len() ==> {
                    let b = #[trigger] full[kk];
                    &&& out@[kk].start == b.0
                    &&& out@[kk].len == b.1 - b.0
                    &&& out@[kk].reading@ == input@.subrange(b.0, b.1)
                    &&& out@[kk].candidates@ == sort_by_freq(self.with_reading(input@.subrange(b.0, b.1))).map_values(
                        |e: &DictionaryEntry| *e)
                },
            decreases k,
        {
            k -= 1;
            let (start, end) = rev[k];
            let ghost kk = out@.len() as int;
            assert(full[kk] == (start as int, end as int));
            assert(0 <= full[kk].0 < full[kk].1 <= n);
            let reading_chars = crate::text::chars_range(&chars, start, end);
            let reading = string_of(&reading_chars);
            let candidates = self.candidates_for(reading.as_str());
            let ghost prev = out@;
            out.push(Segment { reading, start, len: end - start, candidates });
            assert forall|j: int| 0 <= j < out@.len() implies {
                let b = #[trigger] full[j];
                &&& out@[j].start == b.0
                &&& out@[j].len == b.1 - b.0
                &&& out@[j].reading@ == input@.subrange(b.0, b.1)
                &&& out@[j].candidates@ == sort_by_freq(self.with_reading(input@.subrange(b.0, b.1))).map_values(
                    |e: &DictionaryEntry| *e)
            } by {
                if j < prev.len() {
                    assert(out@[j] == prev[j]);
                }
            }
        }
        out
    }

    /// The user-added entries (those after the built-in ones), in order.
    pub fn user_entries(&self) -> (r: Vec<DictionaryEntry>)
        requires
            self.wf(),
        ensures
            r@ == self.entries_view().skip(self.builtin_count() as int),
    {
        let mut r: Vec<DictionaryEntry> = Vec::new();
        let mut i = self.user_start;
        while i < self.entries.len()
            invariant
                self.user_start <= i <= self.entries@.len(),
                r@ == self.entries@.subrange(self.user_start as int, i as int),
            decreases self.entries.len() - i,
        {
            r.push(self.entries[i].clone());
            i += 1;
            assert(r@ =~= self.entries@.subrange(self.user_start as int, i as int));
        }
        assert(self.entries@.subrange(self.user_start as int, self.entries@.len() as int) =~= self.entries@.skip(self.user_start as int));
        r
    }

    /// All entries, built-in first, in insertion order.
    pub fn entries(&self) -> (r: &Vec<DictionaryEntry>)
        ensures
            r@ == self.entries_view(),
    {
        &self.entries
    }

    /// Total number of entries.
    pub fn len(&self) -> (r: usize)
        ensures
            r == self.entries_view().len(),
    {
        self.entries.len()
    }
}

} // verus!
