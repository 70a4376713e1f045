//! The last step of building the word list: words with the same reading,
//! surface and part of speech are merged into the one with the highest
//! frequency, and the list is ordered by frequency (highest first), then
//! reading, then surface, comparing strings by code point as `str` does.
//!
//! Both steps sort indices with a merge sort: first in an order that makes
//! words with the same key neighbours (highest frequency first among
//! them), then in the order of the list.
use vstd::prelude::*;
use crate::dictionary::PartOfSpeech;
use crate::dictgen::{gen_view, GenEntry, GenView};
use crate::text::{chars_eq, chars_of};

verus! {

broadcast use vstd::seq_lib::group_to_multiset_ensures, vstd::multiset::group_multiset_axioms;

// ---------------------------------------------------------------------------
// Orders
// ---------------------------------------------------------------------------

/// Strict lexicographic order of character sequences by code point (the
/// order of `str`).
pub open spec fn chars_lt(a: Seq<char>, b: Seq<char>) -> bool
    decreases a.len(),
{
    if b.len() == 0 {
        false
    } else if a.len() == 0 {
        true
    } else if a[0] < b[0] {
        true
    } else if a[0] == b[0] {
        chars_lt(a.drop_first(), b.drop_first())
    } else {
        false
    }
}

/// Position of a part of speech in declaration order.
pub open spec fn pos_rank(p: PartOfSpeech) -> int {
    match p {
        PartOfSpeech::Noun => 0,
        PartOfSpeech::Verb => 1,
        PartOfSpeech::Adjective => 2,
        PartOfSpeech::Adverb => 3,
        PartOfSpeech::Particle => 4,
        PartOfSpeech::Auxiliary => 5,
        PartOfSpeech::Conjunction => 6,
        PartOfSpeech::Interjection => 7,
        PartOfSpeech::Prefix => 8,
        PartOfSpeech::Suffix => 9,
        PartOfSpeech::Other => 10,
    }
}

/// Two words that are merged into one: same reading, surface and part of speech.
pub open spec fn same_key(a: GenView, b: GenView) -> bool {
    a.0 == b.0 && a.1 == b.1 && a.2 == b.2
}

/// Grouping order: reading, surface, part of speech, then the higher frequency first.
pub open spec fn group_le(a: GenView, b: GenView) -> bool {
    ||| chars_lt(a.0, b.0)
    ||| a.0 == b.0 && chars_lt(a.1, b.1)
    ||| a.0 == b.0 && a.1 == b.1 && pos_rank(a.2) < pos_rank(b.2)
    ||| same_key(a, b) && a.3 >= b.3
}

/// Order of the word list: higher frequency first, then reading, then surface.
pub open spec fn list_le(a: GenView, b: GenView) -> bool {
    ||| a.3 > b.3
    ||| a.3 == b.3 && chars_lt(a.0, b.0)
    ||| a.3 == b.3 && a.0 == b.0 && (chars_lt(a.1, b.1) || a.1 == b.1)
}

/// The list order (`by_list`) or the grouping order.
pub open spec fn ordered(by_list: bool, a: GenView, b: GenView) -> bool {
    if by_list {
        list_le(a, b)
    } else {
        group_le(a, b)
    }
}

/// `out` is `input` with duplicates merged, in list order: every word of
/// `out` comes from `input`, every word of `input` has a word of `out` with
/// its key and at least its frequency, no two words of `out` share a key,
/// and `out` is ordered.
pub open spec fn deduped(input: Seq<GenView>, out: Seq<GenView>) -> bool {
    &&& forall|i: int| 0 <= i < out.len() ==> input.contains(#[trigger] out[i])
    &&& forall|m: int| 0 <= m < input.len() ==> covered(out, #[trigger] input[m])
    &&& forall|i: int, j: int| 0 <= i < j < out.len() ==> !same_key(#[trigger] out[i], #[trigger] out[j])
    &&& forall|i: int, j: int| 0 <= i < j < out.len() ==> list_le(#[trigger] out[i], #[trigger] out[j])
}

/// Some word of `out` has the key of `e` and at least its frequency.
pub open spec fn covered(out: Seq<GenView>, e: GenView) -> bool {
    exists|i: int| 0 <= i < out.len() && same_key(#[trigger] out[i], e) && out[i].3 >= e.3
}

/// The words of a list as plain values.
pub open spec fn views(v: Seq<GenEntry>) -> Seq<GenView> {
    v.map_values(|e: GenEntry| gen_view(e))
}

proof fn lemma_chars_lt_irrefl(a: Seq<char>)
    ensures
        !chars_lt(a, a),
    decreases a.len(),
{
    if a.len() > 0 {
        lemma_chars_lt_irrefl(a.drop_first());
    }
}

proof fn lemma_chars_lt_trans(a: Seq<char>, b: Seq<char>, c: Seq<char>)
    requires
        chars_lt(a, b),
        chars_lt(b, c),
    ensures
        chars_lt(a, c),
    decreases a.len(),
{
    if a.len() > 0 && b.len() > 0 && c.len() > 0 && a[0] == b[0] && b[0] == c[0] {
        lemma_chars_lt_trans(a.drop_first(), b.drop_first(), c.drop_first());
    }
}

proof fn lemma_chars_lt_total(a: Seq<char>, b: Seq<char>)
    ensures
        a == b || chars_lt(a, b) || chars_lt(b, a),
    decreases a.len(),
{
    if a.len() > 0 && b.len() > 0 && a[0] == b[0] {
        lemma_chars_lt_total(a.drop_first(), b.drop_first());
        if a.drop_first() == b.drop_first() {
            assert forall|i: int| 0 <= i < a.len() implies a[i] == b[i] by {
                if i > 0 {
                    assert(a[i] == a.drop_first()[i - 1]);
                    assert(b[i] == b.drop_first()[i - 1]);
                }
            }
            assert(a =~= b);
        }
    } else if a.len() == 0 && b.len() == 0 {
        assert(a =~= b);
    }
}

proof fn lemma_pos_rank_injective(p: PartOfSpeech, q: PartOfSpeech)
    requires
        pos_rank(p) == pos_rank(q),
    ensures
        p == q,
{
}

/// Both orders are total.
proof fn lemma_ordered_total(by_list: bool, a: GenView, b: GenView)
    ensures
        ordered(by_list, a, b) || ordered(by_list, b, a),
{
    lemma_chars_lt_total(a.0, b.0);
    lemma_chars_lt_total(a.1, b.1);
    if pos_rank(a.2) == pos_rank(b.2) {
        lemma_pos_rank_injective(a.2, b.2);
    }
}

/// Both orders are transitive.
proof fn lemma_ordered_trans(by_list: bool, a: GenView, b: GenView, c: GenView)
    requires
        ordered(by_list, a, b),
        ordered(by_list, b, c),
    ensures
        ordered(by_list, a, c),
{
    if chars_lt(a.0, b.0) && chars_lt(b.0, c.0) {
        lemma_chars_lt_trans(a.0, b.0, c.0);
    }
    if chars_lt(a.1, b.1) && chars_lt(b.1, c.1) {
        lemma_chars_lt_trans(a.1, b.1, c.1);
    }
}

/// In the grouping order, what lies between two words with one key has that key too.
proof fn lemma_group_between(a: GenView, b: GenView, c: GenView)
    requires
        group_le(a, b),
        group_le(b, c),
        same_key(a, c),
    ensures
        same_key(a, b),
{
    if chars_lt(a.0, b.0) {
        if chars_lt(b.0, c.0) {
            lemma_chars_lt_trans(a.0, b.0, c.0);
        }
        lemma_chars_lt_irrefl(a.0);
        if b.0 == c.0 {
        }
    } else if a.0 == b.0 && chars_lt(a.1, b.1) {
        if b.0 == c.0 && chars_lt(b.1, c.1) {
            lemma_chars_lt_trans(a.1, b.1, c.1);
        }
        lemma_chars_lt_irrefl(a.1);
        if chars_lt(b.0, c.0) {
            lemma_chars_lt_irrefl(a.0);
        }
    } else if a.0 == b.0 && a.1 == b.1 && pos_rank(a.2) < pos_rank(b.2) {
        if chars_lt(b.0, c.0) {
            lemma_chars_lt_irrefl(a.0);
        }
        if b.0 == c.0 && chars_lt(b.1, c.1) {
            lemma_chars_lt_irrefl(a.1);
        }
    }
}

// ---------------------------------------------------------------------------
// Comparing
// ---------------------------------------------------------------------------

/// A word with its strings as character vectors, for comparing.
struct Keyed {
    reading: Vec<char>,
    surface: Vec<char>,
    pos: PartOfSpeech,
    frequency: u32,
}

spec fn kv(k: Keyed) -> GenView {
    (k.reading@, k.surface@, k.pos, k.frequency)
}

/// Whether `a` comes before `b` by code point.
fn chars_less(a: &Vec<char>, b: &Vec<char>) -> (r: bool)
    ensures
        r == chars_lt(a@, b@),
{
    let mut i: usize = 0;
    assert(a@.skip(0) =~= a@);
    assert(b@.skip(0) =~= b@);
    while i < a.len() && i < b.len()
        invariant
            i <= a.len(),
            i <= b.len(),
            chars_lt(a@, b@) == chars_lt(a@.skip(i as int), b@.skip(i as int)),
        decreases a.len() - i,
    {
        assert(a@.skip(i as int)[0] == a@[i as int]);
        assert(b@.skip(i as int)[0] == b@[i as int]);
        if a[i] < b[i] {
            return true;
        }
        if a[i] != b[i] {
            return false;
        }
        assert(a@.skip(i as int).drop_first() =~= a@.skip(i + 1));
        assert(b@.skip(i as int).drop_first() =~= b@.skip(i + 1));
        i += 1;
    }
    i < b.len()
}

fn pos_rank_of(p: PartOfSpeech) -> (r: u8)
    ensures
        r as int == pos_rank(p),
{
    match p {
        PartOfSpeech::Noun => 0,
        PartOfSpeech::Verb => 1,
        PartOfSpeech::Adjective => 2,
        PartOfSpeech::Adverb => 3,
        PartOfSpeech::Particle => 4,
        PartOfSpeech::Auxiliary => 5,
        PartOfSpeech::Conjunction => 6,
        PartOfSpeech::Interjection => 7,
        PartOfSpeech::Prefix => 8,
        PartOfSpeech::Suffix => 9,
        PartOfSpeech::Other => 10,
    }
}

fn in_order(by_list: bool, a: &Keyed, b: &Keyed) -> (r: bool)
    ensures
        r == ordered(by_list, kv(*a), kv(*b)),
{
    let same_reading = chars_eq(&a.reading, &b.reading);
    let same_surface = chars_eq(&a.surface, &b.surface);
    if by_list {
        if a.frequency != b.frequency {
            return a.frequency > b.frequency;
        }
        if chars_less(&a.reading, &b.reading) {
            return true;
        }
        same_reading && (same_surface || chars_less(&a.surface, &b.surface))
    } else {
        if chars_less(&a.reading, &b.reading) {
            return true;
        }
        if !same_reading {
            return false;
        }
        if chars_less(&a.surface, &b.surface) {
            return true;
        }
        if !same_surface {
            return false;
        }
        let ra = pos_rank_of(a.pos);
        let rb = pos_rank_of(b.pos);
        if ra < rb {
            return true;
        }
        if ra != rb {
            return false;
        }
        proof {
            lemma_pos_rank_injective(a.pos, b.pos);
        }
        a.frequency >= b.frequency
    }
}

// ---------------------------------------------------------------------------
// Sorting indices
// ---------------------------------------------------------------------------

spec fn ord_at(keys: Seq<Keyed>, by_list: bool, x: usize, y: usize) -> bool {
    ordered(by_list, kv(keys[x as int]), kv(keys[y as int]))
}

spec fn sorted_by(keys: Seq<Keyed>, by_list: bool, s: Seq<usize>) -> bool {
    forall|i: int, j: int| 0 <= i < j < s.len() ==> ord_at(keys, by_list, #[trigger] s[i], #[trigger] s[j])
}

spec fn in_bounds(n: nat, s: Seq<usize>) -> bool {
    forall|i: int| 0 <= i < s.len() ==> #[trigger] s[i] < n
}

proof fn lemma_ord_at_trans(keys: Seq<Keyed>, by_list: bool, x: usize, y: usize, z: usize)
    requires
        ord_at(keys, by_list, x, y),
        ord_at(keys, by_list, y, z),
    ensures
        ord_at(keys, by_list, x, z),
{
    lemma_ordered_trans(by_list, kv(keys[x as int]), kv(keys[y as int]), kv(keys[z as int]));
}

/// Merges two sorted index lists.
fn merge(keys: &Vec<Keyed>, by_list: bool, left: &Vec<usize>, right: &Vec<usize>) -> (r: Vec<usize>)
    requires
        in_bounds(keys.len() as nat, left@),
        in_bounds(keys.len() as nat, right@),
        sorted_by(keys@, by_list, left@),
        sorted_by(keys@, by_list, right@),
    ensures
        in_bounds(keys.len() as nat, r@),
        sorted_by(keys@, by_list, r@),
        r@.to_multiset() == left@.to_multiset().add(right@.to_multiset()),
{
    let mut out: Vec<usize> = Vec::new();
    let mut i: usize = 0;
    let mut j: usize = 0;
    while i < left.len() || j < right.len()
        invariant
            i <= left.len(),
            j <= right.len(),
            in_bounds(keys.len() as nat, left@),
            in_bounds(keys.len() as nat, right@),
            sorted_by(keys@, by_list, left@),
            sorted_by(keys@, by_list, right@),
            in_bounds(keys.len() as nat, out@),
            sorted_by(keys@, by_list, out@),
            out@.to_multiset() == left@.subrange(0, i as int).to_multiset().add(
                right@.subrange(0, j as int).to_multiset(),
            ),
            i < left.len() ==> forall|k: int|
                0 <= k < out.len() ==> ord_at(keys@, by_list, #[trigger] out@[k], left@[i as int]),
            j < right.len() ==> forall|k: int|
                0 <= k < out.len() ==> ord_at(keys@, by_list, #[trigger] out@[k], right@[j as int]),
        decreases left.len() + right.len() - i - j,
    {
        let take_left = if i < left.len() && j < right.len() {
            in_order(by_list, &keys[left[i]], &keys[right[j]])
        } else {
            i < left.len()
        };
        if take_left {
            let x = left[i];
            proof {
                if j < right.len() {
                    assert(ord_at(keys@, by_list, x, right@[j as int]));
                }
                assert(left@.subrange(0, i + 1) =~= left@.subrange(0, i as int).push(x));
            }
            out.push(x);
            i += 1;
            proof {
                assert forall|a: int, b: int| 0 <= a < b < out.len() implies ord_at(
                    keys@,
                    by_list,
                    #[trigger] out@[a],
                    #[trigger] out@[b],
                ) by {
                    if b == out.len() - 1 {
                        assert(out@[b] == x);
                    } else {
                        assert(out@[a] == out@.drop_last()[a]);
                        assert(out@[b] == out@.drop_last()[b]);
                    }
                }
                if i < left.len() {
                    assert forall|k: int| 0 <= k < out.len() implies ord_at(
                        keys@,
                        by_list,
                        #[trigger] out@[k],
                        left@[i as int],
                    ) by {
                        assert(ord_at(keys@, by_list, x, left@[i as int]));
                        if k < out.len() - 1 {
                            assert(out@[k] == out@.drop_last()[k]);
                            lemma_ord_at_trans(keys@, by_list, out@[k], x, left@[i as int]);
                        }
                    }
                }
                if j < right.len() {
                    assert forall|k: int| 0 <= k < out.len() implies ord_at(
                        keys@,
                        by_list,
                        #[trigger] out@[k],
                        right@[j as int],
                    ) by {
                        if k < out.len() - 1 {
                            assert(out@[k] == out@.drop_last()[k]);
                        }
                    }
                }
            }
        } else {
            let y = right[j];
            proof {
                if i < left.len() {
                    lemma_ordered_total(by_list, kv(keys@[left@[i as int] as int]), kv(keys@[y as int]));
                    assert(ord_at(keys@, by_list, y, left@[i as int]));
                }
                assert(right@.subrange(0, j + 1) =~= right@.subrange(0, j as int).push(y));
            }
            out.push(y);
            j += 1;
            proof {
                assert forall|a: int, b: int| 0 <= a < b < out.len() implies ord_at(
                    keys@,
                    by_list,
                    #[trigger] out@[a],
                    #[trigger] out@[b],
                ) by {
                    if b == out.len() - 1 {
                        assert(out@[b] == y);
                    } else {
                        assert(out@[a] == out@.drop_last()[a]);
                        assert(out@[b] == out@.drop_last()[b]);
                    }
                }
                if j < right.len() {
                    assert forall|k: int| 0 <= k < out.len() implies ord_at(
                        keys@,
                        by_list,
                        #[trigger] out@[k],
                        right@[j as int],
                    ) by {
                        assert(ord_at(keys@, by_list, y, right@[j as int]));
                        if k < out.len() - 1 {
                            assert(out@[k] == out@.drop_last()[k]);
                            lemma_ord_at_trans(keys@, by_list, out@[k], y, right@[j as int]);
                        }
                    }
                }
                if i < left.len() {
                    assert forall|k: int| 0 <= k < out.len() implies ord_at(
                        keys@,
                        by_list,
                        #[trigger] out@[k],
                        left@[i as int],
                    ) by {
                        if k < out.len() - 1 {
                            assert(out@[k] == out@.drop_last()[k]);
                        }
                    }
                }
            }
        }
    }
    assert(left@.subrange(0, left.len() as int) =~= left@);
    assert(right@.subrange(0, right.len() as int) =~= right@);
    out
}

/// Sorts the indices `idx[lo..hi]`.
fn sort_range(keys: &Vec<Keyed>, by_list: bool, idx: &Vec<usize>, lo: usize, hi: usize) -> (r: Vec<usize>)
    requires
        lo <= hi <= idx.len(),
        in_bounds(keys.len() as nat, idx@),
    ensures
        in_bounds(keys.len() as nat, r@),
        sorted_by(keys@, by_list, r@),
        r@.to_multiset() == idx@.subrange(lo as int, hi as int).to_multiset(),
    decreases hi - lo,
{
    if hi - lo <= 1 {
        let mut r: Vec<usize> = Vec::new();
        if hi - lo == 1 {
            r.push(idx[lo]);
        }
        assert(r@ =~= idx@.subrange(lo as int, hi as int));
        return r;
    }
    let mid = lo + (hi - lo) / 2;
    let left = sort_range(keys, by_list, idx, lo, mid);
    let right = sort_range(keys, by_list, idx, mid, hi);
    let r = merge(keys, by_list, &left, &right);
    proof {
        let s = idx@.subrange(lo as int, hi as int);
        assert(s =~= idx@.subrange(lo as int, mid as int) + idx@.subrange(mid as int, hi as int));
        vstd::seq_lib::lemma_multiset_commutative(
            idx@.subrange(lo as int, mid as int),
            idx@.subrange(mid as int, hi as int),
        );
    }
    r
}

/// Sorts a list of indices.
fn sort_indices(keys: &Vec<Keyed>, by_list: bool, idx: &Vec<usize>) -> (r: Vec<usize>)
    requires
        in_bounds(keys.len() as nat, idx@),
    ensures
        in_bounds(keys.len() as nat, r@),
        sorted_by(keys@, by_list, r@),
        r@.to_multiset() == idx@.to_multiset(),
{
    let r = sort_range(keys, by_list, idx, 0, idx.len());
    assert(idx@.subrange(0, idx.len() as int) =~= idx@);
    r
}

} // verus!

verus! {

// ---------------------------------------------------------------------------
// Merging duplicates
// ---------------------------------------------------------------------------

spec fn key_at(keys: Seq<Keyed>, x: usize) -> GenView {
    kv(keys[x as int])
}

/// Some index of `win` has the key of `x` and at least its frequency.
spec fn covered_at(keys: Seq<Keyed>, win: Seq<usize>, x: usize) -> bool {
    exists|w: int|
        0 <= w < win.len() && same_key(key_at(keys, #[trigger] win[w]), key_at(keys, x))
            && key_at(keys, win[w]).3 >= key_at(keys, x).3
}

spec fn distinct_keys(keys: Seq<Keyed>, win: Seq<usize>) -> bool {
    forall|a: int, b: int|
        0 <= a < b < win.len() ==> !same_key(key_at(keys, #[trigger] win[a]), key_at(keys, #[trigger] win[b]))
}

/// Within one key, the grouping order puts the higher frequency first.
proof fn lemma_group_same_key(a: GenView, c: GenView)
    requires
        group_le(a, c),
        same_key(a, c),
    ensures
        a.3 >= c.3,
{
    lemma_chars_lt_irrefl(a.0);
    lemma_chars_lt_irrefl(a.1);
}

fn same_key_exec(a: &Keyed, b: &Keyed) -> (r: bool)
    ensures
        r == same_key(kv(*a), kv(*b)),
{
    chars_eq(&a.reading, &b.reading) && chars_eq(&a.surface, &b.surface) && a.pos == b.pos
}

/// Keeps the first index of each run of one key in `ord`, which is sorted
/// in the grouping order: that index has the highest frequency of its run.
fn first_of_groups(keys: &Vec<Keyed>, ord: &Vec<usize>) -> (win: Vec<usize>)
    requires
        in_bounds(keys.len() as nat, ord@),
        sorted_by(keys@, false, ord@),
    ensures
        in_bounds(keys.len() as nat, win@),
        forall|p: int| 0 <= p < ord.len() ==> covered_at(keys@, win@, #[trigger] ord@[p]),
        distinct_keys(keys@, win@),
{
    let mut win: Vec<usize> = Vec::new();
    let ghost mut starts: Seq<int> = Seq::empty();
    let mut q: usize = 0;
    while q < ord.len()
        invariant
            q <= ord.len(),
            in_bounds(keys.len() as nat, ord@),
            sorted_by(keys@, false, ord@),
            win.len() == starts.len(),
            forall|w: int|
                0 <= w < win.len() ==> 0 <= #[trigger] starts[w] < q && win@[w] == ord@[starts[w]],
            q > 0 ==> win.len() > 0 && same_key(
                key_at(keys@, win@[win.len() - 1]),
                key_at(keys@, ord@[q - 1]),
            ) && starts[win.len() - 1] < q,
            forall|p: int| 0 <= p < q ==> covered_at(keys@, win@, #[trigger] ord@[p]),
            distinct_keys(keys@, win@),
            in_bounds(keys.len() as nat, win@),
        decreases ord.len() - q,
    {
        let x = ord[q];
        let new_group = q == 0 || !same_key_exec(&keys[ord[q - 1]], &keys[x]);
        let ghost old_win = win@;
        if new_group {
            proof {
                assert forall|w: int| 0 <= w < win.len() implies !same_key(
                    key_at(keys@, #[trigger] win@[w]),
                    key_at(keys@, x),
                ) by {
                    let s = starts[w];
                    if same_key(key_at(keys@, win@[w]), key_at(keys@, x)) {
                        let a = key_at(keys@, ord@[s]);
                        let b = key_at(keys@, ord@[q - 1]);
                        let c = key_at(keys@, x);
                        assert(ord_at(keys@, false, ord@[q - 1], ord@[q as int]));
                        if s < q - 1 {
                            assert(ord_at(keys@, false, ord@[s], ord@[q - 1]));
                            lemma_group_between(a, b, c);
                        }
                        assert(same_key(b, c));
                    }
                }
            }
            win.push(x);
            proof {
                starts = starts.push(q as int);
                assert forall|a: int, b: int| 0 <= a < b < win.len() implies !same_key(
                    key_at(keys@, #[trigger] win@[a]),
                    key_at(keys@, #[trigger] win@[b]),
                ) by {
                    if b < win.len() - 1 {
                        assert(win@[a] == old_win[a] && win@[b] == old_win[b]);
                    } else {
                        assert(win@[a] == old_win[a]);
                    }
                }
                assert(covered_at(keys@, win@, x)) by {
                    assert(win@[win.len() - 1] == x);
                }
            }
        } else {
            proof {
                let l = win.len() - 1;
                let s = starts[l];
                let a = key_at(keys@, ord@[s]);
                let c = key_at(keys@, x);
                assert(ord_at(keys@, false, ord@[s], ord@[q as int]));
                assert(same_key(a, c));
                lemma_group_same_key(a, c);
                assert(covered_at(keys@, win@, x)) by {
                    assert(win@[l] == ord@[s]);
                }
            }
        }
        proof {
            assert forall|p: int| 0 <= p < q implies covered_at(keys@, win@, #[trigger] ord@[p]) by {
                let y = ord@[p];
                assert(covered_at(keys@, old_win, y));
                let w = choose|w: int|
                    0 <= w < old_win.len() && same_key(key_at(keys@, #[trigger] old_win[w]), key_at(keys@, y))
                        && key_at(keys@, old_win[w]).3 >= key_at(keys@, y).3;
                assert(win@[w] == old_win[w]);
            }
        }
        q += 1;
    }
    win
}

/// Merges the words with the same reading, surface and part of speech into
/// the one with the highest frequency and orders the list by frequency
/// (highest first), then reading, then surface.
pub fn dedup_and_sort(entries: Vec<GenEntry>) -> (r: Vec<GenEntry>)
    ensures
        deduped(views(entries@), views(r@)),
{
    let mut keys: Vec<Keyed> = Vec::new();
    let mut idx: Vec<usize> = Vec::new();
    let mut i: usize = 0;
    while i < entries.len()
        invariant
            i <= entries.len(),
            keys.len() == i,
            idx.len() == i,
            forall|k: int| 0 <= k < i ==> #[trigger] idx@[k] == k,
            forall|k: int| 0 <= k < i ==> kv(#[trigger] keys@[k]) == gen_view(entries@[k]),
        decreases entries.len() - i,
    {
        let e = &entries[i];
        keys.push(
            Keyed {
                reading: chars_of(e.reading.as_str()),
                surface: chars_of(e.surface.as_str()),
                pos: e.pos,
                frequency: e.frequency,
            },
        );
        idx.push(i);
        i += 1;
    }
    let ord = sort_indices(&keys, false, &idx);
    let win = first_of_groups(&keys, &ord);
    let fin = sort_indices(&keys, true, &win);
    let mut r: Vec<GenEntry> = Vec::new();
    let mut k: usize = 0;
    while k < fin.len()
        invariant
            k <= fin.len(),
            in_bounds(keys.len() as nat, fin@),
            keys.len() == entries.len(),
            r.len() == k,
            forall|t: int| 0 <= t < k ==> gen_view(#[trigger] r@[t]) == gen_view(entries@[fin@[t] as int]),
        decreases fin.len() - k,
    {
        r.push(entries[fin[k]].clone());
        k += 1;
    }
    proof {
        lemma_dedup_result(keys@, entries@, idx@, ord@, win@, fin@, r@);
    }
    r
}

proof fn lemma_dedup_result(
    keys: Seq<Keyed>,
    entries: Seq<GenEntry>,
    idx: Seq<usize>,
    ord: Seq<usize>,
    win: Seq<usize>,
    fin: Seq<usize>,
    r: Seq<GenEntry>,
)
    requires
        keys.len() == entries.len(),
        idx.len() == entries.len(),
        forall|k: int| 0 <= k < idx.len() ==> #[trigger] idx[k] == k,
        forall|k: int| 0 <= k < keys.len() ==> kv(#[trigger] keys[k]) == gen_view(entries[k]),
        in_bounds(keys.len() as nat, ord),
        ord.to_multiset() == idx.to_multiset(),
        in_bounds(keys.len() as nat, win),
        forall|p: int| 0 <= p < ord.len() ==> covered_at(keys, win, #[trigger] ord[p]),
        distinct_keys(keys, win),
        in_bounds(keys.len() as nat, fin),
        sorted_by(keys, true, fin),
        fin.to_multiset() == win.to_multiset(),
        r.len() == fin.len(),
        forall|t: int| 0 <= t < r.len() ==> gen_view(#[trigger] r[t]) == gen_view(entries[fin[t] as int]),
    ensures
        deduped(views(entries), views(r)),
{
    let e = views(entries);
    let o = views(r);
    assert forall|t: int| 0 <= t < o.len() implies e.contains(#[trigger] o[t]) by {
        assert(e[fin[t] as int] == o[t]);
    }
    assert forall|m: int| 0 <= m < e.len() implies covered(o, #[trigger] e[m]) by {
        let mu = m as usize;
        assert(idx[m] == mu);
        assert(idx.contains(mu));
        assert(ord.to_multiset().count(mu) > 0);
        assert(ord.contains(mu));
        let p = choose|p: int| 0 <= p < ord.len() && ord[p] == mu;
        assert(covered_at(keys, win, ord[p]));
        let w = choose|w: int|
            0 <= w < win.len() && same_key(key_at(keys, #[trigger] win[w]), key_at(keys, mu))
                && key_at(keys, win[w]).3 >= key_at(keys, mu).3;
        assert(win.contains(win[w]));
        assert(fin.to_multiset().count(win[w]) > 0);
        assert(fin.contains(win[w]));
        let t = choose|t: int| 0 <= t < fin.len() && fin[t] == win[w];
        assert(o[t] == gen_view(r[t]));
        assert(key_at(keys, mu) == e[m]);
    }
    assert(win.no_duplicates()) by {
        assert forall|a: int, b: int| 0 <= a < win.len() && 0 <= b < win.len() && a != b implies win[a] != win[b] by {
            if a < b {
                assert(!same_key(key_at(keys, win[a]), key_at(keys, win[b])));
            } else {
                assert(!same_key(key_at(keys, win[b]), key_at(keys, win[a])));
            }
        }
    }
    win.lemma_multiset_has_no_duplicates();
    fin.lemma_multiset_has_no_duplicates_conv();
    assert forall|i: int, j: int| 0 <= i < j < o.len() implies !same_key(#[trigger] o[i], #[trigger] o[j]) by {
        assert(fin.contains(fin[i]) && fin.contains(fin[j]));
        assert(win.to_multiset().count(fin[i]) > 0);
        assert(win.to_multiset().count(fin[j]) > 0);
        assert(win.contains(fin[i]) && win.contains(fin[j]));
        let a = choose|a: int| 0 <= a < win.len() && win[a] == fin[i];
        let b = choose|b: int| 0 <= b < win.len() && win[b] == fin[j];
        assert(fin[i] != fin[j]);
        assert(o[i] == key_at(keys, fin[i]));
        assert(o[j] == key_at(keys, fin[j]));
        if a < b {
            assert(!same_key(key_at(keys, win[a]), key_at(keys, win[b])));
        } else {
            assert(!same_key(key_at(keys, win[b]), key_at(keys, win[a])));
        }
    }
    assert forall|i: int, j: int| 0 <= i < j < o.len() implies list_le(#[trigger] o[i], #[trigger] o[j]) by {
        assert(ord_at(keys, true, fin[i], fin[j]));
        assert(o[i] == key_at(keys, fin[i]));
        assert(o[j] == key_at(keys, fin[j]));
    }
}

/// Law: after merging, each word has the highest frequency among the input
/// words with its key.
pub proof fn lemma_dedup_keeps_highest(input: Seq<GenView>, out: Seq<GenView>, i: int, m: int)
    requires
        deduped(input, out),
        0 <= i < out.len(),
        0 <= m < input.len(),
        same_key(out[i], input[m]),
    ensures
        out[i].3 >= input[m].3,
{
    assert(covered(out, input[m]));
    let k = choose|k: int| 0 <= k < out.len() && same_key(#[trigger] out[k], input[m]) && out[k].3 >= input[m].3;
    if k < i {
        assert(!same_key(out[k], out[i]));
    } else if i < k {
        assert(!same_key(out[i], out[k]));
    }
}

} // verus!
