//! Small conversions between string types and character vectors, and
//! splitting text into lines.
use vstd::prelude::*;

verus! {

/// Collects the characters of a string slice.
pub fn chars_of(s: &str) -> (v: Vec<char>)
    ensures
        v@ == s@,
{
    let mut v: Vec<char> = Vec::new();
    for c in it: s.chars()
        invariant
            v@ == it.seq().take(it.index() as int),
            it.seq() == s@,
    {
        v.push(c);
    }
    v
}

/// Appends one character to a `String` (`String::push`).
/// Trusted: the result's characters are the old ones followed by `c`,
/// as the standard library documents for `push`.
#[verifier::external_body]
pub fn push_char(s: &mut String, c: char)
    ensures
        final(s)@ == old(s)@.push(c),
{
    s.push(c);
}

/// Builds a `String` holding the given characters in order.
pub fn string_of(v: &Vec<char>) -> (s: String)
    ensures
        s@ == v@,
{
    let mut s = String::new();
    let mut i: usize = 0;
    while i < v.len()
        invariant
            i <= v.len(),
            s@ == v@.take(i as int),
        decreases v.len() - i,
    {
        push_char(&mut s, v[i]);
        i += 1;
        assert(s@ == v@.take(i as int));
    }
    assert(v@.take(v.len() as int) == v@);
    s
}

/// Whether two character vectors hold the same characters.
pub fn chars_eq(a: &Vec<char>, b: &Vec<char>) -> (r: bool)
    ensures
        r == (a@ == b@),
{
    if a.len() != b.len() {
        return false;
    }
    let mut i: usize = 0;
    while i < a.len()
        invariant
            a.len() == b.len(),
            i <= a.len(),
            forall|j: int| 0 <= j < i ==> a@[j] == b@[j],
        decreases a.len() - i,
    {
        if a[i] != b[i] {
            return false;
        }
        i += 1;
    }
    assert(a@ =~= b@);
    true
}

/// Whether `p` is a prefix of `t`.
pub open spec fn starts_with(t: Seq<char>, p: Seq<char>) -> bool {
    p.len() <= t.len() && t.subrange(0, p.len() as int) == p
}

/// Whether the characters of `p` are a prefix of those of `t`.
pub fn chars_starts_with(t: &Vec<char>, p: &Vec<char>) -> (r: bool)
    ensures
        r == starts_with(t@, p@),
{
    if p.len() > t.len() {
        return false;
    }
    let mut i: usize = 0;
    while i < p.len()
        invariant
            p.len() <= t.len(),
            i <= p.len(),
            forall|j: int| 0 <= j < i ==> t@[j] == p@[j],
        decreases p.len() - i,
    {
        if t[i] != p[i] {
            assert(t@.subrange(0, p.len() as int)[i as int] == t@[i as int]);
            return false;
        }
        i += 1;
    }
    assert(t@.subrange(0, p.len() as int) =~= p@);
    true
}

/// Appends all characters of `src` to `dst`.
pub fn append_chars(dst: &mut Vec<char>, src: &Vec<char>)
    ensures
        final(dst)@ == old(dst)@ + src@,
{
    let mut i: usize = 0;
    while i < src.len()
        invariant
            i <= src.len(),
            dst@ == old(dst)@ + src@.take(i as int),
        decreases src.len() - i,
    {
        dst.push(src[i]);
        i += 1;
        assert(dst@ =~= old(dst)@ + src@.take(i as int));
    }
    assert(src@.take(src.len() as int) == src@);
}

/// Copies a subrange `[from, to)` of a character vector.
pub fn chars_range(v: &Vec<char>, from: usize, to: usize) -> (r: Vec<char>)
    requires
        from <= to <= v.len(),
    ensures
        r@ == v@.subrange(from as int, to as int),
{
    let mut r: Vec<char> = Vec::new();
    let mut i = from;
    while i < to
        invariant
            from <= i <= to <= v.len(),
            r@ == v@.subrange(from as int, i as int),
        decreases to - i,
    {
        r.push(v[i]);
        i += 1;
        assert(r@ =~= v@.subrange(from as int, i as int));
    }
    r
}

} // verus!

verus! {

/// Whether `v` is a Unicode scalar value (a valid `char`).
pub open spec fn is_scalar(v: u32) -> bool {
    v <= 0x10FFFF && !(0xD800 <= v && v <= 0xDFFF)
}

/// `char::from_u32`. Trusted: as the standard library documents, the
/// result is the character with code `v` exactly when `v` is a Unicode
/// scalar value, and `None` otherwise.
#[verifier::external_body]
pub fn char_from_u32(v: u32) -> (r: Option<char>)
    ensures
        is_scalar(v) ==> r == Some(v as char),
        !is_scalar(v) ==> r is None,
{
    char::from_u32(v)
}


/// The pieces of `s[..n]` between line feeds (`str::split('\n')`).
pub open spec fn pieces_upto(s: Seq<char>, n: int) -> Seq<Seq<char>>
    decreases n,
{
    if n <= 0 {
        seq![Seq::<char>::empty()]
    } else {
        let f = pieces_upto(s, n - 1);
        if s[n - 1] == '\n' {
            f.push(Seq::empty())
        } else {
            f.update(f.len() - 1, f.last().push(s[n - 1]))
        }
    }
}

proof fn lemma_pieces_nonempty(s: Seq<char>, n: int)
    ensures
        pieces_upto(s, n).len() >= 1,
    decreases n,
{
    if n > 0 {
        lemma_pieces_nonempty(s, n - 1);
    }
}

/// A line without the carriage return that ended it.
pub open spec fn strip_cr(l: Seq<char>) -> Seq<char> {
    if l.len() > 0 && l.last() == '\r' {
        l.drop_last()
    } else {
        l
    }
}

/// The lines of a text as `str::lines` gives them: split at line feeds,
/// with a carriage return right before a line feed dropped, and no empty
/// line after a final line feed.
pub open spec fn text_lines(s: Seq<char>) -> Seq<Seq<char>> {
    let p = pieces_upto(s, s.len() as int);
    let body = p.drop_last().map_values(|l: Seq<char>| strip_cr(l));
    if p.last().len() == 0 {
        body
    } else {
        body.push(p.last())
    }
}

/// Splits a text into pieces at line feeds.
fn split_pieces(cs: &Vec<char>) -> (r: Vec<Vec<char>>)
    ensures
        r@.map_values(|v: Vec<char>| v@) == pieces_upto(cs@, cs@.len() as int),
{
    let mut out: Vec<Vec<char>> = Vec::new();
    let mut cur: Vec<char> = Vec::new();
    let mut i: usize = 0;
    while i < cs.len()
        invariant
            i <= cs@.len(),
            out@.map_values(|v: Vec<char>| v@).push(cur@) == pieces_upto(cs@, i as int),
        decreases cs.len() - i,
    {
        proof {
            lemma_pieces_nonempty(cs@, i as int);
        }
        let ghost before = out@.map_values(|v: Vec<char>| v@).push(cur@);
        if cs[i] == '\n' {
            out.push(cur);
            cur = Vec::new();
            assert(out@.map_values(|v: Vec<char>| v@).push(cur@) =~= before.push(Seq::empty()));
        } else {
            cur.push(cs[i]);
            assert(out@.map_values(|v: Vec<char>| v@).push(cur@) =~= before.update(
                before.len() - 1,
                before.last().push(cs@[i as int]),
            ));
        }
        i += 1;
    }
    out.push(cur);
    out
}

/// The lines of a text (see `text_lines`).
pub fn split_lines(cs: &Vec<char>) -> (r: Vec<Vec<char>>)
    ensures
        r@.map_values(|v: Vec<char>| v@) == text_lines(cs@),
{
    let pieces = split_pieces(cs);
    let ghost p = pieces_upto(cs@, cs@.len() as int);
    proof {
        lemma_pieces_nonempty(cs@, cs@.len() as int);
    }
    assert(pieces@.len() == p.len());
    let last = pieces.len() - 1;
    let mut lines: Vec<Vec<char>> = Vec::new();
    let mut t: usize = 0;
    while t < last
        invariant
            last == pieces@.len() - 1,
            t <= last,
            pieces@.map_values(|v: Vec<char>| v@) == p,
            lines@.map_values(|v: Vec<char>| v@) == p.drop_last().map_values(|l: Seq<char>| strip_cr(l)).take(
                t as int,
            ),
        decreases last - t,
    {
        let piece = &pieces[t];
        assert(piece@ == p[t as int]);
        let line = if piece.len() > 0 && piece[piece.len() - 1] == '\r' {
            chars_range(piece, 0, piece.len() - 1)
        } else {
            chars_range(piece, 0, piece.len())
        };
        assert(line@ =~= strip_cr(p[t as int]));
        let ghost before = lines@.map_values(|v: Vec<char>| v@);
        let ghost q = p.drop_last().map_values(|l: Seq<char>| strip_cr(l));
        lines.push(line);
        assert(lines@.map_values(|v: Vec<char>| v@) =~= before.push(strip_cr(p[t as int])));
        assert(q[t as int] == strip_cr(p[t as int]));
        assert(q.take(t + 1) =~= q.take(t as int).push(q[t as int]));
        t += 1;
    }
    assert(p.drop_last().map_values(|l: Seq<char>| strip_cr(l)).take(last as int) =~= p.drop_last().map_values(
        |l: Seq<char>| strip_cr(l),
    ));
    let tail = &pieces[last];
    assert(tail@ == p.last());
    if tail.len() > 0 {
        let ghost before = lines@.map_values(|v: Vec<char>| v@);
        let whole = chars_range(tail, 0, tail.len());
        assert(whole@ =~= p.last());
        lines.push(whole);
        assert(lines@.map_values(|v: Vec<char>| v@) =~= before.push(p.last()));
    }
    lines
}

} // verus!
