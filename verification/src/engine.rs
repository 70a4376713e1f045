//! Segment-by-segment conversion state.
//!
//! After the user asks for conversion, the kana is split into segments,
//! each with its candidate surfaces and a selected candidate. The user
//! moves the focus between segments, cycles candidates, switches a
//! segment to another kana form, and moves the boundary between the
//! focused segment and the next one. The segment readings always tile
//! the kana: they follow each other without gap or overlap and together
//! spell it.
use vstd::prelude::*;
use crate::dictionary::{DictionaryEntry, PartOfSpeech, Segment};
use crate::grammar::GrammarToken;
use crate::romaji::forms::{fullwidth_char, halfwidth_of, katakana_char, romaji_from};
use crate::romaji::{
    hiragana_to_fullwidth_romaji, hiragana_to_halfwidth_katakana, hiragana_to_katakana,
    hiragana_to_romaji,
};
use crate::text::{append_chars, chars_eq, chars_of, string_of};

verus! {

/// Per-segment state during conversion.
#[derive(Debug, Clone)]
pub struct SegmentState {
    /// Hiragana reading for this segment
    pub reading: String,
    /// Start position in kana (char offset)
    pub start: usize,
    /// Candidate surfaces (sorted by score)
    pub candidates: Vec<String>,
    /// Currently selected candidate index
    pub selected: usize,
    /// Whether the user explicitly changed the candidate for this segment
    pub user_selected: bool,
}

/// Active conversion state.
#[derive(Debug, Clone)]
pub struct ConversionState {
    /// The kana being converted
    pub kana: String,
    /// Per-segment conversion state
    pub segments: Vec<SegmentState>,
    /// Currently focused segment index
    pub focus: usize,
}

// ---------------------------------------------------------------------------
// Views
// ---------------------------------------------------------------------------

/// The characters of each string.
pub open spec fn views(v: Seq<String>) -> Seq<Seq<char>> {
    v.map_values(|s: String| s@)
}

/// The candidates of a segment as character sequences.
pub open spec fn cands(seg: SegmentState) -> Seq<Seq<char>> {
    views(seg.candidates@)
}

/// The selected candidate of a segment.
pub open spec fn selected_text(seg: SegmentState) -> Seq<char> {
    seg.candidates@[seg.selected as int]@
}

/// The pieces joined in order.
pub open spec fn concat(ss: Seq<Seq<char>>) -> Seq<char>
    decreases ss.len(),
{
    if ss.len() == 0 {
        Seq::empty()
    } else {
        concat(ss.drop_last()) + ss.last()
    }
}

/// The selected candidate of each segment.
pub open spec fn texts(segs: Seq<SegmentState>) -> Seq<Seq<char>> {
    segs.map_values(|s: SegmentState| selected_text(s))
}

/// The reading of each segment.
pub open spec fn readings(segs: Seq<SegmentState>) -> Seq<Seq<char>> {
    segs.map_values(|s: SegmentState| s.reading@)
}

/// The composed text: the selected candidates of all segments, joined.
pub open spec fn composed(segs: Seq<SegmentState>) -> Seq<char> {
    concat(texts(segs))
}

/// Where a segment's reading ends in the kana.
pub open spec fn seg_end(s: SegmentState) -> int {
    s.start + s.reading@.len()
}

/// The segments' readings lie one after the other in `kana`, without gap
/// or overlap, from its first character to its last; none is empty.
#[verifier::opaque]
pub open spec fn tiles(kana: Seq<char>, segs: Seq<SegmentState>) -> bool {
    &&& segs.len() > 0
    &&& segs[0].start == 0
    &&& forall|k: int| 0 < k < segs.len() ==> (#[trigger] segs[k]).start == seg_end(segs[k - 1])
    &&& seg_end(segs.last()) == kana.len()
    &&& forall|k: int| 0 <= k < segs.len() ==> {
        &&& (#[trigger] segs[k]).reading@.len() > 0
        &&& seg_end(segs[k]) <= kana.len()
        &&& kana.subrange(segs[k].start as int, seg_end(segs[k])) == segs[k].reading@
    }
}

/// Every segment's selection names one of its candidates.
pub open spec fn selections_valid(segs: Seq<SegmentState>) -> bool {
    forall|k: int| 0 <= k < segs.len() ==> (#[trigger] segs[k]).selected < segs[k].candidates@.len()
}

/// `surfaces`, with the reading appended when it is not among them.
pub open spec fn with_fallback(surfaces: Seq<Seq<char>>, reading: Seq<char>) -> Seq<Seq<char>> {
    if surfaces.contains(reading) {
        surfaces
    } else {
        surfaces.push(reading)
    }
}

/// `acc` followed by the elements of `xs` not seen before, first occurrence first.
pub open spec fn push_new(acc: Seq<Seq<char>>, xs: Seq<Seq<char>>) -> Seq<Seq<char>>
    decreases xs.len(),
{
    if xs.len() == 0 {
        acc
    } else {
        let a = push_new(acc, xs.drop_last());
        if a.contains(xs.last()) {
            a
        } else {
            a.push(xs.last())
        }
    }
}

/// The index after one step forward (`delta > 0`) or backward, wrapping
/// around `len`.
pub open spec fn step_index(i: int, len: int, delta: i32) -> int {
    if delta > 0 {
        (i + 1) % len
    } else if i == 0 {
        len - 1
    } else {
        i - 1
    }
}

/// The first index at or after `i` where `t` occurs in `c` (`c.len()` if none).
pub open spec fn first_from(c: Seq<Seq<char>>, t: Seq<char>, i: int) -> int
    decreases c.len() - i,
{
    if i < 0 || i >= c.len() {
        c.len() as int
    } else if c[i] == t {
        i
    } else {
        first_from(c, t, i + 1)
    }
}

/// The first index of `t` in `c` (`c.len()` if none).
pub open spec fn index_of(c: Seq<Seq<char>>, t: Seq<char>) -> int {
    first_from(c, t, 0)
}

proof fn lemma_concat_take_len(ss: Seq<Seq<char>>, k: int)
    requires
        0 <= k <= ss.len(),
    ensures
        concat(ss.take(k)).len() <= concat(ss).len(),
    decreases ss.len(),
{
    if k < ss.len() {
        lemma_concat_take_len(ss.drop_last(), k);
        assert(ss.drop_last().take(k) =~= ss.take(k));
    } else {
        assert(ss.take(k) =~= ss);
    }
}

proof fn lemma_concat_step(ss: Seq<Seq<char>>, k: int)
    requires
        0 <= k < ss.len(),
    ensures
        concat(ss.take(k + 1)) == concat(ss.take(k)) + ss[k],
{
    assert(ss.take(k + 1).drop_last() =~= ss.take(k));
}

/// Copies a vector of strings.
fn copy_strings(v: &Vec<String>) -> (r: Vec<String>)
    ensures
        r@ == v@,
{
    let mut r: Vec<String> = Vec::new();
    let mut i: usize = 0;
    while i < v.len()
        invariant
            i <= v.len(),
            r@ == v@.take(i as int),
        decreases v.len() - i,
    {
        r.push(v[i].clone());
        i += 1;
        assert(r@ =~= v@.take(i as int));
    }
    assert(v@.take(v.len() as int) =~= v@);
    r
}

/// The position of the first candidate spelling `t`, if any.
fn position_of(c: &Vec<String>, t: &Vec<char>) -> (r: Option<usize>)
    ensures
        r is None ==> !views(c@).contains(t@),
        r matches Some(k) ==> k < c@.len() && views(c@)[k as int] == t@ && k as int == index_of(views(c@), t@),
{
    let mut i: usize = 0;
    while i < c.len()
        invariant
            i <= c@.len(),
            forall|j: int| 0 <= j < i ==> #[trigger] views(c@)[j] != t@,
            index_of(views(c@), t@) == first_from(views(c@), t@, i as int),
        decreases c.len() - i,
    {
        let have = chars_of(c[i].as_str());
        if chars_eq(&have, t) {
            assert(views(c@)[i as int] == t@);
            return Some(i);
        }
        i += 1;
    }
    proof {
        if views(c@).contains(t@) {
            let j = choose|j: int| 0 <= j < views(c@).len() && views(c@)[j] == t@;
            assert(views(c@)[j] != t@);
        }
    }
    None
}

impl SegmentState {
    /// A fresh segment: the given surfaces (best first) as candidates, with
    /// the reading appended when it is not among them; the first is selected.
    pub fn from_surfaces(reading: String, start: usize, surfaces: Vec<String>) -> (r: Self)
        ensures
            r.reading == reading,
            r.start == start,
            cands(r) == with_fallback(views(surfaces@), reading@),
            r.selected == 0,
            !r.user_selected,
    {
        let rc = chars_of(reading.as_str());
        let mut candidates = surfaces;
        match position_of(&candidates, &rc) {
            Some(k) => {
                assert(views(candidates@).contains(reading@)) by {
                    assert(views(candidates@)[k as int] == reading@);
                }
            },
            None => {
                candidates.push(reading.clone());
                assert(views(candidates@) =~= views(surfaces@).push(reading@));
            },
        }
        SegmentState { reading, start, candidates, selected: 0, user_selected: false }
    }
}


/// Whether the segments tile the kana and every selection is valid.
fn check_segments(kana: &Vec<char>, segs: &Vec<SegmentState>) -> (r: bool)
    ensures
        r == (tiles(kana@, segs@) && selections_valid(segs@)),
{
    reveal(tiles);
    if segs.len() == 0 {
        return false;
    }
    let kl = kana.len();
    let mut pos: usize = 0;
    let mut k: usize = 0;
    while k < segs.len()
        invariant
            k <= segs@.len(),
            segs@.len() > 0,
            kl == kana@.len(),
            pos <= kana@.len(),
            k == 0 ==> pos == 0,
            k > 0 ==> pos == seg_end(segs@[k - 1]),
            k > 0 ==> segs@[0].start == 0,
            forall|j: int| 0 < j < k ==> (#[trigger] segs@[j]).start == seg_end(segs@[j - 1]),
            forall|j: int| 0 <= j < k ==> {
                &&& (#[trigger] segs@[j]).reading@.len() > 0
                &&& seg_end(segs@[j]) <= kana@.len()
                &&& kana@.subrange(segs@[j].start as int, seg_end(segs@[j])) == segs@[j].reading@
            },
            selections_valid(segs@.take(k as int)),
        decreases segs.len() - k,
    {
        let seg = &segs[k];
        if seg.start != pos || seg.selected >= seg.candidates.len() {
            proof {
                reveal(tiles);
                assert(*seg == segs@[k as int]);
                if seg.start != pos && tiles(kana@, segs@) {
                    if k > 0 {
                        assert(segs@[k as int].start == seg_end(segs@[k - 1]));
                    } else {
                        assert(segs@[0].start == 0);
                    }
                }
                if seg.selected >= seg.candidates.len() {
                    assert(segs@.take(segs@.len() as int) =~= segs@);
                    assert(!selections_valid(segs@)) by {
                        assert(!(segs@[k as int].selected < segs@[k as int].candidates@.len()));
                    }
                }
            }
            return false;
        }
        let r = chars_of(seg.reading.as_str());
        if r.len() == 0 || r.len() > kana.len() - pos {
            proof {
                reveal(tiles);
                assert(seg.reading@ == r@);
                assert(seg.start == pos);
            }
            return false;
        }
        let mut i: usize = 0;
        while i < r.len()
            invariant
                kl == kana@.len(),
                k < segs@.len(),
                seg == &segs@[k as int],
                seg.start == pos,
                seg.reading@ == r@,
                pos + r@.len() <= kana@.len(),
                i <= r@.len(),
                forall|j: int| 0 <= j < i ==> kana@[pos + j] == r@[j],
            decreases r.len() - i,
        {
            if kana[pos + i] != r[i] {
                proof {
                    assert(kana@.subrange(pos as int, pos + r@.len())[i as int] == kana@[pos + i]);
                    assert(kana@.subrange(pos as int, pos + r@.len()) != r@);
                    reveal(tiles);
                    if tiles(kana@, segs@) {
                        assert(kana@.subrange(segs@[k as int].start as int, seg_end(segs@[k as int])) == segs@[k as int].reading@);
                    }
                }
                return false;
            }
            i += 1;
        }
        assert(kana@.subrange(pos as int, pos + r@.len()) =~= r@);
        pos = pos + r.len();
        k += 1;
        assert(selections_valid(segs@.take(k as int))) by {
            assert forall|j: int| 0 <= j < segs@.take(k as int).len() implies (#[trigger] segs@.take(k as int)[j]).selected
                < segs@.take(k as int)[j].candidates@.len() by {
                if j < k - 1 {
                    assert(segs@.take(k as int)[j] == segs@.take(k - 1)[j]);
                }
            }
        }
    }
    assert(segs@.take(segs@.len() as int) =~= segs@);
    proof {
        reveal(tiles);
    }
    pos == kana.len()
}

impl ConversionState {
    /// The segments tile the kana, every selection is valid, and the focus
    /// names a segment.
    pub open spec fn wf(&self) -> bool {
        &&& self.kana@.len() <= usize::MAX
        &&& tiles(self.kana@, self.segments@)
        &&& selections_valid(self.segments@)
        &&& self.focus < self.segments@.len()
    }

    /// A conversion state focused on the first segment, when the segments
    /// tile the kana and every selection is valid; `None` otherwise (in
    /// particular when there are no segments).
    pub fn new(kana: String, segments: Vec<SegmentState>) -> (r: Option<Self>)
        ensures
            r is Some <==> tiles(kana@, segments@) && selections_valid(segments@),
            r matches Some(st) ==> st.wf() && st.kana == kana && st.segments@ == segments@ && st.focus == 0,
    {
        let kc = chars_of(kana.as_str());
        let n = kc.len();
        assert(kana@.len() == n);
        proof {
            reveal(tiles);
        }
        if check_segments(&kc, &segments) {
            Some(ConversionState { kana, segments, focus: 0 })
        } else {
            None
        }
    }

    /// The composed text from all segments' selected candidates.
    pub fn composed_text(&self) -> (r: String)
        requires
            selections_valid(self.segments@),
        ensures
            r@ == composed(self.segments@),
    {
        let ghost t = texts(self.segments@);
        let mut out: Vec<char> = Vec::new();
        let mut k: usize = 0;
        while k < self.segments.len()
            invariant
                selections_valid(self.segments@),
                t == texts(self.segments@),
                k <= self.segments@.len(),
                out@ == concat(t.take(k as int)),
            decreases self.segments.len() - k,
        {
            let seg = &self.segments[k];
            assert(seg.selected < seg.candidates@.len());
            let piece = chars_of(seg.candidates[seg.selected].as_str());
            proof { lemma_concat_step(t, k as int); }
            append_chars(&mut out, &piece);
            k += 1;
        }
        assert(t.take(self.segments@.len() as int) =~= t);
        string_of(&out)
    }

    /// Segment boundaries in the composed text: (start, end) character
    /// offsets of each segment's selected candidate.
    pub fn segment_char_ranges(&self) -> (r: Vec<(usize, usize)>)
        requires
            selections_valid(self.segments@),
            composed(self.segments@).len() <= usize::MAX,
        ensures
            r@.len() == self.segments@.len(),
            forall|k: int| 0 <= k < r@.len() ==> (#[trigger] r@[k]).0 == concat(texts(self.segments@).take(k)).len()
                && r@[k].1 == concat(texts(self.segments@).take(k + 1)).len(),
            r@.len() > 0 ==> r@[0].0 == 0,
            forall|k: int| 0 <= k < r@.len() ==> (#[trigger] r@[k]).1 - r@[k].0 == selected_text(self.segments@[k]).len(),
            forall|k: int| 0 <= k < r@.len() - 1 ==> (#[trigger] r@[k]).1 == r@[k + 1].0,
            r@.len() > 0 ==> r@[r@.len() - 1].1 == composed(self.segments@).len(),
    {
        let ghost t = texts(self.segments@);
        let mut ranges: Vec<(usize, usize)> = Vec::new();
        let mut pos: usize = 0;
        let mut k: usize = 0;
        while k < self.segments.len()
            invariant
                selections_valid(self.segments@),
                t == texts(self.segments@),
                concat(t).len() <= usize::MAX,
                k <= self.segments@.len(),
                pos == concat(t.take(k as int)).len(),
                ranges@.len() == k,
                forall|j: int| 0 <= j < k ==> (#[trigger] ranges@[j]).0 == concat(t.take(j)).len()
                    && ranges@[j].1 == concat(t.take(j + 1)).len(),
            decreases self.segments.len() - k,
        {
            let seg = &self.segments[k];
            assert(seg.selected < seg.candidates@.len());
            let len = chars_of(seg.candidates[seg.selected].as_str()).len();
            proof {
                lemma_concat_step(t, k as int);
                lemma_concat_take_len(t, k + 1);
            }
            ranges.push((pos, pos + len));
            pos = pos + len;
            k += 1;
        }
        proof {
            let n = self.segments@.len() as int;
            if n > 0 {
                assert(t.take(0) =~= Seq::<Seq<char>>::empty());
                assert(t.take(n) =~= t);
            }
            assert forall|k: int| 0 <= k < ranges@.len() implies (#[trigger] ranges@[k]).1 - ranges@[k].0
                == selected_text(self.segments@[k]).len() by {
                lemma_concat_step(t, k);
            }
        }
        ranges
    }

    /// Moves the focus one segment right (`delta > 0`) or left, wrapping around.
    pub fn move_focus(&mut self, delta: i32)
        requires
            old(self).wf(),
        ensures
            final(self).wf(),
            final(self).kana == old(self).kana,
            final(self).segments@ == old(self).segments@,
            final(self).focus == step_index(old(self).focus as int, old(self).segments@.len() as int, delta),
    {
        let len = self.segments.len();
        self.focus = if delta > 0 {
            (self.focus + 1) % len
        } else if self.focus == 0 {
            len - 1
        } else {
            self.focus - 1
        };
    }

    /// Replaces the focused segment, keeping its reading and start.
    fn replace_focused(&mut self, seg: SegmentState)
        requires
            old(self).wf(),
            seg.reading@ == old(self).segments@[old(self).focus as int].reading@,
            seg.start == old(self).segments@[old(self).focus as int].start,
            seg.selected < seg.candidates@.len(),
        ensures
            final(self).wf(),
            final(self).kana == old(self).kana,
            final(self).focus == old(self).focus,
            final(self).segments@ == old(self).segments@.update(old(self).focus as int, seg),
    {
        let f = self.focus;
        let ghost old_segs = self.segments@;
        self.segments.set(f, seg);
        proof {
            let segs = self.segments@;
            assert forall|k: int| 0 <= k < segs.len() implies (#[trigger] segs[k]).start == old_segs[k].start
                && segs[k].reading@ == old_segs[k].reading@ by {}
            lemma_tiles_same_places(self.kana@, old_segs, segs);
            assert forall|k: int| 0 <= k < segs.len() implies (#[trigger] segs[k]).selected < segs[k].candidates@.len() by {
                if k != f {
                    assert(segs[k] == old_segs[k]);
                }
            }
        }
    }

    /// Selects the next (`delta > 0`) or previous candidate of the focused
    /// segment, wrapping around, and marks the segment as chosen by the user.
    pub fn cycle_candidate(&mut self, delta: i32)
        requires
            old(self).wf(),
        ensures
            final(self).wf(),
            final(self).kana == old(self).kana,
            final(self).focus == old(self).focus,
            final(self).segments@.len() == old(self).segments@.len(),
            forall|k: int| 0 <= k < final(self).segments@.len() && k != old(self).focus ==> #[trigger] final(self).segments@[k] == old(self).segments@[k],
            ({
                let o = old(self).segments@[old(self).focus as int];
                let n = final(self).segments@[old(self).focus as int];
                &&& n.reading == o.reading
                &&& n.start == o.start
                &&& n.candidates@ == o.candidates@
                &&& n.selected == step_index(o.selected as int, o.candidates@.len() as int, delta)
                &&& n.user_selected
            }),
    {
        let f = self.focus;
        let seg = &self.segments[f];
        let len = seg.candidates.len();
        let selected = if delta > 0 {
            (seg.selected + 1) % len
        } else if seg.selected == 0 {
            len - 1
        } else {
            seg.selected - 1
        };
        let new_seg = SegmentState {
            reading: seg.reading.clone(),
            start: seg.start,
            candidates: copy_strings(&seg.candidates),
            selected,
            user_selected: true,
        };
        self.replace_focused(new_seg);
    }

    /// Selects `text` in the focused segment (appending it as a new
    /// candidate when it is not one yet) and marks the segment as chosen by
    /// the user.
    fn select_text(&mut self, text: String)
        requires
            old(self).wf(),
        ensures
            final(self).wf(),
            final(self).kana == old(self).kana,
            final(self).focus == old(self).focus,
            final(self).segments@.len() == old(self).segments@.len(),
            forall|k: int| 0 <= k < final(self).segments@.len() && k != old(self).focus ==> #[trigger] final(self).segments@[k] == old(self).segments@[k],
            ({
                let o = old(self).segments@[old(self).focus as int];
                let n = final(self).segments@[old(self).focus as int];
                &&& n.reading == o.reading
                &&& n.start == o.start
                &&& n.user_selected
                &&& selected_text(n) == text@
                &&& if cands(o).contains(text@) {
                    n.candidates@ == o.candidates@ && n.selected == index_of(cands(o), text@)
                } else {
                    cands(n) == cands(o).push(text@) && n.selected == o.candidates@.len()
                }
            }),
    {
        let f = self.focus;
        let seg = &self.segments[f];
        let tc = chars_of(text.as_str());
        let mut candidates = copy_strings(&seg.candidates);
        let selected = match position_of(&candidates, &tc) {
            Some(k) => {
                assert(cands(*seg).contains(text@)) by {
                    assert(cands(*seg)[k as int] == text@);
                }
                assert(candidates@[k as int]@ == text@) by {
                    assert(views(candidates@)[k as int] == candidates@[k as int]@);
                }
                k
            },
            None => {
                let n = candidates.len();
                candidates.push(text);
                assert(views(candidates@) =~= cands(*seg).push(tc@));
                assert(candidates@[n as int]@ == tc@);
                n
            },
        };
        let new_seg = SegmentState {
            reading: seg.reading.clone(),
            start: seg.start,
            candidates,
            selected,
            user_selected: true,
        };
        self.replace_focused(new_seg);
    }

    /// Selects the focused segment's hiragana reading itself.
    pub fn convert_focused_to_hiragana(&mut self)
        requires
            old(self).wf(),
        ensures
            final(self).wf(),
            final(self).kana == old(self).kana,
            final(self).focus == old(self).focus,
            final(self).segments@.len() == old(self).segments@.len(),
            forall|k: int| 0 <= k < final(self).segments@.len() && k != old(self).focus ==> #[trigger] final(self).segments@[k] == old(self).segments@[k],
            selected_text(final(self).segments@[old(self).focus as int]) == old(self).segments@[old(self).focus as int].reading@,
            final(self).segments@[old(self).focus as int].user_selected,
    {
        let text = self.segments[self.focus].reading.clone();
        self.select_text(text);
    }

    /// Selects the full-width katakana form of the focused segment's reading.
    pub fn convert_focused_to_katakana(&mut self)
        requires
            old(self).wf(),
        ensures
            final(self).wf(),
            final(self).kana == old(self).kana,
            final(self).focus == old(self).focus,
            final(self).segments@.len() == old(self).segments@.len(),
            forall|k: int| 0 <= k < final(self).segments@.len() && k != old(self).focus ==> #[trigger] final(self).segments@[k] == old(self).segments@[k],
            selected_text(final(self).segments@[old(self).focus as int])
                == old(self).segments@[old(self).focus as int].reading@.map_values(|c: char| katakana_char(c)),
            final(self).segments@[old(self).focus as int].user_selected,
    {
        let text = hiragana_to_katakana(self.segments[self.focus].reading.as_str());
        self.select_text(text);
    }

    /// Selects the half-width katakana form of the focused segment's reading.
    pub fn convert_focused_to_halfwidth_katakana(&mut self)
        requires
            old(self).wf(),
        ensures
            final(self).wf(),
            final(self).kana == old(self).kana,
            final(self).focus == old(self).focus,
            final(self).segments@.len() == old(self).segments@.len(),
            forall|k: int| 0 <= k < final(self).segments@.len() && k != old(self).focus ==> #[trigger] final(self).segments@[k] == old(self).segments@[k],
            selected_text(final(self).segments@[old(self).focus as int])
                == halfwidth_of(old(self).segments@[old(self).focus as int].reading@),
            final(self).segments@[old(self).focus as int].user_selected,
    {
        let text = hiragana_to_halfwidth_katakana(self.segments[self.focus].reading.as_str());
        self.select_text(text);
    }

    /// Selects the half-width romaji form of the focused segment's reading.
    pub fn convert_focused_to_romaji(&mut self)
        requires
            old(self).wf(),
        ensures
            final(self).wf(),
            final(self).kana == old(self).kana,
            final(self).focus == old(self).focus,
            final(self).segments@.len() == old(self).segments@.len(),
            forall|k: int| 0 <= k < final(self).segments@.len() && k != old(self).focus ==> #[trigger] final(self).segments@[k] == old(self).segments@[k],
            selected_text(final(self).segments@[old(self).focus as int])
                == romaji_from(old(self).segments@[old(self).focus as int].reading@, 0),
            final(self).segments@[old(self).focus as int].user_selected,
    {
        let text = hiragana_to_romaji(self.segments[self.focus].reading.as_str());
        self.select_text(text);
    }

    /// Selects the full-width romaji form of the focused segment's reading.
    pub fn convert_focused_to_fullwidth_romaji(&mut self)
        requires
            old(self).wf(),
        ensures
            final(self).wf(),
            final(self).kana == old(self).kana,
            final(self).focus == old(self).focus,
            final(self).segments@.len() == old(self).segments@.len(),
            forall|k: int| 0 <= k < final(self).segments@.len() && k != old(self).focus ==> #[trigger] final(self).segments@[k] == old(self).segments@[k],
            selected_text(final(self).segments@[old(self).focus as int])
                == romaji_from(old(self).segments@[old(self).focus as int].reading@, 0).map_values(|c: char| fullwidth_char(c)),
            final(self).segments@[old(self).focus as int].user_selected,
    {
        let text = hiragana_to_fullwidth_romaji(self.segments[self.focus].reading.as_str());
        self.select_text(text);
    }
}


/// A segment with only its reading and start changed.
pub open spec fn same_but_place(n: SegmentState, o: SegmentState) -> bool {
    &&& n.candidates@ == o.candidates@
    &&& n.selected == o.selected
    &&& n.user_selected == o.user_selected
}

proof fn lemma_sub_split(kana: Seq<char>, a: int, m: int, b: int)
    requires
        0 <= a <= m <= b <= kana.len(),
    ensures
        kana.subrange(a, b) == kana.subrange(a, m) + kana.subrange(m, b),
{
    assert(kana.subrange(a, b) =~= kana.subrange(a, m) + kana.subrange(m, b));
}

/// `n` is `o` with segments `f` and `f + 1` (if it exists) marked as
/// chosen by the user, and nothing else changed.
pub open spec fn marked(o: Seq<SegmentState>, n: Seq<SegmentState>, f: int) -> bool {
    &&& n.len() == o.len()
    &&& forall|k: int| 0 <= k < n.len() && k != f && k != f + 1 ==> #[trigger] n[k] == o[k]
    &&& forall|k: int| 0 <= k < n.len() && (k == f || k == f + 1) ==> {
        &&& (#[trigger] n[k]).reading == o[k].reading
        &&& n[k].start == o[k].start
        &&& n[k].candidates@ == o[k].candidates@
        &&& n[k].selected == o[k].selected
        &&& n[k].user_selected
    }
}

/// Changing only candidates, selections and marks keeps the tiling.
proof fn lemma_tiles_same_places(kana: Seq<char>, o: Seq<SegmentState>, n: Seq<SegmentState>)
    requires
        tiles(kana, o),
        n.len() == o.len(),
        forall|k: int| 0 <= k < n.len() ==> (#[trigger] n[k]).start == o[k].start && n[k].reading@ == o[k].reading@,
    ensures
        tiles(kana, n),
{
    reveal(tiles);
    assert forall|k: int| 0 < k < n.len() implies (#[trigger] n[k]).start == seg_end(n[k - 1]) by {
        assert(n[k - 1].start == o[k - 1].start);
        assert(o[k].start == seg_end(o[k - 1]));
    }
    assert forall|k: int| 0 <= k < n.len() implies {
        &&& (#[trigger] n[k]).reading@.len() > 0
        &&& seg_end(n[k]) <= kana.len()
        &&& kana.subrange(n[k].start as int, seg_end(n[k])) == n[k].reading@
    } by {
        assert(o[k].reading@.len() > 0);
    }
    assert(n.last().start == o.last().start);
    assert(n[0].start == o[0].start);
}

/// `n` is `o` after the focused segment `f` took the first character of
/// the next one (`moved`), or `o` unchanged when there is no next segment.
pub open spec fn extended(o: Seq<SegmentState>, n: Seq<SegmentState>, f: int, moved: bool) -> bool {
    &&& moved == (f + 1 < o.len())
    &&& !moved ==> n == o
    &&& moved ==> {
        &&& forall|k: int| 0 <= k < f ==> #[trigger] n[k] == o[k]
        &&& n[f].start == o[f].start && same_but_place(n[f], o[f])
        &&& n[f].reading@ == o[f].reading@.push(o[f + 1].reading@[0])
        &&& o[f + 1].reading@.len() == 1 ==> n.len() == o.len() - 1
            && forall|k: int| f < k < n.len() ==> #[trigger] n[k] == o[k + 1]
        &&& o[f + 1].reading@.len() > 1 ==> n.len() == o.len()
            && n[f + 1].start == o[f + 1].start + 1
            && n[f + 1].reading@ == o[f + 1].reading@.drop_first()
            && same_but_place(n[f + 1], o[f + 1])
            && forall|k: int| f + 1 < k < n.len() ==> #[trigger] n[k] == o[k]
    }
}

/// `n` is `o` after the last character of the focused segment `f` moved to
/// the next segment or into a new last one (`moved`), or `o` unchanged when
/// the focused segment has a single character.
pub open spec fn shrunk(o: Seq<SegmentState>, n: Seq<SegmentState>, f: int, moved: bool) -> bool {
    &&& moved == (o[f].reading@.len() > 1)
    &&& !moved ==> n == o
    &&& moved ==> {
        &&& forall|k: int| 0 <= k < f ==> #[trigger] n[k] == o[k]
        &&& n[f].start == o[f].start && same_but_place(n[f], o[f])
        &&& n[f].reading@ == o[f].reading@.drop_last()
        &&& f + 1 < o.len() ==> n.len() == o.len()
            && n[f + 1].start == o[f + 1].start - 1
            && n[f + 1].reading@ == seq![o[f].reading@.last()] + o[f + 1].reading@
            && same_but_place(n[f + 1], o[f + 1])
            && forall|k: int| f + 1 < k < n.len() ==> #[trigger] n[k] == o[k]
        &&& f + 1 == o.len() ==> n.len() == o.len() + 1
            && n[f + 1].start == seg_end(n[f])
            && n[f + 1].reading@ == seq![o[f].reading@.last()]
            && cands(n[f + 1]) == seq![seq![o[f].reading@.last()]]
            && n[f + 1].selected == 0
            && !n[f + 1].user_selected
    }
}

/// The chain of starts: each segment starts where the previous one ends.
pub open spec fn chained(segs: Seq<SegmentState>) -> bool {
    forall|k: int| 0 < k < segs.len() ==> (#[trigger] segs[k]).start == seg_end(segs[k - 1])
}

/// Every segment is non-empty, inside `kana`, and spells its part of it.
pub open spec fn placed(kana: Seq<char>, segs: Seq<SegmentState>) -> bool {
    forall|k: int| 0 <= k < segs.len() ==> {
        &&& (#[trigger] segs[k]).reading@.len() > 0
        &&& seg_end(segs[k]) <= kana.len()
        &&& kana.subrange(segs[k].start as int, seg_end(segs[k])) == segs[k].reading@
    }
}

/// What the tiling says about segment `k`.
proof fn lemma_segment_facts(kana: Seq<char>, segs: Seq<SegmentState>, k: int)
    requires
        tiles(kana, segs),
        0 <= k < segs.len(),
    ensures
        segs[k].reading@.len() > 0,
        seg_end(segs[k]) <= kana.len(),
        k > 0 ==> segs[k].start == seg_end(segs[k - 1]),
{
    reveal(tiles);
}

proof fn lemma_tiles_parts(kana: Seq<char>, segs: Seq<SegmentState>)
    ensures
        tiles(kana, segs) <==> (segs.len() > 0 && segs[0].start == 0 && chained(segs)
            && seg_end(segs.last()) == kana.len() && placed(kana, segs)),
{
    reveal(tiles);
}

/// How `n` relates to `o` after a boundary move at `f`: unchanged before
/// `f`, and after `f + 1` shifted by `shift` positions (`n[k] == o[k - shift]`).
pub open spec fn same_outside(o: Seq<SegmentState>, n: Seq<SegmentState>, f: int, shift: int) -> bool {
    &&& forall|k: int| 0 <= k < f ==> #[trigger] n[k] == o[k]
    &&& forall|k: int| f + 1 < k < n.len() ==> #[trigger] n[k] == o[k - shift]
}

proof fn lemma_chain_local(o: Seq<SegmentState>, n: Seq<SegmentState>, f: int, shift: int)
    requires
        chained(o),
        0 <= f < n.len(),
        f < o.len(),
        n.len() == o.len() + shift,
        -1 <= shift <= 1,
        same_outside(o, n, f, shift),
        f > 0 ==> n[f].start == o[f].start,
        f + 1 < n.len() ==> n[f + 1].start == seg_end(n[f]),
        f + 2 < n.len() ==> seg_end(n[f + 1]) == seg_end(o[f + 1 - shift]),
        f + 1 == n.len() - 1 && shift == -1 ==> true,
    ensures
        chained(n),
{
    assert forall|k: int| 0 < k < n.len() implies (#[trigger] n[k]).start == seg_end(n[k - 1]) by {
        if k < f {
            assert(n[k] == o[k] && n[k - 1] == o[k - 1]);
            assert(o[k].start == seg_end(o[k - 1]));
        } else if k == f {
            assert(n[k - 1] == o[k - 1]);
            assert(o[k].start == seg_end(o[k - 1]));
        } else if k == f + 1 {
        } else {
            assert(n[k] == o[k - shift]);
            if k > f + 2 {
                assert(n[k - 1] == o[k - 1 - shift]);
            } else {
                assert(seg_end(n[k - 1]) == seg_end(o[k - 1 - shift]));
            }
            assert(o[k - shift].start == seg_end(o[k - shift - 1]));
        }
    }
}

proof fn lemma_placed_local(kana: Seq<char>, o: Seq<SegmentState>, n: Seq<SegmentState>, f: int, shift: int)
    requires
        placed(kana, o),
        0 <= f < n.len(),
        n.len() == o.len() + shift,
        -1 <= shift <= 1,
        same_outside(o, n, f, shift),
        n[f].reading@.len() > 0,
        seg_end(n[f]) <= kana.len(),
        kana.subrange(n[f].start as int, seg_end(n[f])) == n[f].reading@,
        f + 1 < n.len() ==> n[f + 1].reading@.len() > 0 && seg_end(n[f + 1]) <= kana.len()
            && kana.subrange(n[f + 1].start as int, seg_end(n[f + 1])) == n[f + 1].reading@,
    ensures
        placed(kana, n),
{
    assert forall|k: int| 0 <= k < n.len() implies {
        &&& (#[trigger] n[k]).reading@.len() > 0
        &&& seg_end(n[k]) <= kana.len()
        &&& kana.subrange(n[k].start as int, seg_end(n[k])) == n[k].reading@
    } by {
        if k < f {
            assert(n[k] == o[k]);
        } else if k > f + 1 {
            assert(n[k] == o[k - shift]);
        }
    }
}

proof fn lemma_selections_local(o: Seq<SegmentState>, n: Seq<SegmentState>, f: int, shift: int)
    requires
        selections_valid(o),
        0 <= f < n.len(),
        n.len() == o.len() + shift,
        -1 <= shift <= 1,
        same_outside(o, n, f, shift),
        n[f].selected < n[f].candidates@.len(),
        f + 1 < n.len() ==> n[f + 1].selected < n[f + 1].candidates@.len(),
    ensures
        selections_valid(n),
{
    assert forall|k: int| 0 <= k < n.len() implies (#[trigger] n[k]).selected < n[k].candidates@.len() by {
        if k < f {
            assert(n[k] == o[k]);
        } else if k > f + 1 {
            assert(n[k] == o[k - shift]);
        }
    }
}

/// Where the segments around an extension at `f` lie in `kana`: the
/// focused segment ends one character later, and the next segment, when it
/// had more than one character, starts one later.
proof fn lemma_extend_spells(kana: Seq<char>, o: Seq<SegmentState>, n: Seq<SegmentState>, f: int)
    requires
        placed(kana, o),
        chained(o),
        0 <= f,
        f + 1 < o.len(),
        n[f].start == o[f].start,
        n[f].reading@ == o[f].reading@.push(o[f + 1].reading@[0]),
        o[f + 1].reading@.len() > 1 ==> f + 1 < n.len()
            && n[f + 1].start == o[f + 1].start + 1
            && n[f + 1].reading@ == o[f + 1].reading@.drop_first(),
    ensures
        n[f].reading@.len() > 0,
        seg_end(n[f]) == seg_end(o[f]) + 1,
        kana.subrange(n[f].start as int, seg_end(n[f])) == n[f].reading@,
        o[f + 1].reading@.len() == 1 ==> seg_end(n[f]) == seg_end(o[f + 1]),
        o[f + 1].reading@.len() > 1 ==> {
            &&& n[f + 1].reading@.len() > 0
            &&& seg_end(n[f + 1]) == seg_end(o[f + 1])
            &&& kana.subrange(n[f + 1].start as int, seg_end(n[f + 1])) == n[f + 1].reading@
            &&& n[f + 1].start == seg_end(n[f])
        },
{
    let of = o[f];
    let on = o[f + 1];
    assert(on.start == seg_end(of));
    assert(kana.subrange(on.start as int, seg_end(on)) == on.reading@);
    assert(kana.subrange(of.start as int, seg_end(of)) == of.reading@);
    assert(on.reading@[0] == kana[on.start as int]) by {
        assert(kana.subrange(on.start as int, seg_end(on))[0] == kana[on.start as int]);
    }
    assert(kana.subrange(of.start as int, seg_end(of) + 1) =~= of.reading@.push(on.reading@[0])) by {
        assert(kana.subrange(of.start as int, seg_end(of) + 1) =~= kana.subrange(of.start as int, seg_end(of)).push(kana[seg_end(of)]));
    }
    if on.reading@.len() > 1 {
        assert(kana.subrange(on.start + 1, seg_end(on)) =~= on.reading@.drop_first()) by {
            assert(kana.subrange(on.start + 1, seg_end(on)) =~= kana.subrange(on.start as int, seg_end(on)).drop_first());
        }
    }
}

/// Extending the focused segment by one character taken from the next
/// segment (removing the next one when it had a single character) keeps
/// the tiling.
proof fn lemma_tiles_extend(kana: Seq<char>, o: Seq<SegmentState>, n: Seq<SegmentState>, f: int)
    requires
        tiles(kana, o),
        selections_valid(o),
        0 <= f,
        f + 1 < o.len(),
        n[f].start == o[f].start,
        n[f].reading@ == o[f].reading@.push(o[f + 1].reading@[0]),
        same_but_place(n[f], o[f]),
        forall|k: int| 0 <= k < f ==> #[trigger] n[k] == o[k],
        o[f + 1].reading@.len() == 1 ==> n.len() == o.len() - 1
            && forall|k: int| f < k < n.len() ==> #[trigger] n[k] == o[k + 1],
        o[f + 1].reading@.len() > 1 ==> n.len() == o.len()
            && n[f + 1].start == o[f + 1].start + 1
            && n[f + 1].reading@ == o[f + 1].reading@.drop_first()
            && same_but_place(n[f + 1], o[f + 1])
            && forall|k: int| f + 1 < k < n.len() ==> #[trigger] n[k] == o[k],
    ensures
        tiles(kana, n),
        selections_valid(n),
{
    lemma_tiles_parts(kana, o);
    let single = o[f + 1].reading@.len() == 1;
    let shift: int = if single { -1 } else { 0 };
    lemma_extend_spells(kana, o, n, f);
    if single {
        assert forall|k: int| f + 1 < k < n.len() implies #[trigger] n[k] == o[k - shift] by {
            assert(n[k] == o[k + 1]);
        }
        if f + 1 < n.len() {
            assert(n[f + 1] == o[f + 2]);
            assert(o[f + 2].start == seg_end(o[f + 1]));
            assert(o[f + 2].reading@.len() > 0 && seg_end(o[f + 2]) <= kana.len());
            assert(kana.subrange(o[f + 2].start as int, seg_end(o[f + 2])) == o[f + 2].reading@);
        }
    }
    assert(same_outside(o, n, f, shift));
    lemma_chain_local(o, n, f, shift);
    lemma_placed_local(kana, o, n, f, shift);
    lemma_selections_local(o, n, f, shift);
    if f > 0 {
        assert(n[0] == o[0]);
    }
    let last = n.len() - 1;
    if last > f + 1 {
        assert(n[last] == o[last - shift]);
    } else if last == f + 1 && single {
        assert(n[last] == o[last + 1]);
    }
    lemma_tiles_parts(kana, n);
}

/// Where the segments around a shrink at `f` lie in `kana`: the focused
/// segment ends one character earlier and that character starts the next
/// segment (an existing one, or a new one after the last).
proof fn lemma_shrink_spells(kana: Seq<char>, o: Seq<SegmentState>, n: Seq<SegmentState>, f: int)
    requires
        placed(kana, o),
        chained(o),
        0 <= f < o.len(),
        f + 1 < n.len(),
        o[f].reading@.len() > 1,
        n[f].start == o[f].start,
        n[f].reading@ == o[f].reading@.drop_last(),
        f + 1 < o.len() ==> n[f + 1].start == o[f + 1].start - 1
            && n[f + 1].reading@ == seq![o[f].reading@.last()] + o[f + 1].reading@,
        f + 1 == o.len() ==> n[f + 1].start == seg_end(n[f])
            && n[f + 1].reading@ == seq![o[f].reading@.last()],
    ensures
        n[f].reading@.len() > 0,
        seg_end(n[f]) <= kana.len(),
        kana.subrange(n[f].start as int, seg_end(n[f])) == n[f].reading@,
        n[f + 1].reading@.len() > 0,
        seg_end(n[f + 1]) <= kana.len(),
        kana.subrange(n[f + 1].start as int, seg_end(n[f + 1])) == n[f + 1].reading@,
        n[f + 1].start == seg_end(n[f]),
        f + 1 < o.len() ==> seg_end(n[f + 1]) == seg_end(o[f + 1]),
        f + 1 == o.len() ==> seg_end(n[f + 1]) == seg_end(o[f]),
{
    let of = o[f];
    let m = seg_end(of) - 1;
    assert(kana.subrange(of.start as int, seg_end(of)) == of.reading@);
    assert(kana.subrange(of.start as int, m) =~= of.reading@.drop_last()) by {
        assert(kana.subrange(of.start as int, m) =~= kana.subrange(of.start as int, seg_end(of)).drop_last());
    }
    assert(kana[m] == of.reading@.last()) by {
        assert(kana.subrange(of.start as int, seg_end(of))[of.reading@.len() - 1] == kana[m]);
    }
    assert(seg_end(n[f]) == m);
    if f + 1 < o.len() {
        let on = o[f + 1];
        assert(on.start == seg_end(of));
        assert(kana.subrange(on.start as int, seg_end(on)) == on.reading@);
        assert(kana.subrange(m, seg_end(on)) =~= seq![kana[m]] + on.reading@) by {
            assert(kana.subrange(m, seg_end(on)) =~= seq![kana[m]] + kana.subrange(on.start as int, seg_end(on)));
        }
    } else {
        assert(kana.subrange(m, m + 1) =~= seq![kana[m]]);
    }
}

/// Moving the last character of the focused segment to the start of the
/// next segment (or into a new segment after it, when it is the last)
/// keeps the tiling.
proof fn lemma_tiles_shrink(kana: Seq<char>, o: Seq<SegmentState>, n: Seq<SegmentState>, f: int)
    requires
        tiles(kana, o),
        selections_valid(o),
        0 <= f < o.len(),
        o[f].reading@.len() > 1,
        n[f].start == o[f].start,
        n[f].reading@ == o[f].reading@.drop_last(),
        same_but_place(n[f], o[f]),
        forall|k: int| 0 <= k < f ==> #[trigger] n[k] == o[k],
        f + 1 < o.len() ==> n.len() == o.len()
            && n[f + 1].start == o[f + 1].start - 1
            && n[f + 1].reading@ == seq![o[f].reading@.last()] + o[f + 1].reading@
            && same_but_place(n[f + 1], o[f + 1])
            && forall|k: int| f + 1 < k < n.len() ==> #[trigger] n[k] == o[k],
        f + 1 == o.len() ==> n.len() == o.len() + 1
            && n[f + 1].start == seg_end(n[f])
            && n[f + 1].reading@ == seq![o[f].reading@.last()]
            && n[f + 1].selected < n[f + 1].candidates@.len(),
    ensures
        tiles(kana, n),
        selections_valid(n),
{
    lemma_tiles_parts(kana, o);
    let shift: int = if f + 1 < o.len() { 0 } else { 1 };
    lemma_shrink_spells(kana, o, n, f);
    assert(same_outside(o, n, f, shift));
    lemma_chain_local(o, n, f, shift);
    lemma_placed_local(kana, o, n, f, shift);
    lemma_selections_local(o, n, f, shift);
    if f > 0 {
        assert(n[0] == o[0]);
    }
    let last = n.len() - 1;
    if last > f + 1 {
        assert(n[last] == o[last]);
    }
    lemma_tiles_parts(kana, n);
}

impl ConversionState {
    /// The segment after resizing keeps its candidates and selection.
    fn reshaped(seg: &SegmentState, reading: &Vec<char>, start: usize) -> (r: SegmentState)
        ensures
            r.reading@ == reading@,
            r.start == start,
            same_but_place(r, *seg),
    {
        SegmentState {
            reading: string_of(reading),
            start,
            candidates: copy_strings(&seg.candidates),
            selected: seg.selected,
            user_selected: seg.user_selected,
        }
    }

    /// Takes the first character of the segment after the focused one
    /// (dropping that segment when it becomes empty).
    fn extend_focused(&mut self) -> (moved: bool)
        requires
            old(self).wf(),
        ensures
            final(self).wf(),
            final(self).kana == old(self).kana,
            final(self).focus == old(self).focus,
            extended(old(self).segments@, final(self).segments@, old(self).focus as int, moved),
    {
        let f = self.focus;
        let count = self.segments.len();
        let ghost o = self.segments@;
        if f + 1 >= count {
            return false;
        }
        proof {
            lemma_segment_facts(self.kana@, o, f + 1);
        }
        let next_r = chars_of(self.segments[f + 1].reading.as_str());
        assert(next_r@.len() > 0);
        let ch = next_r[0];
        let mut cur_r = chars_of(self.segments[f].reading.as_str());
        cur_r.push(ch);
        let new_cur = Self::reshaped(&self.segments[f], &cur_r, self.segments[f].start);
        if next_r.len() == 1 {
            self.segments.set(f, new_cur);
            self.segments.remove(f + 1);
            proof {
                let n = self.segments@;
                assert forall|k: int| f < k < n.len() implies #[trigger] n[k] == o[k + 1] by {}
                assert forall|k: int| 0 <= k < f implies #[trigger] n[k] == o[k] by {}
                lemma_tiles_extend(self.kana@, o, n, f as int);
            }
        } else {
            let next = &self.segments[f + 1];
            let rest = crate::text::chars_range(&next_r, 1, next_r.len());
            assert(rest@ =~= next_r@.drop_first());
            let new_next = Self::reshaped(next, &rest, next.start + 1);
            self.segments.set(f, new_cur);
            self.segments.set(f + 1, new_next);
            proof {
                let n = self.segments@;
                assert forall|k: int| f + 1 < k < n.len() implies #[trigger] n[k] == o[k] by {}
                assert forall|k: int| 0 <= k < f implies #[trigger] n[k] == o[k] by {}
                lemma_tiles_extend(self.kana@, o, n, f as int);
            }
        }
        true
    }

    /// Moves the last character of the focused segment to the start of the
    /// next segment, or into a new last segment.
    fn shrink_focused(&mut self) -> (moved: bool)
        requires
            old(self).wf(),
        ensures
            final(self).wf(),
            final(self).kana == old(self).kana,
            final(self).focus == old(self).focus,
            shrunk(old(self).segments@, final(self).segments@, old(self).focus as int, moved),
    {
        let f = self.focus;
        let count = self.segments.len();
        let ghost o = self.segments@;
        proof {
            lemma_segment_facts(self.kana@, o, f as int);
            if f + 1 < count {
                lemma_segment_facts(self.kana@, o, f + 1);
            }
        }
        let cur_r = chars_of(self.segments[f].reading.as_str());
        if cur_r.len() <= 1 {
            return false;
        }
        let last = cur_r[cur_r.len() - 1];
        let kept = crate::text::chars_range(&cur_r, 0, cur_r.len() - 1);
        assert(kept@ =~= cur_r@.drop_last());
        let new_cur = Self::reshaped(&self.segments[f], &kept, self.segments[f].start);
        if f + 1 < count {
            let next = &self.segments[f + 1];
            let mut moved_r = vec![last];
            let next_r = chars_of(next.reading.as_str());
            append_chars(&mut moved_r, &next_r);
            assert(next.start == seg_end(o[f as int]));
            let new_next = Self::reshaped(next, &moved_r, next.start - 1);
            self.segments.set(f, new_cur);
            self.segments.set(f + 1, new_next);
            proof {
                let n = self.segments@;
                assert(n[f + 1].reading@ =~= seq![o[f as int].reading@.last()] + o[f + 1].reading@);
                assert forall|k: int| f + 1 < k < n.len() implies #[trigger] n[k] == o[k] by {}
                assert forall|k: int| 0 <= k < f implies #[trigger] n[k] == o[k] by {}
                lemma_tiles_shrink(self.kana@, o, n, f as int);
            }
        } else {
            let start = self.segments[f].start + kept.len();
            let one = vec![last];
            let text = string_of(&one);
            let new_seg = SegmentState {
                reading: string_of(&one),
                start,
                candidates: vec![text],
                selected: 0,
                user_selected: false,
            };
            self.segments.set(f, new_cur);
            self.segments.push(new_seg);
            proof {
                let n = self.segments@;
                assert(n[f + 1].reading@ =~= seq![o[f as int].reading@.last()]);
                assert(cands(n[f + 1]) =~= seq![seq![o[f as int].reading@.last()]]);
                assert forall|k: int| 0 <= k < f implies #[trigger] n[k] == o[k] by {}
                lemma_tiles_shrink(self.kana@, o, n, f as int);
            }
        }
        true
    }

    /// Moves the boundary after the focused segment: `delta > 0` takes the
    /// first character of the next segment (dropping that segment when it
    /// becomes empty); otherwise the last character of the focused segment
    /// moves to the start of the next segment, or into a new segment whose
    /// only candidate is that character. Returns whether anything moved
    /// (nothing moves past the last segment, nor shrinks a one-character
    /// segment). Candidates are left as they were.
    pub fn resize_readings(&mut self, delta: i32) -> (moved: bool)
        requires
            old(self).wf(),
        ensures
            final(self).wf(),
            final(self).kana == old(self).kana,
            final(self).focus == old(self).focus,
            delta > 0 ==> extended(old(self).segments@, final(self).segments@, old(self).focus as int, moved),
            delta <= 0 ==> shrunk(old(self).segments@, final(self).segments@, old(self).focus as int, moved),
    {
        if delta > 0 {
            self.extend_focused()
        } else {
            self.shrink_focused()
        }
    }

    /// Replaces the candidates of segment `idx` with the given surfaces
    /// (best first), appending its reading when it is not among them, and
    /// selects the first.
    pub fn set_candidates(&mut self, idx: usize, surfaces: Vec<String>)
        requires
            old(self).wf(),
            idx < old(self).segments@.len(),
        ensures
            final(self).wf(),
            final(self).kana == old(self).kana,
            final(self).focus == old(self).focus,
            final(self).segments@.len() == old(self).segments@.len(),
            forall|k: int| 0 <= k < final(self).segments@.len() && k != idx ==> #[trigger] final(self).segments@[k] == old(self).segments@[k],
            final(self).segments@[idx as int].reading == old(self).segments@[idx as int].reading,
            final(self).segments@[idx as int].start == old(self).segments@[idx as int].start,
            final(self).segments@[idx as int].user_selected == old(self).segments@[idx as int].user_selected,
            cands(final(self).segments@[idx as int]) == with_fallback(views(surfaces@), old(self).segments@[idx as int].reading@),
            final(self).segments@[idx as int].selected == 0,
    {
        let ghost o = self.segments@;
        let seg = &self.segments[idx];
        let mut fresh = SegmentState::from_surfaces(seg.reading.clone(), seg.start, surfaces);
        fresh.user_selected = seg.user_selected;
        assert(fresh.candidates@.len() > 0) by {
            assert(views(fresh.candidates@).len() == fresh.candidates@.len());
        }
        self.segments.set(idx, fresh);
        proof {
            let n = self.segments@;
            assert forall|k: int| 0 <= k < n.len() implies (#[trigger] n[k]).start == o[k].start
                && n[k].reading@ == o[k].reading@ by {}
            lemma_tiles_same_places(self.kana@, o, n);
            assert forall|k: int| 0 <= k < n.len() implies (#[trigger] n[k]).selected < n[k].candidates@.len() by {
                if k != idx {
                    assert(n[k] == o[k]);
                }
            }
        }
    }

    /// A copy of the segment marked as chosen by the user.
    fn marked_copy(seg: &SegmentState) -> (r: SegmentState)
        ensures
            r.reading == seg.reading,
            r.start == seg.start,
            r.candidates@ == seg.candidates@,
            r.selected == seg.selected,
            r.user_selected,
    {
        SegmentState {
            reading: seg.reading.clone(),
            start: seg.start,
            candidates: copy_strings(&seg.candidates),
            selected: seg.selected,
            user_selected: true,
        }
    }

    /// After a resize that moved the boundary: gives the focused segment
    /// `focused` and the segment after it (if any) `next` as candidates,
    /// best first (each reading appended when missing), selects the first
    /// of each and marks both as the user's choice.
    pub fn refresh_resized(&mut self, focused: Vec<String>, next: Vec<String>)
        requires
            old(self).wf(),
        ensures
            final(self).wf(),
            final(self).kana == old(self).kana,
            final(self).focus == old(self).focus,
            final(self).segments@.len() == old(self).segments@.len(),
            forall|k: int| 0 <= k < final(self).segments@.len() && k != old(self).focus && k != old(self).focus + 1
                ==> #[trigger] final(self).segments@[k] == old(self).segments@[k],
            forall|k: int| 0 <= k < final(self).segments@.len() && (k == old(self).focus || k == old(self).focus + 1) ==> {
                &&& (#[trigger] final(self).segments@[k]).reading == old(self).segments@[k].reading
                &&& final(self).segments@[k].start == old(self).segments@[k].start
                &&& cands(final(self).segments@[k]) == with_fallback(
                    views(if k == old(self).focus { focused@ } else { next@ }), old(self).segments@[k].reading@)
                &&& cands(final(self).segments@[k]).contains(final(self).segments@[k].reading@)
                &&& final(self).segments@[k].selected == 0
                &&& final(self).segments@[k].user_selected
            },
    {
        let ghost s1 = *self;
        let ghost a = views(focused@);
        let ghost b = views(next@);
        let f = self.focus;
        self.set_candidates(f, focused);
        let ghost s2 = *self;
        if f < self.segments.len() - 1 {
            self.set_candidates(f + 1, next);
        }
        let ghost s3 = *self;
        self.mark_resized();
        proof {
            let s4 = *self;
            assert forall|k: int| 0 <= k < s4.segments@.len() && (k == f || k == f + 1) implies {
                &&& (#[trigger] s4.segments@[k]).reading == s1.segments@[k].reading
                &&& s4.segments@[k].start == s1.segments@[k].start
                &&& cands(s4.segments@[k]) == with_fallback(if k == f { a } else { b }, s1.segments@[k].reading@)
                &&& cands(s4.segments@[k]).contains(s4.segments@[k].reading@)
                &&& s4.segments@[k].selected == 0
                &&& s4.segments@[k].user_selected
            } by {
                let r = s1.segments@[k].reading@;
                let sur = if k == f { a } else { b };
                let w = with_fallback(sur, r);
                assert(w.contains(r)) by {
                    if !sur.contains(r) {
                        assert(w[sur.len() as int] == r);
                    }
                }
                if k == f && f + 1 < s2.segments@.len() {
                    assert(s3.segments@[k] == s2.segments@[k]);
                }
                assert(cands(s4.segments@[k]) == cands(s3.segments@[k]));
            }
            assert forall|k: int| 0 <= k < s4.segments@.len() && k != f && k != f + 1
                implies #[trigger] s4.segments@[k] == s1.segments@[k] by {
                assert(s4.segments@[k] == s3.segments@[k]);
                if f + 1 < s2.segments@.len() {
                    assert(s3.segments@[k] == s2.segments@[k]);
                }
                assert(s2.segments@[k] == s1.segments@[k]);
            }
        }
    }

    /// Marks the focused segment and the one after it (if any) as chosen
    /// by the user.
    pub fn mark_resized(&mut self)
        requires
            old(self).wf(),
        ensures
            final(self).wf(),
            final(self).kana == old(self).kana,
            final(self).focus == old(self).focus,
            marked(old(self).segments@, final(self).segments@, old(self).focus as int),
    {
        let f = self.focus;
        let ghost o = self.segments@;
        let a = Self::marked_copy(&self.segments[f]);
        self.segments.set(f, a);
        let ghost mid = self.segments@;
        assert(mid == o.update(f as int, a));
        if f < self.segments.len() - 1 {
            let b = Self::marked_copy(&self.segments[f + 1]);
            self.segments.set(f + 1, b);
            assert(self.segments@ == mid.update(f + 1, b));
        }
        proof {
            let n = self.segments@;
            assert forall|k: int| 0 <= k < n.len() implies (#[trigger] n[k]).start == o[k].start
                && n[k].reading@ == o[k].reading@ && n[k].selected == o[k].selected
                && n[k].candidates@.len() == o[k].candidates@.len() by {
                if k != f && k != f + 1 {
                    assert(n[k] == o[k]);
                }
            }
            lemma_tiles_same_places(self.kana@, o, n);
            assert forall|k: int| 0 <= k < n.len() implies (#[trigger] n[k]).selected < n[k].candidates@.len() by {
                assert(o[k].selected < o[k].candidates@.len());
            }
        }
    }

    fn set_user_selected(&mut self, idx: usize)
        requires
            old(self).wf(),
            idx < old(self).segments@.len(),
        ensures
            final(self).wf(),
            final(self).kana == old(self).kana,
            final(self).focus == old(self).focus,
            final(self).segments@ == old(self).segments@.update(idx as int, final(self).segments@[idx as int]),
            final(self).segments@[idx as int].reading == old(self).segments@[idx as int].reading,
            final(self).segments@[idx as int].start == old(self).segments@[idx as int].start,
            final(self).segments@[idx as int].candidates@ == old(self).segments@[idx as int].candidates@,
            final(self).segments@[idx as int].selected == old(self).segments@[idx as int].selected,
            final(self).segments@[idx as int].user_selected,
    {
        let ghost o = self.segments@;
        let seg = &self.segments[idx];
        let fresh = SegmentState {
            reading: seg.reading.clone(),
            start: seg.start,
            candidates: copy_strings(&seg.candidates),
            selected: seg.selected,
            user_selected: true,
        };
        self.segments.set(idx, fresh);
        proof {
            let n = self.segments@;
            assert forall|k: int| 0 <= k < n.len() implies (#[trigger] n[k]).start == o[k].start
                && n[k].reading@ == o[k].reading@ by {}
            lemma_tiles_same_places(self.kana@, o, n);
            assert forall|k: int| 0 <= k < n.len() implies (#[trigger] n[k]).selected < n[k].candidates@.len() by {}
        }
    }
}


/// The (reading, selected surface) pairs of the segments the user chose
/// explicitly, in order.
pub open spec fn selections(segs: Seq<SegmentState>) -> Seq<(Seq<char>, Seq<char>)>
    decreases segs.len(),
{
    if segs.len() == 0 {
        Seq::empty()
    } else {
        let p = selections(segs.drop_last());
        if segs.last().user_selected {
            p.push((segs.last().reading@, selected_text(segs.last())))
        } else {
            p
        }
    }
}

/// The five forms of a kana string, in key order: hiragana, katakana,
/// half-width katakana, romaji (half-width alphanumerics) and full-width
/// romaji.
pub open spec fn five_forms(kana: Seq<char>) -> Seq<Seq<char>> {
    seq![
        kana,
        kana.map_values(|c: char| katakana_char(c)),
        halfwidth_of(kana),
        romaji_from(kana, 0),
        romaji_from(kana, 0).map_values(|c: char| fullwidth_char(c)),
    ]
}

/// The kana forms offered by kana conversion: the five forms, each once,
/// in that order.
pub open spec fn kana_forms(kana: Seq<char>) -> Seq<Seq<char>> {
    push_new(Seq::empty(), five_forms(kana))
}

/// Everything appended, and everything already there, is in the result.
proof fn lemma_push_new_contains(acc: Seq<Seq<char>>, xs: Seq<Seq<char>>)
    ensures
        forall|j: int| 0 <= j < xs.len() ==> push_new(acc, xs).contains(#[trigger] xs[j]),
        forall|j: int| 0 <= j < acc.len() ==> push_new(acc, xs).contains(#[trigger] acc[j]),
    decreases xs.len(),
{
    if xs.len() > 0 {
        lemma_push_new_contains(acc, xs.drop_last());
        let a = push_new(acc, xs.drop_last());
        let r = push_new(acc, xs);
        assert forall|j: int| 0 <= j < xs.len() implies r.contains(#[trigger] xs[j]) by {
            if j < xs.len() - 1 {
                assert(xs[j] == xs.drop_last()[j]);
                assert(a.contains(xs[j]));
                if !a.contains(xs.last()) {
                    let k = choose|k: int| 0 <= k < a.len() && a[k] == xs[j];
                    assert(r[k] == xs[j]);
                }
            } else if !a.contains(xs.last()) {
                assert(r[a.len() as int] == xs.last());
            }
        }
        assert forall|j: int| 0 <= j < acc.len() implies r.contains(#[trigger] acc[j]) by {
            assert(a.contains(acc[j]));
            if !a.contains(xs.last()) {
                let k = choose|k: int| 0 <= k < a.len() && a[k] == acc[j];
                assert(r[k] == acc[j]);
            }
        }
    }
}

/// Law: the readings of a tiling spell the kana.
pub proof fn lemma_tiles_spell_kana(kana: Seq<char>, segs: Seq<SegmentState>)
    requires
        tiles(kana, segs),
    ensures
        concat(readings(segs)) == kana,
{
    reveal(tiles);
    lemma_prefix_spells(kana, segs, segs.len() as int);
    assert(readings(segs).take(segs.len() as int) =~= readings(segs));
    assert(kana.subrange(0, kana.len() as int) =~= kana);
}

proof fn lemma_prefix_spells(kana: Seq<char>, segs: Seq<SegmentState>, m: int)
    requires
        tiles(kana, segs),
        0 < m <= segs.len(),
    ensures
        concat(readings(segs).take(m)) == kana.subrange(0, seg_end(segs[m - 1])),
    decreases m,
{
    reveal(tiles);
    let rs = readings(segs);
    lemma_concat_step(rs, m - 1);
    assert(segs[m - 1].reading@.len() > 0);
    if m == 1 {
        assert(rs.take(0) =~= Seq::<Seq<char>>::empty());
        assert(segs[0].start == 0);
    } else {
        lemma_prefix_spells(kana, segs, m - 1);
        assert(segs[m - 1].start == seg_end(segs[m - 2]));
        lemma_sub_split(kana, 0, segs[m - 1].start as int, seg_end(segs[m - 1]));
    }
}

impl ConversionState {
    /// The (reading, selected surface) pairs of the segments the user chose
    /// explicitly: what a commit records for learning.
    pub fn user_selections(&self) -> (r: Vec<(String, String)>)
        requires
            self.wf(),
        ensures
            r@.map_values(|p: (String, String)| (p.0@, p.1@)) == selections(self.segments@),
    {
        let mut r: Vec<(String, String)> = Vec::new();
        let mut k: usize = 0;
        while k < self.segments.len()
            invariant
                self.wf(),
                k <= self.segments@.len(),
                r@.map_values(|p: (String, String)| (p.0@, p.1@)) == selections(self.segments@.take(k as int)),
            decreases self.segments.len() - k,
        {
            let seg = &self.segments[k];
            assert(self.segments@.take(k + 1).drop_last() =~= self.segments@.take(k as int));
            if seg.user_selected {
                assert(seg.selected < seg.candidates@.len());
                let ghost before = r@;
                r.push((seg.reading.clone(), seg.candidates[seg.selected].clone()));
                assert(r@.map_values(|p: (String, String)| (p.0@, p.1@)) =~= before.map_values(|p: (String, String)| (p.0@, p.1@)).push((seg.reading@, selected_text(*seg))));
            }
            k += 1;
        }
        assert(self.segments@.take(self.segments@.len() as int) =~= self.segments@);
        r
    }

    /// The state of kana conversion: a single segment holding the whole
    /// kana, whose candidates are its five forms (hiragana, katakana,
    /// half-width katakana, romaji, full-width romaji) without repeats.
    /// `form` picks the candidate equal to that form (0 to 4, in that
    /// order; larger values pick the last candidate); any form but hiragana
    /// counts as the user's choice.
    pub fn for_kana_forms(kana: String, form: usize) -> (r: Self)
        requires
            kana@.len() > 0,
        ensures
            r.wf(),
            r.kana == kana,
            r.focus == 0,
            r.segments@.len() == 1,
            r.segments@[0].reading == kana,
            r.segments@[0].start == 0,
            cands(r.segments@[0]) == kana_forms(kana@),
            r.segments@[0].selected == (if form < 5 {
                index_of(kana_forms(kana@), five_forms(kana@)[form as int])
            } else {
                kana_forms(kana@).len() - 1
            }),
            r.segments@[0].user_selected == (form != 0),
    {
        let forms: Vec<String> = vec![
            kana.clone(),
            hiragana_to_katakana(kana.as_str()),
            hiragana_to_halfwidth_katakana(kana.as_str()),
            hiragana_to_romaji(kana.as_str()),
            hiragana_to_fullwidth_romaji(kana.as_str()),
        ];
        let ghost fv = five_forms(kana@);
        assert(views(forms@) =~= fv);
        let mut candidates: Vec<String> = Vec::new();
        let mut i: usize = 0;
        while i < forms.len()
            invariant
                forms@.len() == 5,
                views(forms@) == fv,
                i <= 5,
                views(candidates@) == push_new(Seq::empty(), fv.take(i as int)),
            decreases 5 - i,
        {
            let f = chars_of(forms[i].as_str());
            assert(f@ == fv[i as int]);
            assert(fv.take(i + 1).drop_last() =~= fv.take(i as int));
            assert(fv.take(i + 1).last() == fv[i as int]);
            match position_of(&candidates, &f) {
                Some(_) => {},
                None => {
                    let ghost before = views(candidates@);
                    candidates.push(forms[i].clone());
                    assert(views(candidates@) =~= before.push(f@));
                },
            }
            i += 1;
        }
        assert(fv.take(5) =~= fv);
        assert(views(candidates@) == kana_forms(kana@));
        let count = candidates.len();
        proof {
            lemma_push_new_contains(Seq::empty(), fv);
            assert(fv[0] == kana@);
            assert(views(candidates@).contains(fv[0]));
        }
        let selected = if form < 5 {
            let f = chars_of(forms[form].as_str());
            assert(f@ == fv[form as int]);
            assert(views(candidates@).contains(fv[form as int]));
            match position_of(&candidates, &f) {
                Some(p) => p,
                None => 0,
            }
        } else {
            count - 1
        };
        let kc = chars_of(kana.as_str());
        let n: usize = kc.len();
        assert(n == kana@.len());
        let seg = SegmentState { reading: kana.clone(), start: 0, candidates, selected, user_selected: form != 0 };
        let segments = vec![seg];
        proof {
            reveal(tiles);
            assert(kana@.subrange(0, kana@.len() as int) =~= kana@);
        }
        ConversionState { kana, segments, focus: 0 }
    }
}

// ---------------------------------------------------------------------------
// Whole-sentence candidates
// ---------------------------------------------------------------------------

/// The best surface of a dictionary segment: its first candidate, or its
/// reading when it has none.
pub open spec fn top_surface(seg: Segment) -> Seq<char> {
    if seg.candidates@.len() > 0 {
        seg.candidates@[0].surface@
    } else {
        seg.reading@
    }
}

/// The best surface of each segment.
pub open spec fn tops(segs: Seq<Segment>) -> Seq<Seq<char>> {
    segs.map_values(|s: Segment| top_surface(s))
}

/// The reading of each dictionary segment.
pub open spec fn segment_readings(segs: Seq<Segment>) -> Seq<Seq<char>> {
    segs.map_values(|s: Segment| s.reading@)
}

/// The sentence with segment `i` replaced by `c` and the others at their best.
pub open spec fn alternative(segs: Seq<Segment>, i: int, c: Seq<char>) -> Seq<char> {
    concat(tops(segs).update(i, c))
}

/// The alternatives for segment `i`: its second to fourth candidates.
pub open spec fn alternatives_of(segs: Seq<Segment>, i: int) -> Seq<Seq<char>> {
    let c = segs[i].candidates@;
    let m = if c.len() > 4 { 3 } else if c.len() >= 1 { c.len() - 1 } else { 0 };
    Seq::new(m as nat, |t: int| alternative(segs, i, c[t + 1].surface@))
}

/// The alternatives for segments `0..n`, segment by segment.
pub open spec fn all_alternatives(segs: Seq<Segment>, n: int) -> Seq<Seq<char>>
    decreases n,
{
    if n <= 0 {
        Seq::empty()
    } else {
        all_alternatives(segs, n - 1) + alternatives_of(segs, n - 1)
    }
}

/// Whole-sentence candidates: the best sentence, then each single-segment
/// alternative, then the raw kana, without repeats.
pub open spec fn sentence_candidates(segs: Seq<Segment>) -> Seq<Seq<char>> {
    push_new(seq![concat(tops(segs))], all_alternatives(segs, segs.len() as int) + seq![concat(segment_readings(segs))])
}

fn top_of(seg: &Segment) -> (r: Vec<char>)
    ensures
        r@ == top_surface(*seg),
{
    if seg.candidates.len() > 0 {
        chars_of(seg.candidates[0].surface.as_str())
    } else {
        chars_of(seg.reading.as_str())
    }
}

/// The best surfaces joined, with segment `i` replaced by `c` when given.
fn assemble(segs: &Vec<Segment>, replace: Option<(usize, &Vec<char>)>) -> (r: Vec<char>)
    requires
        replace matches Some(p) ==> p.0 < segs@.len(),
    ensures
        r@ == (match replace {
            Some(p) => alternative(segs@, p.0 as int, p.1@),
            None => concat(tops(segs@)),
        }),
{
    let ghost parts = match replace {
        Some(p) => tops(segs@).update(p.0 as int, p.1@),
        None => tops(segs@),
    };
    let mut out: Vec<char> = Vec::new();
    let mut j: usize = 0;
    while j < segs.len()
        invariant
            j <= segs@.len(),
            parts.len() == segs@.len(),
            parts == (match replace {
                Some(p) => tops(segs@).update(p.0 as int, p.1@),
                None => tops(segs@),
            }),
            replace matches Some(p) ==> p.0 < segs@.len(),
            out@ == concat(parts.take(j as int)),
        decreases segs.len() - j,
    {
        proof { lemma_concat_step(parts, j as int); }
        match replace {
            Some((i, c)) => {
                if j == i {
                    append_chars(&mut out, c);
                } else {
                    let t = top_of(&segs[j]);
                    append_chars(&mut out, &t);
                }
            },
            None => {
                let t = top_of(&segs[j]);
                append_chars(&mut out, &t);
            },
        }
        j += 1;
    }
    assert(parts.take(segs@.len() as int) =~= parts);
    out
}

/// Appends `s` to `results` unless it is already there.
fn push_unique(results: &mut Vec<String>, s: &Vec<char>)
    ensures
        views(final(results)@) == (if views(old(results)@).contains(s@) { views(old(results)@) } else { views(old(results)@).push(s@) }),
{
    match position_of(results, s) {
        Some(k) => {
            assert(views(results@)[k as int] == s@);
        },
        None => {
            let ghost before = views(results@);
            results.push(string_of(s));
            assert(views(results@) =~= before.push(s@));
        },
    }
}

/// Builds whole-sentence candidates from segmented words: the best
/// sentence, each sentence that swaps one segment for one of its second
/// to fourth candidates, and the raw kana, each once, in that order.
pub fn build_candidates(segments: &Vec<Segment>) -> (r: Vec<String>)
    ensures
        views(r@) == sentence_candidates(segments@),
{
    let ghost init = seq![concat(tops(segments@))];
    let best = assemble(segments, None);
    let mut results: Vec<String> = Vec::new();
    results.push(string_of(&best));
    assert(views(results@) =~= init);
    let ghost mut done: Seq<Seq<char>> = Seq::empty();
    assert(push_new(init, done) == init);
    let mut i: usize = 0;
    while i < segments.len()
        invariant
            i <= segments@.len(),
            views(results@) == push_new(init, done),
            done == all_alternatives(segments@, i as int),
        decreases segments.len() - i,
    {
        let cands = &segments[i].candidates;
        let m: usize = if cands.len() > 4 { 3 } else if cands.len() >= 1 { cands.len() - 1 } else { 0 };
        assert(m as int == alternatives_of(segments@, i as int).len());
        let ghost base = done;
        let mut t: usize = 0;
        while t < m
            invariant
                i < segments@.len(),
                cands == &segments@[i as int].candidates,
                m as int == alternatives_of(segments@, i as int).len(),
                m + 1 <= cands@.len() || m == 0,
                t <= m,
                base == all_alternatives(segments@, i as int),
                done == base + alternatives_of(segments@, i as int).take(t as int),
                views(results@) == push_new(init, done),
            decreases m - t,
        {
            let c = chars_of(cands[t + 1].surface.as_str());
            let alt = assemble(segments, Some((i, &c)));
            assert(alt@ == alternatives_of(segments@, i as int)[t as int]);
            proof {
                let nd = done.push(alt@);
                assert(nd.drop_last() =~= done);
                assert(base + alternatives_of(segments@, i as int).take(t + 1) =~= nd);
                done = nd;
            }
            push_unique(&mut results, &alt);
            t += 1;
        }
        assert(alternatives_of(segments@, i as int).take(m as int) =~= alternatives_of(segments@, i as int));
        i += 1;
    }
    let raw = {
        let mut out: Vec<char> = Vec::new();
        let mut j: usize = 0;
        while j < segments.len()
            invariant
                j <= segments@.len(),
                out@ == concat(segment_readings(segments@).take(j as int)),
            decreases segments.len() - j,
        {
            proof { lemma_concat_step(segment_readings(segments@), j as int); }
            let rc = chars_of(segments[j].reading.as_str());
            append_chars(&mut out, &rc);
            j += 1;
        }
        assert(segment_readings(segments@).take(segments@.len() as int) =~= segment_readings(segments@));
        out
    };
    proof {
        let nd = done.push(raw@);
        assert(nd.drop_last() =~= done);
        assert(nd =~= all_alternatives(segments@, segments@.len() as int) + seq![concat(segment_readings(segments@))]);
    }
    push_unique(&mut results, &raw);
    results
}

/// The part of speech of a segment's best candidate (`Other` without one).
pub open spec fn top_pos(seg: Segment) -> PartOfSpeech {
    if seg.candidates@.len() > 0 {
        seg.candidates@[0].pos
    } else {
        PartOfSpeech::Other
    }
}

/// Grammar tokens for a segmentation: each segment's best surface (its
/// reading when it has no candidate) with that candidate's part of speech.
pub fn tokens_for_grammar(segments: &Vec<Segment>) -> (r: Vec<GrammarToken>)
    ensures
        r@.len() == segments@.len(),
        forall|k: int| 0 <= k < r@.len() ==> (#[trigger] r@[k]).surface@ == top_surface(segments@[k])
            && r@[k].pos == top_pos(segments@[k]),
{
    let mut r: Vec<GrammarToken> = Vec::new();
    let mut k: usize = 0;
    while k < segments.len()
        invariant
            k <= segments@.len(),
            r@.len() == k,
            forall|j: int| 0 <= j < k ==> (#[trigger] r@[j]).surface@ == top_surface(segments@[j])
                && r@[j].pos == top_pos(segments@[j]),
        decreases segments.len() - k,
    {
        let seg = &segments[k];
        let (surface, pos) = if seg.candidates.len() > 0 {
            (seg.candidates[0].surface.clone(), seg.candidates[0].pos)
        } else {
            (seg.reading.clone(), PartOfSpeech::Other)
        };
        r.push(GrammarToken { surface, pos });
        k += 1;
    }
    r
}


// ---------------------------------------------------------------------------
// Laws
// ---------------------------------------------------------------------------

/// Law: a step forward and a step back (in either order) return to the
/// same index, for moving the focus and for cycling candidates alike.
pub proof fn lemma_step_undo(i: int, len: int)
    requires
        0 <= i < len,
    ensures
        step_index(step_index(i, len, 1i32), len, -1i32) == i,
        step_index(step_index(i, len, -1i32), len, 1i32) == i,
        0 <= step_index(i, len, 1i32) < len,
        0 <= step_index(i, len, -1i32) < len,
{
    if i + 1 < len {
        vstd::arithmetic::div_mod::lemma_small_mod((i + 1) as nat, len as nat);
    } else {
        vstd::arithmetic::div_mod::lemma_mod_self_0(len);
    }
    if i > 0 {
        vstd::arithmetic::div_mod::lemma_small_mod(i as nat, len as nat);
    } else {
        vstd::arithmetic::div_mod::lemma_mod_self_0(len);
    }
}

/// Law: the candidates offered for a segment or a sentence never repeat:
/// appending only unseen elements to a repeat-free sequence keeps it so.
pub proof fn lemma_push_new_distinct(acc: Seq<Seq<char>>, xs: Seq<Seq<char>>)
    requires
        acc.no_duplicates(),
    ensures
        push_new(acc, xs).no_duplicates(),
    decreases xs.len(),
{
    if xs.len() > 0 {
        lemma_push_new_distinct(acc, xs.drop_last());
        let a = push_new(acc, xs.drop_last());
        if !a.contains(xs.last()) {
            let b = a.push(xs.last());
            assert forall|i: int, j: int| 0 <= i < b.len() && 0 <= j < b.len() && i != j implies b[i] != b[j] by {
                if i < a.len() && j < a.len() {
                } else if i == a.len() {
                    assert(b[j] == a[j]);
                } else {
                    assert(b[i] == a[i]);
                }
            }
        }
    }
}

/// Law: extending the focused segment and then shrinking it again gives
/// back the same segments, when the next segment had at least two
/// characters (otherwise the extension removes it and the shrink hands the
/// character to the segment after it).
pub proof fn lemma_extend_shrink_undo(o: Seq<SegmentState>, m: Seq<SegmentState>, n: Seq<SegmentState>, f: int)
    requires
        0 <= f,
        f + 1 < o.len(),
        o[f + 1].reading@.len() > 1,
        extended(o, m, f, true),
        shrunk(m, n, f, true),
    ensures
        n.len() == o.len(),
        forall|k: int| 0 <= k < n.len() && k != f && k != f + 1 ==> #[trigger] n[k] == o[k],
        forall|k: int| 0 <= k < n.len() && (k == f || k == f + 1) ==> {
            &&& (#[trigger] n[k]).reading@ == o[k].reading@
            &&& n[k].start == o[k].start
            &&& same_but_place(n[k], o[k])
        },
{
    assert(n[f].reading@ =~= o[f].reading@);
    assert(m[f].reading@.last() == o[f + 1].reading@[0]);
    assert(n[f + 1].reading@ =~= o[f + 1].reading@);
    assert forall|k: int| 0 <= k < n.len() && k != f && k != f + 1 implies #[trigger] n[k] == o[k] by {
        if k < f {
            assert(n[k] == m[k]);
        } else {
            assert(n[k] == m[k]);
        }
    }
}

/// `n` is `o` after `set_candidates(idx, surfaces)`: segment `idx` offers
/// the surfaces (with its reading appended when missing) and selects the
/// first; nothing else changes.
pub open spec fn candidates_set(o: ConversionState, n: ConversionState, idx: int, surfaces: Seq<Seq<char>>) -> bool {
    &&& n.wf()
    &&& n.kana == o.kana
    &&& n.focus == o.focus
    &&& n.segments@.len() == o.segments@.len()
    &&& forall|k: int| 0 <= k < n.segments@.len() && k != idx ==> #[trigger] n.segments@[k] == o.segments@[k]
    &&& n.segments@[idx].reading == o.segments@[idx].reading
    &&& n.segments@[idx].start == o.segments@[idx].start
    &&& n.segments@[idx].user_selected == o.segments@[idx].user_selected
    &&& cands(n.segments@[idx]) == with_fallback(surfaces, o.segments@[idx].reading@)
    &&& n.segments@[idx].selected == 0
}

/// Law: resizing the focused segment, as a whole (moving the boundary,
/// giving the focused segment and the one after it, if any, fresh
/// candidates, then marking both as the user's choice), keeps the kana,
/// the focus and the tiling; an extension adds the next segment's first
/// character to the focused reading, a shrink removes its last one; and
/// each changed segment offers its own reading among its candidates, has
/// the first selected and counts as the user's choice.
pub proof fn lemma_resize_segment(
    s0: ConversionState,
    s1: ConversionState,
    s2: ConversionState,
    s3: ConversionState,
    s4: ConversionState,
    delta: i32,
    a: Seq<Seq<char>>,
    b: Seq<Seq<char>>,
)
    requires
        s0.wf(),
        s1.wf(),
        s1.kana == s0.kana,
        s1.focus == s0.focus,
        delta > 0 ==> extended(s0.segments@, s1.segments@, s0.focus as int, true),
        delta <= 0 ==> shrunk(s0.segments@, s1.segments@, s0.focus as int, true),
        candidates_set(s1, s2, s1.focus as int, a),
        s1.focus + 1 < s2.segments@.len() ==> candidates_set(s2, s3, s1.focus + 1, b),
        s1.focus + 1 >= s2.segments@.len() ==> s3 == s2,
        s4.wf(),
        s4.kana == s3.kana,
        s4.focus == s3.focus,
        marked(s3.segments@, s4.segments@, s3.focus as int),
    ensures
        s4.kana == s0.kana,
        s4.focus == s0.focus,
        tiles(s4.kana@, s4.segments@),
        delta > 0 ==> s4.segments@[s0.focus as int].reading@
            == s0.segments@[s0.focus as int].reading@.push(s0.segments@[s0.focus + 1].reading@[0]),
        delta <= 0 ==> s4.segments@[s0.focus as int].reading@ == s0.segments@[s0.focus as int].reading@.drop_last(),
        forall|k: int| 0 <= k < s4.segments@.len() && (k == s0.focus || k == s0.focus + 1) ==> {
            &&& cands(#[trigger] s4.segments@[k]).contains(s4.segments@[k].reading@)
            &&& s4.segments@[k].selected == 0
            &&& s4.segments@[k].user_selected
        },
        forall|k: int| 0 <= k < s4.segments@.len() && k != s0.focus && k != s0.focus + 1
            ==> #[trigger] s4.segments@[k] == s1.segments@[k],
{
    let f = s0.focus as int;
    assert(s4.segments@[f].reading == s1.segments@[f].reading);
    assert forall|k: int| 0 <= k < s4.segments@.len() && (k == f || k == f + 1) implies {
        &&& cands(#[trigger] s4.segments@[k]).contains(s4.segments@[k].reading@)
        &&& s4.segments@[k].selected == 0
        &&& s4.segments@[k].user_selected
    } by {
        let r = s1.segments@[k].reading@;
        let sur = if k == f { a } else { b };
        let w = with_fallback(sur, r);
        assert(w.contains(r)) by {
            if !sur.contains(r) {
                assert(w[sur.len() as int] == r);
            }
        }
        if k == f {
            if f + 1 < s2.segments@.len() {
                assert(s3.segments@[f] == s2.segments@[f]);
            }
        }
        assert(cands(s4.segments@[k]) == cands(s3.segments@[k]));
    }
    assert forall|k: int| 0 <= k < s4.segments@.len() && k != f && k != f + 1
        implies #[trigger] s4.segments@[k] == s1.segments@[k] by {
        assert(s4.segments@[k] == s3.segments@[k]);
        if f + 1 < s2.segments@.len() {
            assert(s3.segments@[k] == s2.segments@[k]);
        }
        assert(s2.segments@[k] == s1.segments@[k]);
    }
}


/// What `push_new` keeps and what it adds: `acc` stays in front, unchanged,
/// and every element comes from `acc` or from `xs`.
proof fn lemma_push_new_origin(acc: Seq<Seq<char>>, xs: Seq<Seq<char>>)
    ensures
        push_new(acc, xs).len() >= acc.len(),
        forall|k: int| 0 <= k < acc.len() ==> #[trigger] push_new(acc, xs)[k] == acc[k],
        forall|k: int| 0 <= k < push_new(acc, xs).len() ==>
            acc.contains(#[trigger] push_new(acc, xs)[k]) || xs.contains(push_new(acc, xs)[k]),
    decreases xs.len(),
{
    if xs.len() > 0 {
        lemma_push_new_origin(acc, xs.drop_last());
        let a = push_new(acc, xs.drop_last());
        let r = push_new(acc, xs);
        assert forall|k: int| 0 <= k < acc.len() implies #[trigger] r[k] == acc[k] by {
            assert(a[k] == acc[k]);
        }
        assert forall|k: int| 0 <= k < r.len() implies acc.contains(#[trigger] r[k]) || xs.contains(r[k]) by {
            if k < a.len() {
                assert(r[k] == a[k]);
                if !acc.contains(a[k]) {
                    let j = choose|j: int| 0 <= j < xs.drop_last().len() && xs.drop_last()[j] == a[k];
                    assert(xs[j] == a[k]);
                }
            } else {
                assert(r[k] == xs[xs.len() - 1]);
            }
        }
    }
}

/// `x` is one of the alternatives of one of the segments `0..n`.
spec fn alternative_from(segs: Seq<Segment>, n: int, x: Seq<char>) -> bool {
    exists|i: int, t: int| 0 <= i < n && 0 <= t < alternatives_of(segs, i).len()
        && x == #[trigger] alternatives_of(segs, i)[t]
}

/// Each alternative of segments `0..n` is one of the alternatives of one
/// of those segments, and each of those is among them.
proof fn lemma_all_alternatives_members(segs: Seq<Segment>, n: int)
    requires
        0 <= n <= segs.len(),
    ensures
        forall|k: int| 0 <= k < all_alternatives(segs, n).len() ==>
            alternative_from(segs, n, #[trigger] all_alternatives(segs, n)[k]),
        forall|i: int, t: int| 0 <= i < n && 0 <= t < alternatives_of(segs, i).len() ==>
            all_alternatives(segs, n).contains(#[trigger] alternatives_of(segs, i)[t]),
    decreases n,
{
    if n > 0 {
        lemma_all_alternatives_members(segs, n - 1);
        let p = all_alternatives(segs, n - 1);
        let q = alternatives_of(segs, n - 1);
        let r = all_alternatives(segs, n);
        assert(r == p + q);
        assert forall|k: int| 0 <= k < r.len() implies alternative_from(segs, n, #[trigger] r[k]) by {
            if k < p.len() {
                assert(r[k] == p[k]);
                assert(alternative_from(segs, n - 1, p[k]));
                let (i, t) = choose|i: int, t: int| 0 <= i < n - 1 && 0 <= t < alternatives_of(segs, i).len()
                    && p[k] == #[trigger] alternatives_of(segs, i)[t];
                assert(0 <= i < n && 0 <= t < alternatives_of(segs, i).len() && r[k] == alternatives_of(segs, i)[t]);
            } else {
                assert(r[k] == q[k - p.len()]);
                assert(0 <= n - 1 < n && 0 <= k - p.len() < alternatives_of(segs, n - 1).len()
                    && r[k] == alternatives_of(segs, n - 1)[k - p.len()]);
            }
        }
        assert forall|i: int, t: int| 0 <= i < n && 0 <= t < alternatives_of(segs, i).len() implies
            r.contains(#[trigger] alternatives_of(segs, i)[t]) by {
            if i < n - 1 {
                let k = choose|k: int| 0 <= k < p.len() && p[k] == alternatives_of(segs, i)[t];
                assert(r[k] == p[k]);
            } else {
                assert(r[p.len() + t] == q[t]);
            }
        }
    }
}

/// Law: the whole-sentence candidates are, first, the best sentence (each
/// segment's first candidate, or its reading when it has none, joined in
/// order); then sentences that differ from it in exactly one segment,
/// whose piece is that segment's second, third or fourth candidate while
/// every other segment keeps its best piece; then the raw kana (the
/// readings joined). Nothing else appears, and every such one-segment
/// swap and the raw kana do appear.
pub proof fn lemma_sentence_candidates_shape(segs: Seq<Segment>)
    ensures
        sentence_candidates(segs).len() >= 1,
        sentence_candidates(segs)[0] == concat(Seq::new(segs.len(), |j: int|
            if segs[j].candidates@.len() > 0 { segs[j].candidates@[0].surface@ } else { segs[j].reading@ })),
        forall|k: int| 0 <= k < sentence_candidates(segs).len() ==> {
            ||| #[trigger] sentence_candidates(segs)[k] == concat(Seq::new(segs.len(), |j: int|
                    if segs[j].candidates@.len() > 0 { segs[j].candidates@[0].surface@ } else { segs[j].reading@ }))
            ||| exists|i: int, t: int| #![trigger segs[i].candidates@[t]]
                    0 <= i < segs.len() && 1 <= t <= 3 && t < segs[i].candidates@.len()
                    && sentence_candidates(segs)[k] == concat(Seq::new(segs.len(), |j: int|
                        if j == i { segs[i].candidates@[t].surface@ }
                        else if segs[j].candidates@.len() > 0 { segs[j].candidates@[0].surface@ }
                        else { segs[j].reading@ }))
            ||| sentence_candidates(segs)[k] == concat(Seq::new(segs.len(), |j: int| segs[j].reading@))
        },
        forall|i: int, t: int| 0 <= i < segs.len() && 1 <= t <= 3 && t < segs[i].candidates@.len() ==>
            sentence_candidates(segs).contains(concat(Seq::new(segs.len(), |j: int|
                if j == i { (#[trigger] segs[i].candidates@[t]).surface@ }
                else if segs[j].candidates@.len() > 0 { segs[j].candidates@[0].surface@ }
                else { segs[j].reading@ }))),
        sentence_candidates(segs).contains(concat(Seq::new(segs.len(), |j: int| segs[j].reading@))),
{
    let n = segs.len() as int;
    let best = concat(tops(segs));
    let raw = concat(segment_readings(segs));
    let alts = all_alternatives(segs, n);
    let xs = alts + seq![raw];
    let init = seq![best];
    let sc = sentence_candidates(segs);
    assert(sc == push_new(init, xs));
    lemma_push_new_origin(init, xs);
    lemma_push_new_contains(init, xs);
    lemma_all_alternatives_members(segs, n);
    assert(tops(segs) =~= Seq::new(segs.len(), |j: int|
        if segs[j].candidates@.len() > 0 { segs[j].candidates@[0].surface@ } else { segs[j].reading@ }));
    assert(segment_readings(segs) =~= Seq::new(segs.len(), |j: int| segs[j].reading@));
    assert(sc[0] == best);
    assert forall|i: int, c: Seq<char>| 0 <= i < n implies #[trigger] alternative(segs, i, c) == concat(Seq::new(segs.len(), |j: int|
        if j == i { c } else if segs[j].candidates@.len() > 0 { segs[j].candidates@[0].surface@ } else { segs[j].reading@ })) by {
        assert(tops(segs).update(i, c) =~= Seq::new(segs.len(), |j: int|
            if j == i { c } else if segs[j].candidates@.len() > 0 { segs[j].candidates@[0].surface@ } else { segs[j].reading@ }));
    }
    assert forall|i: int, t: int| 0 <= i < n && 1 <= t <= 3 && t < segs[i].candidates@.len() implies
        sc.contains(concat(Seq::new(segs.len(), |j: int|
            if j == i { (#[trigger] segs[i].candidates@[t]).surface@ }
            else if segs[j].candidates@.len() > 0 { segs[j].candidates@[0].surface@ }
            else { segs[j].reading@ }))) by {
        let c = segs[i].candidates@[t].surface@;
        assert(alternatives_of(segs, i)[t - 1] == alternative(segs, i, c));
        assert(alts.contains(alternatives_of(segs, i)[t - 1]));
        let k = choose|k: int| 0 <= k < alts.len() && alts[k] == alternatives_of(segs, i)[t - 1];
        assert(xs[k] == alts[k]);
        assert(Seq::new(segs.len(), |j: int|
            if j == i { segs[i].candidates@[t].surface@ }
            else if segs[j].candidates@.len() > 0 { segs[j].candidates@[0].surface@ }
            else { segs[j].reading@ }) =~= Seq::new(segs.len(), |j: int|
            if j == i { c } else if segs[j].candidates@.len() > 0 { segs[j].candidates@[0].surface@ } else { segs[j].reading@ }));
    }
    assert(xs[alts.len() as int] == raw);
    assert forall|k: int| 0 <= k < sc.len() implies {
            ||| #[trigger] sc[k] == concat(Seq::new(segs.len(), |j: int|
                    if segs[j].candidates@.len() > 0 { segs[j].candidates@[0].surface@ } else { segs[j].reading@ }))
            ||| exists|i: int, t: int| #![trigger segs[i].candidates@[t]]
                    0 <= i < segs.len() && 1 <= t <= 3 && t < segs[i].candidates@.len()
                    && sc[k] == concat(Seq::new(segs.len(), |j: int|
                        if j == i { segs[i].candidates@[t].surface@ }
                        else if segs[j].candidates@.len() > 0 { segs[j].candidates@[0].surface@ }
                        else { segs[j].reading@ }))
            ||| sc[k] == concat(Seq::new(segs.len(), |j: int| segs[j].reading@))
        } by {
        let x = sc[k];
        if init.contains(x) {
            assert(x == best);
        } else {
            let m = choose|m: int| 0 <= m < xs.len() && xs[m] == x;
            if m < alts.len() {
                assert(xs[m] == alts[m]);
                assert(alternative_from(segs, n, alts[m]));
                let (i, u) = choose|i: int, u: int| 0 <= i < n && 0 <= u < alternatives_of(segs, i).len()
                    && alts[m] == #[trigger] alternatives_of(segs, i)[u];
                let t = u + 1;
                let c = segs[i].candidates@[t].surface@;
                assert(x == alternative(segs, i, c));
                assert(Seq::new(segs.len(), |j: int|
                    if j == i { segs[i].candidates@[t].surface@ }
                    else if segs[j].candidates@.len() > 0 { segs[j].candidates@[0].surface@ }
                    else { segs[j].reading@ }) =~= Seq::new(segs.len(), |j: int|
                    if j == i { c } else if segs[j].candidates@.len() > 0 { segs[j].candidates@[0].surface@ } else { segs[j].reading@ }));
            } else {
                assert(x == raw);
            }
        }
    }
}

} // verus!
