//! Offsets and selections of the text fields: UTF-8 and UTF-16 offsets,
//! grapheme steps, the selection and its caret, masked display, pasted line
//! endings, and the line under an offset.

use vstd::prelude::*;

use unicode_segmentation::UnicodeSegmentation;

use crate::chars::{char_len_utf16, char_len_utf8, char_utf16_len, char_utf8_len, chars_of, lemma_utf8_len_is_byte_len, lemma_utf8_len_mono, lemma_utf8_len_step, string_from_chars, utf16_len, utf8_len, utf8_len_fits};

verus! {

/// Character shown for each hidden character of a masked field.
pub const MASK: char = '\u{2022}';
/// UTF-8 length of [`MASK`].
pub const MASK_UTF8_LEN: usize = 3;

/// Pasted text with `\r\n` and lone `\r` line endings turned into `\n`.
pub open spec fn normalize_pasted_spec(s: Seq<char>) -> Seq<char>
    decreases s.len(),
{
    if s.len() == 0 {
        Seq::empty()
    } else if s[0] == '\r' && s.len() > 1 && s[1] == '\n' {
        seq!['\n'] + normalize_pasted_spec(s.skip(2))
    } else if s[0] == '\r' {
        seq!['\n'] + normalize_pasted_spec(s.skip(1))
    } else {
        seq![s[0]] + normalize_pasted_spec(s.skip(1))
    }
}

pub fn normalize_pasted(text: &str) -> (r: String)
    ensures
        r@ == normalize_pasted_spec(text@),
{
    let cs = chars_of(text);
    let mut out: Vec<char> = Vec::new();
    let mut i: usize = 0;
    assert(cs@.skip(0) =~= cs@);
    assert(out@ + normalize_pasted_spec(cs@) =~= normalize_pasted_spec(cs@));
    while i < cs.len()
        invariant
            i <= cs@.len(),
            cs@ == text@,
            out@ + normalize_pasted_spec(cs@.skip(i as int)) == normalize_pasted_spec(cs@),
        decreases cs@.len() - i,
    {
        let ghost rest = cs@.skip(i as int);
        if cs[i] == '\r' && i + 1 < cs.len() && cs[i + 1] == '\n' {
            out.push('\n');
            assert(rest.skip(2) =~= cs@.skip(i + 2));
            i = i + 2;
        } else {
            if cs[i] == '\r' {
                out.push('\n');
            } else {
                out.push(cs[i]);
            }
            assert(rest.skip(1) =~= cs@.skip(i + 1));
            i = i + 1;
        }
        assert(out@ + normalize_pasted_spec(cs@.skip(i as int)) =~= normalize_pasted_spec(cs@));
    }
    assert(cs@.skip(cs@.len() as int) =~= Seq::<char>::empty());
    assert(out@ =~= out@ + normalize_pasted_spec(Seq::<char>::empty()));
    string_from_chars(&out)
}

/// Characters before UTF-8 offset `b`: the fewest whose encoding reaches
/// `b` (all of them when it is past the end).
pub open spec fn chars_to_byte(s: Seq<char>, b: int, k: int) -> int
    decreases s.len() - k,
{
    if k >= s.len() || utf8_len(s.take(k)) >= b {
        k
    } else {
        chars_to_byte(s, b, k + 1)
    }
}

/// Characters before UTF-16 offset `u`, the same way.
pub open spec fn chars_to_utf16(s: Seq<char>, u: int, k: int) -> int
    decreases s.len() - k,
{
    if k >= s.len() || utf16_len(s.take(k)) >= u {
        k
    } else {
        chars_to_utf16(s, u, k + 1)
    }
}

/// The UTF-16 offset of a UTF-8 offset.
pub open spec fn utf16_of_byte(s: Seq<char>, b: int) -> int {
    utf16_len(s.take(chars_to_byte(s, b, 0))) as int
}

/// The UTF-8 offset of a UTF-16 offset.
pub open spec fn byte_of_utf16(s: Seq<char>, u: int) -> int {
    utf8_len(s.take(chars_to_utf16(s, u, 0))) as int
}

/// UTF-16 offset of a byte offset of `text`, counting whole characters up
/// to the offset.
pub fn byte_offset_to_utf16(text: &str, byte_offset: usize) -> (r: usize)
    ensures
        r == utf16_of_byte(text@, byte_offset as int),
{
    let cs = chars_of(text);
    utf8_len_fits(text);
    let mut utf16: usize = 0;
    let mut utf8: usize = 0;
    let mut k: usize = 0;
    while k < cs.len() && utf8 < byte_offset
        invariant
            k <= cs@.len(),
            cs@ == text@,
            utf8_len(cs@) <= usize::MAX,
            utf8 == utf8_len(cs@.take(k as int)),
            utf16 == utf16_len(cs@.take(k as int)),
            utf16 <= utf8,
            chars_to_byte(cs@, byte_offset as int, 0) == chars_to_byte(cs@, byte_offset as int, k as int),
        decreases cs@.len() - k,
    {
        proof {
            lemma_utf8_len_step(cs@, k as int);
            lemma_utf8_len_mono(cs@, k + 1, cs@.len() as int);
            assert(cs@.take(cs@.len() as int) =~= cs@);
            assert(char_utf16_len(cs@[k as int]) <= char_utf8_len(cs@[k as int]));
        }
        utf8 = utf8 + char_len_utf8(cs[k]);
        utf16 = utf16 + char_len_utf16(cs[k]);
        k = k + 1;
    }
    utf16
}

/// Byte offset of a UTF-16 offset of `text`, counting whole characters up
/// to the offset.
pub fn offset_from_utf16(text: &str, offset: usize) -> (r: usize)
    ensures
        r == byte_of_utf16(text@, offset as int),
{
    let cs = chars_of(text);
    utf8_len_fits(text);
    let mut utf16: usize = 0;
    let mut utf8: usize = 0;
    let mut k: usize = 0;
    while k < cs.len() && utf16 < offset
        invariant
            k <= cs@.len(),
            cs@ == text@,
            utf8_len(cs@) <= usize::MAX,
            utf8 == utf8_len(cs@.take(k as int)),
            utf16 == utf16_len(cs@.take(k as int)),
            utf16 <= utf8,
            chars_to_utf16(cs@, offset as int, 0) == chars_to_utf16(cs@, offset as int, k as int),
        decreases cs@.len() - k,
    {
        proof {
            lemma_utf8_len_step(cs@, k as int);
            lemma_utf8_len_mono(cs@, k + 1, cs@.len() as int);
            assert(cs@.take(cs@.len() as int) =~= cs@);
            assert(char_utf16_len(cs@[k as int]) <= char_utf8_len(cs@[k as int]));
        }
        utf16 = utf16 + char_len_utf16(cs[k]);
        utf8 = utf8 + char_len_utf8(cs[k]);
        k = k + 1;
    }
    utf8
}

/// Where an offset falls among consecutive spans `(start, len)`: the first
/// span that ends at or after it, with the offset from its start (zero
/// before it); past the last span, the last one.
pub open spec fn locate_from(spans: Seq<(usize, usize)>, off: int, k: int) -> (int, int)
    decreases spans.len() - k,
{
    if k >= spans.len() {
        if spans.len() == 0 {
            (0, 0)
        } else {
            (spans.len() - 1, if off > spans.last().0 { off - spans.last().0 } else { 0 })
        }
    } else if off <= spans[k].0 + spans[k].1 {
        (k, if off > spans[k].0 { off - spans[k].0 } else { 0 })
    } else {
        locate_from(spans, off, k + 1)
    }
}

pub fn locate_span(spans: &[(usize, usize)], off: usize) -> (r: (usize, usize))
    requires
        forall|k: int| 0 <= k < spans@.len() ==> (#[trigger] spans@[k]).0 + spans@[k].1 <= usize::MAX,
    ensures
        (r.0 as int, r.1 as int) == locate_from(spans@, off as int, 0),
{
    let mut ix: usize = 0;
    while ix < spans.len()
        invariant
            ix <= spans@.len(),
            forall|k: int| 0 <= k < spans@.len() ==> (#[trigger] spans@[k]).0 + spans@[k].1 <= usize::MAX,
            locate_from(spans@, off as int, 0) == locate_from(spans@, off as int, ix as int),
        decreases spans@.len() - ix,
    {
        let (start, len) = spans[ix];
        if off <= start + len {
            return (ix, off.saturating_sub(start));
        }
        ix = ix + 1;
    }
    if spans.len() == 0 {
        (0, 0)
    } else {
        let (start, _) = spans[spans.len() - 1];
        (spans.len() - 1, off.saturating_sub(start))
    }
}

/// A selection: the range between anchor and caret, and whether the caret
/// is at its start.
#[derive(Clone, Copy, Debug, PartialEq, Eq, Structural)]
pub struct Selection {
    pub start: usize,
    pub end: usize,
    pub reversed: bool,
}

impl Selection {
    /// The caret's offset.
    pub open spec fn caret(self) -> usize {
        if self.reversed { self.start } else { self.end }
    }

    /// The fixed end of the selection.
    pub open spec fn anchor(self) -> usize {
        if self.reversed { self.end } else { self.start }
    }

    /// An empty selection at `offset`.
    pub fn collapsed(offset: usize) -> (r: Self)
        ensures
            r == (Selection { start: offset, end: offset, reversed: false }),
    {
        Selection { start: offset, end: offset, reversed: false }
    }

    pub fn cursor_offset(&self) -> (r: usize)
        ensures
            r == self.caret(),
    {
        if self.reversed { self.start } else { self.end }
    }

    pub fn is_empty(&self) -> (r: bool)
        ensures
            r == (self.start == self.end),
    {
        self.start == self.end
    }

    /// Moves the caret to `offset`, keeping the anchor; the range is kept
    /// ordered, the caret at its start when it passes before the anchor.
    pub fn select_to(&mut self, offset: usize)
        requires
            old(self).start <= old(self).end,
        ensures
            final(self).start <= final(self).end,
            final(self).caret() == offset,
            final(self).anchor() == old(self).anchor(),
            offset < old(self).anchor() ==> final(self).reversed,
            offset > old(self).anchor() ==> !final(self).reversed,
            offset == old(self).anchor() ==> final(self).reversed == old(self).reversed,
    {
        if self.reversed {
            self.start = offset;
        } else {
            self.end = offset;
        }
        if self.end < self.start {
            self.reversed = !self.reversed;
            let s = self.start;
            self.start = self.end;
            self.end = s;
        }
    }
}

/// Selecting to an offset and back to where the caret was restores the
/// selection (up to the direction of an empty one).
pub proof fn lemma_select_to_undo(sel: Selection, offset: usize)
    requires
        sel.start <= sel.end,
    ensures
        ({
            let mid = select_to_spec(sel, offset);
            let back = select_to_spec(mid, sel.caret());
            back.start == sel.start && back.end == sel.end && (sel.start < sel.end ==> back.reversed == sel.reversed)
        }),
{
}

/// [`Selection::select_to`] as a function.
pub open spec fn select_to_spec(sel: Selection, offset: usize) -> Selection {
    let moved = if sel.reversed { Selection { start: offset, ..sel } } else { Selection { end: offset, ..sel } };
    if moved.end < moved.start {
        Selection { start: moved.end, end: moved.start, reversed: !moved.reversed }
    } else {
        moved
    }
}

/// Whether byte `b` of `s` starts a character (or is the end).
pub open spec fn is_boundary(s: Seq<char>, b: int) -> bool {
    exists|k: int| 0 <= k <= s.len() && #[trigger] utf8_len(s.take(k)) == b
}

/// Characters of `s`, from the `k`th on, whose encoding fits in `o` bytes.
pub open spec fn fit_chars(s: Seq<char>, o: int, k: int) -> int
    decreases s.len() - k,
{
    if 0 <= k < s.len() && utf8_len(s.take(k + 1)) <= o {
        fit_chars(s, o, k + 1)
    } else {
        k
    }
}

/// The largest character boundary of `s` at or before byte `o`.
pub open spec fn clamp_spec(s: Seq<char>, o: int) -> int {
    utf8_len(s.take(fit_chars(s, o, 0))) as int
}

/// The largest character boundary of `text` at or before `offset` (clamped
/// to the end).
pub fn clamp_offset(text: &str, offset: usize) -> (r: usize)
    ensures
        is_boundary(text@, r as int),
        r <= offset,
        forall|b: int| r < b <= offset ==> !is_boundary(text@, b),
        r == clamp_spec(text@, offset as int),
        0 <= fit_chars(text@, offset as int, 0) <= text@.len(),
{
    let cs = chars_of(text);
    utf8_len_fits(text);
    let mut k: usize = 0;
    let mut at: usize = 0;
    while k < cs.len() && char_len_utf8(cs[k]) <= offset - at
        invariant
            k <= cs@.len(),
            cs@ == text@,
            utf8_len(cs@) <= usize::MAX,
            at == utf8_len(cs@.take(k as int)),
            at <= offset,
            fit_chars(cs@, offset as int, 0) == fit_chars(cs@, offset as int, k as int),
        decreases cs@.len() - k,
    {
        proof {
            lemma_utf8_len_step(cs@, k as int);
            lemma_utf8_len_mono(cs@, k + 1, cs@.len() as int);
            assert(cs@.take(cs@.len() as int) =~= cs@);
        }
        at = at + char_len_utf8(cs[k]);
        k = k + 1;
    }
    proof {
        if k < cs@.len() {
            lemma_utf8_len_step(cs@, k as int);
        }
        assert(fit_chars(cs@, offset as int, k as int) == k);
        assert(utf8_len(cs@.take(k as int)) == at);
        assert forall|b: int| at < b <= offset implies !is_boundary(text@, b) by {
            if is_boundary(text@, b) {
                let j = choose|j: int| 0 <= j <= text@.len() && #[trigger] utf8_len(text@.take(j)) == b;
                if j <= k {
                    lemma_utf8_len_mono(cs@, j, k as int);
                } else {
                    lemma_utf8_len_mono(cs@, k + 1, j);
                    lemma_utf8_len_step(cs@, k as int);
                }
            }
        }
    }
    at
}

/// Whether a field shows its text masked: masking is on and there is text.
pub fn is_masked(masked: bool, content: &str) -> (r: bool)
    ensures
        r == (masked && content@.len() > 0),
{
    masked && !content.is_empty()
}

/// The masked text: one [`MASK`] per character.
pub fn masked_text(content: &str) -> (r: String)
    ensures
        r@ == Seq::new(content@.len(), |i: int| MASK),
{
    let cs = chars_of(content);
    let mut out: Vec<char> = Vec::new();
    let mut i: usize = 0;
    while i < cs.len()
        invariant
            i <= cs@.len(),
            out@ == Seq::new(i as nat, |j: int| MASK),
        decreases cs@.len() - i,
    {
        out.push(MASK);
        i = i + 1;
        assert(out@ =~= Seq::new(i as nat, |j: int| MASK));
    }
    string_from_chars(&out)
}

/// Offset in the masked text of a character boundary of the content.
pub fn to_display_offset(content: &str, content_offset: usize) -> (r: usize)
    requires
        is_boundary(content@, content_offset as int),
        content@.len() * MASK_UTF8_LEN <= usize::MAX,
    ensures
        exists|k: int| 0 <= k <= content@.len() && utf8_len(content@.take(k)) == content_offset && r == k * MASK_UTF8_LEN,
{
    let cs = chars_of(content);
    utf8_len_fits(content);
    let mut k: usize = 0;
    let mut at: usize = 0;
    while k < cs.len() && at < content_offset
        invariant
            k <= cs@.len(),
            cs@ == content@,
            utf8_len(cs@) <= usize::MAX,
            at == utf8_len(cs@.take(k as int)),
            at <= content_offset,
            is_boundary(content@, content_offset as int),
        decreases cs@.len() - k,
    {
        proof {
            lemma_utf8_len_step(cs@, k as int);
            lemma_utf8_len_mono(cs@, k + 1, cs@.len() as int);
            assert(cs@.take(cs@.len() as int) =~= cs@);
            let j = choose|j: int| 0 <= j <= content@.len() && #[trigger] utf8_len(content@.take(j)) == content_offset;
            if j <= k {
                lemma_utf8_len_mono(cs@, j, k as int);
            } else {
                lemma_utf8_len_mono(cs@, k + 1, j);
            }
        }
        at = at + char_len_utf8(cs[k]);
        k = k + 1;
    }
    proof {
        let j = choose|j: int| 0 <= j <= content@.len() && #[trigger] utf8_len(content@.take(j)) == content_offset;
        if at < content_offset {
            assert(k == cs@.len());
            lemma_utf8_len_mono(cs@, j, k as int);
            assert(cs@.take(k as int) =~= cs@);
        }
        assert(utf8_len(content@.take(k as int)) == content_offset);
    }
    k * MASK_UTF8_LEN
}

/// Content offset of an offset of the masked text: the start of the
/// character it falls in, or the end of the content.
pub fn display_to_content_offset(content: &str, display_offset: usize) -> (r: usize)
    ensures
        r == utf8_len(content@.take(if display_offset / MASK_UTF8_LEN < content@.len() {
            (display_offset / MASK_UTF8_LEN) as int
        } else {
            content@.len() as int
        })),
{
    let cs = chars_of(content);
    utf8_len_fits(content);
    let char_index = display_offset / MASK_UTF8_LEN;
    let stop = if char_index < cs.len() { char_index } else { cs.len() };
    let mut k: usize = 0;
    let mut at: usize = 0;
    while k < stop
        invariant
            k <= stop <= cs@.len(),
            cs@ == content@,
            utf8_len(cs@) <= usize::MAX,
            at == utf8_len(cs@.take(k as int)),
        decreases stop - k,
    {
        proof {
            lemma_utf8_len_step(cs@, k as int);
            lemma_utf8_len_mono(cs@, k + 1, cs@.len() as int);
            assert(cs@.take(cs@.len() as int) =~= cs@);
        }
        at = at + char_len_utf8(cs[k]);
        k = k + 1;
    }
    at
}

/// Byte offsets where the extended grapheme clusters of a text start.
pub uninterp spec fn grapheme_starts_of(s: Seq<char>) -> Seq<usize>;

/// `UnicodeSegmentation::grapheme_indices` (extended clusters) from
/// unicode-segmentation: the start offset of each cluster, in order. The
/// clusters cover the text, so the starts increase, the first is zero on a
/// non-empty text (and there are none on an empty one), and each lies
/// before the end on a character boundary.
#[verifier::external_body]
fn grapheme_starts(text: &str) -> (r: Vec<usize>)
    ensures
        r@ == grapheme_starts_of(text@),
        forall|i: int, j: int| 0 <= i < j < r@.len() ==> r@[i] < r@[j],
        (r@.len() == 0) == (text@.len() == 0),
        r@.len() > 0 ==> r@[0] == 0,
        forall|i: int| 0 <= i < r@.len() ==> #[trigger] r@[i] < utf8_len(text@) && is_boundary(text@, r@[i] as int),
{
    text.grapheme_indices(true).map(|(idx, _)| idx).collect()
}

/// The last start before `offset`, zero when there is none.
pub open spec fn prev_start_spec(starts: Seq<usize>, offset: usize) -> usize
    decreases starts.len(),
{
    if starts.len() == 0 {
        0
    } else if starts.last() < offset {
        starts.last()
    } else {
        prev_start_spec(starts.drop_last(), offset)
    }
}

/// The first start after `offset`, `end` when there is none.
pub open spec fn next_start_spec(starts: Seq<usize>, offset: usize, end: usize) -> usize
    decreases starts.len(),
{
    if starts.len() == 0 {
        end
    } else if starts[0] > offset {
        starts[0]
    } else {
        next_start_spec(starts.drop_first(), offset, end)
    }
}

/// [`prev_start_spec`] of given cluster starts.
pub fn previous_start(starts: &Vec<usize>, offset: usize) -> (r: usize)
    ensures
        r == prev_start_spec(starts@, offset),
{
    let mut k: usize = starts.len();
    assert(starts@.take(k as int) =~= starts@);
    while k > 0
        invariant
            k <= starts@.len(),
            prev_start_spec(starts@, offset) == prev_start_spec(starts@.take(k as int), offset),
        decreases k,
    {
        proof {
            assert(starts@.take(k as int).drop_last() =~= starts@.take(k - 1));
        }
        if starts[k - 1] < offset {
            return starts[k - 1];
        }
        k = k - 1;
    }
    0
}

/// [`next_start_spec`] of given cluster starts.
pub fn next_start(starts: &Vec<usize>, offset: usize, end: usize) -> (r: usize)
    ensures
        r == next_start_spec(starts@, offset, end),
{
    let mut k: usize = 0;
    assert(starts@.skip(0) =~= starts@);
    while k < starts.len()
        invariant
            k <= starts@.len(),
            next_start_spec(starts@, offset, end) == next_start_spec(starts@.skip(k as int), offset, end),
        decreases starts@.len() - k,
    {
        proof {
            assert(starts@.skip(k as int).drop_first() =~= starts@.skip(k + 1));
        }
        if starts[k] > offset {
            return starts[k];
        }
        k = k + 1;
    }
    end
}

/// The last start before `offset` is one of the starts, else zero.
proof fn lemma_prev_start_is_start(starts: Seq<usize>, offset: usize)
    ensures
        prev_start_spec(starts, offset) == 0 || (starts.contains(prev_start_spec(starts, offset))
            && prev_start_spec(starts, offset) < offset),
    decreases starts.len(),
{
    if starts.len() > 0 && !(starts.last() < offset) {
        lemma_prev_start_is_start(starts.drop_last(), offset);
        let r = prev_start_spec(starts, offset);
        if starts.drop_last().contains(r) {
            let k = choose|k: int| 0 <= k < starts.drop_last().len() && starts.drop_last()[k] == r;
            assert(starts[k] == r);
        }
    } else if starts.len() > 0 {
        assert(starts[starts.len() - 1] == starts.last());
    }
}

/// The first start after `offset` is one of the starts and after it, else
/// `end`.
proof fn lemma_next_start_is_start(starts: Seq<usize>, offset: usize, end: usize)
    ensures
        next_start_spec(starts, offset, end) == end || (starts.contains(next_start_spec(starts, offset, end))
            && next_start_spec(starts, offset, end) > offset),
    decreases starts.len(),
{
    if starts.len() > 0 && !(starts[0] > offset) {
        lemma_next_start_is_start(starts.drop_first(), offset, end);
        let r = next_start_spec(starts, offset, end);
        if starts.drop_first().contains(r) {
            let k = choose|k: int| 0 <= k < starts.drop_first().len() && starts.drop_first()[k] == r;
            assert(starts[k + 1] == r);
        }
    } else if starts.len() > 0 {
        assert(starts.contains(starts[0]));
    }
}

/// The start of the grapheme cluster before `offset` (zero at the start);
/// it is a character boundary of the text.
pub fn previous_boundary(content: &str, offset: usize) -> (r: usize)
    ensures
        r == prev_start_spec(grapheme_starts_of(content@), offset),
        is_boundary(content@, r as int),
        r == 0 || r < offset,
{
    let starts = grapheme_starts(content);
    proof {
        lemma_prev_start_is_start(starts@, offset);
        let r = prev_start_spec(starts@, offset);
        if r == 0 {
            assert(utf8_len(content@.take(0)) == 0);
        } else {
            let k = choose|k: int| 0 <= k < starts@.len() && starts@[k] == r;
            assert(is_boundary(content@, starts@[k] as int));
        }
    }
    previous_start(&starts, offset)
}

/// The start of the grapheme cluster after `offset` (the end at the end);
/// it is a character boundary of the text.
pub fn next_boundary(content: &str, offset: usize) -> (r: usize)
    ensures
        r == next_start_spec(grapheme_starts_of(content@), offset, utf8_len(content@) as usize),
        is_boundary(content@, r as int),
        r <= utf8_len(content@),
        r == utf8_len(content@) || r > offset,
{
    let starts = grapheme_starts(content);
    utf8_len_fits(content);
    proof {
        lemma_utf8_len_is_byte_len(content@);
        let end = utf8_len(content@) as usize;
        lemma_next_start_is_start(starts@, offset, end);
        let r = next_start_spec(starts@, offset, end);
        if r == end {
            assert(content@.take(content@.len() as int) =~= content@);
            assert(utf8_len(content@.take(content@.len() as int)) == end);
        } else {
            let k = choose|k: int| 0 <= k < starts@.len() && starts@[k] == r;
            assert(is_boundary(content@, starts@[k] as int));
        }
    }
    next_start(&starts, offset, content.len())
}

} // verus!
