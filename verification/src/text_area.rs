//! Editing state of the multi-line text area: its text, the selection, the
//! text an input method is composing, the edits made through the
//! platform's input handler, and the undo and redo history.

use vstd::prelude::*;

use crate::chars::{char_len_utf8, chars_of, lemma_utf8_len_is_byte_len, lemma_utf8_len_mono, lemma_utf8_len_step, string_from_chars, utf8_len, utf8_len_fits};
use crate::text_edit::{
    byte_of_utf16, byte_offset_to_utf16, chars_to_byte, chars_to_utf16, clamp_offset, clamp_spec, grapheme_starts_of,
    is_boundary, next_boundary, next_start_spec, normalize_pasted, normalize_pasted_spec, offset_from_utf16,
    prev_start_spec, previous_boundary, select_to_spec, utf16_of_byte, Selection,
};

verus! {

broadcast use vstd::string::group_string_axioms;

/// UTF-8 length adds up over concatenation.
pub proof fn lemma_utf8_len_concat(x: Seq<char>, y: Seq<char>)
    ensures
        utf8_len(x + y) == utf8_len(x) + utf8_len(y),
    decreases y.len(),
{
    if y.len() > 0 {
        assert((x + y).drop_last() =~= x + y.drop_last());
        lemma_utf8_len_concat(x, y.drop_last());
    } else {
        assert(x + y =~= x);
    }
}

pub proof fn lemma_chars_to_byte_bounds(s: Seq<char>, b: int, k: int)
    requires
        0 <= k <= s.len(),
    ensures
        k <= chars_to_byte(s, b, k) <= s.len(),
    decreases s.len() - k,
{
    if k < s.len() && utf8_len(s.take(k)) < b {
        lemma_chars_to_byte_bounds(s, b, k + 1);
    }
}

/// At a character boundary, the characters before it encode to exactly
/// its offset.
pub proof fn lemma_boundary_prefix(s: Seq<char>, b: int)
    requires
        is_boundary(s, b),
    ensures
        0 <= chars_to_byte(s, b, 0) <= s.len(),
        utf8_len(s.take(chars_to_byte(s, b, 0))) == b,
{
    let j = choose|j: int| 0 <= j <= s.len() && #[trigger] utf8_len(s.take(j)) == b;
    lemma_chars_to_byte_at(s, b, j, 0);
}

proof fn lemma_chars_to_byte_at(s: Seq<char>, b: int, j: int, k: int)
    requires
        0 <= k <= j <= s.len(),
        utf8_len(s.take(j)) == b,
    ensures
        chars_to_byte(s, b, k) == j,
    decreases j - k,
{
    if k < j {
        lemma_utf8_len_mono(s, k + 1, j);
        lemma_utf8_len_step(s, k);
        lemma_chars_to_byte_at(s, b, j, k + 1);
    }
}

/// Index of the character at byte offset `b` of `cs` (the count of
/// characters before it).
pub fn char_index_of_byte(cs: &Vec<char>, b: usize) -> (r: usize)
    requires
        utf8_len(cs@) <= usize::MAX,
    ensures
        r == chars_to_byte(cs@, b as int, 0),
        r <= cs@.len(),
{
    proof {
        lemma_chars_to_byte_bounds(cs@, b as int, 0);
    }
    let mut k: usize = 0;
    let mut at: usize = 0;
    while k < cs.len() && at < b
        invariant
            k <= cs@.len(),
            utf8_len(cs@) <= usize::MAX,
            at == utf8_len(cs@.take(k as int)),
            chars_to_byte(cs@, b as int, 0) == chars_to_byte(cs@, b as int, k as int),
        decreases cs@.len() - k,
    {
        proof {
            lemma_utf8_len_step(cs@, k as int);
            lemma_utf8_len_mono(cs@, k + 1, cs@.len() as int);
            assert(cs@.take(cs@.len() as int) =~= cs@);
        }
        at = at + char_len_utf8(cs[k]);
        k = k + 1;
    }
    k
}

/// The characters before byte `b` of `s`.
pub open spec fn before_byte(s: Seq<char>, b: int) -> Seq<char> {
    s.take(chars_to_byte(s, b, 0))
}

/// The characters from byte `b` of `s` on.
pub open spec fn from_byte(s: Seq<char>, b: int) -> Seq<char> {
    s.skip(chars_to_byte(s, b, 0))
}

/// `s` with the bytes from `a` to `b` replaced by `t`, as
/// `s[..a].to_owned() + t + &s[b..]`.
pub open spec fn splice_spec(s: Seq<char>, a: int, b: int, t: Seq<char>) -> Seq<char> {
    before_byte(s, a) + t + from_byte(s, b)
}

/// The bytes from `a` to `b` of `s`, as `s[a..b]`.
pub open spec fn slice_spec(s: Seq<char>, a: int, b: int) -> Seq<char> {
    s.subrange(chars_to_byte(s, a, 0), chars_to_byte(s, b, 0))
}

/// [`splice_spec`] of a text.
pub fn splice(content: &str, a: usize, b: usize, t: &str) -> (r: String)
    ensures
        r@ == splice_spec(content@, a as int, b as int, t@),
{
    let cs = chars_of(content);
    utf8_len_fits(content);
    let ia = char_index_of_byte(&cs, a);
    let ib = char_index_of_byte(&cs, b);
    let ts = chars_of(t);
    let mut out: Vec<char> = Vec::new();
    let mut i: usize = 0;
    while i < ia
        invariant
            i <= ia <= cs@.len(),
            out@ == cs@.take(i as int),
        decreases ia - i,
    {
        out.push(cs[i]);
        i = i + 1;
        assert(out@ =~= cs@.take(i as int));
    }
    let mut j: usize = 0;
    while j < ts.len()
        invariant
            j <= ts@.len(),
            out@ == cs@.take(ia as int) + ts@.take(j as int),
        decreases ts@.len() - j,
    {
        out.push(ts[j]);
        j = j + 1;
        assert(out@ =~= cs@.take(ia as int) + ts@.take(j as int));
    }
    let mut k: usize = ib;
    while k < cs.len()
        invariant
            ib <= k <= cs@.len(),
            out@ == cs@.take(ia as int) + ts@ + cs@.subrange(ib as int, k as int),
        decreases cs@.len() - k,
    {
        out.push(cs[k]);
        k = k + 1;
        assert(out@ =~= cs@.take(ia as int) + ts@ + cs@.subrange(ib as int, k as int));
    }
    assert(ts@.take(ts@.len() as int) =~= ts@);
    assert(cs@.subrange(ib as int, cs@.len() as int) =~= cs@.skip(ib as int));
    string_from_chars(&out)
}

/// [`slice_spec`] of a text, for byte offsets `a <= b`.
pub fn slice(content: &str, a: usize, b: usize) -> (r: String)
    requires
        a <= b,
    ensures
        r@ == slice_spec(content@, a as int, b as int),
{
    let cs = chars_of(content);
    utf8_len_fits(content);
    let ia = char_index_of_byte(&cs, a);
    let ib = char_index_of_byte(&cs, b);
    proof {
        lemma_chars_to_byte_mono(cs@, a as int, b as int, 0);
    }
    let mut out: Vec<char> = Vec::new();
    let mut i: usize = ia;
    while i < ib
        invariant
            ia <= i <= ib <= cs@.len(),
            out@ == cs@.subrange(ia as int, i as int),
        decreases ib - i,
    {
        out.push(cs[i]);
        i = i + 1;
        assert(out@ =~= cs@.subrange(ia as int, i as int));
    }
    string_from_chars(&out)
}

/// Later byte offsets fall at or after earlier ones in characters.
pub proof fn lemma_chars_to_byte_mono(s: Seq<char>, a: int, b: int, k: int)
    requires
        a <= b,
        0 <= k <= s.len(),
    ensures
        chars_to_byte(s, a, k) <= chars_to_byte(s, b, k),
    decreases s.len() - k,
{
    if k < s.len() && utf8_len(s.take(k)) < a {
        lemma_chars_to_byte_mono(s, a, b, k + 1);
    } else {
        lemma_chars_to_byte_bounds(s, b, k);
    }
}

/// Kind of an edit, by which consecutive edits are grouped into one undo
/// step.
#[derive(Clone, Copy, Debug, PartialEq, Eq, Structural)]
pub enum EditKind {
    Insert,
    Delete,
    Other,
}

/// What the text area reports to its owner.
#[derive(Clone, Copy, Debug, PartialEq, Eq, Structural)]
pub enum TextAreaEvent {
    Change,
    PressEnter,
}

/// A state the history returns to: the text and the selection.
pub struct HistoryEntry {
    pub content: String,
    pub selection: Selection,
}

pub open spec fn entry_view(e: HistoryEntry) -> (Seq<char>, Selection) {
    (e.content@, e.selection)
}

pub open spec fn history_view(v: Seq<HistoryEntry>) -> Seq<(Seq<char>, Selection)> {
    v.map_values(|e: HistoryEntry| entry_view(e))
}

/// A history with `e` added last and, past `limit` entries, its oldest
/// entries dropped.
pub open spec fn bounded_push<T>(h: Seq<T>, e: T, limit: nat) -> Seq<T> {
    let p = h.push(e);
    if p.len() > limit { p.skip(p.len() - limit) } else { p }
}

/// The range of `s` from `a` to `b` moved onto character boundaries: each
/// end to the boundary at or before it, the end no earlier than the start.
pub open spec fn clamp_range_spec(s: Seq<char>, a: int, b: int) -> (int, int) {
    let c = clamp_spec(s, a);
    let d = clamp_spec(s, b);
    (c, if d >= c { d } else { c })
}

/// The text with each line break turned into a space.
pub open spec fn one_line_spec(s: Seq<char>) -> Seq<char> {
    s.map_values(|c: char| if c == '\n' { ' ' } else { c })
}

/// The editing state of a text area.
pub struct TextArea {
    content: String,
    selection: Selection,
    marked_range: Option<(usize, usize)>,
    single_line: bool,
    max_undo_history: usize,
    undo_stack: Vec<HistoryEntry>,
    redo_stack: Vec<HistoryEntry>,
    last_edit_kind: Option<EditKind>,
}

impl TextArea {
    pub closed spec fn text(self) -> Seq<char> {
        self.content@
    }

    pub closed spec fn sel(self) -> Selection {
        self.selection
    }

    /// The range an input method is composing, if any.
    pub closed spec fn marked(self) -> Option<(usize, usize)> {
        self.marked_range
    }

    pub closed spec fn is_single_line(self) -> bool {
        self.single_line
    }

    /// Undo steps kept at most.
    pub closed spec fn history_limit(self) -> nat {
        self.max_undo_history as nat
    }

    /// States to undo to, the latest last.
    pub closed spec fn undo_history(self) -> Seq<(Seq<char>, Selection)> {
        history_view(self.undo_stack@)
    }

    /// States to redo to, the latest last.
    pub closed spec fn redo_history(self) -> Seq<(Seq<char>, Selection)> {
        history_view(self.redo_stack@)
    }

    pub closed spec fn last_kind(self) -> Option<EditKind> {
        self.last_edit_kind
    }

    /// The same state with another selection.
    pub closed spec fn with_selection(self, s: Selection) -> TextArea {
        TextArea { selection: s, ..self }
    }

    /// The same state with no edit in progress: the next edit starts a new
    /// undo step.
    pub closed spec fn without_last_kind(self) -> TextArea {
        TextArea { last_edit_kind: None, ..self }
    }

    pub closed spec fn with_single_line(self, single_line: bool) -> TextArea {
        TextArea { single_line, ..self }
    }

    /// The state to return to: text and selection.
    pub open spec fn snapshot(self) -> (Seq<char>, Selection) {
        (self.text(), self.sel())
    }

    /// Start of the grapheme cluster before `offset`.
    pub open spec fn prev_stop(self, offset: usize) -> usize {
        prev_start_spec(grapheme_starts_of(self.text()), offset)
    }

    /// Start of the grapheme cluster after `offset`, the end after the last.
    pub open spec fn next_stop(self, offset: usize) -> usize {
        next_start_spec(grapheme_starts_of(self.text()), offset, utf8_len(self.text()) as usize)
    }

    /// The same state with the caret at `offset` and nothing selected.
    pub open spec fn moved_to(self, offset: usize) -> TextArea {
        self.with_selection(Selection { start: offset, end: offset, reversed: self.sel().reversed })
    }

    /// An empty text area keeping at most `max_undo_history` undo steps.
    pub fn new(max_undo_history: usize) -> (r: Self)
        ensures
            r.text() == Seq::<char>::empty(),
            r.sel() == (Selection { start: 0, end: 0, reversed: false }),
            r.marked() is None,
            !r.is_single_line(),
            r.history_limit() == max_undo_history,
            r.undo_history() == Seq::<(Seq<char>, Selection)>::empty(),
            r.redo_history() == Seq::<(Seq<char>, Selection)>::empty(),
            r.last_kind() is None,
    {
        let r = TextArea {
            content: String::new(),
            selection: Selection { start: 0, end: 0, reversed: false },
            marked_range: None,
            single_line: false,
            max_undo_history,
            undo_stack: Vec::new(),
            redo_stack: Vec::new(),
            last_edit_kind: None,
        };
        assert(r.undo_history() =~= Seq::<(Seq<char>, Selection)>::empty());
        assert(r.redo_history() =~= Seq::<(Seq<char>, Selection)>::empty());
        r
    }

    /// The same text area, single-line or not.
    pub fn single_line(self, single_line: bool) -> (r: Self)
        ensures
            r == self.with_single_line(single_line),
            r.is_single_line() == single_line,
    {
        TextArea { single_line, ..self }
    }

    pub fn value(&self) -> (r: &str)
        ensures
            r@ == self.text(),
    {
        self.content.as_str()
    }

    pub fn selection(&self) -> (r: Selection)
        ensures
            r == self.sel(),
    {
        self.selection
    }

    pub fn last_edit_kind(&self) -> (r: Option<EditKind>)
        ensures
            r == self.last_kind(),
    {
        self.last_edit_kind
    }

    /// Replaces the text, with the caret at its end, nothing composed and
    /// no history.
    pub fn set_value(&mut self, value: String)
        ensures
            final(self).text() == value@,
            final(self).sel() == (Selection {
                start: utf8_len(value@) as usize,
                end: utf8_len(value@) as usize,
                reversed: old(self).sel().reversed,
            }),
            final(self).marked() is None,
            final(self).undo_history() == Seq::<(Seq<char>, Selection)>::empty(),
            final(self).redo_history() == Seq::<(Seq<char>, Selection)>::empty(),
            final(self).last_kind() is None,
            final(self).is_single_line() == old(self).is_single_line(),
            final(self).history_limit() == old(self).history_limit(),
    {
        let end = value.as_str().len();
        proof {
            lemma_utf8_len_is_byte_len(value@);
        }
        self.content = value;
        self.selection = Selection { start: end, end, reversed: self.selection.reversed };
        self.marked_range = None;
        self.clear_history();
    }

    fn clear_history(&mut self)
        ensures
            *final(self) == (TextArea { undo_stack: final(self).undo_stack, redo_stack: final(self).redo_stack, last_edit_kind: None, ..*old(self) }),
            final(self).undo_history() == Seq::<(Seq<char>, Selection)>::empty(),
            final(self).redo_history() == Seq::<(Seq<char>, Selection)>::empty(),
    {
        self.undo_stack = Vec::new();
        self.redo_stack = Vec::new();
        self.last_edit_kind = None;
        assert(self.undo_history() =~= Seq::<(Seq<char>, Selection)>::empty());
        assert(self.redo_history() =~= Seq::<(Seq<char>, Selection)>::empty());
    }

    /// Puts the caret at `offset`, selecting nothing; a new edit starts a
    /// new undo step.
    pub fn move_to(&mut self, offset: usize)
        ensures
            *final(self) == (old(self).moved_to(offset)).without_last_kind(),
    {
        self.selection = Selection { start: offset, end: offset, reversed: self.selection.reversed };
        self.last_edit_kind = None;
    }

    fn extend_selection(&mut self, offset: usize)
        ensures
            *final(self) == old(self).with_selection(select_to_spec(old(self).sel(), offset)),
    {
        if self.selection.reversed {
            self.selection.start = offset;
        } else {
            self.selection.end = offset;
        }
        if self.selection.end < self.selection.start {
            self.selection = Selection { start: self.selection.end, end: self.selection.start, reversed: !self.selection.reversed };
        }
    }

    /// Moves the caret to `offset`, keeping the other end of the selection.
    pub fn select_to(&mut self, offset: usize)
        ensures
            *final(self) == (old(self).with_selection(select_to_spec(old(self).sel(), offset))).without_last_kind(),
    {
        self.last_edit_kind = None;
        self.extend_selection(offset);
    }

    /// Left arrow: a selection collapses to its start, else the caret
    /// steps back one grapheme cluster.
    pub fn left(&mut self)
        ensures
            *final(self) == old(self).moved_to(if old(self).sel().start == old(self).sel().end {
                old(self).prev_stop(old(self).sel().caret())
            } else {
                old(self).sel().start
            }).without_last_kind(),
    {
        if self.selection.start == self.selection.end {
            let target = previous_boundary(self.content.as_str(), self.selection.cursor_offset());
            self.move_to(target);
        } else {
            self.move_to(self.selection.start);
        }
    }

    /// Right arrow: a selection collapses to its end, else the caret steps
    /// forward one grapheme cluster.
    pub fn right(&mut self)
        ensures
            *final(self) == old(self).moved_to(if old(self).sel().start == old(self).sel().end {
                old(self).next_stop(old(self).sel().end)
            } else {
                old(self).sel().end
            }).without_last_kind(),
    {
        if self.selection.start == self.selection.end {
            let target = next_boundary(self.content.as_str(), self.selection.end);
            self.move_to(target);
        } else {
            self.move_to(self.selection.end);
        }
    }

    /// Extends the selection one grapheme cluster back.
    pub fn select_left(&mut self)
        ensures
            *final(self) == (old(self).with_selection(select_to_spec(old(self).sel(), old(self).prev_stop(old(self).sel().caret())))).without_last_kind(),
    {
        let target = previous_boundary(self.content.as_str(), self.selection.cursor_offset());
        self.select_to(target);
    }

    /// Extends the selection one grapheme cluster forward.
    pub fn select_right(&mut self)
        ensures
            *final(self) == (old(self).with_selection(select_to_spec(old(self).sel(), old(self).next_stop(old(self).sel().caret())))).without_last_kind(),
    {
        let target = next_boundary(self.content.as_str(), self.selection.cursor_offset());
        self.select_to(target);
    }

    /// Selects the whole text.
    pub fn select_all(&mut self)
        ensures
            final(self).sel().start == 0,
            final(self).sel().end == utf8_len(old(self).text()),
            utf8_len(old(self).text()) > 0 ==> !final(self).sel().reversed,
            *final(self) == (old(self).with_selection(final(self).sel())).without_last_kind(),
    {
        let end = self.content.as_str().len();
        utf8_len_fits(self.content.as_str());
        proof {
            lemma_utf8_len_is_byte_len(self.content@);
        }
        self.move_to(0);
        self.select_to(end);
    }

    pub fn move_to_doc_start(&mut self)
        ensures
            *final(self) == (old(self).moved_to(0)).without_last_kind(),
    {
        self.move_to(0);
    }

    pub fn move_to_doc_end(&mut self)
        ensures
            *final(self) == (old(self).moved_to(utf8_len(old(self).text()) as usize)).without_last_kind(),
    {
        let end = self.content.as_str().len();
        proof {
            lemma_utf8_len_is_byte_len(self.content@);
        }
        self.move_to(end);
    }

    pub fn select_to_doc_start(&mut self)
        ensures
            *final(self) == (old(self).with_selection(select_to_spec(old(self).sel(), 0))).without_last_kind(),
    {
        self.select_to(0);
    }

    pub fn select_to_doc_end(&mut self)
        ensures
            *final(self) == (old(self).with_selection(select_to_spec(old(self).sel(), utf8_len(old(self).text()) as usize))).without_last_kind(),
    {
        let end = self.content.as_str().len();
        proof {
            lemma_utf8_len_is_byte_len(self.content@);
        }
        self.select_to(end);
    }
}

/// The undo history after an edit of kind `kind`: a new step holding the
/// state before the edit, unless the edit continues the previous step.
pub open spec fn recorded(pre: TextArea, post: TextArea, kind: EditKind, coalesce: bool) -> bool {
    &&& post.undo_history() == (if coalesce {
        pre.undo_history()
    } else {
        bounded_push(pre.undo_history(), pre.snapshot(), pre.history_limit())
    })
    &&& post.redo_history() == Seq::<(Seq<char>, Selection)>::empty()
    &&& post.last_kind() == Some(kind)
    &&& post.is_single_line() == pre.is_single_line()
    &&& post.history_limit() == pre.history_limit()
}

/// `post` is `pre` after replacing the edit range of `range_utf16` by `t`:
/// the caret after the inserted text, nothing composed, the edit recorded.
pub open spec fn replaced(pre: TextArea, post: TextArea, range_utf16: Option<(usize, usize)>, t: Seq<char>, coalesce: bool) -> bool {
    let (a, b) = pre.edit_range(range_utf16);
    let caret = (a + utf8_len(t)) as usize;
    &&& a + utf8_len(t) <= usize::MAX
    &&& post.text() == splice_spec(pre.text(), a, b, t)
    &&& post.sel() == (Selection { start: caret, end: caret, reversed: pre.sel().reversed })
    &&& post.marked() is None
    &&& recorded(pre, post, pre.edit_kind_of(range_utf16, t), coalesce)
}

/// `post` is `pre` after replacing the edit range of `range_utf16` by
/// `t` and marking `t` as composed; the new selection, given in UTF-16
/// offsets of the new text, is shifted by the start of the edit.
pub open spec fn marked_replaced(
    pre: TextArea,
    post: TextArea,
    range_utf16: Option<(usize, usize)>,
    t: Seq<char>,
    new_selected_utf16: Option<(usize, usize)>,
    coalesce: bool,
) -> bool {
    let (a, b) = pre.edit_range(range_utf16);
    let n = utf8_len(t);
    let s2 = splice_spec(pre.text(), a, b, t);
    &&& post.text() == s2
    &&& post.marked() == (if n == 0 { None } else { Some((a as usize, (a + n) as usize)) })
    &&& post.sel() == match new_selected_utf16 {
        Some(r) => Selection {
            start: (byte_of_utf16(s2, r.0 as int) + a) as usize,
            end: (byte_of_utf16(s2, r.1 as int) + a) as usize,
            reversed: pre.sel().reversed,
        },
        None => Selection { start: (a + n) as usize, end: (a + n) as usize, reversed: pre.sel().reversed },
    }
    &&& if pre.marked() is None {
        recorded(pre, post, EditKind::Insert, coalesce)
    } else {
        &&& post.undo_history() == pre.undo_history()
        &&& post.redo_history() == pre.redo_history()
        &&& post.last_kind() == pre.last_kind()
        &&& post.is_single_line() == pre.is_single_line()
        &&& post.history_limit() == pre.history_limit()
    }
}

/// `post` is `pre` back at its last undo step, with `pre` saved for redo;
/// nothing changes without a step.
pub open spec fn undone(pre: TextArea, post: TextArea) -> bool {
    let h = pre.undo_history();
    if h.len() == 0 {
        post == pre
    } else {
        &&& post.text() == h.last().0
        &&& post.sel() == h.last().1
        &&& post.marked() is None
        &&& post.last_kind() is None
        &&& post.undo_history() == h.drop_last()
        &&& post.redo_history() == pre.redo_history().push(pre.snapshot())
        &&& post.is_single_line() == pre.is_single_line()
        &&& post.history_limit() == pre.history_limit()
    }
}

/// `post` is `pre` back at its last redo step, with `pre` saved for undo;
/// nothing changes without a step.
pub open spec fn redone(pre: TextArea, post: TextArea) -> bool {
    let h = pre.redo_history();
    if h.len() == 0 {
        post == pre
    } else {
        &&& post.text() == h.last().0
        &&& post.sel() == h.last().1
        &&& post.marked() is None
        &&& post.last_kind() is None
        &&& post.redo_history() == h.drop_last()
        &&& post.undo_history() == pre.undo_history().push(pre.snapshot())
        &&& post.is_single_line() == pre.is_single_line()
        &&& post.history_limit() == pre.history_limit()
    }
}

/// The text a paste inserts: line endings unified, and on a single-line
/// area each line break made a space.
pub open spec fn pasted_spec(single_line: bool, t: Seq<char>) -> Seq<char> {
    if single_line { one_line_spec(normalize_pasted_spec(t)) } else { normalize_pasted_spec(t) }
}

impl TextArea {
    /// The byte range an edit replaces: the given UTF-16 range, else the
    /// composed range, else the selection; moved onto character boundaries.
    pub open spec fn edit_range(self, range_utf16: Option<(usize, usize)>) -> (int, int) {
        let raw: (int, int) = match range_utf16 {
            Some(r) => (byte_of_utf16(self.text(), r.0 as int), byte_of_utf16(self.text(), r.1 as int)),
            None => match self.marked() {
                Some(m) => (m.0 as int, m.1 as int),
                None => (self.sel().start as int, self.sel().end as int),
            },
        };
        clamp_range_spec(self.text(), raw.0, raw.1)
    }

    /// Kind of replacing the edit range by `t`: composing inserts, empty
    /// text deletes, text without line breaks at a caret inserts, anything
    /// else is another kind of edit.
    pub open spec fn edit_kind_of(self, range_utf16: Option<(usize, usize)>, t: Seq<char>) -> EditKind {
        let (a, b) = self.edit_range(range_utf16);
        if self.marked() is Some {
            EditKind::Insert
        } else if t.len() == 0 {
            EditKind::Delete
        } else if a == b && !t.contains('\n') {
            EditKind::Insert
        } else {
            EditKind::Other
        }
    }

    /// What backspace removes: the selection, else from the start of the
    /// grapheme cluster before the caret to the caret; nothing at the start.
    pub open spec fn backspace_target(self) -> Option<Selection> {
        if self.sel().start == self.sel().end {
            let prev = self.prev_stop(self.sel().caret());
            if self.sel().caret() == prev { None } else { Some(select_to_spec(self.sel(), prev)) }
        } else {
            Some(self.sel())
        }
    }

    /// What delete removes: the selection, else the grapheme cluster after
    /// the caret; nothing at the end.
    pub open spec fn delete_target(self) -> Option<Selection> {
        if self.sel().start == self.sel().end {
            let next = self.next_stop(self.sel().caret());
            if self.sel().caret() == next { None } else { Some(select_to_spec(self.sel(), next)) }
        } else {
            Some(self.sel())
        }
    }

    /// What deleting toward `target` removes: the selection, else the span
    /// between the caret and `target`; nothing when they coincide.
    pub open spec fn delete_to_target(self, target: usize) -> Option<Selection> {
        if self.sel().start == self.sel().end {
            if self.sel().caret() == target { None } else { Some(select_to_spec(self.sel(), target)) }
        } else {
            Some(self.sel())
        }
    }

    /// The selection lies within the text on character boundaries, in
    /// order.
    pub open spec fn selection_valid(self) -> bool {
        &&& self.sel().start <= self.sel().end
        &&& is_boundary(self.text(), self.sel().start as int)
        &&& is_boundary(self.text(), self.sel().end as int)
    }

    /// The text and selection to return to.
    pub fn history_snapshot(&self) -> (r: HistoryEntry)
        ensures
            entry_view(r) == self.snapshot(),
    {
        HistoryEntry { content: self.content.clone(), selection: self.selection }
    }

    /// Records the state before an edit of kind `kind`, as a new undo step
    /// unless `coalesce` (the edit continues the previous step); the redo
    /// history is dropped.
    pub fn record_history(&mut self, kind: EditKind, coalesce: bool)
        ensures
            recorded(*old(self), *final(self), kind, coalesce),
            final(self).text() == old(self).text(),
            final(self).sel() == old(self).sel(),
            final(self).marked() == old(self).marked(),
    {
        self.redo_stack = Vec::new();
        assert(self.redo_history() =~= Seq::<(Seq<char>, Selection)>::empty());
        if !coalesce {
            let snap = self.history_snapshot();
            let ghost p = self.undo_history().push(entry_view(snap));
            let limit = self.max_undo_history;
            let mut stack: Vec<HistoryEntry> = Vec::new();
            std::mem::swap(&mut stack, &mut self.undo_stack);
            let ghost before = stack@;
            stack.push(snap);
            assert(history_view(stack@) =~= p) by {
                assert(stack@ == before.push(snap));
            }
            while stack.len() > limit
                invariant
                    stack@.len() <= p.len(),
                    history_view(stack@) == p.skip(p.len() - stack@.len()),
                    p.len() > limit ==> stack@.len() >= limit,
                    p.len() <= limit ==> stack@.len() == p.len(),
                decreases stack@.len(),
            {
                let ghost prev = stack@;
                stack.remove(0);
                assert(history_view(stack@) =~= p.skip(p.len() - stack@.len())) by {
                    assert(stack@ == prev.remove(0));
                    assert forall|i: int| 0 <= i < stack@.len() implies #[trigger] history_view(stack@)[i] == p.skip(
                        p.len() - stack@.len(),
                    )[i] by {
                        assert(stack@[i] == prev[i + 1]);
                        assert(history_view(prev)[i + 1] == p.skip(p.len() - prev.len())[i + 1]);
                    }
                }
            }
            assert(history_view(stack@) =~= bounded_push(history_view(before), entry_view(snap), limit as nat));
            self.undo_stack = stack;
        }
        self.last_edit_kind = Some(kind);
    }

    fn restore_history(&mut self, entry: HistoryEntry)
        ensures
            final(self).text() == entry.content@,
            final(self).sel() == entry.selection,
            final(self).marked() is None,
            final(self).last_kind() is None,
            final(self).undo_history() == old(self).undo_history(),
            final(self).redo_history() == old(self).redo_history(),
            final(self).is_single_line() == old(self).is_single_line(),
            final(self).history_limit() == old(self).history_limit(),
    {
        self.content = entry.content;
        self.selection = entry.selection;
        self.marked_range = None;
        self.last_edit_kind = None;
    }

    /// Returns to the last undo step, saving the current state for redo.
    /// Returns whether there was a step.
    pub fn undo(&mut self) -> (r: bool)
        ensures
            r == (old(self).undo_history().len() > 0),
            undone(*old(self), *final(self)),
    {
        let ghost h = self.undo_history();
        let ghost before = self.undo_stack@;
        if self.undo_stack.len() == 0 {
            return false;
        }
        match self.undo_stack.pop() {
            Some(entry) => {
                proof {
                    assert(history_view(self.undo_stack@) =~= h.drop_last());
                    assert(entry_view(entry) == h.last());
                }
                let snap = self.history_snapshot();
                let ghost redo_before = self.redo_stack@;
                self.redo_stack.push(snap);
                assert(history_view(self.redo_stack@) =~= history_view(redo_before).push(entry_view(snap)));
                self.restore_history(entry);
                true
            },
            None => false,
        }
    }

    /// Returns to the last redo step, saving the current state for undo.
    /// Returns whether there was a step.
    pub fn redo(&mut self) -> (r: bool)
        ensures
            r == (old(self).redo_history().len() > 0),
            redone(*old(self), *final(self)),
    {
        let ghost h = self.redo_history();
        if self.redo_stack.len() == 0 {
            return false;
        }
        match self.redo_stack.pop() {
            Some(entry) => {
                proof {
                    assert(history_view(self.redo_stack@) =~= h.drop_last());
                    assert(entry_view(entry) == h.last());
                }
                let snap = self.history_snapshot();
                let ghost undo_before = self.undo_stack@;
                self.undo_stack.push(snap);
                assert(history_view(self.undo_stack@) =~= history_view(undo_before).push(entry_view(snap)));
                self.restore_history(entry);
                true
            },
            None => false,
        }
    }
}

pub proof fn lemma_chars_to_utf16_bounds(s: Seq<char>, u: int, k: int)
    requires
        0 <= k <= s.len(),
    ensures
        k <= chars_to_utf16(s, u, k) <= s.len(),
    decreases s.len() - k,
{
    if k < s.len() && crate::chars::utf16_len(s.take(k)) < u {
        lemma_chars_to_utf16_bounds(s, u, k + 1);
    }
}

pub proof fn lemma_chars_to_utf16_mono(s: Seq<char>, u: int, v: int, k: int)
    requires
        u <= v,
        0 <= k <= s.len(),
    ensures
        chars_to_utf16(s, u, k) <= chars_to_utf16(s, v, k),
    decreases s.len() - k,
{
    if k < s.len() && crate::chars::utf16_len(s.take(k)) < u {
        lemma_chars_to_utf16_mono(s, u, v, k + 1);
    } else {
        lemma_chars_to_utf16_bounds(s, v, k);
    }
}

/// A UTF-16 offset names a character boundary within the text.
pub proof fn lemma_byte_of_utf16(s: Seq<char>, u: int)
    ensures
        is_boundary(s, byte_of_utf16(s, u)),
        0 <= byte_of_utf16(s, u) <= utf8_len(s),
{
    let k = chars_to_utf16(s, u, 0);
    lemma_chars_to_utf16_bounds(s, u, 0);
    lemma_utf8_len_mono(s, k, s.len() as int);
    assert(s.take(s.len() as int) =~= s);
}

/// The text before a boundary is no longer than the whole.
pub proof fn lemma_prefix_suffix_len(s: Seq<char>, a: int, b: int)
    ensures
        utf8_len(before_byte(s, a)) <= utf8_len(s),
        utf8_len(from_byte(s, b)) <= utf8_len(s),
{
    lemma_chars_to_byte_bounds(s, a, 0);
    lemma_chars_to_byte_bounds(s, b, 0);
    let ia = chars_to_byte(s, a, 0);
    let ib = chars_to_byte(s, b, 0);
    lemma_utf8_len_mono(s, ia, s.len() as int);
    assert(s.take(s.len() as int) =~= s);
    assert(s.take(ib) + s.skip(ib) =~= s);
    lemma_utf8_len_concat(s.take(ib), s.skip(ib));
}

fn contains_newline(t: &str) -> (r: bool)
    ensures
        r == t@.contains('\n'),
{
    let cs = chars_of(t);
    let mut i: usize = 0;
    while i < cs.len()
        invariant
            i <= cs@.len(),
            cs@ == t@,
            forall|j: int| 0 <= j < i ==> cs@[j] != '\n',
        decreases cs@.len() - i,
    {
        if cs[i] == '\n' {
            assert(t@[i as int] == '\n');
            return true;
        }
        i = i + 1;
    }
    false
}

/// [`one_line_spec`] of a text.
pub(crate) fn one_line(t: &str) -> (r: String)
    ensures
        r@ == one_line_spec(t@),
{
    let cs = chars_of(t);
    let mut out: Vec<char> = Vec::new();
    let mut i: usize = 0;
    while i < cs.len()
        invariant
            i <= cs@.len(),
            cs@ == t@,
            out@ == one_line_spec(cs@.take(i as int)),
        decreases cs@.len() - i,
    {
        out.push(if cs[i] == '\n' { ' ' } else { cs[i] });
        i = i + 1;
        assert(out@ =~= one_line_spec(cs@.take(i as int)));
    }
    assert(cs@.take(cs@.len() as int) =~= cs@);
    string_from_chars(&out)
}

/// Whether byte `b` of `text` is a character boundary.
fn boundary_at(text: &str, b: usize) -> (r: bool)
    ensures
        r == is_boundary(text@, b as int),
{
    clamp_offset(text, b) == b
}

impl TextArea {
    fn edit_range_exec(&self, range_utf16: Option<(usize, usize)>) -> (r: (usize, usize))
        ensures
            r.0 == self.edit_range(range_utf16).0,
            r.1 == self.edit_range(range_utf16).1,
            is_boundary(self.text(), r.0 as int),
            is_boundary(self.text(), r.1 as int),
            r.0 <= r.1,
    {
        let text = self.content.as_str();
        let raw = match range_utf16 {
            Some(r) => (offset_from_utf16(text, r.0), offset_from_utf16(text, r.1)),
            None => match self.marked_range {
                Some(m) => m,
                None => (self.selection.start, self.selection.end),
            },
        };
        let c = clamp_offset(text, raw.0);
        let d = clamp_offset(text, raw.1);
        (c, if d >= c { d } else { c })
    }

    /// [`TextArea::edit_kind_of`] of replacing by `new_text`.
    pub fn edit_kind(&self, range_utf16: Option<(usize, usize)>, new_text: &str) -> (r: EditKind)
        ensures
            r == self.edit_kind_of(range_utf16, new_text@),
    {
        let (a, b) = self.edit_range_exec(range_utf16);
        if self.marked_range.is_some() {
            EditKind::Insert
        } else if new_text.is_empty() {
            EditKind::Delete
        } else if a == b && !contains_newline(new_text) {
            EditKind::Insert
        } else {
            EditKind::Other
        }
    }

    /// Replaces the edit range of `range_utf16` by `new_text`, recording
    /// the edit (as part of the previous undo step when `coalesce`).
    pub fn replace_text_in_range(&mut self, range_utf16: Option<(usize, usize)>, new_text: &str, coalesce: bool)
        ensures
            replaced(*old(self), *final(self), range_utf16, new_text@, coalesce),
    {
        let (a, b) = self.edit_range_exec(range_utf16);
        let kind = self.edit_kind(range_utf16, new_text);
        self.record_history(kind, coalesce);
        let next = splice(self.content.as_str(), a, b, new_text);
        let n = new_text.len();
        utf8_len_fits(next.as_str());
        proof {
            let s = old(self).text();
            lemma_boundary_prefix(s, a as int);
            lemma_utf8_len_is_byte_len(new_text@);
            lemma_utf8_len_concat(before_byte(s, a as int), new_text@);
            lemma_utf8_len_concat(before_byte(s, a as int) + new_text@, from_byte(s, b as int));
        }
        self.content = next;
        self.selection = Selection { start: a + n, end: a + n, reversed: self.selection.reversed };
        self.marked_range = None;
    }

    /// Replaces the edit range of `range_utf16` by `new_text` and marks it
    /// as being composed; the selection is `new_selected_utf16` shifted by
    /// the start of the edit, else the caret after the text. Opening a
    /// composition records an insertion.
    pub fn replace_and_mark_text_in_range(
        &mut self,
        range_utf16: Option<(usize, usize)>,
        new_text: &str,
        new_selected_utf16: Option<(usize, usize)>,
        coalesce: bool,
    )
        requires
            ({
                let (a, b) = old(self).edit_range(range_utf16);
                let s2 = splice_spec(old(self).text(), a, b, new_text@);
                new_selected_utf16 matches Some(r) ==> byte_of_utf16(s2, r.0 as int) + a <= usize::MAX
                    && byte_of_utf16(s2, r.1 as int) + a <= usize::MAX
            }),
        ensures
            marked_replaced(*old(self), *final(self), range_utf16, new_text@, new_selected_utf16, coalesce),
    {
        let (a, b) = self.edit_range_exec(range_utf16);
        if self.marked_range.is_none() {
            self.record_history(EditKind::Insert, coalesce);
        }
        let next = splice(self.content.as_str(), a, b, new_text);
        let n = new_text.len();
        utf8_len_fits(new_text);
        utf8_len_fits(next.as_str());
        let ghost s = old(self).text();
        let ghost s2 = next@;
        proof {
            lemma_boundary_prefix(s, a as int);
            lemma_utf8_len_is_byte_len(new_text@);
            lemma_utf8_len_concat(before_byte(s, a as int), new_text@);
            lemma_utf8_len_concat(before_byte(s, a as int) + new_text@, from_byte(s, b as int));
            lemma_prefix_suffix_len(s, a as int, b as int);
            assert(s2 == before_byte(s, a as int) + new_text@ + from_byte(s, b as int));
            assert(utf8_len(s2) == a + n + utf8_len(from_byte(s, b as int)));
            lemma_boundary_prefix(s, b as int);
            let ib = chars_to_byte(s, b as int, 0);
            assert(s.take(ib) + s.skip(ib) =~= s);
            lemma_utf8_len_concat(s.take(ib), s.skip(ib));
        }
        self.marked_range = if n == 0 { None } else { Some((a, a + n)) };
        self.selection = match new_selected_utf16 {
            Some(r) => {
                let x = offset_from_utf16(next.as_str(), r.0);
                let y = offset_from_utf16(next.as_str(), r.1);
                proof {
                    lemma_byte_of_utf16(s2, r.0 as int);
                    lemma_byte_of_utf16(s2, r.1 as int);
                }
                Selection { start: x + a, end: y + a, reversed: self.selection.reversed }
            },
            None => Selection { start: a + n, end: a + n, reversed: self.selection.reversed },
        };
        self.content = next;
    }

    /// Backspace: removes [`TextArea::backspace_target`], if any; returns
    /// whether it did.
    pub fn backspace(&mut self, coalesce: bool) -> (r: bool)
        ensures
            match old(self).backspace_target() {
                None => !r && *final(self) == *old(self),
                Some(s) => r && replaced(old(self).with_selection(s), *final(self), None, Seq::empty(), coalesce),
            },
    {
        if self.selection.start == self.selection.end {
            let caret = self.selection.cursor_offset();
            let prev = previous_boundary(self.content.as_str(), caret);
            if caret == prev {
                return false;
            }
            self.extend_selection(prev);
        }
        proof {
            reveal_strlit("");
            assert(old(self).with_selection(old(self).sel()) == *old(self));
        }
        self.replace_text_in_range(None, "", coalesce);
        true
    }

    /// Delete: removes [`TextArea::delete_target`], if any; returns whether
    /// it did.
    pub fn delete(&mut self, coalesce: bool) -> (r: bool)
        ensures
            match old(self).delete_target() {
                None => !r && *final(self) == *old(self),
                Some(s) => r && replaced(old(self).with_selection(s), *final(self), None, Seq::empty(), coalesce),
            },
    {
        if self.selection.start == self.selection.end {
            let caret = self.selection.cursor_offset();
            let next = next_boundary(self.content.as_str(), caret);
            if caret == next {
                return false;
            }
            self.extend_selection(next);
        }
        proof {
            reveal_strlit("");
            assert(old(self).with_selection(old(self).sel()) == *old(self));
        }
        self.replace_text_in_range(None, "", coalesce);
        true
    }

    /// Deletes toward `target` (a word or line boundary found by the
    /// caller): a selection is removed whatever the target; at a caret the
    /// text between the caret and `target` goes, and nothing happens when
    /// the caret already stands there. Returns whether anything was removed.
    pub fn delete_to(&mut self, target: usize, coalesce: bool) -> (r: bool)
        ensures
            match old(self).delete_to_target(target) {
                None => !r && *final(self) == *old(self),
                Some(s) => r && replaced(old(self).with_selection(s), *final(self), None, Seq::empty(), coalesce),
            },
    {
        if self.selection.start == self.selection.end {
            let caret = self.selection.cursor_offset();
            if caret == target {
                return false;
            }
            self.extend_selection(target);
        }
        proof {
            reveal_strlit("");
            assert(old(self).with_selection(old(self).sel()) == *old(self));
        }
        self.replace_text_in_range(None, "", coalesce);
        true
    }

    /// Enter: a single-line area reports it and keeps its text; another
    /// inserts a line break.
    pub fn enter(&mut self, coalesce: bool) -> (r: TextAreaEvent)
        ensures
            old(self).is_single_line() ==> r == TextAreaEvent::PressEnter && *final(self) == *old(self),
            !old(self).is_single_line() ==> r == TextAreaEvent::Change && replaced(*old(self), *final(self), None, seq!['\n'], coalesce),
    {
        if self.single_line {
            TextAreaEvent::PressEnter
        } else {
            let mut line_break: Vec<char> = Vec::new();
            line_break.push('\n');
            let nl = string_from_chars(&line_break);
            assert(nl@ =~= seq!['\n']);
            self.replace_text_in_range(None, nl.as_str(), coalesce);
            TextAreaEvent::Change
        }
    }

    /// The text a paste of `text` inserts here.
    pub fn pasted_text(&self, text: &str) -> (r: String)
        ensures
            r@ == pasted_spec(self.is_single_line(), text@),
    {
        let normalized = normalize_pasted(text);
        if self.single_line { one_line(normalized.as_str()) } else { normalized }
    }

    /// Pastes `text` over the selection.
    pub fn paste(&mut self, text: &str, coalesce: bool)
        ensures
            replaced(*old(self), *final(self), None, pasted_spec(old(self).is_single_line(), text@), coalesce),
    {
        let sanitized = self.pasted_text(text);
        self.replace_text_in_range(None, sanitized.as_str(), coalesce);
    }

    /// Whether the selection can be read out of the text.
    pub fn selection_in_text(&self) -> (r: bool)
        ensures
            r == self.selection_valid(),
    {
        self.selection.start <= self.selection.end && boundary_at(self.content.as_str(), self.selection.start)
            && boundary_at(self.content.as_str(), self.selection.end)
    }

    /// The selected text, none when nothing is selected.
    pub fn copy(&self) -> (r: Option<String>)
        requires
            self.selection_valid(),
        ensures
            self.sel().start == self.sel().end ==> r is None,
            self.sel().start != self.sel().end ==> (r matches Some(t) && t@ == slice_spec(
                self.text(),
                self.sel().start as int,
                self.sel().end as int,
            )),
    {
        if self.selection.start == self.selection.end {
            None
        } else {
            Some(slice(self.content.as_str(), self.selection.start, self.selection.end))
        }
    }

    /// Cuts the selected text: returns it and removes it; nothing happens
    /// when nothing is selected.
    pub fn cut(&mut self, coalesce: bool) -> (r: Option<String>)
        requires
            old(self).selection_valid(),
        ensures
            old(self).sel().start == old(self).sel().end ==> r is None && *final(self) == *old(self),
            old(self).sel().start != old(self).sel().end ==> (r matches Some(t) && t@ == slice_spec(
                old(self).text(),
                old(self).sel().start as int,
                old(self).sel().end as int,
            )) && replaced(*old(self), *final(self), None, Seq::empty(), coalesce),
    {
        if self.selection.start == self.selection.end {
            return None;
        }
        let taken = slice(self.content.as_str(), self.selection.start, self.selection.end);
        proof {
            reveal_strlit("");
        }
        self.replace_text_in_range(None, "", coalesce);
        Some(taken)
    }

    /// The text of a UTF-16 range, with the UTF-16 range it actually
    /// covers.
    pub fn text_for_range(&self, range_utf16: (usize, usize)) -> (r: (String, (usize, usize)))
        requires
            range_utf16.0 <= range_utf16.1,
        ensures
            ({
                let a = byte_of_utf16(self.text(), range_utf16.0 as int);
                let b = byte_of_utf16(self.text(), range_utf16.1 as int);
                &&& r.0@ == slice_spec(self.text(), a, b)
                &&& r.1.0 == utf16_of_byte(self.text(), a)
                &&& r.1.1 == utf16_of_byte(self.text(), b)
            }),
    {
        let text = self.content.as_str();
        let a = offset_from_utf16(text, range_utf16.0);
        let b = offset_from_utf16(text, range_utf16.1);
        proof {
            lemma_chars_to_utf16_bounds(text@, range_utf16.0 as int, 0);
            lemma_chars_to_utf16_bounds(text@, range_utf16.1 as int, 0);
            lemma_chars_to_utf16_mono(text@, range_utf16.0 as int, range_utf16.1 as int, 0);
            lemma_utf8_len_mono(
                text@,
                chars_to_utf16(text@, range_utf16.0 as int, 0),
                chars_to_utf16(text@, range_utf16.1 as int, 0),
            );
        }
        let actual = (byte_offset_to_utf16(text, a), byte_offset_to_utf16(text, b));
        (slice(text, a, b), actual)
    }

    /// The selection in UTF-16 offsets, and whether the caret is at its
    /// start.
    pub fn selected_text_range(&self) -> (r: ((usize, usize), bool))
        ensures
            r.0.0 == utf16_of_byte(self.text(), self.sel().start as int),
            r.0.1 == utf16_of_byte(self.text(), self.sel().end as int),
            r.1 == self.sel().reversed,
    {
        let text = self.content.as_str();
        (
            (byte_offset_to_utf16(text, self.selection.start), byte_offset_to_utf16(text, self.selection.end)),
            self.selection.reversed,
        )
    }

    /// The composed range in UTF-16 offsets, if any.
    pub fn marked_text_range(&self) -> (r: Option<(usize, usize)>)
        ensures
            match self.marked() {
                Some(m) => r == Some(
                    (utf16_of_byte(self.text(), m.0 as int) as usize, utf16_of_byte(self.text(), m.1 as int) as usize),
                ),
                None => r is None,
            },
    {
        match self.marked_range {
            Some(m) => {
                let text = self.content.as_str();
                Some((byte_offset_to_utf16(text, m.0), byte_offset_to_utf16(text, m.1)))
            },
            None => None,
        }
    }

    /// Ends the composition, keeping its text.
    pub fn unmark_text(&mut self)
        ensures
            final(self).marked() is None,
            final(self).text() == old(self).text(),
            final(self).sel() == old(self).sel(),
            final(self).undo_history() == old(self).undo_history(),
            final(self).redo_history() == old(self).redo_history(),
            final(self).last_kind() == old(self).last_kind(),
    {
        self.marked_range = None;
    }
}

/// Undoing an edit that opened an undo step gives back the text and the
/// selection from before the edit, and keeps the edited state for redo.
pub proof fn lemma_undo_restores_edit(
    before: TextArea,
    edited: TextArea,
    undone_state: TextArea,
    range_utf16: Option<(usize, usize)>,
    t: Seq<char>,
)
    requires
        before.history_limit() > 0,
        replaced(before, edited, range_utf16, t, false),
        undone(edited, undone_state),
    ensures
        undone_state.text() == before.text(),
        undone_state.sel() == before.sel(),
        undone_state.redo_history().last() == edited.snapshot(),
{
    let p = before.undo_history().push(before.snapshot());
    let limit = before.history_limit();
    let h = edited.undo_history();
    if p.len() > limit {
        assert(h == p.skip(p.len() - limit));
        assert(h.last() == p.last());
    } else {
        assert(h == p);
    }
}

/// Redoing right after an undo gives back the state the undo left.
pub proof fn lemma_redo_after_undo(edited: TextArea, undone_state: TextArea, redone_state: TextArea)
    requires
        edited.undo_history().len() > 0,
        undone(edited, undone_state),
        redone(undone_state, redone_state),
    ensures
        redone_state.text() == edited.text(),
        redone_state.sel() == edited.sel(),
        redone_state.undo_history() == edited.undo_history().drop_last().push(undone_state.snapshot()),
{
}

/// After an edit the text before the edit range is kept, the new text
/// follows it, and the caret sits right after the new text.
pub proof fn lemma_edit_places_text(before: TextArea, edited: TextArea, range_utf16: Option<(usize, usize)>, t: Seq<char>, coalesce: bool)
    requires
        replaced(before, edited, range_utf16, t, coalesce),
    ensures
        ({
            let (a, b) = before.edit_range(range_utf16);
            &&& edited.text() == before_byte(before.text(), a) + t + from_byte(before.text(), b)
            &&& utf8_len(before_byte(before.text(), a)) == a
            &&& edited.sel().caret() == utf8_len(before_byte(before.text(), a) + t)
        }),
{
    let (a, b) = before.edit_range(range_utf16);
    let s = before.text();
    let raw: (int, int) = match range_utf16 {
        Some(r) => (byte_of_utf16(s, r.0 as int), byte_of_utf16(s, r.1 as int)),
        None => match before.marked() {
            Some(m) => (m.0 as int, m.1 as int),
            None => (before.sel().start as int, before.sel().end as int),
        },
    };
    lemma_clamp_is_boundary(s, raw.0);
    lemma_boundary_prefix(s, a);
    lemma_utf8_len_concat(before_byte(s, a), t);
}

/// A clamped offset is a character boundary.
pub proof fn lemma_clamp_is_boundary(s: Seq<char>, o: int)
    ensures
        is_boundary(s, clamp_spec(s, o)),
{
    lemma_fit_chars_bounds(s, o, 0);
    assert(utf8_len(s.take(crate::text_edit::fit_chars(s, o, 0))) == clamp_spec(s, o));
}

proof fn lemma_fit_chars_bounds(s: Seq<char>, o: int, k: int)
    requires
        0 <= k <= s.len(),
    ensures
        k <= crate::text_edit::fit_chars(s, o, k) <= s.len(),
    decreases s.len() - k,
{
    if k < s.len() && utf8_len(s.take(k + 1)) <= o {
        lemma_fit_chars_bounds(s, o, k + 1);
    }
}

} // verus!
