//! Editing state of the one-line input: its text, the selection, the text
//! an input method is composing, masking for secrets, and the edits made
//! through the platform's input handler. An edit is committed only after
//! the owner's validation accepts the text it would produce.

use vstd::prelude::*;

use crate::chars::{lemma_utf8_len_is_byte_len, utf8_len, utf8_len_fits};
use crate::text_area::{
    before_byte, from_byte, lemma_boundary_prefix, lemma_byte_of_utf16, lemma_chars_to_utf16_bounds,
    lemma_chars_to_utf16_mono, lemma_prefix_suffix_len, lemma_utf8_len_concat, one_line_spec, slice, slice_spec, splice,
    splice_spec,
};
use crate::text_edit::{
    byte_of_utf16, byte_offset_to_utf16, chars_to_byte, chars_to_utf16, clamp_offset, display_to_content_offset,
    grapheme_starts_of, is_boundary, masked_text, next_boundary, next_start_spec, offset_from_utf16, prev_start_spec,
    previous_boundary, select_to_spec, to_display_offset, utf16_of_byte, Selection, MASK, MASK_UTF8_LEN,
};

verus! {

broadcast use vstd::string::group_string_axioms;

/// What the input reports to its owner.
#[derive(Clone, Copy, Debug, PartialEq, Eq, Structural)]
pub enum InputEvent {
    Change,
    PressEnter,
}

/// The editing state of an input.
pub struct InputState {
    content: String,
    selection: Selection,
    marked_range: Option<(usize, usize)>,
    masked: bool,
    multi_line: bool,
}

impl InputState {
    pub closed spec fn text(self) -> Seq<char> {
        self.content@
    }

    pub closed spec fn sel(self) -> Selection {
        self.selection
    }

    /// The range an input method is composing, if any.
    pub closed spec fn marked(self) -> Option<(usize, usize)> {
        self.marked_range
    }

    pub closed spec fn masking(self) -> bool {
        self.masked
    }

    pub closed spec fn is_multi_line(self) -> bool {
        self.multi_line
    }

    pub closed spec fn with_selection(self, s: Selection) -> InputState {
        InputState { selection: s, ..self }
    }

    pub closed spec fn with_masking(self, masked: bool) -> InputState {
        InputState { masked, ..self }
    }

    pub closed spec fn with_multi_line(self, multi_line: bool) -> InputState {
        InputState { multi_line, ..self }
    }

    /// The same state with the caret at `offset` and nothing selected.
    pub open spec fn moved_to(self, offset: usize) -> InputState {
        self.with_selection(Selection { start: offset, end: offset, reversed: self.sel().reversed })
    }

    /// Start of the grapheme cluster before `offset`.
    pub open spec fn prev_stop(self, offset: usize) -> usize {
        prev_start_spec(grapheme_starts_of(self.text()), offset)
    }

    /// Start of the grapheme cluster after `offset`, the end after the last.
    pub open spec fn next_stop(self, offset: usize) -> usize {
        next_start_spec(grapheme_starts_of(self.text()), offset, utf8_len(self.text()) as usize)
    }

    /// The byte range an edit replaces: the given UTF-16 range, else the
    /// composed range, else the selection.
    pub open spec fn edit_range(self, range_utf16: Option<(usize, usize)>) -> (int, int) {
        match range_utf16 {
            Some(r) => (byte_of_utf16(self.text(), r.0 as int), byte_of_utf16(self.text(), r.1 as int)),
            None => match self.marked() {
                Some(m) => (m.0 as int, m.1 as int),
                None => (self.sel().start as int, self.sel().end as int),
            },
        }
    }

    /// Both ends of the edit range are character boundaries of the text,
    /// so the text can be cut there.
    pub open spec fn edit_range_valid(self, range_utf16: Option<(usize, usize)>) -> bool {
        is_boundary(self.text(), self.edit_range(range_utf16).0) && is_boundary(self.text(), self.edit_range(range_utf16).1)
    }

    /// What backspace selects for removal: the selection, else from the
    /// start of the grapheme cluster before the caret; nothing at the start.
    pub open spec fn backspace_target(self) -> Option<Selection> {
        if self.sel().start == self.sel().end {
            let prev = self.prev_stop(self.sel().caret());
            if self.sel().caret() == prev { None } else { Some(select_to_spec(self.sel(), prev)) }
        } else {
            Some(self.sel())
        }
    }

    /// What delete selects for removal: the selection, else the grapheme
    /// cluster after the caret; nothing at the end.
    pub open spec fn delete_target(self) -> Option<Selection> {
        if self.sel().start == self.sel().end {
            let next = self.next_stop(self.sel().caret());
            if self.sel().caret() == next { None } else { Some(select_to_spec(self.sel(), next)) }
        } else {
            Some(self.sel())
        }
    }

    /// The selection lies within the text on character boundaries, in
    /// order.
    pub open spec fn selection_valid(self) -> bool {
        &&& self.sel().start <= self.sel().end
        &&& is_boundary(self.text(), self.sel().start as int)
        &&& is_boundary(self.text(), self.sel().end as int)
    }

    /// The text is shown masked: masking is on and there is text.
    pub open spec fn shows_masked(self) -> bool {
        self.masking() && self.text().len() > 0
    }

    /// An empty one-line input, not masked.
    pub fn new() -> (r: Self)
        ensures
            r.text() == Seq::<char>::empty(),
            r.sel() == (Selection { start: 0, end: 0, reversed: false }),
            r.marked() is None,
            !r.masking(),
            !r.is_multi_line(),
    {
        InputState {
            content: String::new(),
            selection: Selection { start: 0, end: 0, reversed: false },
            marked_range: None,
            masked: false,
            multi_line: false,
        }
    }

    /// The same input, accepting line breaks or not.
    pub fn multi_line(self, multi_line: bool) -> (r: Self)
        ensures
            r == self.with_multi_line(multi_line),
            r.is_multi_line() == multi_line,
    {
        InputState { multi_line, ..self }
    }

    pub fn value(&self) -> (r: &str)
        ensures
            r@ == self.text(),
    {
        self.content.as_str()
    }

    pub fn selection(&self) -> (r: Selection)
        ensures
            r == self.sel(),
    {
        self.selection
    }

    pub fn accepts_line_breaks(&self) -> (r: bool)
        ensures
            r == self.is_multi_line(),
    {
        self.multi_line
    }

    /// Replaces the text, with the caret at its end and nothing composed.
    pub fn set_value(&mut self, value: String)
        ensures
            final(self).text() == value@,
            final(self).sel() == (Selection {
                start: utf8_len(value@) as usize,
                end: utf8_len(value@) as usize,
                reversed: old(self).sel().reversed,
            }),
            final(self).marked() is None,
            final(self).masking() == old(self).masking(),
            final(self).is_multi_line() == old(self).is_multi_line(),
    {
        let end = value.as_str().len();
        utf8_len_fits(value.as_str());
        proof {
            lemma_utf8_len_is_byte_len(value@);
        }
        self.content = value;
        self.selection = Selection { start: end, end, reversed: self.selection.reversed };
        self.marked_range = None;
    }

    /// Empties the input; returns whether there was text.
    pub fn clear(&mut self) -> (r: bool)
        ensures
            r == (old(self).text().len() > 0),
            !r ==> *final(self) == *old(self),
            r ==> final(self).text() == Seq::<char>::empty() && final(self).sel() == (Selection {
                start: 0,
                end: 0,
                reversed: old(self).sel().reversed,
            }) && final(self).marked() is None && final(self).masking() == old(self).masking()
                && final(self).is_multi_line() == old(self).is_multi_line(),
    {
        if self.content.as_str().is_empty() {
            return false;
        }
        self.content = String::new();
        self.selection = Selection { start: 0, end: 0, reversed: self.selection.reversed };
        self.marked_range = None;
        true
    }

    pub fn set_masked(&mut self, masked: bool)
        ensures
            *final(self) == old(self).with_masking(masked),
    {
        self.masked = masked;
    }

    /// Whether the text is shown masked.
    pub fn is_masked(&self) -> (r: bool)
        ensures
            r == self.shows_masked(),
    {
        self.masked && !self.content.as_str().is_empty()
    }

    /// The text as shown: one mask character per character when masked.
    pub fn display_text(&self) -> (r: String)
        ensures
            self.shows_masked() ==> r@ == Seq::new(self.text().len(), |i: int| MASK),
            !self.shows_masked() ==> r@ == self.text(),
    {
        if self.is_masked() {
            masked_text(self.content.as_str())
        } else {
            self.content.clone()
        }
    }

    /// Offset in the shown text of a character boundary of the text.
    pub fn to_display_offset(&self, content_offset: usize) -> (r: usize)
        requires
            is_boundary(self.text(), content_offset as int),
            self.text().len() * MASK_UTF8_LEN <= usize::MAX,
        ensures
            !self.shows_masked() ==> r == content_offset,
            self.shows_masked() ==> exists|k: int|
                0 <= k <= self.text().len() && utf8_len(self.text().take(k)) == content_offset && r == k * MASK_UTF8_LEN,
    {
        if self.is_masked() {
            to_display_offset(self.content.as_str(), content_offset)
        } else {
            content_offset
        }
    }

    /// Offset in the text of an offset of the shown text.
    pub fn display_to_content_offset(&self, display_offset: usize) -> (r: usize)
        ensures
            !self.shows_masked() ==> r == display_offset,
            self.shows_masked() ==> r == utf8_len(self.text().take(if display_offset / MASK_UTF8_LEN < self.text().len() {
                (display_offset / MASK_UTF8_LEN) as int
            } else {
                self.text().len() as int
            })),
    {
        if self.is_masked() {
            display_to_content_offset(self.content.as_str(), display_offset)
        } else {
            display_offset
        }
    }

    /// Puts the caret at `offset`, selecting nothing.
    pub fn move_to(&mut self, offset: usize)
        ensures
            *final(self) == old(self).moved_to(offset),
    {
        self.selection = Selection { start: offset, end: offset, reversed: self.selection.reversed };
    }

    /// Moves the caret to `offset`, keeping the other end of the selection.
    pub fn select_to(&mut self, offset: usize)
        ensures
            *final(self) == old(self).with_selection(select_to_spec(old(self).sel(), offset)),
    {
        if self.selection.reversed {
            self.selection.start = offset;
        } else {
            self.selection.end = offset;
        }
        if self.selection.end < self.selection.start {
            self.selection = Selection { start: self.selection.end, end: self.selection.start, reversed: !self.selection.reversed };
        }
    }

    /// Left arrow: a selection collapses to its start, else the caret
    /// steps back one grapheme cluster.
    pub fn left(&mut self)
        ensures
            *final(self) == old(self).moved_to(if old(self).sel().start == old(self).sel().end {
                old(self).prev_stop(old(self).sel().caret())
            } else {
                old(self).sel().start
            }),
    {
        if self.selection.start == self.selection.end {
            let target = previous_boundary(self.content.as_str(), self.selection.cursor_offset());
            self.move_to(target);
        } else {
            self.move_to(self.selection.start);
        }
    }

    /// Right arrow: a selection collapses to its end, else the caret steps
    /// forward one grapheme cluster.
    pub fn right(&mut self)
        ensures
            *final(self) == old(self).moved_to(if old(self).sel().start == old(self).sel().end {
                old(self).next_stop(old(self).sel().end)
            } else {
                old(self).sel().end
            }),
    {
        if self.selection.start == self.selection.end {
            let target = next_boundary(self.content.as_str(), self.selection.end);
            self.move_to(target);
        } else {
            self.move_to(self.selection.end);
        }
    }

    pub fn select_left(&mut self)
        ensures
            *final(self) == old(self).with_selection(select_to_spec(old(self).sel(), old(self).prev_stop(old(self).sel().caret()))),
    {
        let target = previous_boundary(self.content.as_str(), self.selection.cursor_offset());
        self.select_to(target);
    }

    pub fn select_right(&mut self)
        ensures
            *final(self) == old(self).with_selection(select_to_spec(old(self).sel(), old(self).next_stop(old(self).sel().caret()))),
    {
        let target = next_boundary(self.content.as_str(), self.selection.cursor_offset());
        self.select_to(target);
    }

    /// Selects the whole text.
    pub fn select_all(&mut self)
        ensures
            final(self).sel().start == 0,
            final(self).sel().end == utf8_len(old(self).text()),
            utf8_len(old(self).text()) > 0 ==> !final(self).sel().reversed,
            *final(self) == old(self).with_selection(final(self).sel()),
    {
        let end = self.content.as_str().len();
        utf8_len_fits(self.content.as_str());
        proof {
            lemma_utf8_len_is_byte_len(self.content@);
        }
        self.move_to(0);
        self.select_to(end);
    }

    /// Home: the caret to the start.
    pub fn home(&mut self)
        ensures
            *final(self) == old(self).moved_to(0),
    {
        self.move_to(0);
    }

    /// End: the caret to the end.
    pub fn end(&mut self)
        ensures
            *final(self) == old(self).moved_to(utf8_len(old(self).text()) as usize),
    {
        let end = self.content.as_str().len();
        utf8_len_fits(self.content.as_str());
        proof {
            lemma_utf8_len_is_byte_len(self.content@);
        }
        self.move_to(end);
    }

    /// Backspace selects what it removes (see
    /// [`InputState::backspace_target`]); returns false, selecting
    /// nothing, when there is nothing to remove. The removal itself is an
    /// edit replacing the selection by nothing.
    pub fn backspace(&mut self) -> (r: bool)
        ensures
            match old(self).backspace_target() {
                None => !r && *final(self) == *old(self),
                Some(s) => r && *final(self) == old(self).with_selection(s),
            },
    {
        if self.selection.start == self.selection.end {
            let caret = self.selection.cursor_offset();
            let prev = previous_boundary(self.content.as_str(), caret);
            if caret == prev {
                return false;
            }
            self.select_to(prev);
        } else {
            assert(old(self).with_selection(old(self).sel()) == *old(self));
        }
        true
    }

    /// Delete selects what it removes (see [`InputState::delete_target`]);
    /// returns false, selecting nothing, when there is nothing to remove.
    pub fn delete(&mut self) -> (r: bool)
        ensures
            match old(self).delete_target() {
                None => !r && *final(self) == *old(self),
                Some(s) => r && *final(self) == old(self).with_selection(s),
            },
    {
        if self.selection.start == self.selection.end {
            let caret = self.selection.cursor_offset();
            let next = next_boundary(self.content.as_str(), caret);
            if caret == next {
                return false;
            }
            self.select_to(next);
        } else {
            assert(old(self).with_selection(old(self).sel()) == *old(self));
        }
        true
    }

    /// The text a paste of `text` inserts: as it is into a multi-line
    /// input, with each line break made a space into a one-line one.
    pub fn pasted_text(&self, text: &str) -> (r: String)
        ensures
            self.is_multi_line() ==> r@ == text@,
            !self.is_multi_line() ==> r@ == one_line_spec(text@),
    {
        if self.multi_line {
            text.to_string()
        } else {
            crate::text_area::one_line(text)
        }
    }

    /// Whether the selection can be read out of the text.
    pub fn selection_in_text(&self) -> (r: bool)
        ensures
            r == self.selection_valid(),
    {
        self.selection.start <= self.selection.end && clamp_offset(self.content.as_str(), self.selection.start)
            == self.selection.start && clamp_offset(self.content.as_str(), self.selection.end) == self.selection.end
    }

    /// The selected text for the clipboard: none when nothing is selected
    /// or the text is masked.
    pub fn copy(&self) -> (r: Option<String>)
        requires
            self.selection_valid(),
        ensures
            (self.sel().start == self.sel().end || self.masking()) ==> r is None,
            !(self.sel().start == self.sel().end || self.masking()) ==> (r matches Some(t) && t@ == slice_spec(
                self.text(),
                self.sel().start as int,
                self.sel().end as int,
            )),
    {
        if self.selection.start == self.selection.end || self.masked {
            None
        } else {
            Some(slice(self.content.as_str(), self.selection.start, self.selection.end))
        }
    }

    /// Whether both ends of the edit range of `range_utf16` are character
    /// boundaries.
    pub fn edit_range_in_text(&self, range_utf16: Option<(usize, usize)>) -> (r: bool)
        ensures
            r == self.edit_range_valid(range_utf16),
    {
        let (a, b) = self.edit_range_exec(range_utf16);
        clamp_offset(self.content.as_str(), a) == a && clamp_offset(self.content.as_str(), b) == b
    }

    fn edit_range_exec(&self, range_utf16: Option<(usize, usize)>) -> (r: (usize, usize))
        ensures
            r.0 == self.edit_range(range_utf16).0,
            r.1 == self.edit_range(range_utf16).1,
    {
        let text = self.content.as_str();
        match range_utf16 {
            Some(r) => (offset_from_utf16(text, r.0), offset_from_utf16(text, r.1)),
            None => match self.marked_range {
                Some(m) => m,
                None => (self.selection.start, self.selection.end),
            },
        }
    }

    /// The text that replacing the edit range by `new_text` would produce,
    /// for the owner to validate.
    pub fn candidate(&self, range_utf16: Option<(usize, usize)>, new_text: &str) -> (r: String)
        ensures
            r@ == splice_spec(self.text(), self.edit_range(range_utf16).0, self.edit_range(range_utf16).1, new_text@),
    {
        let (a, b) = self.edit_range_exec(range_utf16);
        splice(self.content.as_str(), a, b, new_text)
    }

    /// Replaces the edit range of `range_utf16` by `new_text` (the owner
    /// has accepted [`InputState::candidate`]); the caret follows the new
    /// text and nothing stays composed.
    pub fn replace_text_in_range(&mut self, range_utf16: Option<(usize, usize)>, new_text: &str)
        requires
            old(self).edit_range_valid(range_utf16),
        ensures
            ({
                let (a, b) = old(self).edit_range(range_utf16);
                let caret = (a + utf8_len(new_text@)) as usize;
                &&& a + utf8_len(new_text@) <= usize::MAX
                &&& final(self).text() == splice_spec(old(self).text(), a, b, new_text@)
                &&& final(self).sel() == (Selection { start: caret, end: caret, reversed: old(self).sel().reversed })
                &&& final(self).marked() is None
                &&& final(self).masking() == old(self).masking()
                &&& final(self).is_multi_line() == old(self).is_multi_line()
            }),
    {
        let (a, b) = self.edit_range_exec(range_utf16);
        let next = splice(self.content.as_str(), a, b, new_text);
        let n = new_text.len();
        utf8_len_fits(next.as_str());
        proof {
            let s = old(self).text();
            lemma_boundary_prefix(s, a as int);
            lemma_utf8_len_is_byte_len(new_text@);
            lemma_utf8_len_concat(before_byte(s, a as int), new_text@);
            lemma_utf8_len_concat(before_byte(s, a as int) + new_text@, from_byte(s, b as int));
        }
        self.content = next;
        self.selection = Selection { start: a + n, end: a + n, reversed: self.selection.reversed };
        self.marked_range = None;
    }

    /// Replaces the edit range of `range_utf16` by `new_text` and marks it
    /// as being composed; the selection is `new_selected_utf16`, read in
    /// the new text, with its start shifted by the start and its end by
    /// the end of the edit range; else the caret after the new text.
    pub fn replace_and_mark_text_in_range(
        &mut self,
        range_utf16: Option<(usize, usize)>,
        new_text: &str,
        new_selected_utf16: Option<(usize, usize)>,
    )
        requires
            old(self).edit_range_valid(range_utf16),
            ({
                let (a, b) = old(self).edit_range(range_utf16);
                let s2 = splice_spec(old(self).text(), a, b, new_text@);
                new_selected_utf16 matches Some(r) ==> byte_of_utf16(s2, r.0 as int) + a <= usize::MAX
                    && byte_of_utf16(s2, r.1 as int) + b <= usize::MAX
            }),
        ensures
            ({
                let (a, b) = old(self).edit_range(range_utf16);
                let n = utf8_len(new_text@);
                let s2 = splice_spec(old(self).text(), a, b, new_text@);
                &&& final(self).text() == s2
                &&& final(self).marked() == (if n == 0 { None } else { Some((a as usize, (a + n) as usize)) })
                &&& final(self).sel() == match new_selected_utf16 {
                    Some(r) => Selection {
                        start: (byte_of_utf16(s2, r.0 as int) + a) as usize,
                        end: (byte_of_utf16(s2, r.1 as int) + b) as usize,
                        reversed: old(self).sel().reversed,
                    },
                    None => Selection { start: (a + n) as usize, end: (a + n) as usize, reversed: old(self).sel().reversed },
                }
                &&& final(self).masking() == old(self).masking()
                &&& final(self).is_multi_line() == old(self).is_multi_line()
            }),
    {
        let (a, b) = self.edit_range_exec(range_utf16);
        let next = splice(self.content.as_str(), a, b, new_text);
        let n = new_text.len();
        utf8_len_fits(new_text);
        utf8_len_fits(next.as_str());
        let ghost s = old(self).text();
        let ghost s2 = next@;
        proof {
            lemma_boundary_prefix(s, a as int);
            lemma_boundary_prefix(s, b as int);
            lemma_utf8_len_is_byte_len(new_text@);
            lemma_utf8_len_concat(before_byte(s, a as int), new_text@);
            lemma_utf8_len_concat(before_byte(s, a as int) + new_text@, from_byte(s, b as int));
            lemma_prefix_suffix_len(s, a as int, b as int);
            let ib = chars_to_byte(s, b as int, 0);
            assert(s.take(ib) + s.skip(ib) =~= s);
            lemma_utf8_len_concat(s.take(ib), s.skip(ib));
        }
        self.marked_range = if n == 0 { None } else { Some((a, a + n)) };
        self.selection = match new_selected_utf16 {
            Some(r) => {
                let x = offset_from_utf16(next.as_str(), r.0);
                let y = offset_from_utf16(next.as_str(), r.1);
                proof {
                    lemma_byte_of_utf16(s2, r.0 as int);
                    lemma_byte_of_utf16(s2, r.1 as int);
                }
                Selection { start: x + a, end: y + b, reversed: self.selection.reversed }
            },
            None => Selection { start: a + n, end: a + n, reversed: self.selection.reversed },
        };
        self.content = next;
    }

    /// The text of a UTF-16 range, with the UTF-16 range it actually
    /// covers.
    pub fn text_for_range(&self, range_utf16: (usize, usize)) -> (r: (String, (usize, usize)))
        requires
            range_utf16.0 <= range_utf16.1,
        ensures
            ({
                let a = byte_of_utf16(self.text(), range_utf16.0 as int);
                let b = byte_of_utf16(self.text(), range_utf16.1 as int);
                &&& r.0@ == slice_spec(self.text(), a, b)
                &&& r.1.0 == utf16_of_byte(self.text(), a)
                &&& r.1.1 == utf16_of_byte(self.text(), b)
            }),
    {
        let text = self.content.as_str();
        let a = offset_from_utf16(text, range_utf16.0);
        let b = offset_from_utf16(text, range_utf16.1);
        proof {
            lemma_chars_to_utf16_bounds(text@, range_utf16.0 as int, 0);
            lemma_chars_to_utf16_bounds(text@, range_utf16.1 as int, 0);
            lemma_chars_to_utf16_mono(text@, range_utf16.0 as int, range_utf16.1 as int, 0);
            crate::chars::lemma_utf8_len_mono(
                text@,
                chars_to_utf16(text@, range_utf16.0 as int, 0),
                chars_to_utf16(text@, range_utf16.1 as int, 0),
            );
        }
        let actual = (byte_offset_to_utf16(text, a), byte_offset_to_utf16(text, b));
        (slice(text, a, b), actual)
    }

    /// The selection in UTF-16 offsets, and whether the caret is at its
    /// start.
    pub fn selected_text_range(&self) -> (r: ((usize, usize), bool))
        ensures
            r.0.0 == utf16_of_byte(self.text(), self.sel().start as int),
            r.0.1 == utf16_of_byte(self.text(), self.sel().end as int),
            r.1 == self.sel().reversed,
    {
        let text = self.content.as_str();
        (
            (byte_offset_to_utf16(text, self.selection.start), byte_offset_to_utf16(text, self.selection.end)),
            self.selection.reversed,
        )
    }

    /// The composed range in UTF-16 offsets, if any.
    pub fn marked_text_range(&self) -> (r: Option<(usize, usize)>)
        ensures
            match self.marked() {
                Some(m) => r == Some(
                    (utf16_of_byte(self.text(), m.0 as int) as usize, utf16_of_byte(self.text(), m.1 as int) as usize),
                ),
                None => r is None,
            },
    {
        match self.marked_range {
            Some(m) => {
                let text = self.content.as_str();
                Some((byte_offset_to_utf16(text, m.0), byte_offset_to_utf16(text, m.1)))
            },
            None => None,
        }
    }

    /// Ends the composition, keeping its text.
    pub fn unmark_text(&mut self)
        ensures
            final(self).marked() is None,
            final(self).text() == old(self).text(),
            final(self).sel() == old(self).sel(),
            final(self).masking() == old(self).masking(),
            final(self).is_multi_line() == old(self).is_multi_line(),
    {
        self.marked_range = None;
    }
}

/// With the text masked, the shown offset of a character boundary maps
/// back to that boundary.
pub proof fn lemma_masked_offsets_round_trip(text: Seq<char>, k: int)
    requires
        0 <= k <= text.len(),
    ensures
        ({
            let shown = k * MASK_UTF8_LEN;
            let back = if shown / (MASK_UTF8_LEN as int) < text.len() { shown / (MASK_UTF8_LEN as int) } else { text.len() as int };
            utf8_len(text.take(back)) == utf8_len(text.take(k))
        }),
{
    assert((k * 3) / 3 == k) by (nonlinear_arith)
        requires
            k >= 0,
    ;
}

/// A styled stretch of the shown text: its length in bytes, whether it lies
/// in a highlighted token, and whether it is being composed (underlined).
#[derive(Clone, Copy, Debug, PartialEq, Eq, Structural)]
pub struct StyledRun {
    pub len: usize,
    pub token_bg: bool,
    pub underlined: bool,
}

/// An offset clamped to the text length.
pub open spec fn cap(x: usize, n: usize) -> usize {
    if x < n { x } else { n }
}

/// The offsets where the style may change: both ends of the text, and the
/// ends of the composed range and of each token range, clamped to the text.
pub open spec fn cut_points(n: usize, marked: Option<(usize, usize)>, tokens: Seq<(usize, usize)>) -> Set<usize> {
    Set::new(|x: usize| {
        ||| x == 0
        ||| x == n
        ||| (marked matches Some(m) && (x == cap(m.0, n) || x == cap(m.1, n)))
        ||| exists|k: int| 0 <= k < tokens.len() && (x == cap(tokens[k].0, n) || x == cap(tokens[k].1, n))
    })
}

pub open spec fn strictly_increasing(s: Seq<usize>) -> bool {
    forall|i: int, j: int| 0 <= i < j < s.len() ==> s[i] < s[j]
}

/// The style of the stretch from `a` to `b`.
pub open spec fn run_spec(a: usize, b: usize, marked: Option<(usize, usize)>, tokens: Seq<(usize, usize)>, has_token_bg: bool) -> StyledRun {
    StyledRun {
        len: (b - a) as usize,
        token_bg: has_token_bg && exists|k: int| 0 <= k < tokens.len() && tokens[k].0 <= a && b <= tokens[k].1,
        underlined: marked matches Some(m) && m.0 <= a && b <= m.1,
    }
}

/// Nothing to style: one plain run over the whole text.
pub open spec fn plain_runs(marked: Option<(usize, usize)>, tokens: Seq<(usize, usize)>, has_token_bg: bool) -> bool {
    marked is None && (tokens.len() == 0 || !has_token_bg)
}

fn insert_point(points: &mut Vec<usize>, x: usize)
    requires
        strictly_increasing(old(points)@),
    ensures
        strictly_increasing(final(points)@),
        final(points)@.to_set() == old(points)@.to_set().insert(x),
{
    let mut i: usize = 0;
    while i < points.len() && points[i] < x
        invariant
            i <= points@.len(),
            forall|j: int| 0 <= j < i ==> points@[j] < x,
        decreases points@.len() - i,
    {
        i = i + 1;
    }
    if i < points.len() && points[i] == x {
        assert(points@.to_set().insert(x) =~= points@.to_set()) by {
            assert(points@.contains(x));
        }
        return;
    }
    let ghost before = points@;
    points.insert(i, x);
    assert(points@ == before.insert(i as int, x));
    assert forall|a: int, b: int| 0 <= a < b < points@.len() implies points@[a] < points@[b] by {
        if a < i as int && b == i as int {
        } else if a < i as int && b > i as int {
            assert(points@[b] == before[b - 1]);
            assert(before[b - 1] >= x) by {
                if i < before.len() {
                    assert(before[i as int] > x);
                    if b - 1 > i as int {
                        assert(before[i as int] < before[b - 1]);
                    }
                }
            }
        } else if a == i as int {
            assert(points@[b] == before[b - 1]);
            assert(before[i as int] > x);
            if b - 1 > i as int {
                assert(before[i as int] < before[b - 1]);
            }
        } else if a > i as int {
            assert(points@[a] == before[a - 1]);
            assert(points@[b] == before[b - 1]);
        }
    }
    assert(points@.to_set() =~= before.to_set().insert(x)) by {
        assert forall|y: usize| points@.to_set().contains(y) <==> before.to_set().insert(x).contains(y) by {
            if points@.contains(y) {
                let k = choose|k: int| 0 <= k < points@.len() && points@[k] == y;
                if k < i as int {
                    assert(before[k] == y);
                } else if k > i as int {
                    assert(before[k - 1] == y);
                }
            }
            if before.contains(y) {
                let k = choose|k: int| 0 <= k < before.len() && before[k] == y;
                if k < i as int {
                    assert(points@[k] == y);
                } else {
                    assert(points@[k + 1] == y);
                }
            }
            if y == x {
                assert(points@[i as int] == x);
            }
        }
    }
}

fn in_some_token(tokens: &Vec<(usize, usize)>, a: usize, b: usize) -> (r: bool)
    ensures
        r == exists|k: int| 0 <= k < tokens@.len() && tokens@[k].0 <= a && b <= tokens@[k].1,
{
    let mut k: usize = 0;
    while k < tokens.len()
        invariant
            k <= tokens@.len(),
            forall|j: int| 0 <= j < k ==> !(tokens@[j].0 <= a && b <= tokens@[j].1),
        decreases tokens@.len() - k,
    {
        if tokens[k].0 <= a && b <= tokens[k].1 {
            return true;
        }
        k = k + 1;
    }
    false
}

/// The styled runs of a shown text of `text_len` bytes: one plain run when
/// nothing is composed or highlighted; else one run between each pair of
/// consecutive [`cut_points`], styled by the ranges covering it.
pub fn input_text_runs(
    text_len: usize,
    marked: Option<(usize, usize)>,
    tokens: &Vec<(usize, usize)>,
    has_token_bg: bool,
) -> (r: Vec<StyledRun>)
    ensures
        plain_runs(marked, tokens@, has_token_bg) ==> r@ == seq![StyledRun { len: text_len, token_bg: false, underlined: false }],
        !plain_runs(marked, tokens@, has_token_bg) ==> exists|points: Seq<usize>| {
            &&& strictly_increasing(points)
            &&& points.to_set() == cut_points(text_len, marked, tokens@)
            &&& r@.len() + 1 == points.len()
            &&& forall|i: int| 0 <= i < r@.len() ==> #[trigger] r@[i] == run_spec(points[i], points[i + 1], marked, tokens@, has_token_bg)
        },
{
    if marked.is_none() && (tokens.len() == 0 || !has_token_bg) {
        return vec![StyledRun { len: text_len, token_bg: false, underlined: false }];
    }
    let n = text_len;
    let mut points: Vec<usize> = Vec::new();
    insert_point(&mut points, 0);
    insert_point(&mut points, n);
    match marked {
        Some(m) => {
            insert_point(&mut points, if m.0 < n { m.0 } else { n });
            insert_point(&mut points, if m.1 < n { m.1 } else { n });
        },
        None => {},
    }
    let mut k: usize = 0;
    while k < tokens.len()
        invariant
            k <= tokens@.len(),
            strictly_increasing(points@),
            points@.to_set() == Set::new(|x: usize| {
                ||| x == 0
                ||| x == n
                ||| (marked matches Some(m) && (x == cap(m.0, n) || x == cap(m.1, n)))
                ||| exists|j: int| 0 <= j < k && (x == cap(tokens@[j].0, n) || x == cap(tokens@[j].1, n))
            }),
        decreases tokens@.len() - k,
    {
        let ghost before = points@.to_set();
        let r = tokens[k];
        insert_point(&mut points, if r.0 < n { r.0 } else { n });
        insert_point(&mut points, if r.1 < n { r.1 } else { n });
        proof {
            assert forall|x: usize| #![auto] points@.to_set().contains(x) == Set::new(|x: usize| {
                ||| x == 0
                ||| x == n
                ||| (marked matches Some(m) && (x == cap(m.0, n) || x == cap(m.1, n)))
                ||| exists|j: int| 0 <= j < k + 1 && (x == cap(tokens@[j].0, n) || x == cap(tokens@[j].1, n))
            }).contains(x) by {
                if exists|j: int| 0 <= j < k + 1 && (x == cap(tokens@[j].0, n) || x == cap(tokens@[j].1, n)) {
                    let j = choose|j: int| 0 <= j < k + 1 && (x == cap(tokens@[j].0, n) || x == cap(tokens@[j].1, n));
                    if j < k {
                        assert(before.contains(x));
                    }
                }
                if before.contains(x) {
                    if exists|j: int| 0 <= j < k && (x == cap(tokens@[j].0, n) || x == cap(tokens@[j].1, n)) {
                        let j = choose|j: int| 0 <= j < k && (x == cap(tokens@[j].0, n) || x == cap(tokens@[j].1, n));
                        assert(0 <= j < k + 1);
                    }
                }
            }
        }
        k = k + 1;
        assert(points@.to_set() =~= Set::new(|x: usize| {
            ||| x == 0
            ||| x == n
            ||| (marked matches Some(m) && (x == cap(m.0, n) || x == cap(m.1, n)))
            ||| exists|j: int| 0 <= j < k && (x == cap(tokens@[j].0, n) || x == cap(tokens@[j].1, n))
        }));
    }
    assert(points@.to_set() =~= cut_points(n, marked, tokens@));
    assert(points@.contains(0usize)) by {
        assert(points@.to_set().contains(0usize));
    }
    let mut runs: Vec<StyledRun> = Vec::new();
    let last = points.len() - 1;
    let mut i: usize = 0;
    while i < last
        invariant
            strictly_increasing(points@),
            last + 1 == points@.len(),
            i <= last,
            runs@.len() == i,
            forall|j: int| 0 <= j < i ==> #[trigger] runs@[j] == run_spec(points@[j], points@[j + 1], marked, tokens@, has_token_bg),
        decreases points@.len() - i,
    {
        let a = points[i];
        let b = points[i + 1];
        let underlined = match marked {
            Some(m) => m.0 <= a && b <= m.1,
            None => false,
        };
        let token_bg = has_token_bg && in_some_token(tokens, a, b);
        runs.push(StyledRun { len: b - a, token_bg, underlined });
        i = i + 1;
    }
    runs
}

/// The runs cover the text: their lengths add up to its length.
pub proof fn lemma_runs_cover_text(points: Seq<usize>, runs: Seq<StyledRun>, n: usize, marked: Option<(usize, usize)>, tokens: Seq<(usize, usize)>, has_token_bg: bool)
    requires
        strictly_increasing(points),
        points.to_set() == cut_points(n, marked, tokens),
        runs.len() + 1 == points.len(),
        forall|i: int| 0 <= i < runs.len() ==> #[trigger] runs[i] == run_spec(points[i], points[i + 1], marked, tokens, has_token_bg),
    ensures
        run_lengths(runs) == n,
{
    let cps = cut_points(n, marked, tokens);
    assert(cps.contains(0usize));
    assert(cps.contains(n));
    // every cut point lies within the text
    assert forall|k: int| 0 <= k < points.len() implies points[k] <= n by {
        assert(points.to_set().contains(points[k]));
        assert(cps.contains(points[k]));
    }
    assert(points.contains(0usize));
    assert(points.contains(n));
    let z = choose|k: int| 0 <= k < points.len() && points[k] == 0usize;
    let e = choose|k: int| 0 <= k < points.len() && points[k] == n;
    assert(z == 0) by {
        if z > 0 {
            assert(points[0] < points[z]);
        }
    }
    assert(e == points.len() - 1) by {
        if e < points.len() - 1 {
            assert(points[e] < points[points.len() - 1]);
            assert(points[points.len() - 1] <= n);
        }
    }
    lemma_run_lengths_telescope(points, runs, marked, tokens, has_token_bg, runs.len() as int);
    assert(runs.take(runs.len() as int) =~= runs);
}

/// Total length of runs.
pub open spec fn run_lengths(runs: Seq<StyledRun>) -> int
    decreases runs.len(),
{
    if runs.len() == 0 { 0 } else { run_lengths(runs.drop_last()) + runs.last().len }
}

proof fn lemma_run_lengths_telescope(points: Seq<usize>, runs: Seq<StyledRun>, marked: Option<(usize, usize)>, tokens: Seq<(usize, usize)>, has_token_bg: bool, m: int)
    requires
        strictly_increasing(points),
        runs.len() + 1 == points.len(),
        forall|i: int| 0 <= i < runs.len() ==> #[trigger] runs[i] == run_spec(points[i], points[i + 1], marked, tokens, has_token_bg),
        0 <= m <= runs.len(),
    ensures
        run_lengths(runs.take(m)) == points[m] - points[0],
    decreases m,
{
    if m > 0 {
        lemma_run_lengths_telescope(points, runs, marked, tokens, has_token_bg, m - 1);
        assert(runs.take(m).drop_last() =~= runs.take(m - 1));
        assert(runs[m - 1] == run_spec(points[m - 1], points[m], marked, tokens, has_token_bg));
        assert(points[m - 1] < points[m]);
    } else {
        assert(runs.take(0) =~= Seq::<StyledRun>::empty());
    }
}

} // verus!
