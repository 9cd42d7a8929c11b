//! One-time-code entry split over one box per digit: what a change in a box
//! does to the boxes, where focus goes, and when the code is complete.

use vstd::prelude::*;

use crate::chars::{chars_of, push_str_chars, string_from_chars};

verus! {

pub open spec fn is_ascii_digit(c: char) -> bool {
    '0' <= c <= '9'
}

/// The ASCII digits of a text, in order.
pub open spec fn digits_of(s: Seq<char>) -> Seq<char> {
    s.filter(|c: char| is_ascii_digit(c))
}

/// Texts joined end to end.
pub open spec fn concat_all(parts: Seq<Seq<char>>) -> Seq<char>
    decreases parts.len(),
{
    if parts.len() == 0 {
        Seq::empty()
    } else {
        concat_all(parts.drop_last()) + parts.last()
    }
}

pub open spec fn texts(values: Seq<String>) -> Seq<Seq<char>> {
    values.map_values(|s: String| s@)
}

/// The boxes after a multi-digit text lands in box `i`: the digits spread
/// over box `i` and the boxes after it, as far as there are boxes.
pub open spec fn spread_spec(boxes: Seq<Seq<char>>, i: int, digits: Seq<char>) -> Seq<Seq<char>> {
    Seq::new(boxes.len(), |k: int| if i <= k < i + digits.len() { seq![digits[k - i]] } else { boxes[k] })
}

/// Where a spread of `n` digits from box `i` ends (one past its last box).
pub open spec fn spread_end(i: int, n: int, count: int) -> int {
    if i + n < count { i + n } else { count }
}

/// What the entry asks of the view after a change: a box to focus and, when
/// the code is complete, the code.
#[derive(Debug)]
pub struct OtpStep {
    pub focus: Option<usize>,
    pub completed: Option<String>,
}

/// The boxes of a one-time code.
pub struct OtpInput {
    digit_count: usize,
    values: Vec<String>,
}

impl OtpInput {
    pub closed spec fn count(&self) -> nat {
        self.digit_count as nat
    }

    /// The text of each box.
    pub closed spec fn boxes(&self) -> Seq<Seq<char>> {
        texts(self.values@)
    }

    pub closed spec fn wf(&self) -> bool {
        self.values@.len() == self.digit_count
    }

    /// `digit_count` empty boxes.
    pub fn new(digit_count: usize) -> (r: Self)
        ensures
            r.wf(),
            r.count() == digit_count,
            r.boxes() == Seq::new(digit_count as nat, |k: int| Seq::<char>::empty()),
    {
        let mut values: Vec<String> = Vec::new();
        let mut k: usize = 0;
        while k < digit_count
            invariant
                k <= digit_count,
                values@.len() == k,
                texts(values@) == Seq::new(k as nat, |j: int| Seq::<char>::empty()),
            decreases digit_count - k,
        {
            let ghost prev = values@;
            let blank = String::new();
            values.push(blank);
            assert(values@ == prev.push(blank));
            assert(blank@ == Seq::<char>::empty());
            assert(values@[k as int] == blank);
            assert(texts(values@)[k as int] == blank@);
            assert(texts(values@)[k as int] == Seq::<char>::empty());
            assert forall|j: int| 0 <= j < k implies #[trigger] texts(values@)[j] == texts(prev)[j] by {
                assert(values@[j] == prev[j]);
            }
            k = k + 1;
            assert(texts(values@) =~= Seq::new(k as nat, |j: int| Seq::<char>::empty()));
        }
        OtpInput { digit_count, values }
    }

    pub fn digit_count(&self) -> (r: usize)
        ensures
            r == self.count(),
    {
        self.digit_count
    }

    pub fn box_text(&self, i: usize) -> (r: &str)
        requires
            self.wf(),
            i < self.count(),
        ensures
            r@ == self.boxes()[i as int],
    {
        self.values[i].as_str()
    }

    /// Every box holds something.
    pub fn all_filled(&self) -> (r: bool)
        requires
            self.wf(),
        ensures
            r == forall|k: int| 0 <= k < self.boxes().len() ==> #[trigger] self.boxes()[k].len() > 0,
    {
        let mut k: usize = 0;
        while k < self.values.len()
            invariant
                k <= self.values@.len(),
                forall|j: int| 0 <= j < k ==> #[trigger] texts(self.values@)[j].len() > 0,
            decreases self.values@.len() - k,
        {
            assert(texts(self.values@)[k as int] == self.values@[k as int]@);
            if self.values[k].as_str().is_empty() {
                assert(self.boxes()[k as int].len() == 0);
                return false;
            }
            k = k + 1;
        }
        true
    }

    /// The code: the boxes' texts joined.
    pub fn value(&self) -> (r: String)
        ensures
            r@ == concat_all(self.boxes()),
    {
        let mut out: Vec<char> = Vec::new();
        let mut k: usize = 0;
        while k < self.values.len()
            invariant
                k <= self.values@.len(),
                out@ == concat_all(texts(self.values@).take(k as int)),
            decreases self.values@.len() - k,
        {
            push_str_chars(&mut out, self.values[k].as_str());
            proof {
                let t = texts(self.values@);
                assert(t.take(k + 1).drop_last() =~= t.take(k as int));
            }
            k = k + 1;
        }
        assert(texts(self.values@).take(self.values@.len() as int) =~= texts(self.values@));
        string_from_chars(&out)
    }

    /// Empties every box; focus goes back to the first one.
    pub fn clear(&mut self) -> (focus: Option<usize>)
        requires
            old(self).wf(),
        ensures
            final(self).wf(),
            final(self).count() == old(self).count(),
            final(self).boxes() == Seq::new(old(self).count(), |k: int| Seq::<char>::empty()),
            focus == (if old(self).count() > 0 { Some(0usize) } else { None }),
    {
        let n = self.digit_count;
        let mut k: usize = 0;
        while k < n
            invariant
                n == self.digit_count,
                self.values@.len() == n,
                k <= n,
                forall|j: int| 0 <= j < k ==> #[trigger] texts(self.values@)[j] == Seq::<char>::empty(),
            decreases n - k,
        {
            let ghost prev = self.values@;
            self.values.set(k, String::new());
            assert forall|j: int| 0 <= j <= k implies #[trigger] texts(self.values@)[j] == Seq::<char>::empty() by {
                if j < k {
                    assert(self.values@[j] == prev[j]);
                    assert(texts(prev)[j] == Seq::<char>::empty());
                }
            }
            k = k + 1;
        }
        assert(texts(self.values@) =~= Seq::new(n as nat, |k: int| Seq::<char>::empty()));
        if n > 0 { Some(0) } else { None }
    }

    /// Box `i` now holds `raw`. Without digits, focus steps back; with one
    /// digit, focus moves on and the code completes once every box is
    /// filled; with several, they spread over the following boxes, focus
    /// moves past them, and the code completes when they reach the last box
    /// or every box is filled.
    pub fn on_change(&mut self, i: usize, raw: String) -> (step: OtpStep)
        requires
            old(self).wf(),
            i < old(self).count(),
        ensures
            final(self).wf(),
            final(self).count() == old(self).count(),
            ({
                let n = old(self).count() as int;
                let d = digits_of(raw@);
                let boxes = final(self).boxes();
                let filled = forall|k: int| 0 <= k < n ==> #[trigger] boxes[k].len() > 0;
                if d.len() == 0 {
                    &&& boxes == old(self).boxes().update(i as int, raw@)
                    &&& step.focus == (if i > 0 { Some((i - 1) as usize) } else { None })
                    &&& step.completed is None
                } else if d.len() == 1 {
                    &&& boxes == old(self).boxes().update(i as int, raw@)
                    &&& step.focus == (if i + 1 < n { Some((i + 1) as usize) } else { None })
                    &&& (step.completed is Some <==> filled)
                    &&& step.completed matches Some(code) ==> code@ == concat_all(boxes)
                } else {
                    let end = spread_end(i as int, d.len() as int, n);
                    &&& boxes == spread_spec(old(self).boxes(), i as int, d)
                    &&& step.focus == (if end < n { Some(end as usize) } else { None })
                    &&& (step.completed is Some <==> (end >= n || filled))
                    &&& step.completed matches Some(code) ==> code@ == concat_all(boxes)
                }
            }),
    {
        let ghost before = texts(self.values@);
        let n = self.digit_count;
        assert(before.len() == n);
        let cs = chars_of(raw.as_str());
        let mut digits: Vec<char> = Vec::new();
        let mut k: usize = 0;
        while k < cs.len()
            invariant
                k <= cs@.len(),
                cs@ == raw@,
                digits@ == cs@.take(k as int).filter(|c: char| is_ascii_digit(c)),
            decreases cs@.len() - k,
        {
            proof {
                assert(cs@.take(k + 1).drop_last() =~= cs@.take(k as int));
                reveal(Seq::filter);
            }
            if '0' <= cs[k] && cs[k] <= '9' {
                digits.push(cs[k]);
            }
            k = k + 1;
        }
        assert(cs@.take(cs@.len() as int) =~= cs@);
        if digits.len() == 0 {
            self.values.set(i, raw);
            assert(texts(self.values@) =~= before.update(i as int, cs@));
            let focus = if i > 0 { Some(i - 1) } else { None };
            return OtpStep { focus, completed: None };
        }
        if digits.len() == 1 {
            self.values.set(i, raw);
            assert(texts(self.values@) =~= before.update(i as int, cs@));
            let focus = if i + 1 < n { Some(i + 1) } else { None };
            let completed = if self.all_filled() { Some(self.value()) } else { None };
            return OtpStep { focus, completed };
        }
        let end: usize = if digits.len() >= n - i { n } else { i + digits.len() };
        let mut j: usize = i;
        while j < end
            invariant
                self.values@.len() == n,
                n == self.digit_count,
                i < n,
                i <= j <= end <= n,
                before.len() == n,
                end == spread_end(i as int, digits@.len() as int, n as int),
                digits@.len() >= 2,
                forall|k: int| 0 <= k < n ==> #[trigger] texts(self.values@)[k] == (if i <= k < j {
                    seq![digits@[k - i]]
                } else {
                    before[k]
                }),
            decreases end - j,
        {
            let at = j - i;
            let one = string_from_chars(&vec![digits[at]]);
            assert(one@ =~= seq![digits@[j - i]]);
            let ghost prev = self.values@;
            self.values.set(j, one);
            assert forall|k: int| 0 <= k < n implies #[trigger] texts(self.values@)[k] == (if i <= k < j + 1 {
                seq![digits@[k - i]]
            } else {
                before[k]
            }) by {
                if k != j {
                    assert(self.values@[k] == prev[k]);
                    assert(texts(prev)[k] == texts(self.values@)[k]);
                }
            }
            j = j + 1;
        }
        assert(texts(self.values@) =~= spread_spec(before, i as int, digits@));
        let focus = if end < n { Some(end) } else { None };
        let completed = if end >= n || self.all_filled() { Some(self.value()) } else { None };
        OtpStep { focus, completed }
    }
}

} // verus!
