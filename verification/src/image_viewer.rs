//! The playlist of the image viewer: which attachment is shown, paging in
//! newer and older attachments around it, and the rotation of the image.

use vstd::prelude::*;
use std::collections::HashSet;

use core::cmp::Ordering;

use crate::chars::{chars_of, eq_ignore_ascii_case, ascii_lower, str_eq_chars, to_ascii_lower};
use crate::order::{before, lemma_insert_in_order, lemma_lex_single, lex, stable_order, stably_sorted};
use crate::image_cache::ledger::wrap_inc;
use crate::seqs::ix;
use crate::records::ClanId;

verus! {

/// Attachments fetched per page.
pub const VIEWER_FETCH_LIMIT: usize = 50;
/// Positions from either end of the list at which the next page is fetched.
pub const VIEWER_LOAD_MORE_THRESHOLD: usize = 3;

/// An attachment as the viewer reads it.
pub struct ViewerAttachment {
    pub id: i64,
    pub create_time_seconds: u32,
    pub is_image: bool,
    pub filetype: String,
    pub url: String,
    pub viewer_src: String,
}

/// The text after the last `?` of a URL (all of it without one).
pub open spec fn after_last_question(s: Seq<char>) -> Seq<char>
    decreases s.len(),
{
    if s.len() == 0 {
        s
    } else if s.last() == '?' {
        Seq::empty()
    } else {
        after_last_question(s.drop_last()).push(s.last())
    }
}

pub open spec fn ends_with_gif(s: Seq<char>) -> bool {
    s.len() >= 4 && s.subrange(s.len() - 4, s.len() as int).map_values(|c: char| ascii_lower(c)) == ".gif"@
}

/// Only GIF images are animated: by their file type, or by a `.gif` end of
/// the URL's text after its last `?`.
pub open spec fn animated_spec(is_image: bool, filetype: Seq<char>, url: Seq<char>) -> bool {
    is_image && (eq_ignore_ascii_case(filetype, "image/gif"@) || ends_with_gif(after_last_question(url)))
}

fn eq_ignore_case(a: &Vec<char>, b: &Vec<char>) -> (r: bool)
    ensures
        r == eq_ignore_ascii_case(a@, b@),
{
    if a.len() != b.len() {
        return false;
    }
    let mut i: usize = 0;
    while i < a.len()
        invariant
            a@.len() == b@.len(),
            i <= a@.len(),
            forall|k: int| 0 <= k < i ==> ascii_lower(#[trigger] a@[k]) == ascii_lower(b@[k]),
        decreases a@.len() - i,
    {
        if to_ascii_lower(a[i]) != to_ascii_lower(b[i]) {
            return false;
        }
        i = i + 1;
    }
    true
}

pub fn is_animated_image(att: &ViewerAttachment) -> (r: bool)
    ensures
        r == animated_spec(att.is_image, att.filetype@, att.url@),
{
    if !att.is_image {
        return false;
    }
    let gif = chars_of("image/gif");
    if eq_ignore_case(&chars_of(att.filetype.as_str()), &gif) {
        return true;
    }
    let cs = chars_of(att.url.as_str());
    let mut start: usize = cs.len();
    assert(cs@.take(start as int) =~= cs@);
    assert(cs@.subrange(start as int, cs@.len() as int) =~= Seq::<char>::empty());
    assert(after_last_question(cs@) + Seq::<char>::empty() =~= after_last_question(cs@));
    while start > 0 && cs[start - 1] != '?'
        invariant
            start <= cs@.len(),
            cs@ == att.url@,
            after_last_question(cs@) == after_last_question(cs@.take(start as int)) + cs@.subrange(start as int, cs@.len() as int),
        decreases start,
    {
        proof {
            let t = cs@.take(start as int);
            assert(t.drop_last() =~= cs@.take(start - 1));
            assert(cs@.subrange(start - 1, cs@.len() as int) =~= seq![t.last()] + cs@.subrange(start as int, cs@.len() as int));
            assert(after_last_question(t) == after_last_question(t.drop_last()).push(t.last()));
        }
        start = start - 1;
    }
    proof {
        if start > 0 {
            let t = cs@.take(start as int);
            assert(t.last() == '?');
        } else {
            assert(cs@.take(0) =~= Seq::<char>::empty());
        }
    }
    let tail_ghost = Ghost(cs@.subrange(start as int, cs@.len() as int));
    assert(after_last_question(cs@) =~= tail_ghost@);
    let n = cs.len();
    if n - start < 4 {
        return false;
    }
    let suffix = chars_of(".gif");
    proof {
        reveal_strlit(".gif");
    }
    let mut k: usize = 0;
    while k < 4
        invariant
            k <= 4,
            n == cs@.len(),
            n - start >= 4,
            start <= n,
            suffix@ == ".gif"@,
            suffix@.len() == 4,
            tail_ghost@ == cs@.subrange(start as int, n as int),
            tail_ghost@ == after_last_question(att.url@),
            att.is_image,
            !eq_ignore_ascii_case(att.filetype@, "image/gif"@),
            forall|j: int| 0 <= j < k ==> ascii_lower(#[trigger] cs@[n - 4 + j]) == suffix@[j],
        decreases 4 - k,
    {
        if to_ascii_lower(cs[n - 4 + k]) != suffix[k] {
            proof {
                let t = tail_ghost@;
                assert(t.subrange(t.len() - 4, t.len() as int)[k as int] == t[t.len() - 4 + k]);
                assert(t[t.len() - 4 + k] == cs@[start + (t.len() - 4 + k)]);
                assert(t.subrange(t.len() - 4, t.len() as int).map_values(|c: char| ascii_lower(c))[k as int] != ".gif"@[k as int]);
            }
            return false;
        }
        k = k + 1;
    }
    proof {
        let t = tail_ghost@;
        assert forall|j: int| 0 <= j < 4 implies #[trigger] t.subrange(t.len() - 4, t.len() as int)[j] == cs@[n - 4 + j] by {
            assert(t[t.len() - 4 + j] == cs@[start + (t.len() - 4 + j)]);
        }
        assert(t.subrange(t.len() - 4, t.len() as int).map_values(|c: char| ascii_lower(c)) =~= ".gif"@);
    }
    true
}

/// Sort key of an attachment: newest first.
pub open spec fn newest_key(a: ViewerAttachment) -> Seq<int> {
    seq![-(a.create_time_seconds as int)]
}

pub open spec fn newest_keys(items: Seq<ViewerAttachment>) -> Seq<Seq<int>> {
    items.map_values(|a: ViewerAttachment| newest_key(a))
}

pub open spec fn time_of(a: ViewerAttachment) -> int {
    a.create_time_seconds as int
}

proof fn lemma_newer_first(a: ViewerAttachment, b: ViewerAttachment)
    ensures
        (lex(newest_key(a), newest_key(b)) == Ordering::Less) == (time_of(a) > time_of(b)),
{
    lemma_lex_single(-time_of(a), -time_of(b));
}

/// Sorts attachments newest first, stably.
pub fn sort_by_newest(items: Vec<ViewerAttachment>) -> (r: Vec<ViewerAttachment>)
    ensures
        stably_sorted(items@, newest_keys(items@), r@),
{
    let ghost input = items@;
    let ghost keys = newest_keys(input);
    let mut rest = items;
    let n = rest.len();
    let mut out: Vec<ViewerAttachment> = Vec::new();
    let ghost mut perm: Seq<int> = Seq::empty();
    let mut i: usize = 0;
    while i < n
        invariant
            n == input.len(),
            keys == newest_keys(input),
            i <= n,
            rest@ == input.skip(ix(i)),
            perm.len() == i,
            out@.len() == i,
            forall|a: int| 0 <= a < i ==> 0 <= #[trigger] perm[a] < i,
            forall|a: int, b: int| 0 <= a < b < i ==> before(keys, #[trigger] perm[a], #[trigger] perm[b]),
            forall|a: int| 0 <= a < i ==> out@[a] == input[#[trigger] perm[a]],
        decreases n - i,
    {
        let item = rest.remove(0);
        assert(item == input[ix(i)]);
        let mut j: usize = i;
        while j > 0 && item.create_time_seconds > out[j - 1].create_time_seconds
            invariant
                n == input.len(),
                keys == newest_keys(input),
                i < n,
                j <= i,
                item == input[ix(i)],
                perm.len() == i,
                out@.len() == i,
                forall|a: int| 0 <= a < i ==> 0 <= #[trigger] perm[a] < i,
                forall|a: int| 0 <= a < i ==> out@[a] == input[#[trigger] perm[a]],
                forall|b: int| j <= b < i ==> lex(keys[ix(i)], keys[#[trigger] perm[b]]) == Ordering::Less,
            decreases j,
        {
            proof {
                assert(out@[j - 1] == input[perm[j - 1]]);
                lemma_newer_first(item, out@[j - 1]);
            }
            j = j - 1;
        }
        proof {
            if j > 0 {
                assert(out@[j - 1] == input[perm[j - 1]]);
                lemma_newer_first(item, out@[j - 1]);
            }
            lemma_insert_in_order(keys, perm, ix(i), ix(j));
        }
        out.insert(j, item);
        proof {
            perm = perm.insert(ix(j), ix(i));
            assert(input.skip(ix(i)).drop_first() =~= input.skip(ix(i) + 1));
        }
        i = i + 1;
    }
    proof {
        assert(stable_order(keys, perm));
    }
    out
}

pub open spec fn ids_of(s: Seq<ViewerAttachment>) -> Seq<i64> {
    s.map_values(|a: ViewerAttachment| a.id)
}

/// The fetched attachments the list does not hold yet, in fetched order.
pub open spec fn fresh_spec(existing: Seq<ViewerAttachment>, fetched: Seq<ViewerAttachment>) -> Seq<ViewerAttachment> {
    fetched.filter(|a: ViewerAttachment| !ids_of(existing).contains(a.id))
}

/// First position at or after `k` whose attachment has id `id`.
pub open spec fn position_of_id(s: Seq<ViewerAttachment>, id: i64, k: int) -> Option<int>
    decreases s.len() - k,
{
    if k < 0 || k >= s.len() {
        None
    } else if s[k].id == id {
        Some(k)
    } else {
        position_of_id(s, id, k + 1)
    }
}

/// Whether attachment `a` is the one shown at `url`.
pub open spec fn shows_url(a: ViewerAttachment, url: Seq<char>, by_viewer_src: bool) -> bool {
    a.url@ == url || (by_viewer_src && a.viewer_src@ == url)
}

/// First position at or after `k` of the attachment shown at `url`.
pub open spec fn position_of_url(s: Seq<ViewerAttachment>, url: Seq<char>, by_viewer_src: bool, k: int) -> Option<int>
    decreases s.len() - k,
{
    if k < 0 || k >= s.len() {
        None
    } else if shows_url(s[k], url, by_viewer_src) {
        Some(k)
    } else {
        position_of_url(s, url, by_viewer_src, k + 1)
    }
}

pub open spec fn index_or(p: Option<int>, fallback: usize) -> usize {
    match p {
        Some(k) => k as usize,
        None => fallback,
    }
}

proof fn lemma_position_of_id_bounds(s: Seq<ViewerAttachment>, id: i64, k: int)
    requires
        0 <= k,
    ensures
        position_of_id(s, id, k) matches Some(p) ==> k <= p < s.len(),
    decreases s.len() - k,
{
    if k < s.len() && s[k].id != id {
        lemma_position_of_id_bounds(s, id, k + 1);
    }
}

proof fn lemma_position_of_url_bounds(s: Seq<ViewerAttachment>, url: Seq<char>, by_viewer_src: bool, k: int)
    requires
        0 <= k,
    ensures
        position_of_url(s, url, by_viewer_src, k) matches Some(p) ==> k <= p < s.len(),
    decreases s.len() - k,
{
    if k < s.len() && !shows_url(s[k], url, by_viewer_src) {
        lemma_position_of_url_bounds(s, url, by_viewer_src, k + 1);
    }
}

fn find_id(s: &Vec<ViewerAttachment>, id: i64) -> (r: Option<usize>)
    ensures
        match position_of_id(s@, id, 0) {
            Some(p) => r == Some(p as usize),
            None => r is None,
        },
{
    proof { lemma_position_of_id_bounds(s@, id, 0); }
    let mut k: usize = 0;
    while k < s.len()
        invariant
            k <= s@.len(),
            position_of_id(s@, id, 0) == position_of_id(s@, id, k as int),
        decreases s@.len() - k,
    {
        if s[k].id == id {
            return Some(k);
        }
        k = k + 1;
    }
    None
}

fn find_url(s: &Vec<ViewerAttachment>, url: &str, by_viewer_src: bool) -> (r: Option<usize>)
    ensures
        match position_of_url(s@, url@, by_viewer_src, 0) {
            Some(p) => r == Some(p as usize),
            None => r is None,
        },
{
    proof { lemma_position_of_url_bounds(s@, url@, by_viewer_src, 0); }
    let target = chars_of(url);
    let mut k: usize = 0;
    while k < s.len()
        invariant
            k <= s@.len(),
            target@ == url@,
            position_of_url(s@, url@, by_viewer_src, 0) == position_of_url(s@, url@, by_viewer_src, k as int),
        decreases s@.len() - k,
    {
        let a = &s[k];
        if str_eq_chars(a.url.as_str(), &target) || (by_viewer_src && str_eq_chars(a.viewer_src.as_str(), &target)) {
            return Some(k);
        }
        k = k + 1;
    }
    None
}

/// The ids of a list, as a set.
fn collect_ids(s: &Vec<ViewerAttachment>) -> (r: HashSet<i64>)
    ensures
        r@ == ids_of(s@).to_set(),
{
    broadcast use vstd::std_specs::hash::group_hash_axioms;
    let mut out: HashSet<i64> = HashSet::new();
    let mut k: usize = 0;
    while k < s.len()
        invariant
            k <= s@.len(),
            out@ == ids_of(s@.take(k as int)).to_set(),
        decreases s@.len() - k,
    {
        out.insert(s[k].id);
        proof {
            assert(ids_of(s@.take(k + 1)) =~= ids_of(s@.take(k as int)).push(s@[k as int].id));
            ids_of(s@.take(k as int)).lemma_push_to_set_commute(s@[k as int].id);
        }
        k = k + 1;
    }
    assert(s@.take(s@.len() as int) =~= s@);
    out
}

/// The fetched attachments the list does not hold yet.
fn fresh_of(existing: &Vec<ViewerAttachment>, fetched: Vec<ViewerAttachment>) -> (r: Vec<ViewerAttachment>)
    ensures
        r@ == fresh_spec(existing@, fetched@),
{
    broadcast use vstd::std_specs::hash::group_hash_axioms;
    let ids = collect_ids(existing);
    let ghost input = fetched@;
    let ghost pred = |a: ViewerAttachment| !ids_of(existing@).contains(a.id);
    let mut rest = fetched;
    let n = rest.len();
    let mut out: Vec<ViewerAttachment> = Vec::new();
    let mut i: usize = 0;
    while i < n
        invariant
            n == input.len(),
            i <= n,
            ids@ == ids_of(existing@).to_set(),
            pred == (|a: ViewerAttachment| !ids_of(existing@).contains(a.id)),
            rest@ == input.skip(i as int),
            out@ == input.take(i as int).filter(pred),
        decreases n - i,
    {
        let a = rest.remove(0);
        proof {
            assert(a == input[i as int]);
            assert(input.take(i + 1).drop_last() =~= input.take(i as int));
            assert(input.skip(i as int).drop_first() =~= input.skip(i + 1));
            reveal(Seq::filter);
        }
        if !ids.contains(&a.id) {
            out.push(a);
        }
        i = i + 1;
    }
    assert(input.take(n as int) =~= input);
    out
}

/// The image viewer's list: the attachments, which one is shown, whether
/// more can be fetched on either side, and the rotation of the image.
pub struct ViewerPlaylist {
    pub attachments: Vec<ViewerAttachment>,
    pub index: usize,
    pub has_more_before: bool,
    pub has_more_after: bool,
    pub loading: bool,
    pub list_generation: u64,
    pub rotation_deg: i32,
}

/// Where a request opens: at the attachment shown at its URL (first
/// match, else the first), else at its index within the list.
pub open spec fn request_index_spec(list: Seq<ViewerAttachment>, selected_url: Option<Seq<char>>, selected_index: usize) -> usize {
    match selected_url {
        Some(u) => index_or(position_of_url(list, u, true, 0), 0),
        None => if selected_index < list.len() { selected_index } else if list.len() > 0 { (list.len() - 1) as usize } else { 0 },
    }
}

pub open spec fn opt_str(o: Option<&str>) -> Option<Seq<char>> {
    match o {
        Some(s) => Some(s@),
        None => None,
    }
}

/// Whether showing `index` of a list of `n` asks for older attachments:
/// within [`VIEWER_LOAD_MORE_THRESHOLD`] of the end.
pub open spec fn near_end_spec(index: int, n: int) -> bool {
    n <= VIEWER_LOAD_MORE_THRESHOLD || index >= n - VIEWER_LOAD_MORE_THRESHOLD
}

/// The cursor for older attachments when moving to `index`: the oldest
/// one's time, when near the end, nothing is loading and more may exist.
pub open spec fn older_cursor(p: ViewerPlaylist, index: int) -> Option<u32> {
    if near_end_spec(index, p.attachments@.len() as int) && !p.loading && p.has_more_before {
        Some(p.attachments@.last().create_time_seconds)
    } else {
        None
    }
}

/// The cursor for newer attachments when moving to `index`: the newest
/// one's time, when near the start, nothing is loading (the older fetch
/// included) and more may exist.
pub open spec fn newer_cursor(p: ViewerPlaylist, index: int) -> Option<u32> {
    if index <= VIEWER_LOAD_MORE_THRESHOLD && !p.loading && older_cursor(p, index) is None && p.has_more_after {
        Some(p.attachments@[0].create_time_seconds)
    } else {
        None
    }
}

/// `post` is `pre` after moving to `index`: nothing happens for a missing
/// or the shown attachment; else it is shown unrotated and the cursors of
/// the fetches it starts are returned.
pub open spec fn went_to(pre: ViewerPlaylist, post: ViewerPlaylist, index: usize, fetch: Option<(Option<u32>, Option<u32>)>) -> bool {
    if index >= pre.attachments@.len() || index == pre.index {
        fetch is None && post == pre
    } else {
        let older = older_cursor(pre, index as int);
        let newer = newer_cursor(pre, index as int);
        &&& fetch == Some((older, newer))
        &&& post.index == index
        &&& post.rotation_deg == 0
        &&& post.loading == (pre.loading || older is Some || newer is Some)
        &&& post.attachments@ == pre.attachments@
        &&& post.has_more_before == pre.has_more_before
        &&& post.has_more_after == pre.has_more_after
        &&& post.list_generation == pre.list_generation
    }
}

impl ViewerPlaylist {
    pub fn new() -> (r: Self)
        ensures
            r.attachments@.len() == 0,
            r.index == 0,
            r.has_more_before,
            !r.has_more_after,
            !r.loading,
            r.list_generation == 0,
            r.rotation_deg == 0,
    {
        ViewerPlaylist {
            attachments: Vec::new(),
            index: 0,
            has_more_before: true,
            has_more_after: false,
            loading: false,
            list_generation: 0,
            rotation_deg: 0,
        }
    }

    /// Opens a request: a new list generation (so late pages of the
    /// previous list are ignored), the request's attachments, more assumed
    /// before and none after, no rotation. An empty list is loading, and
    /// needs its first page (returns whether).
    pub fn set_request(&mut self, attachments: Vec<ViewerAttachment>, selected_url: Option<&str>, selected_index: usize) -> (needs_fetch: bool)
        ensures
            final(self).list_generation == wrap_inc(old(self).list_generation),
            final(self).attachments@ == attachments@,
            final(self).index == request_index_spec(attachments@, opt_str(selected_url), selected_index),
            final(self).has_more_before,
            !final(self).has_more_after,
            final(self).rotation_deg == 0,
            needs_fetch == (attachments@.len() == 0),
            final(self).loading == needs_fetch,
    {
        self.list_generation = if self.list_generation == u64::MAX { 0 } else { self.list_generation + 1 };
        self.rotation_deg = 0;
        self.attachments = attachments;
        self.has_more_before = true;
        self.has_more_after = false;
        self.index = match selected_url {
            Some(url) => match find_url(&self.attachments, url, true) {
                Some(k) => k,
                None => 0,
            },
            None => {
                let n = self.attachments.len();
                if selected_index < n { selected_index } else if n > 0 { n - 1 } else { 0 }
            },
        };
        let empty = self.attachments.len() == 0;
        self.loading = empty;
        empty
    }

    /// Asks for newer attachments when none is loading and more may exist:
    /// returns the time of the newest one to fetch after.
    pub fn fetch_newer(&mut self) -> (after: Option<u32>)
        ensures
            (old(self).loading || !old(self).has_more_after || old(self).attachments@.len() == 0) ==> after is None
                && final(self).loading == old(self).loading,
            !(old(self).loading || !old(self).has_more_after || old(self).attachments@.len() == 0) ==> after == Some(
                old(self).attachments@[0].create_time_seconds,
            ) && final(self).loading,
            final(self).attachments@ == old(self).attachments@,
            final(self).index == old(self).index,
            final(self).has_more_before == old(self).has_more_before,
            final(self).has_more_after == old(self).has_more_after,
            final(self).list_generation == old(self).list_generation,
            final(self).rotation_deg == old(self).rotation_deg,
    {
        if self.loading || !self.has_more_after || self.attachments.len() == 0 {
            return None;
        }
        let after = self.attachments[0].create_time_seconds;
        self.loading = true;
        Some(after)
    }

    /// Asks for older attachments the same way: returns the time of the
    /// oldest one to fetch before.
    pub fn fetch_older(&mut self) -> (before: Option<u32>)
        ensures
            (old(self).loading || !old(self).has_more_before || old(self).attachments@.len() == 0) ==> before is None
                && final(self).loading == old(self).loading,
            !(old(self).loading || !old(self).has_more_before || old(self).attachments@.len() == 0) ==> before == Some(
                old(self).attachments@.last().create_time_seconds,
            ) && final(self).loading,
            final(self).attachments@ == old(self).attachments@,
            final(self).index == old(self).index,
            final(self).has_more_before == old(self).has_more_before,
            final(self).has_more_after == old(self).has_more_after,
            final(self).list_generation == old(self).list_generation,
            final(self).rotation_deg == old(self).rotation_deg,
    {
        if self.loading || !self.has_more_before || self.attachments.len() == 0 {
            return None;
        }
        let before = self.attachments[self.attachments.len() - 1].create_time_seconds;
        self.loading = true;
        Some(before)
    }

    /// The first page of an empty request arrived (for generation
    /// `generation`; a stale one is ignored). It becomes the list, opened at
    /// `select_url`'s attachment when given; newer attachments are then
    /// asked for. Returns the time to fetch newer attachments after.
    pub fn on_initial_page(&mut self, generation: u64, page: Option<Vec<ViewerAttachment>>, select_url: Option<&str>) -> (after: Option<u32>)
        ensures
            generation != old(self).list_generation ==> after is None && *final(self) == *old(self),
            generation == old(self).list_generation && page is None ==> after is None
                && *final(self) == (ViewerPlaylist { loading: false, ..*old(self) }),
            generation == old(self).list_generation && page is Some ==> {
                let list = page.unwrap()@;
                &&& final(self).attachments@ == list
                &&& final(self).list_generation == old(self).list_generation
                &&& final(self).rotation_deg == old(self).rotation_deg
                &&& final(self).has_more_before == (list.len() >= VIEWER_FETCH_LIMIT)
                &&& final(self).has_more_after
                &&& final(self).index == (match select_url {
                    Some(u) => index_or(position_of_url(list, u@, false, 0), 0),
                    None => old(self).index,
                })
                &&& (list.len() > 0 ==> after == Some(list[0].create_time_seconds) && final(self).loading)
                &&& (list.len() == 0 ==> after is None && !final(self).loading)
            },
    {
        if generation != self.list_generation {
            return None;
        }
        self.loading = false;
        match page {
            Some(list) => {
                self.attachments = list;
                self.has_more_before = self.attachments.len() >= VIEWER_FETCH_LIMIT;
                if let Some(url) = select_url {
                    self.index = match find_url(&self.attachments, url, false) {
                        Some(k) => k,
                        None => 0,
                    };
                }
                self.has_more_after = true;
                self.fetch_newer()
            },
            None => None,
        }
    }

    /// A page of newer attachments arrived (a stale one is ignored). The
    /// new ones join the list, newest first; the shown attachment stays
    /// shown. More newer ones may exist when a full page was new.
    pub fn on_newer_page(&mut self, generation: u64, page: Option<Vec<ViewerAttachment>>)
        ensures
            generation != old(self).list_generation ==> final(self).attachments@ == old(self).attachments@
                && final(self).loading == old(self).loading && final(self).index == old(self).index
                && final(self).has_more_after == old(self).has_more_after,
            generation == old(self).list_generation ==> !final(self).loading,
            generation == old(self).list_generation && page is None ==> final(self).attachments@ == old(self).attachments@
                && final(self).index == old(self).index && final(self).has_more_after == old(self).has_more_after,
            generation == old(self).list_generation && page is Some ==> {
                let fresh = fresh_spec(old(self).attachments@, page.unwrap()@);
                let merged = fresh + old(self).attachments@;
                &&& final(self).has_more_after == (fresh.len() >= VIEWER_FETCH_LIMIT)
                &&& fresh.len() == 0 ==> final(self).attachments@ == old(self).attachments@ && final(self).index == old(self).index
                &&& fresh.len() > 0 ==> {
                    &&& stably_sorted(merged, newest_keys(merged), final(self).attachments@)
                    &&& final(self).index == (if old(self).index < old(self).attachments@.len() {
                        index_or(position_of_id(final(self).attachments@, old(self).attachments@[old(self).index as int].id, 0), old(self).index)
                    } else {
                        old(self).index
                    })
                }
            },
            final(self).has_more_before == old(self).has_more_before,
            final(self).list_generation == old(self).list_generation,
            final(self).rotation_deg == old(self).rotation_deg,
    {
        if generation != self.list_generation {
            return;
        }
        self.loading = false;
        let mapped = match page {
            Some(m) => m,
            None => return,
        };
        let fresh = fresh_of(&self.attachments, mapped);
        let added = fresh.len();
        if added > 0 {
            let selected_id = if self.index < self.attachments.len() { Some(self.attachments[self.index].id) } else { None };
            let mut merged = fresh;
            let mut existing: Vec<ViewerAttachment> = Vec::new();
            std::mem::swap(&mut existing, &mut self.attachments);
            merged.append(&mut existing);
            let sorted = sort_by_newest(merged);
            self.index = match selected_id {
                Some(id) => match find_id(&sorted, id) {
                    Some(k) => k,
                    None => self.index,
                },
                None => self.index,
            };
            self.attachments = sorted;
        }
        self.has_more_after = added >= VIEWER_FETCH_LIMIT;
    }

    /// A page of older attachments arrived (a stale one is ignored): the
    /// new ones are appended; more older ones may exist when any was new.
    pub fn on_older_page(&mut self, generation: u64, page: Option<Vec<ViewerAttachment>>)
        ensures
            generation != old(self).list_generation ==> final(self).attachments@ == old(self).attachments@
                && final(self).loading == old(self).loading && final(self).has_more_before == old(self).has_more_before,
            generation == old(self).list_generation ==> !final(self).loading,
            generation == old(self).list_generation && page is None ==> final(self).attachments@ == old(self).attachments@
                && final(self).has_more_before == old(self).has_more_before,
            generation == old(self).list_generation && page is Some ==> {
                let fresh = fresh_spec(old(self).attachments@, page.unwrap()@);
                &&& final(self).attachments@ == old(self).attachments@ + fresh
                &&& final(self).has_more_before == (fresh.len() > 0)
            },
            final(self).index == old(self).index,
            final(self).has_more_after == old(self).has_more_after,
            final(self).list_generation == old(self).list_generation,
            final(self).rotation_deg == old(self).rotation_deg,
    {
        if generation != self.list_generation {
            return;
        }
        self.loading = false;
        let mapped = match page {
            Some(m) => m,
            None => return,
        };
        let mut fresh = fresh_of(&self.attachments, mapped);
        let added = fresh.len();
        self.attachments.append(&mut fresh);
        self.has_more_before = added > 0;
    }

    /// Shows attachment `index` (an existing one other than the shown
    /// one), without rotation; near the end older attachments, near the
    /// start newer ones are asked for. Returns the fetch cursors, none when
    /// nothing moved.
    pub fn go_to(&mut self, index: usize) -> (fetch: Option<(Option<u32>, Option<u32>)>)
        ensures
            went_to(*old(self), *final(self), index, fetch),
    {
        let n = self.attachments.len();
        if index >= n || index == self.index {
            return None;
        }
        self.index = index;
        self.rotation_deg = 0;
        let near_end = n <= VIEWER_LOAD_MORE_THRESHOLD || index >= n - VIEWER_LOAD_MORE_THRESHOLD;
        let older = if near_end { self.fetch_older() } else { None };
        let newer = if index <= VIEWER_LOAD_MORE_THRESHOLD { self.fetch_newer() } else { None };
        Some((older, newer))
    }

    /// Shows the next attachment, if any.
    pub fn next(&mut self) -> (fetch: Option<(Option<u32>, Option<u32>)>)
        ensures
            old(self).index + 1 < old(self).attachments@.len() ==> went_to(*old(self), *final(self), (old(self).index + 1) as usize, fetch),
            old(self).index + 1 >= old(self).attachments@.len() ==> fetch is None && *final(self) == *old(self),
    {
        if self.index < self.attachments.len() && self.index + 1 < self.attachments.len() {
            self.go_to(self.index + 1)
        } else {
            None
        }
    }

    /// Shows the previous attachment, if any.
    pub fn prev(&mut self) -> (fetch: Option<(Option<u32>, Option<u32>)>)
        ensures
            0 < old(self).index <= old(self).attachments@.len() ==> went_to(*old(self), *final(self), (old(self).index - 1) as usize, fetch),
            !(0 < old(self).index <= old(self).attachments@.len()) ==> fetch is None && *final(self) == *old(self),
    {
        if self.index > 0 && self.index <= self.attachments.len() {
            self.go_to(self.index - 1)
        } else {
            None
        }
    }

    /// Turns the image a quarter to the left.
    pub fn rotate_left(&mut self)
        requires
            0 <= old(self).rotation_deg < 360,
        ensures
            final(self).rotation_deg == (old(self).rotation_deg - 90) % 360,
            0 <= final(self).rotation_deg < 360,
            final(self).attachments@ == old(self).attachments@,
            final(self).index == old(self).index,
    {
        self.rotation_deg = if self.rotation_deg >= 90 { self.rotation_deg - 90 } else { self.rotation_deg + 270 };
    }

    /// Turns the image a quarter to the right.
    pub fn rotate_right(&mut self)
        requires
            0 <= old(self).rotation_deg < 360,
        ensures
            final(self).rotation_deg == (old(self).rotation_deg + 90) % 360,
            0 <= final(self).rotation_deg < 360,
            final(self).attachments@ == old(self).attachments@,
            final(self).index == old(self).index,
    {
        self.rotation_deg = if self.rotation_deg < 270 { self.rotation_deg + 90 } else { self.rotation_deg - 270 };
    }
}

/// A quarter turn left undoes a quarter turn right and back, and four
/// quarter turns return to the start.
pub proof fn lemma_rotation_turns(deg: int)
    requires
        0 <= deg < 360,
    ensures
        ((deg + 90) % 360 - 90) % 360 == deg,
        ((deg - 90) % 360 + 90) % 360 == deg,
        ((((deg + 90) % 360 + 90) % 360 + 90) % 360 + 90) % 360 == deg,
{
}


/// What the viewer does with a key press.
#[derive(Clone, Copy, Debug, PartialEq, Eq, Structural)]
pub enum ViewerKey {
    CloseMenu,
    CloseWindow,
    Prev,
    Next,
    ZoomIn,
    ZoomOut,
    ResetZoom,
    Ignore,
}

/// Escape closes an open context menu, else the window; the arrows step
/// through the list; `+`/`=` and `-`/`_` zoom, `0` resets the zoom.
pub open spec fn viewer_key_spec(key: Seq<char>, context_menu_open: bool) -> ViewerKey {
    if key == "escape"@ {
        if context_menu_open { ViewerKey::CloseMenu } else { ViewerKey::CloseWindow }
    } else if key == "left"@ || key == "up"@ {
        ViewerKey::Prev
    } else if key == "right"@ || key == "down"@ {
        ViewerKey::Next
    } else if key == "+"@ || key == "="@ {
        ViewerKey::ZoomIn
    } else if key == "-"@ || key == "_"@ {
        ViewerKey::ZoomOut
    } else if key == "0"@ {
        ViewerKey::ResetZoom
    } else {
        ViewerKey::Ignore
    }
}

/// The arrow keys page through the list whatever else is open: left and up
/// go to the previous attachment, right and down to the next. Escape closes
/// an open context menu before the window; `+`/`=` zoom in, `-`/`_` out,
/// `0` resets.
pub proof fn lemma_arrow_keys_step(context_menu_open: bool)
    ensures
        viewer_key_spec("left"@, context_menu_open) == ViewerKey::Prev,
        viewer_key_spec("up"@, context_menu_open) == ViewerKey::Prev,
        viewer_key_spec("right"@, context_menu_open) == ViewerKey::Next,
        viewer_key_spec("down"@, context_menu_open) == ViewerKey::Next,
        viewer_key_spec("escape"@, context_menu_open) == (if context_menu_open { ViewerKey::CloseMenu } else { ViewerKey::CloseWindow }),
        viewer_key_spec("+"@, context_menu_open) == ViewerKey::ZoomIn,
        viewer_key_spec("="@, context_menu_open) == ViewerKey::ZoomIn,
        viewer_key_spec("-"@, context_menu_open) == ViewerKey::ZoomOut,
        viewer_key_spec("_"@, context_menu_open) == ViewerKey::ZoomOut,
        viewer_key_spec("0"@, context_menu_open) == ViewerKey::ResetZoom,
{
    reveal_strlit("escape");
    reveal_strlit("left");
    reveal_strlit("up");
    reveal_strlit("right");
    reveal_strlit("down");
    reveal_strlit("+");
    reveal_strlit("=");
    reveal_strlit("-");
    reveal_strlit("_");
    reveal_strlit("0");
    assert("escape"@.len() == 6 && "left"@.len() == 4 && "up"@.len() == 2 && "right"@.len() == 5 && "down"@.len() == 4);
    assert("+"@.len() == 1 && "="@.len() == 1 && "-"@.len() == 1 && "_"@.len() == 1 && "0"@.len() == 1);
    assert("left"@[0] != "down"@[0]);
    assert("+"@[0] != "-"@[0] && "+"@[0] != "_"@[0] && "+"@[0] != "0"@[0] && "="@[0] != "-"@[0]);
    assert("="@[0] != "_"@[0] && "="@[0] != "0"@[0] && "-"@[0] != "0"@[0] && "_"@[0] != "0"@[0] && "+"@[0] != "="@[0] && "-"@[0] != "_"@[0]);
}

pub fn viewer_key_action(key: &str, context_menu_open: bool) -> (r: ViewerKey)
    ensures
        r == viewer_key_spec(key@, context_menu_open),
        key@ == "left"@ || key@ == "up"@ ==> r == ViewerKey::Prev,
        key@ == "right"@ || key@ == "down"@ ==> r == ViewerKey::Next,
        key@ == "escape"@ ==> r == (if context_menu_open { ViewerKey::CloseMenu } else { ViewerKey::CloseWindow }),
        key@ == "+"@ || key@ == "="@ ==> r == ViewerKey::ZoomIn,
        key@ == "-"@ || key@ == "_"@ ==> r == ViewerKey::ZoomOut,
        key@ == "0"@ ==> r == ViewerKey::ResetZoom,
{
    proof {
        lemma_arrow_keys_step(context_menu_open);
    }
    if str_eq_chars(key, &chars_of("escape")) {
        if context_menu_open { ViewerKey::CloseMenu } else { ViewerKey::CloseWindow }
    } else if str_eq_chars(key, &chars_of("left")) || str_eq_chars(key, &chars_of("up")) {
        ViewerKey::Prev
    } else if str_eq_chars(key, &chars_of("right")) || str_eq_chars(key, &chars_of("down")) {
        ViewerKey::Next
    } else if str_eq_chars(key, &chars_of("+")) || str_eq_chars(key, &chars_of("=")) {
        ViewerKey::ZoomIn
    } else if str_eq_chars(key, &chars_of("-")) || str_eq_chars(key, &chars_of("_")) {
        ViewerKey::ZoomOut
    } else if str_eq_chars(key, &chars_of("0")) {
        ViewerKey::ResetZoom
    } else {
        ViewerKey::Ignore
    }
}

/// What a turn of the image needs: dropping the rotated copy, or fetching
/// one turned by `degrees`.
#[derive(Debug, PartialEq, Eq)]
pub enum RotationFetch {
    Clear,
    Fetch { src: String, degrees: i32 },
}

impl ViewerPlaylist {
    /// After a turn: unturned, the rotated copy is dropped; a shown
    /// attachment that is no image cannot turn (the turn is undone and the
    /// copy dropped); else the turned copy of its viewer source is fetched.
    pub fn rotation_fetch(&mut self) -> (r: RotationFetch)
        ensures
            old(self).rotation_deg == 0 ==> r == RotationFetch::Clear && *final(self) == *old(self),
            old(self).rotation_deg != 0 && old(self).index < old(self).attachments@.len()
                && old(self).attachments@[old(self).index as int].is_image ==> *final(self) == *old(self) && match r {
                RotationFetch::Fetch { src, degrees } => src@ == old(self).attachments@[old(self).index as int].viewer_src@
                    && degrees == old(self).rotation_deg,
                RotationFetch::Clear => false,
            },
            old(self).rotation_deg != 0 && !(old(self).index < old(self).attachments@.len()
                && old(self).attachments@[old(self).index as int].is_image) ==> r == RotationFetch::Clear
                && *final(self) == (ViewerPlaylist { rotation_deg: 0, ..*old(self) }),
    {
        if self.rotation_deg == 0 {
            return RotationFetch::Clear;
        }
        if self.index < self.attachments.len() && self.attachments[self.index].is_image {
            let src = self.attachments[self.index].viewer_src.clone();
            RotationFetch::Fetch { src, degrees: self.rotation_deg }
        } else {
            self.rotation_deg = 0;
            RotationFetch::Clear
        }
    }
}


/// The uploader shown beside an attachment: its name, avatar and original
/// avatar address.
pub struct UploaderDisplay {
    pub name: String,
    pub avatar: String,
    pub avatar_raw: String,
}

/// An uploader without a name shows as "Anonymous", without an avatar.
pub fn uploader_display(name: String, avatar: String, avatar_raw: String) -> (r: UploaderDisplay)
    ensures
        name@.len() == 0 ==> r.name@ == "Anonymous"@ && r.avatar@.len() == 0 && r.avatar_raw@.len() == 0,
        name@.len() > 0 ==> r.name@ == name@ && r.avatar@ == avatar@ && r.avatar_raw@ == avatar_raw@,
{
    if name.as_str().is_empty() {
        UploaderDisplay { name: "Anonymous".to_string(), avatar: String::new(), avatar_raw: String::new() }
    } else {
        UploaderDisplay { name, avatar, avatar_raw }
    }
}

/// Where the viewer's channel label comes from.
#[derive(Clone, Copy, Debug, PartialEq, Eq, Structural)]
pub enum ChannelLabelSource {
    /// The label handed over with the request.
    Hint,
    /// The clan channel's name.
    ChannelName,
    /// The direct conversation's label (no clan).
    DirectLabel,
}

pub fn channel_label_source(hint: &str, clan_id: ClanId) -> (r: ChannelLabelSource)
    ensures
        hint@.len() > 0 ==> r == ChannelLabelSource::Hint,
        hint@.len() == 0 && clan_id.0 != 0 ==> r == ChannelLabelSource::ChannelName,
        hint@.len() == 0 && clan_id.0 == 0 ==> r == ChannelLabelSource::DirectLabel,
{
    if !hint.is_empty() {
        ChannelLabelSource::Hint
    } else if clan_id.0 != 0 {
        ChannelLabelSource::ChannelName
    } else {
        ChannelLabelSource::DirectLabel
    }
}

} // verus!
