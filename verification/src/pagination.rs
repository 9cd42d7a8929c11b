use vstd::prelude::*;

use crate::chars::{push_str_chars, string_from_chars};
use crate::formatting::{decimal_spec, push_decimal};

verus! {

/// A button of the pagination bar.
#[derive(Clone, Copy, Debug, PartialEq, Eq, Structural)]
pub enum PaginationButton {
    Previous,
    Next,
    Page(usize),
}

/// Slots the page-number strip draws once there are more pages than fit.
pub const PAGINATION_MAX_SLOTS: usize = 7;

/// Number of slots the strip fills for `pages` pages.
pub open spec fn slot_count_spec(pages: nat) -> nat {
    if pages < 7 { pages } else { 7 }
}

/// One-based page that the strip is centred on (MUI's `page`).
pub open spec fn centre_page(current: nat, pages: nat) -> int {
    (if current < pages - 1 { current as int } else { pages - 1 }) + 1
}

/// First page (one-based) of the sibling window.
pub open spec fn siblings_start(current: nat, pages: nat) -> int {
    let p = centre_page(current, pages);
    let a = if p - 1 < pages - 4 { p - 1 } else { pages - 4 };
    if a > 3 { a } else { 3 }
}

/// Last page (one-based) of the sibling window.
pub open spec fn siblings_end(current: nat, pages: nat) -> int {
    let p = centre_page(current, pages);
    let b = if p + 1 > 5 { p + 1 } else { 5 };
    if b < pages - 2 { b } else { pages - 2 }
}

/// The strip of zero-based page indices, `None` standing for an ellipsis:
/// every page while they fit, else MUI's rule with one boundary page and one
/// sibling on each side.
pub open spec fn pagination_spec(current: nat, pages: nat) -> Seq<Option<int>> {
    if pages <= 7 {
        Seq::new(pages, |i: int| Some(i))
    } else {
        let ss = siblings_start(current, pages);
        let se = siblings_end(current, pages);
        seq![Some(0int), if ss > 3 { None } else { Some(1int) }]
            + Seq::new((se - ss + 1) as nat, |k: int| Some(ss + k - 1))
            + seq![if se < pages - 2 { None } else { Some(pages - 2) }, Some(pages - 1)]
    }
}

/// The exec strip seen as a sequence of mathematical page indices.
pub open spec fn strip_view(items: Seq<Option<usize>>) -> Seq<Option<int>> {
    items.map_values(|o: Option<usize>| match o {
        Some(p) => Some(p as int),
        None => None,
    })
}

/// How many slots [`pagination_items`] fills for `pages` pages; it depends on
/// the page count alone, never on the current page.
pub fn pagination_slot_count(pages: usize) -> (r: usize)
    ensures
        r == slot_count_spec(pages as nat),
{
    if pages < PAGINATION_MAX_SLOTS { pages } else { PAGINATION_MAX_SLOTS }
}

/// Page indices (0-based) to draw, `None` for an ellipsis.
pub fn pagination_items(current: usize, pages: usize) -> (r: Vec<Option<usize>>)
    ensures
        strip_view(r@) == pagination_spec(current as nat, pages as nat),
{
    let mut items: Vec<Option<usize>> = Vec::new();
    if pages <= PAGINATION_MAX_SLOTS {
        let mut i: usize = 0;
        while i < pages
            invariant
                i <= pages,
                items@.len() == i,
                forall|k: int| 0 <= k < i ==> items@[k] == Some(k as usize),
            decreases pages - i,
        {
            items.push(Some(i));
            i = i + 1;
        }
        assert(strip_view(items@) =~= pagination_spec(current as nat, pages as nat));
        return items;
    }
    let page: usize = (if current < pages - 1 { current } else { pages - 1 }) + 1;
    let a: usize = if page - 1 < pages - 4 { page - 1 } else { pages - 4 };
    let ss: usize = if a > 3 { a } else { 3 };
    let se: usize = if page >= pages - 3 {
        pages - 2
    } else {
        let b: usize = if page + 1 > 5 { page + 1 } else { 5 };
        if b < pages - 2 { b } else { pages - 2 }
    };
    assert(ss == siblings_start(current as nat, pages as nat));
    assert(se == siblings_end(current as nat, pages as nat));
    items.push(Some(0));
    items.push(if ss > 3 { None } else { Some(1) });
    let mut p: usize = ss;
    while p <= se
        invariant
            ss <= p <= se + 1,
            3 <= ss <= se < pages,
            items@.len() == 2 + (p - ss),
            items@[0] == Some(0usize),
            items@[1] == (if ss > 3 { None } else { Some(1usize) }),
            forall|k: int| 2 <= k < items@.len() ==> items@[k] == Some((ss + k - 3) as usize),
        decreases se + 1 - p,
    {
        items.push(Some(p - 1));
        p = p + 1;
    }
    items.push(if se < pages - 2 { None } else { Some(pages - 2) });
    items.push(Some(pages - 1));
    assert(strip_view(items@) =~= pagination_spec(current as nat, pages as nat));
    items
}

/// The strip always has exactly as many entries as its slot count, whatever
/// the current page: paging only relabels slots.
pub proof fn lemma_slot_count_independent_of_current(current: nat, pages: nat)
    ensures
        pagination_spec(current, pages).len() == slot_count_spec(pages),
{
}

/// The current page (clamped to the last page) is always drawn.
pub proof fn lemma_current_page_on_strip(current: nat, pages: nat)
    requires
        current < pages,
    ensures
        pagination_spec(current, pages).contains(Some(current as int)),
{
    let s = pagination_spec(current, pages);
    if pages <= 7 {
        assert(s[current as int] == Some(current as int));
    } else {
        let ss = siblings_start(current, pages);
        assert(s[2 + (current + 1 - ss)] == Some(current as int));
    }
}

/// An ellipsis never stands in for a single page: the pages drawn on either
/// side of it are more than two apart.
pub proof fn lemma_ellipsis_hides_more_than_one_page(current: nat, pages: nat, i: int)
    requires
        0 <= i < pagination_spec(current, pages).len(),
        pagination_spec(current, pages)[i] is None,
    ensures
        0 < i < pagination_spec(current, pages).len() - 1,
        pagination_spec(current, pages)[i - 1] is Some,
        pagination_spec(current, pages)[i + 1] is Some,
        pagination_spec(current, pages)[i + 1]->0 - pagination_spec(current, pages)[i - 1]->0 > 2,
{
}

/// Drawn pages are strictly increasing, the strip starts with the first page
/// and ends with the last one, and every drawn index is a real page.
pub proof fn lemma_strip_is_ordered(current: nat, pages: nat, i: int, j: int)
    requires
        0 <= i < j < pagination_spec(current, pages).len(),
    ensures
        pagination_spec(current, pages)[0] == Some(0int),
        pagination_spec(current, pages).last() == Some(pages - 1),
        pagination_spec(current, pages)[i] is Some ==> 0 <= pagination_spec(current, pages)[i]->0 < pages,
        pagination_spec(current, pages)[i] is Some && pagination_spec(current, pages)[j] is Some
            ==> pagination_spec(current, pages)[i]->0 < pagination_spec(current, pages)[j]->0,
{
}

/// Element id of a pagination button: the prefix, `-pagination-`, then
/// `previous`, `next` or `page-` and the page number.
pub open spec fn button_id_spec(prefix: Seq<char>, button: PaginationButton) -> Seq<char> {
    prefix + "-pagination-"@ + match button {
        PaginationButton::Previous => "previous"@,
        PaginationButton::Next => "next"@,
        PaginationButton::Page(page) => "page-"@ + decimal_spec(page as nat),
    }
}

pub fn pagination_button_id(id_prefix: &str, button: PaginationButton) -> (r: String)
    ensures
        r@ == button_id_spec(id_prefix@, button),
{
    let mut out: Vec<char> = Vec::new();
    push_str_chars(&mut out, id_prefix);
    push_str_chars(&mut out, "-pagination-");
    match button {
        PaginationButton::Previous => push_str_chars(&mut out, "previous"),
        PaginationButton::Next => push_str_chars(&mut out, "next"),
        PaginationButton::Page(page) => {
            push_str_chars(&mut out, "page-");
            push_decimal(&mut out, page as u128);
        },
    }
    assert(out@ =~= button_id_spec(id_prefix@, button));
    string_from_chars(&out)
}

} // verus!
