use core::cmp::Ordering;
use vstd::prelude::*;

use super::items::{normalize_search_spec, normalize_search_string, PaletteItem, PaletteItemKind};
use crate::chars::{utf8_len_fits, codes, chars_of, lemma_codes_len, lemma_codes_step, find_byte, find_byte_spec, opt_nat, str_eq_chars, utf8_len};
use crate::seqs::{as_ints, at, ix, lemma_as_ints_index, lemma_as_ints_insert};
use crate::order::{before, lemma_before_irreflexive, lemma_insert_in_order, lemma_before_trans, lemma_lex_concat, lemma_lex_flip, lemma_lex_single, lemma_lex_equal, lex, stable_order, stably_sorted};

verus! {

/// Exact matches sort first.
pub open spec fn exact_flag(b: bool) -> int {
    if b { 0 } else { 1 }
}

/// Sort key of an optional match offset: any match before none, earlier
/// matches first.
pub open spec fn rank_key(o: Option<nat>) -> Seq<int> {
    match o {
        Some(k) => seq![0, k as int],
        None => seq![1, 0],
    }
}

/// Search key of an item: exact label match first, then (with `use_name`)
/// exact name match, then where the query occurs in the label, then (with
/// `use_name`) where it occurs in the name.
pub open spec fn match_key(item: PaletteItem, search: Seq<char>, use_name: bool) -> Seq<int> {
    let p = item.filter_prioritize@;
    let n = item.filter_name@;
    if use_name {
        seq![exact_flag(p == search)] + (seq![exact_flag(n == search)] + (rank_key(find_byte_spec(p, search))
            + rank_key(find_byte_spec(n, search))))
    } else {
        seq![exact_flag(p == search)] + rank_key(find_byte_spec(p, search))
    }
}

/// Recency key: most recent message first, then the label in code-point order.
pub open spec fn recency_key(item: PaletteItem) -> Seq<int> {
    seq![-(item.last_sent_timestamp as int)] + codes(item.label@)
}

/// The search keys of an item fit in the address space.
pub open spec fn item_fits(item: PaletteItem) -> bool {
    utf8_len(item.filter_prioritize@) <= usize::MAX && utf8_len(item.filter_name@) <= usize::MAX
}

/// How a query orders the rows.
#[derive(Clone, Copy, Debug, PartialEq, Eq, Structural)]
pub enum SortMode {
    /// Empty or `@` query: most recent first.
    Recency,
    /// `#` query: by where the query occurs in the channel name.
    Channel,
    /// Other queries: by where the query occurs in label and name.
    General,
}

pub open spec fn starts_with(q: Seq<char>, c: char) -> bool {
    q.len() > 0 && q[0] == c
}

pub open spec fn mode_spec(q: Seq<char>) -> SortMode {
    if q.len() == 0 || starts_with(q, '@') {
        SortMode::Recency
    } else if starts_with(q, '#') {
        SortMode::Channel
    } else {
        SortMode::General
    }
}

/// The normalized search text of a raw query (its prefix sigil dropped).
pub open spec fn search_spec(q: Seq<char>) -> Seq<char> {
    if starts_with(q, '@') || starts_with(q, '#') {
        normalize_search_spec(q.drop_first())
    } else {
        normalize_search_spec(q)
    }
}

pub open spec fn sort_key(item: PaletteItem, mode: SortMode, search: Seq<char>) -> Seq<int> {
    match mode {
        SortMode::Recency => recency_key(item),
        SortMode::Channel => match_key(item, search, false),
        SortMode::General => match_key(item, search, true),
    }
}

/// Key of row `a`.
pub open spec fn row_key(items: Seq<PaletteItem>, a: usize, mode: SortMode, search: Seq<char>) -> Seq<int> {
    sort_key(items[a as int], mode, search)
}

/// Whether row `a` exists and its search keys fit in the address space.
pub open spec fn row_ok(items: Seq<PaletteItem>, a: usize) -> bool {
    a < items.len() && item_fits(items[a as int])
}

/// Keys of the rows `idx` point at.
pub open spec fn keys_of_rows(items: Seq<PaletteItem>, idx: Seq<usize>, mode: SortMode, search: Seq<char>) -> Seq<Seq<int>> {
    idx.map_values(|i: usize| sort_key(items[i as int], mode, search))
}

/// Whether an item is a candidate for a raw query.
pub open spec fn candidate_spec(item: PaletteItem, q: Seq<char>) -> bool {
    if q.len() == 0 {
        true
    } else if starts_with(q, '@') {
        item.kind == PaletteItemKind::Member && item.matches_spec(search_spec(q))
    } else if starts_with(q, '#') {
        item.matches_spec(search_spec(q)) && item.kind == PaletteItemKind::Channel
    } else {
        item.matches_spec(search_spec(q))
    }
}

/// Indices of the candidates, in item order.
pub open spec fn candidates_spec(items: Seq<PaletteItem>, q: Seq<char>) -> Seq<usize> {
    Seq::new(items.len(), |i: int| i as usize).filter(|i: usize| candidate_spec(items[i as int], q))
}

/// Order of two optional match offsets: any match before none, earlier
/// matches first.
pub fn cmp_index(left: Option<usize>, right: Option<usize>) -> (r: Ordering)
    ensures
        r == lex(rank_key(opt_nat(left)), rank_key(opt_nat(right))),
{
    let r = match (left, right) {
        (None, None) => Ordering::Equal,
        (None, Some(_)) => Ordering::Greater,
        (Some(_), None) => Ordering::Less,
        (Some(left_at), Some(right_at)) => if left_at < right_at {
            Ordering::Less
        } else if left_at > right_at {
            Ordering::Greater
        } else {
            Ordering::Equal
        },
    };
    proof { reveal_with_fuel(lex, 3); }
    r
}

/// Search order of two items for a normalized query: exact label matches
/// first, then (with `use_name`) exact name matches, then by where the query
/// occurs in the label, then (with `use_name`) in the name.
pub fn compare_items(left: &PaletteItem, right: &PaletteItem, search: &str, use_name: bool) -> (r: Ordering)
    ensures
        r == lex(match_key(*left, search@, use_name), match_key(*right, search@, use_name)),
{
    check_item_fits(left);
    check_item_fits(right);
    let needle = chars_of(search);
    let left_exact = str_eq_chars(left.filter_prioritize.as_str(), &needle);
    let right_exact = str_eq_chars(right.filter_prioritize.as_str(), &needle);
    let ghost lp = rank_key(find_byte_spec(left.filter_prioritize@, search@));
    let ghost rp = rank_key(find_byte_spec(right.filter_prioritize@, search@));
    let ghost ln = rank_key(find_byte_spec(left.filter_name@, search@));
    let ghost rn = rank_key(find_byte_spec(right.filter_name@, search@));
    let ghost le = seq![exact_flag(left_exact)];
    let ghost re = seq![exact_flag(right_exact)];
    proof {
        lemma_lex_single(exact_flag(left_exact), exact_flag(right_exact));
        if use_name {
            lemma_lex_concat(le, seq![exact_flag(left.filter_name@ == search@)] + (lp + ln), re,
                seq![exact_flag(right.filter_name@ == search@)] + (rp + rn));
        } else {
            lemma_lex_concat(le, lp, re, rp);
        }
    }
    if left_exact != right_exact {
        return if left_exact { Ordering::Less } else { Ordering::Greater };
    }
    let left_index = find_byte(left.filter_prioritize.as_str(), &needle);
    let right_index = find_byte(right.filter_prioritize.as_str(), &needle);
    if use_name {
        let left_name_exact = str_eq_chars(left.filter_name.as_str(), &needle);
        let right_name_exact = str_eq_chars(right.filter_name.as_str(), &needle);
        proof {
            lemma_lex_single(exact_flag(left_name_exact), exact_flag(right_name_exact));
            lemma_lex_concat(seq![exact_flag(left_name_exact)], lp + ln, seq![exact_flag(right_name_exact)], rp + rn);
        }
        if left_name_exact != right_name_exact {
            return if left_name_exact { Ordering::Less } else { Ordering::Greater };
        }
        let left_name_index = find_byte(left.filter_name.as_str(), &needle);
        let right_name_index = find_byte(right.filter_name.as_str(), &needle);
        let names = cmp_index(left_name_index, right_name_index);
        let places = cmp_index(left_index, right_index);
        proof {
            lemma_lex_concat(lp, ln, rp, rn);
            assert(lp == rank_key(opt_nat(left_index)));
            assert(rp == rank_key(opt_nat(right_index)));
            assert(ln == rank_key(opt_nat(left_name_index)));
            assert(rn == rank_key(opt_nat(right_name_index)));
            assert(lex(lp + ln, rp + rn) == (if places != Ordering::Equal { places } else { names }));
            assert(match_key(*left, search@, use_name) == le + (seq![exact_flag(left_name_exact)] + (lp + ln)));
            assert(match_key(*right, search@, use_name) == re + (seq![exact_flag(right_name_exact)] + (rp + rn)));
            assert(lex(le, re) == Ordering::Equal);
            lemma_lex_concat(le, seq![exact_flag(left_name_exact)] + (lp + ln), re, seq![exact_flag(right_name_exact)] + (rp + rn));
            assert(lex(seq![exact_flag(left_name_exact)], seq![exact_flag(right_name_exact)]) == Ordering::Equal);
            let x = seq![exact_flag(left_name_exact)] + (lp + ln);
            let y = seq![exact_flag(right_name_exact)] + (rp + rn);
            assert(lex(le + x, re + y) == lex(x, y));
            assert(lex(x, y) == lex(lp + ln, rp + rn));
        }
        // A match anywhere beats none, an earlier one a later one; ties
        // fall through to the name.
        return match places {
            Ordering::Equal => names,
            _ => places,
        };
    }
    cmp_index(left_index, right_index)
}

/// Code-point order of two strings (`str::cmp`).
pub fn compare_text(a: &str, b: &str) -> (r: Ordering)
    ensures
        r == lex(codes(a@), codes(b@)),
{
    let x = chars_of(a);
    let y = chars_of(b);
    let ghost cx = codes(a@);
    let ghost cy = codes(b@);
    let ghost mut k: int = 0;
    let mut i: usize = 0;
    assert(cx.skip(0) =~= cx && cy.skip(0) =~= cy);
    while i < x.len() && i < y.len()
        invariant
            x@ == a@,
            y@ == b@,
            cx == codes(a@),
            cy == codes(b@),
            k == i,
            i <= x@.len(),
            i <= y@.len(),
            lex(cx, cy) == lex(cx.skip(k), cy.skip(k)),
        decreases x@.len() - i,
    {
        proof {
            lemma_codes_step(a@, b@, k);
        }
        if x[i] < y[i] {
            return Ordering::Less;
        }
        if x[i] > y[i] {
            return Ordering::Greater;
        }
        i = i + 1;
        proof { k = k + 1; }
    }
    proof {
        reveal_with_fuel(lex, 2);
        lemma_codes_len(a@, b@, k);
    }
    if x.len() == i && y.len() == i {
        Ordering::Equal
    } else if x.len() == i {
        Ordering::Less
    } else {
        Ordering::Greater
    }
}

/// The search keys of an item fit in the address space.
pub fn check_item_fits(item: &PaletteItem)
    ensures
        item_fits(*item),
{
    utf8_len_fits(item.filter_prioritize.as_str());
    utf8_len_fits(item.filter_name.as_str());
}

/// The search keys of every item fit in the address space.
fn check_items_fit(items: &Vec<PaletteItem>)
    ensures
        forall|k: int| 0 <= k < items@.len() ==> item_fits(#[trigger] items@[k]),
{
    let mut i: usize = 0;
    while i < items.len()
        invariant
            i <= items@.len(),
            forall|k: int| 0 <= k < i ==> item_fits(#[trigger] items@[k]),
        decreases items@.len() - i,
    {
        check_item_fits(&items[i]);
        i = i + 1;
    }
}

/// Order of two rows under a sort mode.
fn order_of(items: &Vec<PaletteItem>, mode: SortMode, search: &str, a: usize, b: usize) -> (r: Ordering)
    requires
        row_ok(items@, a),
        row_ok(items@, b),
    ensures
        r == lex(row_key(items@, a, mode, search@), row_key(items@, b, mode, search@)),
{
    match mode {
        SortMode::Recency => cmp_items(&items[a], &items[b]),
        SortMode::Channel => compare_items(&items[a], &items[b], search, false),
        SortMode::General => compare_items(&items[a], &items[b], search, true),
    }
}

proof fn lemma_recency_key_order(l: PaletteItem, r: PaletteItem)
    ensures
        lex(recency_key(l), recency_key(r)) == (if l.last_sent_timestamp > r.last_sent_timestamp {
            Ordering::Less
        } else if l.last_sent_timestamp < r.last_sent_timestamp {
            Ordering::Greater
        } else {
            lex(codes(l.label@), codes(r.label@))
        }),
{
    let tl = recency_key(l).take(1);
    let tr = recency_key(r).take(1);
    assert(recency_key(l) =~= tl + codes(l.label@));
    assert(recency_key(r) =~= tr + codes(r.label@));
    lemma_lex_concat(tl, codes(l.label@), tr, codes(r.label@));
    assert(tl =~= seq![recency_key(l)[0]]);
    assert(tr =~= seq![recency_key(r)[0]]);
    lemma_lex_single(recency_key(l)[0], recency_key(r)[0]);
}

/// Recency order of two items: most recent message first, then the label
/// in code-point order.
pub fn cmp_items(a: &PaletteItem, b: &PaletteItem) -> (r: Ordering)
    ensures
        r == lex(recency_key(*a), recency_key(*b)),
{
    let labels = compare_text(a.label.as_str(), b.label.as_str());
    proof {
        lemma_recency_key_order(*a, *b);
    }
    if a.last_sent_timestamp > b.last_sent_timestamp {
        Ordering::Less
    } else if a.last_sent_timestamp < b.last_sent_timestamp {
        Ordering::Greater
    } else {
        labels
    }
}

/// Recency keys of items.
pub open spec fn recency_keys(items: Seq<PaletteItem>) -> Seq<Seq<int>> {
    items.map_values(|it: PaletteItem| recency_key(it))
}

/// Sorts items by [`cmp_items`], stably.
pub fn sort_items_by_recency(items: Vec<PaletteItem>) -> (r: Vec<PaletteItem>)
    ensures
        stably_sorted(items@, recency_keys(items@), r@),
{
    let ghost input = items@;
    let ghost keys = recency_keys(input);
    let mut rest = items;
    let n = rest.len();
    let mut out: Vec<PaletteItem> = Vec::new();
    let ghost mut perm: Seq<int> = Seq::empty();
    let mut i: usize = 0;
    while i < n
        invariant
            n == input.len(),
            keys == recency_keys(input),
            i <= n,
            rest@ == input.skip(ix(i)),
            perm.len() == i,
            out@.len() == i,
            forall|a: int| 0 <= a < i ==> 0 <= #[trigger] perm[a] < i,
            forall|a: int, b: int| 0 <= a < b < i ==> before(keys, #[trigger] perm[a], #[trigger] perm[b]),
            forall|a: int| 0 <= a < i ==> out@[a] == input[#[trigger] perm[a]],
        decreases n - i,
    {
        let item = rest.remove(0);
        assert(item == input[ix(i)]);
        let mut j: usize = i;
        while j > 0 && is_less(cmp_items(&item, &out[j - 1]))
            invariant
                n == input.len(),
                keys == recency_keys(input),
                i < n,
                j <= i,
                item == input[ix(i)],
                perm.len() == i,
                out@.len() == i,
                forall|a: int| 0 <= a < i ==> 0 <= #[trigger] perm[a] < i,
                forall|a: int| 0 <= a < i ==> out@[a] == input[#[trigger] perm[a]],
                forall|b: int| j <= b < i ==> lex(keys[ix(i)], keys[#[trigger] perm[b]]) == Ordering::Less,
            decreases j,
        {
            proof {
                assert(out@[j - 1] == input[perm[j - 1]]);
                assert(keys[ix(i)] == recency_key(item));
                assert(keys[perm[j - 1]] == recency_key(out@[j - 1]));
            }
            j = j - 1;
        }
        proof {
            if j > 0 {
                assert(out@[j - 1] == input[perm[j - 1]]);
                assert(keys[perm[j - 1]] == recency_key(out@[j - 1]));
            }
            lemma_insert_in_order(keys, perm, ix(i), ix(j));
        }
        out.insert(j, item);
        proof {
            perm = perm.insert(ix(j), ix(i));
            assert(input.skip(ix(i)).drop_first() =~= input.skip(ix(i) + 1));
        }
        i = i + 1;
    }
    proof {
        assert(stable_order(keys, perm));
    }
    out
}

/// The sort mode and normalized search text of a raw query.
fn query_parts(raw_query: &str) -> (r: (SortMode, String))
    ensures
        r.0 == mode_spec(raw_query@),
        r.1@ == search_spec(raw_query@),
{
    let q = chars_of(raw_query);
    let at_sign = q.len() > 0 && q[0] == '@';
    let hash = q.len() > 0 && q[0] == '#';
    let mode = if q.len() == 0 || at_sign {
        SortMode::Recency
    } else if hash {
        SortMode::Channel
    } else {
        SortMode::General
    };
    let search = if at_sign || hash {
        let rest = raw_query.substring_char(1, q.len());
        assert(rest@ =~= raw_query@.drop_first());
        normalize_search_string(rest)
    } else {
        normalize_search_string(raw_query)
    };
    (mode, search)
}

fn is_less(o: Ordering) -> (r: bool)
    ensures
        r == (o == Ordering::Less),
{
    match o {
        Ordering::Less => true,
        _ => false,
    }
}

/// Sort row indices for a raw query, stably: empty and `@` queries by
/// recency, `#` queries by channel-name match, others by label and name
/// match.
pub fn sort_indices(items: &Vec<PaletteItem>, indices: &mut Vec<usize>, raw_query: &str)
    requires
        forall|k: int| 0 <= k < old(indices)@.len() ==> #[trigger] old(indices)@[k] < items@.len(),
    ensures
        stably_sorted(
            old(indices)@,
            keys_of_rows(items@, old(indices)@, mode_spec(raw_query@), search_spec(raw_query@)),
            final(indices)@,
        ),
{
    let (mode, search) = query_parts(raw_query);
    let ghost keys = keys_of_rows(items@, indices@, mode, search@);
    check_items_fit(items);
    assert(forall|k: int| 0 <= k < indices@.len() ==> row_ok(items@, #[trigger] indices@[k]));
    let n = indices.len();
    let mut perm: Vec<usize> = Vec::new();
    let mut i: usize = 0;
    while i < n
        invariant
            n == indices@.len(),
            indices@ == old(indices)@,
            keys == keys_of_rows(items@, indices@, mode, search@),
            forall|k: int| 0 <= k < indices@.len() ==> row_ok(items@, #[trigger] indices@[k]),
            i <= n,
            perm@.len() == i,
            forall|a: int| 0 <= a < i ==> 0 <= #[trigger] as_ints(perm@)[a] < ix(i),
            forall|a: int, b: int| 0 <= a < b < i ==> before(keys, #[trigger] as_ints(perm@)[a], #[trigger] as_ints(perm@)[b]),
        decreases n - i,
    {
        let mut j: usize = i;
        proof { lemma_as_ints_index(perm@); }
        while j > 0 && is_less(order_of(items, mode, search.as_str(), indices[i], indices[perm[j - 1]]))
            invariant
                n == indices@.len(),
                keys == keys_of_rows(items@, indices@, mode, search@),
                forall|k: int| 0 <= k < indices@.len() ==> row_ok(items@, #[trigger] indices@[k]),
                i < n,
                j <= i,
                perm@.len() == i,
                forall|a: int| 0 <= a < i ==> 0 <= #[trigger] as_ints(perm@)[a] < ix(i),
                forall|b: int| ix(j) <= b < ix(i) ==> lex(keys[ix(i)], keys[#[trigger] as_ints(perm@)[b]]) == Ordering::Less,
                forall|a: int| 0 <= a < perm@.len() ==> #[trigger] perm@[a] < i,
            decreases j,
        {
            j = j - 1;
        }
        proof { lemma_as_ints_index(perm@); }
        proof {
            lemma_insert_in_order(keys, as_ints(perm@), ix(i), ix(j));
            lemma_as_ints_insert(perm@, j, i);
        }
        perm.insert(j, i);
        i = i + 1;
    }
    proof { lemma_as_ints_index(perm@); }
    let mut out: Vec<usize> = Vec::new();
    let mut a: usize = 0;
    while a < n
        invariant
            n == indices@.len(),
            indices@ == old(indices)@,
            perm@.len() == n,
            forall|c: int| 0 <= c < n ==> 0 <= #[trigger] as_ints(perm@)[c] < ix(n),
            a <= n,
            out@.len() == a,
            forall|c: int| 0 <= c < a ==> out@[c] == indices@[#[trigger] as_ints(perm@)[c]],
            forall|c: int| 0 <= c < perm@.len() ==> #[trigger] perm@[c] < n,
        decreases n - a,
    {
        out.push(indices[perm[a]]);
        a = a + 1;
    }
    proof {
        assert(stable_order(keys, as_ints(perm@)));
    }
    *indices = out;
}

/// Whether `items[index]` is a candidate for the query (exec side of
/// [`candidate_spec`]), given the normalized search text.
fn is_candidate(item: &PaletteItem, at_sign: bool, hash: bool, empty: bool, search: &str) -> (r: bool)
    ensures
        r == (if empty {
            true
        } else if at_sign {
            item.kind == PaletteItemKind::Member && item.matches_spec(search@)
        } else if hash {
            item.matches_spec(search@) && item.kind == PaletteItemKind::Channel
        } else {
            item.matches_spec(search@)
        }),
{
    if empty {
        true
    } else if at_sign {
        item.kind == PaletteItemKind::Member && item.matches_search(search)
    } else if hash {
        item.matches_search(search) && item.kind == PaletteItemKind::Channel
    } else {
        item.matches_search(search)
    }
}

/// Rows matching a raw query, best first: an empty query keeps every row
/// (most recent first); `@` keeps members matching the rest; `#` keeps
/// channels matching the rest (ordered by where the name matches); any other
/// query keeps rows whose label, name, display name or search blob contains
/// it, exact and earlier matches first. Equal rows keep their order.
/// What a query keeps: rows that exist, each once; a `#` query keeps only
/// channels and an `@` query only members; any other non-empty query keeps
/// only rows matching its search text.
pub open spec fn kept_rows_fit_query(items: Seq<PaletteItem>, q: Seq<char>, r: Seq<usize>) -> bool {
    &&& forall|k: int| 0 <= k < r.len() ==> #[trigger] r[k] < items.len()
    &&& forall|k: int, j: int| 0 <= k < j < r.len() ==> #[trigger] r[k] != #[trigger] r[j]
    &&& q.len() > 0 && q[0] == '#' ==> forall|k: int| 0 <= k < r.len() ==> items[#[trigger] r[k] as int].kind == PaletteItemKind::Channel
    &&& q.len() > 0 && q[0] == '@' ==> forall|k: int| 0 <= k < r.len() ==> items[#[trigger] r[k] as int].kind == PaletteItemKind::Member
    &&& q.len() > 0 ==> forall|k: int| 0 <= k < r.len() ==> items[#[trigger] r[k] as int].matches_spec(search_spec(q))
}

/// Any stable sort of a query's candidates keeps only rows that fit the
/// query ([`kept_rows_fit_query`]).
pub proof fn lemma_sorted_candidates_fit_query(items: Seq<PaletteItem>, q: Seq<char>, r: Seq<usize>)
    requires
        items.len() <= usize::MAX,
        stably_sorted(
            candidates_spec(items, q),
            keys_of_rows(items, candidates_spec(items, q), mode_spec(q), search_spec(q)),
            r,
        ),
    ensures
        kept_rows_fit_query(items, q, r),
{
    let c = candidates_spec(items, q);
    let rows = Seq::new(items.len(), |i: int| i as usize);
    let pred = |i: usize| candidate_spec(items[i as int], q);
    assert(c == rows.filter(pred));
    rows.filter_lemma(pred);
    let keys = keys_of_rows(items, c, mode_spec(q), search_spec(q));
    let perm = choose|perm: Seq<int>| {
        &&& stable_order(keys, perm)
        &&& r.len() == perm.len()
        &&& forall|a: int| 0 <= a < r.len() ==> r[a] == c[#[trigger] perm[a]]
    };
    assert forall|k: int| 0 <= k < r.len() implies #[trigger] r[k] < items.len() && candidate_spec(items[r[k] as int], q) by {
        let j = perm[k];
        assert(r[k] == c[j]);
        assert(pred(c[j]));
        assert(c.contains(c[j]));
        rows.lemma_filter_contains_rev(pred, c[j]);
        let m = choose|m: int| 0 <= m < rows.len() && rows[m] == c[j];
        assert(rows[m] == m as usize);
    }
    c_is_increasing(items, q);
    assert forall|k: int, j: int| 0 <= k < j < r.len() implies #[trigger] r[k] != #[trigger] r[j] by {
        assert(before(keys, perm[k], perm[j]));
        lemma_before_irreflexive(keys, perm[k]);
        assert(perm[k] != perm[j]);
        assert(r[k] == c[perm[k]] && r[j] == c[perm[j]]);
    }
}

/// The candidates are increasing row indices.
proof fn c_is_increasing(items: Seq<PaletteItem>, q: Seq<char>)
    requires
        items.len() <= usize::MAX,
    ensures
        forall|a: int, b: int| 0 <= a < b < candidates_spec(items, q).len()
            ==> candidates_spec(items, q)[a] < candidates_spec(items, q)[b],
{
    let pred = |i: usize| candidate_spec(items[i as int], q);
    lemma_filter_increasing(Seq::new(items.len(), |i: int| i as usize), pred);
}

/// Filtering an increasing sequence keeps it increasing.
proof fn lemma_filter_increasing(s: Seq<usize>, pred: spec_fn(usize) -> bool)
    requires
        forall|a: int, b: int| 0 <= a < b < s.len() ==> s[a] < s[b],
    ensures
        forall|a: int, b: int| 0 <= a < b < s.filter(pred).len() ==> s.filter(pred)[a] < s.filter(pred)[b],
        forall|a: int| 0 <= a < s.filter(pred).len() ==> s.filter(pred).contains(#[trigger] s.filter(pred)[a]),
    decreases s.len(),
{
    reveal(Seq::filter);
    if s.len() > 0 {
        let t = s.drop_last();
        lemma_filter_increasing(t, pred);
        let ft = t.filter(pred);
        t.filter_lemma(pred);
        assert forall|a: int| 0 <= a < ft.len() implies ft[a] < s.last() by {
            assert(ft.contains(ft[a]));
            t.lemma_filter_contains_rev(pred, ft[a]);
            let m = choose|m: int| 0 <= m < t.len() && t[m] == ft[a];
            assert(s[m] < s[s.len() - 1]);
        }
    }
}

pub fn filter_and_sort_indices(items: &Vec<PaletteItem>, raw_query: &str) -> (r: Vec<usize>)
    ensures
        stably_sorted(
            candidates_spec(items@, raw_query@),
            keys_of_rows(items@, candidates_spec(items@, raw_query@), mode_spec(raw_query@), search_spec(raw_query@)),
            r@,
        ),
        kept_rows_fit_query(items@, raw_query@, r@),
{
    let q = chars_of(raw_query);
    let empty = q.len() == 0;
    let at_sign = q.len() > 0 && q[0] == '@';
    let hash = q.len() > 0 && q[0] == '#';
    let (_, search) = query_parts(raw_query);
    let n = items.len();
    let ghost pred = |i: usize| candidate_spec(items@[i as int], raw_query@);
    let ghost rows = Seq::new(n as nat, |i: int| i as usize);
    let mut indices: Vec<usize> = Vec::new();
    let mut i: usize = 0;
    while i < n
        invariant
            n == items@.len(),
            q@ == raw_query@,
            empty == (q@.len() == 0),
            at_sign == starts_with(q@, '@'),
            hash == starts_with(q@, '#'),
            search@ == search_spec(raw_query@),
            pred == (|i: usize| candidate_spec(items@[i as int], raw_query@)),
            rows == Seq::new(n as nat, |i: int| i as usize),
            i <= n,
            indices@ == rows.take(i as int).filter(pred),
            forall|k: int| 0 <= k < indices@.len() ==> indices@[k] < i,
        decreases n - i,
    {
        proof {
            assert(rows.take(i + 1).drop_last() =~= rows.take(i as int));
            assert(rows.take(i + 1).last() == i);
        }
        if is_candidate(&items[i], at_sign, hash, empty, search.as_str()) {
            assert(rows.take(i + 1).filter(pred) =~= rows.take(i as int).filter(pred).push(i)) by {
                reveal(Seq::filter);
            }
            indices.push(i);
        } else {
            assert(rows.take(i + 1).filter(pred) =~= rows.take(i as int).filter(pred)) by {
                reveal(Seq::filter);
            }
        }
        i = i + 1;
    }
    assert(rows.take(n as int) =~= rows);
    assert(indices@ == candidates_spec(items@, raw_query@));
    sort_indices(items, &mut indices, raw_query);
    proof {
        lemma_sorted_candidates_fit_query(items@, raw_query@, indices@);
    }
    indices
}

} // verus!
