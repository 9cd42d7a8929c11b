//! Bookkeeping of one bounded LRU image cache: which entries are resident,
//! their decoded sizes, and which of them each operation evicts. The images
//! themselves live beside this ledger, keyed by the same resource hashes.

use indexmap::IndexMap;
use vstd::prelude::*;

use super::{
    entry_is_stale, stale_spec, ImageCacheStats, LoaderKind, GRACE_PERIOD_NANOS,
    NEGATIVE_CACHE_RETRY_TTL_NANOS,
};

verus! {

#[verifier::external_type_specification]
#[verifier::external_body]
#[verifier::reject_recursive_types(K)]
#[verifier::reject_recursive_types(V)]
#[verifier::reject_recursive_types(S)]
pub struct ExIndexMap<K, V, S>(IndexMap<K, V, S>);

/// What the ledger records of one resident entry.
#[derive(Clone, Copy, Debug, PartialEq, Eq, Structural)]
pub struct EntryMeta {
    /// Decoded size once the image finished loading (`Some(0)` for an image
    /// refused as too large).
    pub bytes: Option<u64>,
    /// The sweep epoch in which the entry was last requested.
    pub touched_epoch: u64,
    /// When the entry was last requested (nanoseconds on a monotonic clock).
    pub last_used: u64,
    /// When a transient load failure was first observed.
    pub failed_at: Option<u64>,
}

/// The entries of an `IndexMap` from resource hash to entry, in map order.
pub uninterp spec fn index_map_entries(m: IndexMap<u64, EntryMeta>) -> Seq<(u64, EntryMeta)>;

/// No two entries share a key.
pub open spec fn keys_unique(s: Seq<(u64, EntryMeta)>) -> bool {
    forall|i: int, j: int| 0 <= i < s.len() && 0 <= j < s.len() && i != j ==> s[i].0 != s[j].0
}

/// The sequence after `Vec::swap_remove`-style removal of position `i`.
pub open spec fn swap_removed(s: Seq<(u64, EntryMeta)>, i: int) -> Seq<(u64, EntryMeta)> {
    if i == s.len() - 1 { s.drop_last() } else { s.update(i, s.last()).drop_last() }
}

/// `IndexMap::with_capacity`: an empty map.
#[verifier::external_body]
fn map_with_capacity(n: usize) -> (r: IndexMap<u64, EntryMeta>)
    ensures
        index_map_entries(r) == Seq::<(u64, EntryMeta)>::empty(),
{
    IndexMap::with_capacity(n)
}

/// `IndexMap::len`.
#[verifier::external_body]
fn map_len(m: &IndexMap<u64, EntryMeta>) -> (r: usize)
    ensures
        r == index_map_entries(*m).len(),
{
    m.len()
}

/// `IndexMap::get_index_of`: the position of `key`, if present.
#[verifier::external_body]
fn map_index_of(m: &IndexMap<u64, EntryMeta>, key: u64) -> (r: Option<usize>)
    ensures
        match r {
            Some(i) => i < index_map_entries(*m).len() && index_map_entries(*m)[i as int].0 == key,
            None => forall|i: int| 0 <= i < index_map_entries(*m).len() ==> index_map_entries(*m)[i].0 != key,
        },
{
    m.get_index_of(&key)
}

/// `IndexMap::get_index`: the entry at position `i`, if any.
#[verifier::external_body]
fn map_get_index(m: &IndexMap<u64, EntryMeta>, i: usize) -> (r: Option<(u64, EntryMeta)>)
    ensures
        r == (if i < index_map_entries(*m).len() { Some(index_map_entries(*m)[i as int]) } else { None }),
{
    m.get_index(i).map(|(k, v)| (*k, *v))
}

/// `IndexMap::insert`: an existing key keeps its place and takes the new
/// value; a new key is appended.
#[verifier::external_body]
fn map_insert(m: &mut IndexMap<u64, EntryMeta>, key: u64, value: EntryMeta) -> (r: Option<EntryMeta>)
    ensures
        ({
            let old_s = index_map_entries(*old(m));
            let new_s = index_map_entries(*final(m));
            if exists|i: int| 0 <= i < old_s.len() && old_s[i].0 == key {
                let i = choose|i: int| 0 <= i < old_s.len() && old_s[i].0 == key;
                new_s == old_s.update(i, (key, value)) && r == Some(old_s[i].1)
            } else {
                new_s == old_s.push((key, value)) && r is None
            }
        }),
        keys_unique(index_map_entries(*final(m))),
{
    m.insert(key, value)
}

/// `IndexMap::swap_remove_index`: removes position `i`, moving the last
/// entry into its place.
#[verifier::external_body]
fn map_swap_remove_index(m: &mut IndexMap<u64, EntryMeta>, i: usize) -> (r: Option<(u64, EntryMeta)>)
    ensures
        ({
            let old_s = index_map_entries(*old(m));
            let new_s = index_map_entries(*final(m));
            if i < old_s.len() {
                r == Some(old_s[i as int]) && new_s == swap_removed(old_s, i as int)
            } else {
                r is None && new_s == old_s
            }
        }),
        keys_unique(index_map_entries(*final(m))),
{
    m.swap_remove_index(i)
}

/// `IndexMap::swap_remove`: removes the entry of `key`, moving the last
/// entry into its place.
#[verifier::external_body]
fn map_swap_remove(m: &mut IndexMap<u64, EntryMeta>, key: u64) -> (r: Option<EntryMeta>)
    ensures
        ({
            let old_s = index_map_entries(*old(m));
            let new_s = index_map_entries(*final(m));
            if exists|i: int| 0 <= i < old_s.len() && old_s[i].0 == key {
                let i = choose|i: int| 0 <= i < old_s.len() && old_s[i].0 == key;
                r == Some(old_s[i].1) && new_s == swap_removed(old_s, i)
            } else {
                r is None && new_s == old_s
            }
        }),
        keys_unique(index_map_entries(*final(m))),
{
    m.swap_remove(&key)
}

/// `std::mem::take` on the map: hands back the whole map, leaving it empty.
#[verifier::external_body]
fn map_take(m: &mut IndexMap<u64, EntryMeta>) -> (r: IndexMap<u64, EntryMeta>)
    ensures
        index_map_entries(r) == index_map_entries(*old(m)),
        index_map_entries(*final(m)) == Seq::<(u64, EntryMeta)>::empty(),
{
    std::mem::take(m)
}

/// `IndexMap::retain`, keeping the entries that `entry_expired` does not
/// flag; the kept entries keep their order.
#[verifier::external_body]
fn map_retain_unexpired(m: &mut IndexMap<u64, EntryMeta>, epoch: u64, now: u64, window: u64)
    ensures
        index_map_entries(*final(m)) == index_map_entries(*old(m)).filter(
            |p: (u64, EntryMeta)| !expired_spec(p.1, epoch, now, window),
        ),
        keys_unique(index_map_entries(*final(m))),
{
    m.retain(|_, e| !entry_expired(e, epoch, now, window))
}

/// Nanoseconds since `then`, saturating at zero.
pub open spec fn elapsed_spec(now: u64, then: u64) -> u64 {
    if now >= then { (now - then) as u64 } else { 0 }
}

/// Whether an entry has gone unrequested past `window` outside the current epoch.
pub open spec fn expired_spec(e: EntryMeta, epoch: u64, now: u64, window: u64) -> bool {
    stale_spec(e.touched_epoch, epoch, elapsed_spec(now, e.last_used), window)
}

fn entry_expired(e: &EntryMeta, epoch: u64, now: u64, window: u64) -> (r: bool)
    ensures
        r == expired_spec(*e, epoch, now, window),
{
    let age = if now >= e.last_used { now - e.last_used } else { 0 };
    entry_is_stale(e.touched_epoch, epoch, age, window)
}

/// Decoded bytes an entry accounts for.
pub open spec fn entry_bytes(p: (u64, EntryMeta)) -> nat {
    match p.1.bytes {
        Some(b) => b as nat,
        None => 0,
    }
}

/// Decoded bytes of all entries.
pub open spec fn sum_bytes(s: Seq<(u64, EntryMeta)>) -> nat
    decreases s.len(),
{
    if s.len() == 0 { 0 } else { sum_bytes(s.drop_last()) + entry_bytes(s.last()) }
}

pub proof fn lemma_sum_bytes_push(s: Seq<(u64, EntryMeta)>, x: (u64, EntryMeta))
    ensures
        sum_bytes(s.push(x)) == sum_bytes(s) + entry_bytes(x),
{
    assert(s.push(x).drop_last() =~= s);
}

pub proof fn lemma_sum_bytes_update(s: Seq<(u64, EntryMeta)>, i: int, x: (u64, EntryMeta))
    requires
        0 <= i < s.len(),
    ensures
        sum_bytes(s.update(i, x)) == sum_bytes(s) - entry_bytes(s[i]) + entry_bytes(x),
        entry_bytes(s[i]) <= sum_bytes(s),
    decreases s.len(),
{
    if i == s.len() - 1 {
        assert(s.update(i, x).drop_last() =~= s.drop_last());
    } else {
        lemma_sum_bytes_update(s.drop_last(), i, x);
        assert(s.update(i, x).drop_last() =~= s.drop_last().update(i, x));
    }
}

pub proof fn lemma_sum_bytes_swap_removed(s: Seq<(u64, EntryMeta)>, i: int)
    requires
        0 <= i < s.len(),
    ensures
        sum_bytes(swap_removed(s, i)) == sum_bytes(s) - entry_bytes(s[i]),
        entry_bytes(s[i]) <= sum_bytes(s),
{
    lemma_sum_bytes_update(s, i, s[i]);
    if i < s.len() - 1 {
        let t = s.update(i, s.last());
        lemma_sum_bytes_update(s, i, s.last());
        assert(t.last() == s.last());
    }
}

pub proof fn lemma_sum_bytes_take_le(s: Seq<(u64, EntryMeta)>, i: int)
    requires
        0 <= i <= s.len(),
    ensures
        sum_bytes(s.take(i)) <= sum_bytes(s),
    decreases s.len() - i,
{
    if i < s.len() {
        assert(s.take(i + 1).drop_last() =~= s.take(i));
        assert(sum_bytes(s.take(i + 1)) == sum_bytes(s.take(i)) + entry_bytes(s.take(i + 1).last()));
        lemma_sum_bytes_take_le(s, i + 1);
    } else {
        assert(s.take(i) =~= s);
    }
}

pub proof fn lemma_sum_bytes_filter(
    s: Seq<(u64, EntryMeta)>,
    keep: spec_fn((u64, EntryMeta)) -> bool,
    drop: spec_fn((u64, EntryMeta)) -> bool,
)
    requires
        forall|p: (u64, EntryMeta)| #[trigger] drop(p) == !keep(p),
    ensures
        sum_bytes(s) == sum_bytes(s.filter(keep)) + sum_bytes(s.filter(drop)),
    decreases s.len(),
{
    reveal(Seq::filter);
    if s.len() > 0 {
        lemma_sum_bytes_filter(s.drop_last(), keep, drop);
        lemma_sum_bytes_push(s.drop_last().filter(keep), s.last());
        lemma_sum_bytes_push(s.drop_last().filter(drop), s.last());
    }
}

/// `x + 1`, wrapping at `u64::MAX` like the atomic counters it models.
pub open spec fn wrap_inc(x: u64) -> u64 {
    if x == u64::MAX { 0 } else { (x + 1) as u64 }
}

fn bump(x: u64) -> (r: u64)
    ensures
        r == wrap_inc(x),
{
    if x == u64::MAX { 0 } else { x + 1 }
}

/// `x + n`, wrapping, for counters bumped once per evicted entry.
pub open spec fn wrap_add(x: u64, n: nat) -> u64
    decreases n,
{
    if n == 0 { x } else { wrap_inc(wrap_add(x, (n - 1) as nat)) }
}

pub proof fn lemma_wrap_add_value(x: u64, n: nat)
    ensures
        wrap_add(x, n) as int == (x + n) % 0x1_0000_0000_0000_0000,
    decreases n,
{
    if n > 0 {
        lemma_wrap_add_value(x, (n - 1) as nat);
    }
}

fn add_wrapping(x: u64, n: usize) -> (r: u64)
    ensures
        r == wrap_add(x, n as nat),
{
    proof { lemma_wrap_add_value(x, n as nat); }
    let t: u128 = x as u128 + n as u128;
    if t >= 0x1_0000_0000_0000_0000u128 {
        (t - 0x1_0000_0000_0000_0000u128) as u64
    } else {
        t as u64
    }
}

/// Removing position `i` by swapping keeps every other entry and drops the
/// removed one, when keys are unique.
pub proof fn lemma_swap_removed_contents(s: Seq<(u64, EntryMeta)>, i: int)
    requires
        0 <= i < s.len(),
        keys_unique(s),
    ensures
        swap_removed(s, i).len() == s.len() - 1,
        keys_unique(swap_removed(s, i)),
        forall|x: (u64, EntryMeta)| swap_removed(s, i).contains(x) <==> (s.contains(x) && x != s[i]),
        forall|j: int| 0 <= j < swap_removed(s, i).len() ==> swap_removed(s, i)[j].0 != s[i].0,
{
    let t = swap_removed(s, i);
    let last = s.len() - 1;
    // Each position of `t` comes from a position of `s` other than `i`.
    assert forall|j: int| 0 <= j < t.len() implies t[j] == s[if j == i { last } else { j }] && (if j == i { last } else { j }) != i by {
    }
    assert forall|j: int, k: int| 0 <= j < t.len() && 0 <= k < t.len() && j != k implies t[j].0 != t[k].0 by {
        let sj = if j == i { last } else { j };
        let sk = if k == i { last } else { k };
        assert(sj != sk);
    }
    assert forall|x: (u64, EntryMeta)| t.contains(x) <==> (s.contains(x) && x != s[i]) by {
        if t.contains(x) {
            let j = choose|j: int| 0 <= j < t.len() && t[j] == x;
            let sj = if j == i { last } else { j };
            assert(s[sj] == x);
            assert(s[sj].0 != s[i].0);
        }
        if s.contains(x) && x != s[i] {
            let k = choose|k: int| 0 <= k < s.len() && s[k] == x;
            if k == last {
                assert(t[i] == x);
            } else {
                assert(t[k] == x);
            }
        }
    }
}

/// Whether `len` entries totalling `total` decoded bytes break a budget of
/// `items_cap` entries and `bytes_cap` bytes; the byte budget is not enforced
/// down to fewer than `min_len + 1` entries.
pub open spec fn over_budget(len: nat, total: nat, items_cap: nat, bytes_cap: nat, min_len: nat) -> bool {
    len > items_cap || (total > bytes_cap && len > min_len)
}

/// Position `i` is where a least-recently-used eviction takes from `s`: its
/// last use is the least, and no earlier position shares it.
pub open spec fn is_lru_pos(s: Seq<(u64, EntryMeta)>, i: int) -> bool {
    &&& 0 <= i < s.len()
    &&& forall|j: int| 0 <= j < s.len() ==> s[i].1.last_used <= s[j].1.last_used
    &&& forall|j: int| 0 <= j < i ==> s[j].1.last_used > s[i].1.last_used
}

/// The position a least-recently-used eviction takes from `s`: the first
/// one among those least recently used.
pub open spec fn lru_pos(s: Seq<(u64, EntryMeta)>) -> int {
    choose|i: int| is_lru_pos(s, i)
}

/// Only one position is the eviction's.
pub proof fn lemma_lru_pos_unique(s: Seq<(u64, EntryMeta)>, i: int)
    requires
        is_lru_pos(s, i),
    ensures
        lru_pos(s) == i,
{
    let c = lru_pos(s);
    assert(is_lru_pos(s, c));
    if c < i {
        assert(s[c].1.last_used > s[i].1.last_used);
    } else if i < c {
        assert(s[i].1.last_used > s[c].1.last_used);
    }
}

/// Eviction run: while over the budget, the entry at [`lru_pos`] is
/// swap-removed (the last entry takes its place). Gives what remains and
/// the evicted entries in eviction order.
pub open spec fn evict_run(
    s: Seq<(u64, EntryMeta)>,
    items_cap: nat,
    bytes_cap: nat,
    min_len: nat,
) -> (Seq<(u64, EntryMeta)>, Seq<(u64, EntryMeta)>)
    decreases s.len(),
{
    let i = lru_pos(s);
    if !over_budget(s.len(), sum_bytes(s), items_cap, bytes_cap, min_len) || !(0 <= i < s.len()) {
        (s, Seq::empty())
    } else {
        let rest = evict_run(swap_removed(s, i), items_cap, bytes_cap, min_len);
        (rest.0, seq![s[i]] + rest.1)
    }
}

/// `after` is what remains of `before` once the entries `ev` were evicted,
/// least recently used first (the first in map order on ties, each
/// swap-removed), just until the budget held again.
pub open spec fn lru_evicted(
    before: Seq<(u64, EntryMeta)>,
    after: Seq<(u64, EntryMeta)>,
    ev: Seq<(u64, EntryMeta)>,
    items_cap: nat,
    bytes_cap: nat,
    min_len: nat,
) -> bool {
    &&& (after, ev) == evict_run(before, items_cap, bytes_cap, min_len)
    &&& after.len() + ev.len() == before.len()
    &&& forall|x: (u64, EntryMeta)| after.contains(x) ==> before.contains(x)
    &&& forall|x: (u64, EntryMeta)| ev.contains(x) ==> before.contains(x)
    &&& forall|x: (u64, EntryMeta)| before.contains(x) ==> after.contains(x) || ev.contains(x)
    &&& forall|k: int, j: int| 0 <= k < ev.len() && 0 <= j < after.len() ==> ev[k].1.last_used <= after[j].1.last_used
    &&& !over_budget(after.len(), sum_bytes(after), items_cap, bytes_cap, min_len)
    &&& ev.len() > 0 ==> over_budget(after.len() + 1, sum_bytes(after) + entry_bytes(ev.last()), items_cap, bytes_cap, min_len)
}

/// The invariant of an eviction loop: `lru_evicted` without the claim that
/// the budget already holds.
pub open spec fn lru_evicted_progress(
    before: Seq<(u64, EntryMeta)>,
    after: Seq<(u64, EntryMeta)>,
    ev: Seq<(u64, EntryMeta)>,
    items_cap: nat,
    bytes_cap: nat,
    min_len: nat,
) -> bool {
    &&& after.len() + ev.len() == before.len()
    &&& forall|x: (u64, EntryMeta)| after.contains(x) ==> before.contains(x)
    &&& forall|x: (u64, EntryMeta)| ev.contains(x) ==> before.contains(x)
    &&& forall|x: (u64, EntryMeta)| before.contains(x) ==> after.contains(x) || ev.contains(x)
    &&& forall|k: int, j: int| 0 <= k < ev.len() && 0 <= j < after.len() ==> ev[k].1.last_used <= after[j].1.last_used
    &&& ev.len() > 0 ==> over_budget(after.len() + 1, sum_bytes(after) + entry_bytes(ev.last()), items_cap, bytes_cap, min_len)
}

/// What the image behind an entry currently is.
#[derive(Clone, Copy, Debug, PartialEq, Eq, Structural)]
pub enum ItemStatus {
    /// Still fetching or decoding.
    Loading,
    /// Decoded to an image of this many bytes (summed over its frames).
    Decoded(u64),
    /// Failed in a network-shaped way (I/O, bad status, other): retried.
    TransientFailure,
    /// Failed deterministically (oversized, bad asset, decode error): never retried.
    PermanentFailure,
}

/// What a lookup found.
#[derive(Clone, Copy, Debug, PartialEq, Eq, Structural)]
pub enum LoadOutcome {
    /// Not resident: a load is to be started; the entry now stands loading.
    Miss,
    /// Resident: the entry's current item is the answer.
    Resident,
    /// Newly decoded image of this many bytes, now counted and kept.
    Kept(u64),
    /// Newly decoded image of this many bytes, over the per-entry cap: to be
    /// released and answered with an error from now on.
    TooLarge(u64),
}

/// The result of [`LruImageCache::load`].
pub struct LoadResult {
    pub outcome: LoadOutcome,
    /// Whether an entry whose transient failure had aged past the retry
    /// window was dropped first, so that it is loaded afresh.
    pub retried: bool,
    /// Keys evicted to stay within budget, whose images are to be released.
    pub evicted: Vec<u64>,
}

/// Position of `key` among the entries, if present.
pub open spec fn position_of(s: Seq<(u64, EntryMeta)>, key: u64) -> Option<int> {
    if exists|i: int| 0 <= i < s.len() && s[i].0 == key {
        Some(choose|i: int| 0 <= i < s.len() && s[i].0 == key)
    } else {
        None
    }
}

/// A failed entry is retried once its transient failure is older than the
/// negative-cache window.
pub open spec fn retry_due(e: EntryMeta, status: ItemStatus, now: u64) -> bool {
    &&& e.bytes is None
    &&& status == ItemStatus::TransientFailure
    &&& e.failed_at matches Some(t) && elapsed_spec(now, t) >= NEGATIVE_CACHE_RETRY_TTL_NANOS
}

/// An entry after being requested at `now` in `epoch`; a transient failure
/// seen for the first time gets its timestamp.
pub open spec fn touched(e: EntryMeta, status: ItemStatus, epoch: u64, now: u64) -> EntryMeta {
    EntryMeta {
        touched_epoch: epoch,
        last_used: now,
        failed_at: if e.bytes is None && status == ItemStatus::TransientFailure && e.failed_at is None {
            Some(now)
        } else {
            e.failed_at
        },
        ..e
    }
}

/// A fresh entry for a load that is starting.
pub open spec fn loading_entry(epoch: u64, now: u64) -> EntryMeta {
    EntryMeta { bytes: None, touched_epoch: epoch, last_used: now, failed_at: None }
}

/// A ledger's whole state, as seen by contracts.
pub ghost struct CacheView {
    pub loader: LoaderKind,
    pub max_items: usize,
    pub max_bytes: u64,
    pub max_entry_bytes: u64,
    pub total_bytes: u64,
    pub epoch: u64,
    pub sweeps: u64,
    pub sweep_scheduled: bool,
    pub hits: u64,
    pub misses: u64,
    pub evictions: u64,
    pub entries: Seq<(u64, EntryMeta)>,
}

/// An LRU image cache bounded by both an item count and a decoded-byte
/// budget. The byte budget is what keeps memory in check: large attachments
/// are evicted as soon as the total decoded size exceeds `max_bytes`.
pub struct LruImageCache {
    label: &'static str,
    instance: u64,
    loader: LoaderKind,
    max_items: usize,
    max_bytes: u64,
    /// Largest decoded size a single entry may have before it is dropped and
    /// negatively cached.
    max_entry_bytes: u64,
    total_bytes: u64,
    epoch: u64,
    sweeps: u64,
    sweep_scheduled: bool,
    hits: u64,
    misses: u64,
    evictions: u64,
    cache: IndexMap<u64, EntryMeta>,
}

impl View for LruImageCache {
    type V = CacheView;

    closed spec fn view(&self) -> CacheView {
        CacheView {
            loader: self.loader,
            max_items: self.max_items,
            max_bytes: self.max_bytes,
            max_entry_bytes: self.max_entry_bytes,
            total_bytes: self.total_bytes,
            epoch: self.epoch,
            sweeps: self.sweeps,
            sweep_scheduled: self.sweep_scheduled,
            hits: self.hits,
            misses: self.misses,
            evictions: self.evictions,
            entries: index_map_entries(self.cache),
        }
    }
}

/// Keys of a sequence of entries.
pub open spec fn keys_of(s: Seq<(u64, EntryMeta)>) -> Seq<u64> {
    s.map_values(|p: (u64, EntryMeta)| p.0)
}

impl LruImageCache {
    /// Keys are unique and the running byte total is the sum of the entries'
    /// decoded sizes.
    pub open spec fn wf(&self) -> bool {
        &&& keys_unique(self@.entries)
        &&& self@.total_bytes == sum_bytes(self@.entries)
    }

    /// A cache that decodes with `loader`, empty and at epoch zero.
    pub fn with_loader(
        label: &'static str,
        loader: LoaderKind,
        max_items: usize,
        max_bytes: u64,
        max_entry_bytes: u64,
        instance: u64,
    ) -> (r: Self)
        ensures
            r.wf(),
            r@ == (CacheView {
                loader,
                max_items,
                max_bytes,
                max_entry_bytes,
                total_bytes: 0,
                epoch: 0,
                sweeps: 0,
                sweep_scheduled: false,
                hits: 0,
                misses: 0,
                evictions: 0,
                entries: Seq::empty(),
            }),
            r.label() == label,
            r.instance() == instance,
    {
        LruImageCache {
            label,
            instance,
            loader,
            max_items,
            max_bytes,
            max_entry_bytes,
            total_bytes: 0,
            epoch: 0,
            sweeps: 0,
            sweep_scheduled: false,
            hits: 0,
            misses: 0,
            evictions: 0,
            cache: map_with_capacity(max_items),
        }
    }

    pub closed spec fn label(&self) -> &'static str {
        self.label
    }

    pub closed spec fn instance(&self) -> u64 {
        self.instance
    }

    /// Name the cache reports in its logs.
    pub fn label_str(&self) -> (r: &'static str)
        ensures
            r == self.label(),
    {
        self.label
    }

    /// Sequence number of this cache among all caches created.
    pub fn instance_id(&self) -> (r: u64)
        ensures
            r == self.instance(),
    {
        self.instance
    }

    /// The decoder this cache uses.
    pub fn loader_kind(&self) -> (r: LoaderKind)
        ensures
            r == self@.loader,
    {
        self.loader
    }

    /// An unlabeled general-purpose cache with no per-entry cap.
    pub fn new(max_items: usize, max_bytes: u64, instance: u64) -> (r: Self)
        ensures
            r.wf(),
            r@.loader == LoaderKind::Full,
            r@.max_items == max_items && r@.max_bytes == max_bytes && r@.max_entry_bytes == u64::MAX,
            r@.entries.len() == 0 && r@.total_bytes == 0 && r@.epoch == 0,
            r.label() == "image",
    {
        Self::labeled("image", max_items, max_bytes, u64::MAX, instance)
    }

    /// A general-purpose cache (the bounded shared loader).
    pub fn labeled(label: &'static str, max_items: usize, max_bytes: u64, max_entry_bytes: u64, instance: u64) -> (r: Self)
        ensures
            r.wf(),
            r@.loader == LoaderKind::Full,
            r@.max_items == max_items && r@.max_bytes == max_bytes && r@.max_entry_bytes == max_entry_bytes,
            r@.entries.len() == 0 && r@.total_bytes == 0 && r@.epoch == 0,
            r.label() == label,
    {
        Self::with_loader(label, LoaderKind::Full, max_items, max_bytes, max_entry_bytes, instance)
    }

    /// A cache for avatars: first frame only, downscaled to avatar size.
    pub fn avatar_thumbnail(label: &'static str, max_items: usize, max_bytes: u64, max_entry_bytes: u64, instance: u64) -> (r: Self)
        ensures
            r.wf(),
            r@.loader == LoaderKind::AvatarThumbnail,
            r@.max_items == max_items && r@.max_bytes == max_bytes && r@.max_entry_bytes == max_entry_bytes,
            r@.entries.len() == 0 && r@.total_bytes == 0 && r@.epoch == 0,
            r.label() == label,
    {
        Self::with_loader(label, LoaderKind::AvatarThumbnail, max_items, max_bytes, max_entry_bytes, instance)
    }

    /// A cache for small avatars.
    pub fn avatar_thumbnail_small(label: &'static str, max_items: usize, max_bytes: u64, max_entry_bytes: u64, instance: u64) -> (r: Self)
        ensures
            r.wf(),
            r@.loader == LoaderKind::AvatarThumbnailSmall,
            r@.max_items == max_items && r@.max_bytes == max_bytes && r@.max_entry_bytes == max_entry_bytes,
            r@.entries.len() == 0 && r@.total_bytes == 0 && r@.epoch == 0,
            r.label() == label,
    {
        Self::with_loader(label, LoaderKind::AvatarThumbnailSmall, max_items, max_bytes, max_entry_bytes, instance)
    }

    /// A cache for clan and app icons.
    pub fn icon_thumbnail(label: &'static str, max_items: usize, max_bytes: u64, max_entry_bytes: u64, instance: u64) -> (r: Self)
        ensures
            r.wf(),
            r@.loader == LoaderKind::IconThumbnail,
            r@.max_items == max_items && r@.max_bytes == max_bytes && r@.max_entry_bytes == max_entry_bytes,
            r@.entries.len() == 0 && r@.total_bytes == 0 && r@.epoch == 0,
            r.label() == label,
    {
        Self::with_loader(label, LoaderKind::IconThumbnail, max_items, max_bytes, max_entry_bytes, instance)
    }

    /// A cache for square gallery thumbnails.
    pub fn gallery_thumbnail(label: &'static str, max_items: usize, max_bytes: u64, max_entry_bytes: u64, instance: u64) -> (r: Self)
        ensures
            r.wf(),
            r@.loader == LoaderKind::GalleryThumbnail,
            r@.max_items == max_items && r@.max_bytes == max_bytes && r@.max_entry_bytes == max_entry_bytes,
            r@.entries.len() == 0 && r@.total_bytes == 0 && r@.epoch == 0,
            r.label() == label,
    {
        Self::with_loader(label, LoaderKind::GalleryThumbnail, max_items, max_bytes, max_entry_bytes, instance)
    }

    /// A cache for link-preview banners, aspect preserved.
    pub fn ogp_thumbnail(label: &'static str, max_items: usize, max_bytes: u64, max_entry_bytes: u64, instance: u64) -> (r: Self)
        ensures
            r.wf(),
            r@.loader == LoaderKind::OgpThumbnail,
            r@.max_items == max_items && r@.max_bytes == max_bytes && r@.max_entry_bytes == max_entry_bytes,
            r@.entries.len() == 0 && r@.total_bytes == 0 && r@.epoch == 0,
            r.label() == label,
    {
        Self::with_loader(label, LoaderKind::OgpThumbnail, max_items, max_bytes, max_entry_bytes, instance)
    }

    /// A cache for timeline and event preview cards.
    pub fn gallery_preview(label: &'static str, max_items: usize, max_bytes: u64, max_entry_bytes: u64, instance: u64) -> (r: Self)
        ensures
            r.wf(),
            r@.loader == LoaderKind::GalleryPreview,
            r@.max_items == max_items && r@.max_bytes == max_bytes && r@.max_entry_bytes == max_entry_bytes,
            r@.entries.len() == 0 && r@.total_bytes == 0 && r@.epoch == 0,
            r.label() == label,
    {
        Self::with_loader(label, LoaderKind::GalleryPreview, max_items, max_bytes, max_entry_bytes, instance)
    }

    /// A cache for message attachments.
    pub fn message(label: &'static str, max_items: usize, max_bytes: u64, max_entry_bytes: u64, instance: u64) -> (r: Self)
        ensures
            r.wf(),
            r@.loader == LoaderKind::Message,
            r@.max_items == max_items && r@.max_bytes == max_bytes && r@.max_entry_bytes == max_entry_bytes,
            r@.entries.len() == 0 && r@.total_bytes == 0 && r@.epoch == 0,
            r.label() == label,
    {
        Self::with_loader(label, LoaderKind::Message, max_items, max_bytes, max_entry_bytes, instance)
    }

    /// A cache for the image viewer.
    pub fn viewer(label: &'static str, max_items: usize, max_bytes: u64, max_entry_bytes: u64, instance: u64) -> (r: Self)
        ensures
            r.wf(),
            r@.loader == LoaderKind::Viewer,
            r@.max_items == max_items && r@.max_bytes == max_bytes && r@.max_entry_bytes == max_entry_bytes,
            r@.entries.len() == 0 && r@.total_bytes == 0 && r@.epoch == 0,
            r.label() == label,
    {
        Self::with_loader(label, LoaderKind::Viewer, max_items, max_bytes, max_entry_bytes, instance)
    }

    /// Counters and current size.
    pub fn stats(&self) -> (r: ImageCacheStats)
        requires
            self.wf(),
        ensures
            r.hits == self@.hits,
            r.misses == self@.misses,
            r.evictions == self@.evictions,
            r.current_bytes == self@.total_bytes,
            r.items == self@.entries.len(),
    {
        ImageCacheStats {
            hits: self.hits,
            misses: self.misses,
            evictions: self.evictions,
            current_bytes: self.total_bytes,
            items: map_len(&self.cache),
        }
    }

    /// Empty the cache, returning the keys of every entry (in map order) so
    /// that their loads can be aborted and their images released.
    pub fn clear(&mut self) -> (r: Vec<u64>)
        requires
            old(self).wf(),
        ensures
            final(self).wf(),
            r@ == keys_of(old(self)@.entries),
            final(self)@ == (CacheView { entries: Seq::empty(), total_bytes: 0, ..old(self)@ }),
            final(self).label() == old(self).label(),
            final(self).instance() == old(self).instance(),
    {
        let taken = map_take(&mut self.cache);
        self.total_bytes = 0;
        let n = map_len(&taken);
        let mut keys: Vec<u64> = Vec::new();
        let mut i: usize = 0;
        while i < n
            invariant
                n == index_map_entries(taken).len(),
                i <= n,
                keys@ == keys_of(index_map_entries(taken)).take(i as int),
            decreases n - i,
        {
            match map_get_index(&taken, i) {
                Some((k, _)) => keys.push(k),
                None => {},
            }
            i = i + 1;
            assert(keys@ =~= keys_of(index_map_entries(taken)).take(i as int));
        }
        assert(keys@ =~= keys_of(index_map_entries(taken)));
        keys
    }

    /// Drop every entry not requested in the current epoch and unused for
    /// longer than `window`; the rest keep their order. Returns the keys
    /// dropped, in map order.
    fn remove_expired(&mut self, window: u64, now: u64) -> (r: Vec<u64>)
        requires
            old(self).wf(),
        ensures
            final(self).wf(),
            final(self)@.entries == old(self)@.entries.filter(|p: (u64, EntryMeta)| !expired_spec(p.1, old(self)@.epoch, now, window)),
            r@ == keys_of(old(self)@.entries.filter(|p: (u64, EntryMeta)| expired_spec(p.1, old(self)@.epoch, now, window))),
            final(self)@ == (CacheView {
                entries: final(self)@.entries,
                total_bytes: final(self)@.total_bytes,
                evictions: wrap_add(old(self)@.evictions, r@.len()),
                ..old(self)@
            }),
            final(self).label() == old(self).label(),
            final(self).instance() == old(self).instance(),
    {
        let ghost before = self@.entries;
        let ghost epoch = self.epoch;
        let ghost drop = |p: (u64, EntryMeta)| expired_spec(p.1, epoch, now, window);
        let ghost keep = |p: (u64, EntryMeta)| !expired_spec(p.1, epoch, now, window);
        let n = map_len(&self.cache);
        let mut keys: Vec<u64> = Vec::new();
        let mut removed: u64 = 0;
        let mut i: usize = 0;
        while i < n
            invariant
                n == before.len(),
                before == index_map_entries(self.cache),
                self.total_bytes == sum_bytes(before),
                epoch == self.epoch,
                drop == (|p: (u64, EntryMeta)| expired_spec(p.1, epoch, now, window)),
                i <= n,
                keys@ == keys_of(before.take(i as int).filter(drop)),
                removed == sum_bytes(before.take(i as int).filter(drop)),
                removed <= sum_bytes(before.take(i as int)),
                sum_bytes(before.take(i as int)) <= sum_bytes(before),
            decreases n - i,
        {
            let ghost pre = before.take(i as int);
            let ghost post = before.take(i + 1);
            proof {
                assert(post.drop_last() =~= pre);
                assert(post.last() == before[i as int]);
            }
            match map_get_index(&self.cache, i) {
                Some((k, e)) => {
                    if entry_expired(&e, self.epoch, now, window) {
                        keys.push(k);
                        proof {
                            lemma_sum_bytes_push(pre.filter(drop), before[i as int]);
                            assert(post.filter(drop) =~= pre.filter(drop).push(before[i as int])) by {
                                reveal(Seq::filter);
                                assert(e == before[i as int].1);
                                assert(drop(before[i as int]));
                                assert(post.filter(drop) == post.drop_last().filter(drop).push(post.last()));
                            }
                            lemma_sum_bytes_take_le(before, i + 1);
                        }
                        removed = removed + match e.bytes { Some(b) => b, None => 0 };
                        assert(keys@ =~= keys_of(post.filter(drop)));
                    } else {
                        assert(post.filter(drop) =~= pre.filter(drop)) by {
                            reveal(Seq::filter);
                            assert(e == before[i as int].1);
                            assert(!drop(before[i as int]));
                            assert(post.filter(drop) == post.drop_last().filter(drop));
                        }
                    }
                },
                None => {},
            }
            i = i + 1;
            proof { lemma_sum_bytes_take_le(before, i as int); }
        }
        proof {
            assert(before.take(n as int) =~= before);
            lemma_sum_bytes_filter(before, keep, drop);
        }
        map_retain_unexpired(&mut self.cache, self.epoch, now, window);
        assert(index_map_entries(self.cache) == before.filter(keep));
        self.total_bytes = self.total_bytes - removed;
        self.evictions = add_wrapping(self.evictions, keys.len());
        keys
    }

    /// Drop every image that was not requested during the most recent frame
    /// and has been unused past the grace window, then advance the epoch.
    /// Returns the keys dropped, whose images are to be released.
    pub fn sweep(&mut self, now: u64) -> (r: Vec<u64>)
        requires
            old(self).wf(),
        ensures
            final(self).wf(),
            final(self)@.entries == old(self)@.entries.filter(|p: (u64, EntryMeta)| !expired_spec(p.1, old(self)@.epoch, now, GRACE_PERIOD_NANOS)),
            r@ == keys_of(old(self)@.entries.filter(|p: (u64, EntryMeta)| expired_spec(p.1, old(self)@.epoch, now, GRACE_PERIOD_NANOS))),
            final(self)@ == (CacheView {
                entries: final(self)@.entries,
                total_bytes: final(self)@.total_bytes,
                evictions: wrap_add(old(self)@.evictions, r@.len()),
                epoch: wrap_inc(old(self)@.epoch),
                sweeps: wrap_inc(old(self)@.sweeps),
                ..old(self)@
            }),
            final(self).label() == old(self).label(),
            final(self).instance() == old(self).instance(),
    {
        let keys = self.remove_expired(GRACE_PERIOD_NANOS, now);
        self.epoch = bump(self.epoch);
        self.sweeps = bump(self.sweeps);
        keys
    }

    /// Sweep at most once per frame: `None` when a sweep already ran since
    /// the last [`Self::end_frame`].
    pub fn sweep_once_per_frame(&mut self, now: u64) -> (r: Option<Vec<u64>>)
        requires
            old(self).wf(),
        ensures
            final(self).wf(),
            old(self)@.sweep_scheduled ==> r is None && final(self)@ == old(self)@,
            !old(self)@.sweep_scheduled ==> r is Some && final(self)@.sweep_scheduled
                && final(self)@.entries == old(self)@.entries.filter(|p: (u64, EntryMeta)| !expired_spec(p.1, old(self)@.epoch, now, GRACE_PERIOD_NANOS))
                && r->0@ == keys_of(old(self)@.entries.filter(|p: (u64, EntryMeta)| expired_spec(p.1, old(self)@.epoch, now, GRACE_PERIOD_NANOS)))
                && final(self)@.epoch == wrap_inc(old(self)@.epoch),
            final(self).label() == old(self).label(),
            final(self).instance() == old(self).instance(),
    {
        if self.sweep_scheduled {
            return None;
        }
        self.sweep_scheduled = true;
        Some(self.sweep(now))
    }

    /// The frame after a sweep has begun: the next frame may sweep again.
    pub fn end_frame(&mut self)
        requires
            old(self).wf(),
        ensures
            final(self).wf(),
            final(self)@ == (CacheView { sweep_scheduled: false, ..old(self)@ }),
            final(self).label() == old(self).label(),
            final(self).instance() == old(self).instance(),
    {
        self.sweep_scheduled = false;
    }

    /// Trim entries idle past `ttl` (never those requested in the current
    /// epoch). Returns the keys dropped; the cache shrank iff it is non-empty.
    pub fn evict_idle(&mut self, ttl: u64, now: u64) -> (r: Vec<u64>)
        requires
            old(self).wf(),
        ensures
            final(self).wf(),
            final(self)@.entries == old(self)@.entries.filter(|p: (u64, EntryMeta)| !expired_spec(p.1, old(self)@.epoch, now, ttl)),
            r@ == keys_of(old(self)@.entries.filter(|p: (u64, EntryMeta)| expired_spec(p.1, old(self)@.epoch, now, ttl))),
            final(self)@ == (CacheView {
                entries: final(self)@.entries,
                total_bytes: final(self)@.total_bytes,
                evictions: wrap_add(old(self)@.evictions, r@.len()),
                ..old(self)@
            }),
            final(self).label() == old(self).label(),
            final(self).instance() == old(self).instance(),
    {
        self.remove_expired(ttl, now)
    }

    /// Position of the least recently used entry (the first one on ties).
    fn lru_index(&self) -> (r: Option<usize>)
        requires
            self.wf(),
        ensures
            match r {
                Some(i) => {
                    &&& i < self@.entries.len()
                    &&& forall|j: int| 0 <= j < self@.entries.len() ==> self@.entries[i as int].1.last_used <= self@.entries[j].1.last_used
                    &&& forall|j: int| 0 <= j < i ==> self@.entries[j].1.last_used > self@.entries[i as int].1.last_used
                },
                None => self@.entries.len() == 0,
            },
    {
        let n = map_len(&self.cache);
        let ghost s = self@.entries;
        if n == 0 {
            return None;
        }
        let mut best: usize = 0;
        let mut best_used: u64 = match map_get_index(&self.cache, 0) {
            Some((_, e)) => e.last_used,
            None => 0,
        };
        let mut i: usize = 1;
        while i < n
            invariant
                s == index_map_entries(self.cache),
                n == s.len(),
                1 <= i <= n,
                best < i,
                best_used == s[best as int].1.last_used,
                forall|j: int| 0 <= j < i ==> best_used <= s[j].1.last_used,
                forall|j: int| 0 <= j < best ==> s[j].1.last_used > best_used,
            decreases n - i,
        {
            match map_get_index(&self.cache, i) {
                Some((_, e)) => {
                    if e.last_used < best_used {
                        best = i;
                        best_used = e.last_used;
                    }
                },
                None => {},
            }
            i = i + 1;
        }
        Some(best)
    }

    /// Evict least recently used entries while over the budget. Returns the
    /// keys evicted, in eviction order.
    fn evict_lru_while(&mut self, items_cap: usize, bytes_cap: u64, min_len: usize) -> (r: Vec<u64>)
        requires
            old(self).wf(),
        ensures
            final(self).wf(),
            exists|ev: Seq<(u64, EntryMeta)>| {
                &&& lru_evicted(old(self)@.entries, final(self)@.entries, ev, items_cap as nat, bytes_cap as nat, min_len as nat)
                &&& r@ == keys_of(ev)
            },
            final(self)@ == (CacheView {
                entries: final(self)@.entries,
                total_bytes: final(self)@.total_bytes,
                evictions: wrap_add(old(self)@.evictions, r@.len()),
                ..old(self)@
            }),
            final(self).label() == old(self).label(),
            final(self).instance() == old(self).instance(),
    {
        let ghost before = self@.entries;
        let ghost old_view = self@;
        let ghost mut ev: Seq<(u64, EntryMeta)> = Seq::empty();
        proof {
            let r0 = evict_run(before, items_cap as nat, bytes_cap as nat, min_len as nat);
            assert(Seq::<(u64, EntryMeta)>::empty() + r0.1 =~= r0.1);
        }
        let mut keys: Vec<u64> = Vec::new();
        while map_len(&self.cache) > items_cap || (self.total_bytes > bytes_cap && map_len(&self.cache) > min_len)
            invariant
                self.wf(),
                lru_evicted_progress(before, self@.entries, ev, items_cap as nat, bytes_cap as nat, min_len as nat),
                evict_run(before, items_cap as nat, bytes_cap as nat, min_len as nat) == (
                    evict_run(self@.entries, items_cap as nat, bytes_cap as nat, min_len as nat).0,
                    ev + evict_run(self@.entries, items_cap as nat, bytes_cap as nat, min_len as nat).1,
                ),
                keys@ == keys_of(ev),
                self@ == (CacheView {
                    entries: self@.entries,
                    total_bytes: self@.total_bytes,
                    evictions: wrap_add(old_view.evictions, ev.len()),
                    ..old_view
                }),
                self.label == old(self).label,
                self.instance == old(self).instance,
            decreases self@.entries.len(),
        {
            let ghost cur = self@.entries;
            match self.lru_index() {
                Some(v) => {
                    proof {
                        lemma_swap_removed_contents(cur, v as int);
                        lemma_sum_bytes_swap_removed(cur, v as int);
                    }
                    match map_swap_remove_index(&mut self.cache, v) {
                        Some((k, e)) => {
                            let b: u64 = match e.bytes {
                                Some(b) => b,
                                None => 0,
                            };
                            self.total_bytes = self.total_bytes - b;
                            self.evictions = bump(self.evictions);
                            keys.push(k);
                            proof {
                                let victim = cur[v as int];
                                let ev2 = ev.push(victim);
                                lemma_lru_pos_unique(cur, v as int);
                                let tail = evict_run(swap_removed(cur, v as int), items_cap as nat, bytes_cap as nat, min_len as nat);
                                assert(evict_run(cur, items_cap as nat, bytes_cap as nat, min_len as nat) == (tail.0, seq![victim] + tail.1));
                                assert(ev + (seq![victim] + tail.1) =~= ev2 + tail.1);
                                let after = self@.entries;
                                assert forall|x: (u64, EntryMeta)| ev2.contains(x) implies before.contains(x) by {
                                    if x != victim {
                                        let k = choose|k: int| 0 <= k < ev2.len() && ev2[k] == x;
                                        assert(ev[k] == x);
                                    } else {
                                        assert(cur.contains(victim));
                                    }
                                }
                                assert forall|x: (u64, EntryMeta)| before.contains(x) implies after.contains(x) || ev2.contains(x) by {
                                    if cur.contains(x) {
                                        if x == victim {
                                            assert(ev2[ev.len() as int] == x);
                                        }
                                    } else {
                                        let k = choose|k: int| 0 <= k < ev.len() && ev[k] == x;
                                        assert(ev2[k] == x);
                                    }
                                }
                                assert forall|k: int, j: int| 0 <= k < ev2.len() && 0 <= j < after.len() implies ev2[k].1.last_used <= after[j].1.last_used by {
                                    assert(after.contains(after[j]));
                                    assert(cur.contains(after[j]));
                                    let jj = choose|jj: int| 0 <= jj < cur.len() && cur[jj] == after[j];
                                    if k < ev.len() {
                                        assert(ev2[k] == ev[k]);
                                    }
                                }
                                assert(keys_of(ev2) =~= keys_of(ev).push(k));
                                ev = ev2;
                            }
                        },
                        None => {
                            assert(false);
                        },
                    }
                },
                None => {
                    assert(false);
                },
            }
        }
        proof {
            let fin = self@.entries;
            assert(evict_run(fin, items_cap as nat, bytes_cap as nat, min_len as nat) == (fin, Seq::<(u64, EntryMeta)>::empty()));
            assert(ev + Seq::<(u64, EntryMeta)>::empty() =~= ev);
        }
        keys
    }

    /// Evict least recently used entries until both the item-count and byte
    /// budgets hold; the last remaining entry is never evicted for bytes, so
    /// the image requested this frame stays resident.
    fn evict_to_budget(&mut self) -> (r: Vec<u64>)
        requires
            old(self).wf(),
        ensures
            final(self).wf(),
            exists|ev: Seq<(u64, EntryMeta)>| {
                &&& lru_evicted(old(self)@.entries, final(self)@.entries, ev, old(self)@.max_items as nat, old(self)@.max_bytes as nat, 1)
                &&& r@ == keys_of(ev)
            },
            final(self)@ == (CacheView {
                entries: final(self)@.entries,
                total_bytes: final(self)@.total_bytes,
                evictions: wrap_add(old(self)@.evictions, r@.len()),
                ..old(self)@
            }),
            final(self).label() == old(self).label(),
            final(self).instance() == old(self).instance(),
    {
        self.evict_lru_while(self.max_items, self.max_bytes, 1)
    }

    /// Evict least recently used entries until at most `max_bytes` decoded
    /// bytes remain. Returns the keys evicted, whose images are to be released.
    pub fn shrink_to(&mut self, max_bytes: u64) -> (r: Vec<u64>)
        requires
            old(self).wf(),
        ensures
            final(self).wf(),
            exists|ev: Seq<(u64, EntryMeta)>| {
                &&& lru_evicted(old(self)@.entries, final(self)@.entries, ev, usize::MAX as nat, max_bytes as nat, 0)
                &&& r@ == keys_of(ev)
            },
            final(self)@.total_bytes <= max_bytes,
            final(self)@ == (CacheView {
                entries: final(self)@.entries,
                total_bytes: final(self)@.total_bytes,
                evictions: wrap_add(old(self)@.evictions, r@.len()),
                ..old(self)@
            }),
            final(self).label() == old(self).label(),
            final(self).instance() == old(self).instance(),
    {
        self.evict_lru_while(usize::MAX, max_bytes, 0)
    }

    /// Look up the resource `hash` at time `now`, given what its item
    /// currently is. A hit refreshes the entry, measures a newly decoded
    /// image (refusing one over the per-entry cap) and evicts to budget; a
    /// miss, or a transient failure due for retry, starts a fresh entry.
    pub fn load(&mut self, hash: u64, now: u64, status: ItemStatus) -> (r: LoadResult)
        requires
            old(self).wf(),
            status matches ItemStatus::Decoded(b) ==> old(self)@.total_bytes + b <= u64::MAX,
        ensures
            final(self).wf(),
            final(self).label() == old(self).label(),
            final(self).instance() == old(self).instance(),
            ({
                let v = old(self)@;
                let e = v.entries;
                let w = final(self)@;
                let pos = position_of(e, hash);
                let hit = pos is Some && !retry_due(e[pos->0].1, status, now);
                if hit {
                    let i = pos->0;
                    let t = touched(e[i].1, status, v.epoch, now);
                    &&& !r.retried
                    &&& w.hits == wrap_inc(v.hits)
                    &&& w.misses == v.misses
                    &&& w.epoch == v.epoch && w.sweeps == v.sweeps && w.sweep_scheduled == v.sweep_scheduled
                    &&& w.loader == v.loader && w.max_items == v.max_items && w.max_bytes == v.max_bytes
                    &&& w.max_entry_bytes == v.max_entry_bytes
                    &&& match (e[i].1.bytes, status) {
                        (None, ItemStatus::Decoded(b)) => if b > v.max_entry_bytes {
                            &&& r.outcome == LoadOutcome::TooLarge(b)
                            &&& w.entries == e.update(i, (hash, EntryMeta { bytes: Some(0), ..t }))
                            &&& r.evicted@.len() == 0
                            &&& w.evictions == v.evictions
                        } else {
                            &&& r.outcome == LoadOutcome::Kept(b)
                            &&& w.evictions == wrap_add(v.evictions, r.evicted@.len())
                            &&& exists|ev: Seq<(u64, EntryMeta)>| {
                                &&& lru_evicted(e.update(i, (hash, EntryMeta { bytes: Some(b), ..t })), w.entries, ev,
                                    v.max_items as nat, v.max_bytes as nat, 1)
                                &&& r.evicted@ == keys_of(ev)
                            }
                        },
                        _ => {
                            &&& r.outcome == LoadOutcome::Resident
                            &&& w.entries == e.update(i, (hash, t))
                            &&& r.evicted@.len() == 0
                            &&& w.evictions == v.evictions
                        },
                    }
                } else {
                    let staged = if pos is Some { swap_removed(e, pos->0) } else { e };
                    &&& r.retried == pos is Some
                    &&& r.outcome == LoadOutcome::Miss
                    &&& w.hits == v.hits
                    &&& w.misses == wrap_inc(v.misses)
                    &&& w.epoch == v.epoch && w.sweeps == v.sweeps && w.sweep_scheduled == v.sweep_scheduled
                    &&& w.loader == v.loader && w.max_items == v.max_items && w.max_bytes == v.max_bytes
                    &&& w.max_entry_bytes == v.max_entry_bytes
                    &&& w.evictions == wrap_add(v.evictions, r.evicted@.len())
                    &&& exists|ev: Seq<(u64, EntryMeta)>| {
                        &&& lru_evicted(staged.push((hash, loading_entry(v.epoch, now))), w.entries, ev,
                            v.max_items as nat, v.max_bytes as nat, 1)
                        &&& r.evicted@ == keys_of(ev)
                    }
                }
            }),
    {
        let ghost e0 = self@.entries;
        let ghost v0 = self@;
        let mut retried = false;
        let found = map_index_of(&self.cache, hash);
        proof {
            if let Some(i) = found {
                assert(position_of(e0, hash) == Some(i as int)) by {
                    let j = choose|j: int| 0 <= j < e0.len() && e0[j].0 == hash;
                    assert(j == i as int);
                }
            } else {
                assert(position_of(e0, hash) is None);
            }
        }
        if let Some(i) = found {
            let cur = match map_get_index(&self.cache, i) {
                Some((_, e)) => e,
                None => EntryMeta { bytes: None, touched_epoch: 0, last_used: 0, failed_at: None },
            };
            let transient = cur.bytes.is_none() && status == ItemStatus::TransientFailure;
            let due = if transient {
                match cur.failed_at {
                    Some(t) => {
                        let age = if now >= t { now - t } else { 0 };
                        age >= NEGATIVE_CACHE_RETRY_TTL_NANOS
                    },
                    None => false,
                }
            } else {
                false
            };
            if due {
                proof {
                    lemma_swap_removed_contents(e0, i as int);
                    lemma_sum_bytes_swap_removed(e0, i as int);
                    assert(entry_bytes(e0[i as int]) == 0);
                }
                let _ = map_swap_remove(&mut self.cache, hash);
                proof {
                    let j = choose|j: int| 0 <= j < e0.len() && e0[j].0 == hash;
                    assert(j == i as int);
                }
                retried = true;
            } else {
                // Hit.
                self.hits = bump(self.hits);
                let failed_at = if transient && cur.failed_at.is_none() { Some(now) } else { cur.failed_at };
                let t = EntryMeta { touched_epoch: self.epoch, last_used: now, failed_at, ..cur };
                let ghost tt = touched(e0[i as int].1, status, v0.epoch, now);
                assert(t == tt);
                match (cur.bytes, status) {
                    (None, ItemStatus::Decoded(b)) => {
                        if b > self.max_entry_bytes {
                            let updated = EntryMeta { bytes: Some(0), ..t };
                            proof { lemma_sum_bytes_update(e0, i as int, (hash, updated)); }
                            let _ = map_insert(&mut self.cache, hash, updated);
                            proof {
                                let j = choose|j: int| 0 <= j < e0.len() && e0[j].0 == hash;
                                assert(j == i as int);
                                assert(keys_unique(e0.update(i as int, (hash, updated))));
                            }
                            return LoadResult { outcome: LoadOutcome::TooLarge(b), retried: false, evicted: Vec::new() };
                        } else {
                            let updated = EntryMeta { bytes: Some(b), ..t };
                            proof { lemma_sum_bytes_update(e0, i as int, (hash, updated)); }
                            let _ = map_insert(&mut self.cache, hash, updated);
                            proof {
                                let j = choose|j: int| 0 <= j < e0.len() && e0[j].0 == hash;
                                assert(j == i as int);
                            }
                            self.total_bytes = self.total_bytes + b;
                            let evicted = self.evict_to_budget();
                            return LoadResult { outcome: LoadOutcome::Kept(b), retried: false, evicted };
                        }
                    },
                    _ => {
                        proof { lemma_sum_bytes_update(e0, i as int, (hash, t)); }
                        let _ = map_insert(&mut self.cache, hash, t);
                        proof {
                            let j = choose|j: int| 0 <= j < e0.len() && e0[j].0 == hash;
                            assert(j == i as int);
                        }
                        return LoadResult { outcome: LoadOutcome::Resident, retried: false, evicted: Vec::new() };
                    },
                }
            }
        }
        // Miss.
        let ghost staged = self@.entries;
        self.misses = bump(self.misses);
        let fresh = EntryMeta { bytes: None, touched_epoch: self.epoch, last_used: now, failed_at: None };
        proof {
            assert forall|j: int| 0 <= j < staged.len() implies staged[j].0 != hash by {
                if retried {
                    lemma_swap_removed_contents(e0, found->0 as int);
                }
            }
            lemma_sum_bytes_push(staged, (hash, fresh));
        }
        let _ = map_insert(&mut self.cache, hash, fresh);
        let evicted = self.evict_to_budget();
        LoadResult { outcome: LoadOutcome::Miss, retried, evicted }
    }
}

/// An entry requested in the current epoch is never expired, whatever its age.
pub proof fn lemma_current_epoch_never_expires(e: EntryMeta, epoch: u64, now: u64, window: u64)
    requires
        e.touched_epoch == epoch,
    ensures
        !expired_spec(e, epoch, now, window),
{
}

/// A sweep or idle trim keeps every entry requested in the current epoch,
/// and keeps exactly the unexpired entries in their order.
pub proof fn lemma_removal_keeps_current_epoch(
    s: Seq<(u64, EntryMeta)>,
    epoch: u64,
    now: u64,
    window: u64,
    x: (u64, EntryMeta),
)
    requires
        s.contains(x),
        x.1.touched_epoch == epoch,
    ensures
        s.filter(|p: (u64, EntryMeta)| !expired_spec(p.1, epoch, now, window)).contains(x),
{
    let i = choose|i: int| 0 <= i < s.len() && s[i] == x;
    s.lemma_filter_contains(|p: (u64, EntryMeta)| !expired_spec(p.1, epoch, now, window), i);
}

/// After an LRU eviction the cache is within budget: at most `items_cap`
/// entries, and at most `bytes_cap` decoded bytes unless only `min_len` or
/// fewer entries are left; and no evicted entry was used more recently than
/// any survivor.
pub proof fn lemma_eviction_restores_budget(
    before: Seq<(u64, EntryMeta)>,
    after: Seq<(u64, EntryMeta)>,
    ev: Seq<(u64, EntryMeta)>,
    items_cap: nat,
    bytes_cap: nat,
    min_len: nat,
)
    requires
        lru_evicted(before, after, ev, items_cap, bytes_cap, min_len),
    ensures
        after.len() <= items_cap,
        sum_bytes(after) <= bytes_cap || after.len() <= min_len,
        forall|k: int, j: int| 0 <= k < ev.len() && 0 <= j < after.len() ==> ev[k].1.last_used <= after[j].1.last_used,
        after.len() + ev.len() == before.len(),
{
}

/// An image already measured (kept, or refused as too large) is never
/// retried, whatever its item reports.
pub proof fn lemma_measured_entries_never_retry(e: EntryMeta, status: ItemStatus, now: u64)
    requires
        e.bytes is Some,
    ensures
        !retry_due(e, status, now),
{
}

/// Refreshing a measured entry leaves the byte total unchanged.
pub proof fn lemma_touch_keeps_total(s: Seq<(u64, EntryMeta)>, i: int, status: ItemStatus, epoch: u64, now: u64)
    requires
        0 <= i < s.len(),
    ensures
        sum_bytes(s.update(i, (s[i].0, touched(s[i].1, status, epoch, now)))) == sum_bytes(s),
{
    lemma_sum_bytes_update(s, i, (s[i].0, touched(s[i].1, status, epoch, now)));
}

} // verus!
