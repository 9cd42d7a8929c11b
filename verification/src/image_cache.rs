//! Budgets, decode plans and eviction rules of the bounded image caches.

pub mod binary32;
pub mod ledger;

use vstd::prelude::*;

use crate::image_cache::binary32::{
    binary32_ratio, binary32_scaled, ratio_exec, round_units, saturate_u32, scaled_side_exec,
};
use crate::chars::{ascii_lower, chars_of, eq_ignore_ascii_case, to_ascii_lower};

verus! {

/// Nanoseconds in one millisecond.
pub const NANOS_PER_MILLI: u64 = 1_000_000;
/// Nanoseconds in one second.
pub const NANOS_PER_SEC: u64 = 1_000_000_000;

/// How often idle caches are trimmed.
pub const IDLE_TRIM_INTERVAL_NANOS: u64 = 30 * NANOS_PER_SEC;
/// An entry untouched for this long (and not requested this frame) is trimmed.
pub const IDLE_TRIM_TTL_NANOS: u64 = 60 * NANOS_PER_SEC;
/// Decode-completion notifies are coalesced within this window.
pub const DECODE_NOTIFY_DEBOUNCE_NANOS: u64 = 50 * NANOS_PER_MILLI;
/// A sweep keeps an entry that left the viewport for at most this long.
pub const GRACE_PERIOD_NANOS: u64 = 2 * NANOS_PER_SEC;
/// A transient load failure is retried once per this window.
pub const NEGATIVE_CACHE_RETRY_TTL_NANOS: u64 = 15 * NANOS_PER_SEC;
/// Cache statistics are logged once every this many sweeps.
pub const STATS_LOG_INTERVAL: u64 = 600;

/// Freed atlas bytes at or above which memory is handed back to the OS.
pub const RELIEF_FLUSH_THRESHOLD_BYTES: u64 = 8 * 1024 * 1024;

pub const SHARED_AVATAR_CACHE_CAPACITY: usize = 512;
pub const SHARED_AVATAR_CACHE_BYTES: u64 = 24 * 1024 * 1024;
pub const SHARED_SMALL_AVATAR_CACHE_BYTES: u64 = 12 * 1024 * 1024;
pub const OGP_SHARED_CACHE_CAPACITY: usize = 16;
pub const OGP_SHARED_CACHE_BYTES: u64 = 8 * 1024 * 1024;
pub const OGP_SHARED_ENTRY_MAX_BYTES: u64 = 2 * 1024 * 1024;

pub const AVATAR_FETCH_MAX_BYTES: usize = 8 * 1024 * 1024;
pub const GALLERY_FETCH_MAX_BYTES: usize = 16 * 1024 * 1024;
pub const MESSAGE_FETCH_MAX_BYTES: usize = 32 * 1024 * 1024;
pub const VIEWER_FETCH_MAX_BYTES: usize = 32 * 1024 * 1024;
/// Images fetched and decoded at the same time.
pub const IMAGE_PIPELINE_CONCURRENCY: usize = 3;

pub const MESSAGE_IMAGE_CACHE_CAPACITY: usize = 48;
pub const MESSAGE_IMAGE_CACHE_BYTES: u64 = 32 * 1024 * 1024;
pub const AVATAR_IMAGE_CACHE_CAPACITY: usize = 256;
pub const AVATAR_IMAGE_CACHE_BYTES: u64 = 8 * 1024 * 1024;
pub const VIEWER_IMAGE_CACHE_CAPACITY: usize = 24;
pub const VIEWER_IMAGE_CACHE_BYTES: u64 = 32 * 1024 * 1024;
pub const VIEWER_IMAGE_ENTRY_MAX_BYTES: u64 = 24 * 1024 * 1024;
pub const SHARED_IMAGE_CACHE_CAPACITY: usize = 384;
pub const SHARED_IMAGE_CACHE_BYTES: u64 = 24 * 1024 * 1024;
pub const GALLERY_IMAGE_CACHE_CAPACITY: usize = 48;
pub const GALLERY_IMAGE_CACHE_BYTES: u64 = 12 * 1024 * 1024;
pub const PREVIEW_IMAGE_CACHE_CAPACITY: usize = 64;
pub const PREVIEW_IMAGE_CACHE_BYTES: u64 = 32 * 1024 * 1024;
pub const PREVIEW_ENTRY_MAX_BYTES: u64 = 4 * 1024 * 1024;
pub const AVATAR_ENTRY_MAX_BYTES: u64 = 2 * 1024 * 1024;
pub const MESSAGE_ENTRY_MAX_BYTES: u64 = 32 * 1024 * 1024;
pub const SHARED_ENTRY_MAX_BYTES: u64 = 12 * 1024 * 1024;

pub const MESSAGE_ANIMATION_MAX_PX: u32 = 400;
pub const MESSAGE_STATIC_MAX_PX: u32 = 1024;
pub const SHARED_ANIMATION_MAX_PX: u32 = 400;
pub const SHARED_STATIC_MAX_PX: u32 = 2048;
pub const VIEWER_ANIMATION_MAX_PX: u32 = 480;
pub const VIEWER_STATIC_MAX_PX: u32 = 1600;
pub const AVATAR_DECODE_MAX_PX: u32 = 160;
pub const AVATAR_SMALL_DECODE_MAX_PX: u32 = 80;
pub const ICON_DECODE_MAX_PX: u32 = 64;
pub const GALLERY_THUMB_DECODE_MAX_PX: u32 = 320;
pub const OGP_THUMB_DECODE_MAX_PX: u32 = 512;
pub const GALLERY_PREVIEW_DECODE_MAX_PX: u32 = 768;

/// Widest or tallest canvas the decoders accept.
pub const MAX_DECODE_DIMENSION: u32 = 16_384;
/// Largest canvas area the decoders accept.
pub const MAX_DECODE_PIXELS: u64 = 48_000_000;
/// Allocation limit handed to the decoders.
pub const MAX_DECODER_ALLOC_BYTES: u64 = 256 * 1024 * 1024;

/// Counters and current size of one cache.
#[derive(Debug, Clone, Copy)]
pub struct ImageCacheStats {
    pub hits: u64,
    pub misses: u64,
    pub evictions: u64,
    pub current_bytes: u64,
    pub items: usize,
}

/// A sweep drops an entry that was not requested in the current epoch and
/// has not been used for longer than the grace window.
pub open spec fn stale_spec(touched_epoch: u64, epoch: u64, age: u64, grace: u64) -> bool {
    touched_epoch != epoch && age > grace
}

/// Whether a sweep evicts an entry last requested in `touched_epoch` and
/// unused for `age_nanos`, when the cache is at `epoch`.
pub fn entry_is_stale(touched_epoch: u64, epoch: u64, age_nanos: u64, grace_nanos: u64) -> (r: bool)
    ensures
        r == stale_spec(touched_epoch, epoch, age_nanos, grace_nanos),
{
    touched_epoch != epoch && age_nanos > grace_nanos
}

/// Whether the idle trim evicts an entry: like a sweep, but against the much
/// longer idle TTL.
pub fn entry_is_idle(touched_epoch: u64, epoch: u64, age_nanos: u64, ttl_nanos: u64) -> (r: bool)
    ensures
        r == stale_spec(touched_epoch, epoch, age_nanos, ttl_nanos),
{
    touched_epoch != epoch && age_nanos > ttl_nanos
}

pub open spec fn max1(x: nat) -> nat {
    if x == 0 { 1 } else { x }
}

/// Target size of an aspect-preserving downscale: unchanged (but at least one
/// pixel each way) when the longest side fits `max_px`, else each side times
/// `max_px / longest`, computed in single precision as `f32` arithmetic does
/// (`side as f32 * (max_px as f32 / longest as f32)`, then `round()` and
/// `as u32`), never below one pixel.
pub open spec fn downscale_spec(width: nat, height: nat, max_px: nat) -> (nat, nat) {
    let longest = if width >= height { width } else { height };
    if longest == 0 || longest <= max_px {
        (max1(width), max1(height))
    } else {
        let scale = binary32_ratio(max_px, longest);
        (
            max1(saturate_u32(round_units(binary32_scaled(width, scale)))),
            max1(saturate_u32(round_units(binary32_scaled(height, scale)))),
        )
    }
}

/// Dimensions an image is decoded to so that its longest side is at most
/// `max_px`, preserving the aspect ratio.
pub fn downscale_dimensions(width: u32, height: u32, max_px: u32) -> (r: (u32, u32))
    ensures
        (r.0 as nat, r.1 as nat) == downscale_spec(width as nat, height as nat, max_px as nat),
{
    let longest = if width >= height { width } else { height };
    if longest == 0 || longest <= max_px {
        (if width == 0 { 1 } else { width }, if height == 0 { 1 } else { height })
    } else {
        let scale = ratio_exec(max_px, longest);
        let w = scaled_side_exec(width, scale);
        let h = scaled_side_exec(height, scale);
        (if w == 0 { 1 } else { w }, if h == 0 { 1 } else { h })
    }
}

/// Index of the last `c` in `s`, or -1.
pub open spec fn last_index_of(s: Seq<char>, c: char) -> int
    decreases s.len(),
{
    if s.len() == 0 {
        -1
    } else if s.last() == c {
        s.len() - 1
    } else {
        last_index_of(s.drop_last(), c)
    }
}

pub proof fn lemma_last_index_of_bounds(s: Seq<char>, c: char)
    ensures
        -1 <= last_index_of(s, c) < s.len(),
        last_index_of(s, c) >= 0 ==> s[last_index_of(s, c)] == c,
        forall|j: int| last_index_of(s, c) < j < s.len() ==> s[j] != c,
    decreases s.len(),
{
    if s.len() > 0 && s.last() != c {
        lemma_last_index_of_bounds(s.drop_last(), c);
        assert forall|j: int| last_index_of(s, c) < j < s.len() implies s[j] != c by {
            if j < s.len() - 1 {
                assert(s[j] == s.drop_last()[j]);
            }
        }
    }
}

proof fn lemma_last_index_of_found(s: Seq<char>, c: char, m: int)
    requires
        0 <= m <= s.len(),
        m == 0 || s[m - 1] == c,
        forall|j: int| m <= j < s.len() ==> s[j] != c,
    ensures
        last_index_of(s, c) == m - 1,
    decreases s.len(),
{
    if s.len() > m {
        assert(s.drop_last().len() == s.len() - 1);
        lemma_last_index_of_found(s.drop_last(), c, m);
    }
}

/// The final component of a `/`-separated path, as `Path::file_name` on Unix:
/// trailing separators and `.` components are skipped, and a final `..` has no
/// file name.
pub open spec fn file_name_spec(s: Seq<char>) -> Option<Seq<char>>
    decreases s.len(),
{
    if s.len() == 0 {
        None
    } else if s.last() == '/' {
        file_name_spec(s.drop_last())
    } else {
        let k = last_index_of(s, '/');
        let seg = s.subrange(k + 1, s.len() as int);
        if seg =~= seq!['.'] {
            proof { lemma_last_index_of_bounds(s, '/'); }
            file_name_spec(s.subrange(0, k + 1))
        } else if seg =~= seq!['.', '.'] {
            None
        } else {
            Some(seg)
        }
    }
}

/// The extension of a file name, as `Path::extension`: the text after the
/// last `.`, unless there is none or the only one leads the name.
pub open spec fn extension_spec(name: Seq<char>) -> Option<Seq<char>> {
    let d = last_index_of(name, '.');
    if d <= 0 { None } else { Some(name.subrange(d + 1, name.len() as int)) }
}

/// Whether a path names a GIF or WebP file (extension compared ignoring
/// ASCII case), so that it may hold an animation.
pub open spec fn path_maybe_animated_spec(path: Seq<char>) -> bool {
    match file_name_spec(path) {
        Some(name) => match extension_spec(name) {
            Some(ext) => eq_ignore_ascii_case(ext, seq!['g', 'i', 'f'])
                || eq_ignore_ascii_case(ext, seq!['w', 'e', 'b', 'p']),
            None => false,
        },
        None => false,
    }
}

/// Start of the component that ends at `end` (exclusive): one past the last
/// `/` before `end`, or 0.
fn component_start(s: &Vec<char>, end: usize, c: char) -> (r: usize)
    requires
        end <= s@.len(),
    ensures
        r <= end,
        r as int - 1 == last_index_of(s@.subrange(0, end as int), c),
{
    let mut k: usize = end;
    while k > 0 && s[k - 1] != c
        invariant
            k <= end <= s@.len(),
            forall|j: int| k <= j < end ==> s@[j] != c,
        decreases k,
    {
        k = k - 1;
    }
    proof {
        lemma_last_index_of_found(s@.subrange(0, end as int), c, k as int);
    }
    k
}

/// Bounds of the file name of the path held in `s`.
fn file_name_bounds(s: &Vec<char>) -> (r: Option<(usize, usize)>)
    ensures
        match r {
            Some((a, b)) => a <= b <= s@.len() && file_name_spec(s@) == Some(s@.subrange(a as int, b as int)),
            None => file_name_spec(s@) is None,
        },
{
    let mut end: usize = s.len();
    assert(s@.subrange(0, end as int) =~= s@);
    loop
        invariant
            end <= s@.len(),
            file_name_spec(s@) == file_name_spec(s@.subrange(0, end as int)),
        decreases end,
    {
        let ghost t = s@.subrange(0, end as int);
        if end == 0 {
            return None;
        }
        if s[end - 1] == '/' {
            assert(t.drop_last() =~= s@.subrange(0, end - 1));
            end = end - 1;
        } else {
            let start = component_start(s, end, '/');
            proof { lemma_last_index_of_bounds(t, '/'); }
            let len = end - start;
            if len == 1 && s[start] == '.' {
                assert(t.subrange(start as int, end as int) =~= seq!['.']);
                assert(t.subrange(0, start as int) =~= s@.subrange(0, start as int));
                end = start;
            } else if len == 2 && s[start] == '.' && s[start + 1] == '.' {
                assert(t.subrange(start as int, end as int) =~= seq!['.', '.']);
                return None;
            } else {
                let ghost seg = t.subrange(start as int, end as int);
                assert(!(seg =~= seq!['.'])) by {
                    if seg =~= seq!['.'] {
                        assert(seg[0] == s@[start as int]);
                    }
                }
                assert(!(seg =~= seq!['.', '.'])) by {
                    if seg =~= seq!['.', '.'] {
                        assert(seg[0] == s@[start as int]);
                        assert(seg[1] == s@[start + 1]);
                    }
                }
                assert(t.subrange(start as int, end as int) =~= s@.subrange(start as int, end as int));
                return Some((start, end));
            }
        }
    }
}

/// Whether `s[from..to]` spells `word` (lower-case ASCII) ignoring ASCII case.
fn range_eq_ignore_case(s: &Vec<char>, from: usize, to: usize, word: &Vec<char>) -> (r: bool)
    requires
        from <= to <= s@.len(),
        forall|i: int| 0 <= i < word@.len() ==> ascii_lower(#[trigger] word@[i]) == word@[i],
    ensures
        r == eq_ignore_ascii_case(s@.subrange(from as int, to as int), word@),
{
    if to - from != word.len() {
        return false;
    }
    let mut i: usize = 0;
    while i < word.len()
        invariant
            i <= word@.len(),
            to - from == word@.len(),
            from <= to <= s@.len(),
            forall|j: int| 0 <= j < i ==> ascii_lower(s@[from + j]) == ascii_lower(word@[j]),
            forall|j: int| 0 <= j < word@.len() ==> ascii_lower(#[trigger] word@[j]) == word@[j],
        decreases word@.len() - i,
    {
        if to_ascii_lower(s[from + i]) != word[i] {
            proof {
                let sub = s@.subrange(from as int, to as int);
                assert(sub[i as int] == s@[from + i]);
                assert(ascii_lower(word@[i as int]) == word@[i as int]);
                assert(ascii_lower(sub[i as int]) != ascii_lower(word@[i as int]));
            }
            return false;
        }
        i = i + 1;
    }
    proof {
        let sub = s@.subrange(from as int, to as int);
        assert forall|j: int| 0 <= j < sub.len() implies ascii_lower(#[trigger] sub[j]) == ascii_lower(word@[j]) by {
            assert(sub[j] == s@[from + j]);
        }
    }
    true
}

/// Whether a message attachment path may hold an animation (a `.gif` or
/// `.webp` extension, in any ASCII case); such files skip the static-only
/// fast decode path.
pub fn message_path_maybe_animated(path: &str) -> (r: bool)
    ensures
        r == path_maybe_animated_spec(path@),
{
    let s = chars_of(path);
    match file_name_bounds(&s) {
        None => false,
        Some((a, b)) => {
            let ghost name = s@.subrange(a as int, b as int);
            let dot = component_start(&s, b, '.');
            proof {
                assert(s@.subrange(0, b as int).subrange(a as int, b as int) =~= name);
                lemma_last_index_of_bounds(s@.subrange(0, b as int), '.');
                lemma_last_index_of_bounds(name, '.');
            }
            // The last dot inside the file name, relative to its start.
            if dot <= a || dot - a <= 1 {
                proof {
                    if last_index_of(name, '.') > 0 {
                        let d = last_index_of(name, '.');
                        assert(s@.subrange(0, b as int)[a + d] == '.');
                    }
                }
                false
            } else {
                proof {
                    assert(name[dot - 1 - a] == '.');
                    lemma_last_index_of_found(name, '.', dot - a);
                    assert(name.subrange(dot - a, name.len() as int) =~= s@.subrange(dot as int, b as int));
                }
                let gif = vec!['g', 'i', 'f'];
                let webp = vec!['w', 'e', 'b', 'p'];
                assert(gif@ =~= seq!['g', 'i', 'f']);
                assert(webp@ =~= seq!['w', 'e', 'b', 'p']);
                range_eq_ignore_case(&s, dot, b, &gif) || range_eq_ignore_case(&s, dot, b, &webp)
            }
        },
    }
}

/// How a loader turns a fetched file into frames.
#[derive(Clone, Copy, Debug, PartialEq, Eq, Structural)]
pub enum DecodeShape {
    /// First frame only, cropped to a square of at most `static_max_px`.
    SquareThumbnail,
    /// First frame only, longest side at most `static_max_px`.
    AspectThumbnail,
    /// Still images capped at `static_max_px`; animations keep every frame,
    /// each capped at `animation_max_px`, within `animation_byte_budget`.
    Frames,
}

/// The limits one loader applies while fetching and decoding.
#[derive(Clone, Copy, Debug, PartialEq, Eq, Structural)]
pub struct DecodePlan {
    pub fetch_max_bytes: usize,
    pub shape: DecodeShape,
    pub static_max_px: u32,
    pub animation_max_px: u32,
    pub animation_byte_budget: u64,
    /// Whether a local path is first handed to the scaled decoder directly.
    pub path_fast_decode: bool,
}

/// Which loader a cache decodes with.
#[derive(Clone, Copy, Debug, PartialEq, Eq, Structural)]
pub enum LoaderKind {
    Full,
    AvatarThumbnail,
    AvatarThumbnailSmall,
    IconThumbnail,
    GalleryThumbnail,
    OgpThumbnail,
    GalleryPreview,
    Message,
    Viewer,
}

pub open spec fn thumbnail_plan(fetch: usize, shape: DecodeShape, max_px: u32, fast: bool) -> DecodePlan {
    DecodePlan {
        fetch_max_bytes: fetch,
        shape,
        static_max_px: max_px,
        animation_max_px: 0,
        animation_byte_budget: 0,
        path_fast_decode: fast,
    }
}

pub open spec fn frames_plan(fetch: usize, static_px: u32, anim_px: u32, budget: u64, fast: bool) -> DecodePlan {
    DecodePlan {
        fetch_max_bytes: fetch,
        shape: DecodeShape::Frames,
        static_max_px: static_px,
        animation_max_px: anim_px,
        animation_byte_budget: budget,
        path_fast_decode: fast,
    }
}

pub open spec fn plan_spec(kind: LoaderKind) -> DecodePlan {
    match kind {
        LoaderKind::Full => frames_plan(MESSAGE_FETCH_MAX_BYTES, SHARED_STATIC_MAX_PX, SHARED_ANIMATION_MAX_PX, SHARED_ENTRY_MAX_BYTES, false),
        LoaderKind::AvatarThumbnail => thumbnail_plan(AVATAR_FETCH_MAX_BYTES, DecodeShape::SquareThumbnail, AVATAR_DECODE_MAX_PX, true),
        LoaderKind::AvatarThumbnailSmall => thumbnail_plan(AVATAR_FETCH_MAX_BYTES, DecodeShape::SquareThumbnail, AVATAR_SMALL_DECODE_MAX_PX, true),
        LoaderKind::IconThumbnail => thumbnail_plan(AVATAR_FETCH_MAX_BYTES, DecodeShape::SquareThumbnail, ICON_DECODE_MAX_PX, true),
        LoaderKind::GalleryThumbnail => thumbnail_plan(GALLERY_FETCH_MAX_BYTES, DecodeShape::SquareThumbnail, GALLERY_THUMB_DECODE_MAX_PX, false),
        LoaderKind::OgpThumbnail => thumbnail_plan(GALLERY_FETCH_MAX_BYTES, DecodeShape::AspectThumbnail, OGP_THUMB_DECODE_MAX_PX, false),
        LoaderKind::GalleryPreview => thumbnail_plan(GALLERY_FETCH_MAX_BYTES, DecodeShape::AspectThumbnail, GALLERY_PREVIEW_DECODE_MAX_PX, false),
        LoaderKind::Message => frames_plan(MESSAGE_FETCH_MAX_BYTES, MESSAGE_STATIC_MAX_PX, MESSAGE_ANIMATION_MAX_PX, MESSAGE_ENTRY_MAX_BYTES, true),
        LoaderKind::Viewer => frames_plan(VIEWER_FETCH_MAX_BYTES, VIEWER_STATIC_MAX_PX, VIEWER_ANIMATION_MAX_PX, VIEWER_IMAGE_ENTRY_MAX_BYTES, false),
    }
}

impl LoaderKind {
    /// The fetch and decode limits of this loader.
    pub fn plan(self) -> (r: DecodePlan)
        ensures
            r == plan_spec(self),
    {
        match self {
            LoaderKind::Full => DecodePlan {
                fetch_max_bytes: MESSAGE_FETCH_MAX_BYTES,
                shape: DecodeShape::Frames,
                static_max_px: SHARED_STATIC_MAX_PX,
                animation_max_px: SHARED_ANIMATION_MAX_PX,
                animation_byte_budget: SHARED_ENTRY_MAX_BYTES,
                path_fast_decode: false,
            },
            LoaderKind::AvatarThumbnail => thumbnail(AVATAR_FETCH_MAX_BYTES, DecodeShape::SquareThumbnail, AVATAR_DECODE_MAX_PX, true),
            LoaderKind::AvatarThumbnailSmall => thumbnail(AVATAR_FETCH_MAX_BYTES, DecodeShape::SquareThumbnail, AVATAR_SMALL_DECODE_MAX_PX, true),
            LoaderKind::IconThumbnail => thumbnail(AVATAR_FETCH_MAX_BYTES, DecodeShape::SquareThumbnail, ICON_DECODE_MAX_PX, true),
            LoaderKind::GalleryThumbnail => thumbnail(GALLERY_FETCH_MAX_BYTES, DecodeShape::SquareThumbnail, GALLERY_THUMB_DECODE_MAX_PX, false),
            LoaderKind::OgpThumbnail => thumbnail(GALLERY_FETCH_MAX_BYTES, DecodeShape::AspectThumbnail, OGP_THUMB_DECODE_MAX_PX, false),
            LoaderKind::GalleryPreview => thumbnail(GALLERY_FETCH_MAX_BYTES, DecodeShape::AspectThumbnail, GALLERY_PREVIEW_DECODE_MAX_PX, false),
            LoaderKind::Message => DecodePlan {
                fetch_max_bytes: MESSAGE_FETCH_MAX_BYTES,
                shape: DecodeShape::Frames,
                static_max_px: MESSAGE_STATIC_MAX_PX,
                animation_max_px: MESSAGE_ANIMATION_MAX_PX,
                animation_byte_budget: MESSAGE_ENTRY_MAX_BYTES,
                path_fast_decode: true,
            },
            LoaderKind::Viewer => DecodePlan {
                fetch_max_bytes: VIEWER_FETCH_MAX_BYTES,
                shape: DecodeShape::Frames,
                static_max_px: VIEWER_STATIC_MAX_PX,
                animation_max_px: VIEWER_ANIMATION_MAX_PX,
                animation_byte_budget: VIEWER_IMAGE_ENTRY_MAX_BYTES,
                path_fast_decode: false,
            },
        }
    }
}

fn thumbnail(fetch: usize, shape: DecodeShape, max_px: u32, fast: bool) -> (r: DecodePlan)
    ensures
        r == thumbnail_plan(fetch, shape, max_px, fast),
{
    DecodePlan {
        fetch_max_bytes: fetch,
        shape,
        static_max_px: max_px,
        animation_max_px: 0,
        animation_byte_budget: 0,
        path_fast_decode: fast,
    }
}

/// Each loader is a marker naming one decode plan (its single variant only
/// makes the type inhabited).
///
/// Loader for avatars: first frame only, cropped and shrunk to avatar size.
#[derive(Clone, Copy, Debug, PartialEq, Eq, Structural)]
pub enum AvatarImageLoader {
    Loader,
}

/// Loader for small avatars.
#[derive(Clone, Copy, Debug, PartialEq, Eq, Structural)]
pub enum AvatarImageLoaderSmall {
    Loader,
}

/// Loader for clan and app icons.
#[derive(Clone, Copy, Debug, PartialEq, Eq, Structural)]
pub enum IconImageLoader {
    Loader,
}

/// Loader for square gallery thumbnails.
#[derive(Clone, Copy, Debug, PartialEq, Eq, Structural)]
pub enum GalleryImageLoader {
    Loader,
}

/// Loader for link-preview banners, aspect preserved.
#[derive(Clone, Copy, Debug, PartialEq, Eq, Structural)]
pub enum OgpImageLoader {
    Loader,
}

/// Loader for timeline and event preview cards, aspect preserved.
#[derive(Clone, Copy, Debug, PartialEq, Eq, Structural)]
pub enum GalleryPreviewLoader {
    Loader,
}

/// Loader for message attachments: animations keep their frames, downscaled.
#[derive(Clone, Copy, Debug, PartialEq, Eq, Structural)]
pub enum MessageImageLoader {
    Loader,
}

/// Bounded loader behind the app-wide fallback cache.
#[derive(Clone, Copy, Debug, PartialEq, Eq, Structural)]
pub enum SharedImageLoader {
    Loader,
}

/// Loader for the image viewer.
#[derive(Clone, Copy, Debug, PartialEq, Eq, Structural)]
pub enum ViewerImageLoader {
    Loader,
}

impl AvatarImageLoader {
    pub fn plan() -> (r: DecodePlan)
        ensures
            r == plan_spec(LoaderKind::AvatarThumbnail),
    {
        LoaderKind::AvatarThumbnail.plan()
    }
}

impl AvatarImageLoaderSmall {
    pub fn plan() -> (r: DecodePlan)
        ensures
            r == plan_spec(LoaderKind::AvatarThumbnailSmall),
    {
        LoaderKind::AvatarThumbnailSmall.plan()
    }
}

impl IconImageLoader {
    pub fn plan() -> (r: DecodePlan)
        ensures
            r == plan_spec(LoaderKind::IconThumbnail),
    {
        LoaderKind::IconThumbnail.plan()
    }
}

impl GalleryImageLoader {
    pub fn plan() -> (r: DecodePlan)
        ensures
            r == plan_spec(LoaderKind::GalleryThumbnail),
    {
        LoaderKind::GalleryThumbnail.plan()
    }
}

impl OgpImageLoader {
    pub fn plan() -> (r: DecodePlan)
        ensures
            r == plan_spec(LoaderKind::OgpThumbnail),
    {
        LoaderKind::OgpThumbnail.plan()
    }
}

impl GalleryPreviewLoader {
    pub fn plan() -> (r: DecodePlan)
        ensures
            r == plan_spec(LoaderKind::GalleryPreview),
    {
        LoaderKind::GalleryPreview.plan()
    }
}

impl MessageImageLoader {
    pub fn plan() -> (r: DecodePlan)
        ensures
            r == plan_spec(LoaderKind::Message),
    {
        LoaderKind::Message.plan()
    }
}

impl SharedImageLoader {
    pub fn plan() -> (r: DecodePlan)
        ensures
            r == plan_spec(LoaderKind::Full),
    {
        LoaderKind::Full.plan()
    }
}

impl ViewerImageLoader {
    pub fn plan() -> (r: DecodePlan)
        ensures
            r == plan_spec(LoaderKind::Viewer),
    {
        LoaderKind::Viewer.plan()
    }
}

/// Side of the square an avatar or gallery thumbnail is cropped to: the
/// shorter source side, clamped to `1..=max_px`.
pub fn square_thumbnail_side(width: u32, height: u32, max_px: u32) -> (r: u32)
    requires
        max_px >= 1,
    ensures
        r == ({
            let shorter = if width <= height { width } else { height };
            if shorter < 1 { 1 } else if shorter > max_px { max_px } else { shorter }
        }),
{
    let shorter = if width <= height { width } else { height };
    if shorter < 1 { 1 } else if shorter > max_px { max_px } else { shorter }
}

/// Why a canvas is refused before decoding.
#[derive(Clone, Copy, Debug, PartialEq, Eq, Structural)]
pub enum CanvasRejection {
    /// A side exceeds [`MAX_DECODE_DIMENSION`].
    DimensionTooLarge,
    /// The area exceeds [`MAX_DECODE_PIXELS`].
    TooManyPixels,
}

/// The guard applied to a canvas before any frame is decoded.
pub fn canvas_rejection(width: u32, height: u32) -> (r: Option<CanvasRejection>)
    ensures
        r == (if width > MAX_DECODE_DIMENSION || height > MAX_DECODE_DIMENSION {
            Some(CanvasRejection::DimensionTooLarge)
        } else if width as int * height as int > MAX_DECODE_PIXELS {
            Some(CanvasRejection::TooManyPixels)
        } else {
            None
        }),
{
    if width > MAX_DECODE_DIMENSION || height > MAX_DECODE_DIMENSION {
        Some(CanvasRejection::DimensionTooLarge)
    } else if {
        proof {
            assert(width as int * height as int <= 16_384 * 16_384) by (nonlinear_arith)
                requires width <= 16_384, height <= 16_384;
        }
        (width as u64) * (height as u64) > MAX_DECODE_PIXELS
    } {
        Some(CanvasRejection::TooManyPixels)
    } else {
        None
    }
}

/// Bytes decoded so far by an animation after one more frame of `tw` x `th`
/// BGRA pixels (saturating), and whether that passes `budget`.
pub fn add_animation_frame(decoded: u64, tw: u32, th: u32, budget: u64) -> (r: (u64, bool))
    ensures
        r.0 == (if decoded + tw * th * 4 > u64::MAX { u64::MAX as int } else { decoded + tw * th * 4 }),
        r.1 == (r.0 > budget),
{
    proof {
        assert(tw as int * th as int <= 0xffff_ffff * 0xffff_ffff) by (nonlinear_arith)
            requires tw <= 0xffff_ffff, th <= 0xffff_ffff;
    }
    let frame: u128 = tw as u128 * th as u128 * 4;
    let total: u128 = decoded as u128 + frame;
    let next: u64 = if total > u64::MAX as u128 { u64::MAX } else { total as u64 };
    (next, next > budget)
}

/// Whether a response of `length` bytes is over a transfer limit.
pub fn exceeds_transfer_limit(length: u64, limit: usize) -> (r: bool)
    ensures
        r == (length > limit),
{
    length as u128 > limit as u128
}

/// Whether freeing `freed` bytes of atlas textures warrants handing memory
/// back to the OS.
pub fn should_release_memory(freed: u64) -> (r: bool)
    ensures
        r == (freed >= RELIEF_FLUSH_THRESHOLD_BYTES),
{
    freed >= RELIEF_FLUSH_THRESHOLD_BYTES
}

/// Whether the sweep counter has reached a stats-logging point.
pub fn stats_log_due(sweeps: u64) -> (r: bool)
    ensures
        r == (sweeps % STATS_LOG_INTERVAL == 0),
{
    sweeps % STATS_LOG_INTERVAL == 0
}

} // verus!
