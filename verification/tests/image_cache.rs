use std::time::Duration;

use mezon_ui::image_cache::ledger::{ItemStatus, LoadOutcome, LruImageCache};
use mezon_ui::image_cache::{
    add_animation_frame, exceeds_transfer_limit, should_release_memory, stats_log_due, LoaderKind,
    RELIEF_FLUSH_THRESHOLD_BYTES, STATS_LOG_INTERVAL, MESSAGE_ENTRY_MAX_BYTES, MESSAGE_STATIC_MAX_PX,
    MessageImageLoader, DecodeShape,
    canvas_rejection, downscale_dimensions, entry_is_idle, entry_is_stale, message_path_maybe_animated,
    square_thumbnail_side, CanvasRejection, GALLERY_IMAGE_CACHE_BYTES, GRACE_PERIOD_NANOS,
    IDLE_TRIM_INTERVAL_NANOS, IDLE_TRIM_TTL_NANOS, IMAGE_PIPELINE_CONCURRENCY, MESSAGE_FETCH_MAX_BYTES,
    MESSAGE_IMAGE_CACHE_BYTES, OGP_SHARED_CACHE_BYTES, PREVIEW_IMAGE_CACHE_BYTES, PREVIEW_IMAGE_CACHE_CAPACITY,
    SHARED_IMAGE_CACHE_BYTES, VIEWER_FETCH_MAX_BYTES, VIEWER_IMAGE_CACHE_BYTES,
};

fn nanos(d: Duration) -> u64 {
    d.as_nanos() as u64
}

#[test]
fn image_cache_budgets_bound_the_visible_working_set() {
    assert_eq!(IMAGE_PIPELINE_CONCURRENCY, 3);
    assert_eq!(MESSAGE_FETCH_MAX_BYTES, 32 * 1024 * 1024);
    assert_eq!(VIEWER_FETCH_MAX_BYTES, 32 * 1024 * 1024);
    assert_eq!(MESSAGE_IMAGE_CACHE_BYTES, 32 * 1024 * 1024);
    assert_eq!(VIEWER_IMAGE_CACHE_BYTES, 32 * 1024 * 1024);
    assert_eq!(GALLERY_IMAGE_CACHE_BYTES, 12 * 1024 * 1024);
    assert_eq!(PREVIEW_IMAGE_CACHE_CAPACITY, 64);
    assert_eq!(PREVIEW_IMAGE_CACHE_BYTES, 32 * 1024 * 1024);
    assert_eq!(SHARED_IMAGE_CACHE_BYTES, 24 * 1024 * 1024);
    assert_eq!(OGP_SHARED_CACHE_BYTES, 8 * 1024 * 1024);
    assert_eq!(IDLE_TRIM_INTERVAL_NANOS, nanos(Duration::from_secs(30)));
    assert_eq!(IDLE_TRIM_TTL_NANOS, nanos(Duration::from_secs(60)));
}

#[test]
fn touched_this_epoch_is_never_stale() {
    assert!(!entry_is_stale(7, 7, GRACE_PERIOD_NANOS + nanos(Duration::from_secs(5)), GRACE_PERIOD_NANOS));
}

#[test]
fn untouched_within_grace_window_is_kept() {
    assert!(!entry_is_stale(6, 7, GRACE_PERIOD_NANOS / 2, GRACE_PERIOD_NANOS));
}

#[test]
fn untouched_past_grace_window_is_evicted() {
    assert!(entry_is_stale(6, 7, GRACE_PERIOD_NANOS + nanos(Duration::from_millis(1)), GRACE_PERIOD_NANOS));
}

#[test]
fn idle_trim_never_evicts_the_current_visible_epoch() {
    assert!(!entry_is_idle(7, 7, IDLE_TRIM_TTL_NANOS + nanos(Duration::from_secs(1)), IDLE_TRIM_TTL_NANOS));
    assert!(entry_is_idle(6, 7, IDLE_TRIM_TTL_NANOS + nanos(Duration::from_secs(1)), IDLE_TRIM_TTL_NANOS));
}

#[test]
fn downscale_keeps_images_within_cap_unchanged() {
    assert_eq!(downscale_dimensions(300, 200, 400), (300, 200));
    assert_eq!(downscale_dimensions(400, 400, 400), (400, 400));
}

#[test]
fn downscale_shrinks_oversized_preserving_aspect() {
    assert_eq!(downscale_dimensions(800, 400, 400), (400, 200));
    assert_eq!(downscale_dimensions(498, 498, 400), (400, 400));
}

#[test]
fn downscale_handles_zero_dimension() {
    assert_eq!(downscale_dimensions(0, 0, 400), (1, 1));
}

#[test]
fn downscale_rounds_the_short_side_to_nearest() {
    assert_eq!(downscale_dimensions(1000, 333, 400), (400, 133));
    assert_eq!(downscale_dimensions(333, 1000, 100), (33, 100));
    assert_eq!(downscale_dimensions(4000, 1, 400), (400, 1));
}

#[test]
fn animated_paths_are_gif_and_webp_file_names() {
    assert!(message_path_maybe_animated("https://cdn.example/a/b/pic.GIF"));
    assert!(message_path_maybe_animated("https://cdn.example/a/b/pic.webp"));
    assert!(!message_path_maybe_animated("https://cdn.example/a/b/pic.png"));
    assert!(!message_path_maybe_animated(""));
}

#[test]
fn square_thumbnails_and_canvas_limits() {
    assert_eq!(square_thumbnail_side(800, 400, 160), 160);
    assert_eq!(square_thumbnail_side(100, 50, 160), 50);
    assert_eq!(square_thumbnail_side(0, 50, 160), 1);
    assert_eq!(canvas_rejection(100, 100), None);
    assert_eq!(canvas_rejection(20_000, 10), Some(CanvasRejection::DimensionTooLarge));
    assert_eq!(canvas_rejection(8_000, 8_000), Some(CanvasRejection::TooManyPixels));
}

#[test]
fn a_requested_entry_is_a_miss_then_resident() {
    let mut cache = LruImageCache::new(4, 1_000, 1);
    let first = cache.load(42, 10, ItemStatus::Loading);
    assert_eq!(first.outcome, LoadOutcome::Miss);
    let second = cache.load(42, 20, ItemStatus::Decoded(100));
    assert_eq!(second.outcome, LoadOutcome::Kept(100));
    let third = cache.load(42, 30, ItemStatus::Decoded(100));
    assert_eq!(third.outcome, LoadOutcome::Resident);
    let stats = cache.stats();
    assert_eq!(stats.items, 1);
    assert_eq!(stats.current_bytes, 100);
    assert_eq!(stats.misses, 1);
    assert_eq!(stats.hits, 2);
}

#[test]
fn the_byte_budget_evicts_least_recently_used() {
    let mut cache = LruImageCache::new(10, 250, 1);
    cache.load(1, 10, ItemStatus::Loading);
    cache.load(1, 11, ItemStatus::Decoded(100));
    cache.load(2, 20, ItemStatus::Loading);
    cache.load(2, 21, ItemStatus::Decoded(100));
    cache.load(3, 30, ItemStatus::Loading);
    let kept = cache.load(3, 31, ItemStatus::Decoded(100));
    assert_eq!(kept.evicted, vec![1]);
    assert!(cache.stats().current_bytes <= 250);
}

#[test]
fn a_sweep_keeps_what_the_current_frame_requested() {
    let mut cache = LruImageCache::new(10, 10_000, 1);
    cache.load(5, 0, ItemStatus::Loading);
    cache.load(5, 1, ItemStatus::Decoded(10));
    let dropped = cache.sweep(GRACE_PERIOD_NANOS * 10);
    assert!(dropped.is_empty());
    let dropped = cache.sweep(GRACE_PERIOD_NANOS * 10);
    assert_eq!(dropped, vec![5]);
    assert_eq!(cache.stats().items, 0);
}

#[test]
fn clearing_drops_every_entry() {
    let mut cache = LruImageCache::new(10, 10_000, 1);
    cache.load(1, 0, ItemStatus::Loading);
    cache.load(2, 0, ItemStatus::Loading);
    let keys = cache.clear();
    assert_eq!(keys.len(), 2);
    assert_eq!(cache.stats().items, 0);
    assert_eq!(cache.stats().current_bytes, 0);
}

#[test]
fn constructors_pick_their_loader() {
    let caches = [
        (LruImageCache::avatar_thumbnail("avatars", 8, 100, 10, 1), LoaderKind::AvatarThumbnail),
        (LruImageCache::avatar_thumbnail_small("small", 8, 100, 10, 2), LoaderKind::AvatarThumbnailSmall),
        (LruImageCache::icon_thumbnail("icons", 8, 100, 10, 3), LoaderKind::IconThumbnail),
        (LruImageCache::gallery_thumbnail("gallery", 8, 100, 10, 4), LoaderKind::GalleryThumbnail),
        (LruImageCache::ogp_thumbnail("ogp", 8, 100, 10, 5), LoaderKind::OgpThumbnail),
        (LruImageCache::gallery_preview("preview", 8, 100, 10, 6), LoaderKind::GalleryPreview),
        (LruImageCache::message("message", 8, 100, 10, 7), LoaderKind::Message),
        (LruImageCache::viewer("viewer", 8, 100, 10, 8), LoaderKind::Viewer),
    ];
    for (k, (cache, kind)) in caches.iter().enumerate() {
        assert_eq!(cache.loader_kind(), *kind);
        assert_eq!(cache.instance_id(), k as u64 + 1);
        assert_eq!(cache.stats().items, 0);
    }
    assert_eq!(caches[0].0.label_str(), "avatars");
    assert_eq!(LruImageCache::new(1, 1, 9).loader_kind(), LoaderKind::Full);
}

#[test]
fn one_sweep_per_frame() {
    let mut cache = LruImageCache::new(10, 10_000, 1);
    cache.load(5, 0, ItemStatus::Loading);
    assert_eq!(cache.sweep_once_per_frame(1), Some(vec![]));
    assert_eq!(cache.sweep_once_per_frame(GRACE_PERIOD_NANOS * 10), None);
    cache.end_frame();
    assert_eq!(cache.sweep_once_per_frame(GRACE_PERIOD_NANOS * 10), Some(vec![5]));
}

#[test]
fn idle_trim_and_shrink() {
    let mut cache = LruImageCache::new(10, 10_000, 1);
    cache.load(1, 0, ItemStatus::Loading);
    cache.load(1, 1, ItemStatus::Decoded(300));
    cache.load(2, 0, ItemStatus::Loading);
    cache.load(2, 2, ItemStatus::Decoded(300));
    assert!(cache.evict_idle(100, 50).is_empty());
    cache.sweep(0);
    cache.load(2, 500, ItemStatus::Decoded(300));
    assert_eq!(cache.evict_idle(100, 500), vec![1]);
    assert_eq!(cache.stats().items, 1);
    cache.load(3, 600, ItemStatus::Loading);
    cache.load(3, 601, ItemStatus::Decoded(300));
    assert_eq!(cache.shrink_to(300), vec![2]);
    assert_eq!(cache.stats().current_bytes, 300);
    assert_eq!(cache.shrink_to(0), vec![3]);
    assert_eq!(cache.stats().items, 0);
}

#[test]
fn animation_and_transfer_limits() {
    assert_eq!(add_animation_frame(0, 10, 10, 1_000), (400, false));
    assert_eq!(add_animation_frame(800, 10, 10, 1_000), (1_200, true));
    assert_eq!(add_animation_frame(u64::MAX - 1, 10, 10, u64::MAX), (u64::MAX, false));
    assert!(exceeds_transfer_limit(11, 10));
    assert!(!exceeds_transfer_limit(10, 10));
    assert!(should_release_memory(RELIEF_FLUSH_THRESHOLD_BYTES));
    assert!(!should_release_memory(RELIEF_FLUSH_THRESHOLD_BYTES - 1));
    assert!(stats_log_due(0));
    assert!(stats_log_due(STATS_LOG_INTERVAL * 2));
    assert!(!stats_log_due(STATS_LOG_INTERVAL + 1));
}

#[test]
fn static_frame_downscales_oversized_within_cap() {
    assert_eq!(downscale_dimensions(800, 400, 400), (400, 200));
}

#[test]
fn static_frame_keeps_small_image_full_size() {
    assert_eq!(downscale_dimensions(320, 240, 1600), (320, 240));
}

#[test]
fn message_static_cap_bounds_decoded_bytes() {
    let (w, h) = downscale_dimensions(5120, 4096, MESSAGE_STATIC_MAX_PX);
    assert_eq!(w.max(h), MESSAGE_STATIC_MAX_PX);
    assert!(u64::from(w) * u64::from(h) * 4 < MESSAGE_ENTRY_MAX_BYTES);
}

#[test]
fn message_static_cap_covers_two_x_inline_display() {
    const MAX_INLINE_LOGICAL_PX: u32 = 480;
    assert!(MESSAGE_STATIC_MAX_PX >= MAX_INLINE_LOGICAL_PX * 2);
    let plan = MessageImageLoader::plan();
    assert_eq!(plan.static_max_px, MESSAGE_STATIC_MAX_PX);
    assert_eq!(plan.shape, DecodeShape::Frames);
    assert!(plan.path_fast_decode);
}

fn single_precision_downscale(width: u32, height: u32, max_px: u32) -> (u32, u32) {
    let longest = width.max(height);
    if longest == 0 || longest <= max_px {
        (width.max(1), height.max(1))
    } else {
        let scale = max_px as f32 / longest as f32;
        (
            ((width as f32 * scale).round() as u32).max(1),
            ((height as f32 * scale).round() as u32).max(1),
        )
    }
}

#[test]
fn downscale_rounds_like_single_precision() {
    assert_eq!(downscale_dimensions(576, 90, 400), (400, 62));
    let sides: [u32; 14] = [
        0, 1, 2, 3, 90, 333, 576, 1000, 4097, 16_777_217, 33_554_433, 123_456_789, 4_000_000_001, u32::MAX,
    ];
    let caps: [u32; 8] = [0, 1, 7, 100, 400, 1600, 16_777_217, 3_000_000_000];
    for &w in sides.iter() {
        for &h in sides.iter() {
            for &m in caps.iter() {
                assert_eq!(downscale_dimensions(w, h, m), single_precision_downscale(w, h, m), "{w}x{h} to {m}");
            }
        }
    }
    let mut seed: u64 = 0x9e37_79b9_7f4a_7c15;
    for _ in 0..20_000 {
        seed = seed.wrapping_mul(6364136223846793005).wrapping_add(1442695040888963407);
        let w = (seed >> 40) as u32 % 5000;
        let h = (seed >> 20) as u32 % 5000;
        let m = (seed >> 5) as u32 % 2000;
        assert_eq!(downscale_dimensions(w, h, m), single_precision_downscale(w, h, m), "{w}x{h} to {m}");
    }
}

#[test]
fn equal_last_use_evicts_in_map_order_after_each_swap_remove() {
    let mut cache = LruImageCache::new(10, 10_000, 1);
    for key in [1u64, 2, 3] {
        cache.load(key, 5, ItemStatus::Loading);
    }
    for key in [1u64, 2, 3] {
        cache.load(key, 5, ItemStatus::Decoded(100));
    }
    assert_eq!(cache.shrink_to(150), vec![1, 3]);
    assert_eq!(cache.stats().items, 1);
}
