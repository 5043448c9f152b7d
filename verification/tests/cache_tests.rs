use std::collections::VecDeque;
use viewskater::img_cache::{
    slider_load_targets, CacheError, CacheStrategy, CompressionStrategy, ImageCache, ImageMetadata, PathSource,
    SizeUnit,
};
use viewskater::load_op::{LoadOperation, LoadOperationType};
use viewskater::loading_status::LoadingStatus;

fn paths(n: usize) -> Vec<PathSource> {
    (0..n).map(|i| PathSource::Filesystem(format!("/images/img{}.png", i))).collect()
}

/// A cache of `n` paths, `c` images each side, current image `cur`, every slot filled with
/// the index of the image it holds, the window starting at `start`.
fn filled_cache(n: usize, c: usize, cur: usize, start: isize, offset: isize) -> ImageCache<u32> {
    let mut cache: ImageCache<u32> = ImageCache::new(&paths(n), c, CompressionStrategy::Uncompressed, cur);
    for slot in 0..(2 * c + 1) {
        let idx = start + slot as isize;
        cache.fill_slot(slot, Some(idx as u32), Some(ImageMetadata::new(10, 20, 30)), idx);
    }
    cache.current_offset = offset;
    cache
}

#[test]
fn new_cache_has_empty_window() {
    let cache: ImageCache<u32> = ImageCache::new(&paths(10), 2, CompressionStrategy::Bc1, 3);
    assert_eq!(cache.cached_data.len(), 5);
    assert!(cache.cached_data.iter().all(|d| d.is_none()));
    assert_eq!(cache.cached_image_indices, vec![-1; 5]);
    assert_eq!(cache.num_files, 10);
    assert_eq!(cache.current_index, 3);
    assert_eq!(cache.current_offset, 0);
    assert!(cache.loading_queue.is_empty());
}

#[test]
fn get_image_by_index_reports_errors() {
    let mut cache: ImageCache<u32> = ImageCache::new(&paths(10), 1, CompressionStrategy::Uncompressed, 0);
    cache.set_cached_data(1, 7);
    assert_eq!(cache.get_image_by_index(1), Ok(&7));
    assert_eq!(cache.get_image_by_index(0), Err(CacheError::NotCached));
    assert_eq!(cache.get_image_by_index(3), Err(CacheError::InvalidCacheIndex));
    // slot outside the window is left alone
    cache.set_cached_data(9, 8);
    assert_eq!(cache.cached_data.len(), 3);
    assert_eq!(cache.get_current_image(), Ok(&7));
}

#[test]
fn metadata_lookup() {
    let mut cache: ImageCache<u32> = ImageCache::new(&paths(10), 1, CompressionStrategy::Uncompressed, 0);
    cache.set_cached_metadata(1, ImageMetadata::new(4, 5, 6));
    assert_eq!(cache.get_metadata_by_index(1).map(|m| m.width), Some(4));
    assert!(cache.get_metadata_by_index(0).is_none());
    assert!(cache.get_metadata_by_index(5).is_none());
    assert_eq!(cache.get_initial_metadata().map(|m| m.file_size), Some(6));
}

#[test]
fn shift_left_then_right_restores_slots() {
    let mut cache = filled_cache(20, 2, 5, 3, 0);
    let before_data = cache.cached_data.clone();
    let before_offset = cache.current_offset;
    cache.shift_cache_left(Some(99), None);
    assert_eq!(cache.cached_data, vec![Some(4), Some(5), Some(6), Some(7), Some(99)]);
    assert_eq!(cache.cached_image_indices, vec![4, 5, 6, 7, 8]);
    assert_eq!(cache.current_offset, before_offset - 1);
    cache.shift_cache_right(Some(3), None);
    assert_eq!(cache.cached_data, before_data);
    assert_eq!(cache.cached_image_indices, vec![3, 4, 5, 6, 7]);
    assert_eq!(cache.current_offset, before_offset);
}

#[test]
fn move_next_and_prev_stop_at_the_ends() {
    let mut last = filled_cache(5, 1, 4, 2, 1);
    assert_eq!(last.move_next(Some(1), None, 5), Err(CacheError::NoMoreImages));
    assert_eq!(last.move_next_edge(None, 5), Err(CacheError::NoMoreImages));
    let mut first = filled_cache(5, 1, 0, 0, -1);
    assert_eq!(first.move_prev(Some(1), None, -1), Err(CacheError::NoPreviousImages));
    assert_eq!(first.move_prev_edge(None, -1), Err(CacheError::NoPreviousImages));
    let mut mid = filled_cache(5, 1, 2, 1, 0);
    assert_eq!(mid.move_next(Some(4), None, 4), Ok(false));
    assert_eq!(mid.cached_data, vec![Some(2), Some(3), Some(4)]);
    assert_eq!(mid.current_offset, -1);
    assert_eq!(mid.move_prev(Some(1), None, 1), Ok(false));
    assert_eq!(mid.cached_data, vec![Some(1), Some(2), Some(3)]);
    assert_eq!(mid.current_offset, 0);
}

#[test]
fn initial_image_follows_the_offset() {
    let cache = filled_cache(10, 2, 1, 0, -1);
    assert_eq!(cache.get_initial_image(), Ok(&1));
    assert_eq!(cache.get_next_cache_index(), 2);
    assert_eq!(cache.get_next_image_to_load(), 5);
    let mid = filled_cache(10, 2, 5, 3, 0);
    assert_eq!(mid.get_prev_image_to_load(), 2);
    assert!(mid.is_next_cache_index_within_bounds());
    assert!(mid.is_prev_cache_index_within_bounds());
    assert!(mid.is_image_index_within_bounds(-2));
    assert!(mid.is_image_index_within_bounds(11));
    assert!(!mid.is_image_index_within_bounds(12));
    assert!(mid.is_some_at_index(4));
    assert!(!mid.is_cache_index_within_bounds(5));
}

#[test]
fn blocking_at_the_window_edges() {
    let at_start = filled_cache(10, 2, 2, 0, -2);
    assert!(at_start.is_operation_blocking(LoadOperationType::LoadNext));
    assert!(!at_start.is_operation_blocking(LoadOperationType::LoadPrevious));
    let at_end = filled_cache(10, 2, 7, 5, 2);
    assert!(at_end.is_operation_blocking(LoadOperationType::LoadPrevious));
    assert!(!at_end.is_operation_blocking(LoadOperationType::ShiftNext));
    let status = LoadingStatus::new();
    let op = LoadOperation::LoadNext((vec![0], vec![Some(3)]));
    assert!(at_start.is_blocking_loading_ops_in_queue(op, &status));
    let mut busy = LoadingStatus::new();
    busy.enqueue_image_being_loaded(LoadOperation::LoadPrevious((vec![0], vec![Some(1)])));
    let op = LoadOperation::LoadNext((vec![0], vec![Some(3)]));
    assert!(at_end.is_blocking_loading_ops_in_queue(op, &busy));
    let op = LoadOperation::LoadNext((vec![0], vec![Some(3)]));
    assert!(!at_end.is_blocking_loading_ops_in_queue(op, &LoadingStatus::new()));
}

#[test]
fn initial_load_plan_near_the_start() {
    let mut cache: ImageCache<u32> = ImageCache::new(&paths(10), 2, CompressionStrategy::Uncompressed, 0);
    let plan = cache.initial_load_plan();
    assert_eq!(plan, vec![(0, 0), (1, 1), (2, 2), (3, 3), (4, 4)]);
    assert_eq!(cache.current_offset, -2);
}

#[test]
fn initial_load_plan_near_the_end_and_short_lists() {
    let mut cache: ImageCache<u32> = ImageCache::new(&paths(10), 2, CompressionStrategy::Uncompressed, 9);
    let plan = cache.initial_load_plan();
    assert_eq!(plan, vec![(0, 5), (1, 6), (2, 7), (3, 8), (4, 9)]);
    assert_eq!(cache.current_offset, 2);
    let mut short: ImageCache<u32> = ImageCache::new(&paths(3), 2, CompressionStrategy::Uncompressed, 1);
    let plan = short.initial_load_plan();
    assert_eq!(plan, vec![(0, 0), (1, 1), (2, 2)]);
    assert_eq!(short.current_offset, -1);
}

#[test]
fn single_image_slot_cases() {
    let mut start: ImageCache<u32> = ImageCache::new(&paths(10), 2, CompressionStrategy::Uncompressed, 1);
    assert_eq!(start.single_image_slot(), Ok(1));
    assert_eq!(start.current_offset, -1);
    let mut end: ImageCache<u32> = ImageCache::new(&paths(10), 2, CompressionStrategy::Uncompressed, 8);
    assert_eq!(end.single_image_slot(), Ok(3));
    assert_eq!(end.current_offset, 1);
    let mut mid: ImageCache<u32> = ImageCache::new(&paths(10), 2, CompressionStrategy::Uncompressed, 5);
    assert_eq!(mid.single_image_slot(), Ok(2));
    assert_eq!(mid.current_offset, 0);
}

#[test]
fn place_slider_image_moves_the_window() {
    let mut cache: ImageCache<u32> = ImageCache::new(&paths(10), 2, CompressionStrategy::Uncompressed, 0);
    assert_eq!(cache.place_slider_image(6, 60), 2);
    assert_eq!(cache.current_index, 6);
    assert_eq!(cache.current_offset, 0);
    assert_eq!(cache.cached_data[2], Some(60));
    assert_eq!(cache.cached_image_indices[2], 6);
    assert_eq!(cache.place_slider_image(9, 90), 4);
    assert_eq!(cache.current_offset, 2);
    assert_eq!(cache.place_slider_image(0, 1), 0);
    assert_eq!(cache.current_offset, -2);
}

#[test]
fn slider_targets_in_the_middle_and_at_the_ends() {
    assert_eq!(
        slider_load_targets(5, 2, 20),
        vec![Some((6, 3)), Some((4, 1)), Some((7, 4)), Some((3, 0))]
    );
    assert_eq!(
        slider_load_targets(0, 2, 20),
        vec![Some((0, 0)), Some((1, 1)), Some((2, 2)), Some((3, 3)), Some((4, 4))]
    );
    assert_eq!(
        slider_load_targets(19, 2, 20),
        vec![Some((15, 0)), Some((16, 1)), Some((17, 2)), Some((18, 3)), Some((19, 4))]
    );
}

#[test]
fn clear_cache_empties_everything() {
    let mut cache = filled_cache(10, 2, 5, 3, 0);
    cache.loading_queue.push_back(LoadOperation::LoadNext((vec![0], vec![Some(8)])));
    cache.clear_cache();
    assert_eq!(cache.cached_data.len(), 1);
    assert!(cache.cached_data[0].is_none());
    assert!(cache.image_paths.is_empty());
    assert_eq!(cache.num_files, 0);
    assert_eq!(cache.cache_count, 0);
    assert!(cache.loading_queue.is_empty());
}

#[test]
fn metadata_strings_and_units() {
    let m = ImageMetadata::new(640, 480, 512);
    assert_eq!(m.resolution_string(), "640x480");
    assert_eq!(m.file_size_unit(), SizeUnit::Bytes);
    assert_eq!(ImageMetadata::new(1, 1, 2048).file_size_unit(), SizeUnit::KiloBytes);
    assert_eq!(ImageMetadata::new(1, 1, 3 * 1024 * 1024).file_size_unit(), SizeUnit::MegaBytes);
}

#[test]
fn path_source_names() {
    let fs = PathSource::Filesystem("/photos/trip/beach.jpg".to_string());
    assert_eq!(fs.file_name(), "beach.jpg");
    assert_eq!(fs.path(), "/photos/trip/beach.jpg");
    let ar = PathSource::Archive("trip/beach.jpg".to_string());
    assert_eq!(ar.file_name(), "trip/beach.jpg");
    let pre = PathSource::Preloaded("a/b.png".to_string());
    assert_eq!(pre.file_name(), "a/b.png");
    let root = PathSource::Filesystem("/".to_string());
    assert_eq!(root.file_name(), "");
}

#[test]
fn cache_strategy_kinds() {
    assert!(CacheStrategy::Gpu.is_gpu_based());
    assert!(!CacheStrategy::Cpu.is_gpu_based());
}

#[test]
fn operation_types() {
    assert_eq!(LoadOperation::LoadNext((vec![], vec![])).operation_type(), LoadOperationType::LoadNext);
    assert_eq!(LoadOperation::ShiftPrevious((vec![], vec![])).operation_type(), LoadOperationType::ShiftPrevious);
    assert_eq!(LoadOperation::LoadPos((0, vec![])).operation_type(), LoadOperationType::LoadPos);
}

#[test]
fn loading_status_queues() {
    let mut s = LoadingStatus::new();
    assert!(!s.is_operation_in_queues(LoadOperationType::LoadNext));
    s.enqueue_image_load(LoadOperation::LoadNext((vec![0], vec![Some(4)])));
    s.enqueue_image_load(LoadOperation::LoadPrevious((vec![0], vec![Some(1)])));
    s.enqueue_image_load(LoadOperation::ShiftNext((vec![0], vec![None])));
    assert!(s.is_load_next_items_in_queue());
    assert!(s.is_load_previous_items_in_queue());
    assert!(s.is_operation_in_queues(LoadOperationType::ShiftNext));
    assert!(!s.are_next_image_indices_in_queue(vec![Some(4)]));
    assert!(s.are_next_image_indices_in_queue(vec![Some(5)]));
    s.reset_load_next_queue_items();
    assert_eq!(s.loading_queue.len(), 1);
    assert!(!s.is_load_next_items_in_queue());
    assert!(s.is_load_previous_items_in_queue());
    s.reset_load_previous_queue_items();
    assert!(s.loading_queue.is_empty());
    s.enqueue_image_being_loaded(LoadOperation::LoadPos((0, vec![Some((3, 1))])));
    assert!(s.is_operation_in_queues(LoadOperationType::LoadPos));
    assert!(!s.is_next_image_index_in_queue(0, 3));
    assert!(s.is_next_image_index_in_queue(0, 2));
    s.reset_image_being_loaded_queue();
    assert!(s.being_loaded_queue.is_empty());
    s.enqueue_image_load(LoadOperation::LoadNext((vec![0], vec![Some(4)])));
    s.reset_image_load_queue();
    assert!(s.loading_queue.is_empty());
}

#[test]
fn out_of_order_images_are_popped_once() {
    let mut s = LoadingStatus::new();
    s.out_of_order_images.push((3, vec![1, 2]));
    s.out_of_order_images.push((5, vec![9]));
    s.out_of_order_images.push((3, vec![7]));
    assert_eq!(s.pop_out_of_order_image(3), Some(vec![1, 2]));
    assert_eq!(s.pop_out_of_order_image(3), Some(vec![7]));
    assert_eq!(s.pop_out_of_order_image(3), None);
    assert_eq!(s.out_of_order_images.len(), 1);
}

#[test]
fn operation_in_cache_queues() {
    let mut cache: ImageCache<u32> = ImageCache::new(&paths(4), 1, CompressionStrategy::Uncompressed, 0);
    assert!(!cache._is_operation_in_queues(LoadOperationType::LoadNext));
    cache.being_loaded_queue = VecDeque::from(vec![LoadOperation::LoadNext((vec![0], vec![Some(2)]))]);
    assert!(cache._is_operation_in_queues(LoadOperationType::LoadNext));
    cache._set_compression_strategy(CompressionStrategy::Bc1);
    assert_eq!(cache.compression_strategy, CompressionStrategy::Bc1);
}

#[test]
fn dropping_forward_loads_leaves_none() {
    let mut status = LoadingStatus::new();
    status.enqueue_image_load(LoadOperation::LoadNext((vec![0], vec![Some(4)])));
    status.enqueue_image_load(LoadOperation::LoadPrevious((vec![0], vec![Some(1)])));
    status.enqueue_image_load(LoadOperation::ShiftNext((vec![0], vec![None])));
    status.reset_load_next_queue_items();
    assert!(!status.is_load_next_items_in_queue());
    assert_eq!(status.loading_queue.len(), 1);
    status.reset_load_next_queue_items();
    assert_eq!(status.loading_queue.len(), 1);
    status.reset_load_previous_queue_items();
    assert!(!status.is_load_previous_items_in_queue());
    assert!(status.loading_queue.is_empty());
}

#[test]
fn slider_targets_fill_distinct_slots() {
    for pos in 0..20usize {
        let targets = slider_load_targets(pos, 3, 20);
        let mut slots: Vec<usize> = targets.iter().map(|t| t.unwrap().1).collect();
        assert!(targets.iter().all(|t| { let (i, s) = t.unwrap(); (0..20).contains(&i) && s <= 6 }));
        slots.sort();
        slots.dedup();
        assert_eq!(slots.len(), targets.len());
    }
}
